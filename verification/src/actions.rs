//! What the user can trigger: code actions, the commands behind them, and the
//! commands that arrive over the control channel.

use vstd::prelude::*;

use crate::control::Command;
use crate::lsp::{indexes, owner, Backend, CMD_OPEN, CMD_RESTART, CMD_START, CMD_STOP};
use crate::number::{decimal, decimal_of};
use crate::server::{LiveServer, LiveServerModel, Status, StatusModel};
use crate::text::{owned, same_text, texts};

verus! {

/* ------------------------------------------------------------- code actions */

/// A code action: a title, and a command with its arguments.
pub struct Action {
    pub title: String,
    pub command: String,
    pub arguments: Vec<String>,
}

/// What an action says.
pub struct ActionModel {
    pub title: Seq<char>,
    pub command: Seq<char>,
    pub arguments: Seq<Seq<char>>,
}

impl View for Action {
    type V = ActionModel;

    open spec fn view(&self) -> ActionModel {
        ActionModel {
            title: self.title@,
            command: self.command@,
            arguments: texts(self.arguments@),
        }
    }
}

/// What a list of actions says.
pub open spec fn action_models(list: Seq<Action>) -> Seq<ActionModel> {
    Seq::new(list.len(), |i: int| list[i]@)
}

/// Builds a code action that runs one of our commands.
pub fn action(title: &str, command: &str, arguments: Vec<String>) -> (r: Action)
    ensures
        r@ == (ActionModel { title: title@, command: command@, arguments: texts(arguments@) }),
{
    Action { title: owned(title), command: owned(command), arguments }
}

/// A title that names a port.
pub open spec fn port_title(lead: Seq<char>, port: u16) -> Seq<char> {
    lead + " (:"@ + decimal(port as nat) + ")"@
}

/// The actions offered on a file, given its server. They describe the server's
/// actual state, so the list never contains something that would be a no-op.
pub open spec fn offered(server: LiveServerModel, file: Seq<char>) -> Seq<ActionModel> {
    let root = server.workspace;
    match server.status {
        StatusModel::Running { host, port } => seq![
            ActionModel {
                title: port_title("Live Reload: open this file in the browser"@, port),
                command: CMD_OPEN@,
                arguments: seq![root, file],
            },
            ActionModel {
                title: port_title("Live Reload: restart server"@, port),
                command: CMD_RESTART@,
                arguments: seq![root],
            },
            ActionModel {
                title: port_title("Live Reload: stop server"@, port),
                command: CMD_STOP@,
                arguments: seq![root],
            },
        ],
        StatusModel::Stopped => seq![
            ActionModel {
                title: "Live Reload: start server"@,
                command: CMD_START@,
                arguments: seq![root],
            },
        ],
    }
}

fn titled(lead: &str, port: u16) -> (r: String)
    ensures
        r@ == port_title(lead@, port),
{
    let mut out = owned(lead);
    out.append(" (:");
    out.append(decimal_of(port as u64).as_str());
    out.append(")");
    out
}

fn one(text: &str) -> (r: Vec<String>)
    ensures
        texts(r@) == seq![text@],
{
    let r = vec![owned(text)];
    assert(texts(r@) =~= seq![text@]);
    r
}

fn two(first: &str, second: &str) -> (r: Vec<String>)
    ensures
        texts(r@) == seq![first@, second@],
{
    let r = vec![owned(first), owned(second)];
    assert(texts(r@) =~= seq![first@, second@]);
    r
}

/// Lists the actions to offer on a file, if it belongs to a workspace.
pub fn code_action(backend: &Backend, file: &str) -> (r: Option<Vec<Action>>)
    ensures
        match owner(backend@.servers, file@) {
            Some(i) => r matches Some(list) && action_models(list@) == offered(
                backend@.servers[i],
                file@,
            ),
            None => r is None,
        },
{
    let index = match backend.server_for(file) {
        Some(index) => index,
        None => {
            return None;
        },
    };
    let server = backend.server(index);
    let root = server.workspace();
    let list = match server.status() {
        Status::Running { host: _, port } => {
            let open = titled("Live Reload: open this file in the browser", port);
            let restart = titled("Live Reload: restart server", port);
            let stop = titled("Live Reload: stop server", port);
            vec![
                action(open.as_str(), CMD_OPEN, two(root, file)),
                action(restart.as_str(), CMD_RESTART, one(root)),
                action(stop.as_str(), CMD_STOP, one(root)),
            ]
        },
        Status::Stopped => vec![action("Live Reload: start server", CMD_START, one(root))],
    };
    assert(action_models(list@) =~= offered(server@, file@));
    Some(list)
}

/* ----------------------------------------------------------------- commands */

/// What a command is to be done to: all servers, or the one of a workspace, if
/// there is one.
pub enum Selection {
    /// No workspace was named.
    Every,
    /// A workspace was named, and this is the server found for it.
    Named(Option<usize>),
}

/// What is to be done, and to which servers.
pub enum Execution {
    Start(Vec<usize>),
    Stop(Vec<usize>),
    Restart(Vec<usize>),
    /// Start those that are stopped, then open the file on each.
    Open { servers: Vec<usize>, file: Option<String> },
}

/// What is to be done, in mathematical terms.
pub enum ExecutionModel {
    Start(Seq<int>),
    Stop(Seq<int>),
    Restart(Seq<int>),
    Open { servers: Seq<int>, file: Option<Seq<char>> },
}

impl View for Execution {
    type V = ExecutionModel;

    open spec fn view(&self) -> ExecutionModel {
        match self {
            Execution::Start(list) => ExecutionModel::Start(indexes(list@)),
            Execution::Stop(list) => ExecutionModel::Stop(indexes(list@)),
            Execution::Restart(list) => ExecutionModel::Restart(indexes(list@)),
            Execution::Open { servers, file } => ExecutionModel::Open {
                servers: indexes(servers@),
                file: crate::config::maybe(*file),
            },
        }
    }
}

/// The servers that a selection means.
pub open spec fn selected(count: int, selection: Selection) -> Seq<int> {
    match selection {
        Selection::Every => Seq::new(count as nat, |i: int| i),
        Selection::Named(Some(i)) => seq![i as int],
        Selection::Named(None) => Seq::empty(),
    }
}

/// What a command comes to, or why it is refused. A command with no workspace
/// applies to every workspace, which is what a keybinding or task invocation
/// will send.
pub open spec fn executed(
    count: int,
    command: Seq<char>,
    selection: Selection,
    file: Option<Seq<char>>,
) -> Result<ExecutionModel, Seq<char>> {
    let servers = selected(count, selection);
    if servers.len() == 0 {
        Err("no matching workspace"@)
    } else if command == CMD_START@ {
        Ok(ExecutionModel::Start(servers))
    } else if command == CMD_STOP@ {
        Ok(ExecutionModel::Stop(servers))
    } else if command == CMD_RESTART@ {
        Ok(ExecutionModel::Restart(servers))
    } else if command == CMD_OPEN@ {
        Ok(ExecutionModel::Open { servers, file })
    } else {
        Err("unknown command: "@ + command)
    }
}

/// Decides what a command comes to.
pub fn execute_command(
    backend: &Backend,
    command: &str,
    selection: Selection,
    file: Option<String>,
) -> (r: Result<Execution, String>)
    ensures
        match executed(
            backend@.servers.len() as int,
            command@,
            selection,
            crate::config::maybe(file),
        ) {
            Ok(execution) => r matches Ok(found) && found@ == execution,
            Err(text) => r matches Err(said) && said@ == text,
        },
{
    let count = backend.server_count();
    let ghost wanted = selected(count as int, selection);
    let mut servers: Vec<usize> = Vec::new();
    match selection {
        Selection::Every => {
            for i in 0..count
                invariant
                    servers@.len() == i,
                    forall|k: int| 0 <= k < i ==> #[trigger] servers@[k] == k,
            {
                servers.push(i);
            }
        },
        Selection::Named(Some(i)) => {
            servers.push(i);
        },
        Selection::Named(None) => {},
    }
    assert(indexes(servers@) =~= wanted);
    if servers.len() == 0 {
        Err(owned("no matching workspace"))
    } else if same_text(command, CMD_START) {
        Ok(Execution::Start(servers))
    } else if same_text(command, CMD_STOP) {
        Ok(Execution::Stop(servers))
    } else if same_text(command, CMD_RESTART) {
        Ok(Execution::Restart(servers))
    } else if same_text(command, CMD_OPEN) {
        Ok(Execution::Open { servers, file })
    } else {
        let mut text = owned("unknown command: ");
        text.append(command);
        Err(text)
    }
}

/// Whether a server has to be started before its site is opened. Opening
/// implies wanting a server, so one is started rather than reporting that there
/// is nothing to open.
pub fn starts_before_open(server: &LiveServer) -> (r: bool)
    ensures
        r == (server@.status == StatusModel::Stopped),
{
    !server.notify()
}

/* ------------------------------------------------------------ control channel */

/// A command in terms of what it does to a server that is running or not, so
/// that the reply describes what actually happened rather than the word the
/// user typed. `Go` is `Toggle`, except that the start half also opens a
/// browser.
pub open spec fn settled(command: Command, running: bool) -> Command {
    match command {
        Command::Toggle => if running {
            Command::Stop
        } else {
            Command::Start
        },
        Command::Go => if running {
            Command::Stop
        } else {
            Command::Open
        },
        other => other,
    }
}

/// What is to be done about a control command.
pub enum ControlStep {
    /// Stop the server, then reply that it is stopped.
    Stop,
    /// Start the server, then reply how it is.
    Start,
    /// Start the server first, if that is asked for, then open its site.
    Open { start: bool },
    /// Only reply.
    Reply(String),
}

/// What is to be done, in mathematical terms.
pub enum ControlStepModel {
    Stop,
    Start,
    Open { start: bool },
    Reply(Seq<char>),
}

impl View for ControlStep {
    type V = ControlStepModel;

    open spec fn view(&self) -> ControlStepModel {
        match self {
            ControlStep::Stop => ControlStepModel::Stop,
            ControlStep::Start => ControlStepModel::Start,
            ControlStep::Open { start } => ControlStepModel::Open { start: *start },
            ControlStep::Reply(text) => ControlStepModel::Reply(text@),
        }
    }
}

/// How the status of a server is reported.
pub open spec fn status_reply(status: StatusModel) -> Seq<char> {
    match status {
        StatusModel::Running { host, port } => "running on "@ + host + ":"@ + decimal(
            port as nat,
        ),
        StatusModel::Stopped => "stopped"@,
    }
}

/// What a control command calls for, given the status of its server.
pub open spec fn control_reaction(command: Command, status: StatusModel) -> ControlStepModel {
    let running = status is Running;
    match settled(command, running) {
        Command::Stop => ControlStepModel::Stop,
        Command::Start => match status {
            StatusModel::Running { host, port } => ControlStepModel::Reply(
                "already running on :"@ + decimal(port as nat),
            ),
            StatusModel::Stopped => ControlStepModel::Start,
        },
        Command::Open => ControlStepModel::Open { start: !running },
        _ => ControlStepModel::Reply(status_reply(status)),
    }
}

/// Decides what a control command calls for.
pub fn run_control(command: Command, status: &Status) -> (r: ControlStep)
    ensures
        r@ == control_reaction(command, status@),
{
    let running = match status {
        Status::Running { .. } => true,
        Status::Stopped => false,
    };
    let command = match command {
        Command::Toggle => if running {
            Command::Stop
        } else {
            Command::Start
        },
        Command::Go => if running {
            Command::Stop
        } else {
            Command::Open
        },
        other => other,
    };
    match command {
        Command::Stop => ControlStep::Stop,
        Command::Start => match status {
            Status::Running { host: _, port } => {
                let mut text = owned("already running on :");
                text.append(decimal_of(*port as u64).as_str());
                ControlStep::Reply(text)
            },
            Status::Stopped => ControlStep::Start,
        },
        Command::Open => ControlStep::Open { start: !running },
        _ => match status {
            Status::Running { host, port } => {
                let mut text = owned("running on ");
                text.append(host.as_str());
                text.append(":");
                text.append(decimal_of(*port as u64).as_str());
                ControlStep::Reply(text)
            },
            Status::Stopped => ControlStep::Reply(owned("stopped")),
        },
    }
}

/// The reply to a command for a workspace that nobody owns.
pub fn no_workspace_reply(workspace: &str) -> (r: String)
    ensures
        r@ == "error: no workspace at "@ + workspace@,
{
    let mut text = owned("error: no workspace at ");
    text.append(workspace);
    text
}

/// The reply once a server was stopped.
pub fn stopped_reply() -> (r: String)
    ensures
        r@ == "stopped"@,
{
    owned("stopped")
}

/// The reply once a start was tried, given the status after it.
pub fn started_reply(status: &Status) -> (r: String)
    ensures
        r@ == match status@ {
            StatusModel::Running { host, port } => "started on :"@ + decimal(port as nat),
            StatusModel::Stopped => "error: failed to start"@,
        },
{
    match status {
        Status::Running { host: _, port } => {
            let mut text = owned("started on :");
            text.append(decimal_of(*port as u64).as_str());
            text
        },
        Status::Stopped => owned("error: failed to start"),
    }
}

/// The reply once a site was to be opened: its address, if the server is up,
/// and how opening it came out.
pub fn opened_reply(url: Option<String>, opened: Result<(), String>) -> (r: String)
    ensures
        r@ == match (url, opened) {
            (Some(url), Ok(_)) => "opened "@ + url@,
            (Some(url), Err(reason)) => "error: "@ + reason@,
            (None, _) => "error: failed to start"@,
        },
{
    match url {
        Some(url) => match opened {
            Ok(_) => {
                let mut text = owned("opened ");
                text.append(url.as_str());
                text
            },
            Err(reason) => {
                let mut text = owned("error: ");
                text.append(reason.as_str());
                text
            },
        },
        None => owned("error: failed to start"),
    }
}

/* --------------------------------------------------------------------- laws */

/// Toggling and going both stop a server that runs and start one that does
/// not; only going opens the site as well.
pub proof fn law_toggling_alternates(status: StatusModel)
    ensures
        status is Running ==> control_reaction(Command::Toggle, status) == ControlStepModel::Stop
            && control_reaction(Command::Go, status) == ControlStepModel::Stop,
        status is Stopped ==> control_reaction(Command::Toggle, status) == ControlStepModel::Start
            && control_reaction(Command::Go, status) == (ControlStepModel::Open { start: true }),
{
}

/// No action is offered that would do nothing: starting is offered only on a
/// server that is stopped, and anything else only on one that runs.
pub proof fn law_offers_fit_the_state(server: LiveServerModel, file: Seq<char>, k: int)
    requires
        0 <= k < offered(server, file).len(),
    ensures
        offered(server, file)[k].command == CMD_START@ <==> server.status is Stopped,
        offered(server, file)[k].arguments[0] == server.workspace,
{
    reveal_strlit("liveReload.start");
    reveal_strlit("liveReload.stop");
    reveal_strlit("liveReload.restart");
    reveal_strlit("liveReload.open");
    assert(CMD_START@.len() == 16);
    assert(CMD_STOP@.len() == 15);
    assert(CMD_RESTART@.len() == 18);
    assert(CMD_OPEN@.len() == 15);
}

/// Every action that is offered can be executed: its command is known, and it
/// names a workspace.
pub proof fn law_offers_can_be_executed(
    server: LiveServerModel,
    file: Seq<char>,
    k: int,
    count: int,
    index: usize,
    argument: Option<Seq<char>>,
)
    requires
        0 <= k < offered(server, file).len(),
    ensures
        executed(
            count,
            offered(server, file)[k].command,
            Selection::Named(Some(index)),
            argument,
        ) is Ok,
{
    assert(selected(count, Selection::Named(Some(index))).len() == 1);
}

} // verus!
