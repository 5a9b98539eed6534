//! The LSP front end.
//!
//! Zed extensions cannot register commands, toolbar buttons or status bar
//! items, so a language server is the only place an extension can put behaviour
//! with the lifetime of a project. Everything the user can trigger therefore
//! arrives here: as a code action on the file they are looking at, as a command
//! executed from one, or as a document change.

use vstd::prelude::*;

use crate::config::{is_public_host, maybe, standard_config, Config, ConfigModel, Supplied};
use crate::number::{decimal, decimal_of};
use crate::overlay::{applied, Overlay, Range};
use crate::path::{components, components_of, is_within, within};
use crate::reload::{classified, classify, Reload, ReloadModel};
use crate::server::{
    no_root_text, root_under, start_warnings, url_on, Launch, LiveServer, LiveServerModel,
    StatusModel,
};
use crate::status::{
    address_line, bar_cleared, bar_shown, lemma_notices_push, notices, server_models, status_line,
    Notice, NoticeModel, StatusBar, StatusBarModel,
};
use crate::text::{
    chars_of, find_char, find_from, lemma_find_char, lemma_find_from, lemma_texts_push, owned,
    position_of, position_of_char, same_texts, text_of, texts,
};

verus! {

pub const CMD_START: &'static str = "liveReload.start";

pub const CMD_STOP: &'static str = "liveReload.stop";

pub const CMD_RESTART: &'static str = "liveReload.restart";

pub const CMD_OPEN: &'static str = "liveReload.open";

/// What the status bar says while a server comes up.
pub const STARTING: &'static str = "Live Reload: starting\u{2026}";

/// What the status bar says while a server goes down.
pub const DISPOSING: &'static str = "Live Reload: disposing\u{2026}";

/* -------------------------------------------------------------------- paths */

/// The file that a URI names, if it names one.
pub uninterp spec fn uri_path(uri: Seq<char>) -> Option<Seq<char>>;

/// `Url::parse`, then `Url::to_file_path`: the path that a file URI stands for,
/// on a system whose paths are separated by `/`; nothing for a text that is no
/// URI, or for one that names no local file. In a path that is not valid UTF-8
/// the offending bytes come out as replacement characters.
#[verifier::external_body]
fn uri_to_path(uri: &str) -> (r: Option<String>)
    ensures
        maybe(r) == uri_path(uri@),
{
    let url = tower_lsp::lsp_types::Url::parse(uri).ok()?;
    url.to_file_path().ok().map(|path| path.to_string_lossy().into_owned())
}

/// Finds the file that a URI names.
pub fn file_path(uri: &str) -> (r: Option<String>)
    ensures
        maybe(r) == uri_path(uri@),
{
    uri_to_path(uri)
}

/// The files that a list of URIs name, in order, those that name none left out.
pub open spec fn uri_paths(uris: Seq<Seq<char>>) -> Seq<Seq<char>>
    decreases uris.len(),
{
    if uris.len() == 0 {
        Seq::empty()
    } else {
        match uri_path(uris.last()) {
            Some(path) => uri_paths(uris.drop_last()).push(path),
            None => uri_paths(uris.drop_last()),
        }
    }
}

/// Finds the workspaces that the URIs of folders name.
pub fn workspace_paths(uris: &Vec<String>) -> (r: Vec<String>)
    ensures
        texts(r@) == uri_paths(texts(uris@)),
{
    let mut out: Vec<String> = Vec::new();
    let ghost all = texts(uris@);
    assert(all.take(0) =~= Seq::<Seq<char>>::empty());
    assert(texts(out@) =~= Seq::<Seq<char>>::empty());
    for i in 0..uris.len()
        invariant
            all == texts(uris@),
            texts(out@) == uri_paths(all.take(i as int)),
    {
        broadcast use lemma_texts_push;

        proof {
            assert(all.take(i + 1).drop_last() =~= all.take(i as int));
            assert(all.take(i + 1).last() == uris@[i as int]@);
        }
        if let Some(path) = file_path(uris[i].as_str()) {
            out.push(path);
        }
    }
    assert(all.take(uris.len() as int) =~= all);
    out
}

/* ------------------------------------------------------------------ backend */

/// Everything the language server knows.
pub struct Backend {
    config: Config,
    overlay: Overlay,
    servers: Vec<LiveServer>,
    /// The status bar item.
    bar: StatusBar,
    /// Counter used to coalesce unsaved-buffer changes. Each keystroke takes a
    /// number; a pending reload only fires if no later keystroke arrived.
    keystroke: u64,
    /// State files written by the control channel, removed on shutdown.
    control_files: Vec<String>,
}

/// Everything the language server knows, in mathematical terms.
pub struct BackendModel {
    pub config: ConfigModel,
    pub buffers: Map<Seq<Seq<char>>, Seq<char>>,
    pub servers: Seq<LiveServerModel>,
    pub bar: StatusBarModel,
    pub keystroke: u64,
    pub control_files: Seq<Seq<char>>,
}

impl View for Backend {
    type V = BackendModel;

    closed spec fn view(&self) -> BackendModel {
        BackendModel {
            config: self.config@,
            buffers: self.overlay@,
            servers: server_models(self.servers@),
            bar: self.bar@,
            keystroke: self.keystroke,
            control_files: texts(self.control_files@),
        }
    }
}

/// Whether no workspace has two servers.
pub open spec fn distinct_workspaces(servers: Seq<LiveServerModel>) -> bool {
    forall|i: int, j: int|
        0 <= i < j < servers.len() ==> components((#[trigger] servers[i]).workspace) != components(
            (#[trigger] servers[j]).workspace,
        )
}

/// The server, among the first `upto`, whose workspace a file lies deepest in.
pub open spec fn owner_among(
    servers: Seq<LiveServerModel>,
    file: Seq<char>,
    upto: int,
) -> Option<int>
    decreases upto,
{
    if upto <= 0 {
        None
    } else {
        let before = owner_among(servers, file, upto - 1);
        let next = servers[upto - 1].workspace;
        if within(file, next) && (before is None || components(next).len() > components(
            servers[before->0].workspace,
        ).len()) {
            Some(upto - 1)
        } else {
            before
        }
    }
}

/// The server that a file belongs to.
pub open spec fn owner(servers: Seq<LiveServerModel>, file: Seq<char>) -> Option<int> {
    owner_among(servers, file, servers.len() as int)
}

/// A file belongs to a server whose workspace it lies in, and to the most
/// deeply nested of those.
pub proof fn law_the_innermost_workspace_owns_a_file(
    servers: Seq<LiveServerModel>,
    file: Seq<char>,
    upto: int,
)
    requires
        0 <= upto <= servers.len(),
    ensures
        match owner_among(servers, file, upto) {
            Some(best) => {
                &&& 0 <= best < upto
                &&& within(file, servers[best].workspace)
                &&& forall|k: int|
                    0 <= k < upto && within(file, (#[trigger] servers[k]).workspace) ==> components(
                        servers[k].workspace,
                    ).len() <= components(servers[best].workspace).len()
            },
            None => forall|k: int|
                0 <= k < upto ==> !within(file, (#[trigger] servers[k]).workspace),
        },
    decreases upto,
{
    if upto > 0 {
        law_the_innermost_workspace_owns_a_file(servers, file, upto - 1);
    }
}

/// The first server from `from` on whose workspace is this one.
pub open spec fn server_from(
    servers: Seq<LiveServerModel>,
    root: Seq<char>,
    from: int,
) -> Option<int>
    decreases servers.len() - from,
{
    if from >= servers.len() {
        None
    } else if components(servers[from].workspace) == components(root) {
        Some(from)
    } else {
        server_from(servers, root, from + 1)
    }
}

proof fn lemma_server_from(servers: Seq<LiveServerModel>, root: Seq<char>, from: int)
    requires
        0 <= from,
    ensures
        match server_from(servers, root, from) {
            Some(i) => from <= i < servers.len() && components(servers[i].workspace) == components(
                root,
            ),
            None => forall|k: int|
                from <= k < servers.len() ==> components((#[trigger] servers[k]).workspace)
                    != components(root),
        },
    decreases servers.len() - from,
{
    if from < servers.len() {
        lemma_server_from(servers, root, from + 1);
    }
}

/// The servers with a new one for a workspace, in the place of the one it had.
pub open spec fn with_server(
    servers: Seq<LiveServerModel>,
    root: Seq<char>,
) -> Seq<LiveServerModel> {
    let fresh = LiveServerModel { workspace: root, status: StatusModel::Stopped };
    match server_from(servers, root, 0) {
        Some(i) => servers.update(i, fresh),
        None => servers.push(fresh),
    }
}

/// The servers with new ones for a list of workspaces.
pub open spec fn with_servers(
    servers: Seq<LiveServerModel>,
    roots: Seq<Seq<char>>,
) -> Seq<LiveServerModel>
    decreases roots.len(),
{
    if roots.len() == 0 {
        servers
    } else {
        with_server(with_servers(servers, roots.drop_last()), roots.last())
    }
}

/// The servers that are running, by their indexes.
pub open spec fn running_indexes(servers: Seq<LiveServerModel>, upto: int) -> Seq<int>
    decreases upto,
{
    if upto <= 0 {
        Seq::empty()
    } else if servers[upto - 1].status is Running {
        running_indexes(servers, upto - 1).push(upto - 1)
    } else {
        running_indexes(servers, upto - 1)
    }
}

/// Indexes as mathematical integers.
pub open spec fn indexes(list: Seq<usize>) -> Seq<int> {
    Seq::new(list.len(), |i: int| list[i] as int)
}

/// The status bar as it describes the servers that are running, and what to
/// tell the editor.
pub open spec fn bar_refreshed(
    bar: StatusBarModel,
    enabled: bool,
    servers: Seq<LiveServerModel>,
) -> (StatusBarModel, Seq<NoticeModel>) {
    match address_line(servers) {
        Some(text) => bar_shown(bar, enabled, text),
        None => bar_cleared(bar),
    }
}

/// The path of a URL: what stands from the first `/` behind its scheme on.
pub open spec fn url_tail(url: Seq<char>) -> Seq<char> {
    match find_from(url, "://"@, 0) {
        Some(at) => {
            let rest = url.skip(at + 3);
            match find_char(rest, '/', 0) {
                Some(slash) => rest.skip(slash),
                None => "/"@,
            }
        },
        None => "/"@,
    }
}

/// A reload that is due for an unsaved change, unless another one follows.
pub struct BufferReload {
    /// The server whose browsers are concerned.
    pub server: usize,
    pub instruction: Reload,
    /// The number of the change.
    pub ticket: u64,
    /// Milliseconds to wait for another change.
    pub wait: u64,
}

/// A reload that is due, in mathematical terms.
pub struct BufferReloadModel {
    pub server: int,
    pub instruction: ReloadModel,
    pub ticket: u64,
    pub wait: u64,
}

impl View for BufferReload {
    type V = BufferReloadModel;

    open spec fn view(&self) -> BufferReloadModel {
        BufferReloadModel {
            server: self.server as int,
            instruction: self.instruction@,
            ticket: self.ticket,
            wait: self.wait,
        }
    }
}

/// The reload that an unsaved change calls for: none unless buffers are served
/// and a running server owns the file.
pub open spec fn buffer_reload(state: BackendModel, file: Seq<char>) -> Option<BufferReloadModel> {
    if !state.config.live_changes {
        None
    } else {
        match owner(state.servers, file) {
            Some(i) => match url_on(state.servers[i], Some(file), state.config) {
                Some(url) => Some(
                    BufferReloadModel {
                        server: i,
                        instruction: classified(url_tail(url), state.config.full_reload),
                        ticket: state.keystroke.wrapping_add(1),
                        wait: if state.config.wait < 30 {
                            30
                        } else {
                            state.config.wait
                        },
                    },
                ),
                None => None,
            },
            None => None,
        }
    }
}

/// What a change of the configuration comes to.
pub enum Reconfiguration {
    /// It could not be read: show this warning, and keep what there is.
    Refused(String),
    /// It says what the configuration says already.
    Unchanged,
    /// It has taken effect: restart these servers.
    Restart(Vec<usize>),
}

/// What is logged about a server that came up.
pub open spec fn serving_text(workspace: Seq<char>, config: ConfigModel, port: u16) -> Seq<char> {
    let reach = if is_public_host(config.host) {
        " (reachable on your network)"@
    } else {
        ""@
    };
    "serving "@ + workspace + " on "@ + config.host + ":"@ + decimal(port as nat) + reach
}

/// Texts as warnings.
pub open spec fn as_warnings(list: Seq<Seq<char>>) -> Seq<NoticeModel> {
    Seq::new(list.len(), |i: int| NoticeModel::Warn(list[i]))
}

/// What is told about a server that came up.
pub open spec fn started_notices(
    workspace: Seq<char>,
    config: ConfigModel,
    port: u16,
    warnings: Seq<Seq<char>>,
) -> Seq<NoticeModel> {
    let told = as_warnings(warnings).push(
        NoticeModel::Log(serving_text(workspace, config, port)),
    );
    if config.info_messages {
        told.push(NoticeModel::Inform("Live Reload started on :"@ + decimal(port as nat)))
    } else {
        told
    }
}

/// A server after a start, and what is told about it.
pub open spec fn start_finished(
    server: LiveServerModel,
    config: ConfigModel,
    launch: Launch,
) -> (LiveServerModel, Seq<NoticeModel>) {
    let failed = |reason: Seq<char>|
        (server, seq![NoticeModel::Warn("Live Reload could not start: "@ + reason)]);
    match server.status {
        StatusModel::Running { host, port } => (
            server,
            started_notices(server.workspace, config, port, Seq::empty()),
        ),
        StatusModel::Stopped => match launch {
            Launch::NoRoot => failed(no_root_text(root_under(server.workspace, config.root))),
            Launch::Unbound(reason) => failed(reason@),
            Launch::Bound { port, watching } => (
                LiveServerModel {
                    workspace: server.workspace,
                    status: StatusModel::Running { host: config.host, port },
                },
                started_notices(server.workspace, config, port, start_warnings(config, watching)),
            ),
        },
    }
}

/// A server after a restart, and what is told about it; that it is up is told
/// only where that was asked for.
pub open spec fn restart_finished(
    server: LiveServerModel,
    config: ConfigModel,
    launch: Launch,
    announce: bool,
) -> (LiveServerModel, Seq<NoticeModel>) {
    let failed = |reason: Seq<char>|
        (
            LiveServerModel { workspace: server.workspace, status: StatusModel::Stopped },
            seq![NoticeModel::Warn("Live Reload could not restart: "@ + reason)],
        );
    match launch {
        Launch::NoRoot => failed(no_root_text(root_under(server.workspace, config.root))),
        Launch::Unbound(reason) => failed(reason@),
        Launch::Bound { port, watching } => (
            LiveServerModel {
                workspace: server.workspace,
                status: StatusModel::Running { host: config.host, port },
            },
            if announce {
                seq![NoticeModel::Log("restarted on :"@ + decimal(port as nat))]
            } else {
                Seq::empty()
            },
        ),
    }
}

fn failure(lead: &str, reason: &str) -> (r: Vec<Notice>)
    ensures
        notices(r@) == seq![NoticeModel::Warn(lead@ + reason@)],
{
    let mut text = owned(lead);
    text.append(reason);
    let r = vec![Notice::Warn(text)];
    assert(notices(r@) =~= seq![NoticeModel::Warn(lead@ + reason@)]);
    r
}

fn tell_started(workspace: &str, config: &Config, port: u16, warnings: Vec<String>) -> (r: Vec<
    Notice,
>)
    ensures
        notices(r@) == started_notices(workspace@, config@, port, texts(warnings@)),
{
    broadcast use lemma_notices_push;

    let ghost all = texts(warnings@);
    let mut out: Vec<Notice> = Vec::new();
    for i in 0..warnings.len()
        invariant
            all == texts(warnings@),
            notices(out@) == as_warnings(all).take(i as int),
    {
        broadcast use lemma_notices_push;

        out.push(Notice::Warn(owned(warnings[i].as_str())));
        assert(as_warnings(all).take(i as int).push(as_warnings(all)[i as int]) =~= as_warnings(
            all,
        ).take(i + 1));
    }
    assert(as_warnings(all).take(warnings.len() as int) =~= as_warnings(all));
    let mut text = owned("serving ");
    text.append(workspace);
    text.append(" on ");
    text.append(config.host.as_str());
    text.append(":");
    text.append(decimal_of(port as u64).as_str());
    text.append(
        if config.is_public() {
            " (reachable on your network)"
        } else {
            ""
        },
    );
    out.push(Notice::Log(text));
    if config.info_messages {
        let mut text = owned("Live Reload started on :");
        text.append(decimal_of(port as u64).as_str());
        out.push(Notice::Inform(text));
    }
    out
}

impl Backend {
    /// What always holds: no path has two buffers, and no workspace two
    /// servers.
    pub closed spec fn valid(&self) -> bool {
        self.overlay.valid() && distinct_workspaces(server_models(self.servers@))
    }

    /// A language server that knows nothing yet.
    pub fn new() -> (r: Backend)
        ensures
            r.valid(),
            r@ == (BackendModel {
                config: standard_config(),
                buffers: Map::empty(),
                servers: Seq::empty(),
                bar: StatusBarModel { current: None, serial: 0 },
                keystroke: 0,
                control_files: Seq::empty(),
            }),
    {
        let r = Backend {
            config: Config::default(),
            overlay: Overlay::new(),
            servers: Vec::new(),
            bar: StatusBar::new(),
            keystroke: 0,
            control_files: Vec::new(),
        };
        assert(r@.servers =~= Seq::<LiveServerModel>::empty());
        assert(r@.control_files =~= Seq::<Seq<char>>::empty());
        r
    }

    /// The configuration.
    pub fn config(&self) -> (r: &Config)
        ensures
            r@ == self@.config,
    {
        &self.config
    }

    /// The editor's buffers.
    pub fn overlay(&self) -> (r: &Overlay)
        requires
            self.valid(),
        ensures
            r@ == self@.buffers,
            r.valid(),
    {
        &self.overlay
    }

    /// How many servers there are.
    pub fn server_count(&self) -> (r: usize)
        ensures
            r == self@.servers.len(),
    {
        self.servers.len()
    }

    /// One of the servers.
    pub fn server(&self, index: usize) -> (r: &LiveServer)
        requires
            index < self@.servers.len(),
        ensures
            r@ == self@.servers[index as int],
    {
        &self.servers[index]
    }

    /// Finds the server owning a file, choosing the most deeply nested
    /// workspace when they are nested inside one another.
    pub fn server_for(&self, file: &str) -> (r: Option<usize>)
        ensures
            match r {
                Some(i) => owner(self@.servers, file@) == Some(i as int) && i < self@.servers.len(),
                None => owner(self@.servers, file@) is None,
            },
    {
        let mut best: Option<usize> = None;
        let mut depth: usize = 0;
        for i in 0..self.servers.len()
            invariant
                match best {
                    Some(b) => b < i && owner_among(self@.servers, file@, i as int) == Some(
                        b as int,
                    ) && depth == components(self@.servers[b as int].workspace).len(),
                    None => owner_among(self@.servers, file@, i as int) is None,
                },
        {
            assert(self@.servers[i as int] == self.servers@[i as int]@);
            let root = self.servers[i].workspace();
            let parts = components_of(root);
            assert(texts(parts@).len() == parts@.len());
            if is_within(file, root) && (best.is_none() || parts.len() > depth) {
                best = Some(i);
                depth = parts.len();
            }
        }
        best
    }

    /// Finds the server of a workspace.
    pub fn server_at(&self, root: &str) -> (r: Option<usize>)
        ensures
            match r {
                Some(i) => server_from(self@.servers, root@, 0) == Some(i as int) && i
                    < self@.servers.len(),
                None => server_from(self@.servers, root@, 0) is None,
            },
    {
        let wanted = components_of(root);
        for i in 0..self.servers.len()
            invariant
                texts(wanted@) == components(root@),
                server_from(self@.servers, root@, 0) == server_from(
                    self@.servers,
                    root@,
                    i as int,
                ),
        {
            assert(self@.servers[i as int] == self.servers@[i as int]@);
            if same_texts(&components_of(self.servers[i].workspace()), &wanted) {
                return Some(i);
            }
        }
        None
    }

    /// Shows or updates the status bar item.
    pub fn show_status(&mut self, text: &str) -> (r: Vec<Notice>)
        requires
            old(self).valid(),
        ensures
            final(self).valid(),
            final(self)@ == (BackendModel {
                bar: bar_shown(old(self)@.bar, old(self)@.config.status_bar, text@).0,
                ..old(self)@
            }),
            notices(r@) == bar_shown(old(self)@.bar, old(self)@.config.status_bar, text@).1,
    {
        self.bar.show(self.config.status_bar, text)
    }

    /// Takes the item off the status bar.
    pub fn clear_status(&mut self) -> (r: Vec<Notice>)
        requires
            old(self).valid(),
        ensures
            final(self).valid(),
            final(self)@ == (BackendModel { bar: bar_cleared(old(self)@.bar).0, ..old(self)@ }),
            notices(r@) == bar_cleared(old(self)@.bar).1,
    {
        self.bar.clear()
    }

    /// Recomputes the status text from every server we own.
    pub fn refresh_status(&mut self) -> (r: Vec<Notice>)
        requires
            old(self).valid(),
        ensures
            final(self).valid(),
            final(self)@ == (BackendModel {
                bar: bar_refreshed(
                    old(self)@.bar,
                    old(self)@.config.status_bar,
                    old(self)@.servers,
                ).0,
                ..old(self)@
            }),
            notices(r@) == bar_refreshed(
                old(self)@.bar,
                old(self)@.config.status_bar,
                old(self)@.servers,
            ).1,
    {
        match status_line(&self.servers) {
            Some(text) => self.show_status(text.as_str()),
            None => self.clear_status(),
        }
    }

    /* -------------------------------------------------------------- actions */

    /// Begins to start a server, by saying so in the status bar, which narrates
    /// the transition rather than sitting blank while a port is being bound and
    /// a file watcher registered.
    pub fn begin_start(&mut self) -> (r: Vec<Notice>)
        requires
            old(self).valid(),
        ensures
            final(self).valid(),
            final(self)@ == (BackendModel {
                bar: bar_shown(old(self)@.bar, old(self)@.config.status_bar, STARTING@).0,
                ..old(self)@
            }),
            notices(r@) == bar_shown(old(self)@.bar, old(self)@.config.status_bar, STARTING@).1,
    {
        self.show_status(STARTING)
    }

    fn replace_server(&mut self, index: usize, server: LiveServer)
        requires
            old(self).valid(),
            index < old(self)@.servers.len(),
            server@.workspace == old(self)@.servers[index as int].workspace,
        ensures
            final(self).valid(),
            final(self)@ == (BackendModel {
                servers: old(self)@.servers.update(index as int, server@),
                ..old(self)@
            }),
    {
        let ghost before = server_models(self.servers@);
        let ghost model = server@;
        self.servers.set(index, server);
        proof {
            let after = server_models(self.servers@);
            assert(after =~= before.update(index as int, model));
            assert forall|i: int, j: int| 0 <= i < j < after.len() implies components(
                (#[trigger] after[i]).workspace,
            ) != components((#[trigger] after[j]).workspace) by {
                assert(after[i].workspace == before[i].workspace);
                assert(after[j].workspace == before[j].workspace);
            }
        }
    }

    fn copy_of_server(&self, index: usize) -> (r: LiveServer)
        requires
            index < self@.servers.len(),
        ensures
            r@ == self@.servers[index as int],
    {
        self.servers[index].duplicate()
    }

    /// Finishes the start of a server, given how the outside work came out.
    /// Gives what to tell the editor, and the address to open in a browser if
    /// that is wanted.
    ///
    /// The status bar item is the main feedback. Warnings and failures speak up,
    /// and so does success unless such messages are turned off.
    pub fn finish_start(&mut self, index: usize, launch: Launch) -> (r: (
        Vec<Notice>,
        Option<String>,
    ))
        requires
            old(self).valid(),
            index < old(self)@.servers.len(),
        ensures
            final(self).valid(),
            final(self)@ == (BackendModel {
                servers: old(self)@.servers.update(
                    index as int,
                    start_finished(
                        old(self)@.servers[index as int],
                        old(self)@.config,
                        launch,
                    ).0,
                ),
                ..old(self)@
            }),
            notices(r.0@) == start_finished(
                old(self)@.servers[index as int],
                old(self)@.config,
                launch,
            ).1,
            maybe(r.1) == if old(self)@.config.open_browser {
                url_on(final(self)@.servers[index as int], None, old(self)@.config)
            } else {
                None
            },
    {
        let mut server = self.copy_of_server(index);
        let ghost before = server@;
        let ghost told = start_finished(before, self@.config, launch);
        let outcome = server.start(&self.config, launch);
        let out = match outcome {
            Ok((port, warnings)) => {
                proof {
                    if warnings@.len() == 0 {
                        assert(texts(warnings@) =~= Seq::<Seq<char>>::empty());
                    }
                }
                tell_started(server.workspace(), &self.config, port, warnings)
            },
            Err(reason) => failure("Live Reload could not start: ", reason.as_str()),
        };
        let url = if self.config.open_browser {
            server.url_for(None, &self.config)
        } else {
            None
        };
        assert(server@ == told.0);
        self.replace_server(index, server);
        (out, url)
    }

    /// Begins to stop a server: only a stop that has something to stop is
    /// narrated.
    pub fn begin_stop(&mut self, index: usize) -> (r: Vec<Notice>)
        requires
            old(self).valid(),
            index < old(self)@.servers.len(),
        ensures
            final(self).valid(),
            old(self)@.servers[index as int].status is Stopped ==> final(self)@ == old(self)@
                && notices(r@).len() == 0,
            old(self)@.servers[index as int].status is Running ==> {
                &&& final(self)@ == (BackendModel {
                    bar: bar_shown(old(self)@.bar, old(self)@.config.status_bar, DISPOSING@).0,
                    ..old(self)@
                })
                &&& notices(r@) == bar_shown(
                    old(self)@.bar,
                    old(self)@.config.status_bar,
                    DISPOSING@,
                ).1
            },
    {
        if self.server(index).notify() {
            self.show_status(DISPOSING)
        } else {
            Vec::new()
        }
    }

    /// Finishes the stop of a server, once it no longer serves. A server that
    /// was running takes the editor's buffers with it.
    pub fn finish_stop(&mut self, index: usize) -> (r: Vec<Notice>)
        requires
            old(self).valid(),
            index < old(self)@.servers.len(),
        ensures
            final(self).valid(),
            ({
                let server = old(self)@.servers[index as int];
                let servers = old(self)@.servers.update(
                    index as int,
                    LiveServerModel { workspace: server.workspace, status: StatusModel::Stopped },
                );
                let config = old(self)@.config;
                let (bar, told) = bar_refreshed(old(self)@.bar, config.status_bar, servers);
                let running = server.status is Running;
                &&& final(self)@ == (BackendModel {
                    servers,
                    bar,
                    buffers: if running {
                        Map::empty()
                    } else {
                        old(self)@.buffers
                    },
                    ..old(self)@
                })
                &&& notices(r@) == if running && config.info_messages {
                    seq![NoticeModel::Inform("Live Reload stopped"@)] + told
                } else {
                    told
                }
            }),
    {
        let mut server = self.copy_of_server(index);
        let running = server.stop();
        self.replace_server(index, server);
        if running {
            self.overlay.clear_all();
        }
        let told = self.refresh_status();
        if running && self.config.info_messages {
            let mut out = vec![Notice::Inform(owned("Live Reload stopped"))];
            let ghost first = notices(out@);
            let mut told = told;
            let ghost rest = notices(told@);
            out.append(&mut told);
            assert(notices(out@) =~= first + rest);
            assert(first =~= seq![NoticeModel::Inform("Live Reload stopped"@)]);
            out
        } else {
            told
        }
    }

    /// Finishes the restart of a server, given how the outside work came out.
    /// Where it was running, its stop has dropped the editor's buffers.
    pub fn finish_restart(&mut self, index: usize, launch: Launch, announce: bool) -> (r: Vec<
        Notice,
    >)
        requires
            old(self).valid(),
            index < old(self)@.servers.len(),
        ensures
            final(self).valid(),
            final(self)@ == (BackendModel {
                servers: old(self)@.servers.update(
                    index as int,
                    restart_finished(
                        old(self)@.servers[index as int],
                        old(self)@.config,
                        launch,
                        announce,
                    ).0,
                ),
                buffers: if old(self)@.servers[index as int].status is Running {
                    Map::empty()
                } else {
                    old(self)@.buffers
                },
                ..old(self)@
            }),
            notices(r@) == restart_finished(
                old(self)@.servers[index as int],
                old(self)@.config,
                launch,
                announce,
            ).1,
    {
        let mut server = self.copy_of_server(index);
        let running = server.notify();
        let ghost expected = restart_finished(server@, self@.config, launch, announce);
        let outcome = server.restart(&self.config, launch);
        let out = match outcome {
            Ok((port, _warnings)) => {
                let mut out: Vec<Notice> = Vec::new();
                if announce {
                    let mut text = owned("restarted on :");
                    text.append(decimal_of(port as u64).as_str());
                    out.push(Notice::Log(text));
                }
                assert(notices(out@) =~= expected.1);
                out
            },
            Err(reason) => failure("Live Reload could not restart: ", reason.as_str()),
        };
        assert(server@ == expected.0);
        self.replace_server(index, server);
        if running {
            self.overlay.clear_all();
        }
        out
    }

    /* ------------------------------------------------------------ workspaces */

    /// Adds a workspace, with a server that is not running. Gives the index of
    /// the server.
    pub fn add_workspace(&mut self, root: String) -> (r: usize)
        requires
            old(self).valid(),
        ensures
            final(self).valid(),
            final(self)@ == (BackendModel {
                servers: with_server(old(self)@.servers, root@),
                ..old(self)@
            }),
            r < final(self)@.servers.len(),
            final(self)@.servers[r as int] == (LiveServerModel {
                workspace: root@,
                status: StatusModel::Stopped,
            }),
    {
        let ghost before = server_models(self.servers@);
        let ghost name = root@;
        proof {
            lemma_server_from(before, root@, 0);
        }
        match self.server_at(root.as_str()) {
            Some(i) => {
                self.servers.set(i, LiveServer::new(root));
                proof {
                    let after = server_models(self.servers@);
                    assert(after =~= with_server(before, name));
                    assert forall|a: int, b: int| 0 <= a < b < after.len() implies components(
                        (#[trigger] after[a]).workspace,
                    ) != components((#[trigger] after[b]).workspace) by {
                        assert(components(after[a].workspace) == components(before[a].workspace));
                        assert(components(after[b].workspace) == components(before[b].workspace));
                    }
                }
                i
            },
            None => {
                self.servers.push(LiveServer::new(root));
                proof {
                    let after = server_models(self.servers@);
                    assert(after =~= with_server(before, name));
                    assert forall|a: int, b: int| 0 <= a < b < after.len() implies components(
                        (#[trigger] after[a]).workspace,
                    ) != components((#[trigger] after[b]).workspace) by {
                        assert(after[a] == before[a]);
                        if b < before.len() {
                            assert(after[b] == before[b]);
                        }
                    }
                }
                self.servers.len() - 1
            },
        }
    }

    /// Forgets a workspace. Gives the index that its server had, and whether it
    /// was running.
    pub fn remove_workspace(&mut self, root: &str) -> (r: Option<(usize, bool)>)
        requires
            old(self).valid(),
        ensures
            final(self).valid(),
            match server_from(old(self)@.servers, root@, 0) {
                Some(i) => {
                    &&& r == Some((i as usize, old(self)@.servers[i].status is Running))
                    &&& final(self)@ == (BackendModel {
                        servers: old(self)@.servers.remove(i),
                        buffers: if old(self)@.servers[i].status is Running {
                            Map::empty()
                        } else {
                            old(self)@.buffers
                        },
                        ..old(self)@
                    })
                },
                None => r is None && final(self)@ == old(self)@,
            },
    {
        let ghost before = server_models(self.servers@);
        match self.server_at(root) {
            Some(i) => {
                let server = self.servers.remove(i);
                proof {
                    let after = server_models(self.servers@);
                    assert(after =~= before.remove(i as int));
                    assert forall|a: int, b: int| 0 <= a < b < after.len() implies components(
                        (#[trigger] after[a]).workspace,
                    ) != components((#[trigger] after[b]).workspace) by {
                        let c = if a < i {
                            a
                        } else {
                            a + 1
                        };
                        let d = if b < i {
                            b
                        } else {
                            b + 1
                        };
                        assert(after[a] == before[c]);
                        assert(after[b] == before[d]);
                    }
                }
                let running = server.notify();
                if running {
                    self.overlay.clear_all();
                }
                Some((i, running))
            },
            None => None,
        }
    }

    /// Takes up the workspaces and the configuration that the editor names at
    /// the start: the folders, or the root where there are no folders. Gives the
    /// warning to show once the editor is ready for it.
    pub fn initialize(
        &mut self,
        supplied: Supplied,
        folders: &Vec<String>,
        root: Option<String>,
    ) -> (r: Option<String>)
        requires
            old(self).valid(),
        ensures
            final(self).valid(),
            ({
                let roots = match root {
                    Some(root) if folders@.len() == 0 => seq![root@],
                    _ => texts(folders@),
                };
                &&& final(self)@.servers == with_servers(old(self)@.servers, roots)
                &&& final(self)@.config == match supplied {
                    Supplied::Settings(config) => config@,
                    _ => standard_config(),
                }
                &&& final(self)@ == (BackendModel {
                    servers: final(self)@.servers,
                    config: final(self)@.config,
                    ..old(self)@
                })
                &&& maybe(r) == match supplied {
                    Supplied::Malformed(reason) => Some(
                        "Live Reload config ignored, using defaults: "@ + reason@,
                    ),
                    _ => None,
                }
            }),
    {
        let (config, error) = Config::parse(supplied);
        self.config = config;
        let ghost servers = self@.servers;
        let ghost start = self@;
        match root {
            Some(root) if folders.len() == 0 => {
                let ghost name = root@;
                let _ = self.add_workspace(root);
                proof {
                    reveal_with_fuel(with_servers, 2);
                    assert(seq![name].drop_last() =~= Seq::<Seq<char>>::empty());
                    assert(with_servers(servers, seq![name]) == with_server(servers, name));
                }
            },
            _ => {
                let ghost all = texts(folders@);
                assert(all.take(0) =~= Seq::<Seq<char>>::empty());
                for i in 0..folders.len()
                    invariant
                        self.valid(),
                        all == texts(folders@),
                        self@ == (BackendModel {
                            servers: with_servers(servers, all.take(i as int)),
                            ..start
                        }),
                {
                    proof {
                        assert(all.take(i + 1).drop_last() =~= all.take(i as int));
                        assert(all.take(i + 1).last() == folders@[i as int]@);
                    }
                    let _ = self.add_workspace(owned(folders[i].as_str()));
                }
                assert(all.take(folders.len() as int) =~= all);
            },
        }
        match error {
            Some(reason) => {
                let mut text = owned("Live Reload config ignored, using defaults: ");
                text.append(reason.as_str());
                Some(text)
            },
            None => None,
        }
    }

    /// Whether the servers are to be started as soon as the project opens.
    pub fn starts_on_open(&self) -> (r: bool)
        ensures
            r == self@.config.auto_start,
    {
        self.config.auto_start
    }

    /// Whether the editor is to stream every keystroke, which is only worth the
    /// traffic when the unsaved-buffer feature is on.
    pub fn wants_keystrokes(&self) -> (r: bool)
        ensures
            r == self@.config.live_changes,
    {
        self.config.live_changes
    }

    /// Remembers a state file that the control channel has written.
    pub fn remember_control_file(&mut self, path: String)
        requires
            old(self).valid(),
        ensures
            final(self).valid(),
            final(self)@ == (BackendModel {
                control_files: old(self)@.control_files.push(path@),
                ..old(self)@
            }),
    {
        broadcast use lemma_texts_push;

        self.control_files.push(path);
    }

    /// Stops everything: all servers, the status bar item and the buffers. Gives
    /// the state files to remove, and what to tell the editor.
    ///
    /// Leaving the files behind would make the CLI report a running server that
    /// is not there, until it tried to connect and cleaned up after itself.
    pub fn shutdown(&mut self) -> (r: (Vec<String>, Vec<Notice>))
        requires
            old(self).valid(),
        ensures
            final(self).valid(),
            texts(r.0@) == old(self)@.control_files,
            notices(r.1@) == bar_cleared(old(self)@.bar).1,
            final(self)@.bar == bar_cleared(old(self)@.bar).0,
            final(self)@.servers == all_stopped(old(self)@.servers),
            final(self)@.buffers == if running_indexes(
                old(self)@.servers,
                old(self)@.servers.len() as int,
            ).len() > 0 {
                Map::empty()
            } else {
                old(self)@.buffers
            },
            final(self)@.config == old(self)@.config,
            final(self)@.keystroke == old(self)@.keystroke,
            final(self)@.control_files == old(self)@.control_files,
    {
        let ghost start = self@;
        let mut any = false;
        let count: usize = self.servers.len();
        for i in 0..count
            invariant
                self.valid(),
                count == start.servers.len(),
                self@.servers.len() == start.servers.len(),
                self@ == (BackendModel { servers: self@.servers, ..start }),
                any == (running_indexes(start.servers, i as int).len() > 0),
                forall|k: int|
                    #![trigger self@.servers[k]]
                    0 <= k < start.servers.len() ==> self@.servers[k] == if k < i {
                        LiveServerModel {
                            workspace: start.servers[k].workspace,
                            status: StatusModel::Stopped,
                        }
                    } else {
                        start.servers[k]
                    },
        {
            assert(self@.servers[i as int] == start.servers[i as int]);
            let mut server = self.copy_of_server(i);
            let running = server.stop();
            any = any || running;
            self.replace_server(i, server);
        }
        assert(self@.servers =~= all_stopped(start.servers));
        if any {
            self.overlay.clear_all();
        }
        let told = self.clear_status();
        (crate::text::copy_texts(&self.control_files), told)
    }

    /* ------------------------------------------------------------- documents */

    /// Records a document that the editor has opened, if buffers are served.
    pub fn did_open(&mut self, path: String, text: String)
        requires
            old(self).valid(),
        ensures
            final(self).valid(),
            final(self)@ == (BackendModel {
                buffers: if old(self)@.config.live_changes {
                    old(self)@.buffers.insert(components(path@), text@)
                } else {
                    old(self)@.buffers
                },
                ..old(self)@
            }),
    {
        if self.config.live_changes {
            self.overlay.set(path, text);
        }
    }

    /// Applies one change that the editor has made to a document, if buffers
    /// are served.
    pub fn did_change(&mut self, path: &str, range: Option<Range>, text: &str)
        requires
            old(self).valid(),
        ensures
            final(self).valid(),
            final(self)@ == (BackendModel {
                buffers: if old(self)@.config.live_changes {
                    applied(old(self)@.buffers, components(path@), range, text@)
                } else {
                    old(self)@.buffers
                },
                ..old(self)@
            }),
    {
        if self.config.live_changes {
            self.overlay.apply(path, range, text);
        }
    }

    /// Forgets the buffer of a document that was saved. Once the buffer is on
    /// disk the overlay is redundant, and keeping it would mask any change made
    /// to the file by another program.
    pub fn did_save(&mut self, path: &str)
        requires
            old(self).valid(),
        ensures
            final(self).valid(),
            final(self)@ == (BackendModel {
                buffers: old(self)@.buffers.remove(components(path@)),
                ..old(self)@
            }),
    {
        self.overlay.clear(path);
    }

    /// Forgets the buffer of a document that was closed.
    pub fn did_close(&mut self, path: &str)
        requires
            old(self).valid(),
        ensures
            final(self).valid(),
            final(self)@ == (BackendModel {
                buffers: old(self)@.buffers.remove(components(path@)),
                ..old(self)@
            }),
    {
        self.overlay.clear(path);
    }

    /// Decides on a reload for an unsaved buffer change.
    ///
    /// Only called for when `live_changes` is on. Saved changes are picked up by
    /// the filesystem watcher instead, so that edits made outside the editor
    /// count too and a single save cannot reload the page twice.
    ///
    /// Changes are coalesced over `wait`, because this runs on every keystroke
    /// and reloading the page per character typed would be unusable: the change
    /// claims a number, and its reload fires only if that is still the most
    /// recent claim once the quiet window has passed.
    pub fn buffer_changed(&mut self, file: &str) -> (r: Option<BufferReload>)
        requires
            old(self).valid(),
        ensures
            final(self).valid(),
            match buffer_reload(old(self)@, file@) {
                Some(due) => r matches Some(found) && found@ == due && final(self)@ == (
                BackendModel { keystroke: due.ticket, ..old(self)@ }),
                None => r is None && final(self)@ == old(self)@,
            },
    {
        if !self.config.live_changes {
            return None;
        }
        let index = match self.server_for(file) {
            Some(index) => index,
            None => {
                return None;
            },
        };
        let url = match self.server(index).url_for(Some(file), &self.config) {
            Some(url) => url,
            None => {
                return None;
            },
        };
        let path = tail_of(url.as_str());
        let instruction = classify(path.as_str(), self.config.full_reload);
        self.keystroke = self.keystroke.wrapping_add(1);
        let wait: u64 = if self.config.wait < 30 {
            30
        } else {
            self.config.wait
        };
        Some(BufferReload { server: index, instruction, ticket: self.keystroke, wait })
    }

    /// Whether no change has come after the one with this number.
    pub fn is_latest(&self, ticket: u64) -> (r: bool)
        ensures
            r == (self@.keystroke == ticket),
    {
        self.keystroke == ticket
    }

    /* --------------------------------------------------------- configuration */

    /// Takes up a new configuration.
    ///
    /// Clients push the current configuration once at startup, and may resend it
    /// whenever anything in settings changes. Restarting on every such
    /// notification would tear down a server the user is already using and,
    /// because the browser was sent to the original port, strand the page they
    /// are looking at. And only what was already running is restarted, so that
    /// changing a setting does not start servers the user had deliberately
    /// stopped.
    pub fn reconfigure(&mut self, supplied: Supplied) -> (r: Reconfiguration)
        requires
            old(self).valid(),
        ensures
            final(self).valid(),
            match supplied {
                Supplied::Malformed(reason) => {
                    &&& r matches Reconfiguration::Refused(text)
                    &&& text@ == "Live Reload config ignored: "@ + reason@
                    &&& final(self)@ == old(self)@
                },
                _ => {
                    let config = match supplied {
                        Supplied::Settings(config) => config@,
                        _ => standard_config(),
                    };
                    if config == old(self)@.config {
                        r is Unchanged && final(self)@ == old(self)@
                    } else {
                        &&& r matches Reconfiguration::Restart(list)
                        &&& indexes(list@) == running_indexes(
                            old(self)@.servers,
                            old(self)@.servers.len() as int,
                        )
                        &&& final(self)@ == (BackendModel { config, ..old(self)@ })
                    }
                },
            },
    {
        let (config, error) = Config::parse(supplied);
        if let Some(reason) = error {
            let mut text = owned("Live Reload config ignored: ");
            text.append(reason.as_str());
            return Reconfiguration::Refused(text);
        }
        if config.same_as(&self.config) {
            return Reconfiguration::Unchanged;
        }
        self.config = config;
        Reconfiguration::Restart(self.running())
    }

    /// The servers that are running.
    pub fn running(&self) -> (r: Vec<usize>)
        ensures
            indexes(r@) == running_indexes(self@.servers, self@.servers.len() as int),
    {
        let mut out: Vec<usize> = Vec::new();
        assert(indexes(out@) =~= Seq::<int>::empty());
        for i in 0..self.servers.len()
            invariant
                indexes(out@) == running_indexes(self@.servers, i as int),
        {
            assert(self@.servers[i as int] == self.servers@[i as int]@);
            if self.servers[i].notify() {
                let ghost before = indexes(out@);
                out.push(i);
                assert(indexes(out@) =~= before.push(i as int));
            }
        }
        out
    }
}

/// Servers none of which is running.
pub open spec fn all_stopped(servers: Seq<LiveServerModel>) -> Seq<LiveServerModel> {
    Seq::new(
        servers.len(),
        |i: int|
            LiveServerModel { workspace: servers[i].workspace, status: StatusModel::Stopped },
    )
}

/// Finds, by resolved names, the server of a workspace that no server spells
/// like this: the first whose resolved workspace is the resolved root.
///
/// The control channel resolves the path it is given, while workspaces are
/// however the editor spelled them. Those differ whenever a root is reached
/// through a symlink. Falling back to a resolved comparison keeps a control
/// command from reporting "no workspace" for a server that is plainly running.
pub fn resolved_match(workspaces: &Vec<Option<String>>, target: &str) -> (r: Option<usize>)
    ensures
        match r {
            Some(i) => resolved_from(workspaces@, target@, 0) == Some(i as int) && i
                < workspaces@.len(),
            None => resolved_from(workspaces@, target@, 0) is None,
        },
{
    let wanted = components_of(target);
    for i in 0..workspaces.len()
        invariant
            texts(wanted@) == components(target@),
            resolved_from(workspaces@, target@, 0) == resolved_from(
                workspaces@,
                target@,
                i as int,
            ),
    {
        if let Some(workspace) = &workspaces[i] {
            if same_texts(&components_of(workspace.as_str()), &wanted) {
                return Some(i);
            }
        }
    }
    None
}

/// The first resolved workspace from `from` on that is this one.
pub open spec fn resolved_from(
    workspaces: Seq<Option<String>>,
    target: Seq<char>,
    from: int,
) -> Option<int>
    decreases workspaces.len() - from,
{
    if from >= workspaces.len() {
        None
    } else if workspaces[from] is Some && components(workspaces[from]->0@) == components(target) {
        Some(from)
    } else {
        resolved_from(workspaces, target, from + 1)
    }
}

fn tail_of(url: &str) -> (r: String)
    ensures
        r@ == url_tail(url@),
{
    let u = chars_of(url);
    let total: usize = u.len();
    let mark = chars_of("://");
    proof {
        reveal_strlit("://");
        lemma_find_from(url@, "://"@, 0);
    }
    match position_of(u.as_slice(), mark.as_slice()) {
        Some(at) => {
            let start: usize = at + 3;
            let rest = vstd::slice::slice_subrange(u.as_slice(), start, total);
            assert(rest@ =~= url@.skip(at + 3));
            proof {
                lemma_find_char(rest@, '/', 0);
            }
            match position_of_char(rest, '/', 0) {
                Some(slash) => {
                    assert(rest@.subrange(slash as int, rest@.len() as int) =~= rest@.skip(
                        slash as int,
                    ));
                    text_of(vstd::slice::slice_subrange(rest, slash, rest.len()))
                },
                None => owned("/"),
            }
        },
        None => owned("/"),
    }
}

/// A change takes the place of the one before it: no two changes in a row have
/// the same number, so of a burst only the last one reloads.
pub proof fn law_a_later_change_supersedes(state: BackendModel, file: Seq<char>)
    requires
        buffer_reload(state, file) is Some,
    ensures
        buffer_reload(state, file)->0.ticket != state.keystroke,
{
}

} // verus!
