//! What holds of the servers of an editor, and of what is said about them.

use vstd::prelude::*;

use crate::actions::{
    control_reaction, executed, offered, selected, ControlStepModel, ExecutionModel, Selection,
};
use crate::config::{is_public_host, ConfigModel};
use crate::control::Command;
use crate::handler_laws::all_names;
use crate::lsp::{
    all_stopped, bar_refreshed, buffer_reload, distinct_workspaces, owner, resolved_from,
    restart_finished, running_indexes, server_from, serving_text, start_finished, uri_path,
    uri_paths, with_server, with_servers, BackendModel,
};
use crate::mount_laws::{law_joining_adds_all_names, path_of};
use crate::number::decimal;
use crate::path::{components, join_path, within};
use crate::path_laws::law_the_shortest_paths;
use crate::reload::{classified, ReloadModel};
use crate::reload_laws::{law_the_last_component_is_the_name, law_what_an_extension_calls_for};
use crate::server::{
    browsable_host, root_under, start_warnings, Launch, LiveServerModel, StatusModel, url_text,
};
use crate::server_laws::all_plain;
use crate::site_laws::{law_live_changes_name_the_requested_path, lemma_url_tail};
use crate::status::{
    address_line, bar_cleared, bar_shown, law_ports_ascend, port_texts, ports_sorted, running_ports,
    token_text, NoticeModel, StatusBarModel,
};
use crate::text::join;

verus! {

/* -------------------------------------------------------------------- commands */

/// A command without a workspace is for every server, one with a workspace for
/// its own.
pub proof fn law_commands_reach_their_servers(count: nat, i: usize, k: int)
    ensures
        selected(count as int, Selection::Every).len() == count,
        0 <= k < count ==> selected(count as int, Selection::Every)[k] == k,
        selected(count as int, Selection::Named(Some(i))) == seq![i as int],
        selected(count as int, Selection::Named(None)).len() == 0,
{
}

/// A command does what it is named for to the servers that it reaches; one that
/// reaches none, or has another name, is refused.
pub proof fn law_commands_do_what_they_are_named_for(
    count: int,
    selection: Selection,
    file: Option<Seq<char>>,
    other: Seq<char>,
)
    requires
        other != "liveReload.start"@,
        other != "liveReload.stop"@,
        other != "liveReload.restart"@,
        other != "liveReload.open"@,
    ensures
        ({
            let servers = selected(count, selection);
            let run = |command: Seq<char>| executed(count, command, selection, file);
            &&& servers.len() > 0 ==> {
                &&& run("liveReload.start"@) == Ok::<ExecutionModel, Seq<char>>(
                    ExecutionModel::Start(servers),
                )
                &&& run("liveReload.stop"@) == Ok::<ExecutionModel, Seq<char>>(
                    ExecutionModel::Stop(servers),
                )
                &&& run("liveReload.restart"@) == Ok::<ExecutionModel, Seq<char>>(
                    ExecutionModel::Restart(servers),
                )
                &&& run("liveReload.open"@) == Ok::<ExecutionModel, Seq<char>>(
                    ExecutionModel::Open { servers, file },
                )
                &&& run(other) == Err::<ExecutionModel, Seq<char>>("unknown command: "@ + other)
            }
            &&& servers.len() == 0 ==> run(other) == Err::<ExecutionModel, Seq<char>>(
                "no matching workspace"@,
            ) && run("liveReload.start"@) is Err && run("liveReload.stop"@) is Err && run(
                "liveReload.restart"@,
            ) is Err && run("liveReload.open"@) is Err
        }),
{
    reveal_strlit("liveReload.start");
    reveal_strlit("liveReload.stop");
    reveal_strlit("liveReload.restart");
    reveal_strlit("liveReload.open");
    assert("liveReload.start"@.len() == 16 && "liveReload.restart"@.len() == 18);
    assert("liveReload.stop"@.len() == 15 && "liveReload.open"@.len() == 15);
    assert("liveReload.stop"@[11] == 's' && "liveReload.open"@[11] == 'o');
}

/// On a server that runs it is offered to open the file, to restart and to stop;
/// on one that is stopped, to start it. All of them name the workspace.
pub proof fn law_what_is_offered(workspace: Seq<char>, host: Seq<char>, port: u16, file: Seq<char>)
    ensures
        ({
            let up = offered(
                LiveServerModel { workspace, status: StatusModel::Running { host, port } },
                file,
            );
            let down = offered(LiveServerModel { workspace, status: StatusModel::Stopped }, file);
            let on = " (:"@ + decimal(port as nat) + ")"@;
            &&& up.len() == 3
            &&& up[0].command == "liveReload.open"@ && up[0].arguments == seq![workspace, file]
            &&& up[1].command == "liveReload.restart"@ && up[1].arguments == seq![workspace]
            &&& up[2].command == "liveReload.stop"@ && up[2].arguments == seq![workspace]
            &&& up[0].title == "Live Reload: open this file in the browser"@ + on
            &&& up[1].title == "Live Reload: restart server"@ + on
            &&& up[2].title == "Live Reload: stop server"@ + on
            &&& down.len() == 1
            &&& down[0].command == "liveReload.start"@ && down[0].arguments == seq![workspace]
            &&& down[0].title == "Live Reload: start server"@
        }),
{
    let on = " (:"@ + decimal(port as nat) + ")"@;
    let up = offered(
        LiveServerModel { workspace, status: StatusModel::Running { host, port } },
        file,
    );
    assert(up[0].title =~= "Live Reload: open this file in the browser"@ + on);
    assert(up[1].title =~= "Live Reload: restart server"@ + on);
    assert(up[2].title =~= "Live Reload: stop server"@ + on);
}

/// What the commands of the control channel do to a server that runs, and to one
/// that does not.
pub proof fn law_control_commands_do_what_they_say(host: Seq<char>, port: u16)
    ensures
        ({
            let up = StatusModel::Running { host, port };
            let down = StatusModel::Stopped;
            &&& control_reaction(Command::Stop, up) == ControlStepModel::Stop
            &&& control_reaction(Command::Stop, down) == ControlStepModel::Stop
            &&& control_reaction(Command::Start, up) == ControlStepModel::Reply(
                "already running on :"@ + decimal(port as nat),
            )
            &&& control_reaction(Command::Start, down) == ControlStepModel::Start
            &&& control_reaction(Command::Open, up) == (ControlStepModel::Open { start: false })
            &&& control_reaction(Command::Open, down) == (ControlStepModel::Open { start: true })
            &&& control_reaction(Command::Status, up) == ControlStepModel::Reply(
                "running on "@ + host + ":"@ + decimal(port as nat),
            )
            &&& control_reaction(Command::Status, down) == ControlStepModel::Reply("stopped"@)
        }),
{
}

/* ------------------------------------------------------------------ workspaces */

/// Folders are found one by one: each that names a path gives that path.
pub proof fn law_folders_are_found_one_by_one(a: Seq<Seq<char>>, b: Seq<Seq<char>>, uri: Seq<char>)
    ensures
        uri_paths(a + b) == uri_paths(a) + uri_paths(b),
        uri_paths(seq![uri]) == match uri_path(uri) {
            Some(path) => seq![path],
            None => Seq::<Seq<char>>::empty(),
        },
    decreases b.len(),
{
    assert(seq![uri].drop_last() =~= Seq::<Seq<char>>::empty());
    assert(uri_paths(seq![uri].drop_last()) =~= Seq::<Seq<char>>::empty());
    assert(uri_paths(seq![uri]) =~= match uri_path(uri) {
        Some(path) => seq![path],
        None => Seq::<Seq<char>>::empty(),
    });
    if b.len() == 0 {
        assert(a + b =~= a);
        assert(uri_paths(a) + uri_paths(b) =~= uri_paths(a));
    } else {
        law_folders_are_found_one_by_one(a, b.drop_last(), uri);
        assert((a + b).drop_last() =~= a + b.drop_last());
        assert(uri_paths(a + b) =~= uri_paths(a) + uri_paths(b));
    }
}

proof fn lemma_server_found(servers: Seq<LiveServerModel>, root: Seq<char>, from: int)
    requires
        0 <= from,
    ensures
        match server_from(servers, root, from) {
            Some(i) => from <= i < servers.len() && components(servers[i].workspace) == components(
                root,
            ) && forall|k: int|
                from <= k < i ==> components((#[trigger] servers[k]).workspace) != components(root),
            None => forall|k: int|
                from <= k < servers.len() ==> components((#[trigger] servers[k]).workspace)
                    != components(root),
        },
    decreases servers.len() - from,
{
    if from < servers.len() && components(servers[from].workspace) != components(root) {
        lemma_server_found(servers, root, from + 1);
    }
}

/// A workspace that is added gets a server that is stopped, in the place of the
/// one that it had or behind the others; and every other server stays as it is,
/// where it is.
pub proof fn law_an_added_workspace_has_one_stopped_server(
    servers: Seq<LiveServerModel>,
    root: Seq<char>,
)
    requires
        distinct_workspaces(servers),
    ensures
        ({
            let after = with_server(servers, root);
            &&& forall|k: int|
                0 <= k < servers.len() && components((#[trigger] servers[k]).workspace)
                    != components(root) ==> after[k] == servers[k]
            &&& forall|k: int|
                0 <= k < servers.len() && components((#[trigger] servers[k]).workspace)
                    == components(root) ==> after.len() == servers.len() && after[k] == (
                LiveServerModel { workspace: root, status: StatusModel::Stopped })
            &&& (forall|k: int|
                0 <= k < servers.len() ==> components((#[trigger] servers[k]).workspace)
                    != components(root)) ==> after == servers.push(
                LiveServerModel { workspace: root, status: StatusModel::Stopped },
            )
        }),
{
    lemma_server_found(servers, root, 0);
}

/// After a list of workspaces has been added, each of them has a server that is
/// stopped, and those of other workspaces are as they were.
pub proof fn law_added_workspaces_have_servers(
    servers: Seq<LiveServerModel>,
    roots: Seq<Seq<char>>,
)
    ensures
        ({
            let after = with_servers(servers, roots);
            &&& after.len() >= servers.len()
            &&& forall|i: int|
                0 <= i < roots.len() ==> exists|k: int|
                    0 <= k < after.len() && components((#[trigger] after[k]).workspace)
                        == components(#[trigger] roots[i]) && after[k].status is Stopped
            &&& forall|k: int|
                0 <= k < servers.len() && (forall|i: int|
                    0 <= i < roots.len() ==> components(#[trigger] roots[i]) != components(
                        servers[k].workspace,
                    )) ==> after[k] == #[trigger] servers[k]
        }),
    decreases roots.len(),
{
    if roots.len() > 0 {
        let front = roots.drop_last();
        let root = roots[roots.len() - 1];
        let before = with_servers(servers, front);
        let after = with_servers(servers, roots);
        law_added_workspaces_have_servers(servers, front);
        lemma_server_found(before, root, 0);
        let fresh = LiveServerModel { workspace: root, status: StatusModel::Stopped };
        let at = match server_from(before, root, 0) {
            Some(i) => i,
            None => before.len() as int,
        };
        assert(after[at] == fresh);
        assert forall|i: int| 0 <= i < roots.len() implies exists|k: int|
            0 <= k < after.len() && components((#[trigger] after[k]).workspace) == components(
                #[trigger] roots[i],
            ) && after[k].status is Stopped by {
            if i < front.len() {
                assert(front[i] == roots[i]);
                let k = choose|k: int|
                    0 <= k < before.len() && components((#[trigger] before[k]).workspace)
                        == components(front[i]) && before[k].status is Stopped;
                if k == at {
                    assert(components(after[at].workspace) == components(roots[i]));
                } else {
                    assert(after[k] == before[k]);
                }
            } else {
                assert(components(after[at].workspace) == components(roots[i]));
            }
        }
        assert forall|k: int|
            0 <= k < servers.len() && (forall|i: int|
                0 <= i < roots.len() ==> components(#[trigger] roots[i]) != components(
                    servers[k].workspace,
                )) implies after[k] == #[trigger] servers[k] by {
            assert forall|i: int| 0 <= i < front.len() implies components(#[trigger] front[i])
                != components(servers[k].workspace) by {
                assert(front[i] == roots[i]);
            }
            assert(before[k] == servers[k]);
            assert(components(roots[roots.len() - 1]) != components(servers[k].workspace));
        }
    }
}

/// The servers that run are listed in order, each of them and no other.
pub proof fn law_running_servers_are_listed(servers: Seq<LiveServerModel>, upto: int)
    requires
        0 <= upto <= servers.len(),
    ensures
        forall|i: int|
            0 <= i < upto && (#[trigger] servers[i]).status is Running ==> running_indexes(
                servers,
                upto,
            ).contains(i),
        forall|k: int|
            0 <= k < running_indexes(servers, upto).len() ==> {
                let i = #[trigger] running_indexes(servers, upto)[k];
                0 <= i < upto && servers[i].status is Running
            },
        forall|j: int, k: int|
            0 <= j < k < running_indexes(servers, upto).len() ==> #[trigger] running_indexes(
                servers,
                upto,
            )[j] < #[trigger] running_indexes(servers, upto)[k],
    decreases upto,
{
    if upto > 0 {
        law_running_servers_are_listed(servers, upto - 1);
        let before = running_indexes(servers, upto - 1);
        let all = running_indexes(servers, upto);
        assert forall|i: int|
            0 <= i < upto && (#[trigger] servers[i]).status is Running implies all.contains(i) by {
            if i < upto - 1 {
                assert(before.contains(i));
                let m = choose|m: int| 0 <= m < before.len() && before[m] == i;
                assert(all[m] == i);
            } else {
                assert(all[before.len() as int] == i);
            }
        }
    }
}

/// Of workspaces whose names have been resolved, the first that is the one sought
/// is found, if there is one.
pub proof fn law_resolved_workspaces_are_found(
    workspaces: Seq<Option<String>>,
    target: Seq<char>,
    from: int,
)
    requires
        0 <= from,
    ensures
        match resolved_from(workspaces, target, from) {
            Some(i) => from <= i < workspaces.len() && workspaces[i] is Some && components(
                workspaces[i]->0@,
            ) == components(target) && forall|k: int|
                from <= k < i && (#[trigger] workspaces[k]) is Some ==> components(
                    workspaces[k]->0@,
                ) != components(target),
            None => forall|k: int|
                from <= k < workspaces.len() && (#[trigger] workspaces[k]) is Some ==> components(
                    workspaces[k]->0@,
                ) != components(target),
        },
    decreases workspaces.len() - from,
{
    if from < workspaces.len() && !(workspaces[from] is Some && components(
        workspaces[from]->0@,
    ) == components(target)) {
        law_resolved_workspaces_are_found(workspaces, target, from + 1);
    }
}

/// Shutting down stops every server, and keeps which workspaces there are.
pub proof fn law_every_server_is_stopped(servers: Seq<LiveServerModel>, k: int)
    requires
        0 <= k < servers.len(),
    ensures
        all_stopped(servers).len() == servers.len(),
        all_stopped(servers)[k].workspace == servers[k].workspace,
        all_stopped(servers)[k].status is Stopped,
{
}

/* -------------------------------------------------------------------- starting */

/// A start brings a stopped server up on the port that was bound and the host
/// that is configured; and where nothing was bound it stays stopped. A server
/// that runs is left alone.
pub proof fn law_a_start_brings_a_server_up(
    server: LiveServerModel,
    config: ConfigModel,
    launch: Launch,
)
    ensures
        ({
            let (after, told) = start_finished(server, config, launch);
            &&& after.workspace == server.workspace
            &&& server.status matches StatusModel::Running { host, port } ==> after == server
                && told.len() == (if config.info_messages {
                2int
            } else {
                1
            }) && told[0] == NoticeModel::Log(serving_text(server.workspace, config, port)) && (
            config.info_messages ==> told[1] == NoticeModel::Inform(
                "Live Reload started on :"@ + decimal(port as nat),
            ))
            &&& server.status is Stopped ==> match launch {
                Launch::Bound { port, watching } => after.status == (StatusModel::Running {
                    host: config.host,
                    port,
                }),
                Launch::NoRoot => after == server && told == seq![
                    NoticeModel::Warn(
                        "Live Reload could not start: "@ + ("document root "@ + root_under(
                            server.workspace,
                            config.root,
                        ) + " does not exist"@),
                    ),
                ],
                Launch::Unbound(reason) => after == server && told == seq![
                    NoticeModel::Warn("Live Reload could not start: "@ + reason@),
                ],
            }
        }),
{
}

/// Of a server that came up every warning is shown, then it is logged where it
/// is, and where messages are wanted it is said so too.
pub proof fn law_what_is_told_of_a_start(
    server: LiveServerModel,
    config: ConfigModel,
    port: u16,
    watching: Result<(), String>,
)
    requires
        server.status is Stopped,
    ensures
        ({
            let told = start_finished(server, config, Launch::Bound { port, watching }).1;
            let warnings = start_warnings(config, watching);
            let n = warnings.len() as int;
            &&& told.len() == n + (if config.info_messages {
                2int
            } else {
                1
            })
            &&& forall|i: int|
                0 <= i < n ==> #[trigger] told[i] == NoticeModel::Warn(warnings[i])
            &&& told[n] == NoticeModel::Log(serving_text(server.workspace, config, port))
            &&& config.info_messages ==> told[n + 1] == NoticeModel::Inform(
                "Live Reload started on :"@ + decimal(port as nat),
            )
            &&& watching matches Err(reason) ==> n > 0 && warnings[n - 1]
                == "file watching unavailable: "@ + reason@
        }),
{
}

/// It is said that a server can be reached on the network where it can.
pub proof fn law_the_log_says_what_is_reachable(
    workspace: Seq<char>,
    config: ConfigModel,
    port: u16,
)
    ensures
        ({
            let at = "serving "@ + workspace + " on "@ + config.host + ":"@ + decimal(port as nat);
            serving_text(workspace, config, port) == if is_public_host(config.host) {
                at + " (reachable on your network)"@
            } else {
                at
            }
        }),
{
    reveal_strlit("");
    assert(serving_text(workspace, config, port) =~= ({
        let at = "serving "@ + workspace + " on "@ + config.host + ":"@ + decimal(port as nat);
        if is_public_host(config.host) {
            at + " (reachable on your network)"@
        } else {
            at
        }
    }));
}

/// After a restart a server runs on the port that was bound, or is stopped and
/// it is said why.
pub proof fn law_a_restart_ends_up_or_stopped(
    server: LiveServerModel,
    config: ConfigModel,
    launch: Launch,
    announce: bool,
)
    ensures
        ({
            let (after, told) = restart_finished(server, config, launch, announce);
            &&& after.workspace == server.workspace
            &&& match launch {
                Launch::Bound { port, watching } => after.status == (StatusModel::Running {
                    host: config.host,
                    port,
                }) && told.len() == (if announce {
                    1int
                } else {
                    0
                }) && (announce ==> told[0] == NoticeModel::Log(
                    "restarted on :"@ + decimal(port as nat),
                )),
                Launch::NoRoot => after.status is Stopped && told == seq![
                    NoticeModel::Warn(
                        "Live Reload could not restart: "@ + ("document root "@ + root_under(
                            server.workspace,
                            config.root,
                        ) + " does not exist"@),
                    ),
                ],
                Launch::Unbound(reason) => after.status is Stopped && told == seq![
                    NoticeModel::Warn("Live Reload could not restart: "@ + reason@),
                ],
            }
        }),
{
}

/* ------------------------------------------------------------- unsaved changes */

/// An unsaved change is announced where unsaved changes are wanted and the file
/// belongs to a server that runs, and nowhere else: to that server, after a wait
/// of at least thirty milliseconds and of what is configured.
pub proof fn law_unsaved_changes_are_announced(state: BackendModel, file: Seq<char>)
    ensures
        ({
            let due = buffer_reload(state, file);
            let at = owner(state.servers, file);
            &&& due is Some <==> state.config.live_changes && at is Some
                && state.servers[at->0].status is Running
            &&& due matches Some(reload) ==> {
                &&& reload.server == at->0
                &&& reload.wait >= 30
                &&& reload.wait >= state.config.wait
                &&& reload.wait == 30 || reload.wait == state.config.wait
                &&& state.keystroke < u64::MAX ==> reload.ticket == state.keystroke + 1
            }
        }),
{
}

/// An unsaved change to a file below the root is announced by the path that the
/// browser knows the file by.
pub proof fn law_unsaved_changes_name_their_file(
    state: BackendModel,
    i: int,
    host: Seq<char>,
    port: u16,
    parts: Seq<Seq<char>>,
)
    requires
        0 <= i < state.servers.len(),
        state.servers[i].status == (StatusModel::Running { host, port }),
        !browsable_host(host).contains('/'),
        state.config.live_changes,
        all_names(parts),
        all_plain(parts),
        parts.len() > 0,
        owner(
            state.servers,
            join_path(root_under(state.servers[i].workspace, state.config.root), path_of(parts)),
        ) == Some(i),
    ensures
        buffer_reload(
            state,
            join_path(root_under(state.servers[i].workspace, state.config.root), path_of(parts)),
        )->0.instruction == classified(seq!['/'] + path_of(parts), state.config.full_reload),
{
    let workspace = state.servers[i].workspace;
    let root = state.config.root;
    let base = root_under(workspace, root);
    let file = join_path(base, path_of(parts));
    law_joining_adds_all_names(base, parts);
    assert(components(base).is_prefix_of(components(file)));
    law_live_changes_name_the_requested_path(host, port, workspace, root, file);
    crate::server_laws::lemma_plain_url_path(base, parts);
    reveal_strlit("/");
    assert("/"@ =~= seq!['/']);
}

/// An unsaved change to a file outside the root reloads the page.
pub proof fn law_unsaved_changes_elsewhere_reload_the_page(
    state: BackendModel,
    i: int,
    host: Seq<char>,
    port: u16,
    file: Seq<char>,
)
    requires
        0 <= i < state.servers.len(),
        state.servers[i].status == (StatusModel::Running { host, port }),
        !browsable_host(host).contains('/'),
        state.config.live_changes,
        owner(state.servers, file) == Some(i),
        !within(file, root_under(state.servers[i].workspace, state.config.root)),
    ensures
        buffer_reload(state, file)->0.instruction == ReloadModel::Full,
{
    let none = Seq::<char>::empty();
    let workspace = state.servers[i].workspace;
    let root = state.config.root;
    reveal_strlit("/");
    let url = url_text(host, port, workspace, root, Some(file));
    lemma_url_tail(host, port, none);
    assert(url == "http://"@ + browsable_host(host) + ":"@ + decimal(port as nat) + "/"@ + none);
    assert("/"@ + none =~= seq!['/']);
    law_the_shortest_paths();
    law_the_last_component_is_the_name(seq!['/'], seq!['/']);
    law_what_an_extension_calls_for(seq!['/']);
}

/* ------------------------------------------------------------------ status bar */

/// The ports on the status bar are those of the servers that run, in whatever
/// order the servers are.
pub proof fn law_running_ports_are_collected(
    a: Seq<LiveServerModel>,
    server: LiveServerModel,
    b: Seq<LiveServerModel>,
)
    ensures
        running_ports(a + seq![server] + b) == running_ports(a) + (match server.status {
            StatusModel::Running { host, port } => seq![port],
            StatusModel::Stopped => Seq::<u16>::empty(),
        }) + running_ports(b),
        running_ports(Seq::<LiveServerModel>::empty()) == Seq::<u16>::empty(),
    decreases b.len(),
{
    let all = a + seq![server] + b;
    let own = match server.status {
        StatusModel::Running { host, port } => seq![port],
        StatusModel::Stopped => Seq::<u16>::empty(),
    };
    if b.len() == 0 {
        assert(all.drop_last() =~= a);
        assert(all.last() == server);
        assert(running_ports(all) =~= running_ports(a) + own + running_ports(b));
    } else {
        law_running_ports_are_collected(a, server, b.drop_last());
        assert(all.drop_last() =~= a + seq![server] + b.drop_last());
        assert(all.last() == b.last());
        assert(running_ports(all) =~= running_ports(a) + own + running_ports(b));
    }
}

/// The status bar lists every port in use, the smaller ones first; and says
/// nothing where none is.
pub proof fn law_the_line_lists_the_ports(servers: Seq<LiveServerModel>)
    ensures
        running_ports(servers).len() == 0 <==> address_line(servers) is None,
        address_line(servers) matches Some(line) ==> exists|ports: Seq<u16>| #[trigger]
            lists_ports(line, ports) && ports.to_multiset() == running_ports(servers).to_multiset()
                && forall|i: int, j: int|
                0 <= i < j < ports.len() ==> #[trigger] ports[i] <= #[trigger] ports[j],
{
    let ports = ports_sorted(running_ports(servers));
    law_ports_ascend(running_ports(servers));
    if let Some(line) = address_line(servers) {
        assert(port_texts(ports) =~= Seq::new(ports.len(), |i: int| decimal(ports[i] as nat)));
        assert(lists_ports(line, ports));
    }
}

/// Whether a line lists ports.
pub open spec fn lists_ports(line: Seq<char>, ports: Seq<u16>) -> bool {
    line == "Live Reload :"@ + join(
        Seq::new(ports.len(), |i: int| decimal(ports[i] as nat)),
        ", "@,
    )
}

/// A text that is not on the bar yet is put there as a new item, told under its
/// own token and title; the numbers of the tokens count up.
pub proof fn law_a_new_text_is_a_new_item(bar: StatusBarModel, text: Seq<char>)
    requires
        bar.current matches Some(item) ==> item.text != text,
    ensures
        ({
            let (after, told) = bar_shown(bar, true, text);
            let token = "live-reload/status/"@ + decimal(bar.serial as nat);
            &&& after.current is Some
            &&& after.current->0.token == token
            &&& told.len() > 0
            &&& told.last() == (NoticeModel::BeginProgress { token, title: text })
            &&& bar.serial < u64::MAX ==> after.serial == bar.serial + 1
            &&& told.len() == (if bar.current is Some {
                2int
            } else {
                1
            })
        }),
{
    reveal_strlit("live-reload/status/");
    reveal_strlit("live-reload/status");
    reveal_strlit("/");
    assert(token_text(bar.serial) =~= "live-reload/status/"@ + decimal(bar.serial as nat));
}

/// Clearing the bar ends what is on it and leaves nothing there.
pub proof fn law_a_cleared_bar_is_empty(bar: StatusBarModel)
    ensures
        bar_cleared(bar).0.current is None,
        bar_cleared(bar).0.serial == bar.serial,
        bar_cleared(bar).1 == match bar.current {
            Some(item) => seq![NoticeModel::EndProgress(item.token)],
            None => Seq::<NoticeModel>::empty(),
        },
{
}

/// The bar shows the line of the servers that run, and nothing where none does.
pub proof fn law_the_bar_follows_the_servers(
    bar: StatusBarModel,
    enabled: bool,
    servers: Seq<LiveServerModel>,
)
    ensures
        ({
            let after = bar_refreshed(bar, enabled, servers).0;
            match after.current {
                Some(item) => enabled && Some(item.text) == address_line(servers),
                None => !enabled || running_ports(servers).len() == 0,
            }
        }),
{
}

} // verus!
