use live_reload::actions::{
    action, code_action, execute_command, no_workspace_reply, opened_reply, run_control,
    started_reply, starts_before_open, stopped_reply, ControlStep, Execution, Selection,
};
use live_reload::config::{Config, Supplied};
use live_reload::control::Command;
use live_reload::lsp::{
    file_path, resolved_match, workspace_paths, Backend, Reconfiguration, CMD_OPEN, CMD_RESTART, CMD_START,
    CMD_STOP,
};
use live_reload::overlay::{Position, Range};
use live_reload::reload::Reload;
use live_reload::server::{Launch, Status};
use live_reload::status::Notice;

fn show(notices: &Vec<Notice>) -> Vec<String> {
    notices
        .iter()
        .map(|notice| match notice {
            Notice::EndProgress(token) => format!("end {token}"),
            Notice::BeginProgress { token, title } => format!("begin {token} {title}"),
            Notice::Log(text) => format!("log {text}"),
            Notice::Warn(text) => format!("warn {text}"),
            Notice::Inform(text) => format!("inform {text}"),
        })
        .collect()
}

fn backend(config: Config) -> Backend {
    let mut backend = Backend::new();
    let folders = vec!["/srv/project".to_string(), "/srv/project/site".to_string()];
    assert!(backend
        .initialize(Supplied::Settings(config), &folders, Some("/unused".to_string()))
        .is_none());
    backend
}

fn bound(port: u16) -> Launch {
    Launch::Bound { port, watching: Ok(()) }
}

#[test]
fn builds_an_action_carrying_its_command() {
    let built = action("Start", CMD_START, vec!["/srv".to_string()]);
    assert_eq!(built.title, "Start");
    assert_eq!(built.command, CMD_START);
    assert_eq!(built.arguments, vec!["/srv"]);
}

#[test]
fn picks_the_most_deeply_nested_workspace_for_a_file() {
    let backend = backend(Config::default());
    let chosen = backend.server_for("/srv/project/site/index.html").unwrap();
    assert_eq!(backend.server(chosen).workspace(), "/srv/project/site");
    let chosen = backend.server_for("/srv/project/other.html").unwrap();
    assert_eq!(backend.server(chosen).workspace(), "/srv/project");
    assert!(backend.server_for("/elsewhere/x").is_none());
}

#[test]
fn takes_the_root_where_there_are_no_folders() {
    let mut backend = Backend::new();
    let warning = backend.initialize(
        Supplied::Malformed("bad".to_string()),
        &Vec::new(),
        Some("/srv".to_string()),
    );
    assert_eq!(
        warning.unwrap(),
        "Live Reload config ignored, using defaults: bad"
    );
    assert_eq!(backend.server_count(), 1);
    assert_eq!(backend.server(0).workspace(), "/srv");
    assert!(!backend.starts_on_open());
    assert!(!backend.wants_keystrokes());
}

#[test]
fn reads_file_uris() {
    assert_eq!(file_path("file:///srv/a%20b.html").unwrap(), "/srv/a b.html");
    assert!(file_path("http://example.test/a").is_none());
    assert!(file_path("not a uri").is_none());
}

#[test]
fn finds_servers_by_their_workspace() {
    let backend = backend(Config::default());
    assert_eq!(backend.server_at("/srv//project/"), Some(0));
    assert_eq!(backend.server_at("/srv"), None);
    let resolved = vec![None, Some("/mnt/site".to_string())];
    assert_eq!(resolved_match(&resolved, "/mnt/site"), Some(1));
    assert_eq!(resolved_match(&resolved, "/mnt"), None);
}

#[test]
fn narrates_a_start_and_a_stop() {
    let mut backend = backend(Config { open_browser: true, ..Config::default() });
    assert_eq!(
        show(&backend.begin_start()),
        vec!["begin live-reload/status/0 Live Reload: starting…"]
    );
    let (told, url) = backend.finish_start(1, bound(5501));
    assert_eq!(
        show(&told),
        vec![
            "log serving /srv/project/site on 127.0.0.1:5501",
            "inform Live Reload started on :5501",
        ]
    );
    assert_eq!(url.unwrap(), "http://127.0.0.1:5501/");
    assert_eq!(
        show(&backend.refresh_status()),
        vec![
            "end live-reload/status/0",
            "begin live-reload/status/1 Live Reload :5501",
        ]
    );
    assert!(backend.refresh_status().is_empty());

    backend.finish_start(0, bound(80));
    assert_eq!(
        show(&backend.refresh_status()),
        vec![
            "end live-reload/status/1",
            "begin live-reload/status/2 Live Reload :80, 5501",
        ]
    );

    assert_eq!(
        show(&backend.begin_stop(0)),
        vec![
            "end live-reload/status/2",
            "begin live-reload/status/3 Live Reload: disposing…",
        ]
    );
    assert_eq!(
        show(&backend.finish_stop(0)),
        vec![
            "inform Live Reload stopped",
            "end live-reload/status/3",
            "begin live-reload/status/4 Live Reload :5501",
        ]
    );
    assert!(backend.begin_stop(0).is_empty());
    assert!(backend.finish_stop(0).is_empty());
    backend.remember_control_file("/tmp/x.json".to_string());
    let (files, told) = backend.shutdown();
    assert_eq!(files, vec!["/tmp/x.json"]);
    assert_eq!(show(&told), vec!["end live-reload/status/4"]);
    assert_eq!(backend.server(1).status(), Status::Stopped);
}

#[test]
fn reports_a_start_that_failed() {
    let mut backend = backend(Config::default());
    let (told, url) = backend.finish_start(0, Launch::NoRoot);
    assert_eq!(
        show(&told),
        vec!["warn Live Reload could not start: document root /srv/project does not exist"]
    );
    assert!(url.is_none());
    let (told, _) = backend.finish_start(0, Launch::Unbound("no port".to_string()));
    assert_eq!(show(&told), vec!["warn Live Reload could not start: no port"]);
}

#[test]
fn says_less_when_told_to() {
    let mut backend = backend(Config {
        info_messages: false,
        status_bar: false,
        host: "0.0.0.0".to_string(),
        ..Config::default()
    });
    assert!(backend.begin_start().is_empty());
    let watching = Err("gone".to_string());
    let (told, url) = backend.finish_start(0, Launch::Bound { port: 1, watching });
    assert_eq!(
        show(&told),
        vec![
            "warn file watching unavailable: gone",
            "log serving /srv/project on 0.0.0.0:1 (reachable on your network)",
        ]
    );
    assert!(url.is_none());
    assert!(backend.refresh_status().is_empty());
    assert!(backend.finish_stop(0).is_empty());
}

#[test]
fn turning_the_status_bar_off_clears_it() {
    let mut backend = backend(Config::default());
    assert_eq!(backend.show_status("x").len(), 1);
    let off = Config { status_bar: false, ..Config::default() };
    assert!(matches!(
        backend.reconfigure(Supplied::Settings(off)),
        Reconfiguration::Restart(_)
    ));
    assert_eq!(show(&backend.show_status("y")), vec!["end live-reload/status/0"]);
    assert!(backend.clear_status().is_empty());
}

#[test]
fn restarts_only_what_was_running_and_only_on_a_change() {
    let mut backend = backend(Config::default());
    backend.finish_start(1, bound(5500));
    assert!(matches!(
        backend.reconfigure(Supplied::Null),
        Reconfiguration::Unchanged
    ));
    match backend.reconfigure(Supplied::Malformed("odd".to_string())) {
        Reconfiguration::Refused(text) => {
            assert_eq!(text, "Live Reload config ignored: odd")
        }
        _ => panic!("expected a refusal"),
    }
    let changed = Config { port: 6000, ..Config::default() };
    match backend.reconfigure(Supplied::Settings(changed)) {
        Reconfiguration::Restart(list) => assert_eq!(list, vec![1]),
        _ => panic!("expected a restart"),
    }
    assert_eq!(backend.config().port, 6000);
    assert_eq!(show(&backend.finish_restart(1, bound(6000), true)), vec!["log restarted on :6000"]);
    assert!(backend.finish_restart(1, bound(6000), false).is_empty());
    assert_eq!(
        show(&backend.finish_restart(1, Launch::Unbound("taken".to_string()), false)),
        vec!["warn Live Reload could not restart: taken"]
    );
    assert_eq!(backend.server(1).status(), Status::Stopped);
}

#[test]
fn keeps_track_of_workspaces() {
    let mut backend = backend(Config::default());
    backend.finish_start(0, bound(5500));
    // Adding a workspace again starts over with a server that is stopped.
    assert_eq!(backend.add_workspace("/srv/project/".to_string()), 0);
    assert_eq!(backend.server(0).status(), Status::Stopped);
    assert_eq!(backend.add_workspace("/srv/new".to_string()), 2);
    backend.finish_start(2, bound(5501));
    assert_eq!(backend.remove_workspace("/srv/new"), Some((2, true)));
    assert_eq!(backend.remove_workspace("/srv/new"), None);
    assert_eq!(backend.remove_workspace("/srv/project"), Some((0, false)));
    assert_eq!(backend.server_count(), 1);
    assert_eq!(backend.server(0).workspace(), "/srv/project/site");
}

#[test]
fn serves_buffers_until_they_are_saved_or_closed() {
    let mut backend = backend(Config { live_changes: true, ..Config::default() });
    let path = "/srv/project/a.css";
    backend.did_open(path.to_string(), "a{}".to_string());
    let start = Position { line: 0, character: 0 };
    let end = Position { line: 0, character: 1 };
    backend.did_change(path, Some(Range { start, end }), "b");
    assert_eq!(backend.overlay().get(path).unwrap(), "b{}");
    backend.did_save(path);
    assert!(backend.overlay().get(path).is_none());
    backend.did_open(path.to_string(), "c{}".to_string());
    backend.did_close(path);
    assert!(backend.overlay().get(path).is_none());
    backend.did_open(path.to_string(), "d{}".to_string());
    backend.finish_start(0, bound(5500));
    backend.finish_stop(0);
    assert!(backend.overlay().get(path).is_none());
}

#[test]
fn buffers_are_not_kept_unless_they_are_served() {
    let mut backend = backend(Config::default());
    backend.did_open("/srv/project/a.css".to_string(), "a{}".to_string());
    backend.did_change("/srv/project/a.css", None, "b{}");
    assert!(backend.overlay().get("/srv/project/a.css").is_none());
    assert!(backend.buffer_changed("/srv/project/a.css").is_none());
}

#[test]
fn coalesces_unsaved_changes() {
    let mut backend = backend(Config { live_changes: true, wait: 0, ..Config::default() });
    assert!(backend.buffer_changed("/srv/project/a b.css").is_none());
    backend.finish_start(0, bound(5500));
    let first = backend.buffer_changed("/srv/project/a b.css").unwrap();
    assert_eq!(first.server, 0);
    assert_eq!(first.instruction, Reload::Css("/a%20b.css".to_string()));
    assert_eq!(first.wait, 30);
    assert!(backend.is_latest(first.ticket));
    let second = backend.buffer_changed("/srv/project/index.html").unwrap();
    assert_eq!(second.instruction, Reload::Full);
    assert!(!backend.is_latest(first.ticket));
    assert!(backend.is_latest(second.ticket));
    assert!(backend.buffer_changed("/elsewhere/x.css").is_none());
    assert!(backend.buffer_changed("/srv/project/site/x.css").is_none());
}

#[test]
fn offers_actions_that_fit_the_state() {
    let mut backend = backend(Config::default());
    let file = "/srv/project/a.html";
    let offered = code_action(&backend, file).unwrap();
    assert_eq!(offered.len(), 1);
    assert_eq!(offered[0].title, "Live Reload: start server");
    assert_eq!(offered[0].command, CMD_START);
    backend.finish_start(0, bound(5500));
    let offered = code_action(&backend, file).unwrap();
    let titles: Vec<&str> = offered.iter().map(|action| action.title.as_str()).collect();
    assert_eq!(
        titles,
        vec![
            "Live Reload: open this file in the browser (:5500)",
            "Live Reload: restart server (:5500)",
            "Live Reload: stop server (:5500)",
        ]
    );
    assert_eq!(offered[0].command, CMD_OPEN);
    assert_eq!(offered[0].arguments, vec!["/srv/project", file]);
    assert_eq!(offered[1].command, CMD_RESTART);
    assert_eq!(offered[2].command, CMD_STOP);
    assert_eq!(offered[2].arguments, vec!["/srv/project"]);
    assert!(code_action(&backend, "/elsewhere").is_none());
}

#[test]
fn executes_commands_on_the_servers_they_mean() {
    let backend = backend(Config::default());
    let run = |command: &str, selection, file| execute_command(&backend, command, selection, file);
    match run(CMD_START, Selection::Every, None) {
        Ok(Execution::Start(list)) => assert_eq!(list, vec![0, 1]),
        _ => panic!("expected a start"),
    }
    match run(CMD_STOP, Selection::Named(Some(1)), None) {
        Ok(Execution::Stop(list)) => assert_eq!(list, vec![1]),
        _ => panic!("expected a stop"),
    }
    assert!(matches!(
        run(CMD_RESTART, Selection::Every, None),
        Ok(Execution::Restart(_))
    ));
    match run(CMD_OPEN, Selection::Named(Some(0)), Some("/x".to_string())) {
        Ok(Execution::Open { servers, file }) => {
            assert_eq!(servers, vec![0]);
            assert_eq!(file.unwrap(), "/x");
        }
        _ => panic!("expected to open"),
    }
    assert_eq!(
        run("dance", Selection::Named(None), None).err().unwrap(),
        "no matching workspace"
    );
    assert_eq!(
        run("dance", Selection::Every, None).err().unwrap(),
        "unknown command: dance"
    );
    assert_eq!(
        execute_command(&Backend::new(), CMD_START, Selection::Every, None)
            .err()
            .unwrap(),
        "no matching workspace"
    );
}

#[test]
fn runs_control_commands() {
    let running = Status::Running { host: "localhost".to_string(), port: 5500 };
    let stopped = Status::Stopped;
    assert!(matches!(run_control(Command::Toggle, &running), ControlStep::Stop));
    assert!(matches!(run_control(Command::Go, &running), ControlStep::Stop));
    assert!(matches!(run_control(Command::Toggle, &stopped), ControlStep::Start));
    assert!(matches!(
        run_control(Command::Go, &stopped),
        ControlStep::Open { start: true }
    ));
    assert!(matches!(
        run_control(Command::Open, &running),
        ControlStep::Open { start: false }
    ));
    assert!(matches!(run_control(Command::Stop, &stopped), ControlStep::Stop));
    let reply = |command, status| match run_control(command, status) {
        ControlStep::Reply(text) => text,
        _ => panic!("expected a reply"),
    };
    assert_eq!(reply(Command::Start, &running), "already running on :5500");
    assert_eq!(reply(Command::Status, &running), "running on localhost:5500");
    assert_eq!(reply(Command::Status, &stopped), "stopped");
    assert_eq!(stopped_reply(), "stopped");
    assert_eq!(started_reply(&running), "started on :5500");
    assert_eq!(started_reply(&stopped), "error: failed to start");
    let url = || Some("http://x/".to_string());
    assert_eq!(opened_reply(url(), Ok(())), "opened http://x/");
    assert_eq!(opened_reply(url(), Err("no".to_string())), "error: no");
    assert_eq!(opened_reply(None, Ok(())), "error: failed to start");
    assert_eq!(no_workspace_reply("/x"), "error: no workspace at /x");
}

#[test]
fn restarting_and_removing_drop_the_buffers() {
    let mut backend = backend(Config { live_changes: true, ..Config::default() });
    let path = "/srv/project/a.css";
    backend.finish_start(0, bound(5500));
    backend.did_open(path.to_string(), "a{}".to_string());
    backend.finish_restart(1, bound(5501), false);
    assert!(backend.overlay().get(path).is_some());
    backend.finish_restart(0, bound(5500), false);
    assert!(backend.overlay().get(path).is_none());
    backend.did_open(path.to_string(), "a{}".to_string());
    assert_eq!(backend.running(), vec![0, 1]);
    assert_eq!(backend.remove_workspace("/srv/project/site"), Some((1, true)));
    assert!(backend.overlay().get(path).is_none());
}

#[test]
fn keeps_the_folders_that_name_files() {
    let uris = vec![
        "file:///srv/b".to_string(),
        "http://example.test/a".to_string(),
        "file:///srv/a%20c".to_string(),
    ];
    assert_eq!(workspace_paths(&uris), vec!["/srv/b", "/srv/a c"]);
    assert!(workspace_paths(&Vec::new()).is_empty());
}

#[test]
fn a_stopped_server_is_started_before_its_site_is_opened() {
    let mut backend = backend(Config::default());
    assert!(starts_before_open(backend.server(0)));
    backend.finish_start(0, bound(5500));
    assert!(!starts_before_open(backend.server(0)));
}

#[test]
fn an_early_keystroke_leaves_a_buffer() {
    let mut backend = backend(Config { live_changes: true, ..Config::default() });
    let start = Position { line: 0, character: 0 };
    backend.did_change("/srv/project/a.css", Some(Range { start, end: start }), "x");
    assert_eq!(backend.overlay().get("/srv/project/a.css").unwrap(), "x");
}
