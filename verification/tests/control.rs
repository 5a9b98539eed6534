use live_reload::control::{
    candidate_read, connect_failure, conventional_runtime_dir, delivery_text, fallback_token,
    field, fnv1a, json_string, listen_failure, read_reply, refusal_text, request_line, respond,
    send, state_dirs, state_file_name, state_json, state_path, state_paths, token, Candidate,
    Command, Delivery, Environment, Refusal, Sending,
};

fn desktop() -> Environment {
    Environment {
        runtime: Some("/run/user/1000".to_string()),
        conventional: Some("/run/user/1000".to_string()),
        temporary: "/tmp".to_string(),
    }
}

fn shell() -> Environment {
    Environment {
        runtime: None,
        conventional: Some("/run/user/1000".to_string()),
        temporary: "/tmp".to_string(),
    }
}

#[test]
fn parses_every_command() {
    assert_eq!(Command::parse("start"), Some(Command::Start));
    assert_eq!(Command::parse(" STOP\n"), Some(Command::Stop));
    assert_eq!(Command::parse("Toggle"), Some(Command::Toggle));
    assert_eq!(Command::parse("open"), Some(Command::Open));
    assert_eq!(Command::parse("status"), Some(Command::Status));
    assert_eq!(Command::parse("delete-everything"), None);
}

#[test]
fn parses_go() {
    assert_eq!(Command::parse("go"), Some(Command::Go));
    assert_eq!(Command::parse("\u{3000}Go\u{2003}"), Some(Command::Go));
    assert_eq!(Command::parse(""), None);
}

#[test]
fn command_names_round_trip() {
    for command in [
        Command::Start,
        Command::Stop,
        Command::Toggle,
        Command::Go,
        Command::Open,
        Command::Status,
    ] {
        assert_eq!(Command::parse(command.as_str()), Some(command));
    }
}

#[test]
fn the_same_workspace_always_maps_to_the_same_state_file() {
    let a = state_path("/srv/project", &desktop());
    let b = state_path("/srv/project", &desktop());
    assert_eq!(a, b);
}

#[test]
fn different_workspaces_map_to_different_state_files() {
    let a = state_path("/srv/project", &desktop());
    let b = state_path("/srv/other", &desktop());
    assert_ne!(a, b);
}

#[test]
fn the_hash_is_stable_and_not_the_std_default_hasher() {
    // Pinned so a future toolchain cannot silently change where the CLI
    // looks for the state file.
    assert_eq!(fnv1a(b"/srv/project"), 0x52d4_6b4a_6ecd_f2c1);
}

#[test]
fn the_state_file_is_named_by_the_hash() {
    assert_eq!(state_file_name("/srv/project"), "52d46b4a6ecdf2c1.json");
    assert_eq!(
        state_path("/srv/project", &desktop()),
        "/run/user/1000/live-reload/52d46b4a6ecdf2c1.json"
    );
}

#[test]
fn reads_fields_back_out_of_the_state_file() {
    let json = state_json(45123, "deadbeef", "/srv/my project");
    assert_eq!(field(&json, "control_port").as_deref(), Some("45123"));
    assert_eq!(field(&json, "token").as_deref(), Some("deadbeef"));
    assert_eq!(field(&json, "workspace").as_deref(), Some("/srv/my project"));
}

#[test]
fn the_state_file_is_one_line_of_json() {
    assert_eq!(
        state_json(7, "ab", "/srv"),
        "{\"control_port\":7,\"token\":\"ab\",\"workspace\":\"/srv\"}\n"
    );
}

#[test]
fn fields_that_are_not_there_are_not_found() {
    assert_eq!(field("{}", "token"), None);
    assert_eq!(field("{\"token\":\"abc", "token"), None);
    assert_eq!(field("{\"n\":12", "n"), None);
    assert_eq!(field("{\"n\": 12 ,", "n").as_deref(), Some("12"));
}

#[test]
fn escapes_awkward_workspace_paths() {
    let json = state_json(1, "t", "/srv/we\"ird\\path");
    assert!(json.contains(r#"\"ird\\path"#), "{json}");
}

#[test]
fn escapes_control_characters() {
    assert_eq!(json_string("a\n\r\t\u{1}\u{1f} é"), "\"a\\n\\r\\t\\u0001\\u001f é\"");
}

#[test]
fn tokens_are_not_predictable() {
    let one = [1u8; 16];
    let mut two = one;
    two[15] = 2;
    assert_ne!(token(&one), token(&two));
    assert!(token(&one).len() >= 32);
    assert_eq!(token(&[0x00, 0x0f, 0xff]), "000fff");
}

#[test]
fn the_fallback_token_mixes_time_and_process() {
    assert_eq!(fallback_token(0, 0), "00000000000000000000000000000000");
    assert_eq!(fallback_token(0x1234, 0xabcd), "0000abcd000000000000000000001234");
    assert_ne!(fallback_token(1, 1), fallback_token(1, 2));
}

#[test]
fn drives_a_command_end_to_end_over_the_socket() {
    let workspace = "/srv/project";
    let secret = token(&[7u8; 16]);
    let state = state_json(45123, &secret, workspace);

    let candidates = state_paths(workspace, &shell());
    let Sending::Read(index) = send(workspace, &candidates) else {
        panic!("expected a candidate to read");
    };
    let Sending::Connect { candidate, port, secret: presented } =
        candidate_read(workspace, &candidates, index, Candidate::Found(state))
    else {
        panic!("expected to connect");
    };
    assert_eq!((candidate, port), (0, 45123));

    let line = request_line(&presented, Command::Toggle);
    let Ok(command) = respond(&line, &secret) else {
        panic!("expected the command to be understood");
    };
    let reply = delivery_text(Delivery::Answered(format!("ok: {}", command.as_str())));
    assert_eq!(read_reply(&format!("{reply}\n")).unwrap(), "ok: toggle");
}

#[test]
fn rejects_a_wrong_token() {
    let refusal = respond("not-the-token toggle\n", "the-token").err().unwrap();
    assert_eq!(refusal_text(&refusal).trim(), "error: bad token");
}

#[test]
fn rejects_lines_that_are_not_a_token_and_a_command() {
    let refusal = respond("secret\n", "secret").err().unwrap();
    assert!(matches!(refusal, Refusal::Malformed));
    assert_eq!(refusal_text(&refusal), "error: malformed request");
    assert!(matches!(respond("", "").err().unwrap(), Refusal::Malformed));

    let refusal = respond("secret dance \"x\"\n", "secret").err().unwrap();
    assert!(matches!(refusal, Refusal::Unknown(_)));
    assert_eq!(
        refusal_text(&refusal),
        "error: unknown command \"dance \\\"x\\\"\""
    );
}

#[test]
fn reports_commands_that_were_not_answered() {
    assert_eq!(delivery_text(Delivery::ShuttingDown), "error: server is shutting down");
    assert_eq!(delivery_text(Delivery::Unanswered), "error: no response");
    assert_eq!(read_reply("error: no response\n").unwrap_err(), "no response");
    assert_eq!(read_reply(" stopped \n").unwrap(), "stopped");
}

#[test]
fn looks_in_both_the_runtime_and_temp_directories() {
    // The server and the CLI are separate processes and need not share an
    // environment, so a file written under either must still be found.
    let paths = state_paths("/srv/project", &desktop());
    assert!(paths.len() >= 2, "expected both candidates, got {paths:?}");
    // Whatever the server would write is always among them.
    assert!(paths.contains(&state_path("/srv/project", &desktop())));
}

#[test]
fn falls_back_to_the_conventional_runtime_dir_when_the_variable_is_absent() {
    // A shell started outside a desktop session has no runtime directory in
    // its environment, but the editor that started the server almost certainly
    // did.
    assert_eq!(conventional_runtime_dir(1000), "/run/user/1000");
    let dirs = state_dirs(&shell());
    assert_eq!(dirs, vec!["/run/user/1000/live-reload", "/tmp/live-reload"]);
}

#[test]
fn no_directory_is_listed_twice() {
    let environment = Environment {
        runtime: Some("/tmp/".to_string()),
        conventional: None,
        temporary: "/tmp".to_string(),
    };
    assert_eq!(state_dirs(&environment), vec!["/tmp/live-reload"]);
    let environment = Environment {
        runtime: None,
        conventional: None,
        temporary: "/tmp".to_string(),
    };
    assert_eq!(state_dirs(&environment), vec!["/tmp/live-reload"]);
}

#[test]
fn every_candidate_uses_the_same_file_name() {
    let paths = state_paths("/srv/project", &desktop());
    let names: Vec<_> = paths
        .iter()
        .filter_map(|p| std::path::Path::new(p).file_name())
        .collect();
    assert!(names.windows(2).all(|w| w[0] == w[1]), "{paths:?}");
}

#[test]
fn reports_a_missing_server_clearly() {
    let candidates = state_paths("/srv/project", &desktop());
    let mut step = send("/srv/project", &candidates);
    let mut read = 0;
    loop {
        match step {
            Sending::Read(index) => {
                assert_eq!(index, read);
                read += 1;
                step = candidate_read("/srv/project", &candidates, index, Candidate::Missing);
            }
            Sending::Failed(error) => {
                assert!(error.contains("no Live Reload server"), "{error}");
                assert_eq!(
                    error,
                    "no Live Reload server for /srv/project.\n\
                     The editor has to be open on that project with a file open in it."
                );
                break;
            }
            Sending::Connect { .. } => panic!("there is nothing to connect to"),
        }
    }
    assert_eq!(read, 2);
}

#[test]
fn reports_unreadable_and_malformed_state_files() {
    let candidates = state_paths("/srv/project", &desktop());
    let failed = |candidate| match candidate_read("/srv/project", &candidates, 1, candidate) {
        Sending::Failed(error) => error,
        _ => panic!("expected a failure"),
    };
    assert_eq!(
        failed(Candidate::Unreadable("denied".to_string())),
        format!("{}: denied", candidates[1])
    );
    for state in [
        "",
        "{\"control_port\":70000,\"token\":\"t\"}",
        "{\"control_port\":-1,\"token\":\"t\"}",
        "{\"control_port\":80}",
    ] {
        assert_eq!(
            failed(Candidate::Found(state.to_string())),
            "state file is malformed"
        );
    }
}

#[test]
fn words_failures_to_connect_and_to_listen() {
    assert_eq!(
        connect_failure("/srv", "refused"),
        "Live Reload is not running for /srv (refused)"
    );
    assert_eq!(listen_failure(None, "denied"), "control channel: denied");
    assert_eq!(listen_failure(Some("/tmp/x"), "denied"), "control channel: /tmp/x: denied");
}
