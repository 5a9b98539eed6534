use live_reload::config::{Config, Mount, PORT_SCAN_LIMIT};
use live_reload::http::{join_checked, request_path, resolve, Context};
use live_reload::path::slashed;
use live_reload::server::{
    bind, bind_next, browser_failure, displayable_host, document_root, encode_url_path,
    open_browser, BindError, Binding, Launch, LiveServer, Platform, StartCheck, Status,
};
use live_reload::watch::url_path_for;

#[test]
fn resolves_the_document_root_from_the_root_setting() {
    let workspace = "/srv/project";
    assert_eq!(document_root(workspace, "/"), workspace);
    assert_eq!(document_root(workspace, ""), workspace);
    assert_eq!(document_root(workspace, "/public"), "/srv/project/public");
    assert_eq!(document_root(workspace, "dist/"), "/srv/project/dist");
}

#[test]
fn encodes_url_paths() {
    assert_eq!(encode_url_path("index.html"), "index.html");
    assert_eq!(encode_url_path("a b/c&d.html"), "a%20b/c%26d.html");
}

#[test]
fn drops_what_is_not_a_name_from_url_paths() {
    assert_eq!(encode_url_path("./a/../b"), "a/b");
    assert_eq!(encode_url_path("/a"), "a");
    assert_eq!(encode_url_path(""), "");
    assert_eq!(encode_url_path("é.css"), "%C3%A9.css");
}

fn taken() -> BindError {
    BindError::InUse("address in use".to_string())
}

#[test]
fn scans_upward_when_the_port_is_taken() {
    let config = Config::default();
    let mut binding = bind(&config);
    let mut ports = Vec::new();
    let error = loop {
        match binding {
            Binding::Try { address, port, offset } => {
                assert_eq!(address, format!("127.0.0.1:{port}"));
                ports.push(port);
                let parsed = Some(address.clone());
                binding =
                    bind_next(Binding::Try { address, port, offset }, parsed, taken(), &config);
            }
            Binding::Failed(error) => break error,
            Binding::Any { .. } => panic!("a port was configured"),
        }
    };
    let expected: Vec<u16> = (config.port..config.port + PORT_SCAN_LIMIT).collect();
    assert_eq!(ports, expected);
    assert_eq!(error, "no free port in 5500..5550 on 127.0.0.1 (address in use)");
}

#[test]
fn the_scan_ends_at_the_last_port() {
    let config = Config { port: 65535, ..Config::default() };
    let first = bind(&config);
    assert!(matches!(first, Binding::Try { port: 65535, .. }));
    match bind_next(first, Some("127.0.0.1:65535".to_string()), taken(), &config) {
        Binding::Failed(error) => assert_eq!(
            error,
            "no free port in 65535..65535 on 127.0.0.1 (address in use)"
        ),
        _ => panic!("there is no port left"),
    }
}

#[test]
fn only_a_taken_literal_address_is_followed_by_another() {
    let config = Config { host: "localhost".to_string(), port: 80, ..Config::default() };
    match bind_next(bind(&config), None, taken(), &config) {
        Binding::Failed(error) => {
            assert_eq!(error, "could not bind localhost:80: address in use")
        }
        _ => panic!("a host name is not scanned"),
    }
    let denied = BindError::Other("denied".to_string());
    match bind_next(bind(&config), None, denied, &config) {
        Binding::Failed(error) => assert_eq!(error, "could not bind localhost:80: denied"),
        _ => panic!("other errors end the scan"),
    }
    // An address in itself is reported as it reads once it is parsed.
    let long = Config { host: "[0:0:0:0:0:0:0:1]".to_string(), port: 80, ..Config::default() };
    let first = bind(&long);
    assert!(matches!(&first, Binding::Try { address, .. } if address == "[0:0:0:0:0:0:0:1]:80"));
    let denied = BindError::Other("denied".to_string());
    match bind_next(first, Some("[::1]:80".to_string()), denied, &long) {
        Binding::Failed(error) => assert_eq!(error, "could not bind [::1]:80: denied"),
        _ => panic!("other errors end the scan"),
    }
    let config = Config { port: 0, ..Config::default() };
    match bind(&config) {
        Binding::Any { address } => {
            assert_eq!(address, "127.0.0.1:0");
            match bind_next(Binding::Any { address }, None, taken(), &config) {
                Binding::Failed(error) => {
                    assert_eq!(error, "could not bind 127.0.0.1:0: address in use")
                }
                _ => panic!("any port is tried once"),
            }
        }
        _ => panic!("port 0 means any port"),
    }
}

#[test]
fn reports_a_stopped_server_as_stopped() {
    let mut server = LiveServer::new("/srv/project".to_string());
    assert_eq!(server.status(), Status::Stopped);
    assert!(!server.stop());
    assert!(server.url_for(None, &Config::default()).is_none());
}

fn bound(port: u16) -> Launch {
    Launch::Bound { port, watching: Ok(()) }
}

#[test]
fn a_restart_keeps_the_same_port() {
    let mut server = LiveServer::new("/srv/project".to_string());
    let config = Config { port: 5500, ..Config::default() };
    let (first, _) = server.start(&config, bound(5500)).unwrap();
    // A restart asks for the configured port first, which it just had.
    assert!(matches!(bind(&config), Binding::Try { port: 5500, .. }));
    let (second, _) = server.restart(&config, bound(5500)).unwrap();
    assert_eq!(second, first);
    assert!(server.stop());
}

#[test]
fn refuses_to_start_with_a_missing_document_root() {
    let mut server = LiveServer::new("/srv/definitely-not-here".to_string());
    match server.start_check(&Config::default()) {
        StartCheck::Root(root) => assert_eq!(root, "/srv/definitely-not-here"),
        StartCheck::Running(_) => panic!("it is not running"),
    }
    let error = server.start(&Config::default(), Launch::NoRoot).unwrap_err();
    assert!(error.contains("does not exist"), "{error}");
    assert_eq!(error, "document root /srv/definitely-not-here does not exist");
    assert_eq!(server.status(), Status::Stopped);
}

#[test]
fn starting_twice_gives_the_same_address() {
    let mut server = LiveServer::new("/srv/project".to_string());
    let config = Config {
        host: "0.0.0.0".to_string(),
        ignore_files: vec!["[".to_string()],
        ..Config::default()
    };
    let watching = Err("no inotify".to_string());
    let (port, warnings) = server
        .start(&config, Launch::Bound { port: 5501, watching })
        .unwrap();
    assert_eq!(port, 5501);
    assert_eq!(warnings.len(), 2);
    assert!(warnings[0].starts_with("ignore_files: \"[\": "));
    assert_eq!(warnings[1], "file watching unavailable: no inotify");
    assert_eq!(
        server.status(),
        Status::Running { host: "0.0.0.0".to_string(), port: 5501 }
    );
    assert!(matches!(server.start_check(&config), StartCheck::Running(5501)));
    let (port, warnings) = server.start(&config, bound(9)).unwrap();
    assert_eq!((port, warnings.len()), (5501, 0));
    let error = server
        .restart(&config, Launch::Unbound("no port".to_string()))
        .unwrap_err();
    assert_eq!(error, "no port");
    assert_eq!(server.status(), Status::Stopped);
}

#[test]
fn builds_addresses_for_files() {
    let mut server = LiveServer::new("/srv/project".to_string());
    let config = Config {
        host: "0.0.0.0".to_string(),
        root: "/dist".to_string(),
        ..Config::default()
    };
    server.start(&config, bound(5500)).unwrap();
    assert_eq!(server.url_for(None, &config).unwrap(), "http://127.0.0.1:5500/");
    assert_eq!(
        server.url_for(Some("/srv/project/dist/a b.html"), &config).unwrap(),
        "http://127.0.0.1:5500/a%20b.html"
    );
    assert_eq!(
        server.url_for(Some("/srv/project/src/a.html"), &config).unwrap(),
        "http://127.0.0.1:5500/"
    );
}

#[test]
fn addresses_lead_back_to_their_files() {
    let context = Context {
        config: Config::default(),
        root: "/srv/site".to_string(),
        workspace: "/srv".to_string(),
        drives: false,
    };
    for file in ["/srv/site/a b/ü?#%41.css", "/srv/site/x", "/srv/site"] {
        let relative = file.strip_prefix("/srv/site").unwrap().trim_start_matches('/');
        let path = request_path(&format!("/{}", encode_url_path(relative))).unwrap();
        assert_eq!(url_path_for(file, "/srv/site").unwrap(), path);
        assert_eq!(resolve(&path, &context).unwrap(), file);
    }
}

#[test]
fn announced_paths_lead_back_to_their_files() {
    for name in ["a\\b.css", "a\"b.css", "...", "a b"] {
        let file = format!("/srv/site/x/{name}");
        let announced = url_path_for(&file, "/srv/site").unwrap();
        assert_eq!(join_checked("/srv/site", &announced), file);
    }
}

#[test]
fn shows_hosts_that_can_be_browsed_to() {
    assert_eq!(displayable_host("0.0.0.0"), "127.0.0.1");
    assert_eq!(displayable_host("::"), "[::1]");
    assert_eq!(displayable_host("[::]"), "[::1]");
    assert_eq!(displayable_host("example.test"), "example.test");
}

#[test]
fn opens_the_browser_of_the_setting_or_of_the_system() {
    let url = "http://x/";
    assert_eq!(
        open_browser(url, Some("  firefox\t--new-window "), Platform::Other).unwrap(),
        vec!["firefox", "--new-window", url]
    );
    assert_eq!(
        open_browser(url, Some(" \n"), Platform::Other).unwrap_err(),
        "browser setting is empty"
    );
    assert_eq!(open_browser(url, None, Platform::Mac).unwrap(), vec!["open", url]);
    assert_eq!(
        open_browser(url, None, Platform::Windows).unwrap(),
        vec!["cmd", "/C", "start", "", url]
    );
    assert_eq!(open_browser(url, None, Platform::Other).unwrap(), vec!["xdg-open", url]);
    assert_eq!(browser_failure("nope"), "could not open browser: nope");
}

#[test]
fn paths_of_other_systems_are_brought_into_form() {
    assert_eq!(slashed("C:\\site\\a.css", true), "C:/site/a.css");
    assert_eq!(slashed("\\\\?\\C:\\site", true), "C:/site");
    assert_eq!(slashed("\\\\?\\UNC\\host\\share", true), "//host/share");
    assert_eq!(slashed("\\\\?\\Volume{1}\\x", true), "\\\\?\\Volume{1}\\x");
    assert_eq!(slashed("a\\b", false), "a\\b");
    let root = slashed("C:\\site", true);
    let file = slashed("C:\\site\\css\\a.css", true);
    assert_eq!(url_path_for(&file, &root).unwrap(), "/css/a.css");
}

#[test]
fn a_mount_may_begin_at_a_drive() {
    let mut context = Context {
        config: Config {
            mount: vec![Mount { route: "/lib".to_string(), path: "C:/lib".to_string() }],
            ..Config::default()
        },
        root: "C:/proj/site".to_string(),
        workspace: "C:/proj".to_string(),
        drives: true,
    };
    assert_eq!(resolve("/lib/x.js", &context).unwrap(), "C:/lib/x.js");
    assert_eq!(resolve("/x.js", &context).unwrap(), "C:/proj/site/x.js");
    context.drives = false;
    assert_eq!(resolve("/lib/x.js", &context).unwrap(), "C:/proj/C:/lib/x.js");
}
