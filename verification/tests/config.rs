use live_reload::config::{Config, Mount, Supplied, DEFAULT_PORT, PORT_SCAN_LIMIT};

#[test]
fn the_defaults_are_the_documented_ones() {
    let config = Config::default();
    assert_eq!(config.port, 5500);
    assert_eq!(DEFAULT_PORT, 5500);
    assert_eq!(PORT_SCAN_LIMIT, 50);
    assert_eq!(config.host, "127.0.0.1");
    assert_eq!(config.root, "/");
    assert!(!config.auto_start);
    assert!(!config.open_browser);
    assert!(config.browser.is_none());
    assert!(config.info_messages);
    assert!(config.status_bar);
    assert_eq!(config.index, "index.html");
    assert!(!config.spa);
    assert!(!config.cors);
    assert!(config.directory_listing);
    assert_eq!(config.wait, 100);
    assert!(!config.full_reload);
    assert!(config.mount.is_empty());
    assert!(!config.live_changes);
    assert_eq!(
        config.ignore_files,
        vec![
            "**/.git",
            "**/.git/**",
            "**/node_modules",
            "**/node_modules/**",
            "**/target",
            "**/target/**",
            "**/.DS_Store",
            "**/*.log",
            "**/*.swp",
            "**/*~",
            "**/.#*",
        ]
    );
}

#[test]
fn nothing_supplied_means_the_defaults() {
    let (config, error) = Config::parse(Supplied::Absent);
    assert!(config.same_as(&Config::default()));
    assert!(error.is_none());
    let (config, error) = Config::parse(Supplied::Null);
    assert!(config.same_as(&Config::default()));
    assert!(error.is_none());
}

#[test]
fn a_malformed_blob_falls_back_to_the_defaults_and_says_so() {
    let (config, error) = Config::parse(Supplied::Malformed("bad port".to_string()));
    assert!(config.same_as(&Config::default()));
    assert_eq!(error.unwrap(), "bad port");
}

#[test]
fn settings_are_taken_as_they_are() {
    let settings = Config {
        port: 3000,
        ..Config::default()
    };
    let (config, error) = Config::parse(Supplied::Settings(settings));
    assert_eq!(config.port, 3000);
    assert!(error.is_none());
}

#[test]
fn a_bad_pattern_is_reported_and_costs_only_itself() {
    let config = Config {
        ignore_files: vec![
            "**/*.log".to_string(),
            "a{b".to_string(),
            "**/*.tmp".to_string(),
        ],
        ..Config::default()
    };
    let (ignore, errors) = config.ignore_set();
    assert_eq!(errors.len(), 1);
    assert!(errors[0].starts_with("ignore_files: \"a{b\": "), "{errors:?}");
    let reason = globset::Glob::new("a{b").unwrap_err().to_string();
    assert_eq!(errors[0], format!("ignore_files: \"a{{b\": {reason}"));
    assert!(ignore.is_match("x.log"));
    assert!(ignore.is_match("x.tmp"));
    assert!(!ignore.is_match("x.css"));
}

#[test]
fn patterns_are_quoted_in_reports() {
    let config = Config {
        ignore_files: vec!["[\"".to_string()],
        ..Config::default()
    };
    let (ignore, errors) = config.ignore_set();
    assert!(errors[0].starts_with("ignore_files: \"[\\\"\": "), "{errors:?}");
    assert!(!ignore.is_match("["));
}

#[test]
fn only_wildcard_addresses_are_public() {
    for (host, public) in [
        ("0.0.0.0", true),
        ("::", true),
        ("[::]", true),
        ("127.0.0.1", false),
        ("localhost", false),
        ("", false),
    ] {
        let config = Config {
            host: host.to_string(),
            ..Config::default()
        };
        assert_eq!(config.is_public(), public, "{host}");
    }
}

#[test]
fn every_setting_counts_in_a_comparison() {
    let base = Config::default();
    assert!(base.same_as(&base.duplicate()));
    let mut changed: Vec<Config> = Vec::new();
    changed.push(Config { port: 1, ..Config::default() });
    changed.push(Config { host: "x".to_string(), ..Config::default() });
    changed.push(Config { root: "/x".to_string(), ..Config::default() });
    changed.push(Config { auto_start: true, ..Config::default() });
    changed.push(Config { open_browser: true, ..Config::default() });
    changed.push(Config { browser: Some(String::new()), ..Config::default() });
    changed.push(Config { info_messages: false, ..Config::default() });
    changed.push(Config { status_bar: false, ..Config::default() });
    changed.push(Config { index: "x".to_string(), ..Config::default() });
    changed.push(Config { spa: true, ..Config::default() });
    changed.push(Config { cors: true, ..Config::default() });
    changed.push(Config { directory_listing: false, ..Config::default() });
    changed.push(Config { wait: 1, ..Config::default() });
    changed.push(Config { full_reload: true, ..Config::default() });
    changed.push(Config { ignore_files: Vec::new(), ..Config::default() });
    changed.push(Config {
        mount: vec![Mount { route: "/a".to_string(), path: "b".to_string() }],
        ..Config::default()
    });
    changed.push(Config { live_changes: true, ..Config::default() });
    for config in &changed {
        assert!(!config.same_as(&base), "{config:?}");
        assert!(config.same_as(&config.duplicate()), "{config:?}");
    }
}
