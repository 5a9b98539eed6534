use live_reload::cli::{dispatch, fail, serve, serving_line, site_address, Invocation, USAGE};
use live_reload::control::Command;
use live_reload::extension::{
    asset_name, binary_path, directory_failure, download_binary, download_failure,
    remove_stale_versions, user_config, Architecture, BinarySource, Os,
};

fn words(list: &[&str]) -> Vec<String> {
    list.iter().map(|word| word.to_string()).collect()
}

/* --------------------------------------------------------- command line */

#[test]
fn dispatches_on_the_first_argument() {
    assert!(matches!(dispatch(&words(&[])), Invocation::Lsp));
    assert!(matches!(dispatch(&words(&["--stdio"])), Invocation::Lsp));
    assert!(matches!(dispatch(&words(&["--help"])), Invocation::Help));
    assert!(matches!(dispatch(&words(&["-h", "serve"])), Invocation::Help));
    assert!(matches!(dispatch(&words(&["-V"])), Invocation::Version));
    assert!(matches!(dispatch(&words(&["--version"])), Invocation::Version));
    match dispatch(&words(&["serve", "dir", "--spa"])) {
        Invocation::Serve(options) => assert_eq!(options, vec!["dir", "--spa"]),
        _ => panic!("expected to serve"),
    }
    match dispatch(&words(&["GO", "/srv"])) {
        Invocation::Control { command, directory } => {
            assert_eq!(command, Command::Go);
            assert_eq!(directory, "/srv");
        }
        _ => panic!("expected a command"),
    }
    match dispatch(&words(&["status"])) {
        Invocation::Control { command, directory } => {
            assert_eq!(command, Command::Status);
            assert_eq!(directory, ".");
        }
        _ => panic!("expected a command"),
    }
}

#[test]
fn reads_the_options_of_serve() {
    let options = serve(&words(&[])).unwrap();
    assert_eq!(options.directory, ".");
    assert_eq!(options.config.port, 5500);
    assert!(options.config.open_browser);

    let options = serve(&words(&[
        "a", "--port", "3000", "--host", "0.0.0.0", "--no-browser", "--spa", "--cors", "b",
    ]))
    .unwrap();
    assert_eq!(options.directory, "b");
    assert_eq!(options.config.port, 3000);
    assert_eq!(options.config.host, "0.0.0.0");
    assert!(!options.config.open_browser);
    assert!(options.config.spa);
    assert!(options.config.cors);
}

#[test]
fn refuses_bad_options_of_serve() {
    let refused = |list: &[&str]| serve(&words(list)).err().unwrap();
    assert_eq!(refused(&["--port"]), "--port needs a number");
    assert_eq!(refused(&["--port", "x"]), "--port needs a number");
    assert_eq!(refused(&["--port", "65536"]), "--port needs a number");
    assert_eq!(refused(&["--host"]), "--host needs a value");
    assert_eq!(refused(&["--loud"]), "unknown option: --loud");
    assert_eq!(refused(&["-"]), "unknown option: -");
}

#[test]
fn words_what_is_printed() {
    assert!(USAGE.starts_with("live-reload-lsp - development server with live reload\n\nUSAGE:"));
    assert!(USAGE.ends_with("See the README for the full list of options."));
    let url = site_address("0.0.0.0", 80);
    assert_eq!(url, "http://127.0.0.1:80/");
    assert_eq!(serving_line("/srv", &url), "Serving /srv at http://127.0.0.1:80/");
    assert_eq!(fail("oops"), "live-reload-lsp: oops");
}

/* ------------------------------------------------------------ extension */

#[test]
fn prefers_what_the_user_points_at() {
    let some = |text: &str| Some(text.to_string());
    let path = |source| match source {
        BinarySource::Path(path) => path,
        BinarySource::Download => "download".to_string(),
    };
    assert_eq!(path(binary_path(some("a"), some("b"), some("c"), true)), "a");
    assert_eq!(path(binary_path(None, some("b"), some("c"), true)), "b");
    assert_eq!(path(binary_path(None, None, some("c"), true)), "c");
    assert_eq!(path(binary_path(None, None, some("c"), false)), "download");
    assert_eq!(path(binary_path(None, None, None, true)), "download");
}

#[test]
fn plans_the_download_of_a_release() {
    assert_eq!(
        asset_name(Os::Linux, Architecture::X8664),
        "live-reload-lsp-x86_64-unknown-linux-musl.tar.gz"
    );
    assert_eq!(
        asset_name(Os::Mac, Architecture::Aarch64),
        "live-reload-lsp-aarch64-apple-darwin.tar.gz"
    );
    let assets = vec![
        asset_name(Os::Linux, Architecture::X86),
        asset_name(Os::Windows, Architecture::X86),
    ];
    let plan = download_binary("v1.0", &assets, Os::Windows, Architecture::X86).unwrap();
    assert_eq!(plan.asset, 1);
    assert_eq!(plan.directory, "live-reload-lsp-v1.0");
    assert_eq!(
        plan.binary,
        "live-reload-lsp-v1.0/live-reload-lsp.exe"
    );
    let plan = download_binary("v1.0", &assets, Os::Linux, Architecture::X86).unwrap();
    assert_eq!(plan.asset, 0);
    assert_eq!(plan.binary, "live-reload-lsp-v1.0/live-reload-lsp");
    assert_eq!(
        download_binary("v1.0", &assets, Os::Mac, Architecture::X86).err().unwrap(),
        "no release asset found matching \"live-reload-lsp-x86-apple-darwin.tar.gz\""
    );
    assert_eq!(
        directory_failure("d", "denied"),
        "failed to create directory 'd': denied"
    );
    assert_eq!(download_failure("a", "gone"), "failed to download a: gone");
}

#[test]
fn keeps_only_the_current_version() {
    assert!(!remove_stale_versions(Some("v2"), "v2"));
    assert!(remove_stale_versions(Some("v1"), "v2"));
    assert!(remove_stale_versions(None, "v2"));
}

#[test]
fn settings_win_over_initialization_options() {
    assert_eq!(user_config(Some(1), Some(2)), Some(1));
    assert_eq!(user_config(None, Some(2)), Some(2));
    assert_eq!(user_config::<u8>(None, None), None);
}
