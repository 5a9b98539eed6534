use live_reload::config::Config;
use live_reload::ignore::IgnoreSet;
use live_reload::reload::Reload;
use live_reload::watch::{
    collect, debounce, is_ignored, plan, quiet_window, url_path_for, ChangeKind, Pending,
};

fn globs(patterns: &[&str]) -> IgnoreSet {
    let config = Config {
        ignore_files: patterns.iter().map(|pattern| pattern.to_string()).collect(),
        ..Config::default()
    };
    let (ignore, errors) = config.ignore_set();
    assert!(errors.is_empty(), "{errors:?}");
    ignore
}

fn pending(paths: &[&str]) -> Pending {
    let mut pending = Pending::new();
    for path in paths {
        pending.insert(path.to_string());
    }
    pending
}

#[test]
fn builds_url_paths_from_the_document_root() {
    let root = "/srv/site";
    assert_eq!(
        url_path_for("/srv/site/css/app.css", root).unwrap(),
        "/css/app.css"
    );
    assert_eq!(
        url_path_for("/srv/site/index.html", root).unwrap(),
        "/index.html"
    );
}

#[test]
fn returns_nothing_for_paths_outside_the_root() {
    assert!(url_path_for("/elsewhere/a.css", "/srv/site").is_none());
}

#[test]
fn the_root_itself_is_served_at_the_top() {
    assert_eq!(url_path_for("/srv/site", "/srv/site").unwrap(), "/");
    assert_eq!(url_path_for("/srv//site/./a//b", "/srv/site/").unwrap(), "/a/b");
    assert!(url_path_for("/srv/siteX/a", "/srv/site").is_none());
}

#[test]
fn ignores_by_relative_pattern() {
    let root = "/srv/site";
    let ignore = globs(&["**/node_modules/**", "**/*.log"]);
    assert!(is_ignored("/srv/site/node_modules/x/index.js", root, &ignore));
    assert!(is_ignored("/srv/site/debug.log", root, &ignore));
    assert!(!is_ignored("/srv/site/app.js", root, &ignore));
}

#[test]
fn ignoring_a_directory_ignores_everything_under_it() {
    let root = "/srv/site";
    // Only the bare directory form, with no trailing `/**`.
    let ignore = globs(&["**/dist"]);
    assert!(is_ignored("/srv/site/dist", root, &ignore));
    assert!(is_ignored("/srv/site/dist/a/b.css", root, &ignore));
    assert!(!is_ignored("/srv/site/src/a.css", root, &ignore));
}

#[test]
fn the_contents_form_also_covers_the_directory_itself() {
    let root = "/srv/site";
    // The reverse spelling, which is what the defaults used to use alone.
    let ignore = globs(&["**/node_modules/**"]);
    assert!(is_ignored("/srv/site/node_modules/x/i.js", root, &ignore));
}

#[test]
fn both_spellings_of_a_directory_cover_the_directory_and_its_contents() {
    let root = "/srv/site";
    for pattern in ["**/dist", "**/dist/**", "**/dist/**/**", "dist/**", "/srv/site/dist/**"] {
        let ignore = globs(&["**/*.log", pattern]);
        for path in ["/srv/site/dist", "/srv/site/dist/a.css", "/srv/site/dist/a/b.css"] {
            assert!(is_ignored(path, root, &ignore), "{pattern} {path}");
        }
        for path in ["/srv/site/distant", "/srv/site/a.css", "/srv/site"] {
            assert!(!is_ignored(path, root, &ignore), "{pattern} {path}");
        }
    }
    // A single character is not a directory's contents.
    assert!(!is_ignored("/srv/site/a", root, &globs(&["**/a?"])));
    // A pattern whose directory is no valid pattern still covers the contents.
    assert!(is_ignored("/srv/site/x", root, &globs(&["/srv/site\\/**"])));
    assert!(!is_ignored("/srv/site", root, &globs(&["/srv/site\\/**"])));
}

#[test]
fn absolute_and_relative_patterns_both_count() {
    let ignore = globs(&["/srv/site/tmp"]);
    assert!(is_ignored("/srv/site/tmp/a.css", "/srv/site", &ignore));
    let ignore = globs(&["tmp"]);
    assert!(is_ignored("/srv/site/tmp/a.css", "/srv/site", &ignore));
    assert!(!is_ignored("/srv/other/tmp/a.css", "/srv/site", &ignore));
}

#[test]
fn the_defaults_cover_a_freshly_created_dependency_directory() {
    let root = "/srv/site";
    let (ignore, errors) = Config::default().ignore_set();
    assert!(errors.is_empty(), "{errors:?}");

    // Creating the directory emits an event for the directory itself, which
    // is what leaked a spurious reload before.
    assert!(is_ignored("/srv/site/node_modules", root, &ignore));
    assert!(is_ignored("/srv/site/node_modules/x/index.js", root, &ignore));
    assert!(is_ignored("/srv/site/.git/HEAD", root, &ignore));
    assert!(!is_ignored("/srv/site/index.html", root, &ignore));
}

#[test]
fn a_single_full_reload_supersedes_hot_swaps_in_the_same_batch() {
    let root = "/srv/site";
    let config = Config::default();
    let pending = pending(&["/srv/site/app.css", "/srv/site/index.html"]);

    assert_eq!(plan(&pending, root, &config), vec![Reload::Full]);
}

#[test]
fn batches_multiple_stylesheets_into_separate_swaps() {
    let root = "/srv/site";
    let config = Config::default();
    let pending = pending(&["/srv/site/a.css", "/srv/site/b.css"]);

    assert_eq!(
        plan(&pending, root, &config),
        vec![
            Reload::Css("/a.css".to_string()),
            Reload::Css("/b.css".to_string())
        ]
    );
}

#[test]
fn falls_back_to_a_full_reload_for_changes_outside_the_root() {
    let root = "/srv/site";
    let config = Config::default();
    let pending = pending(&["/srv/vendor/a.css"]);
    assert_eq!(plan(&pending, root, &config), vec![Reload::Full]);
}

#[test]
fn respects_the_full_reload_override() {
    let root = "/srv/site";
    let config = Config {
        full_reload: true,
        ..Config::default()
    };
    let pending = pending(&["/srv/site/a.css"]);
    assert_eq!(plan(&pending, root, &config), vec![Reload::Full]);
}

#[test]
fn skips_access_events() {
    let root = "/srv/site";
    let ignore = globs(&[]);
    let mut pending = Pending::new();
    let paths = vec!["/srv/site/index.html".to_string()];
    collect(ChangeKind::Access, &paths, root, &ignore, &mut pending);
    assert!(pending.is_empty());
    collect(ChangeKind::Other, &paths, root, &ignore, &mut pending);
    assert!(pending.is_empty());
    collect(ChangeKind::Change, &paths, root, &ignore, &mut pending);
    assert_eq!(pending.len(), 1);
}

#[test]
fn collects_what_is_not_ignored() {
    let root = "/srv/site";
    let ignore = globs(&["**/*.log"]);
    let mut pending = Pending::new();
    let paths = vec![
        "/srv/site/b.css".to_string(),
        "/srv/site/x.log".to_string(),
        "/srv/site/a.css".to_string(),
        "/srv/site//a.css".to_string(),
    ];
    collect(ChangeKind::Change, &paths, root, &ignore, &mut pending);
    assert_eq!(pending.len(), 2);
    assert_eq!(
        debounce(&mut pending, root, &Config::default()),
        vec![
            Reload::Css("/a.css".to_string()),
            Reload::Css("/b.css".to_string())
        ]
    );
    assert!(pending.is_empty());
    assert!(debounce(&mut pending, root, &Config::default()).is_empty());
}

#[test]
fn batches_are_in_the_order_of_paths() {
    // Component by component, so `a/b` comes before `a.css`.
    let batch = pending(&["/srv/site/a.css", "/srv/site/a/b.css", "/srv/site/a/a.css"]);
    assert_eq!(
        plan(&batch, "/srv/site", &Config::default()),
        vec![
            Reload::Css("/a/a.css".to_string()),
            Reload::Css("/a/b.css".to_string()),
            Reload::Css("/a.css".to_string()),
        ]
    );
}

#[test]
fn the_quiet_window_never_closes() {
    let mut config = Config::default();
    assert_eq!(quiet_window(&config), 100);
    config.wait = 0;
    assert_eq!(quiet_window(&config), 20);
    config.wait = 20;
    assert_eq!(quiet_window(&config), 20);
}
