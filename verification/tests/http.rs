use live_reload::config::{Config, Mount};
use live_reload::http::{
    asks_for_several, join_checked, judge_head, longest_mount, parse_range, read_request,
    request_from, request_path, resolve, Context, Head, RawHead, Reading, Request, WS_PATH,
};
use live_reload::listing::{
    directory_listing, encode_path_segment, escape_html, human_size, Entry,
};
use live_reload::response::{content_type_for, mime_for, respond, write_head, Mime};

/* ---------------------------------------------------------------- paths */

#[test]
fn strips_the_query_and_fragment() {
    assert_eq!(request_path("/a/b.html?x=1").unwrap(), "/a/b.html");
    assert_eq!(request_path("/a/b.html#top").unwrap(), "/a/b.html");
}

#[test]
fn decodes_percent_escapes() {
    assert_eq!(request_path("/my%20file.html").unwrap(), "/my file.html");
    assert_eq!(request_path("/%E6%97%A5.html").unwrap(), "/日.html");
}

#[test]
fn leaves_broken_escapes_alone_and_refuses_broken_text() {
    assert_eq!(request_path("/100%").unwrap(), "/100%");
    assert_eq!(request_path("/%zz%2").unwrap(), "/%zz%2");
    assert!(request_path("/%ff").is_none());
}

#[test]
fn normalises_dot_segments() {
    assert_eq!(request_path("/a/./b/../c.html").unwrap(), "/a/c.html");
}

#[test]
fn preserves_a_trailing_slash() {
    assert_eq!(request_path("/assets/").unwrap(), "/assets/");
    assert_eq!(request_path("/").unwrap(), "/");
}

#[test]
fn normal_forms_are_stable() {
    for target in ["/", "//", "/a//b/", "/a/./b/../c", "/x/..", "/x/../"] {
        let once = request_path(target).unwrap();
        assert_eq!(request_path(&once).unwrap(), once);
    }
    assert_eq!(request_path("//a//b//").unwrap(), "/a/b/");
    assert_eq!(request_path("/x/../").unwrap(), "/");
}

#[test]
fn rejects_traversal_above_the_root() {
    assert!(request_path("/../etc/passwd").is_none());
    assert!(request_path("/a/../../etc/passwd").is_none());
}

#[test]
fn rejects_percent_encoded_traversal() {
    // The classic bypass: decode first, then normalise.
    assert!(request_path("/%2e%2e/%2e%2e/etc/passwd").is_none());
    assert!(request_path("/a/%2E%2E/%2E%2E/etc/passwd").is_none());
}

#[test]
fn rejects_nul_and_backslash_segments() {
    assert!(request_path("/a%00b").is_none());
    assert!(request_path("/..%5c..%5cwindows").is_none());
}

#[test]
fn rejects_targets_that_are_not_absolute_paths() {
    assert!(request_path("http://evil.test/x").is_none());
    assert!(request_path("").is_none());
    assert!(request_path("?x").is_none());
}

#[test]
fn join_checked_drops_any_surviving_traversal() {
    let joined = join_checked("/srv/site", "../../etc/passwd");
    assert_eq!(joined, "/srv/site/etc/passwd");
}

#[test]
fn join_checked_keeps_ordinary_components() {
    assert_eq!(join_checked("/srv/site", ""), "/srv/site");
    assert_eq!(join_checked("/srv/site", "/a//b/./c/"), "/srv/site/a/b/c");
    assert_eq!(join_checked("/", "///a"), "/a");
}

/* --------------------------------------------------------------- mounts */

fn mounts() -> Vec<Mount> {
    vec![
        Mount {
            route: "/lib".into(),
            path: "node_modules".into(),
        },
        Mount {
            route: "/lib/vendor".into(),
            path: "vendor".into(),
        },
    ]
}

#[test]
fn picks_the_most_specific_mount() {
    let mounts = mounts();
    let (mount, rest) = longest_mount(&mounts, "/lib/vendor/x.js").unwrap();
    assert_eq!(mount.path, "vendor");
    assert_eq!(rest, "/x.js");
}

#[test]
fn matches_a_mount_on_segment_boundaries_only() {
    let mounts = mounts();
    // `/library` must not be captured by the `/lib` mount.
    assert!(longest_mount(&mounts, "/library/x.js").is_none());
    assert!(longest_mount(&mounts, "/lib").is_some());
    assert!(longest_mount(&mounts, "/lib/x.js").is_some());
}

#[test]
fn an_empty_route_mounts_nothing_and_the_first_of_equals_wins() {
    let list = vec![
        Mount { route: "/".into(), path: "all".into() },
        Mount { route: "/a/".into(), path: "first".into() },
        Mount { route: "/a".into(), path: "second".into() },
    ];
    assert!(longest_mount(&list, "/b").is_none());
    let (mount, rest) = longest_mount(&list, "/a/b").unwrap();
    assert_eq!(mount.path, "first");
    assert_eq!(rest, "/b");
}

#[test]
fn resolves_paths_under_the_root_or_a_mount() {
    let context = Context {
        config: Config {
            mount: vec![
                Mount { route: "/lib".into(), path: "node_modules".into() },
                Mount { route: "/abs".into(), path: "/opt/x".into() },
            ],
            ..Config::default()
        },
        root: "/srv/site".to_string(),
        workspace: "/srv".to_string(),
        drives: false,
    };
    assert_eq!(resolve("/a/b.css", &context).unwrap(), "/srv/site/a/b.css");
    assert_eq!(resolve("/", &context).unwrap(), "/srv/site");
    assert_eq!(resolve("/lib/x.js", &context).unwrap(), "/srv/node_modules/x.js");
    assert_eq!(resolve("/lib", &context).unwrap(), "/srv/node_modules");
    assert_eq!(resolve("/abs/x.js", &context).unwrap(), "/opt/x/x.js");
}

/* ---------------------------------------------------------------- range */

#[test]
fn parses_a_closed_range() {
    assert_eq!(parse_range("bytes=0-99", 1000), Some((0, 99)));
}

#[test]
fn parses_an_open_ended_range() {
    assert_eq!(parse_range("bytes=500-", 1000), Some((500, 999)));
}

#[test]
fn parses_a_suffix_range() {
    assert_eq!(parse_range("bytes=-100", 1000), Some((900, 999)));
}

#[test]
fn clamps_an_end_past_the_file_length() {
    assert_eq!(parse_range("bytes=0-9999", 1000), Some((0, 999)));
}

#[test]
fn declines_unsatisfiable_and_multi_ranges() {
    assert_eq!(parse_range("bytes=1000-1001", 1000), None);
    assert_eq!(parse_range("bytes=0-1,5-6", 1000), None);
    assert_eq!(parse_range("chunks=0-1", 1000), None);
    assert_eq!(parse_range("bytes=0-0", 0), None);
}

#[test]
fn reads_the_odd_ranges_too() {
    assert_eq!(parse_range("bytes=-5000", 1000), Some((0, 999)));
    assert_eq!(parse_range("bytes= 1 - 2 ", 1000), Some((1, 2)));
    assert_eq!(parse_range("bytes=+1-+2", 1000), Some((1, 2)));
    assert_eq!(parse_range("bytes=-0", 1000), None);
    assert_eq!(parse_range("bytes=-", 1000), None);
    assert_eq!(parse_range("bytes=5", 1000), None);
    assert_eq!(parse_range("bytes=5-4", 1000), None);
    assert_eq!(parse_range("bytes=a-b", 1000), None);
    assert_eq!(parse_range("bytes=0-18446744073709551616", 1000), None);
    assert_eq!(parse_range("bytes=0-18446744073709551615", 1000), Some((0, 999)));
    assert_eq!(parse_range("Bytes=0-1", 1000), None);
}

#[test]
fn tells_several_ranges_from_one() {
    assert!(asks_for_several("bytes=0-1,5-6"));
    assert!(!asks_for_several("bytes=0-1"));
    assert!(!asks_for_several("chunks=0-1,5-6"));
}

/* -------------------------------------------------------------- headers */

#[test]
fn adds_a_charset_to_text_responses() {
    let css = mime_for("a.css");
    assert_eq!(content_type_for(&css), "text/css; charset=utf-8");
}

#[test]
fn leaves_binary_types_alone() {
    let png = mime_for("a.png");
    assert_eq!(content_type_for(&png), "image/png");
}

#[test]
fn knows_textual_types_that_are_not_text() {
    assert_eq!(content_type_for(&mime_for("a.json")), "application/json; charset=utf-8");
    assert_eq!(content_type_for(&mime_for("a.svg")), "image/svg+xml");
    assert_eq!(content_type_for(&mime_for("a.html")), "text/html; charset=utf-8");
    assert_eq!(content_type_for(&mime_for("a")), "application/octet-stream");
    let named = Mime {
        kind: "text".to_string(),
        subtype: "plain".to_string(),
        charset: Some("latin1".to_string()),
        text: "text/plain; charset=latin1".to_string(),
    };
    assert_eq!(content_type_for(&named), "text/plain; charset=latin1");
    let script = Mime {
        kind: "application".to_string(),
        subtype: "javascript".to_string(),
        charset: None,
        text: "application/javascript".to_string(),
    };
    assert_eq!(content_type_for(&script), "application/javascript; charset=utf-8");
}

#[test]
fn writes_heads() {
    let extra = vec![("X-A".to_string(), "1".to_string()), ("X-B".to_string(), "2".to_string())];
    assert_eq!(
        write_head(206, "Partial Content", "image/png", 10, true, &extra),
        "HTTP/1.1 206 Partial Content\r\n\
         Content-Type: image/png\r\n\
         Content-Length: 10\r\n\
         Cache-Control: no-store, no-cache, must-revalidate\r\n\
         Access-Control-Allow-Origin: *\r\n\
         X-A: 1\r\n\
         X-B: 2\r\n\r\n"
    );
}

#[test]
fn head_responses_mirror_get() {
    let get = respond(200, "OK", "text/plain", b"hello".to_vec(), false, false, &Vec::new());
    let head = respond(200, "OK", "text/plain", b"hello".to_vec(), true, false, &Vec::new());
    assert_eq!(get.head, head.head);
    assert!(get.head.contains("Content-Length: 5\r\n"));
    assert_eq!(get.body, b"hello");
    assert!(head.body.is_empty());
}

#[test]
fn detects_a_websocket_upgrade_among_other_connection_tokens() {
    let request = Request {
        method: "GET".into(),
        target: WS_PATH.into(),
        headers: vec![
            ("Connection".into(), "keep-alive, Upgrade".into()),
            ("Upgrade".into(), "websocket".into()),
        ],
    };
    assert!(request.is_websocket_upgrade());
}

#[test]
fn does_not_mistake_a_plain_request_for_an_upgrade() {
    let request = Request {
        method: "GET".into(),
        target: "/".into(),
        headers: vec![("Connection".into(), "keep-alive".into())],
    };
    assert!(!request.is_websocket_upgrade());
}

#[test]
fn finds_headers_in_any_case_and_takes_the_first() {
    let request = Request {
        method: "GET".into(),
        target: "/".into(),
        headers: vec![
            ("RANGE".into(), "a".into()),
            ("range".into(), "b".into()),
            ("Connection".into(), "Close".into()),
        ],
    };
    assert_eq!(request.header("Range"), Some("a"));
    assert_eq!(request.header("missing"), None);
    assert!(!request.keep_alive());
}

/* ---------------------------------------------------------------- heads */

#[test]
fn reads_a_request_head_in_pieces() {
    let Reading::More(buffer) = read_request(Vec::new(), b"GET /a%20b HTTP/1.1\r\nHost: x\r\n")
    else {
        panic!("expected to need more");
    };
    let Reading::Finished(Some(request)) = read_request(buffer, b"X-Odd: \xff\r\n\r\n") else {
        panic!("expected a request");
    };
    assert_eq!(request.method, "GET");
    assert_eq!(request.target, "/a%20b");
    assert_eq!(
        request.headers,
        vec![
            ("Host".to_string(), "x".to_string()),
            ("X-Odd".to_string(), "\u{fffd}".to_string()),
        ]
    );
}

#[test]
fn gives_up_on_too_many_headers() {
    let head = |count: usize| {
        let mut head = b"GET / HTTP/1.1\r\n".to_vec();
        for _ in 0..count {
            head.extend_from_slice(b"A: b\r\n");
        }
        head.extend_from_slice(b"\r\n");
        head
    };
    assert!(matches!(read_request(Vec::new(), &head(64)), Reading::Finished(Some(_))));
    assert!(matches!(read_request(Vec::new(), &head(65)), Reading::Finished(None)));
}

#[test]
fn gives_up_on_bad_heads() {
    assert!(matches!(read_request(Vec::new(), b""), Reading::Finished(None)));
    assert!(matches!(
        read_request(Vec::new(), b"\x00\x01\r\n\r\n"),
        Reading::Finished(None)
    ));
    assert!(matches!(
        read_request(vec![b'a'; 32768], b"b"),
        Reading::Finished(None)
    ));
    assert!(matches!(read_request(vec![b'a'; 32767], b"b"), Reading::More(_)));
}

#[test]
fn judges_every_outcome_of_a_parse() {
    let raw = RawHead {
        method: Some("GET".to_string()),
        target: Some("/".to_string()),
        headers: vec![("A".to_string(), b"b".to_vec())],
    };
    assert!(matches!(
        judge_head(Head::Complete(raw), vec![1]),
        Reading::Finished(Some(_))
    ));
    assert!(matches!(judge_head(Head::Malformed, vec![1]), Reading::Finished(None)));
    match judge_head(Head::Partial, vec![1]) {
        Reading::More(buffer) => assert_eq!(buffer, vec![1]),
        Reading::Finished(_) => panic!("expected to need more"),
    }
    let nameless = RawHead {
        method: None,
        target: Some("/".to_string()),
        headers: Vec::new(),
    };
    assert!(request_from(nameless).is_none());
    let aimless = RawHead {
        method: Some("GET".to_string()),
        target: None,
        headers: Vec::new(),
    };
    assert!(request_from(aimless).is_none());
}

/* --------------------------------------------------------------- markup */

#[test]
fn escapes_entries_in_the_directory_listing() {
    assert_eq!(
        escape_html("<script>&\"x\""),
        "&lt;script&gt;&amp;&quot;x&quot;"
    );
}

#[test]
fn encodes_listing_hrefs() {
    assert_eq!(encode_path_segment("my file.html"), "my%20file.html");
    assert_eq!(encode_path_segment("a&b.txt"), "a%26b.txt");
}

#[test]
fn formats_sizes() {
    assert_eq!(human_size(0), "0 B");
    assert_eq!(human_size(999), "999 B");
    assert_eq!(human_size(1536), "1.5 KB");
}

#[test]
fn sizes_agree_with_floating_point() {
    let mut sizes = vec![
        1023, 1024, 1025, 1075, 1076, 1127, 1178, 1280, 10188, 104806, 1048575, 1048576,
        1073741823, 1099511627775, 1099511627776, 1125899906842624, 9007199254740993,
        9007199254740995, 18014398509481985, u64::MAX, u64::MAX - 1023, u64::MAX - 1025,
    ];
    let mut next: u64 = 1;
    for step in 0..20000u64 {
        next = next.wrapping_mul(6364136223846793005).wrapping_add(1442695040888963407);
        sizes.push(next >> (step % 64));
    }
    for bytes in sizes {
        let units = ["B", "KB", "MB", "GB", "TB"];
        let mut size = bytes as f64;
        let mut unit = 0;
        while size >= 1024.0 && unit < 4 {
            size /= 1024.0;
            unit += 1;
        }
        let expected = if unit == 0 {
            format!("{bytes} B")
        } else {
            format!("{size:.1} {}", units[unit])
        };
        assert_eq!(human_size(bytes), expected);
    }
}

fn entry(name: &str, size: Option<u64>) -> Entry {
    Entry { name: name.to_string(), size }
}

#[test]
fn lists_directories_first_and_ignores_case() {
    let list = vec![
        entry("b.txt", Some(1)),
        entry("Zoo", None),
        entry("A.txt", Some(2048)),
        entry("alpha", None),
        entry("É&.txt", Some(3)),
        entry("é&.txt", Some(4)),
    ];
    let page = directory_listing(&list, "/x/");
    let order = [
        "href=\"..\"",
        "<li class=\"dir\"><a href=\"alpha/\">alpha/</a></li>",
        "<li class=\"dir\"><a href=\"Zoo/\">Zoo/</a></li>",
        "<li><a href=\"A.txt\">A.txt</a><span>2.0 KB</span></li>",
        "<li><a href=\"b.txt\">b.txt</a><span>1 B</span></li>",
        "<li><a href=\"%C3%89%26.txt\">É&amp;.txt</a><span>3 B</span></li>",
        "<li><a href=\"%C3%A9%26.txt\">é&amp;.txt</a><span>4 B</span></li>",
    ];
    let mut at = 0;
    for piece in order {
        at += page[at..].find(piece).expect(piece);
    }
    assert!(page.starts_with("<!doctype html><html><head><meta charset=\"utf-8\">"));
    assert!(page.contains("<title>/x/</title>"));
    assert!(page.ends_with("</ul></body></html>"));
    assert!(!directory_listing(&list, "/").contains("href=\"..\""));
}
