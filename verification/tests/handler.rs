use live_reload::config::Config;
use live_reload::connection::{
    greeting, handle_websocket, on_channel_event, serve_connection, wait_for_another,
    ChannelEvent, ChannelStep, Route,
};
use live_reload::handler::{
    chunk_for, directory_read, fallback_found, file_opened, handle_request, index_found,
    page_read, send_file, target_found, After, Stage, Step,
};
use live_reload::http::{Context, Request, WS_PATH};
use live_reload::listing::Entry;
use live_reload::overlay::Overlay;
use live_reload::reload::Reload;
use live_reload::response::Response;
use live_reload::ws::{text_frame, Incoming};

fn request(method: &str, target: &str, headers: &[(&str, &str)]) -> Request {
    Request {
        method: method.to_string(),
        target: target.to_string(),
        headers: headers
            .iter()
            .map(|(key, value)| (key.to_string(), value.to_string()))
            .collect(),
    }
}

fn context(config: Config) -> Context {
    Context {
        config,
        root: "/srv/site".to_string(),
        workspace: "/srv".to_string(),
        drives: false,
    }
}

fn answer(step: Step) -> Response {
    match step {
        Step::Answer(response) => response,
        _ => panic!("expected an answer"),
    }
}

fn body(response: &Response) -> String {
    String::from_utf8(response.body.clone()).unwrap()
}

#[test]
fn refuses_methods_that_write() {
    let response = answer(handle_request(
        &request("POST", "/", &[]),
        &context(Config::default()),
        "",
    ));
    assert!(response.head.starts_with("HTTP/1.1 405 Method Not Allowed\r\n"));
    assert!(response.head.contains("Content-Length: 18\r\n"));
    assert!(response.head.contains("Allow: GET, HEAD\r\n"));
    assert!(response.body.is_empty());
}

#[test]
fn refuses_targets_that_escape() {
    let response = answer(handle_request(
        &request("GET", "/%2e%2e/x", &[]),
        &context(Config::default()),
        "",
    ));
    assert!(response.head.starts_with("HTTP/1.1 400 Bad Request\r\n"));
    assert_eq!(body(&response), "Bad Request");
}

#[test]
fn serves_the_client() {
    let response = answer(handle_request(
        &request("GET", "/__live_reload/client.js?v=1", &[]),
        &context(Config { cors: true, ..Config::default() }),
        "script();",
    ));
    assert!(response.head.starts_with("HTTP/1.1 200 OK\r\n"));
    assert!(response.head.contains("Content-Type: text/javascript; charset=utf-8\r\n"));
    assert!(response.head.contains("Access-Control-Allow-Origin: *\r\n"));
    assert_eq!(body(&response), "script();");
}

#[test]
fn keeps_the_reserved_prefix_off_the_disk() {
    let response = answer(handle_request(
        &request("HEAD", "/__live_reload/other", &[]),
        &context(Config::default()),
        "",
    ));
    assert!(response.head.starts_with("HTTP/1.1 404 Not Found\r\n"));
    assert!(response.body.is_empty());
}

#[test]
fn asks_what_a_path_stands_for() {
    match handle_request(
        &request("GET", "/a%20b/?x", &[]),
        &context(Config::default()),
        "",
    ) {
        Step::Ask(Stage::Target { path, target }) => {
            assert_eq!(path, "/a b/");
            assert_eq!(target, "/srv/site/a b");
        }
        _ => panic!("expected a question"),
    }
}

#[test]
fn redirects_a_directory_without_its_slash() {
    let response = answer(target_found(
        "/docs".to_string(),
        "/srv/site/docs".to_string(),
        Some(true),
        &request("GET", "/docs", &[]),
        &context(Config::default()),
        &Overlay::new(),
    ));
    assert!(response.head.starts_with("HTTP/1.1 301 Moved Permanently\r\n"));
    assert!(response.head.contains("Location: /docs/\r\n"));
    assert!(response.body.is_empty());
}

#[test]
fn walks_from_a_directory_to_its_listing() {
    let request = request("GET", "/docs/", &[]);
    let context = context(Config::default());
    let overlay = Overlay::new();
    let step = target_found(
        "/docs/".to_string(),
        "/srv/site/docs".to_string(),
        Some(true),
        &request,
        &context,
        &overlay,
    );
    let Step::Ask(Stage::Index { path, target, index }) = step else {
        panic!("expected a question about the index");
    };
    assert_eq!(index, "/srv/site/docs/index.html");
    let step = index_found(path, target, index, true, &request, &context, &overlay);
    let Step::Ask(Stage::Read { file, after }) = step else {
        panic!("expected to read the index");
    };
    assert_eq!(file, "/srv/site/docs/index.html");
    let step = page_read(file, after, None, &request, &context);
    let Step::Ask(Stage::List { path, target }) = step else {
        panic!("expected to list the directory");
    };
    assert_eq!(target, "/srv/site/docs");
    let list = vec![Entry { name: "a.txt".to_string(), size: Some(1) }];
    let response = answer(directory_read(&path, &list, &request, &context));
    assert!(response.head.contains("Content-Type: text/html; charset=utf-8\r\n"));
    assert!(body(&response).contains("a.txt"));
}

#[test]
fn without_listings_a_directory_is_not_found() {
    let context = context(Config { directory_listing: false, ..Config::default() });
    let response = answer(index_found(
        "/docs/".to_string(),
        "/srv/site/docs".to_string(),
        "/srv/site/docs/index.html".to_string(),
        false,
        &request("GET", "/docs/", &[]),
        &context,
        &Overlay::new(),
    ));
    assert!(response.head.starts_with("HTTP/1.1 404 Not Found\r\n"));
    assert_eq!(
        body(&response),
        "<!doctype html><meta charset=utf-8><title>404</title><h1>404 Not Found</h1>"
    );
}

#[test]
fn falls_back_to_the_index_for_client_side_routers() {
    let request = request("GET", "/deep/link", &[]);
    let context = context(Config { spa: true, ..Config::default() });
    let overlay = Overlay::new();
    let step = target_found(
        "/deep/link".to_string(),
        "/srv/site/deep/link".to_string(),
        None,
        &request,
        &context,
        &overlay,
    );
    let Step::Ask(Stage::Fallback { index }) = step else {
        panic!("expected a question about the fallback");
    };
    assert_eq!(index, "/srv/site/index.html");
    let missing = answer(fallback_found(index.clone(), false, &request, &context, &overlay));
    assert!(missing.head.starts_with("HTTP/1.1 404 "));
    let Step::Ask(Stage::Read { file, after }) =
        fallback_found(index, true, &request, &context, &overlay)
    else {
        panic!("expected to read the fallback");
    };
    assert!(matches!(after, After::Fallback));
    let unreadable = answer(page_read(file.clone(), After::Fallback, None, &request, &context));
    assert!(unreadable.head.starts_with("HTTP/1.1 404 "));
    let page = answer(page_read(
        file,
        after,
        Some(b"<body>\xff</body>".to_vec()),
        &request,
        &context,
    ));
    assert!(page.head.starts_with("HTTP/1.1 200 OK\r\n"));
    assert_eq!(
        body(&page),
        "<body>\u{fffd}<script src=\"/__live_reload/client.js\" defer></script>\n</body>"
    );
}

#[test]
fn serves_unsaved_buffers_only_when_asked_to() {
    let request = request("GET", "/a.html", &[]);
    let mut overlay = Overlay::new();
    overlay.set("/srv/site/a.html".to_string(), "<p>x</p></body>".to_string());
    overlay.set("/srv/site/a.css".to_string(), "a{}".to_string());

    let off = context(Config::default());
    assert!(matches!(
        send_file("/srv/site/a.html".to_string(), After::Target, &request, &off, &overlay),
        Step::Ask(Stage::Read { .. })
    ));

    let on = context(Config { live_changes: true, ..Config::default() });
    let page = answer(send_file(
        "/srv/site/a.html".to_string(),
        After::Target,
        &request,
        &on,
        &overlay,
    ));
    assert_eq!(
        body(&page),
        "<p>x</p><script src=\"/__live_reload/client.js\" defer></script>\n</body>"
    );
    let style = answer(send_file(
        "/srv/site/a.css".to_string(),
        After::Target,
        &request,
        &on,
        &overlay,
    ));
    assert_eq!(body(&style), "a{}");
    assert!(style.head.contains("Content-Type: text/css; charset=utf-8\r\n"));

    overlay.clear("/srv/site/a.css");
    assert!(matches!(
        send_file("/srv/site/a.css".to_string(), After::Target, &request, &on, &overlay),
        Step::Ask(Stage::Open { .. })
    ));
}

fn open(headers: &[(&str, &str)], method: &str, total: Option<u64>) -> Step {
    file_opened(
        "/srv/site/a.mp4".to_string(),
        After::Target,
        total,
        &request(method, "/a.mp4", headers),
        &context(Config::default()),
    )
}

#[test]
fn streams_a_whole_file() {
    let Step::Stream { head, file, start, length } = open(&[], "GET", Some(100)) else {
        panic!("expected a stream");
    };
    assert_eq!((file.as_str(), start, length), ("/srv/site/a.mp4", 0, 100));
    assert_eq!(
        head,
        "HTTP/1.1 200 OK\r\n\
         Content-Type: video/mp4\r\n\
         Content-Length: 100\r\n\
         Cache-Control: no-store, no-cache, must-revalidate\r\n\
         Accept-Ranges: bytes\r\n\r\n"
    );
}

#[test]
fn streams_the_range_that_was_asked_for() {
    let Step::Stream { head, start, length, .. } =
        open(&[("Range", "bytes=10-19")], "GET", Some(100))
    else {
        panic!("expected a stream");
    };
    assert_eq!((start, length), (10, 10));
    assert!(head.starts_with("HTTP/1.1 206 Partial Content\r\n"));
    assert!(head.contains("Content-Length: 10\r\n"));
    assert!(head.contains("Accept-Ranges: bytes\r\nContent-Range: bytes 10-19/100\r\n"));
}

#[test]
fn answers_head_without_a_body() {
    let Step::Stream { head, length, .. } = open(&[], "HEAD", Some(100)) else {
        panic!("expected a stream");
    };
    assert_eq!(length, 0);
    assert!(head.contains("Content-Length: 100\r\n"));
}

#[test]
fn refuses_a_range_that_is_not_there() {
    let response = answer(open(&[("Range", "bytes=100-")], "GET", Some(100)));
    assert!(response.head.starts_with("HTTP/1.1 416 Range Not Satisfiable\r\n"));
    assert!(response.head.contains("Content-Range: bytes */100\r\n"));
}

#[test]
fn serves_the_whole_file_for_several_ranges() {
    let Step::Stream { head, start, length, .. } =
        open(&[("Range", "bytes=0-1,5-6")], "GET", Some(100))
    else {
        panic!("expected a stream");
    };
    assert_eq!((start, length), (0, 100));
    assert!(head.starts_with("HTTP/1.1 200 OK\r\n"));
}

#[test]
fn a_file_that_cannot_be_opened_is_not_found() {
    assert!(answer(open(&[], "GET", None)).head.starts_with("HTTP/1.1 404 "));
}

#[test]
fn reads_files_chunk_by_chunk() {
    assert_eq!(chunk_for(0), 0);
    assert_eq!(chunk_for(10), 10);
    assert_eq!(chunk_for(65536), 65536);
    assert_eq!(chunk_for(1_000_000), 65536);
}

/* ----------------------------------------------------------- connections */

#[test]
fn only_an_upgrade_at_its_path_opens_the_channel() {
    let upgrade = [("Connection", "Upgrade"), ("Upgrade", "WebSocket")];
    assert_eq!(serve_connection(&request("GET", WS_PATH, &upgrade)), Route::Channel);
    assert_eq!(serve_connection(&request("GET", "/", &upgrade)), Route::Serve);
    assert_eq!(serve_connection(&request("GET", WS_PATH, &[])), Route::Serve);
}

#[test]
fn waits_for_another_request_unless_told_to_close() {
    assert!(wait_for_another(&request("GET", "/", &[]), true));
    assert!(!wait_for_another(&request("GET", "/", &[]), false));
    assert!(!wait_for_another(&request("GET", "/", &[("connection", "CLOSE")]), true));
}

#[test]
fn accepts_a_handshake_with_a_key() {
    let key = [("Sec-WebSocket-Key", "dGhlIHNhbXBsZSBub25jZQ==")];
    assert_eq!(
        handle_websocket(&request("GET", WS_PATH, &key)).unwrap(),
        "HTTP/1.1 101 Switching Protocols\r\n\
         Upgrade: websocket\r\n\
         Connection: Upgrade\r\n\
         Sec-WebSocket-Accept: s3pPLMBiTxaQ9kYGzzhZRbK+xOo=\r\n\r\n"
    );
    assert_eq!(
        handle_websocket(&request("GET", WS_PATH, &[])).unwrap_err(),
        "HTTP/1.1 400 Bad Request\r\nContent-Length: 0\r\n\r\n"
    );
}

#[test]
fn greets_a_browser() {
    assert_eq!(greeting(), text_frame("{\"type\":\"connected\"}"));
}

#[test]
fn reacts_to_everything_on_the_channel() {
    let sent = |event| match on_channel_event(event) {
        ChannelStep::Send(bytes) => bytes,
        _ => panic!("expected something to be sent"),
    };
    assert_eq!(
        sent(ChannelEvent::Reload(Reload::Css("/a.css".to_string()))),
        text_frame("{\"type\":\"css\",\"path\":\"/a.css\"}")
    );
    assert_eq!(sent(ChannelEvent::Lagged), text_frame("{\"type\":\"reload\"}"));
    assert_eq!(sent(ChannelEvent::Frame(Incoming::Pong(vec![1]))), vec![0x8a, 1, 1]);
    for event in [
        ChannelEvent::Shutdown,
        ChannelEvent::Ended,
        ChannelEvent::Frame(Incoming::Close),
    ] {
        assert!(matches!(on_channel_event(event), ChannelStep::Close));
    }
    assert!(matches!(
        on_channel_event(ChannelEvent::Frame(Incoming::Ignore)),
        ChannelStep::Wait
    ));
}

#[test]
fn head_is_answered_as_get_is() {
    let context = context(Config::default());
    let overlay = Overlay::new();
    for target in ["/../x", "/__live_reload/client.js", "/__live_reload/x"] {
        let get = answer(handle_request(&request("GET", target, &[]), &context, "js"));
        let head = answer(handle_request(&request("HEAD", target, &[]), &context, "js"));
        assert_eq!(get.head, head.head);
        assert!(head.body.is_empty());
    }
    for range in ["bytes=1-2", "bytes=0-1,3-4", "bytes=900-"] {
        let headers = [("Range", range)];
        match (open(&headers, "GET", Some(100)), open(&headers, "HEAD", Some(100))) {
            (
                Step::Stream { head: get, length, .. },
                Step::Stream { head, length: none, .. },
            ) => {
                assert_eq!(get, head);
                assert!(length > 0 && none == 0);
            }
            (Step::Answer(get), Step::Answer(head)) => assert_eq!(get.head, head.head),
            _ => panic!("expected the same kind of step"),
        }
    }
    let missing = |method| {
        answer(target_found(
            "/x".to_string(),
            "/srv/site/x".to_string(),
            None,
            &request(method, "/x", &[]),
            &context,
            &overlay,
        ))
    };
    assert_eq!(missing("GET").head, missing("HEAD").head);
    assert!(missing("HEAD").body.is_empty());
}
