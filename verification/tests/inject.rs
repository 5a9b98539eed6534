use live_reload::inject::{find_last_tag, inject, CLIENT_PATH};

#[test]
fn injects_before_the_closing_body_tag() {
    let out = inject("<html><body><h1>hi</h1></body></html>");
    assert!(out.contains(&format!("<script src=\"{CLIENT_PATH}\" defer></script>")));
    let script = out.find("<script").unwrap();
    let body = out.find("</body>").unwrap();
    assert!(script < body);
}

#[test]
fn matches_the_closing_tag_regardless_of_case() {
    let out = inject("<HTML><BODY>hi</BODY></HTML>");
    assert!(out.find("<script").unwrap() < out.find("</BODY>").unwrap());
}

#[test]
fn falls_back_to_the_closing_html_tag() {
    let out = inject("<html><p>no body tag</p></html>");
    assert!(out.find("<script").unwrap() < out.find("</html>").unwrap());
}

#[test]
fn appends_when_the_document_has_neither_tag() {
    let out = inject("<h1>fragment</h1>");
    assert!(out.starts_with("<h1>fragment</h1>"));
    assert!(out.contains("<script"));
    assert_eq!(
        out,
        "<h1>fragment</h1>\n<script src=\"/__live_reload/client.js\" defer></script>\n"
    );
}

#[test]
fn ignores_an_escaped_body_tag_earlier_in_the_document() {
    // A tutorial page showing `</body>` as text must not be injected into.
    let html = "<html><body><pre>&lt;/body&gt;</pre><p>x</p></body></html>";
    let out = inject(html);
    assert!(out.find("<script").unwrap() > out.find("<pre>").unwrap());
}

#[test]
fn uses_the_final_body_tag_when_one_appears_inside_a_string() {
    let html = "<html><body><script>var a = \"</body>\";</script></body></html>";
    let out = inject(html);
    // Exactly one injected tag, and it sits after the inline script.
    assert_eq!(out.matches(CLIENT_PATH).count(), 1);
    assert!(out.find(CLIENT_PATH).unwrap() > out.find("var a").unwrap());
}

#[test]
fn keeps_multibyte_content_intact() {
    let html = "<html><body><p>日本語のテキスト</p></body></html>";
    let out = inject(html);
    assert!(out.contains("日本語のテキスト"));
    assert!(out.find("<script").unwrap() < out.find("</body>").unwrap());
}

#[test]
fn injection_only_inserts_a_line() {
    let html = "<p>日</p></body>";
    assert_eq!(
        inject(html),
        "<p>日</p><script src=\"/__live_reload/client.js\" defer></script>\n</body>"
    );
}

#[test]
fn finds_the_last_tag_by_characters() {
    assert_eq!(find_last_tag("日</BODY></body>", "</body>"), Some(8));
    assert_eq!(find_last_tag("nothing", "</body>"), None);
    assert_eq!(find_last_tag("", "</body>"), None);
}
