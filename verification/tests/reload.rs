use live_reload::reload::{classify, Reload};

#[test]
fn hot_swaps_stylesheets() {
    assert_eq!(
        classify("/css/site.css", false),
        Reload::Css("/css/site.css".to_string())
    );
}

#[test]
fn hot_swaps_images() {
    assert_eq!(
        classify("/img/logo.PNG", false),
        Reload::Image("/img/logo.PNG".to_string())
    );
}

#[test]
fn hot_swaps_every_kind_of_image() {
    for extension in ["png", "jpg", "jpeg", "gif", "webp", "avif", "bmp", "ico", "svg"] {
        let path = format!("/img/a.{extension}");
        assert_eq!(classify(&path, false), Reload::Image(path.clone()));
    }
}

#[test]
fn reloads_fully_for_markup_and_scripts() {
    assert_eq!(classify("/index.html", false), Reload::Full);
    assert_eq!(classify("/app.js", false), Reload::Full);
    assert_eq!(classify("/data", false), Reload::Full);
}

#[test]
fn a_leading_dot_makes_no_extension() {
    assert_eq!(classify("/.css", false), Reload::Full);
    assert_eq!(classify("/a.css/..", false), Reload::Full);
    assert_eq!(classify("/a.css/", false), Reload::Css("/a.css/".to_string()));
}

#[test]
fn honours_the_full_reload_override() {
    assert_eq!(classify("/site.css", true), Reload::Full);
}

#[test]
fn serialises_each_instruction() {
    assert_eq!(Reload::Full.to_message(), "{\"type\":\"reload\"}");
    assert_eq!(
        Reload::Css("/a.css".into()).to_message(),
        "{\"type\":\"css\",\"path\":\"/a.css\"}"
    );
    assert_eq!(
        Reload::Image("/a.png".into()).to_message(),
        "{\"type\":\"image\",\"path\":\"/a.png\"}"
    );
}

#[test]
fn tells_instructions_apart() {
    let css = Reload::Css("/a".to_string());
    assert!(css.same_as(&Reload::Css("/a".to_string())));
    assert!(!css.same_as(&Reload::Css("/b".to_string())));
    assert!(!css.same_as(&Reload::Image("/a".to_string())));
    assert!(!css.same_as(&Reload::Full));
    assert!(Reload::Full.same_as(&Reload::Full));
}

#[test]
fn different_instructions_are_different_messages() {
    let list = [
        Reload::Full,
        Reload::Css("/a".to_string()),
        Reload::Css("/b".to_string()),
        Reload::Image("/a".to_string()),
    ];
    for (i, a) in list.iter().enumerate() {
        for (j, b) in list.iter().enumerate() {
            assert_eq!(a.to_message() == b.to_message(), i == j);
        }
    }
}

#[test]
fn awkward_names_do_not_break_a_message() {
    assert_eq!(
        Reload::Css("/a\"b\\c.css".to_string()).to_message(),
        "{\"type\":\"css\",\"path\":\"/a\\\"b\\\\c.css\"}"
    );
    for path in ["/a\"b.css", "/a\\.css", "/a\n\u{1}.css", "/é.css"] {
        for reload in [Reload::Css(path.to_string()), Reload::Image(path.to_string())] {
            let value: serde_json::Value = serde_json::from_str(&reload.to_message()).unwrap();
            assert_eq!(value["path"], path);
        }
    }
}
