use live_reload::overlay::{byte_offset, edit, Overlay, Position, Range};

fn position(line: u32, character: u32) -> Position {
    Position { line, character }
}

#[test]
fn resolves_offsets_in_ascii_text() {
    let text = "abc\ndef\nghi";
    assert_eq!(byte_offset(text, position(0, 0)), 0);
    assert_eq!(byte_offset(text, position(0, 3)), 3);
    assert_eq!(byte_offset(text, position(1, 0)), 4);
    assert_eq!(byte_offset(text, position(2, 2)), 10);
}

#[test]
fn counts_columns_in_utf16_units_not_bytes() {
    // "é" is two bytes but one UTF-16 unit.
    let text = "éé!";
    assert_eq!(byte_offset(text, position(0, 1)), 2);
    assert_eq!(byte_offset(text, position(0, 2)), 4);
}

#[test]
fn treats_astral_characters_as_two_utf16_units() {
    // An emoji outside the BMP is a surrogate pair to the client.
    let text = "a🎉b";
    assert_eq!(byte_offset(text, position(0, 1)), 1);
    assert_eq!(byte_offset(text, position(0, 3)), 5);
}

#[test]
fn a_position_inside_a_surrogate_pair_means_the_place_behind_it() {
    assert_eq!(byte_offset("a🎉b", position(0, 2)), 5);
}

#[test]
fn clamps_positions_past_the_end_of_a_line() {
    let text = "ab\ncd";
    assert_eq!(byte_offset(text, position(0, 99)), 2);
}

#[test]
fn clamps_positions_past_the_end_of_the_document() {
    let text = "ab\ncd";
    assert_eq!(byte_offset(text, position(99, 0)), text.len());
}

#[test]
fn applies_a_ranged_edit() {
    let mut overlay = Overlay::default();
    let path = "/tmp/index.html";
    overlay.set(path.to_string(), "<h1>old</h1>".to_string());

    overlay.apply(
        path,
        Some(Range {
            start: position(0, 4),
            end: position(0, 7),
        }),
        "new",
    );

    assert_eq!(overlay.get(path).unwrap(), "<h1>new</h1>");
}

#[test]
fn applies_a_full_replace() {
    let mut overlay = Overlay::default();
    let path = "/tmp/a.css";
    overlay.set(path.to_string(), "a{}".to_string());
    overlay.apply(path, None, "b{}");
    assert_eq!(overlay.get(path).unwrap(), "b{}");
}

#[test]
fn edits_multibyte_buffers_without_corrupting_them() {
    let mut overlay = Overlay::default();
    let path = "/tmp/i18n.html";
    overlay.set(path.to_string(), "<p>日本語</p>".to_string());

    // Replace the three Japanese characters, columns 3..6 in UTF-16 units.
    overlay.apply(
        path,
        Some(Range {
            start: position(0, 3),
            end: position(0, 6),
        }),
        "hello",
    );

    assert_eq!(overlay.get(path).unwrap(), "<p>hello</p>");
}

#[test]
fn clearing_falls_back_to_disk() {
    let mut overlay = Overlay::default();
    let path = "/tmp/gone.html";
    overlay.set(path.to_string(), "x".to_string());
    overlay.clear(path);
    assert!(overlay.get(path).is_none());
}

#[test]
fn an_edit_of_an_unknown_path_is_kept() {
    let mut overlay = Overlay::new();
    let range = Range {
        start: position(0, 0),
        end: position(0, 0),
    };
    overlay.apply("/tmp/new.html", Some(range), "fragment");
    assert_eq!(overlay.get("/tmp/new.html").unwrap(), "fragment");
    let past = Range {
        start: position(3, 1),
        end: position(9, 9),
    };
    overlay.apply("/tmp/other.html", Some(past), "x");
    assert_eq!(overlay.get("/tmp/other.html").unwrap(), "x");
    overlay.apply("/tmp/third.html", None, "whole");
    assert_eq!(overlay.get("/tmp/third.html").unwrap(), "whole");
}

#[test]
fn spellings_of_one_path_name_one_buffer() {
    let mut overlay = Overlay::new();
    overlay.set("/tmp//a.css".to_string(), "one".to_string());
    overlay.set("/tmp/./a.css".to_string(), "two".to_string());
    overlay.set("/tmp/b.css".to_string(), "three".to_string());
    assert_eq!(overlay.get("/tmp/a.css").unwrap(), "two");
    assert_eq!(overlay.get("/tmp/b.css").unwrap(), "three");
    overlay.clear("/tmp/a.css");
    assert!(overlay.get("/tmp//a.css").is_none());
    assert_eq!(overlay.get("/tmp/b.css").unwrap(), "three");
    overlay.clear_all();
    assert!(overlay.get("/tmp/b.css").is_none());
}

#[test]
fn a_range_that_ends_before_it_begins_changes_nothing() {
    let range = Range {
        start: position(1, 0),
        end: position(0, 0),
    };
    assert_eq!(edit("ab\ncd", Some(range), "x"), "ab\ncd");
}

#[test]
fn an_edit_keeps_what_is_around_it() {
    let range = Range {
        start: position(0, 1),
        end: position(1, 1),
    };
    assert_eq!(edit("ab\ncd", Some(range), "XY"), "aXYd");
    assert_eq!(edit("ab\ncd", Some(range), "b\nc"), "ab\ncd");
}
