use drawio_parser::text::{str_eq, to_nice_string};

#[test]
fn nice_string_of_missing_label_is_unnamed() {
    assert_eq!(to_nice_string(None), "Unnamed");
}

#[test]
fn nice_string_of_plain_text() {
    assert_eq!(to_nice_string(Some("VB")), "VB");
}

#[test]
fn nice_string_turns_escaped_break_into_space() {
    assert_eq!(to_nice_string(Some("Main&lt;br&gt;Board")), "Main Board");
}

#[test]
fn nice_string_turns_block_ends_into_spaces() {
    assert_eq!(
        to_nice_string(Some("<div>Power</div><div>Supply</div>")),
        "Power Supply"
    );
    assert_eq!(to_nice_string(Some("<p>A</p><p>B</p>")), "A B");
}

#[test]
fn nice_string_break_tags_in_any_case_and_with_attributes() {
    assert_eq!(to_nice_string(Some("a<BR>b")), "a b");
    assert_eq!(to_nice_string(Some("a< br />b")), "a b");
    assert_eq!(to_nice_string(Some("a<brx>b")), "ab");
    assert_eq!(to_nice_string(Some("a<br style=\"x\">b")), "a b");
    assert_eq!(to_nice_string(Some("a</DIV>b")), "a b");
    assert_eq!(to_nice_string(Some("a</br>b")), "a b");
}

#[test]
fn nice_string_drops_other_tags_without_space() {
    assert_eq!(to_nice_string(Some("<b>Bold</b>text")), "Boldtext");
    assert_eq!(to_nice_string(Some("<span style=\"color: red\">Red</span> car")), "Red car");
}

#[test]
fn nice_string_collapses_white_space() {
    assert_eq!(
        to_nice_string(Some("  several   spaces\n\tand\r\nlines  ")),
        "several spaces and lines"
    );
    assert_eq!(to_nice_string(Some("   ")), "");
    assert_eq!(to_nice_string(Some("")), "");
}

#[test]
fn nice_string_decodes_nbsp_after_stripping() {
    // `&amp;nbsp;` becomes `&nbsp;` first, then a space once the tags are gone
    assert_eq!(to_nice_string(Some("a&amp;nbsp;b")), "a b");
}

#[test]
fn nice_string_decodes_entities_in_order() {
    // the escaped tag survives the stripping and is decoded afterwards
    assert_eq!(to_nice_string(Some("&amp;lt;b&amp;gt;")), "<b>");
    assert_eq!(to_nice_string(Some("Tom &amp;amp; Jerry")), "Tom & Jerry");
    assert_eq!(to_nice_string(Some("it&apos;s &quot;on&quot;")), "it's \"on\"");
}

#[test]
fn nice_string_drops_stray_closing_bracket() {
    assert_eq!(to_nice_string(Some("x > y")), "x y");
}

#[test]
fn nice_string_drops_unclosed_tag() {
    assert_eq!(to_nice_string(Some("before<never closed")), "before");
}

#[test]
fn nice_string_keeps_non_ascii_text() {
    assert_eq!(to_nice_string(Some("Stromversorgung\u{a0}24\u{a0}V")), "Stromversorgung 24 V");
    assert_eq!(to_nice_string(Some("Größe")), "Größe");
}

#[test]
fn nice_string_is_one_line() {
    let samples = [
        "a\n\nb",
        "<div>x</div>\n<div>y</div>",
        "\t tab \u{2003} em space ",
        "&lt;br&gt;&lt;br&gt;start",
    ];
    for s in samples {
        let n = to_nice_string(Some(s));
        assert!(!n.contains('\n'));
        assert!(!n.starts_with(' ') && !n.ends_with(' '));
        assert!(!n.contains("  "));
        assert!(n.chars().all(|c| c == ' ' || !c.is_whitespace()));
    }
}

#[test]
fn nice_string_idempotent_on_plain_names() {
    for s in ["Main&lt;br&gt;Board", "  a   b ", "<div>Power</div>Supply"] {
        let once = to_nice_string(Some(s));
        assert_eq!(to_nice_string(Some(once.as_str())), once);
    }
}

#[test]
fn plain_label_keeps_its_words() {
    assert_eq!(to_nice_string(Some("  Sensor  board 2 ")), "Sensor board 2");
}

#[test]
fn str_eq_compares_text() {
    assert!(str_eq("group", "group"));
    assert!(!str_eq("group", "Group"));
    assert!(!str_eq("", "x"));
}

#[test]
fn nice_string_of_nbsp_label() {
    assert_eq!(to_nice_string(Some("CAN&nbsp;Bus")), "CAN Bus");
    assert_eq!(to_nice_string(Some("CAN&amp;nbsp;Bus")), "CAN Bus");
}
