use drawio_parser::numbers::{parses_as_float, parse_u32};

#[test]
fn parse_u32_agrees_with_std() {
    let samples = [
        "0", "42", "+7", "007", "", "+", "-", "-1", "-0", "12a", " 1", "1 ",
        "4294967295", "4294967296", "99999999999999999999", "+4294967295",
    ];
    for s in samples {
        assert_eq!(parse_u32(s), s.parse::<u32>().ok(), "input {s:?}");
    }
}

#[test]
fn parse_u32_values() {
    assert_eq!(parse_u32("250"), Some(250));
    assert_eq!(parse_u32("4294967295"), Some(u32::MAX));
    assert_eq!(parse_u32("4294967296"), None);
}

#[test]
fn float_texts_agree_with_std() {
    let samples = [
        "0", "10", "637.5", "-12.25", "+7", ".5", "5.", "1e2", "1E2", "2.5e+1", "-25e-1",
        "1.e1", ".5e1", "1e-7", "1e400", "-1e400", "1e-400", "9223372036855", "inf", "-inf",
        "+inf", "INF", "Infinity", "-infinity", "iNfInItY", "nan", "NaN", "-NaN", "+nan", "",
        ".", "-", "+", "+.", "abc", "1.2.3", "--5", "+-5", " 5", "5 ", "e3", ".e3", "1e", "1e+",
        "1e-", "1e3.5", "1e3e2", "1ee3", "0x10", "1_000", "infin", "infinityy", "nana", "in",
        "e", "E5", "1e+-3", "00012.3400e0007", "\u{663}", "1\u{a0}",
    ];
    for s in samples {
        assert_eq!(parses_as_float(s), s.parse::<f64>().is_ok(), "input {s:?}");
    }
}
