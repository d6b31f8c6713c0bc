use astrolaunch::text::{blank, parse_unsigned, trim};

#[test]
fn blank_texts() {
    assert!(blank(""));
    assert!(blank(" "));
    assert!(blank(" \t\r\n"));
    assert!(blank("\u{00A0}\u{2003}\u{3000}"));
    assert!(!blank("a"));
    assert!(!blank("  a  "));
    assert!(!blank("\u{200B}"));
    for sample in ["", " ", "\n\n", " x", "x ", "\u{0085}", "\u{FEFF}", "_"] {
        assert_eq!(blank(sample), sample.trim().is_empty(), "{:?}", sample);
    }
}

#[test]
fn parse_unsigned_reads_what_the_standard_parser_reads() {
    let samples = [
        "0", "7", "007", "+7", "++7", "+", "", "-0", "-7", "7+", " 7", "7 ", "1_000", "0x10",
        "18446744073709551615", "18446744073709551616", "18446744073709551620",
        "99999999999999999999999999", "000000000000000000000000000000000012", "٣", "1٣",
    ];
    for sample in samples {
        assert_eq!(parse_unsigned(sample), sample.parse::<u64>().ok(), "{:?}", sample);
    }
    assert_eq!(parse_unsigned("42"), Some(42));
    assert_eq!(parse_unsigned("18446744073709551615"), Some(u64::MAX));
}

#[test]
fn trim_removes_white_space_at_the_ends() {
    assert_eq!(trim("  42\n"), "42");
    assert_eq!(trim("42"), "42");
    assert_eq!(trim(""), "");
    assert_eq!(trim(" \t "), "");
    assert_eq!(trim(" a b "), "a b");
    assert_eq!(trim("\u{3000}caf\u{e9}\u{2003}"), "caf\u{e9}");
    assert_eq!(trim("x"), "x");
    assert_eq!(trim(" x"), "x");
    assert_eq!(trim("x "), "x");
}

#[test]
fn trim_agrees_with_the_standard_trim() {
    let samples = [
        "", " ", "a", " a", "a ", " a ", "  a  b  ", "\n\n", "\r\n50\r\n", "\u{00A0}7\u{00A0}",
        "\u{200B} x \u{200B}", "\u{1F47E} ", " \u{e9}\u{e9} ", "\t\u{0085}\u{2028}z\u{2029}\u{205F}",
    ];
    for sample in samples {
        assert_eq!(trim(sample), sample.trim(), "{:?}", sample);
    }
}
