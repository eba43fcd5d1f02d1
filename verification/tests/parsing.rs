use treediff::parse::{parse_all, parse_line, parse_or_empty, ParseError};
use treediff::record::Line;
use treediff::text::{char_is_space, find_first, read_decimal, trim_bounds};

fn entry(raw: &str) -> Line {
    parse_line(raw).expect("a listing line").expect("an entry")
}

#[test]
fn parses_a_top_level_line() {
    let line = entry("[           100] foo/bar");
    assert_eq!(line.path, "foo/bar");
    assert_eq!(line.size, 100);
    assert_eq!(line.indent, 0);
}

#[test]
fn parses_nested_lines() {
    let line = entry("    [  4096] a");
    assert_eq!((line.path.as_str(), line.size, line.indent), ("a", 4096, 1));
    let line = entry("\u{2502}   \u{251c}\u{2500}\u{2500} [7]  deep/er  ");
    assert_eq!((line.path.as_str(), line.size, line.indent), ("deep/er", 7, 2));
    let line = entry("            [0] x");
    assert_eq!(line.indent, 3);
}

#[test]
fn indent_counts_characters_not_bytes() {
    let line = entry("\u{e9}\u{e9}\u{e9}\u{e9}[1] p");
    assert_eq!(line.indent, 1);
    assert_eq!(line.size, 1);
}

#[test]
fn parses_signed_sizes() {
    assert_eq!(entry("[-5] p").size, -5);
    assert_eq!(entry("[+5] p").size, 5);
    assert_eq!(entry("[ 007 ] p").size, 7);
    assert_eq!(entry("[9223372036854775807] p").size, i64::MAX);
    assert_eq!(entry("[-9223372036854775808] p").size, i64::MIN);
    assert_eq!(entry("[-0] p").size, 0);
}

#[test]
fn path_is_trimmed_and_may_be_empty() {
    assert_eq!(entry("[1]").path, "");
    assert_eq!(entry("[1]   ").path, "");
    assert_eq!(entry("[1] \t a b \u{a0}").path, "a b");
    assert_eq!(entry("[1] a]b[c").path, "a]b[c");
}

#[test]
fn line_without_opening_bracket_is_skipped() {
    assert_eq!(parse_line("no brackets here"), Ok(None));
    assert_eq!(parse_line(""), Ok(None));
    assert_eq!(parse_line("12] x"), Ok(None));
    let line = parse_or_empty("no brackets here").unwrap();
    assert_eq!((line.path.as_str(), line.size, line.indent), ("", 0, 0));
}

#[test]
fn misaligned_indent_is_an_error() {
    assert_eq!(parse_line("   [1] x"), Err(ParseError::MisalignedIndent { offset: 3 }));
    assert_eq!(parse_line(" [1] x"), Err(ParseError::MisalignedIndent { offset: 1 }));
    assert_eq!(parse_line("     [1] x"), Err(ParseError::MisalignedIndent { offset: 5 }));
    assert!(parse_or_empty("   [1] x").is_err());
}

#[test]
fn missing_close_is_an_error() {
    assert_eq!(parse_line("[12 x"), Err(ParseError::MissingClose));
    assert_eq!(parse_line("   [12 x"), Err(ParseError::MissingClose));
}

#[test]
fn close_before_open_is_an_error() {
    assert_eq!(parse_line("] x [12"), Err(ParseError::CloseBeforeOpen));
    assert_eq!(parse_line("] [12"), Err(ParseError::MisalignedIndent { offset: 2 }));
}

#[test]
fn invalid_size_is_an_error() {
    for raw in [
        "[] x",
        "[   ] x",
        "[abc] x",
        "[12a] x",
        "[1 2] x",
        "[-] x",
        "[+] x",
        "[--1] x",
        "[1.5] x",
        "[9223372036854775808] x",
        "[-9223372036854775809] x",
        "[99999999999999999999999999] x",
        "[\u{663}] x",
    ] {
        assert!(matches!(parse_line(raw), Err(ParseError::InvalidSize { from: 1, .. })), "{}", raw);
    }
    assert_eq!(parse_line("    [ 1x ] p"), Err(ParseError::InvalidSize { from: 5, to: 9 }));
    assert_eq!(parse_line("[] p"), Err(ParseError::InvalidSize { from: 1, to: 1 }));
}

#[test]
fn parse_all_keeps_going_after_a_skipped_line() {
    let lines = vec![
        "[1] a".to_string(),
        "garbage".to_string(),
        "    [2] b".to_string(),
    ];
    let records = parse_all(&lines).unwrap();
    assert_eq!(records.len(), 3);
    assert_eq!((records[0].path.as_str(), records[0].size, records[0].indent), ("a", 1, 0));
    assert_eq!((records[1].path.as_str(), records[1].size, records[1].indent), ("", 0, 0));
    assert_eq!((records[2].path.as_str(), records[2].size, records[2].indent), ("b", 2, 1));
}

#[test]
fn parse_all_stops_at_the_first_error() {
    let lines = vec![
        "[1] a".to_string(),
        "   [2] b".to_string(),
        "[x] c".to_string(),
    ];
    match parse_all(&lines) {
        Err((at, e)) => {
            assert_eq!(at, 1);
            assert_eq!(e, ParseError::MisalignedIndent { offset: 3 });
        }
        Ok(_) => panic!("the second line is misaligned"),
    }
    assert_eq!(parse_all(&Vec::new()).unwrap().len(), 0);
}

#[test]
fn find_first_gives_the_first_position() {
    assert_eq!(find_first("ab[c[", '['), Some(2));
    assert_eq!(find_first("abc", '['), None);
    assert_eq!(find_first("", '['), None);
    assert_eq!(find_first("\u{e9}[", '['), Some(1));
}

#[test]
fn trim_bounds_gives_the_trimmed_part() {
    assert_eq!(trim_bounds("  ab  ", 0, 6), (2, 4));
    assert_eq!(trim_bounds("  ab  ", 1, 3), (2, 3));
    assert_eq!(trim_bounds("    ", 0, 4), (4, 4));
    assert_eq!(trim_bounds("ab", 0, 2), (0, 2));
    assert_eq!(trim_bounds("ab", 1, 1), (1, 1));
}

#[test]
fn white_space_is_what_unicode_says() {
    for code in 0u32..0x3100 {
        if let Some(c) = char::from_u32(code) {
            assert_eq!(char_is_space(c), c.is_whitespace(), "{:x}", code);
        }
    }
}

#[test]
fn read_decimal_agrees_with_the_standard_parser() {
    for text in ["0", "12", "-12", "+12", "", "-", "+", "1x", "x1", "0012", "9223372036854775807",
        "9223372036854775808", "-9223372036854775808", "-9223372036854775809",
        "18446744073709551616", "92233720368547758070", " 1", "1 "]
    {
        let expected: Option<i64> = text.parse().ok();
        assert_eq!(read_decimal(text, 0, text.chars().count()), expected, "{:?}", text);
    }
    assert_eq!(read_decimal("ab123cd", 2, 5), Some(123));
}
