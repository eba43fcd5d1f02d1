use treediff::display::{digit_text, size_text};
use treediff::parse::parse_line;
use treediff::record::{residue, Line, QUANTUM};

fn line(path: &str, size: i64, indent: usize) -> Line {
    Line { path: path.to_string(), size, indent }
}

#[test]
fn equality_is_reflexive_and_symmetric() {
    let samples = [
        line("a", 0, 0),
        line("a", 3584, 0),
        line("a", 1, 0),
        line("a", -3584, 0),
        line("b", 0, 0),
        line("a", 0, 1),
        line("a", i64::MAX, 0),
        line("a", i64::MIN, 0),
    ];
    for x in &samples {
        assert!(x.matches(x));
        assert!(x == x);
        for y in &samples {
            assert_eq!(x.matches(y), y.matches(x));
            assert_eq!(x == y, x.matches(y));
        }
    }
}

#[test]
fn sizes_a_quantum_apart_are_equal() {
    assert_eq!(QUANTUM, 3584);
    assert!(line("p", 100, 2).matches(&line("p", 3684, 2)));
    assert!(line("p", 100, 2).matches(&line("p", 100 + 5 * 3584, 2)));
    assert!(line("p", 100, 2).matches(&line("p", 100 - 3584, 2)));
    assert!(line("p", -1, 0).matches(&line("p", 3583, 0)));
    assert!(!line("p", 100, 2).matches(&line("p", 101, 2)));
    assert!(!line("p", 100, 2).matches(&line("p", 150, 2)));
    assert!(!line("p", 0, 0).matches(&line("p", 3583, 0)));
}

#[test]
fn path_and_indent_must_agree() {
    assert!(!line("p", 100, 2).matches(&line("q", 100, 2)));
    assert!(!line("p", 100, 2).matches(&line("p", 100, 3)));
}

#[test]
fn equality_does_not_overflow_at_the_ends() {
    assert!(!line("p", i64::MAX, 0).matches(&line("p", i64::MIN, 0)));
    assert!(line("p", i64::MAX, 0).matches(&line("p", i64::MAX - 3584, 0)));
    assert!(line("p", i64::MIN, 0).matches(&line("p", i64::MIN + 3584, 0)));
}

#[test]
fn identical_compares_every_field() {
    assert!(line("p", 100, 2).identical(&line("p", 100, 2)));
    assert!(!line("p", 100, 2).identical(&line("p", 3684, 2)));
}

#[test]
fn residue_is_the_euclidean_remainder() {
    assert_eq!(residue(0), 0);
    assert_eq!(residue(3584), 0);
    assert_eq!(residue(3585), 1);
    assert_eq!(residue(-1), 3583);
    assert_eq!(residue(-3584), 0);
    assert_eq!(residue(-3585), 3583);
    assert_eq!(residue(i64::MIN), i64::MIN.rem_euclid(3584));
    assert_eq!(residue(i64::MAX), i64::MAX.rem_euclid(3584));
}

#[test]
fn empty_and_duplicate() {
    let e = Line::empty();
    assert_eq!((e.path.as_str(), e.size, e.indent), ("", 0, 0));
    let d = line("x/y", -7, 3).duplicate();
    assert_eq!((d.path.as_str(), d.size, d.indent), ("x/y", -7, 3));
}

#[test]
fn display_form_is_exact() {
    assert_eq!(line("some/path", 123456, 2).display(), "\t\t[        123456] some/path");
    assert_eq!(line("foo/bar", 100, 0).display(), "[           100] foo/bar");
    assert_eq!(line("", 0, 0).display(), "[             0] ");
    assert_eq!(line("n", -42, 1).display(), "\t[           -42] n");
    assert_eq!(line("w", 12345678901234, 0).display(), "[12345678901234] w");
    assert_eq!(line("w", 123456789012345, 0).display(), "[123456789012345] w");
    assert_eq!(line("m", i64::MIN, 0).display(), "[-9223372036854775808] m");
    assert_eq!(line("m", i64::MAX, 0).display(), "[9223372036854775807] m");
}

#[test]
fn display_form_agrees_with_the_standard_formatter() {
    for size in [0i64, 9, 10, 99, 100, -1, -10, 3584, 99999999999999, -9999999999999] {
        let expected = format!("{}[{:>14}] {}", "\t".repeat(3), size, "p q");
        assert_eq!(line("p q", size, 3).display(), expected);
        assert_eq!(size_text(size), format!("{}", size));
    }
    assert_eq!(digit_text(0), "0");
    assert_eq!(digit_text(7), "7");
}

#[test]
fn display_then_parse_gives_the_record_back() {
    for (path, size) in [("foo/bar", 100i64), ("a b/c", 0), ("x", i64::MAX), ("", 7), ("neg", -12)] {
        let shown = line(path, size, 0).display();
        let back = parse_line(&shown).unwrap().unwrap();
        assert_eq!((back.path.as_str(), back.size, back.indent), (path, size, 0));
    }
}

#[test]
fn display_with_depth_does_not_parse_back_to_the_same_depth() {
    let shown = line("p", 1, 4).display();
    let back = parse_line(&shown).unwrap().unwrap();
    assert_eq!(back.indent, 1);
    assert!(parse_line(&line("p", 1, 3).display()).is_err());
}

#[test]
fn default_is_the_empty_record() {
    let d = Line::default();
    assert_eq!((d.path.as_str(), d.size, d.indent), ("", 0, 0));
    let c = line("x", 5, 1).clone();
    assert_eq!((c.path.as_str(), c.size, c.indent), ("x", 5, 1));
}

#[test]
fn order_goes_by_path_then_size_then_indent() {
    assert!(line("a", 9, 9) < line("b", 0, 0));
    assert!(line("a", 1, 9) < line("a", 2, 0));
    assert!(line("a", 1, 0) < line("a", 1, 1));
    assert!(line("a", 0, 0) < line("a", 3584, 0));
    assert_eq!(line("a", 1, 1).cmp(&line("a", 1, 1)), std::cmp::Ordering::Equal);
}
