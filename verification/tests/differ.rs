use treediff::diff::{diff, expand, render, EditOp};
use treediff::parse::parse_or_empty;
use treediff::record::Line;
use treediff::script::Run;

fn line(path: &str, size: i64, indent: usize) -> Line {
    Line { path: path.to_string(), size, indent }
}

fn listing(paths: &[&str]) -> Vec<Line> {
    paths.iter().map(|p| line(p, 10, 0)).collect()
}

fn output(old: &Vec<Line>, new: &Vec<Line>) -> Vec<String> {
    render(&diff(old, new))
}

fn shape(edits: &Vec<EditOp>) -> Vec<(char, String, i64)> {
    edits
        .iter()
        .map(|e| match e {
            EditOp::Delete(l) => ('-', l.path.clone(), l.size),
            EditOp::Insert(l) => ('+', l.path.clone(), l.size),
            EditOp::Equal(l) => ('=', l.path.clone(), l.size),
        })
        .collect()
}

#[test]
fn identical_listings_give_only_equal_entries() {
    let a = listing(&["a", "b", "c", "b", "a"]);
    let edits = diff(&a, &a);
    assert_eq!(edits.len(), 5);
    assert!(edits.iter().all(|e| matches!(e, EditOp::Equal(_))));
    assert!(render(&edits).is_empty());
    assert!(diff(&Vec::new(), &Vec::new()).is_empty());
}

#[test]
fn appended_record_is_the_one_insert() {
    let a = listing(&["a", "b", "c"]);
    let mut b = listing(&["a", "b", "c"]);
    b.push(line("d", 77, 1));
    let edits = diff(&a, &b);
    assert_eq!(
        shape(&edits),
        vec![
            ('=', "a".to_string(), 10),
            ('=', "b".to_string(), 10),
            ('=', "c".to_string(), 10),
            ('+', "d".to_string(), 77),
        ]
    );
    assert_eq!(render(&edits), vec!["+\t[            77] d".to_string()]);
}

#[test]
fn appended_repeat_gives_one_insert() {
    let a = listing(&["x", "x"]);
    let b = listing(&["x", "x", "x"]);
    let edits = diff(&a, &b);
    let inserts = edits.iter().filter(|e| matches!(e, EditOp::Insert(_))).count();
    let deletes = edits.iter().filter(|e| matches!(e, EditOp::Delete(_))).count();
    assert_eq!((inserts, deletes, edits.len()), (1, 0, 3));
}

#[test]
fn removed_record_is_the_one_delete() {
    let a = listing(&["a", "b", "c"]);
    let b = listing(&["a", "c"]);
    assert_eq!(output(&a, &b), vec!["-[            10] b".to_string()]);
}

#[test]
fn changed_record_is_deleted_then_inserted() {
    let a = listing(&["a", "b", "c"]);
    let b = listing(&["a", "z", "c"]);
    assert_eq!(
        output(&a, &b),
        vec!["-[            10] b".to_string(), "+[            10] z".to_string()]
    );
}

#[test]
fn everything_differs() {
    let a = listing(&["a", "b"]);
    let b = listing(&["c"]);
    let edits = diff(&a, &b);
    assert_eq!(
        shape(&edits),
        vec![('-', "a".to_string(), 10), ('-', "b".to_string(), 10), ('+', "c".to_string(), 10)]
    );
    assert_eq!(output(&a, &Vec::new()).len(), 2);
    assert_eq!(output(&Vec::new(), &b), vec!["+[            10] c".to_string()]);
}

#[test]
fn one_quantum_apart_is_unchanged() {
    let a = vec![parse_or_empty("[           100] foo/bar").unwrap()];
    let b = vec![parse_or_empty("[          3684] foo/bar").unwrap()];
    let edits = diff(&a, &b);
    assert_eq!(shape(&edits), vec![('=', "foo/bar".to_string(), 100)]);
    assert!(render(&edits).is_empty());
}

#[test]
fn fifty_bytes_apart_is_a_delete_and_an_insert() {
    let a = vec![parse_or_empty("[           100] foo/bar").unwrap()];
    let b = vec![parse_or_empty("[           150] foo/bar").unwrap()];
    assert_eq!(
        output(&a, &b),
        vec!["-[           100] foo/bar".to_string(), "+[           150] foo/bar".to_string()]
    );
}

#[test]
fn skipped_lines_collide_with_each_other_only() {
    let a = vec![
        parse_or_empty("junk").unwrap(),
        parse_or_empty("[1] a").unwrap(),
    ];
    let b = vec![
        parse_or_empty("other junk").unwrap(),
        parse_or_empty("[2] a").unwrap(),
    ];
    assert_eq!(
        output(&a, &b),
        vec!["-[             1] a".to_string(), "+[             2] a".to_string()]
    );
}

#[test]
fn expand_follows_the_runs() {
    let a = listing(&["a", "b", "c"]);
    let b = vec![line("a", 10 + 3584, 0), line("y", 1, 0), line("z", 2, 0)];
    let runs = vec![
        Run::Equal { old_index: 0, new_index: 0, len: 1 },
        Run::Replace { old_index: 1, old_len: 2, new_index: 1, new_len: 1 },
        Run::Insert { old_index: 3, new_index: 2, new_len: 1 },
    ];
    let edits = expand(&a, &b, &runs);
    assert_eq!(
        shape(&edits),
        vec![
            ('=', "a".to_string(), 10),
            ('-', "b".to_string(), 10),
            ('-', "c".to_string(), 10),
            ('+', "y".to_string(), 1),
            ('+', "z".to_string(), 2),
        ]
    );
    let runs = vec![Run::Delete { old_index: 1, old_len: 1, new_index: 0 }];
    assert_eq!(shape(&expand(&a, &b, &runs)), vec![('-', "b".to_string(), 10)]);
    assert!(expand(&a, &b, &Vec::new()).is_empty());
}

#[test]
fn render_skips_equal_entries() {
    let edits = vec![
        EditOp::Equal(line("a", 1, 0)),
        EditOp::Delete(line("b", 2, 1)),
        EditOp::Equal(line("c", 3, 0)),
        EditOp::Insert(line("d", 4, 2)),
    ];
    assert_eq!(
        render(&edits),
        vec!["-\t[             2] b".to_string(), "+\t\t[             4] d".to_string()]
    );
    assert!(render(&Vec::new()).is_empty());
}
