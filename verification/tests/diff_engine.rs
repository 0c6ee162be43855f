use snaptest::Diff;
use snaptest::Line;

#[test]
fn identical_strings_are_same() {
    assert_eq!(Diff::new("abc", "abc"), Diff::Same);
    assert_eq!(Diff::new("", ""), Diff::Same);
    assert_eq!(Diff::new("A\nB\nC", "A\nB\nC"), Diff::Same);
}

#[test]
fn equal_line_counts_pair_every_position() {
    let d = Diff::new("A\nB\nC", "A\nX\nC");
    let expected = vec![
        Line::Equal("A".to_string()),
        Line::Changed("B".to_string(), "X".to_string()),
        Line::Equal("C".to_string()),
    ];
    assert_eq!(d, Diff::Lines(expected));
}

#[test]
fn line_pairing_is_positional() {
    // A shifted body pairs by index, not by content.
    let d = Diff::new("A\nB", "B\nA");
    let expected = vec![
        Line::Changed("A".to_string(), "B".to_string()),
        Line::Changed("B".to_string(), "A".to_string()),
    ];
    assert_eq!(d, Diff::Lines(expected));
}

#[test]
fn differing_line_counts_truncate_to_the_shorter() {
    // Three golden lines against one received line: exactly one pair is
    // compared; the trailing golden lines are not reported at all.
    let d = Diff::new("A\nB\nC", "A");
    match d {
        Diff::Lines(v) => {
            assert_eq!(v.len(), 1);
            assert_eq!(v[0], Line::Equal("A".to_string()));
        },
        Diff::Same => panic!("differing strings must not compare as Same"),
    }
}

#[test]
fn empty_against_nonempty_yields_no_pairs() {
    let d = Diff::new("", "x");
    assert_eq!(d, Diff::Lines(Vec::new()));
}

#[test]
fn trailing_newline_and_carriage_return_split_like_str_lines() {
    // "a\r\n" holds the single line "a"; "b" holds the single line "b".
    let d = Diff::new("a\r\n", "b");
    let expected = vec![Line::Changed("a".to_string(), "b".to_string())];
    assert_eq!(d, Diff::Lines(expected));
    // A carriage return not followed by a newline stays in the line.
    let d2 = Diff::new("a\rx", "a\rx\n");
    assert_eq!(d2, Diff::Lines(vec![Line::Equal("a\rx".to_string())]));
}

#[test]
fn line_new_pairs_one_position() {
    assert_eq!(Line::new("same", "same"), Line::Equal("same".to_string()));
    assert_eq!(
        Line::new("left", "right"),
        Line::Changed("left".to_string(), "right".to_string())
    );
}
