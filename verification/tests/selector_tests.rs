use csv::ByteRecord;
use record_transform::error::ColumnRef;
use record_transform::error::TransformError;
use record_transform::selector::bytes_equal;
use record_transform::selector::copy_column;
use record_transform::selector::expand_span;
use record_transform::selector::expand_term;
use record_transform::selector::find_name;
use record_transform::selector::resolve;
use record_transform::selector::resolve_column;
use record_transform::selector::SelectorExpression;
use record_transform::selector::SelectorTerm;

fn name(text: &str) -> ColumnRef {
    ColumnRef::Name(text.as_bytes().to_vec())
}

fn expression(terms: Vec<SelectorTerm>) -> SelectorExpression {
    SelectorExpression { terms, exclude: false }
}

fn excluding(terms: Vec<SelectorTerm>) -> SelectorExpression {
    SelectorExpression { terms, exclude: true }
}

fn header() -> ByteRecord {
    ByteRecord::from(vec!["a", "b", "c", "b", "e"])
}

fn resolved(expression: &SelectorExpression, header: &ByteRecord, present: bool) -> Vec<usize> {
    resolve(expression, header, present).unwrap().indices().clone()
}

fn unknown(expression: &SelectorExpression, header: &ByteRecord, present: bool) -> ColumnRef {
    match resolve(expression, header, present) {
        Err(TransformError::UnknownColumn { requested }) => requested,
        _ => panic!("expected an unknown column"),
    }
}

#[test]
fn resolve_positions_count_from_one() {
    let e = expression(vec![
        SelectorTerm::Column(ColumnRef::Position(1)),
        SelectorTerm::Column(ColumnRef::Position(5)),
    ]);
    assert_eq!(resolved(&e, &header(), true), vec![0, 4]);
}

#[test]
fn resolve_keeps_order_and_repeats() {
    let e = expression(vec![
        SelectorTerm::Column(ColumnRef::Position(3)),
        SelectorTerm::Column(name("a")),
        SelectorTerm::Column(ColumnRef::Position(3)),
    ]);
    assert_eq!(resolved(&e, &header(), true), vec![2, 0, 2]);
}

#[test]
fn resolve_name_takes_the_first_of_equal_names() {
    let e = expression(vec![SelectorTerm::Column(name("b"))]);
    assert_eq!(resolved(&e, &header(), true), vec![1]);
}

#[test]
fn resolve_names_are_case_sensitive() {
    let e = expression(vec![SelectorTerm::Column(name("A"))]);
    assert_eq!(unknown(&e, &header(), true), name("A"));
}

#[test]
fn resolve_range_ascending() {
    let e = expression(vec![SelectorTerm::Range(
        Some(ColumnRef::Position(2)),
        Some(ColumnRef::Position(4)),
    )]);
    assert_eq!(resolved(&e, &header(), true), vec![1, 2, 3]);
}

#[test]
fn resolve_range_descending_as_written() {
    let e = expression(vec![SelectorTerm::Range(
        Some(ColumnRef::Position(4)),
        Some(ColumnRef::Position(2)),
    )]);
    assert_eq!(resolved(&e, &header(), true), vec![3, 2, 1]);
}

#[test]
fn resolve_range_of_one_column() {
    let e = expression(vec![SelectorTerm::Range(Some(name("c")), Some(ColumnRef::Position(3)))]);
    assert_eq!(resolved(&e, &header(), true), vec![2]);
}

#[test]
fn resolve_range_by_names() {
    let e = expression(vec![SelectorTerm::Range(Some(name("b")), Some(name("e")))]);
    assert_eq!(resolved(&e, &header(), true), vec![1, 2, 3, 4]);
}

#[test]
fn resolve_range_with_open_bounds() {
    let from_start = expression(vec![SelectorTerm::Range(None, Some(ColumnRef::Position(2)))]);
    assert_eq!(resolved(&from_start, &header(), true), vec![0, 1]);
    let to_end = expression(vec![SelectorTerm::Range(Some(ColumnRef::Position(4)), None)]);
    assert_eq!(resolved(&to_end, &header(), true), vec![3, 4]);
    let all = expression(vec![SelectorTerm::Range(None, None)]);
    assert_eq!(resolved(&all, &header(), true), vec![0, 1, 2, 3, 4]);
}

#[test]
fn resolve_open_range_over_no_columns() {
    let all = expression(vec![SelectorTerm::Range(None, None)]);
    let selection = resolve(&all, &ByteRecord::new(), true).unwrap();
    assert!(selection.is_empty());
    assert_eq!(selection.record_width(), 0);
    let to_end = expression(vec![SelectorTerm::Range(Some(ColumnRef::Position(1)), None)]);
    assert_eq!(unknown(&to_end, &ByteRecord::new(), true), ColumnRef::Position(1));
}

#[test]
fn resolve_empty_expression_selects_nothing() {
    let selection = resolve(&expression(Vec::new()), &header(), true).unwrap();
    assert!(selection.is_empty());
    assert_eq!(selection.record_width(), 5);
}

#[test]
fn resolve_exclusion_gives_the_other_columns_ascending() {
    let e = excluding(vec![
        SelectorTerm::Column(ColumnRef::Position(4)),
        SelectorTerm::Column(ColumnRef::Position(1)),
        SelectorTerm::Column(ColumnRef::Position(4)),
    ]);
    assert_eq!(resolved(&e, &header(), true), vec![1, 2, 4]);
}

#[test]
fn resolve_exclusion_of_nothing_gives_all_columns() {
    assert_eq!(resolved(&excluding(Vec::new()), &header(), true), vec![0, 1, 2, 3, 4]);
}

#[test]
fn resolve_exclusion_of_everything_gives_nothing() {
    let e = excluding(vec![SelectorTerm::Range(None, None)]);
    assert!(resolved(&e, &header(), true).is_empty());
}

#[test]
fn resolve_position_outside_the_header_is_unknown() {
    let two = ByteRecord::from(vec!["A", "B"]);
    let e = expression(vec![SelectorTerm::Column(ColumnRef::Position(3))]);
    assert_eq!(unknown(&e, &two, true), ColumnRef::Position(3));
}

#[test]
fn resolve_position_zero_is_unknown() {
    let e = expression(vec![SelectorTerm::Column(ColumnRef::Position(0))]);
    assert_eq!(unknown(&e, &header(), true), ColumnRef::Position(0));
}

#[test]
fn resolve_name_that_is_not_in_the_header_is_unknown() {
    let e = expression(vec![SelectorTerm::Column(name("z"))]);
    assert_eq!(unknown(&e, &header(), true), name("z"));
}

#[test]
fn resolve_without_header_is_positional_only() {
    let first = header();
    let by_position = expression(vec![SelectorTerm::Column(ColumnRef::Position(2))]);
    assert_eq!(resolved(&by_position, &first, false), vec![1]);
    let by_name = expression(vec![SelectorTerm::Column(name("a"))]);
    assert_eq!(unknown(&by_name, &first, false), name("a"));
}

#[test]
fn resolve_reports_the_first_unknown_reference() {
    let e = expression(vec![
        SelectorTerm::Column(ColumnRef::Position(1)),
        SelectorTerm::Range(Some(name("y")), Some(ColumnRef::Position(9))),
        SelectorTerm::Column(name("z")),
    ]);
    assert_eq!(unknown(&e, &header(), true), name("y"));
    let e = expression(vec![
        SelectorTerm::Range(Some(ColumnRef::Position(1)), Some(ColumnRef::Position(9))),
        SelectorTerm::Column(name("z")),
    ]);
    assert_eq!(unknown(&e, &header(), true), ColumnRef::Position(9));
}

#[test]
fn resolve_exclusion_fails_like_selection() {
    let e = excluding(vec![SelectorTerm::Column(ColumnRef::Position(6))]);
    assert_eq!(unknown(&e, &header(), true), ColumnRef::Position(6));
}

#[test]
fn resolve_is_bound_to_the_width_of_the_header() {
    let e = expression(vec![SelectorTerm::Column(ColumnRef::Position(1))]);
    let selection = resolve(&e, &header(), true).unwrap();
    assert_eq!(selection.record_width(), 5);
    assert!(selection.contains(0));
    assert!(!selection.contains(1));
}

#[test]
fn resolve_gives_the_same_for_the_same_header() {
    let e = expression(vec![
        SelectorTerm::Range(Some(name("b")), None),
        SelectorTerm::Column(ColumnRef::Position(1)),
    ]);
    assert_eq!(resolved(&e, &header(), true), resolved(&e, &header(), true));
    assert_eq!(resolved(&e, &header(), true), vec![1, 2, 3, 4, 0]);
}

#[test]
fn expand_span_in_both_directions() {
    assert_eq!(expand_span(2, 5), vec![2, 3, 4, 5]);
    assert_eq!(expand_span(5, 2), vec![5, 4, 3, 2]);
    assert_eq!(expand_span(3, 3), vec![3]);
    assert_eq!(expand_span(0, 0), vec![0]);
    assert_eq!(expand_span(usize::MAX, usize::MAX - 1), vec![usize::MAX, usize::MAX - 1]);
}

#[test]
fn expand_term_gives_indices_or_the_unknown_reference() {
    let h = header();
    assert_eq!(expand_term(&h, true, &SelectorTerm::Column(name("c"))), Ok(vec![2]));
    assert_eq!(
        expand_term(&h, true, &SelectorTerm::Range(Some(name("e")), Some(name("c")))),
        Ok(vec![4, 3, 2])
    );
    assert_eq!(expand_term(&h, true, &SelectorTerm::Column(name("x"))), Err(name("x")));
    assert_eq!(
        expand_term(&h, true, &SelectorTerm::Range(None, Some(ColumnRef::Position(6)))),
        Err(ColumnRef::Position(6))
    );
}

#[test]
fn bytes_equal_compares_byte_for_byte() {
    assert!(bytes_equal(b"", b""));
    assert!(bytes_equal(b"abc", b"abc"));
    assert!(!bytes_equal(b"abc", b"abd"));
    assert!(!bytes_equal(b"abc", b"ab"));
    assert!(!bytes_equal(b"ab", b"abc"));
    assert!(!bytes_equal(b"a", b"A"));
}

#[test]
fn find_name_finds_the_first_occurrence() {
    let h = header();
    assert_eq!(find_name(&h, b"a"), Some(0));
    assert_eq!(find_name(&h, b"b"), Some(1));
    assert_eq!(find_name(&h, b"e"), Some(4));
    assert_eq!(find_name(&h, b"f"), None);
    assert_eq!(find_name(&ByteRecord::new(), b"a"), None);
}

#[test]
fn resolve_column_by_position_and_name() {
    let h = header();
    assert_eq!(resolve_column(&h, true, &ColumnRef::Position(5)), Some(4));
    assert_eq!(resolve_column(&h, true, &ColumnRef::Position(6)), None);
    assert_eq!(resolve_column(&h, true, &ColumnRef::Position(0)), None);
    assert_eq!(resolve_column(&h, true, &name("c")), Some(2));
    assert_eq!(resolve_column(&h, false, &name("c")), None);
    assert_eq!(resolve_column(&h, false, &ColumnRef::Position(3)), Some(2));
}

#[test]
fn copy_column_gives_an_equal_reference() {
    assert_eq!(copy_column(&name("abc")), name("abc"));
    assert_eq!(copy_column(&ColumnRef::Position(7)), ColumnRef::Position(7));
}
