use csv::ByteRecord;
use record_transform::error::ColumnRef;
use record_transform::error::TransformError;
use record_transform::fill::FillPlan;
use record_transform::fill::any_match;
use record_transform::fill::fill_record;
use record_transform::fill::replace_fields;
use record_transform::fill;
use record_transform::pattern::Pattern;
use record_transform::record::copy_record;
use record_transform::selection::ResolvedSelection;
use record_transform::selector::SelectorExpression;
use record_transform::selector::SelectorTerm;

fn column(text: &str) -> SelectorExpression {
    SelectorExpression {
        terms: vec![SelectorTerm::Column(ColumnRef::Name(text.as_bytes().to_vec()))],
        exclude: false,
    }
}

fn position(p: usize) -> SelectorExpression {
    SelectorExpression { terms: vec![SelectorTerm::Column(ColumnRef::Position(p))], exclude: false }
}

fn selection(indices: Vec<usize>, width: usize) -> ResolvedSelection {
    ResolvedSelection::from_indices(indices, width).unwrap()
}

fn empty_field() -> Pattern {
    Pattern::new("^$", false).unwrap()
}

#[test]
fn fill_scenario_empty_field_takes_the_other_column() {
    let records = vec![ByteRecord::from(vec!["A", "B"]), ByteRecord::from(vec!["", "x"])];
    let outcome = fill::run(&column("A"), "^$", &column("B"), false, false, true, records).unwrap();
    assert_eq!(
        outcome.written,
        vec![ByteRecord::from(vec!["A", "B"]), ByteRecord::from(vec!["x", "x"])]
    );
    assert_eq!(outcome.failure, None);
    assert!(outcome.flushed);
}

#[test]
fn fill_scenario_inverted_leaves_the_row() {
    let records = vec![ByteRecord::from(vec!["A", "B"]), ByteRecord::from(vec!["", "x"])];
    let outcome = fill::run(&column("A"), "^$", &column("B"), false, true, true, records).unwrap();
    assert_eq!(
        outcome.written,
        vec![ByteRecord::from(vec!["A", "B"]), ByteRecord::from(vec!["", "x"])]
    );
}

#[test]
fn fill_inverted_replaces_rows_that_do_not_match() {
    let record = ByteRecord::from(vec!["full", "x"]);
    let out = fill_record(&record, &empty_field(), &selection(vec![0], 2), &selection(vec![1], 2), true);
    assert_eq!(out, Ok(ByteRecord::from(vec!["x", "x"])));
}

#[test]
fn fill_replaces_every_target_if_any_matches() {
    let record = ByteRecord::from(vec!["", "y", "z", "w"]);
    let out = fill_record(
        &record,
        &empty_field(),
        &selection(vec![0, 1], 4),
        &selection(vec![2], 4),
        false,
    );
    assert_eq!(out, Ok(ByteRecord::from(vec!["z", "z", "z", "w"])));
}

#[test]
fn fill_leaves_a_record_without_match() {
    let record = ByteRecord::from(vec!["a", "y", "z"]);
    let out = fill_record(
        &record,
        &empty_field(),
        &selection(vec![0, 1], 3),
        &selection(vec![2], 3),
        false,
    );
    assert_eq!(out, Ok(ByteRecord::from(vec!["a", "y", "z"])));
}

#[test]
fn fill_ignores_a_match_outside_the_targets() {
    let record = ByteRecord::from(vec!["a", "", "z"]);
    let out =
        fill_record(&record, &empty_field(), &selection(vec![0], 3), &selection(vec![2], 3), false);
    assert_eq!(out, Ok(ByteRecord::from(vec!["a", "", "z"])));
}

#[test]
fn fill_uses_the_first_source_column_only() {
    let record = ByteRecord::from(vec!["", "p", "q"]);
    let out = fill_record(
        &record,
        &empty_field(),
        &selection(vec![0], 3),
        &selection(vec![2, 1], 3),
        false,
    );
    assert_eq!(out, Ok(ByteRecord::from(vec!["q", "p", "q"])));
}

#[test]
fn fill_with_an_empty_source_puts_the_empty_field() {
    let pattern = Pattern::new("^a", false).unwrap();
    let record = ByteRecord::from(vec!["abc", "b"]);
    let out = fill_record(&record, &pattern, &selection(vec![0], 2), &selection(vec![], 2), false);
    assert_eq!(out, Ok(ByteRecord::from(vec!["", "b"])));
}

#[test]
fn fill_with_no_targets_changes_nothing() {
    let record = ByteRecord::from(vec!["", "b"]);
    let plain =
        fill_record(&record, &empty_field(), &selection(vec![], 2), &selection(vec![1], 2), false);
    assert_eq!(plain, Ok(ByteRecord::from(vec!["", "b"])));
    let inverted =
        fill_record(&record, &empty_field(), &selection(vec![], 2), &selection(vec![1], 2), true);
    assert_eq!(inverted, Ok(ByteRecord::from(vec!["", "b"])));
}

#[test]
fn fill_where_the_source_is_a_target() {
    let record = ByteRecord::from(vec!["", "b", "c"]);
    let out = fill_record(
        &record,
        &empty_field(),
        &selection(vec![0, 1], 3),
        &selection(vec![1], 3),
        false,
    );
    assert_eq!(out, Ok(ByteRecord::from(vec!["b", "b", "c"])));
}

#[test]
fn fill_twice_is_fill_once() {
    let cases = vec![
        (vec!["", "x"], vec![0], vec![1], false),
        (vec!["", ""], vec![0], vec![1], false),
        (vec!["", ""], vec![0, 1], vec![0], false),
        (vec!["a", "x"], vec![0], vec![1], true),
        (vec!["a", ""], vec![0], vec![1], true),
        (vec!["", "x"], vec![0], vec![], false),
    ];
    for (fields, targets, source, invert) in cases {
        let targets = selection(targets, 2);
        let source = selection(source, 2);
        let record = ByteRecord::from(fields);
        let once = fill_record(&record, &empty_field(), &targets, &source, invert).unwrap();
        let twice = fill_record(&once, &empty_field(), &targets, &source, invert).unwrap();
        assert_eq!(twice, once);
    }
}

#[test]
fn fill_refuses_a_record_narrower_than_the_targets() {
    let record = ByteRecord::from(vec!["", "x"]);
    let out =
        fill_record(&record, &empty_field(), &selection(vec![0], 3), &selection(vec![1], 4), false);
    assert_eq!(out, Err(TransformError::RecordWidthMismatch { expected: 3, found: 2 }));
}

#[test]
fn fill_refuses_a_record_narrower_than_the_source() {
    let record = ByteRecord::from(vec!["a", "x"]);
    let out =
        fill_record(&record, &empty_field(), &selection(vec![0], 2), &selection(vec![1], 4), false);
    assert_eq!(out, Err(TransformError::RecordWidthMismatch { expected: 4, found: 2 }));
}

#[test]
fn fill_passes_the_rest_of_a_wider_record() {
    let record = ByteRecord::from(vec!["", "x", "", "y"]);
    let out =
        fill_record(&record, &empty_field(), &selection(vec![0], 2), &selection(vec![1], 2), false);
    assert_eq!(out, Ok(ByteRecord::from(vec!["x", "x", "", "y"])));
}

#[test]
fn any_match_tests_the_targets_only() {
    let record = ByteRecord::from(vec!["a", "", "c"]);
    assert_eq!(any_match(&empty_field(), &selection(vec![0, 2], 3), &record), Ok(false));
    assert_eq!(any_match(&empty_field(), &selection(vec![0, 1], 3), &record), Ok(true));
    assert_eq!(any_match(&empty_field(), &selection(vec![], 3), &record), Ok(false));
    assert_eq!(
        any_match(&empty_field(), &selection(vec![0], 4), &record),
        Err(TransformError::RecordWidthMismatch { expected: 4, found: 3 })
    );
}

#[test]
fn replace_fields_puts_the_value_at_the_targets() {
    let record = ByteRecord::from(vec!["a", "b", "c"]);
    let out = replace_fields(&record, &selection(vec![2, 0], 3), b"v");
    assert_eq!(out, ByteRecord::from(vec!["v", "b", "v"]));
    let out = replace_fields(&record, &selection(vec![], 3), b"v");
    assert_eq!(out, record);
}

#[test]
fn copy_record_copies_field_by_field() {
    let record = ByteRecord::from(vec!["a", "", " c "]);
    assert_eq!(copy_record(&record), record);
    assert_eq!(copy_record(&ByteRecord::new()).len(), 0);
}

#[test]
fn bind_resolves_both_expressions() {
    let header = ByteRecord::from(vec!["A", "B", "C"]);
    let plan = FillPlan::bind(empty_field(), &column("C"), &column("A"), &header, true, true).unwrap();
    assert_eq!(plan.targets.indices(), &vec![2]);
    assert_eq!(plan.source.indices(), &vec![0]);
    assert_eq!(plan.targets.record_width(), 3);
    assert_eq!(plan.source.record_width(), 3);
    assert!(plan.invert);
    let out = plan.apply(&ByteRecord::from(vec!["a", "b", "c"]));
    assert_eq!(out, Ok(ByteRecord::from(vec!["a", "b", "a"])));
}

#[test]
fn bind_reports_the_target_expression_first() {
    let header = ByteRecord::from(vec!["A", "B"]);
    let outcome = FillPlan::bind(empty_field(), &column("X"), &column("Y"), &header, true, false);
    match outcome {
        Err(TransformError::UnknownColumn { requested }) => {
            assert_eq!(requested, ColumnRef::Name(b"X".to_vec()))
        }
        _ => panic!("expected an unknown column"),
    }
    let outcome = FillPlan::bind(empty_field(), &column("A"), &column("Y"), &header, true, false);
    match outcome {
        Err(TransformError::UnknownColumn { requested }) => {
            assert_eq!(requested, ColumnRef::Name(b"Y".to_vec()))
        }
        _ => panic!("expected an unknown column"),
    }
}

#[test]
fn run_with_a_column_outside_the_header_writes_nothing() {
    let records = vec![ByteRecord::from(vec!["A", "B"]), ByteRecord::from(vec!["", "x"])];
    let outcome = fill::run(&position(3), "^$", &column("B"), false, false, true, records);
    match outcome {
        Err(TransformError::UnknownColumn { requested }) => {
            assert_eq!(requested, ColumnRef::Position(3))
        }
        _ => panic!("expected an unknown column"),
    }
}

#[test]
fn run_with_an_invalid_pattern_is_a_compile_error() {
    let records = vec![ByteRecord::from(vec!["A", "B"])];
    let outcome = fill::run(&position(9), "(", &column("B"), false, false, true, records);
    assert!(matches!(outcome, Err(TransformError::PatternCompile { .. })));
}

#[test]
fn run_ignoring_case() {
    let records = vec![ByteRecord::from(vec!["NA", "1"]), ByteRecord::from(vec!["na", "2"])];
    let exact =
        fill::run(&position(1), "^na$", &position(2), false, false, false, records.clone()).unwrap();
    assert_eq!(
        exact.written,
        vec![ByteRecord::from(vec!["NA", "1"]), ByteRecord::from(vec!["2", "2"])]
    );
    let loose = fill::run(&position(1), "^na$", &position(2), true, false, false, records).unwrap();
    assert_eq!(
        loose.written,
        vec![ByteRecord::from(vec!["1", "1"]), ByteRecord::from(vec!["2", "2"])]
    );
}

#[test]
fn run_without_headers_fills_the_first_record_too() {
    let records = vec![ByteRecord::from(vec!["", "x"]), ByteRecord::from(vec!["a", "y"])];
    let outcome =
        fill::run_with(empty_field(), &position(1), &position(2), false, false, records).unwrap();
    assert_eq!(
        outcome.written,
        vec![ByteRecord::from(vec!["x", "x"]), ByteRecord::from(vec!["a", "y"])]
    );
}

#[test]
fn run_without_headers_knows_no_names() {
    let records = vec![ByteRecord::from(vec!["A", "B"])];
    let outcome = fill::run_with(empty_field(), &column("A"), &position(2), false, false, records);
    assert!(matches!(outcome, Err(TransformError::UnknownColumn { .. })));
}

#[test]
fn run_passes_the_header_as_it_is() {
    let records = vec![ByteRecord::from(vec!["", " B "]), ByteRecord::from(vec!["", "x"])];
    let outcome =
        fill::run_with(empty_field(), &position(1), &position(2), false, true, records).unwrap();
    assert_eq!(
        outcome.written,
        vec![ByteRecord::from(vec!["", " B "]), ByteRecord::from(vec!["x", "x"])]
    );
}

#[test]
fn run_keeps_the_order_of_records() {
    let mut records = vec![ByteRecord::from(vec!["n", "v"])];
    let mut expected = vec![ByteRecord::from(vec!["n", "v"])];
    for i in 0..40 {
        if i % 3 == 0 {
            records.push(ByteRecord::from(vec![String::new(), format!("{}", i)]));
        } else {
            records.push(ByteRecord::from(vec![format!("k{}", i), format!("{}", i)]));
        }
        if i % 3 == 0 {
            expected.push(ByteRecord::from(vec![format!("{}", i), format!("{}", i)]));
        } else {
            expected.push(ByteRecord::from(vec![format!("k{}", i), format!("{}", i)]));
        }
    }
    let outcome = fill::run(&column("n"), "^$", &column("v"), false, false, true, records).unwrap();
    assert_eq!(outcome.written.len(), 41);
    assert_eq!(outcome.written, expected);
}

#[test]
fn run_of_an_empty_stream() {
    let outcome =
        fill::run(&SelectorExpression { terms: vec![], exclude: false }, "^$", &SelectorExpression { terms: vec![], exclude: false }, false, false, true, Vec::new())
            .unwrap();
    assert!(outcome.written.is_empty());
    assert!(outcome.flushed);
    let outcome = fill::run(&position(1), "^$", &position(1), false, false, true, Vec::new());
    assert!(matches!(outcome, Err(TransformError::UnknownColumn { .. })));
}

#[test]
fn run_stops_at_a_record_that_is_too_narrow() {
    let records = vec![
        ByteRecord::from(vec!["A", "B"]),
        ByteRecord::from(vec!["", "x"]),
        ByteRecord::from(vec!["only"]),
        ByteRecord::from(vec!["", "y"]),
    ];
    let outcome = fill::run(&column("A"), "^$", &column("B"), false, false, true, records).unwrap();
    assert_eq!(
        outcome.written,
        vec![ByteRecord::from(vec!["A", "B"]), ByteRecord::from(vec!["x", "x"])]
    );
    assert_eq!(outcome.failure, Some(TransformError::RecordWidthMismatch { expected: 2, found: 1 }));
    assert!(!outcome.flushed);
}
