//! The fill transform: fields that a pattern selects are replaced by the
//! value of another column.
//!
//! A record qualifies as a whole: the pattern is tested against the target
//! fields, and if any of them matches (or, inverted, if none does) every
//! target field is replaced. All other fields pass through unchanged.

use crate::driver::run_stream;
use crate::driver::RunOutcome;
use crate::driver::Transform;
use crate::driver::TransformView;
use crate::error::ColumnRefView;
use crate::error::TransformError;
use crate::pattern::language_of;
use crate::pattern::Pattern;
use crate::record::copy_record;
use crate::record::outcome_view;
use crate::record::record_fields;
use crate::record::records_view;
use crate::selector::resolve;
use crate::selector::resolve_spec;
use crate::selector::SelectorExpression;
use crate::selector::SelectorExpressionView;
use crate::selection::indices_within;
use crate::selection::ResolvedSelection;
use csv::ByteRecord;
use vstd::prelude::*;

verus! {

/// Whether the language holds at least one of the target fields.
pub open spec fn any_target_in(
    fields: Seq<Seq<u8>>,
    targets: Seq<int>,
    language: Set<Seq<u8>>,
) -> bool {
    exists|k: int| 0 <= k < targets.len() && language.contains(fields[#[trigger] targets[k]])
}

/// The value that replaces the target fields: the first field that `source`
/// selects, or the empty byte string when `source` selects nothing. Further
/// indices of `source` are not looked at.
pub open spec fn replacement_value(fields: Seq<Seq<u8>>, source: Seq<int>) -> Seq<u8> {
    if source.len() > 0 {
        fields[source[0]]
    } else {
        Seq::empty()
    }
}

/// `fields` with `value` at each index that `targets` holds.
pub open spec fn replace_targets(fields: Seq<Seq<u8>>, targets: Seq<int>, value: Seq<u8>) -> Seq<
    Seq<u8>,
> {
    Seq::new(
        fields.len(),
        |i: int|
            if targets.contains(i) {
                value
            } else {
                fields[i]
            },
    )
}

/// Whether a record qualifies for replacement.
pub open spec fn qualifies(
    fields: Seq<Seq<u8>>,
    language: Set<Seq<u8>>,
    targets: Seq<int>,
    invert: bool,
) -> bool {
    any_target_in(fields, targets, language) != invert
}

/// The filled record.
pub open spec fn fill_fields(
    fields: Seq<Seq<u8>>,
    language: Set<Seq<u8>>,
    targets: Seq<int>,
    source: Seq<int>,
    invert: bool,
) -> Seq<Seq<u8>> {
    if qualifies(fields, language, targets, invert) {
        replace_targets(fields, targets, replacement_value(fields, source))
    } else {
        fields
    }
}

/// The width that a record of `found` fields falls short of, if any: the
/// targets' width first, then the source's.
pub open spec fn missing_width(found: nat, targets_width: nat, source_width: nat) -> Option<nat> {
    if found < targets_width {
        Some(targets_width)
    } else if found < source_width {
        Some(source_width)
    } else {
        None
    }
}

/// What filling a record gives: the filled record, or the width that the
/// record falls short of.
pub open spec fn fill_outcome(
    fields: Seq<Seq<u8>>,
    language: Set<Seq<u8>>,
    targets: Seq<int>,
    targets_width: nat,
    source: Seq<int>,
    source_width: nat,
    invert: bool,
) -> Result<Seq<Seq<u8>>, TransformError> {
    match missing_width(fields.len(), targets_width, source_width) {
        Some(width) => Err(
            TransformError::RecordWidthMismatch {
                expected: width as usize,
                found: fields.len() as usize,
            },
        ),
        None => Ok(fill_fields(fields, language, targets, source, invert)),
    }
}

/// A pattern and two selections, bound once and applied to every record of
/// a stream.
pub struct FillPlan {
    /// The pattern that is tested against the target fields.
    pub pattern: Pattern,
    /// The fields that are tested and, if the record qualifies, replaced.
    pub targets: ResolvedSelection,
    /// The selection whose first field is the replacement.
    pub source: ResolvedSelection,
    /// Whether a record qualifies when no target field matches.
    pub invert: bool,
}

/// The mathematical value of a [`FillPlan`].
pub struct FillPlanView {
    pub language: Set<Seq<u8>>,
    pub targets: Seq<int>,
    pub targets_width: nat,
    pub source: Seq<int>,
    pub source_width: nat,
    pub invert: bool,
}

impl FillPlanView {
    /// What the plan makes of a record.
    pub open spec fn outcome(self, fields: Seq<Seq<u8>>) -> Result<Seq<Seq<u8>>, TransformError> {
        fill_outcome(
            fields,
            self.language,
            self.targets,
            self.targets_width,
            self.source,
            self.source_width,
            self.invert,
        )
    }
}

impl View for FillPlan {
    type V = FillPlanView;

    open spec fn view(&self) -> FillPlanView {
        FillPlanView {
            language: self.pattern.language(),
            targets: self.targets@,
            targets_width: self.targets.width(),
            source: self.source@,
            source_width: self.source.width(),
            invert: self.invert,
        }
    }
}

/// The plan that a pattern and two resolved selections make for records of
/// `width` fields.
pub open spec fn plan_for(
    language: Set<Seq<u8>>,
    selections: (Seq<int>, Seq<int>),
    width: nat,
    invert: bool,
) -> FillPlanView {
    FillPlanView {
        language,
        targets: selections.0,
        targets_width: width,
        source: selections.1,
        source_width: width,
        invert,
    }
}

impl FillPlan {
    /// Resolves both selector expressions against the header and binds them
    /// to the pattern. The target expression is resolved first.
    pub fn bind(
        pattern: Pattern,
        select: &SelectorExpression,
        fill_column: &SelectorExpression,
        header: &ByteRecord,
        header_present: bool,
        invert: bool,
    ) -> (r: Result<FillPlan, TransformError>)
        ensures
            match bound_selections(select@, fill_column@, record_fields(*header), header_present) {
                Ok(selections) => (r matches Ok(plan) && plan@ == plan_for(
                    pattern.language(),
                    selections,
                    record_fields(*header).len(),
                    invert,
                )),
                Err(column) => (r matches Err(TransformError::UnknownColumn { requested })
                    && requested@ == column),
            },
    {
        let targets = match resolve(select, header, header_present) {
            Ok(selection) => selection,
            Err(e) => {
                return Err(e);
            },
        };
        let source = match resolve(fill_column, header, header_present) {
            Ok(selection) => selection,
            Err(e) => {
                return Err(e);
            },
        };
        Ok(FillPlan { pattern, targets, source, invert })
    }

    /// Fills one record according to the plan.
    pub fn apply(&self, record: &ByteRecord) -> (r: Result<ByteRecord, TransformError>)
        ensures
            outcome_view(r) == self@.outcome(record_fields(*record)),
    {
        fill_record(record, &self.pattern, &self.targets, &self.source, self.invert)
    }
}

/// What the two expressions of a fill resolve to against a header: the
/// targets and the source, or the first reference that the header does not
/// have, the target expression's before the source expression's.
pub open spec fn bound_selections(
    select: SelectorExpressionView,
    fill_column: SelectorExpressionView,
    header: Seq<Seq<u8>>,
    header_present: bool,
) -> Result<(Seq<int>, Seq<int>), ColumnRefView> {
    match resolve_spec(select, header, header_present) {
        Err(column) => Err(column),
        Ok(targets) => match resolve_spec(fill_column, header, header_present) {
            Err(column) => Err(column),
            Ok(source) => Ok((targets, source)),
        },
    }
}

/// Tests the pattern against the target fields of a record.
pub fn any_match(pattern: &Pattern, targets: &ResolvedSelection, record: &ByteRecord) -> (r:
    Result<bool, TransformError>)
    ensures
        record_fields(*record).len() >= targets.width() ==> r == Ok::<bool, TransformError>(
            any_target_in(record_fields(*record), targets@, pattern.language()),
        ),
        record_fields(*record).len() < targets.width() ==> (r matches Err(
            TransformError::RecordWidthMismatch { expected, found },
        ) && expected == targets.width() && found == record_fields(*record).len()),
{
    let found = record.len();
    let width = targets.record_width();
    if found < width {
        return Err(TransformError::RecordWidthMismatch { expected: width, found });
    }
    let n = targets.len();
    let mut k: usize = 0;
    while k < n
        invariant
            n == targets@.len(),
            0 <= k <= n,
            found == record_fields(*record).len(),
            found >= targets.width(),
            forall|i: int|
                0 <= i < k ==> !pattern.language().contains(
                    record_fields(*record)[#[trigger] targets@[i]],
                ),
        decreases n - k,
    {
        let index = targets.index_at(k).unwrap();
        let field = record.get(index).unwrap();
        if pattern.is_match(field) {
            return Ok(true);
        }
        k = k + 1;
    }
    Ok(false)
}

/// Copies a record, with `value` in place of each field whose index is among
/// the targets.
pub fn replace_fields(record: &ByteRecord, targets: &ResolvedSelection, value: &[u8]) -> (out:
    ByteRecord)
    ensures
        record_fields(out) == replace_targets(record_fields(*record), targets@, value@),
{
    let mut out = ByteRecord::new();
    let n = record.len();
    let mut i: usize = 0;
    while i < n
        invariant
            n == record_fields(*record).len(),
            0 <= i <= n,
            record_fields(out) == replace_targets(record_fields(*record), targets@, value@).take(
                i as int,
            ),
        decreases n - i,
    {
        if targets.contains(i) {
            out.push_field(value);
        } else {
            out.push_field(record.get(i).unwrap());
        }
        i = i + 1;
    }
    out
}

/// Fills one record. The pattern is tested once against the target fields;
/// if the record qualifies, each target field is replaced by the first field
/// that `source` selects. A record with fewer fields than either selection
/// was resolved against is refused.
pub fn fill_record(
    record: &ByteRecord,
    pattern: &Pattern,
    targets: &ResolvedSelection,
    source: &ResolvedSelection,
    invert: bool,
) -> (r: Result<ByteRecord, TransformError>)
    ensures
        outcome_view(r) == fill_outcome(
            record_fields(*record),
            pattern.language(),
            targets@,
            targets.width(),
            source@,
            source.width(),
            invert,
        ),
{
    let matched = match any_match(pattern, targets, record) {
        Ok(m) => m,
        Err(e) => {
            return Err(e);
        },
    };
    let found = record.len();
    let source_width = source.record_width();
    if found < source_width {
        return Err(TransformError::RecordWidthMismatch { expected: source_width, found });
    }
    if matched == invert {
        return Ok(copy_record(record));
    }
    let empty: Vec<u8> = Vec::new();
    let value: &[u8] = match source.index_at(0) {
        Some(first) => record.get(first).unwrap(),
        None => empty.as_slice(),
    };
    Ok(replace_fields(record, targets, value))
}

/// The record that the selections of a stream are resolved against: its
/// first record, or a record without fields if the stream is empty.
pub open spec fn first_or_empty(records: Seq<Seq<Seq<u8>>>) -> Seq<Seq<u8>> {
    if records.len() > 0 {
        records[0]
    } else {
        Seq::empty()
    }
}

/// Whether `result` is what filling the stream `records` comes to, for a
/// pattern with the given language. If a selector names a column that the
/// first record does not have, the result is that error and nothing is
/// written. Otherwise it is what the driver makes of the stream with the
/// plan that the pattern and the resolved selections make.
pub open spec fn is_fill_result(
    result: Result<RunOutcome, TransformError>,
    language: Set<Seq<u8>>,
    select: SelectorExpressionView,
    fill_column: SelectorExpressionView,
    invert: bool,
    headers_present: bool,
    records: Seq<Seq<Seq<u8>>>,
) -> bool {
    match bound_selections(select, fill_column, first_or_empty(records), headers_present) {
        Err(column) => (result matches Err(TransformError::UnknownColumn { requested })
            && requested@ == column),
        Ok(selections) => (result matches Ok(outcome) && outcome.is_outcome_of(
            TransformView::Fill(
                plan_for(language, selections, first_or_empty(records).len(), invert),
            ),
            headers_present,
            records,
        )),
    }
}

/// Fills a whole stream that is held in memory with a compiled pattern.
/// Both selector expressions are resolved once, against the first record of
/// the stream, before any record is transformed. With headers declared
/// present the first record is the header row: names are resolved against
/// it and it is written as it is.
pub fn run_with(
    pattern: Pattern,
    select: &SelectorExpression,
    fill_column: &SelectorExpression,
    invert: bool,
    headers_present: bool,
    records: Vec<ByteRecord>,
) -> (result: Result<RunOutcome, TransformError>)
    ensures
        is_fill_result(
            result,
            pattern.language(),
            select@,
            fill_column@,
            invert,
            headers_present,
            records_view(records@),
        ),
{
    let empty = ByteRecord::new();
    let bound = if records.len() > 0 {
        FillPlan::bind(pattern, select, fill_column, &records[0], headers_present, invert)
    } else {
        FillPlan::bind(pattern, select, fill_column, &empty, headers_present, invert)
    };
    match bound {
        Ok(plan) => Ok(run_stream(Transform::Fill(plan), headers_present, records)),
        Err(error) => Err(error),
    }
}

/// Fills a whole stream that is held in memory. The pattern is compiled
/// first, without regard to case if `ignore_case` is set; a pattern that
/// the engine refuses is reported before any selector is resolved or any
/// record is looked at. What follows is [`run_with`] on the compiled
/// pattern.
pub fn run(
    select: &SelectorExpression,
    pattern: &str,
    fill_column: &SelectorExpression,
    ignore_case: bool,
    invert: bool,
    headers_present: bool,
    records: Vec<ByteRecord>,
) -> (result: Result<RunOutcome, TransformError>)
    ensures
        match language_of(pattern@, ignore_case) {
            None => (result matches Err(error) && error is PatternCompile),
            Some(language) => is_fill_result(
                result,
                language,
                select@,
                fill_column@,
                invert,
                headers_present,
                records_view(records@),
            ),
        },
{
    match Pattern::new(pattern, ignore_case) {
        Ok(compiled) => run_with(compiled, select, fill_column, invert, headers_present, records),
        Err(error) => Err(error),
    }
}

/// Filling a record twice gives what filling it once gives, whether or not
/// the first fill leaves a record that still qualifies. In particular a
/// fill that made the match predicate false is not undone or repeated by a
/// second one. All that is asked is that the source selects columns of the
/// record.
pub proof fn lemma_fill_idempotent(
    fields: Seq<Seq<u8>>,
    language: Set<Seq<u8>>,
    targets: Seq<int>,
    source: Seq<int>,
    invert: bool,
)
    requires
        indices_within(source, fields.len()),
    ensures
        fill_fields(
            fill_fields(fields, language, targets, source, invert),
            language,
            targets,
            source,
            invert,
        ) == fill_fields(fields, language, targets, source, invert),
{
    let once = fill_fields(fields, language, targets, source, invert);
    if qualifies(fields, language, targets, invert) {
        assert(replacement_value(once, source) == replacement_value(fields, source));
    }
}

/// A record that does not qualify is left as it is.
pub proof fn lemma_fill_keeps_unqualified(
    fields: Seq<Seq<u8>>,
    language: Set<Seq<u8>>,
    targets: Seq<int>,
    source: Seq<int>,
    invert: bool,
)
    requires
        !qualifies(fields, language, targets, invert),
    ensures
        fill_fields(fields, language, targets, source, invert) == fields,
{
}

/// Filling keeps the number of fields, and changes no field outside the
/// targets.
pub proof fn lemma_fill_keeps_others(
    fields: Seq<Seq<u8>>,
    language: Set<Seq<u8>>,
    targets: Seq<int>,
    source: Seq<int>,
    invert: bool,
)
    ensures
        fill_fields(fields, language, targets, source, invert).len() == fields.len(),
        forall|i: int|
            0 <= i < fields.len() && !targets.contains(i) ==> #[trigger] fill_fields(
                fields,
                language,
                targets,
                source,
                invert,
            )[i] == fields[i],
{
}

} // verus!
