//! The trim transform: boundary whitespace is removed from every field.
//!
//! Trimming involves no selection. It acts on all fields of a record, the
//! header row included.

use crate::driver::lemma_stream_order;
use crate::driver::run_stream;
use crate::driver::RunOutcome;
use crate::driver::Transform;
use crate::driver::TransformView;
use crate::record::record_fields;
use crate::record::records_view;
use csv::ByteRecord;
use vstd::prelude::*;

verus! {

/// The bytes that count as whitespace: space, horizontal tab, line feed,
/// form feed and carriage return. The vertical tab (0x0B) is not among them.
pub open spec fn is_ascii_space(b: u8) -> bool {
    b == 0x20 || b == 0x09 || b == 0x0A || b == 0x0C || b == 0x0D
}

/// `s` without its leading whitespace.
pub open spec fn trim_start(s: Seq<u8>) -> Seq<u8>
    decreases s.len(),
{
    if s.len() > 0 && is_ascii_space(s.first()) {
        trim_start(s.drop_first())
    } else {
        s
    }
}

/// `s` without its trailing whitespace.
pub open spec fn trim_end(s: Seq<u8>) -> Seq<u8>
    decreases s.len(),
{
    if s.len() > 0 && is_ascii_space(s.last()) {
        trim_end(s.drop_last())
    } else {
        s
    }
}

/// `s` without its leading and trailing whitespace.
pub open spec fn trim_field(s: Seq<u8>) -> Seq<u8> {
    trim_start(trim_end(s))
}

/// Every field trimmed; the number and order of the fields are kept.
pub open spec fn trim_fields(fields: Seq<Seq<u8>>) -> Seq<Seq<u8>> {
    Seq::new(fields.len(), |i: int| trim_field(fields[i]))
}

/// Whether `s` neither starts nor ends with whitespace.
pub open spec fn boundary_clean(s: Seq<u8>) -> bool {
    s.len() == 0 || (!is_ascii_space(s.first()) && !is_ascii_space(s.last()))
}

/// `ByteRecord::trim` replaces every field by the field without its leading
/// and trailing whitespace, where whitespace is what
/// `u8::is_ascii_whitespace` accepts. The crate's documentation also lists
/// the vertical tab; its code does not trim it, and neither does this
/// statement.
pub assume_specification[ ByteRecord::trim ](record: &mut ByteRecord)
    ensures
        record_fields(*final(record)) == trim_fields(record_fields(*old(record))),
;

/// Trims every field of a record.
pub fn trim_record(record: ByteRecord) -> (trimmed: ByteRecord)
    ensures
        record_fields(trimmed) == trim_fields(record_fields(record)),
{
    let mut trimmed = record;
    trimmed.trim();
    trimmed
}

/// Every record trimmed; the number and order of the records are kept.
pub open spec fn trim_all(records: Seq<Seq<Seq<u8>>>) -> Seq<Seq<Seq<u8>>> {
    Seq::new(records.len(), |i: int| trim_fields(records[i]))
}

/// What a trimmed stream holds: every record trimmed, the header row like
/// the others, but for a header row without fields, which is left out.
pub open spec fn trim_stream(headers_present: bool, records: Seq<Seq<Seq<u8>>>) -> Seq<
    Seq<Seq<u8>>,
> {
    if headers_present && records.len() > 0 && records[0].len() == 0 {
        trim_all(records.drop_first())
    } else {
        trim_all(records)
    }
}

/// Trims a whole stream that is held in memory. With headers declared
/// present the first record is the header row. Trimming refuses no record,
/// so the stream always ends with its flush.
pub fn run(headers_present: bool, records: Vec<ByteRecord>) -> (outcome: RunOutcome)
    ensures
        records_view(outcome.written@) == trim_stream(headers_present, records_view(records@)),
        outcome.failure is None,
        outcome.flushed,
{
    let ghost inputs = records_view(records@);
    let outcome = run_stream(Transform::Trim, headers_present, records);
    proof {
        lemma_stream_order(TransformView::Trim, headers_present, inputs);
    }
    outcome
}

/// What is left after trimming the start is a suffix of the input, and what
/// was cut off is whitespace only.
pub proof fn lemma_trim_start_is_suffix(s: Seq<u8>) -> (a: int)
    ensures
        0 <= a <= s.len(),
        trim_start(s) == s.subrange(a, s.len() as int),
        forall|i: int| 0 <= i < a ==> is_ascii_space(s[i]),
        a < s.len() ==> !is_ascii_space(s[a]),
    decreases s.len(),
{
    if s.len() > 0 && is_ascii_space(s.first()) {
        let rest = s.drop_first();
        let b = lemma_trim_start_is_suffix(rest);
        assert forall|i: int| 0 <= i < b + 1 implies is_ascii_space(s[i]) by {
            if i > 0 {
                assert(s[i] == rest[i - 1]);
            }
        }
        b + 1
    } else {
        0
    }
}

/// What is left after trimming the end is a prefix of the input, and what
/// was cut off is whitespace only.
pub proof fn lemma_trim_end_is_prefix(s: Seq<u8>) -> (b: int)
    ensures
        0 <= b <= s.len(),
        trim_end(s) == s.subrange(0, b),
        forall|i: int| b <= i < s.len() ==> is_ascii_space(s[i]),
        b > 0 ==> !is_ascii_space(s[b - 1]),
    decreases s.len(),
{
    if s.len() > 0 && is_ascii_space(s.last()) {
        let rest = s.drop_last();
        let b = lemma_trim_end_is_prefix(rest);
        assert forall|i: int| b <= i < s.len() implies is_ascii_space(s[i]) by {
            if i < s.len() - 1 {
                assert(s[i] == rest[i]);
            }
        }
        b
    } else {
        s.len() as int
    }
}

/// Trimming keeps a middle part of the field: what it removes in front and
/// behind is whitespace only, and what it keeps is empty or has a byte
/// other than whitespace at either end.
pub proof fn lemma_trim_field_is_middle(s: Seq<u8>) -> (bounds: (int, int))
    ensures
        0 <= bounds.0 <= bounds.1 <= s.len(),
        trim_field(s) == s.subrange(bounds.0, bounds.1),
        forall|i: int| 0 <= i < bounds.0 ==> is_ascii_space(s[i]),
        forall|i: int| bounds.1 <= i < s.len() ==> is_ascii_space(s[i]),
        boundary_clean(trim_field(s)),
{
    let b = lemma_trim_end_is_prefix(s);
    let head = s.subrange(0, b);
    let a = lemma_trim_start_is_suffix(head);
    assert forall|i: int| 0 <= i < a implies is_ascii_space(s[i]) by {
        assert(s[i] == head[i]);
    }
    (a, b)
}

/// A field that neither starts nor ends with whitespace is left as it is.
pub proof fn lemma_trim_field_keeps_clean(s: Seq<u8>)
    requires
        boundary_clean(s),
    ensures
        trim_field(s) == s,
{
}

/// Trimming a field twice gives what trimming it once gives.
pub proof fn lemma_trim_field_idempotent(s: Seq<u8>)
    ensures
        trim_field(trim_field(s)) == trim_field(s),
{
    lemma_trim_field_is_middle(s);
    lemma_trim_field_keeps_clean(trim_field(s));
}

/// Trimming a record twice gives what trimming it once gives.
pub proof fn lemma_trim_idempotent(fields: Seq<Seq<u8>>)
    ensures
        trim_fields(trim_fields(fields)) == trim_fields(fields),
{
    assert forall|i: int| 0 <= i < fields.len() implies trim_field(
        #[trigger] trim_fields(fields)[i],
    ) == trim_field(fields[i]) by {
        lemma_trim_field_idempotent(fields[i]);
    }
}

/// A record whose fields neither start nor end with whitespace is left as it
/// is, byte for byte.
pub proof fn lemma_trim_keeps_clean(fields: Seq<Seq<u8>>)
    requires
        forall|i: int| 0 <= i < fields.len() ==> boundary_clean(#[trigger] fields[i]),
    ensures
        trim_fields(fields) == fields,
{
    assert forall|i: int| 0 <= i < fields.len() implies trim_field(#[trigger] fields[i])
        == fields[i] by {
        lemma_trim_field_keeps_clean(fields[i]);
    }
}

} // verus!
