//! The record type and what is taken on trust about it.
//!
//! A record is a `csv::ByteRecord`. Its contents are modelled by
//! [`record_fields`], a sequence of byte strings; every statement about a
//! record in this crate is a statement about that sequence.

use crate::error::TransformError;
use csv::ByteRecord;
use vstd::prelude::*;

verus! {

/// Makes `csv::ByteRecord` known to the verifier as an opaque type.
#[verifier::external_type_specification]
#[verifier::external_body]
pub struct ExByteRecord(ByteRecord);

/// The fields that a record holds, in order.
pub uninterp spec fn record_fields(record: ByteRecord) -> Seq<Seq<u8>>;

/// `ByteRecord::new` returns a record without fields.
pub assume_specification[ ByteRecord::new ]() -> (record: ByteRecord)
    ensures
        record_fields(record) == Seq::<Seq<u8>>::empty(),
;

/// `ByteRecord::len` returns the number of fields.
pub assume_specification[ ByteRecord::len ](record: &ByteRecord) -> (n: usize)
    ensures
        n == record_fields(*record).len(),
;

/// `ByteRecord::is_empty` tells whether the record has no field.
pub assume_specification[ ByteRecord::is_empty ](record: &ByteRecord) -> (b: bool)
    ensures
        b == (record_fields(*record).len() == 0),
;

/// `ByteRecord::get` returns the field at index `i`, or `None` when the
/// record has no such field.
pub assume_specification<'a>[ ByteRecord::get ](record: &'a ByteRecord, i: usize) -> (field: Option<&'a [u8]>)
    ensures
        i < record_fields(*record).len() ==> field is Some && field.unwrap()@ == record_fields(
            *record,
        )[i as int],
        i >= record_fields(*record).len() ==> field is None,
;

/// `ByteRecord::push_field` appends one field and leaves the others as they
/// were. The record grows its storage as a `Vec` does, and fails only where
/// memory does.
pub assume_specification[ ByteRecord::push_field ](record: &mut ByteRecord, field: &[u8])
    ensures
        record_fields(*final(record)) == record_fields(*old(record)).push(field@),
;

/// Copies a record field by field.
pub fn copy_record(record: &ByteRecord) -> (out: ByteRecord)
    ensures
        record_fields(out) == record_fields(*record),
{
    let mut out = ByteRecord::new();
    let n = record.len();
    let mut i: usize = 0;
    while i < n
        invariant
            n == record_fields(*record).len(),
            0 <= i <= n,
            record_fields(out) == record_fields(*record).take(i as int),
        decreases n - i,
    {
        out.push_field(record.get(i).unwrap());
        i = i + 1;
    }
    out
}

/// The outcome of a transform with the record taken by its fields.
pub open spec fn outcome_view(outcome: Result<ByteRecord, TransformError>) -> Result<
    Seq<Seq<u8>>,
    TransformError,
> {
    match outcome {
        Ok(record) => Ok(record_fields(record)),
        Err(error) => Err(error),
    }
}

/// The fields of each record of a list.
pub open spec fn records_view(records: Seq<ByteRecord>) -> Seq<Seq<Seq<u8>>> {
    Seq::new(records.len(), |i: int| record_fields(records[i]))
}

} // verus!
