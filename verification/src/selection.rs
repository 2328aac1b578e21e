//! Resolved selections: column indices bound to a record width.

use crate::error::ColumnRef;
use crate::error::ColumnRefView;
use crate::error::TransformError;
use crate::record::record_fields;
use csv::ByteRecord;
use vstd::prelude::*;

verus! {

/// The fields of `fields` that `indices` picks, in the order of `indices`.
pub open spec fn selected_fields(fields: Seq<Seq<u8>>, indices: Seq<int>) -> Seq<Seq<u8>> {
    Seq::new(indices.len(), |k: int| fields[indices[k]])
}

/// A list of machine indices as mathematical integers.
pub open spec fn as_ints(indices: Seq<usize>) -> Seq<int> {
    Seq::new(indices.len(), |k: int| indices[k] as int)
}

/// Whether every index of `indices` is a column of a record of `width`
/// fields.
pub open spec fn indices_within(indices: Seq<int>, width: nat) -> bool {
    forall|k: int| 0 <= k < indices.len() ==> 0 <= #[trigger] indices[k] < width
}

/// The views of a vector of borrowed byte strings.
pub open spec fn slice_views(slices: Seq<&[u8]>) -> Seq<Seq<u8>> {
    Seq::new(slices.len(), |k: int| slices[k]@)
}

/// The position, counted from 1, under which an index is reported.
pub open spec fn position_of(index: usize) -> nat {
    if index < usize::MAX {
        (index + 1) as nat
    } else {
        usize::MAX as nat
    }
}

/// Whether every index of `indices` is below `width`.
pub open spec fn all_below(indices: Seq<usize>, width: nat) -> bool {
    forall|k: int| 0 <= k < indices.len() ==> indices[k] < width
}

/// Whether place `k` holds the first index of `indices` that is not below
/// `width`.
pub open spec fn first_not_below(indices: Seq<usize>, width: nat, k: int) -> bool {
    &&& 0 <= k < indices.len()
    &&& indices[k] >= width
    &&& forall|i: int| 0 <= i < k ==> indices[i] < width
}

/// The place of the first index of `indices` that is not below `width`,
/// where there is one.
pub open spec fn first_unfit(indices: Seq<usize>, width: nat) -> int {
    choose|k: int| first_not_below(indices, width, k)
}

/// An ordered list of column indices, counted from 0, into records of a known
/// width. An index may occur more than once and the list need not be sorted.
/// Every index is below the width.
///
/// The view of a selection is its list of indices; the width it is bound to
/// is [`ResolvedSelection::width`]. The membership table is no part of
/// either: it says of each column below the width whether the list holds it.
#[derive(Debug)]
pub struct ResolvedSelection {
    indices: Vec<usize>,
    member: Vec<bool>,
}

impl View for ResolvedSelection {
    type V = Seq<int>;

    closed spec fn view(&self) -> Seq<int> {
        as_ints(self.indices@)
    }
}

impl ResolvedSelection {
    #[verifier::type_invariant]
    closed spec fn inv(&self) -> bool {
        &&& forall|k: int| 0 <= k < self.indices@.len() ==> self.indices@[k] < self.member@.len()
        &&& forall|j: int|
            0 <= j < self.member@.len() ==> (self.member@[j] <==> self@.contains(j))
    }

    /// The width of the records that the selection was resolved against.
    pub closed spec fn width(&self) -> nat {
        self.member@.len()
    }

    /// The number of indices in the selection. Each of them is a column of a
    /// record of the selection's width.
    pub fn len(&self) -> (n: usize)
        ensures
            n == self@.len(),
            indices_within(self@, self.width()),
    {
        proof {
            use_type_invariant(self);
        }
        self.indices.len()
    }

    /// Whether the selection picks no column.
    pub fn is_empty(&self) -> (b: bool)
        ensures
            b == (self@.len() == 0),
    {
        self.indices.len() == 0
    }

    /// The width of the records that the selection was resolved against.
    pub fn record_width(&self) -> (w: usize)
        ensures
            w == self.width(),
    {
        self.member.len()
    }

    /// The selected indices, in the order of the selection.
    pub fn indices(&self) -> (indices: &Vec<usize>)
        ensures
            as_ints(indices@) == self@,
    {
        &self.indices
    }

    /// The index at place `k` of the selection, if it has that many.
    pub fn index_at(&self, k: usize) -> (index: Option<usize>)
        ensures
            k < self@.len() ==> (index matches Some(i) && i == self@[k as int] && i
                < self.width()),
            k >= self@.len() ==> index is None,
    {
        proof {
            use_type_invariant(self);
        }
        if k < self.indices.len() {
            Some(self.indices[k])
        } else {
            None
        }
    }

    /// Whether `index` is one of the selected indices. The answer is read
    /// from a table that was filled when the selection was made.
    pub fn contains(&self, index: usize) -> (b: bool)
        ensures
            b == self@.contains(index as int),
    {
        proof {
            use_type_invariant(self);
        }
        if index < self.member.len() {
            self.member[index]
        } else {
            assert(!self@.contains(index as int)) by {
                if self@.contains(index as int) {
                    let k = choose|k: int| 0 <= k < self@.len() && self@[k] == index as int;
                    assert(self.indices@[k] < self.member@.len());
                }
            }
            false
        }
    }

    /// Binds a list of indices to records of `width` fields. Fails on the
    /// first index that is not below `width`, reporting it as a position
    /// counted from 1.
    pub fn from_indices(indices: Vec<usize>, width: usize) -> (r: Result<
        ResolvedSelection,
        TransformError,
    >)
        ensures
            all_below(indices@, width as nat) ==> (r matches Ok(s) && s@ == as_ints(indices@)
                && s.width() == width),
            !all_below(indices@, width as nat) ==> (r matches Err(
                TransformError::UnknownColumn { requested },
            ) && first_not_below(indices@, width as nat, first_unfit(indices@, width as nat))
                && requested@ == ColumnRefView::Position(
                position_of(indices@[first_unfit(indices@, width as nat)]),
            )),
    {
        let mut member: Vec<bool> = vec![false; width];
        let n = indices.len();
        let mut k: usize = 0;
        while k < n
            invariant
                n == indices@.len(),
                0 <= k <= n,
                member@.len() == width,
                forall|i: int| 0 <= i < k ==> indices@[i] < width,
                forall|j: int|
                    0 <= j < width ==> (member@[j] <==> exists|i: int|
                        0 <= i < k && #[trigger] indices@[i] == j),
            decreases n - k,
        {
            let index = indices[k];
            if index >= width {
                let position = if index < usize::MAX {
                    index + 1
                } else {
                    usize::MAX
                };
                assert(first_not_below(indices@, width as nat, k as int));
                return Err(
                    TransformError::UnknownColumn { requested: ColumnRef::Position(position) },
                );
            }
            let ghost before = member@;
            member.set(index, true);
            proof {
                assert forall|j: int| 0 <= j < width implies (member@[j] <==> exists|i: int|
                    0 <= i < k + 1 && #[trigger] indices@[i] == j) by {
                    if j == index {
                        assert(indices@[k as int] == j);
                    } else if before[j] {
                        let i = choose|i: int| 0 <= i < k && #[trigger] indices@[i] == j;
                        assert(0 <= i < k + 1 && indices@[i] == j);
                    } else {
                    }
                }
            }
            k = k + 1;
        }
        proof {
            let view = as_ints(indices@);
            assert forall|j: int| 0 <= j < member@.len() implies (member@[j] <==> view.contains(
                j,
            )) by {
                if member@[j] {
                    let i = choose|i: int| 0 <= i < n && #[trigger] indices@[i] == j;
                    assert(view[i] == j);
                }
                if view.contains(j) {
                    let i = choose|i: int| 0 <= i < view.len() && view[i] == j;
                    assert(indices@[i] == j);
                }
            }
        }
        Ok(ResolvedSelection { indices, member })
    }

    /// The fields of `record` at the selected indices, in the order of the
    /// selection. A record with fewer fields than the selection's width is
    /// refused.
    pub fn select<'a>(&self, record: &'a ByteRecord) -> (r: Result<Vec<&'a [u8]>, TransformError>)
        ensures
            record_fields(*record).len() >= self.width() ==> (r matches Ok(fields)
                && fields@.len() == self@.len() && slice_views(fields@) == selected_fields(
                record_fields(*record),
                self@,
            )),
            record_fields(*record).len() < self.width() ==> (r matches Err(
                TransformError::RecordWidthMismatch { expected, found },
            ) && expected == self.width() && found == record_fields(*record).len()),
    {
        proof {
            use_type_invariant(self);
        }
        let found = record.len();
        if found < self.member.len() {
            return Err(
                TransformError::RecordWidthMismatch { expected: self.member.len(), found },
            );
        }
        let mut fields: Vec<&'a [u8]> = Vec::new();
        let n = self.indices.len();
        let mut k: usize = 0;
        while k < n
            invariant
                n == self.indices@.len(),
                0 <= k <= n,
                found == record_fields(*record).len(),
                found >= self.member@.len(),
                forall|i: int| 0 <= i < n ==> self.indices@[i] < self.member@.len(),
                fields@.len() == k,
                forall|i: int|
                    0 <= i < k ==> (#[trigger] fields@[i])@ == record_fields(
                        *record,
                    )[self.indices@[i] as int],
            decreases n - k,
        {
            fields.push(record.get(self.indices[k]).unwrap());
            k = k + 1;
        }
        Ok(fields)
    }

} // impl

} // verus!
