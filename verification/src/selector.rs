//! Selector expressions and their resolution against a header row.
//!
//! An expression is a list of terms. Each term names one column, by position
//! or by name, or a range of columns. Resolution turns the expression into
//! the list of column indices that it stands for, in the order written.

use crate::error::ColumnRef;
use crate::error::ColumnRefView;
use crate::error::TransformError;
use crate::record::record_fields;
use crate::selection::all_below;
use crate::selection::as_ints;
use crate::selection::indices_within;
use crate::selection::ResolvedSelection;
use csv::ByteRecord;
use vstd::prelude::*;

verus! {

/// One term of a selector expression.
#[derive(Debug, Clone, PartialEq, Eq)]
pub enum SelectorTerm {
    /// A single column.
    Column(ColumnRef),
    /// All columns from the first bound to the second, both included. A
    /// bound that is left out stands for the first or the last column.
    Range(Option<ColumnRef>, Option<ColumnRef>),
}

/// The mathematical value of a [`SelectorTerm`].
pub enum SelectorTermView {
    Column(ColumnRefView),
    Range(Option<ColumnRefView>, Option<ColumnRefView>),
}

/// The mathematical value of a range bound.
pub open spec fn bound_view(bound: Option<ColumnRef>) -> Option<ColumnRefView> {
    match bound {
        Some(column) => Some(column@),
        None => None,
    }
}

impl View for SelectorTerm {
    type V = SelectorTermView;

    open spec fn view(&self) -> SelectorTermView {
        match *self {
            SelectorTerm::Column(column) => SelectorTermView::Column(column@),
            SelectorTerm::Range(start, end) => SelectorTermView::Range(
                bound_view(start),
                bound_view(end),
            ),
        }
    }
}

/// A parsed column specification. With `exclude` set it stands for all
/// columns but those that its terms name.
#[derive(Debug, Clone, PartialEq, Eq)]
pub struct SelectorExpression {
    pub terms: Vec<SelectorTerm>,
    pub exclude: bool,
}

/// The mathematical value of a [`SelectorExpression`].
pub struct SelectorExpressionView {
    pub terms: Seq<SelectorTermView>,
    pub exclude: bool,
}

impl View for SelectorExpression {
    type V = SelectorExpressionView;

    open spec fn view(&self) -> SelectorExpressionView {
        SelectorExpressionView {
            terms: Seq::new(self.terms@.len(), |i: int| self.terms@[i]@),
            exclude: self.exclude,
        }
    }
}

/// Whether `i` is the first place at which `header` holds `name`.
pub open spec fn is_first_occurrence(header: Seq<Seq<u8>>, name: Seq<u8>, i: int) -> bool {
    &&& 0 <= i < header.len()
    &&& header[i] == name
    &&& forall|j: int| 0 <= j < i ==> header[j] != name
}

/// The first place at which `header` holds `name`, if it holds it at all.
pub open spec fn first_index_of(header: Seq<Seq<u8>>, name: Seq<u8>) -> Option<int> {
    if exists|i: int| is_first_occurrence(header, name, i) {
        Some(choose|i: int| is_first_occurrence(header, name, i))
    } else {
        None
    }
}

/// The index that a column reference stands for. A position `p` stands for
/// index `p - 1` if the header has that many columns. A name stands for the
/// first column of that name, and for none where names are not in use.
pub open spec fn resolve_ref(header: Seq<Seq<u8>>, use_names: bool, column: ColumnRefView) -> Option<
    int,
> {
    match column {
        ColumnRefView::Position(p) => if 1 <= p <= header.len() {
            Some(p - 1)
        } else {
            None
        },
        ColumnRefView::Name(name) => if use_names {
            first_index_of(header, name)
        } else {
            None
        },
    }
}

/// The indices from `from` to `to`, both included: ascending if `from` is
/// not above `to`, descending otherwise.
pub open spec fn span(from: int, to: int) -> Seq<int> {
    if from <= to {
        Seq::new((to - from + 1) as nat, |k: int| from + k)
    } else {
        Seq::new((from - to + 1) as nat, |k: int| from - k)
    }
}

/// The index of a range bound; `open_value` is what a bound stands for that
/// was left out. The error is the reference that could not be resolved.
pub open spec fn resolve_bound(
    header: Seq<Seq<u8>>,
    use_names: bool,
    bound: Option<ColumnRefView>,
    open_value: int,
) -> Result<int, ColumnRefView> {
    match bound {
        None => Ok(open_value),
        Some(column) => match resolve_ref(header, use_names, column) {
            Some(i) => Ok(i),
            None => Err(column),
        },
    }
}

/// The indices that a term stands for, or the reference in it that could not
/// be resolved: of a range, the first bound before the second. A range
/// without bounds over a header without columns stands for no index.
pub open spec fn resolve_term(header: Seq<Seq<u8>>, use_names: bool, term: SelectorTermView) -> Result<
    Seq<int>,
    ColumnRefView,
> {
    match term {
        SelectorTermView::Column(column) => match resolve_ref(header, use_names, column) {
            Some(i) => Ok(seq![i]),
            None => Err(column),
        },
        SelectorTermView::Range(start, end) => match resolve_bound(header, use_names, start, 0) {
            Err(column) => Err(column),
            Ok(from) => match resolve_bound(header, use_names, end, header.len() - 1) {
                Err(column) => Err(column),
                Ok(to) => if header.len() == 0 {
                    Ok(Seq::empty())
                } else {
                    Ok(span(from, to))
                },
            },
        },
    }
}

/// The indices of all terms, one term after the other, or the first
/// reference in the expression that could not be resolved.
pub open spec fn resolve_terms(
    header: Seq<Seq<u8>>,
    use_names: bool,
    terms: Seq<SelectorTermView>,
) -> Result<Seq<int>, ColumnRefView>
    decreases terms.len(),
{
    if terms.len() == 0 {
        Ok(Seq::empty())
    } else {
        match resolve_terms(header, use_names, terms.drop_last()) {
            Err(column) => Err(column),
            Ok(front) => match resolve_term(header, use_names, terms.last()) {
                Err(column) => Err(column),
                Ok(indices) => Ok(front + indices),
            },
        }
    }
}

/// The columns of a record of `width` fields that `indices` does not hold,
/// in ascending order.
pub open spec fn complement(indices: Seq<int>, width: nat) -> Seq<int>
    decreases width,
{
    if width == 0 {
        Seq::empty()
    } else {
        let front = complement(indices, (width - 1) as nat);
        if indices.contains(width - 1) {
            front
        } else {
            front.push(width - 1)
        }
    }
}

/// What an expression resolves to against a header: its indices, or the
/// first reference that the header does not have. Names are in use only if
/// the header is present; without one, `header` is the first data record and
/// serves for its width alone.
pub open spec fn resolve_spec(
    expression: SelectorExpressionView,
    header: Seq<Seq<u8>>,
    header_present: bool,
) -> Result<Seq<int>, ColumnRefView> {
    match resolve_terms(header, header_present, expression.terms) {
        Err(column) => Err(column),
        Ok(indices) => if expression.exclude {
            Ok(complement(indices, header.len()))
        } else {
            Ok(indices)
        },
    }
}

/// Whether two byte strings are equal.
pub fn bytes_equal(a: &[u8], b: &[u8]) -> (equal: bool)
    ensures
        equal == (a@ == b@),
{
    if a.len() != b.len() {
        return false;
    }
    let n = a.len();
    let mut i: usize = 0;
    while i < n
        invariant
            n == a@.len(),
            n == b@.len(),
            0 <= i <= n,
            forall|j: int| 0 <= j < i ==> a@[j] == b@[j],
        decreases n - i,
    {
        if a[i] != b[i] {
            return false;
        }
        i = i + 1;
    }
    assert(a@ =~= b@);
    true
}

/// Finds the first field of `header` that equals `name`.
pub fn find_name(header: &ByteRecord, name: &[u8]) -> (found: Option<usize>)
    ensures
        found matches Some(i) ==> first_index_of(record_fields(*header), name@) == Some(i as int),
        found is None ==> first_index_of(record_fields(*header), name@) is None,
{
    let n = header.len();
    let mut i: usize = 0;
    while i < n
        invariant
            n == record_fields(*header).len(),
            0 <= i <= n,
            forall|j: int| 0 <= j < i ==> record_fields(*header)[j] != name@,
        decreases n - i,
    {
        if bytes_equal(header.get(i).unwrap(), name) {
            assert(is_first_occurrence(record_fields(*header), name@, i as int));
            return Some(i);
        }
        i = i + 1;
    }
    None
}

/// Resolves one column reference against a header.
pub fn resolve_column(header: &ByteRecord, use_names: bool, column: &ColumnRef) -> (index: Option<
    usize,
>)
    ensures
        index matches Some(i) ==> resolve_ref(record_fields(*header), use_names, column@) == Some(
            i as int,
        ),
        index is None ==> resolve_ref(record_fields(*header), use_names, column@) is None,
{
    match column {
        ColumnRef::Position(p) => {
            if 1 <= *p && *p <= header.len() {
                Some(*p - 1)
            } else {
                None
            }
        },
        ColumnRef::Name(name) => {
            if use_names {
                find_name(header, name.as_slice())
            } else {
                None
            }
        },
    }
}

/// A copy of a column reference.
pub fn copy_column(column: &ColumnRef) -> (copy: ColumnRef)
    ensures
        copy@ == column@,
{
    match column {
        ColumnRef::Position(p) => ColumnRef::Position(*p),
        ColumnRef::Name(name) => ColumnRef::Name(name.clone()),
    }
}

/// The machine indices from `from` to `to`, both included, in the order of
/// [`span`].
pub fn expand_span(from: usize, to: usize) -> (indices: Vec<usize>)
    ensures
        as_ints(indices@) == span(from as int, to as int),
{
    let mut indices: Vec<usize> = Vec::new();
    let mut i: usize = from;
    let ghost whole = span(from as int, to as int);
    if from <= to {
        while i < to
            invariant
                from <= i <= to,
                whole == span(from as int, to as int),
                as_ints(indices@) == whole.take(i - from),
            decreases to - i,
        {
            indices.push(i);
            assert(whole.take(i + 1 - from) =~= whole.take(i - from).push(whole[i - from]));
            i = i + 1;
        }
    } else {
        while i > to
            invariant
                to <= i <= from,
                whole == span(from as int, to as int),
                as_ints(indices@) == whole.take(from - i),
            decreases i - to,
        {
            indices.push(i);
            assert(whole.take(from - i + 1) =~= whole.take(from - i).push(whole[from - i]));
            i = i - 1;
        }
    }
    indices.push(to);
    assert(whole =~= whole.take(whole.len() - 1).push(whole[whole.len() - 1]));
    indices
}

/// Resolves one term against a header.
pub fn expand_term(header: &ByteRecord, use_names: bool, term: &SelectorTerm) -> (r: Result<
    Vec<usize>,
    ColumnRef,
>)
    ensures
        match resolve_term(record_fields(*header), use_names, term@) {
            Ok(indices) => (r matches Ok(found) && as_ints(found@) == indices),
            Err(column) => (r matches Err(requested) && requested@ == column),
        },
{
    match term {
        SelectorTerm::Column(column) => {
            match resolve_column(header, use_names, column) {
                Some(i) => {
                    let mut indices: Vec<usize> = Vec::new();
                    indices.push(i);
                    Ok(indices)
                },
                None => Err(copy_column(column)),
            }
        },
        SelectorTerm::Range(start, end) => {
            let from = match start {
                None => 0,
                Some(column) => match resolve_column(header, use_names, column) {
                    Some(i) => i,
                    None => {
                        return Err(copy_column(column));
                    },
                },
            };
            let to = match end {
                None => if header.len() == 0 {
                    0
                } else {
                    header.len() - 1
                },
                Some(column) => match resolve_column(header, use_names, column) {
                    Some(i) => i,
                    None => {
                        return Err(copy_column(column));
                    },
                },
            };
            if header.len() == 0 {
                Ok(Vec::new())
            } else {
                Ok(expand_span(from, to))
            }
        },
    }
}

/// Binds an expression to a header. The result holds the indices that the
/// expression stands for, in the order written, and is bound to the
/// header's width. Resolution fails on the first reference that the header
/// does not have: a position outside it, or a name that it does not hold
/// (any name, if the header is not present).
pub fn resolve(expression: &SelectorExpression, header: &ByteRecord, header_present: bool) -> (r:
    Result<ResolvedSelection, TransformError>)
    ensures
        match resolve_spec(expression@, record_fields(*header), header_present) {
            Ok(indices) => (r matches Ok(selection) && selection@ == indices && selection.width()
                == record_fields(*header).len()),
            Err(column) => (r matches Err(TransformError::UnknownColumn { requested })
                && requested@ == column),
        },
{
    let ghost fields = record_fields(*header);
    let ghost terms = expression@.terms;
    let width = header.len();
    let mut indices: Vec<usize> = Vec::new();
    let n = expression.terms.len();
    let mut k: usize = 0;
    assert(as_ints(indices@) =~= Seq::<int>::empty());
    while k < n
        invariant
            n == expression.terms@.len(),
            terms == expression@.terms,
            fields == record_fields(*header),
            width == fields.len(),
            0 <= k <= n,
            resolve_terms(fields, header_present, terms.take(k as int)) == Ok::<
                Seq<int>,
                ColumnRefView,
            >(as_ints(indices@)),
        decreases n - k,
    {
        let ghost front = terms.take(k as int);
        let ghost upto = terms.take(k + 1);
        assert(upto.drop_last() =~= front);
        match expand_term(header, header_present, &expression.terms[k]) {
            Ok(mut found) => {
                let ghost before = indices@;
                let ghost added = found@;
                indices.append(&mut found);
                assert(as_ints(indices@) =~= as_ints(before) + as_ints(added));
            },
            Err(requested) => {
                proof {
                    lemma_resolve_terms_prefix(fields, header_present, terms, k + 1);
                }
                return Err(TransformError::UnknownColumn { requested });
            },
        }
        k = k + 1;
    }
    assert(terms.take(n as int) =~= terms);
    proof {
        lemma_resolved_within(fields, header_present, terms);
        assert forall|j: int| 0 <= j < indices@.len() implies indices@[j] < width by {
            assert(as_ints(indices@)[j] == indices@[j]);
        }
    }
    if !expression.exclude {
        return ResolvedSelection::from_indices(indices, width);
    }
    let named = match ResolvedSelection::from_indices(indices, width) {
        Ok(selection) => selection,
        Err(e) => {
            return Err(e);
        },
    };
    let mut others: Vec<usize> = Vec::new();
    let mut i: usize = 0;
    while i < width
        invariant
            0 <= i <= width,
            as_ints(others@) == complement(named@, i as nat),
            all_below(others@, i as nat),
        decreases width - i,
    {
        if !named.contains(i) {
            others.push(i);
        }
        i = i + 1;
    }
    ResolvedSelection::from_indices(others, width)
}

/// A failure among the first terms of an expression is the failure of the
/// whole expression.
pub proof fn lemma_resolve_terms_prefix(
    header: Seq<Seq<u8>>,
    use_names: bool,
    terms: Seq<SelectorTermView>,
    k: int,
)
    requires
        0 <= k <= terms.len(),
        resolve_terms(header, use_names, terms.take(k)) is Err,
    ensures
        resolve_terms(header, use_names, terms) == resolve_terms(header, use_names, terms.take(k)),
    decreases terms.len() - k,
{
    if k < terms.len() {
        assert(terms.take(k + 1).drop_last() =~= terms.take(k));
        lemma_resolve_terms_prefix(header, use_names, terms, k + 1);
    } else {
        assert(terms.take(k) =~= terms);
    }
}

/// Every index that a column reference resolves to is a column of the
/// header.
pub proof fn lemma_resolved_ref_within(header: Seq<Seq<u8>>, use_names: bool, column: ColumnRefView)
    ensures
        resolve_ref(header, use_names, column) matches Some(i) ==> 0 <= i < header.len(),
{
}

/// Every index that a list of terms resolves to is a column of the header.
pub proof fn lemma_resolved_within(
    header: Seq<Seq<u8>>,
    use_names: bool,
    terms: Seq<SelectorTermView>,
)
    ensures
        resolve_terms(header, use_names, terms) matches Ok(indices) ==> indices_within(
            indices,
            header.len(),
        ),
    decreases terms.len(),
{
    if terms.len() > 0 {
        lemma_resolved_within(header, use_names, terms.drop_last());
        match terms.last() {
            SelectorTermView::Column(column) => {
                lemma_resolved_ref_within(header, use_names, column);
            },
            SelectorTermView::Range(start, end) => {
                if start is Some {
                    lemma_resolved_ref_within(header, use_names, start.unwrap());
                }
                if end is Some {
                    lemma_resolved_ref_within(header, use_names, end.unwrap());
                }
            },
        }
    }
}

/// The complement holds exactly the columns that `indices` does not hold,
/// each once and in ascending order.
pub proof fn lemma_complement_is_rest(indices: Seq<int>, width: nat)
    ensures
        indices_within(complement(indices, width), width),
        forall|j: int|
            0 <= j < width ==> (complement(indices, width).contains(j) <==> !indices.contains(j)),
        forall|a: int, b: int|
            0 <= a < b < complement(indices, width).len() ==> complement(indices, width)[a]
                < complement(indices, width)[b],
    decreases width,
{
    if width > 0 {
        let front = complement(indices, (width - 1) as nat);
        lemma_complement_is_rest(indices, (width - 1) as nat);
        let whole = complement(indices, width);
        if !indices.contains(width - 1) {
            assert(whole[whole.len() - 1] == width - 1);
            assert forall|j: int| 0 <= j < width implies (whole.contains(j) <==> !indices.contains(
                j,
            )) by {
                if j < width - 1 {
                    if front.contains(j) {
                        let at = choose|at: int| 0 <= at < front.len() && front[at] == j;
                        assert(whole[at] == j);
                    }
                    if whole.contains(j) {
                        let at = choose|at: int| 0 <= at < whole.len() && whole[at] == j;
                        assert(front[at] == j);
                    }
                }
            }
        } else {
            assert forall|j: int| 0 <= j < width implies (whole.contains(j) <==> !indices.contains(
                j,
            )) by {
                if j == width - 1 && whole.contains(j) {
                    let at = choose|at: int| 0 <= at < whole.len() && whole[at] == j;
                    assert(front[at] < width - 1);
                }
            }
        }
    }
}

/// Every index that an expression resolves to is a column of the header,
/// whether the expression selects or excludes.
pub proof fn lemma_resolution_within(
    expression: SelectorExpressionView,
    header: Seq<Seq<u8>>,
    header_present: bool,
)
    ensures
        resolve_spec(expression, header, header_present) matches Ok(indices) ==> indices_within(
            indices,
            header.len(),
        ),
{
    lemma_resolved_within(header, header_present, expression.terms);
    if let Ok(indices) = resolve_terms(header, header_present, expression.terms) {
        lemma_complement_is_rest(indices, header.len());
    }
}

} // verus!
