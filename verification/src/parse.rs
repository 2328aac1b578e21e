//! The text form of selector expressions.
//!
//! ```text
//! expression := [ '!' ] [ term { ',' term } ]
//! term       := bound | [ bound ] '-' [ bound ]
//! bound      := position | name
//! ```
//!
//! A leading `!` makes the expression an exclusion. A bound that consists of
//! decimal digits only is a position, counted from 1; any other bound is a
//! name. The text has no quoting: a name cannot hold `,` or `-`, cannot
//! consist of digits only, and the first name cannot start with `!`. The
//! empty text is the empty expression.

use crate::error::ColumnRef;
use crate::error::ColumnRefView;
use crate::selector::bound_view;
use crate::selector::SelectorExpression;
use crate::selector::SelectorExpressionView;
use crate::selector::SelectorTerm;
use crate::selector::SelectorTermView;
use vstd::prelude::*;
use vstd::slice::slice_subrange;
use vstd::slice::slice_to_vec;

verus! {

/// The byte that separates terms.
pub const COMMA: u8 = 0x2C;

/// The byte that separates the bounds of a range.
pub const DASH: u8 = 0x2D;

/// The byte that marks an exclusion.
pub const BANG: u8 = 0x21;

/// A selector text that is not an expression.
#[derive(Debug, Clone, Copy, PartialEq, Eq, Structural)]
pub struct SyntaxError {
    /// Which term is malformed, counted from 0.
    pub term: usize,
}

/// Whether `b` is a decimal digit.
pub open spec fn is_digit(b: u8) -> bool {
    0x30 <= b <= 0x39
}

/// Whether `s` is a decimal numeral: one digit or more, and digits only.
pub open spec fn all_digits(s: Seq<u8>) -> bool {
    s.len() > 0 && forall|i: int| 0 <= i < s.len() ==> is_digit(#[trigger] s[i])
}

/// The number that a decimal numeral stands for.
pub open spec fn decimal(s: Seq<u8>) -> nat
    decreases s.len(),
{
    if s.len() == 0 {
        0
    } else {
        decimal(s.drop_last()) * 10 + (s.last() - 0x30) as nat
    }
}

/// Whether `i` is the first place at which `s` holds the byte `b`.
pub open spec fn is_first_byte(s: Seq<u8>, b: u8, i: int) -> bool {
    &&& 0 <= i < s.len()
    &&& s[i] == b
    &&& forall|j: int| 0 <= j < i ==> s[j] != b
}

/// The first place at which `s` holds the byte `b`, where it holds it.
pub open spec fn first_byte(s: Seq<u8>, b: u8) -> int {
    choose|i: int| is_first_byte(s, b, i)
}

/// The stretches of `text` between its commas, in order. A text without a
/// comma is one piece; `n` commas make `n + 1` pieces, some of them
/// possibly empty.
pub open spec fn pieces(text: Seq<u8>) -> Seq<Seq<u8>>
    decreases text.len(),
{
    if text.len() == 0 {
        seq![Seq::empty()]
    } else {
        let front = pieces(text.drop_last());
        if text.last() == COMMA {
            front.push(Seq::empty())
        } else {
            front.drop_last().push(front.last().push(text.last()))
        }
    }
}

/// The pieces put together, with a comma between each two.
pub open spec fn joined(parts: Seq<Seq<u8>>) -> Seq<u8>
    decreases parts.len(),
{
    if parts.len() == 0 {
        Seq::empty()
    } else if parts.len() == 1 {
        parts[0]
    } else {
        joined(parts.drop_last()).push(COMMA) + parts.last()
    }
}

/// The column reference that a bound stands for, or `None` for a numeral
/// that is too large to be a position.
pub open spec fn bound_spec(s: Seq<u8>) -> Option<ColumnRefView> {
    if all_digits(s) {
        if decimal(s) <= usize::MAX {
            Some(ColumnRefView::Position(decimal(s)))
        } else {
            None
        }
    } else {
        Some(ColumnRefView::Name(s))
    }
}

/// The bound of a range, which may be left out; `None` for a numeral that
/// is too large.
pub open spec fn range_bound_spec(s: Seq<u8>) -> Option<Option<ColumnRefView>> {
    if s.len() == 0 {
        Some(None)
    } else {
        match bound_spec(s) {
            Some(column) => Some(Some(column)),
            None => None,
        }
    }
}

/// The term that a piece stands for, or `None` for a piece that is no term:
/// an empty piece, a piece with more than one dash, or one with a numeral
/// that is too large.
pub open spec fn term_spec(piece: Seq<u8>) -> Option<SelectorTermView> {
    if !piece.contains(DASH) {
        if piece.len() == 0 {
            None
        } else {
            match bound_spec(piece) {
                Some(column) => Some(SelectorTermView::Column(column)),
                None => None,
            }
        }
    } else {
        let dash = first_byte(piece, DASH);
        let head = piece.subrange(0, dash);
        let tail = piece.subrange(dash + 1, piece.len() as int);
        if tail.contains(DASH) {
            None
        } else {
            match (range_bound_spec(head), range_bound_spec(tail)) {
                (Some(start), Some(end)) => Some(SelectorTermView::Range(start, end)),
                _ => None,
            }
        }
    }
}

/// Whether place `i` holds the first piece of `parts` that is no term.
pub open spec fn is_first_bad_term(parts: Seq<Seq<u8>>, i: int) -> bool {
    &&& 0 <= i < parts.len()
    &&& term_spec(parts[i]) is None
    &&& forall|j: int| 0 <= j < i ==> term_spec(#[trigger] parts[j]) is Some
}

/// The terms that a list of pieces stands for, or the place of the first
/// piece that is no term.
pub open spec fn terms_spec(parts: Seq<Seq<u8>>) -> Result<Seq<SelectorTermView>, int> {
    if exists|i: int| is_first_bad_term(parts, i) {
        Err(choose|i: int| is_first_bad_term(parts, i))
    } else {
        Ok(Seq::new(parts.len(), |i: int| term_spec(parts[i]).unwrap()))
    }
}

/// The text without its exclusion mark.
pub open spec fn body_of(text: Seq<u8>) -> Seq<u8> {
    if text.len() > 0 && text[0] == BANG {
        text.drop_first()
    } else {
        text
    }
}

/// The expression that a text stands for, or the place of its first
/// malformed term.
pub open spec fn parse_spec(text: Seq<u8>) -> Result<SelectorExpressionView, int> {
    let exclude = text.len() > 0 && text[0] == BANG;
    let body = body_of(text);
    if body.len() == 0 {
        Ok(SelectorExpressionView { terms: Seq::empty(), exclude })
    } else {
        match terms_spec(pieces(body)) {
            Ok(terms) => Ok(SelectorExpressionView { terms, exclude }),
            Err(i) => Err(i),
        }
    }
}

/// The first place of the byte `b` in `s`, if `s` holds it.
pub fn find_byte(s: &[u8], b: u8) -> (found: Option<usize>)
    ensures
        found matches Some(i) ==> is_first_byte(s@, b, i as int) && first_byte(s@, b) == i,
        found is None ==> !s@.contains(b),
{
    let n = s.len();
    let mut i: usize = 0;
    while i < n
        invariant
            n == s@.len(),
            0 <= i <= n,
            forall|j: int| 0 <= j < i ==> s@[j] != b,
        decreases n - i,
    {
        if s[i] == b {
            return Some(i);
        }
        i = i + 1;
    }
    None
}

/// Whether `s` is a decimal numeral.
pub fn is_numeral(s: &[u8]) -> (numeral: bool)
    ensures
        numeral == all_digits(s@),
{
    let n = s.len();
    if n == 0 {
        return false;
    }
    let mut i: usize = 0;
    while i < n
        invariant
            n == s@.len(),
            0 <= i <= n,
            forall|j: int| 0 <= j < i ==> is_digit(#[trigger] s@[j]),
        decreases n - i,
    {
        if s[i] < 0x30 || s[i] > 0x39 {
            return false;
        }
        i = i + 1;
    }
    true
}

/// The number that a decimal numeral stands for. There is none for a text
/// that is no numeral, nor for a numeral whose number does not fit.
pub fn parse_decimal(s: &[u8]) -> (value: Option<usize>)
    ensures
        all_digits(s@) && decimal(s@) <= usize::MAX ==> (value matches Some(v) && v == decimal(
            s@,
        )),
        !all_digits(s@) || decimal(s@) > usize::MAX ==> value is None,
{
    let n = s.len();
    if n == 0 {
        return None;
    }
    let mut value: usize = 0;
    let mut i: usize = 0;
    while i < n
        invariant
            n == s@.len(),
            0 <= i <= n,
            forall|j: int| 0 <= j < i ==> is_digit(#[trigger] s@[j]),
            value == decimal(s@.take(i as int)),
        decreases n - i,
    {
        if s[i] < 0x30 || s[i] > 0x39 {
            return None;
        }
        let digit: usize = (s[i] - 0x30) as usize;
        proof {
            assert(s@.take(i + 1).drop_last() =~= s@.take(i as int));
            lemma_decimal_prefix(s@, i + 1);
        }
        let scaled = match value.checked_mul(10) {
            Some(scaled) => scaled,
            None => {
                return None;
            },
        };
        value = match scaled.checked_add(digit) {
            Some(sum) => sum,
            None => {
                return None;
            },
        };
        i = i + 1;
    }
    assert(s@.take(n as int) =~= s@);
    Some(value)
}

/// The column reference that a bound stands for.
pub fn parse_bound(s: &[u8]) -> (bound: Option<ColumnRef>)
    ensures
        bound_spec(s@) matches Some(column) ==> (bound matches Some(found) && found@ == column),
        bound_spec(s@) is None ==> bound is None,
{
    if is_numeral(s) {
        match parse_decimal(s) {
            Some(position) => Some(ColumnRef::Position(position)),
            None => None,
        }
    } else {
        Some(ColumnRef::Name(slice_to_vec(s)))
    }
}

/// The bound of a range, which may be left out.
pub fn parse_range_bound(s: &[u8]) -> (bound: Option<Option<ColumnRef>>)
    ensures
        range_bound_spec(s@) matches Some(column) ==> (bound matches Some(found)
            && bound_view(found) == column),
        range_bound_spec(s@) is None ==> bound is None,
{
    if s.len() == 0 {
        Some(None)
    } else {
        match parse_bound(s) {
            Some(column) => Some(Some(column)),
            None => None,
        }
    }
}

/// The term that a piece stands for.
pub fn parse_term(piece: &[u8]) -> (term: Option<SelectorTerm>)
    ensures
        term_spec(piece@) matches Some(expected) ==> (term matches Some(found) && found@
            == expected),
        term_spec(piece@) is None ==> term is None,
{
    match find_byte(piece, DASH) {
        None => {
            if piece.len() == 0 {
                None
            } else {
                match parse_bound(piece) {
                    Some(column) => Some(SelectorTerm::Column(column)),
                    None => None,
                }
            }
        },
        Some(dash) => {
            assert(dash < piece.len());
            let head = slice_subrange(piece, 0, dash);
            let tail = slice_subrange(piece, dash + 1, piece.len());
            if find_byte(tail, DASH).is_some() {
                return None;
            }
            let start = match parse_range_bound(head) {
                Some(bound) => bound,
                None => {
                    return None;
                },
            };
            let end = match parse_range_bound(tail) {
                Some(bound) => bound,
                None => {
                    return None;
                },
            };
            Some(SelectorTerm::Range(start, end))
        },
    }
}

/// Reads a selector expression from its text. A text that is no expression
/// is refused with the place of its first malformed term.
pub fn parse_selector(text: &[u8]) -> (r: Result<SelectorExpression, SyntaxError>)
    ensures
        parse_spec(text@) matches Ok(expected) ==> (r matches Ok(found) && found@ == expected),
        parse_spec(text@) matches Err(i) ==> (r matches Err(error) && error.term == i),
{
    let exclude = text.len() > 0 && text[0] == BANG;
    let body = if exclude {
        slice_subrange(text, 1, text.len())
    } else {
        text
    };
    let mut terms: Vec<SelectorTerm> = Vec::new();
    let n = body.len();
    if n == 0 {
        let found = SelectorExpression { terms, exclude };
        assert(found@.terms =~= Seq::<SelectorTermView>::empty());
        return Ok(found);
    }
    let ghost mut done: Seq<Seq<u8>> = Seq::empty();
    let mut start: usize = 0;
    let mut pos: usize = 0;
    assert(body@.take(0) =~= Seq::<u8>::empty());
    while pos < n
        invariant
            n == body@.len(),
            n > 0,
            body@ == body_of(text@),
            0 <= start <= pos <= n,
            pieces(body@.take(pos as int)) == done.push(body@.subrange(start as int, pos as int)),
            terms@.len() == done.len(),
            forall|i: int|
                0 <= i < done.len() ==> term_spec(#[trigger] done[i]) == Some(terms@[i]@),
        decreases n - pos,
    {
        let ghost front = pieces(body@.take(pos as int));
        proof {
            assert(body@.take(pos + 1).drop_last() =~= body@.take(pos as int));
        }
        if body[pos] == COMMA {
            let piece = slice_subrange(body, start, pos);
            match parse_term(piece) {
                Some(term) => {
                    terms.push(term);
                },
                None => {
                    proof {
                        lemma_pieces_prefix(body@, pos as int);
                        let parts = pieces(body@);
                        assert(parts[done.len() as int] == piece@);
                        assert forall|j: int| 0 <= j < done.len() implies term_spec(
                            #[trigger] parts[j],
                        ) is Some by {
                            assert(parts[j] == done[j]);
                        }
                        assert(is_first_bad_term(parts, done.len() as int));
                    }
                    return Err(SyntaxError { term: terms.len() });
                },
            }
            proof {
                assert(body@.subrange(pos + 1, pos + 1) =~= Seq::<u8>::empty());
                assert(pieces(body@.take(pos + 1)) == front.push(Seq::<u8>::empty()));
                done = done.push(piece@);
            }
            start = pos + 1;
        } else {
            proof {
                assert(front.drop_last() =~= done);
                assert(front.last().push(body@[pos as int]) =~= body@.subrange(
                    start as int,
                    pos + 1,
                ));
            }
        }
        pos = pos + 1;
    }
    assert(body@.take(n as int) =~= body@);
    let piece = slice_subrange(body, start, n);
    let ghost parts = pieces(body@);
    match parse_term(piece) {
        Some(term) => {
            terms.push(term);
            let found = SelectorExpression { terms, exclude };
            proof {
                assert forall|j: int| 0 <= j < parts.len() implies term_spec(#[trigger] parts[j])
                    == Some(found.terms@[j]@) by {
                    if j < done.len() {
                        assert(parts[j] == done[j]);
                    }
                }
                assert(found@.terms =~= terms_spec(parts)->Ok_0);
            }
            Ok(found)
        },
        None => {
            proof {
                assert forall|j: int| 0 <= j < done.len() implies term_spec(#[trigger] parts[j])
                    is Some by {
                    assert(parts[j] == done[j]);
                }
                assert(is_first_bad_term(parts, done.len() as int));
            }
            Err(SyntaxError { term: terms.len() })
        },
    }
}

/// The number of a numeral's first digits is no larger than the number of
/// the whole numeral.
pub proof fn lemma_decimal_prefix(s: Seq<u8>, k: int)
    requires
        0 <= k <= s.len(),
    ensures
        decimal(s.take(k)) <= decimal(s),
    decreases s.len() - k,
{
    if k < s.len() {
        assert(s.take(k + 1).drop_last() =~= s.take(k));
        lemma_decimal_prefix(s, k + 1);
    } else {
        assert(s.take(k) =~= s);
    }
}

/// The pieces before a comma are settled: they are pieces of the whole
/// text, whatever follows the comma.
pub proof fn lemma_pieces_prefix(text: Seq<u8>, k: int)
    requires
        0 <= k < text.len(),
        text[k] == COMMA,
    ensures
        pieces(text.take(k)).len() < pieces(text).len(),
        forall|i: int|
            0 <= i < pieces(text.take(k)).len() ==> #[trigger] pieces(text)[i] == pieces(
                text.take(k),
            )[i],
    decreases text.len(),
{
    let front = text.drop_last();
    if k == text.len() - 1 {
        assert(front =~= text.take(k));
    } else {
        assert(front.take(k) =~= text.take(k));
        lemma_pieces_prefix(front, k);
    }
}

/// The pieces of a text hold no comma, and put together with commas between
/// them they give the text back.
pub proof fn lemma_pieces_join(text: Seq<u8>)
    ensures
        pieces(text).len() >= 1,
        forall|i: int| 0 <= i < pieces(text).len() ==> !(#[trigger] pieces(text)[i]).contains(COMMA),
        joined(pieces(text)) == text,
    decreases text.len(),
{
    if text.len() > 0 {
        let front = pieces(text.drop_last());
        lemma_pieces_join(text.drop_last());
        let parts = pieces(text);
        if text.last() == COMMA {
            assert(parts.drop_last() =~= front);
            assert(joined(parts) =~= text);
        } else {
            let grown = front.last().push(text.last());
            assert(parts.last() == grown);
            assert(parts.drop_last() =~= front.drop_last());
            assert(grown.drop_last() =~= front.last());
            assert forall|i: int| 0 <= i < parts.len() implies !(#[trigger] parts[i]).contains(
                COMMA,
            ) by {
                if i < parts.len() - 1 {
                    assert(parts[i] == front[i]);
                } else if parts[i].contains(COMMA) {
                    let at = choose|at: int| 0 <= at < grown.len() && grown[at] == COMMA;
                    assert(front.last()[at] == COMMA);
                }
            }
            if front.len() > 1 {
                let stem = joined(front.drop_last()).push(COMMA);
                assert(joined(front) == stem + front.last());
                assert(stem + grown =~= (stem + front.last()).push(text.last()));
                assert(text.drop_last().push(text.last()) =~= text);
            }
        }
    }
}

} // verus!
