//! Grapheme cluster boundaries within rope slices.
//!
//! Boundaries are char indices. The clusters of a text come from
//! `unicode-segmentation` (extended clusters); a boundary is the start
//! of the text or the end of a cluster.

use crate::rope::{RelChar, RopeSlice};
use unicode_segmentation::UnicodeSegmentation;
use vstd::prelude::*;

verus! {

/// The extended grapheme clusters of `s`, in order.
pub uninterp spec fn grapheme_clusters(s: Seq<char>) -> Seq<Seq<char>>;

/// `UnicodeSegmentation::graphemes(s, true)`, collected: the extended
/// grapheme clusters of `s` in order. unicode-segmentation documents
/// that they split the string, so each is non-empty and together they
/// make up `s`.
#[verifier::external_body]
fn split_graphemes(s: &str) -> (res: Vec<&str>)
    ensures
        res@.map_values(|g: &str| g@) == grapheme_clusters(s@),
        res@.map_values(|g: &str| g@).flatten() == s@,
        forall|i: int| 0 <= i < res@.len() ==> (#[trigger] res@[i])@.len() > 0,
{
    s.graphemes(true).collect()
}

/// Total number of chars in `pieces`.
pub open spec fn total_len(pieces: Seq<Seq<char>>) -> nat
    decreases pieces.len(),
{
    if pieces.len() == 0 {
        0
    } else {
        pieces[0].len() + total_len(pieces.drop_first())
    }
}

/// Number of chars in the first `n` pieces.
pub open spec fn width_of_first(pieces: Seq<Seq<char>>, n: int) -> nat
    decreases pieces.len(),
{
    if n <= 0 || pieces.len() == 0 {
        0
    } else {
        pieces[0].len() + width_of_first(pieces.drop_first(), n - 1)
    }
}

/// The first boundary after char `i` (the end for `i` at or past it).
pub open spec fn next_boundary(pieces: Seq<Seq<char>>, i: int) -> int
    decreases pieces.len(),
{
    if pieces.len() == 0 {
        0
    } else if i < pieces[0].len() {
        pieces[0].len() as int
    } else {
        pieces[0].len() + next_boundary(pieces.drop_first(), i - pieces[0].len())
    }
}

/// The last boundary before char `i` (the start for `i` at or before
/// it).
pub open spec fn prev_boundary(pieces: Seq<Seq<char>>, i: int) -> int
    decreases pieces.len(),
{
    if pieces.len() == 0 {
        0
    } else if i <= pieces[0].len() {
        0
    } else {
        pieces[0].len() + prev_boundary(pieces.drop_first(), i - pieces[0].len())
    }
}

/// Number of pieces that start before char `off`.
pub open spec fn pieces_before(pieces: Seq<Seq<char>>, off: int) -> nat
    decreases pieces.len(),
{
    if pieces.len() == 0 || off <= 0 {
        0
    } else {
        1 + pieces_before(pieces.drop_first(), off - pieces[0].len())
    }
}

/// Every piece holds at least one char.
pub open spec fn nonempty_pieces(pieces: Seq<Seq<char>>) -> bool {
    forall|i: int| 0 <= i < pieces.len() ==> (#[trigger] pieces[i]).len() > 0
}

pub proof fn lemma_total_len_flatten(pieces: Seq<Seq<char>>)
    ensures
        total_len(pieces) == pieces.flatten().len(),
    decreases pieces.len(),
{
    if pieces.len() > 0 {
        lemma_total_len_flatten(pieces.drop_first());
    }
}

/// The next boundary lies after `i` within the text when `i` is before
/// the end, and at the end otherwise.
pub proof fn lemma_next_boundary_bounds(pieces: Seq<Seq<char>>, i: int)
    requires
        nonempty_pieces(pieces),
        0 <= i,
    ensures
        i < total_len(pieces) ==> i < next_boundary(pieces, i) <= total_len(pieces),
        i >= total_len(pieces) ==> next_boundary(pieces, i) == total_len(pieces),
    decreases pieces.len(),
{
    if pieces.len() > 0 && i >= pieces[0].len() {
        assert(nonempty_pieces(pieces.drop_first())) by {
            assert forall|j: int| 0 <= j < pieces.drop_first().len() implies (
            #[trigger] pieces.drop_first()[j]).len() > 0 by {
                assert(pieces.drop_first()[j] == pieces[j + 1]);
            }
        }
        lemma_next_boundary_bounds(pieces.drop_first(), i - pieces[0].len());
    }
}

/// The previous boundary lies before `i` when `i` is after the start.
pub proof fn lemma_prev_boundary_bounds(pieces: Seq<Seq<char>>, i: int)
    requires
        nonempty_pieces(pieces),
        0 <= i,
    ensures
        0 <= prev_boundary(pieces, i),
        i > 0 ==> prev_boundary(pieces, i) < i,
        prev_boundary(pieces, i) <= total_len(pieces),
    decreases pieces.len(),
{
    if pieces.len() > 0 && i > pieces[0].len() {
        assert(nonempty_pieces(pieces.drop_first())) by {
            assert forall|j: int| 0 <= j < pieces.drop_first().len() implies (
            #[trigger] pieces.drop_first()[j]).len() > 0 by {
                assert(pieces.drop_first()[j] == pieces[j + 1]);
            }
        }
        lemma_prev_boundary_bounds(pieces.drop_first(), i - pieces[0].len());
    }
}

pub proof fn lemma_skip_unfold(pieces: Seq<Seq<char>>, k: int)
    requires
        0 <= k < pieces.len(),
    ensures
        pieces.skip(k).len() > 0,
        pieces.skip(k)[0] == pieces[k],
        pieces.skip(k).drop_first() == pieces.skip(k + 1),
{
    assert(pieces.skip(k).drop_first() =~= pieces.skip(k + 1));
}

pub proof fn lemma_width_of_first_step(pieces: Seq<Seq<char>>, k: int)
    requires
        0 <= k < pieces.len(),
    ensures
        width_of_first(pieces, k + 1) == width_of_first(pieces, k) + pieces[k].len(),
    decreases k,
{
    if k > 0 {
        assert(pieces.drop_first()[k - 1] == pieces[k]);
        lemma_width_of_first_step(pieces.drop_first(), k - 1);
        assert(width_of_first(pieces, k + 1) == pieces[0].len() + width_of_first(
            pieces.drop_first(),
            k,
        ));
        assert(width_of_first(pieces, k) == pieces[0].len() + width_of_first(
            pieces.drop_first(),
            k - 1,
        ));
    } else {
        assert(width_of_first(pieces.drop_first(), 0) == 0);
    }
}

pub proof fn lemma_width_of_first_all(pieces: Seq<Seq<char>>, n: int)
    requires
        n >= pieces.len(),
    ensures
        width_of_first(pieces, n) == total_len(pieces),
    decreases pieces.len(),
{
    if pieces.len() > 0 {
        lemma_width_of_first_all(pieces.drop_first(), n - 1);
    }
}

proof fn lemma_total_len_split(pieces: Seq<Seq<char>>, k: int)
    requires
        0 <= k <= pieces.len(),
    ensures
        total_len(pieces) == width_of_first(pieces, k) + total_len(pieces.skip(k)),
    decreases k,
{
    if k > 0 {
        lemma_total_len_split(pieces.drop_first(), k - 1);
        assert(pieces.drop_first().skip(k - 1) =~= pieces.skip(k));
    } else {
        assert(pieces.skip(0) =~= pieces);
    }
}

proof fn lemma_nonempty_drop_first(pieces: Seq<Seq<char>>)
    requires
        nonempty_pieces(pieces),
        pieces.len() > 0,
    ensures
        nonempty_pieces(pieces.drop_first()),
{
    assert forall|j: int| 0 <= j < pieces.drop_first().len() implies (
    #[trigger] pieces.drop_first()[j]).len() > 0 by {
        assert(pieces.drop_first()[j] == pieces[j + 1]);
    }
}

/// From the end of the first `n` pieces, the next boundary is the end of
/// piece `n`, or the end of the text when there is none.
pub proof fn lemma_next_at_boundary(pieces: Seq<Seq<char>>, n: int)
    requires
        nonempty_pieces(pieces),
        0 <= n,
    ensures
        n < pieces.len() ==> next_boundary(pieces, width_of_first(pieces, n) as int)
            == width_of_first(pieces, n + 1),
        n >= pieces.len() ==> next_boundary(pieces, width_of_first(pieces, n) as int)
            == total_len(pieces),
    decreases pieces.len(),
{
    if pieces.len() > 0 {
        lemma_nonempty_drop_first(pieces);
        if n > 0 {
            lemma_next_at_boundary(pieces.drop_first(), n - 1);
            assert(pieces[0].len() > 0);
        } else {
            assert(pieces[0].len() > 0);
            assert(width_of_first(pieces.drop_first(), 0) == 0);
        }
    }
}

/// The first `k` pieces hold at least `k` chars, fewer than the whole
/// text while pieces remain, and all of it once none remain.
pub proof fn lemma_width_lt_total(pieces: Seq<Seq<char>>, k: int)
    requires
        nonempty_pieces(pieces),
        0 <= k,
    ensures
        k < pieces.len() ==> width_of_first(pieces, k) < total_len(pieces),
        k >= pieces.len() ==> width_of_first(pieces, k) == total_len(pieces),
        k <= pieces.len() ==> width_of_first(pieces, k) >= k,
    decreases pieces.len(),
{
    if pieces.len() > 0 {
        lemma_nonempty_drop_first(pieces);
        assert(pieces[0].len() > 0);
        if k > 0 {
            lemma_width_lt_total(pieces.drop_first(), k - 1);
        } else {
            assert(total_len(pieces) >= pieces[0].len());
        }
    }
}

/// The first `n` pieces hold no more than the whole text.
pub proof fn lemma_width_le_total(pieces: Seq<Seq<char>>, n: int)
    ensures
        width_of_first(pieces, n) <= total_len(pieces),
    decreases pieces.len(),
{
    if pieces.len() > 0 && n > 0 {
        lemma_width_le_total(pieces.drop_first(), n - 1);
    }
}

/// Counting the pieces that start before `off`, from piece `n` on, when
/// piece `n` starts before `off`.
pub proof fn lemma_pieces_before_step(pieces: Seq<Seq<char>>, n: int, off: int)
    requires
        0 <= n < pieces.len(),
        width_of_first(pieces, n) < off,
    ensures
        pieces_before(pieces.skip(n), off - width_of_first(pieces, n)) == 1 + pieces_before(
            pieces.skip(n + 1),
            off - width_of_first(pieces, n + 1),
        ),
{
    lemma_skip_unfold(pieces, n);
    lemma_width_of_first_step(pieces, n);
}

/// At a grapheme boundary, counting the graphemes before it and then
/// taking that many graphemes from the start of the line lands on the
/// same boundary: a cursor that moves to another line and back keeps its
/// column.
pub proof fn law_grapheme_column_round_trip(pieces: Seq<Seq<char>>, n: int)
    requires
        nonempty_pieces(pieces),
        0 <= n <= pieces.len(),
    ensures
        pieces_before(pieces, width_of_first(pieces, n) as int) == n,
        width_of_first(pieces, pieces_before(pieces, width_of_first(pieces, n) as int) as int)
            == width_of_first(pieces, n),
    decreases pieces.len(),
{
    if n > 0 {
        lemma_nonempty_drop_first(pieces);
        assert(pieces[0].len() > 0);
        law_grapheme_column_round_trip(pieces.drop_first(), n - 1);
    }
}

/// The first grapheme boundary after char `char_idx` of `slice`; the end
/// of the slice when `char_idx` is at or past it.
pub fn next_grapheme_boundary(slice: &RopeSlice, char_idx: usize) -> (res: RelChar)
    ensures
        res.0 == next_boundary(grapheme_clusters(slice@), char_idx as int),
        char_idx < slice@.len() ==> char_idx < res.0 <= slice@.len(),
        char_idx >= slice@.len() ==> res.0 == slice@.len(),
        nonempty_pieces(grapheme_clusters(slice@)),
        total_len(grapheme_clusters(slice@)) == slice@.len(),
{
    let len_chars = slice.len_chars();
    let s = slice.to_string();
    let gs = split_graphemes(s.as_str());
    let ghost pieces = gs@.map_values(|g: &str| g@);
    proof {
        lemma_total_len_flatten(pieces);
        assert(pieces.skip(0) =~= pieces);
        assert(nonempty_pieces(pieces)) by {
            assert forall|i: int| 0 <= i < pieces.len() implies (#[trigger] pieces[i]).len() > 0 by {
                assert(pieces[i] == gs@[i]@);
            }
        }
        lemma_next_boundary_bounds(pieces, char_idx as int);
        lemma_prev_boundary_bounds(pieces, char_idx as int);
    }
    let mut acc: usize = 0;
    let mut k: usize = 0;
    while k < gs.len()
        invariant
            pieces == gs@.map_values(|g: &str| g@),
            pieces == grapheme_clusters(slice@),
            total_len(pieces) == len_chars,
            len_chars == slice@.len(),
            nonempty_pieces(pieces),
            char_idx < total_len(pieces) ==> char_idx < next_boundary(pieces, char_idx as int)
                <= total_len(pieces),
            char_idx >= total_len(pieces) ==> next_boundary(pieces, char_idx as int) == total_len(
                pieces,
            ),
            k <= gs@.len(),
            acc == width_of_first(pieces, k as int),
            acc <= char_idx,
            next_boundary(pieces, char_idx as int) == acc + next_boundary(
                pieces.skip(k as int),
                char_idx - acc,
            ),
        decreases gs@.len() - k,
    {
        let w = gs[k].unicode_len();
        proof {
            lemma_skip_unfold(pieces, k as int);
            lemma_width_of_first_step(pieces, k as int);
            lemma_total_len_split(pieces, k as int + 1);
        }
        if char_idx < acc + w {
            return RelChar(acc + w);
        }
        acc = acc + w;
        k = k + 1;
    }
    proof {
        assert(pieces.skip(k as int).len() == 0);
    }
    RelChar(acc)
}

/// The last grapheme boundary before char `char_idx` of `slice`; the
/// start when `char_idx` is at it.
pub fn prev_grapheme_boundary(slice: &RopeSlice, char_idx: usize) -> (res: RelChar)
    ensures
        res.0 == prev_boundary(grapheme_clusters(slice@), char_idx as int),
        char_idx > 0 ==> res.0 < char_idx,
        res.0 <= slice@.len(),
        nonempty_pieces(grapheme_clusters(slice@)),
        total_len(grapheme_clusters(slice@)) == slice@.len(),
{
    let len_chars = slice.len_chars();
    let s = slice.to_string();
    let gs = split_graphemes(s.as_str());
    let ghost pieces = gs@.map_values(|g: &str| g@);
    proof {
        lemma_total_len_flatten(pieces);
        assert(pieces.skip(0) =~= pieces);
        assert(nonempty_pieces(pieces)) by {
            assert forall|i: int| 0 <= i < pieces.len() implies (#[trigger] pieces[i]).len() > 0 by {
                assert(pieces[i] == gs@[i]@);
            }
        }
        lemma_next_boundary_bounds(pieces, char_idx as int);
        lemma_prev_boundary_bounds(pieces, char_idx as int);
    }
    let mut acc: usize = 0;
    let mut k: usize = 0;
    while k < gs.len()
        invariant
            pieces == gs@.map_values(|g: &str| g@),
            pieces == grapheme_clusters(slice@),
            total_len(pieces) == len_chars,
            len_chars == slice@.len(),
            nonempty_pieces(pieces),
            0 <= prev_boundary(pieces, char_idx as int) <= total_len(pieces),
            char_idx > 0 ==> prev_boundary(pieces, char_idx as int) < char_idx,
            k <= gs@.len(),
            acc == width_of_first(pieces, k as int),
            acc < char_idx || (k == 0 && acc == 0),
            prev_boundary(pieces, char_idx as int) == acc + prev_boundary(
                pieces.skip(k as int),
                char_idx - acc,
            ),
        decreases gs@.len() - k,
    {
        let w = gs[k].unicode_len();
        proof {
            lemma_skip_unfold(pieces, k as int);
            lemma_width_of_first_step(pieces, k as int);
            lemma_total_len_split(pieces, k as int + 1);
        }
        if char_idx <= acc + w {
            return RelChar(acc);
        }
        acc = acc + w;
        k = k + 1;
    }
    proof {
        assert(pieces.skip(k as int).len() == 0);
    }
    RelChar(acc)
}

} // verus!
