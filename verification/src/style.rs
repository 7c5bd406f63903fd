//! Text styles, as produced by syntax highlighting, and their spans
//! over a line.

use crate::buffer::LineMatches;
use vstd::prelude::*;

verus! {

#[derive(Clone, Copy, Debug, Default, PartialEq, Eq, Structural)]
pub struct Color {
    pub r: u8,
    pub g: u8,
    pub b: u8,
    pub a: u8,
}

#[derive(Clone, Copy, Debug, Default, PartialEq, Eq, Structural)]
pub struct Style {
    pub foreground: Color,
    pub background: Color,
    /// Bold, underline and italic flags, as bits.
    pub font_style: u8,
}

#[derive(Clone, Copy, Debug, PartialEq, Eq, Structural)]
pub struct StyleSpan {
    pub len: usize,
    pub style: Style,
}

/// Style for a contiguous group of chars, covers the whole line.
#[derive(Debug, Default, PartialEq, Eq)]
pub struct StyledLine(pub Vec<StyleSpan>);

/// Number of chars that `spans` cover.
pub open spec fn spans_len(spans: Seq<StyleSpan>) -> nat
    decreases spans.len(),
{
    if spans.len() == 0 {
        0
    } else {
        spans[0].len as nat + spans_len(spans.drop_first())
    }
}

/// Index of the span that covers char `i`.
pub open spec fn span_index_at(spans: Seq<StyleSpan>, i: int) -> int
    decreases spans.len(),
{
    if spans.len() == 0 || i < spans[0].len {
        0
    } else {
        1 + span_index_at(spans.drop_first(), i - spans[0].len)
    }
}

/// Char `i` lies within one of the match ranges.
pub open spec fn in_match(m: Seq<core::ops::Range<usize>>, i: int) -> bool {
    exists|k: int| 0 <= k < m.len() && (#[trigger] m[k]).start <= i < m[k].end
}

/// What styles each char of the line: the index of its span, or
/// `usize::MAX` where a match covers it.
pub open spec fn char_marks(spans: Seq<StyleSpan>, m: Seq<core::ops::Range<usize>>) -> Seq<usize> {
    Seq::new(
        spans_len(spans),
        |i: int|
            if in_match(m, i) {
                usize::MAX
            } else {
                span_index_at(spans, i) as usize
            },
    )
}

/// The maximal runs of equal values of `s`, each as the value and its
/// length.
pub open spec fn runs(s: Seq<usize>) -> Seq<(usize, nat)>
    decreases s.len(),
{
    if s.len() == 0 {
        Seq::empty()
    } else {
        let r = runs(s.drop_last());
        if r.len() > 0 && r.last().0 == s.last() {
            r.update(r.len() - 1, (s.last(), r.last().1 + 1))
        } else {
            r.push((s.last(), 1))
        }
    }
}

/// The spans for runs of marks: a match run takes the match style, any
/// other the style of its span.
pub open spec fn styled_runs(r: Seq<(usize, nat)>, spans: Seq<StyleSpan>, match_style: Style) -> Seq<StyleSpan> {
    r.map_values(
        |p: (usize, nat)|
            StyleSpan {
                len: p.1 as usize,
                style: if p.0 == usize::MAX {
                    match_style
                } else {
                    spans[p.0 as int].style
                },
            },
    )
}

proof fn lemma_span_index(spans: Seq<StyleSpan>, b: int, i: int)
    requires
        0 <= b < spans.len(),
        spans_len(spans.take(b)) <= i < spans_len(spans.take(b + 1)),
    ensures
        span_index_at(spans, i) == b,
        spans_len(spans.take(b + 1)) == spans_len(spans.take(b)) + spans[b].len,
    decreases b,
{
    lemma_spans_len_take(spans, b);
    if b > 0 {
        assert(spans.drop_first().take(b - 1) =~= spans.take(b).drop_first());
        assert(spans.drop_first().take(b) =~= spans.take(b + 1).drop_first());
        assert(spans.take(b)[0] == spans[0]);
        assert(spans.take(b + 1)[0] == spans[0]);
        assert(spans.drop_first()[b - 1] == spans[b]);
        lemma_span_index(spans.drop_first(), b - 1, i - spans[0].len);
    } else {
        assert(spans.take(0) =~= Seq::<StyleSpan>::empty());
    }
}

pub proof fn lemma_spans_len_take(spans: Seq<StyleSpan>, b: int)
    requires
        0 <= b < spans.len(),
    ensures
        spans_len(spans.take(b + 1)) == spans_len(spans.take(b)) + spans[b].len,
    decreases b,
{
    if b > 0 {
        lemma_spans_len_take(spans.drop_first(), b - 1);
        assert(spans.drop_first().take(b - 1) =~= spans.take(b).drop_first());
        assert(spans.drop_first().take(b) =~= spans.take(b + 1).drop_first());
        assert(spans.take(b)[0] == spans[0]);
        assert(spans.take(b + 1)[0] == spans[0]);
        assert(spans.drop_first()[b - 1] == spans[b]);
    } else {
        assert(spans.take(1).drop_first() =~= Seq::<StyleSpan>::empty());
        assert(spans.take(0) =~= Seq::<StyleSpan>::empty());
    }
}

proof fn lemma_span_index_bound(spans: Seq<StyleSpan>, i: int)
    requires
        0 <= i < spans_len(spans),
    ensures
        0 <= span_index_at(spans, i) < spans.len(),
    decreases spans.len(),
{
    if spans.len() > 0 && i >= spans[0].len {
        lemma_span_index_bound(spans.drop_first(), i - spans[0].len);
    }
}

proof fn lemma_runs_last(s: Seq<usize>)
    requires
        s.len() > 0,
    ensures
        runs(s).len() > 0,
        runs(s).last().0 == s.last(),
{
}

/// The spans of `base_spans` with the chars inside `matches` given
/// `match_style`: each maximal run of chars that are matched, or that
/// share a base span, becomes one span.
pub fn apply_match_style(base_spans: &[StyleSpan], matches: &LineMatches, match_style: &Style) -> (res: Vec<StyleSpan>)
    requires
        spans_len(base_spans@) <= usize::MAX,
        base_spans@.len() < usize::MAX,
        forall|k: int|
            0 <= k < matches.spans@.len() ==> (#[trigger] matches.spans@[k]).start <= matches.spans@[k].end
                <= spans_len(base_spans@),
    ensures
        res@ == styled_runs(runs(char_marks(base_spans@, matches.spans@)), base_spans@, *match_style),
{
    let ghost spans = base_spans@;
    let ghost total = spans_len(spans);
    let mut output: Vec<StyleSpan> = Vec::new();
    let mut scratch: Vec<usize> = Vec::new();

    // Fill in the base indices.
    let mut base_index: usize = 0;
    proof {
        assert(spans.take(0) =~= Seq::<StyleSpan>::empty());
    }
    while base_index < base_spans.len()
        invariant
            spans == base_spans@,
            total == spans_len(spans),
            total <= usize::MAX,
            spans.len() < usize::MAX,
            base_index <= spans.len(),
            scratch@.len() == spans_len(spans.take(base_index as int)),
            forall|i: int| 0 <= i < scratch@.len() ==> #[trigger] scratch@[i] == span_index_at(spans, i),
        decreases spans.len() - base_index,
    {
        proof {
            lemma_spans_len_take(spans, base_index as int);
            assert(spans.take(base_index as int + 1).len() == base_index + 1);
            assert(spans_len(spans.take(base_index as int + 1)) <= total) by {
                lemma_spans_len_prefix(spans, base_index as int + 1);
            }
        }
        let n = base_spans[base_index].len;
        let mut j: usize = 0;
        let ghost start = scratch@.len();
        while j < n
            invariant
                spans == base_spans@,
                base_index < spans.len(),
                n == spans[base_index as int].len,
                start == spans_len(spans.take(base_index as int)),
                start + n == spans_len(spans.take(base_index as int + 1)),
                j <= n,
                scratch@.len() == start + j,
                forall|i: int| 0 <= i < scratch@.len() ==> #[trigger] scratch@[i] == span_index_at(spans, i),
            decreases n - j,
        {
            proof {
                lemma_span_index(spans, base_index as int, start + j);
            }
            scratch.push(base_index);
            j = j + 1;
        }
        base_index = base_index + 1;
    }
    proof {
        assert(spans.take(spans.len() as int) =~= spans);
    }

    // Override with match markers.
    proof {
        assert forall|i: int| 0 <= i < total implies 0 <= #[trigger] span_index_at(spans, i)
            < spans.len() by {
            lemma_span_index_bound(spans, i);
        }
    }
    let match_marker = usize::MAX;
    let ghost m = matches.spans@;
    let mut k: usize = 0;
    while k < matches.spans.len()
        invariant
            m == matches.spans@,
            scratch@.len() == total,
            total == spans_len(spans),
            k <= m.len(),
            match_marker == usize::MAX,
            spans == base_spans@,
            forall|i: int| 0 <= i < total ==> 0 <= #[trigger] span_index_at(spans, i) < spans.len(),
            spans.len() < usize::MAX,
            forall|q: int| 0 <= q < m.len() ==> (#[trigger] m[q]).start <= m[q].end <= total,
            forall|i: int|
                0 <= i < total ==> #[trigger] scratch@[i] == if in_match(m.take(k as int), i) {
                    usize::MAX
                } else {
                    span_index_at(spans, i) as usize
                },
        decreases m.len() - k,
    {
        let start = matches.spans[k].start;
        let end = matches.spans[k].end;
        let mut index = start;
        while index < end
            invariant
                m == matches.spans@,
                k < m.len(),
                start == m[k as int].start,
                end == m[k as int].end,
                start <= index <= end,
                end <= total,
                match_marker == usize::MAX,
                scratch@.len() == total,
                forall|i: int| 0 <= i < total ==> 0 <= #[trigger] span_index_at(spans, i) < spans.len(),
                spans.len() < usize::MAX,
                forall|i: int|
                    0 <= i < total ==> #[trigger] scratch@[i] == if in_match(m.take(k as int), i) || (
                    start <= i < index) {
                        usize::MAX
                    } else {
                        span_index_at(spans, i) as usize
                    },
            decreases end - index,
        {
            let ghost before = scratch@;
            scratch.set(index, match_marker);
            proof {
                assert forall|i: int| 0 <= i < total implies #[trigger] scratch@[i] == if in_match(
                    m.take(k as int),
                    i,
                ) || (start <= i < index + 1) {
                    usize::MAX
                } else {
                    span_index_at(spans, i) as usize
                } by {
                    if i != index {
                        assert(scratch@[i] == before[i]);
                        assert(before[i] == if in_match(m.take(k as int), i) || (start <= i < index) {
                            usize::MAX
                        } else {
                            span_index_at(spans, i) as usize
                        });
                    }
                }
            }
            index = index + 1;
        }
        proof {
            assert forall|i: int| 0 <= i < total implies #[trigger] scratch@[i] == if in_match(
                m.take(k as int + 1),
                i,
            ) {
                usize::MAX
            } else {
                span_index_at(spans, i) as usize
            } by {
                let mt = m.take(k as int + 1);
                if in_match(m.take(k as int), i) {
                    let q = choose|q: int|
                        0 <= q < m.take(k as int).len() && (#[trigger] m.take(k as int)[q]).start <= i
                            < m.take(k as int)[q].end;
                    assert(mt[q] == m.take(k as int)[q]);
                }
                if start <= i < end {
                    assert(mt[k as int] == m[k as int]);
                }
                if in_match(mt, i) {
                    let q = choose|q: int| 0 <= q < mt.len() && (#[trigger] mt[q]).start <= i < mt[q].end;
                    if q < k {
                        assert(m.take(k as int)[q] == mt[q]);
                    }
                }
            }
        }
        k = k + 1;
    }
    let ghost marks = scratch@;
    proof {
        assert(m.take(m.len() as int) =~= m);
        assert forall|i: int| 0 <= i < total implies (marks[i] == usize::MAX) == in_match(m, i) by {
            lemma_span_index_bound(spans, i);
        }
        assert(marks =~= char_marks(spans, m));
        assert forall|q: int| 0 <= q < marks.len() implies marks[q] == usize::MAX || 0 <= marks[q]
            < spans.len() by {
            lemma_span_index_bound(spans, q);
        }
    }

    // Go through the scratch vec and convert back to spans.
    let n = scratch.len();
    let mut span_len: usize = 0;
    let mut i: usize = 0;
    proof {
        assert(marks.take(0) =~= Seq::<usize>::empty());
    }
    while i < n
        invariant
            n == marks.len(),
            match_marker == usize::MAX,
            scratch@ == marks,
            marks == char_marks(spans, m),
            spans == base_spans@,
            forall|q: int| 0 <= q < n ==> marks[q] == usize::MAX || 0 <= marks[q] < spans.len(),
            i <= n,
            span_len <= i,
            span_len == 0 ==> output@ == styled_runs(runs(marks.take(i as int)), spans, *match_style),
            span_len == 0 && 0 < i < n ==> marks[i as int] != marks[i - 1],
            span_len > 0 ==> {
                &&& i < n
                &&& runs(marks.take(i as int)).len() > 0
                &&& output@ == styled_runs(runs(marks.take(i as int)).drop_last(), spans, *match_style)
                &&& runs(marks.take(i as int)).last() == (marks[i - 1], span_len as nat)
                &&& marks[i as int] == marks[i - 1]
            },
        decreases n - i,
    {
        let cur = scratch[i];
        let next_differs = i + 1 >= n || scratch[i + 1] != cur;
        proof {
            let t = marks.take(i as int + 1);
            assert(t.drop_last() =~= marks.take(i as int));
            assert(t.last() == marks[i as int]);
            if i > 0 {
                lemma_runs_last(marks.take(i as int));
                assert(marks.take(i as int).last() == marks[i - 1]);
            }
        }
        let ghost old_len = span_len;
        span_len = span_len + 1;
        proof {
            let t = marks.take(i as int + 1);
            let r0 = runs(marks.take(i as int));
            assert(runs(t) == (if r0.len() > 0 && r0.last().0 == t.last() {
                r0.update(r0.len() - 1, (t.last(), r0.last().1 + 1))
            } else {
                r0.push((t.last(), 1))
            }));
            if old_len == 0 {
                assert(runs(t) == r0.push((cur, 1nat)));
                assert(runs(t).drop_last() =~= r0);
            } else {
                assert(runs(t) == r0.update(r0.len() - 1, (cur, (old_len + 1) as nat)));
                assert(runs(t).drop_last() =~= r0.drop_last());
            }
            assert(runs(t).last() == (cur, span_len as nat));
        }
        if next_differs {
            let style = if cur == match_marker {
                *match_style
            } else {
                base_spans[cur].style
            };
            let ghost before = output@;
            output.push(StyleSpan { len: span_len, style });
            proof {
                let r = runs(marks.take(i as int + 1));
                assert(r =~= r.drop_last().push(r.last()));
                assert(before == styled_runs(r.drop_last(), spans, *match_style));
                assert(output@ =~= styled_runs(r, spans, *match_style));
            }
            span_len = 0;
        }
        i = i + 1;
    }
    proof {
        assert(marks.take(n as int) =~= marks);
    }
    output
}

pub proof fn lemma_spans_len_prefix(spans: Seq<StyleSpan>, b: int)
    requires
        0 <= b <= spans.len(),
    ensures
        spans_len(spans.take(b)) <= spans_len(spans),
    decreases spans.len(),
{
    if b > 0 {
        lemma_spans_len_prefix(spans.drop_first(), b - 1);
        assert(spans.drop_first().take(b - 1) =~= spans.take(b).drop_first());
        assert(spans.take(b)[0] == spans[0]);
    } else {
        assert(spans.take(0) =~= Seq::<StyleSpan>::empty());
    }
}


pub proof fn lemma_spans_len_push(a: Seq<StyleSpan>, x: StyleSpan)
    ensures
        spans_len(a.push(x)) == spans_len(a) + x.len,
    decreases a.len(),
{
    if a.len() > 0 {
        lemma_spans_len_push(a.drop_first(), x);
        assert(a.push(x).drop_first() =~= a.drop_first().push(x));
        assert(a.push(x)[0] == a[0]);
    } else {
        assert(a.push(x).drop_first() =~= Seq::<StyleSpan>::empty());
        assert(a.push(x)[0] == x);
        assert(spans_len(Seq::<StyleSpan>::empty()) == 0);
        assert(spans_len(a) == 0);
    }
}

proof fn lemma_runs_total(s: Seq<usize>, spans: Seq<StyleSpan>, match_style: Style)
    requires
        s.len() <= usize::MAX,
    ensures
        spans_len(styled_runs(runs(s), spans, match_style)) == s.len(),
        forall|k: int| 0 <= k < runs(s).len() ==> 1 <= (#[trigger] runs(s)[k]).1 <= s.len(),
    decreases s.len(),
{
    if s.len() > 0 {
        let s0 = s.drop_last();
        lemma_runs_total(s0, spans, match_style);
        let r0 = runs(s0);
        let f = |p: (usize, nat)|
            StyleSpan {
                len: p.1 as usize,
                style: if p.0 == usize::MAX {
                    match_style
                } else {
                    spans[p.0 as int].style
                },
            };
        if r0.len() > 0 && r0.last().0 == s.last() {
            let p = (s.last(), r0.last().1 + 1);
            let r = r0.update(r0.len() - 1, p);
            assert(styled_runs(r, spans, match_style) =~= styled_runs(r0.drop_last(), spans, match_style).push(f(p)));
            assert(styled_runs(r0, spans, match_style) =~= styled_runs(r0.drop_last(), spans, match_style).push(f(r0.last())));
            lemma_spans_len_push(styled_runs(r0.drop_last(), spans, match_style), f(p));
            lemma_spans_len_push(styled_runs(r0.drop_last(), spans, match_style), f(r0.last()));
        } else {
            let p = (s.last(), 1nat);
            assert(styled_runs(r0.push(p), spans, match_style) =~= styled_runs(r0, spans, match_style).push(f(p)));
            lemma_spans_len_push(styled_runs(r0, spans, match_style), f(p));
        }
    } else {
        assert(styled_runs(runs(s), spans, match_style) =~= Seq::<StyleSpan>::empty());
    }
}

/// The spans with matches styled cover the same number of chars as the
/// base spans: the whole line.
pub proof fn law_match_style_keeps_length(
    base: Seq<StyleSpan>,
    m: Seq<core::ops::Range<usize>>,
    match_style: Style,
)
    requires
        spans_len(base) <= usize::MAX,
    ensures
        spans_len(styled_runs(runs(char_marks(base, m)), base, match_style)) == spans_len(base),
{
    lemma_runs_total(char_marks(base, m), base, match_style);
}

/// A piece of a line to draw: a char range, its style, and whether it
/// is the cursor.
pub type CursorPiece = (core::ops::Range<usize>, Style, bool);

/// The style of the empty piece that shows a cursor past the end of the
/// text.
pub open spec fn plain_style() -> Style {
    Style {
        foreground: Color { r: 0, g: 0, b: 0, a: 0 },
        background: Color { r: 0, g: 0, b: 0, a: 0 },
        font_style: 0,
    }
}

/// `out` with the piece `start..end` appended when it is not empty.
pub open spec fn push_nonempty(out: Seq<CursorPiece>, start: int, end: int, style: Style, is_cursor: bool) -> Seq<
    CursorPiece,
> {
    if start < end {
        out.push((core::ops::Range { start: start as usize, end: end as usize }, style, is_cursor))
    } else {
        out
    }
}

/// The pieces of the span that starts at char `start`: the whole span,
/// or, when the cursor `c..e` starts within it, the part before the
/// cursor, the cursor, and the part after it, leaving out empty parts.
pub open spec fn span_pieces(start: int, span: StyleSpan, cursor: Option<(usize, usize)>) -> Seq<CursorPiece> {
    let end = start + span.len;
    match cursor {
        Some((c, e)) => if start <= c < end {
            push_nonempty(
                push_nonempty(push_nonempty(Seq::empty(), start, c as int, span.style, false), c as int, e as int, span.style, true),
                e as int,
                end,
                span.style,
                false,
            )
        } else {
            push_nonempty(Seq::empty(), start, end, span.style, false)
        },
        None => push_nonempty(Seq::empty(), start, end, span.style, false),
    }
}

/// The pieces of the first `k` spans, in order.
pub open spec fn pieces_upto(spans: Seq<StyleSpan>, k: int, cursor: Option<(usize, usize)>) -> Seq<CursorPiece>
    decreases k,
{
    if k <= 0 {
        Seq::empty()
    } else {
        pieces_upto(spans, k - 1, cursor) + span_pieces(spans_len(spans.take(k - 1)) as int, spans[k - 1], cursor)
    }
}

/// The pieces to draw of a line of `line_len` chars with style spans
/// `spans` and the cursor `c..e` when it is on the line; on the last line
/// of the text, a cursor at its end gets an empty piece of its own.
pub open spec fn spec_cursor_spans(
    spans: Seq<StyleSpan>,
    line_len: usize,
    cursor: Option<(usize, usize)>,
    last_line: bool,
) -> Seq<CursorPiece> {
    let p = pieces_upto(spans, spans.len() as int, cursor);
    match cursor {
        Some((c, _)) => if last_line && c == line_len {
            p.push((core::ops::Range { start: line_len, end: line_len }, plain_style(), true))
        } else {
            p
        },
        None => p,
    }
}

/// Split a line's style spans into the pieces to draw, the cursor's
/// grapheme `cursor.0..cursor.1` in a piece of its own.
pub fn cursor_spans(spans: &[StyleSpan], line_len: usize, cursor: Option<(usize, usize)>, last_line: bool) -> (res:
    Vec<CursorPiece>)
    requires
        spans_len(spans@) <= usize::MAX,
    ensures
        res@ == spec_cursor_spans(spans@, line_len, cursor, last_line),
{
    let mut out: Vec<CursorPiece> = Vec::new();
    let mut offset: usize = 0;
    let mut i: usize = 0;
    proof {
        assert(spans@.take(0) =~= Seq::<StyleSpan>::empty());
    }
    while i < spans.len()
        invariant
            i <= spans@.len(),
            spans_len(spans@) <= usize::MAX,
            offset == spans_len(spans@.take(i as int)),
            out@ == pieces_upto(spans@, i as int, cursor),
        decreases spans@.len() - i,
    {
        proof {
            lemma_spans_len_take(spans@, i as int);
            lemma_spans_len_prefix(spans@, i as int + 1);
        }
        let span = spans[i];
        let start = offset;
        let end = offset + span.len;
        let ghost before = out@;
        let mut inside = false;
        let mut cur: (usize, usize) = (0, 0);
        if let Some(c) = cursor {
            if start <= c.0 && c.0 < end {
                inside = true;
                cur = c;
            }
        }
        if inside {
            if start < cur.0 {
                out.push((start..cur.0, span.style, false));
            }
            if cur.0 < cur.1 {
                out.push((cur.0..cur.1, span.style, true));
            }
            if cur.1 < end {
                out.push((cur.1..end, span.style, false));
            }
        } else if start < end {
            out.push((start..end, span.style, false));
        }
        proof {
            assert(out@ =~= before + span_pieces(start as int, span, cursor));
        }
        offset = end;
        i = i + 1;
    }
    if let Some(c) = cursor {
        if last_line && c.0 == line_len {
            let style = Style {
                foreground: Color { r: 0, g: 0, b: 0, a: 0 },
                background: Color { r: 0, g: 0, b: 0, a: 0 },
                font_style: 0,
            };
            out.push((line_len..line_len, style, true));
        }
    }
    out
}

/// `p` covers the chars `from..to` in order, with no empty piece.
pub open spec fn tiles(p: Seq<CursorPiece>, from: int, to: int) -> bool {
    &&& p.len() == 0 ==> from == to
    &&& p.len() > 0 ==> p[0].0.start == from && p.last().0.end == to
    &&& forall|i: int| 0 <= i < p.len() ==> (#[trigger] p[i]).0.start < p[i].0.end
    &&& forall|i: int| 0 <= i < p.len() - 1 ==> #[trigger] p[i].0.end == p[i + 1].0.start
}

/// The cursor `c..e` lies within the span that holds char `c`, if any.
pub open spec fn cursor_within_span(spans: Seq<StyleSpan>, cursor: Option<(usize, usize)>) -> bool {
    cursor matches Some((c, e)) ==> {
        &&& c < e
        &&& forall|k: int|
            0 <= k < spans.len() && spans_len(spans.take(k)) <= c < spans_len(#[trigger] spans.take(k + 1))
                ==> e <= spans_len(spans.take(k + 1))
    }
}

proof fn lemma_tiles_concat(a: Seq<CursorPiece>, b: Seq<CursorPiece>, x: int, y: int, z: int)
    requires
        tiles(a, x, y),
        tiles(b, y, z),
    ensures
        tiles(a + b, x, z),
{
    let ab = a + b;
    if a.len() > 0 && b.len() > 0 {
        assert(ab[a.len() - 1] == a.last());
        assert(ab[a.len() as int] == b[0]);
        assert forall|i: int| 0 <= i < ab.len() - 1 implies #[trigger] ab[i].0.end == ab[i + 1].0.start by {
            if i < a.len() - 1 {
                assert(ab[i] == a[i] && ab[i + 1] == a[i + 1]);
            } else if i == a.len() - 1 {
            } else {
                assert(ab[i] == b[i - a.len()] && ab[i + 1] == b[i + 1 - a.len()]);
            }
        }
        assert forall|i: int| 0 <= i < ab.len() implies (#[trigger] ab[i]).0.start < ab[i].0.end by {
            if i < a.len() {
                assert(ab[i] == a[i]);
            } else {
                assert(ab[i] == b[i - a.len()]);
            }
        }
    } else if a.len() == 0 {
        assert(ab =~= b);
    } else {
        assert(ab =~= a);
    }
}

proof fn lemma_span_pieces_tile(start: int, span: StyleSpan, cursor: Option<(usize, usize)>)
    requires
        0 <= start,
        start + span.len <= usize::MAX,
        cursor matches Some((c, e)) ==> (start <= c < start + span.len ==> c < e <= start + span.len),
    ensures
        tiles(span_pieces(start, span, cursor), start, start + span.len),
        forall|i: int|
            0 <= i < span_pieces(start, span, cursor).len() && (#[trigger] span_pieces(start, span, cursor)[i]).2
                ==> (cursor matches Some((c, e)) && span_pieces(start, span, cursor)[i].0 == (core::ops::Range {
                start: c,
                end: e,
            })),
        (cursor matches Some((c, e)) && start <= c < start + span.len) ==> exists|i: int|
            0 <= i < span_pieces(start, span, cursor).len() && (#[trigger] span_pieces(start, span, cursor)[i]).2,
{
    let p = span_pieces(start, span, cursor);
    if let Some((c, e)) = cursor {
        if start <= c < start + span.len {
            let p1 = push_nonempty(Seq::empty(), start, c as int, span.style, false);
            let p2 = push_nonempty(p1, c as int, e as int, span.style, true);
            assert(p2.last().2);
        }
    }
}

/// Where the cursor's grapheme lies within one span, the pieces cover the
/// spans' chars in order, and the one piece marked as the cursor, when
/// the cursor starts within the spans, is exactly the cursor's range.
pub proof fn law_cursor_pieces_tile(spans: Seq<StyleSpan>, k: int, cursor: Option<(usize, usize)>)
    requires
        0 <= k <= spans.len(),
        spans_len(spans) <= usize::MAX,
        cursor_within_span(spans, cursor),
    ensures
        tiles(pieces_upto(spans, k, cursor), 0, spans_len(spans.take(k)) as int),
        forall|i: int|
            0 <= i < pieces_upto(spans, k, cursor).len() && (#[trigger] pieces_upto(spans, k, cursor)[i]).2
                ==> (cursor matches Some((c, e)) && pieces_upto(spans, k, cursor)[i].0 == (core::ops::Range {
                start: c,
                end: e,
            })),
        (cursor matches Some((c, e)) && c < spans_len(spans.take(k))) ==> exists|i: int|
            0 <= i < pieces_upto(spans, k, cursor).len() && (#[trigger] pieces_upto(spans, k, cursor)[i]).2,
    decreases k,
{
    if k == 0 {
        assert(spans.take(0) =~= Seq::<StyleSpan>::empty());
    } else {
        law_cursor_pieces_tile(spans, k - 1, cursor);
        lemma_spans_len_take(spans, k - 1);
        lemma_spans_len_prefix(spans, k);
        let start = spans_len(spans.take(k - 1)) as int;
        let a = pieces_upto(spans, k - 1, cursor);
        let b = span_pieces(start, spans[k - 1], cursor);
        lemma_span_pieces_tile(start, spans[k - 1], cursor);
        lemma_tiles_concat(a, b, 0, start, spans_len(spans.take(k)) as int);
        let ab = a + b;
        assert(pieces_upto(spans, k, cursor) == ab);
        assert forall|i: int| 0 <= i < ab.len() && (#[trigger] ab[i]).2 implies (cursor matches Some((c, e))
            && ab[i].0 == (core::ops::Range { start: c, end: e })) by {
            if i < a.len() {
                assert(ab[i] == a[i]);
            } else {
                assert(ab[i] == b[i - a.len()]);
            }
        }
        if let Some((c, e)) = cursor {
            if c < spans_len(spans.take(k)) {
                if c < start {
                    let i = choose|i: int| 0 <= i < a.len() && (#[trigger] a[i]).2;
                    assert(ab[i] == a[i]);
                } else {
                    let j = choose|j: int| 0 <= j < b.len() && (#[trigger] b[j]).2;
                    assert(ab[a.len() + j] == b[j]);
                }
            }
        }
    }
}

} // verus!
