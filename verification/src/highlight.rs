//! Syntax highlighting of a buffer's lines into style spans, by the
//! `syntect` crate.
use crate::buffer::Buffer;
use crate::rope::{byte_to_char_index, line_text, spec_len_lines, utf8_len, utf8_width, AbsLine, Rope};
use crate::style::{lemma_spans_len_push, spans_len, Color, Style, StyleSpan, StyledLine};
use syntect::highlighting::{
    HighlightState, Highlighter, RangedHighlightIterator, Style as SyntectStyle,
    Theme as SyntectTheme,
};
use syntect::parsing::{ParseState, ParsingError, ScopeStack, ScopeStackOp, SyntaxReference, SyntaxSet};
use vstd::prelude::*;

verus! {

#[verifier::external_type_specification]
#[verifier::external_body]
pub struct ExSyntaxSet(SyntaxSet);

#[verifier::external_type_specification]
#[verifier::external_body]
pub struct ExSyntaxReference(SyntaxReference);

#[verifier::external_type_specification]
#[verifier::external_body]
pub struct ExSyntectTheme(SyntectTheme);

#[verifier::external_type_specification]
#[verifier::external_body]
pub struct ExParseState(ParseState);

#[verifier::external_type_specification]
#[verifier::external_body]
pub struct ExParsingError(ParsingError);

#[verifier::external_type_specification]
#[verifier::external_body]
pub struct ExScopeStackOp(ScopeStackOp);

#[verifier::external_type_specification]
#[verifier::external_body]
pub struct ExHighlightState(HighlightState);

#[verifier::external_type_specification]
#[verifier::external_body]
pub struct ExHighlighter<'a>(Highlighter<'a>);

#[verifier::external_type_specification]
#[verifier::external_body]
pub struct ExSyntectStyle(SyntectStyle);

/// The syntax named `name` in `set` (the last added, where several share
/// the name).
pub uninterp spec fn syntax_named(set: SyntaxSet, name: Seq<char>) -> Option<SyntaxReference>;

/// `SyntaxSet::find_syntax_by_name`: the syntax of the set with this
/// name, if any; syntect searches from the last one added.
#[verifier::external_body]
fn find_syntax<'a>(set: &'a SyntaxSet, name: &str) -> (res: Option<&'a SyntaxReference>)
    ensures
        res is Some <==> syntax_named(*set, name@) is Some,
        res matches Some(r) ==> syntax_named(*set, name@) == Some(*r),
{
    set.find_syntax_by_name(name)
}

/// Whether `set` holds a syntax named `name`.
pub fn has_syntax(set: &SyntaxSet, name: &str) -> (res: bool)
    ensures
        res == syntax_named(*set, name@) is Some,
{
    find_syntax(set, name).is_some()
}

/// The parser state at the start of a text in `syntax`.
pub uninterp spec fn initial_parse_state(syntax: SyntaxReference) -> ParseState;

/// `ParseState::new`: the parser state at the start of a text in
/// `syntax`.
#[verifier::external_body]
fn new_parse_state(syntax: &SyntaxReference) -> (res: ParseState)
    ensures
        res == initial_parse_state(*syntax),
{
    ParseState::new(syntax)
}

/// What parsing `line` from `state` with the syntaxes of `set` gives: the
/// next state, and the scope changes within the line or the error.
pub uninterp spec fn parse_step(state: ParseState, line: Seq<char>, set: SyntaxSet) -> (
    ParseState,
    Result<Seq<(usize, ScopeStackOp)>, ParsingError>,
);

/// Byte `b` of the utf8 encoding of `line` starts a char or ends the
/// line.
pub open spec fn byte_boundary(line: Seq<char>, b: int) -> bool {
    exists|k: int| 0 <= k <= line.len() && b == utf8_len(#[trigger] line.take(k))
}

/// The scope changes lie within `line`, at char boundaries, in the order
/// of their positions.
pub open spec fn changes_in_line(changes: Seq<(usize, ScopeStackOp)>, line: Seq<char>) -> bool {
    &&& forall|i: int| 0 <= i < changes.len() ==> byte_boundary(line, #[trigger] changes[i].0 as int)
    &&& forall|i: int, j: int| 0 <= i < j < changes.len() ==> #[trigger] changes[i].0 <= #[trigger] changes[j].0
}

/// The state after parsing `lines` one after another from `init`.
pub open spec fn parse_run(init: ParseState, lines: Seq<Seq<char>>, set: SyntaxSet) -> ParseState
    decreases lines.len(),
{
    if lines.len() == 0 {
        init
    } else {
        parse_step(parse_run(init, lines.drop_last(), set), lines.last(), set).0
    }
}

/// `state` was reached by parsing lines from the start of a text in a
/// syntax of `set`, so that the contexts it refers to are those of `set`.
pub open spec fn parser_in(state: ParseState, set: SyntaxSet) -> bool {
    exists|name: Seq<char>, lines: Seq<Seq<char>>|
        syntax_named(set, name) is Some && state == #[trigger] parse_run(
            initial_parse_state(syntax_named(set, name)->0),
            lines,
            set,
        )
}

/// `ParseState::parse_line`. Its documentation asks for the syntax set
/// that held the state's syntax, and says that the changes come in order
/// of their positions; the positions are those of regular expression
/// matches within the line.
#[verifier::external_body]
fn parse_line(state: &mut ParseState, line: &str, syntax_set: &SyntaxSet) -> (res: Result<
    Vec<(usize, ScopeStackOp)>,
    ParsingError,
>)
    requires
        parser_in(*old(state), *syntax_set),
    ensures
        *final(state) == parse_step(*old(state), line@, *syntax_set).0,
        parse_step(*old(state), line@, *syntax_set).1 == (match res {
            Ok(v) => Ok(v@),
            Err(e) => Err(e),
        }),
        res matches Ok(v) ==> changes_in_line(v@, line@),
{
    state.parse_line(line, syntax_set)
}

/// The theme that a highlighter was made for.
pub uninterp spec fn highlighter_theme(h: Highlighter) -> SyntectTheme;

/// `Highlighter::new`: the highlighter for `theme`.
#[verifier::external_body]
fn new_highlighter<'a>(theme: &'a SyntectTheme) -> (res: Highlighter<'a>)
    ensures
        highlighter_theme(res) == *theme,
{
    Highlighter::new(theme)
}

/// The highlighting state at the start of a text, for `theme`.
pub uninterp spec fn initial_highlight_state(theme: SyntectTheme) -> HighlightState;

/// `HighlightState::new`, with an empty `ScopeStack` as the stack to
/// start from: the highlighting state at the start of a text.
#[verifier::external_body]
fn new_highlight_state(highlighter: &Highlighter) -> (res: HighlightState)
    ensures
        res == initial_highlight_state(highlighter_theme(*highlighter)),
{
    HighlightState::new(highlighter, ScopeStack::new())
}

/// What highlighting `line` with scope changes `changes` from `state`
/// with `theme` gives: the next state, and the pieces of the line with
/// their styles and byte ranges.
pub uninterp spec fn highlight_step(
    state: HighlightState,
    changes: Seq<(usize, ScopeStackOp)>,
    line: Seq<char>,
    theme: SyntectTheme,
) -> (HighlightState, Seq<(SyntectStyle, usize, usize)>);

/// The pieces of a line with their styles, as byte ranges.
pub open spec fn pieces_chain<S>(pieces: Seq<(S, usize, usize)>, len: nat) -> bool {
    &&& pieces.len() > 0 ==> pieces[0].1 == 0
    &&& forall|i: int| 0 <= i < pieces.len() ==> #[trigger] pieces[i].1 <= pieces[i].2 <= len
    &&& forall|i: int| 0 < i < pieces.len() ==> #[trigger] pieces[i].1 == pieces[i - 1].2
}

/// `RangedHighlightIterator`, run to its end: the pieces of `line`, each
/// with its style and its byte range. Its source yields each range from
/// where the one before ended, starting at 0, up to the position of the
/// next scope change or the end of the line, and slices the line at those
/// positions, which `changes` must keep in order and at char boundaries.
/// It stops early when a change does not apply to the scope stack, so
/// that the pieces reach the end of the line is not stated.
#[verifier::external_body]
fn ranged_highlights(
    state: &mut HighlightState,
    changes: &Vec<(usize, ScopeStackOp)>,
    line: &str,
    highlighter: &Highlighter,
) -> (res: Vec<(SyntectStyle, usize, usize)>)
    requires
        changes_in_line(changes@, line@),
    ensures
        (*final(state), res@) == highlight_step(
            *old(state),
            changes@,
            line@,
            highlighter_theme(*highlighter),
        ),
        pieces_chain(res@, utf8_len(line@)),
{
    RangedHighlightIterator::new(state, changes, line, highlighter).map(
        |(s, _text, r)| (s, r.start, r.end),
    ).collect()
}

/// The colors and font flags of a syntect style.
pub uninterp spec fn syntect_style_of(s: SyntectStyle) -> Style;

/// The fields of a syntect `Style`, copied one by one.
#[verifier::external_body]
fn style_of(s: &SyntectStyle) -> (res: Style)
    ensures
        res == syntect_style_of(*s),
{
    let (f, b) = (s.foreground, s.background);
    Style {
        foreground: Color { r: f.r, g: f.g, b: f.b, a: f.a },
        background: Color { r: b.r, g: b.g, b: b.b, a: b.a },
        font_style: s.font_style.bits(),
    }
}

/// Why a buffer could not be highlighted.
#[derive(Debug)]
pub enum HighlightError {
    /// The parser failed on a line.
    Parse(ParsingError),
    /// The syntax set holds no syntax of the name asked for.
    UnknownSyntax,
}

/// The char index of a byte index grows with it.
pub proof fn lemma_byte_to_char_monotone(s: Seq<char>, b1: int, b2: int)
    requires
        b1 <= b2,
    ensures
        byte_to_char_index(s, b1) <= byte_to_char_index(s, b2),
    decreases s.len(),
{
    if s.len() > 0 && b1 >= utf8_width(s[0]) {
        lemma_byte_to_char_monotone(s.drop_first(), b1 - utf8_width(s[0]), b2 - utf8_width(s[0]));
    }
}

/// The char index of a byte index is at most the number of chars.
pub proof fn lemma_byte_to_char_bound(s: Seq<char>, b: int)
    ensures
        byte_to_char_index(s, b) <= s.len(),
    decreases s.len(),
{
    if s.len() > 0 && b >= utf8_width(s[0]) {
        lemma_byte_to_char_bound(s.drop_first(), b - utf8_width(s[0]));
    }
}

/// The style spans of one line: each piece of `pieces`, as chars.
fn spans_of_line(line: &str, text: &crate::rope::RopeSlice, pieces: &Vec<(SyntectStyle, usize, usize)>) -> (res:
    StyledLine)
    requires
        line@ == text@,
        pieces_chain(pieces@, utf8_len(line@)),
    ensures
        res.0@ == piece_spans(line@, pieces@),
        res.0@.len() == pieces@.len(),
        spans_len(res.0@) <= line@.len(),
        forall|i: int|
            0 <= i < pieces@.len() ==> {
                &&& (#[trigger] res.0@[i]).style == syntect_style_of(pieces@[i].0)
                &&& res.0@[i].len == byte_to_char_index(line@, pieces@[i].2 as int)
                    - byte_to_char_index(line@, pieces@[i].1 as int)
            },
{
    let mut spans: Vec<StyleSpan> = Vec::new();
    let mut i: usize = 0;
    while i < pieces.len()
        invariant
            line@ == text@,
            pieces_chain(pieces@, utf8_len(line@)),
            i <= pieces@.len(),
            spans@.len() == i,
            spans_len(spans@) == (if i == 0 {
                0
            } else {
                byte_to_char_index(line@, pieces@[i - 1].2 as int)
            }),
            forall|k: int|
                0 <= k < i ==> {
                    &&& (#[trigger] spans@[k]).style == syntect_style_of(pieces@[k].0)
                    &&& spans@[k].len == byte_to_char_index(line@, pieces@[k].2 as int)
                        - byte_to_char_index(line@, pieces@[k].1 as int)
                },
        decreases pieces@.len() - i,
    {
        let style = style_of(&pieces[i].0);
        let start = pieces[i].1;
        let end = pieces[i].2;
        let c_start = text.byte_to_char(start);
        let c_end = text.byte_to_char(end);
        proof {
            lemma_byte_to_char_monotone(line@, start as int, end as int);
            lemma_spans_len_push(spans@, StyleSpan { len: (c_end - c_start) as usize, style });
        }
        spans.push(StyleSpan { len: c_end - c_start, style });
        i = i + 1;
    }
    proof {
        if i > 0 {
            lemma_byte_to_char_bound(line@, pieces@[i - 1].2 as int);
        }
        assert(spans@ =~= piece_spans(line@, pieces@));
    }
    StyledLine(spans)
}

/// The style spans of a line from its highlighted pieces: a piece's
/// style, converted, over the chars of its byte range.
pub open spec fn piece_spans(line: Seq<char>, pieces: Seq<(SyntectStyle, usize, usize)>) -> Seq<StyleSpan> {
    Seq::new(
        pieces.len(),
        |i: int|
            StyleSpan {
                len: (byte_to_char_index(line, pieces[i].2 as int) - byte_to_char_index(
                    line,
                    pieces[i].1 as int,
                )) as usize,
                style: syntect_style_of(pieces[i].0),
            },
    )
}

/// The lines of `t`, each with its line break.
pub open spec fn lines_of(t: Seq<char>) -> Seq<Seq<char>> {
    Seq::new(spec_len_lines(t), |l: int| line_text(t, l as nat))
}

/// Highlighting `lines` one after another, from `init` and the start
/// state for `theme`: the last highlighting state and the pieces of each
/// line, or nothing when the parser fails on a line.
pub open spec fn highlight_run(
    init: ParseState,
    set: SyntaxSet,
    theme: SyntectTheme,
    lines: Seq<Seq<char>>,
) -> Option<(HighlightState, Seq<Seq<(SyntectStyle, usize, usize)>>)>
    decreases lines.len(),
{
    if lines.len() == 0 {
        Some((initial_highlight_state(theme), Seq::empty()))
    } else {
        match highlight_run(init, set, theme, lines.drop_last()) {
            None => None,
            Some(r) => match parse_step(parse_run(init, lines.drop_last(), set), lines.last(), set).1 {
                Err(_) => None,
                Ok(changes) => {
                    let h = highlight_step(r.0, changes, lines.last(), theme);
                    Some((h.0, r.1.push(h.1)))
                },
            },
        }
    }
}

/// The style spans of each line of `t`, highlighted in the syntax named
/// `name` of `set` with `theme`; nothing when the parser fails on a line.
pub open spec fn highlighted_lines(t: Seq<char>, set: SyntaxSet, name: Seq<char>, theme: SyntectTheme) -> Option<
    Seq<Seq<StyleSpan>>,
> {
    match highlight_run(initial_parse_state(syntax_named(set, name)->0), set, theme, lines_of(t)) {
        Some(r) => Some(Seq::new(r.1.len(), |l: int| piece_spans(lines_of(t)[l], r.1[l]))),
        None => None,
    }
}

/// Once the parser has failed, highlighting more lines fails too.
proof fn lemma_run_fails_on(init: ParseState, set: SyntaxSet, theme: SyntectTheme, lines: Seq<Seq<char>>, m: int)
    requires
        0 <= m <= lines.len(),
        highlight_run(init, set, theme, lines.take(m)) is None,
    ensures
        highlight_run(init, set, theme, lines) is None,
    decreases lines.len() - m,
{
    if m < lines.len() {
        assert(lines.take(m + 1).drop_last() =~= lines.take(m));
        lemma_run_fails_on(init, set, theme, lines, m + 1);
    } else {
        assert(lines.take(m) =~= lines);
    }
}

impl Buffer {
    /// Highlight each line of the text in the syntax named `syntax_name`
    /// of `syntax_set` with the colors of `theme`, and keep the spans
    /// found, one entry per line from the first. When the parser fails on
    /// a line, the buffer is left as it was.
    pub fn recalc_style_spans(
        &mut self,
        syntax_set: &SyntaxSet,
        syntax_name: &str,
        theme: &SyntectTheme,
    ) -> (res: Result<(), HighlightError>)
        requires
            old(self).wf(),
            syntax_named(*syntax_set, syntax_name@) is Some,
        ensures
            final(self).wf(),
            final(self).history() == old(self).history(),
            final(self).active() == old(self).active(),
            final(self).last_action() == old(self).last_action(),
            final(self).same_identity(old(self)),
            res is Ok <==> highlighted_lines(old(self).cur_text(), *syntax_set, syntax_name@, *theme) is Some,
            res is Err ==> *final(self) == *old(self),
            res is Ok ==> {
                let t = old(self).cur_text();
                &&& final(self).spans().0 == old(self).spans().0
                &&& final(self).spans().1.map_values(|s: StyledLine| s.0@) == highlighted_lines(
                    t,
                    *syntax_set,
                    syntax_name@,
                    *theme,
                )->0
                &&& final(self).spans().1.len() == spec_len_lines(t)
                &&& forall|l: int|
                    0 <= l < final(self).spans().1.len() ==> spans_len(
                        (#[trigger] final(self).spans().1[l]).0@,
                    ) <= line_text(t, l as nat).len()
            },
    {
        let syntax = find_syntax(syntax_set, syntax_name).unwrap();
        let mut parse_state = new_parse_state(syntax);
        let highlighter = new_highlighter(theme);
        let mut highlight_state = new_highlight_state(&highlighter);
        let text: &Rope = self.text();
        let n = text.len_lines();
        let ghost t = text@;
        let ghost all = lines_of(t);
        let ghost init = initial_parse_state(syntax_named(*syntax_set, syntax_name@)->0);
        let ghost mut acc: Seq<Seq<(SyntectStyle, usize, usize)>> = Seq::empty();
        let mut lines: Vec<StyledLine> = Vec::new();
        let mut l: usize = 0;
        proof {
            assert(all.take(0) =~= Seq::<Seq<char>>::empty());
        }
        while l < n
            invariant
                *self == *old(self),
                self.wf(),
                text@ == self.cur_text(),
                t == text@,
                all == lines_of(t),
                n == spec_len_lines(t),
                syntax_named(*syntax_set, syntax_name@) is Some,
                init == initial_parse_state(syntax_named(*syntax_set, syntax_name@)->0),
                highlighter_theme(highlighter) == *theme,
                l <= n,
                lines@.len() == l,
                acc.len() == l,
                parse_state == parse_run(init, all.take(l as int), *syntax_set),
                highlight_run(init, *syntax_set, *theme, all.take(l as int)) == Some((highlight_state, acc)),
                forall|k: int| 0 <= k < l ==> (#[trigger] lines@[k]).0@ == piece_spans(all[k], acc[k]),
                forall|k: int|
                    0 <= k < l ==> spans_len((#[trigger] lines@[k]).0@) <= line_text(t, k as nat).len(),
            decreases n - l,
        {
            let slice = text.line(AbsLine(l));
            let full_line = slice.to_string();
            let ghost prefix = all.take(l as int);
            let ghost next = all.take(l + 1);
            proof {
                assert(next.drop_last() =~= prefix);
                assert(next.last() == all[l as int]);
                assert(full_line@ == all[l as int]);
                assert(parser_in(parse_state, *syntax_set)) by {
                    assert(parse_state == parse_run(
                        initial_parse_state(syntax_named(*syntax_set, syntax_name@)->0),
                        prefix,
                        *syntax_set,
                    ));
                }
            }
            let changes = match parse_line(&mut parse_state, full_line.as_str(), syntax_set) {
                Ok(c) => c,
                Err(e) => {
                    proof {
                        assert(highlight_run(init, *syntax_set, *theme, next) is None);
                        lemma_run_fails_on(init, *syntax_set, *theme, all, l + 1);
                        assert(all.take(n as int) =~= all);
                    }
                    return Err(HighlightError::Parse(e));
                },
            };
            let ghost hs0 = highlight_state;
            let pieces = ranged_highlights(
                &mut highlight_state,
                &changes,
                full_line.as_str(),
                &highlighter,
            );
            let styled = spans_of_line(full_line.as_str(), &slice, &pieces);
            proof {
                acc = acc.push(pieces@);
                assert(highlight_run(init, *syntax_set, *theme, next) == Some((highlight_state, acc)));
            }
            lines.push(styled);
            l = l + 1;
        }
        proof {
            assert(all.take(n as int) =~= all);
            let h = highlighted_lines(t, *syntax_set, syntax_name@, *theme)->0;
            assert(lines@.map_values(|s: StyledLine| s.0@) =~= h);
        }
        self.set_style_spans(lines);
        Ok(())
    }
}

} // verus!
