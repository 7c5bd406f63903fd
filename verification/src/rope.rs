//! Thin wrapper around `ropey`, with char and line index types.
//!
//! The text held by a rope is modelled as a `Seq<char>`. Lines follow
//! ropey's rules with its default features: a line ends after LF, VT,
//! FF, CR, NEL, LS or PS, except that CR followed by LF is one line
//! break that ends after the LF.

use ropey::Rope as RopeyText;
use ropey::RopeSlice as RopeyTextSlice;
use vstd::prelude::*;

verus! {

// ---------------------------------------------------------------------
// Index types

/// Char index (zero indexed) within the rope.
#[derive(Clone, Copy, Debug, Default, PartialEq, Eq, Structural, Ord, PartialOrd)]
pub struct AbsChar(pub usize);

/// Relative char offset.
#[derive(Clone, Copy, Debug, Default, PartialEq, Eq, Structural, Ord, PartialOrd)]
pub struct RelChar(pub usize);

/// Relative line offset.
#[derive(Clone, Copy, Debug, Default, PartialEq, Eq, Structural, Ord, PartialOrd)]
pub struct RelLine(usize);

/// Line index (zero indexed) within the rope.
#[derive(Clone, Copy, Debug, Default, PartialEq, Eq, Structural, Ord, PartialOrd)]
pub struct AbsLine(pub usize);

impl RelChar {
    pub fn zero() -> (res: Self)
        ensures
            res.0 == 0,
    {
        RelChar(0)
    }
}

impl RelLine {
    pub closed spec fn value(self) -> usize {
        self.0
    }

    pub fn new(val: usize) -> (res: Self)
        ensures
            res.value() == val,
    {
        RelLine(val)
    }

    pub fn get(self) -> (res: usize)
        ensures
            res == self.value(),
    {
        self.0
    }
}

impl core::ops::Add<RelLine> for AbsLine {
    type Output = AbsLine;

    fn add(self, rhs: RelLine) -> (res: AbsLine) {
        AbsLine(self.0 + rhs.0)
    }
}

impl vstd::std_specs::ops::AddSpecImpl<RelLine> for AbsLine {
    open spec fn obeys_add_spec() -> bool {
        true
    }

    open spec fn add_req(self, rhs: RelLine) -> bool {
        self.0 + rhs.value() <= usize::MAX
    }

    open spec fn add_spec(self, rhs: RelLine) -> AbsLine {
        AbsLine((self.0 + rhs.value()) as usize)
    }
}

impl AbsLine {
    pub fn zero() -> (res: Self)
        ensures
            res.0 == 0,
    {
        AbsLine(0)
    }

    /// The offset of `self` from `val`, if `self` is not before `val`.
    pub fn offset_from(&self, val: Self) -> (res: Option<RelLine>)
        ensures
            self.0 >= val.0 <==> res is Some,
            res matches Some(r) ==> r.value() == self.0 - val.0,
    {
        if self.0 >= val.0 {
            Some(RelLine(self.0 - val.0))
        } else {
            None
        }
    }

    pub fn saturating_sub(&self, val: RelLine) -> (res: Self)
        ensures
            res.0 == (if self.0 >= val.value() { self.0 - val.value() } else { 0 }),
    {
        if self.0 >= val.0 {
            AbsLine(self.0 - val.0)
        } else {
            AbsLine(0)
        }
    }
}

// ---------------------------------------------------------------------
// Model of text, lines and utf8 lengths

pub open spec fn is_break_char(c: char) -> bool {
    c == '\n' || c == '\u{0B}' || c == '\u{0C}' || c == '\r' || c == '\u{85}' || c == '\u{2028}'
        || c == '\u{2029}'
}

/// A line break ends just before index `i` of `s` (so a new line starts
/// at `i`).
pub open spec fn ends_line_at(s: Seq<char>, i: int) -> bool {
    &&& 1 <= i <= s.len()
    &&& is_break_char(s[i - 1])
    &&& !(s[i - 1] == '\r' && i < s.len() && s[i] == '\n')
}

/// Number of line breaks that end at or before index `k`: the line
/// index of char `k`.
pub open spec fn breaks_before(s: Seq<char>, k: int) -> nat
    decreases k,
{
    if k <= 0 {
        0
    } else {
        breaks_before(s, k - 1) + if ends_line_at(s, k) {
            1nat
        } else {
            0nat
        }
    }
}

pub open spec fn spec_len_lines(s: Seq<char>) -> nat {
    breaks_before(s, s.len() as int) + 1
}

/// First index at or after `k` whose line index is at least `l`, or the
/// length of `s` when there is none.
pub open spec fn line_start_from(s: Seq<char>, l: nat, k: int) -> nat
    decreases s.len() - k,
{
    if k >= s.len() {
        s.len()
    } else if k >= 0 && breaks_before(s, k) >= l {
        k as nat
    } else {
        line_start_from(s, l, k + 1)
    }
}

/// Char index at which line `l` starts; one past the end for the line
/// after the last.
pub open spec fn line_start(s: Seq<char>, l: nat) -> nat {
    line_start_from(s, l, 0)
}

/// The text of line `l`, including its line break.
pub open spec fn line_text(s: Seq<char>, l: nat) -> Seq<char> {
    s.subrange(line_start(s, l) as int, line_start(s, l + 1) as int)
}

pub open spec fn utf8_width(c: char) -> nat {
    if (c as u32) < 0x80 {
        1
    } else if (c as u32) < 0x800 {
        2
    } else if (c as u32) < 0x10000 {
        3
    } else {
        4
    }
}

/// Number of bytes of the utf8 encoding of `s`.
pub open spec fn utf8_len(s: Seq<char>) -> nat
    decreases s.len(),
{
    if s.len() == 0 {
        0
    } else {
        utf8_width(s[0]) + utf8_len(s.drop_first())
    }
}

/// Index of the char that byte `b` of the utf8 encoding of `s` belongs
/// to (the length of `s` for one past the end).
pub open spec fn byte_to_char_index(s: Seq<char>, b: int) -> nat
    decreases s.len(),
{
    if s.len() == 0 || b < utf8_width(s[0]) {
        0
    } else {
        1 + byte_to_char_index(s.drop_first(), b - utf8_width(s[0]))
    }
}

pub proof fn lemma_breaks_before_monotone(s: Seq<char>, j: int, k: int)
    requires
        j <= k,
    ensures
        breaks_before(s, j) <= breaks_before(s, k),
    decreases k - j,
{
    if j < k {
        lemma_breaks_before_monotone(s, j, k - 1);
    }
}

proof fn lemma_line_start_from_bounded(s: Seq<char>, l: nat, k: int, p: int)
    requires
        0 <= k <= p <= s.len(),
        breaks_before(s, p) >= l,
    ensures
        line_start_from(s, l, k) <= p,
    decreases s.len() - k,
{
    if k < s.len() && breaks_before(s, k) < l {
        lemma_line_start_from_bounded(s, l, k + 1, p);
    }
}

proof fn lemma_line_start_from_le_len(s: Seq<char>, l: nat, k: int)
    ensures
        line_start_from(s, l, k) <= s.len(),
    decreases s.len() - k,
{
    if k < s.len() && !(k >= 0 && breaks_before(s, k) >= l) {
        lemma_line_start_from_le_len(s, l, k + 1);
    }
}

/// The line that char `p` is on starts at or before `p`, and every line
/// starts within the text.
pub proof fn lemma_line_start_of_char(s: Seq<char>, p: int)
    requires
        0 <= p <= s.len(),
    ensures
        line_start(s, breaks_before(s, p)) <= p,
{
    lemma_line_start_from_bounded(s, breaks_before(s, p), 0, p);
}

pub proof fn lemma_line_start_le_len(s: Seq<char>, l: nat)
    ensures
        line_start(s, l) <= s.len(),
{
    lemma_line_start_from_le_len(s, l, 0);
}

proof fn lemma_line_start_from_ge(s: Seq<char>, l: nat, k: int)
    requires
        0 <= k <= s.len(),
    ensures
        line_start_from(s, l, k) >= k,
    decreases s.len() - k,
{
    if k < s.len() && breaks_before(s, k) < l {
        lemma_line_start_from_ge(s, l, k + 1);
    }
}

proof fn lemma_line_start_from_monotone(s: Seq<char>, l: nat, k: int)
    requires
        k >= 0,
    ensures
        line_start_from(s, l, k) <= line_start_from(s, l + 1, k),
    decreases s.len() - k,
{
    if k < s.len() {
        if breaks_before(s, k) >= l + 1 {
        } else if breaks_before(s, k) >= l {
            lemma_line_start_from_ge(s, l + 1, k + 1);
        } else {
            lemma_line_start_from_monotone(s, l, k + 1);
        }
    }
}

/// Lines start in order.
pub proof fn lemma_line_start_monotone(s: Seq<char>, l: nat)
    ensures
        line_start(s, l) <= line_start(s, l + 1),
{
    lemma_line_start_from_monotone(s, l, 0);
}

/// Line `l` lies within the text, and its text runs from its start to
/// the start of the next line.
pub proof fn lemma_line_bounds(s: Seq<char>, l: nat)
    ensures
        line_start(s, l) <= line_start(s, l + 1) <= s.len(),
        line_text(s, l).len() == line_start(s, l + 1) - line_start(s, l),
{
    lemma_line_start_monotone(s, l);
    lemma_line_start_le_len(s, l + 1);
}

/// A line break adds at most one to the line index.
proof fn lemma_breaks_before_step(s: Seq<char>, k: int)
    requires
        k >= 1,
    ensures
        breaks_before(s, k) <= breaks_before(s, k - 1) + 1,
{
}

/// Every index skipped before the start of line `l` lies on an earlier
/// line, and the start found within the text is on line `l` or later.
pub proof fn lemma_line_start_from_facts(s: Seq<char>, l: nat, k: int)
    requires
        0 <= k <= s.len(),
    ensures
        forall|j: int| k <= j < line_start_from(s, l, k) && j < s.len() ==> breaks_before(s, j) < l,
        line_start_from(s, l, k) < s.len() ==> breaks_before(s, line_start_from(s, l, k) as int) >= l,
    decreases s.len() - k,
{
    if k < s.len() && breaks_before(s, k) < l {
        lemma_line_start_from_facts(s, l, k + 1);
    }
}

/// A line followed by another holds at least its line break.
pub proof fn lemma_line_not_last_nonempty(s: Seq<char>, l: nat)
    requires
        l + 1 < spec_len_lines(s),
    ensures
        line_text(s, l).len() >= 1,
{
    lemma_line_bounds(s, l);
    lemma_line_start_from_facts(s, l, 0);
    lemma_line_start_from_facts(s, l + 1, 0);
    let a = line_start(s, l) as int;
    let c = line_start(s, l + 1) as int;
    if a > 0 {
        assert(breaks_before(s, a - 1) < l);
        lemma_breaks_before_step(s, a);
    }
    if c == s.len() {
        if a == c {
            lemma_breaks_before_step(s, s.len() as int);
            if s.len() > 0 {
                assert(breaks_before(s, s.len() - 1) < l);
            }
        }
    }
}

/// Line and char indices convert back and forth: the start of each line
/// is on that line, and the line of any char starts at or before it.
pub proof fn law_line_char_round_trip(s: Seq<char>, l: nat, c: int)
    requires
        l < spec_len_lines(s),
        0 <= c <= s.len(),
    ensures
        breaks_before(s, line_start(s, l) as int) == l,
        breaks_before(s, c) < spec_len_lines(s),
        line_start(s, breaks_before(s, c)) <= c,
{
    lemma_line_start_from_facts(s, l, 0);
    lemma_line_start_le_len(s, l);
    let a = line_start(s, l) as int;
    if a > 0 {
        assert(breaks_before(s, a - 1) < l);
        lemma_breaks_before_step(s, a);
    }
    if a == s.len() {
        lemma_breaks_before_monotone(s, a, s.len() as int);
    }
    lemma_breaks_before_monotone(s, c, s.len() as int);
    lemma_line_start_of_char(s, c);
}

/// Char and byte indices convert back and forth: the byte at which char
/// `c` starts belongs to char `c`.
pub proof fn law_char_byte_round_trip(s: Seq<char>, c: int)
    requires
        0 <= c <= s.len(),
    ensures
        byte_to_char_index(s, utf8_len(s.take(c)) as int) == c,
    decreases s.len(),
{
    if c == 0 {
        assert(s.take(0) =~= Seq::<char>::empty());
    } else {
        let t = s.take(c);
        assert(t.drop_first() =~= s.drop_first().take(c - 1));
        law_char_byte_round_trip(s.drop_first(), c - 1);
        assert(t[0] == s[0]);
    }
}

/// The byte length used for ropes, `utf8_len`, is the length of the
/// UTF-8 encoding of the chars; so a slice's `len_bytes` is the `len` of
/// its text as a `str`.
pub proof fn law_utf8_len_is_encoded_len(s: Seq<char>)
    ensures
        utf8_len(s) == vstd::utf8::encode_utf8(s).len(),
    decreases s.len(),
{
    if s.len() > 0 {
        law_utf8_len_is_encoded_len(s.drop_first());
        vstd::utf8::char_is_scalar(s[0]);
    }
}

/// The byte length of a text as a `str` is its `utf8_len` (as a
/// `usize`, the type `str::len` gives it in).
pub proof fn law_str_len_is_utf8_len(t: &str)
    ensures
        t.len() == utf8_len(t@) as usize,
{
    law_utf8_len_is_encoded_len(t@);
}

// ---------------------------------------------------------------------
// Trusted interface to ropey

#[verifier::external_type_specification]
#[verifier::external_body]
pub struct ExRopeyRope(RopeyText);

#[verifier::external_type_specification]
#[verifier::external_body]
pub struct ExRopeySlice<'a>(RopeyTextSlice<'a>);

/// The chars held by a `RopeyText`.
pub uninterp spec fn ropey_text(r: RopeyText) -> Seq<char>;

/// The chars viewed by a `RopeyTextSlice`.
pub uninterp spec fn ropey_slice_text(s: RopeyTextSlice) -> Seq<char>;

/// `RopeyText::new`: an empty rope.
#[verifier::external_body]
fn ropey_new() -> (res: RopeyText)
    ensures
        ropey_text(res) == Seq::<char>::empty(),
{
    RopeyText::new()
}

/// `RopeyText::from_str`: a rope holding the chars of `text`.
#[verifier::external_body]
fn ropey_from_str(text: &str) -> (res: RopeyText)
    ensures
        ropey_text(res) == text@,
{
    RopeyText::from_str(text)
}

/// `Clone` of `RopeyText`: a rope with the same chars.
#[verifier::external_body]
fn ropey_clone(r: &RopeyText) -> (res: RopeyText)
    ensures
        ropey_text(res) == ropey_text(*r),
{
    r.clone()
}

/// `RopeyText::insert`: inserts `text` before char `char_idx`.
/// ropey panics past the end, which `requires` rules out.
#[verifier::external_body]
fn ropey_insert(r: &mut RopeyText, char_idx: usize, text: &str)
    requires
        char_idx <= ropey_text(*old(r)).len(),
    ensures
        ropey_text(*final(r)) == ropey_text(*old(r)).take(char_idx as int) + text@
            + ropey_text(*old(r)).skip(char_idx as int),
{
    r.insert(char_idx, text)
}

/// `RopeyText::remove` of the char range `start..end`. ropey panics on
/// a reversed or out of bounds range, which `requires` rules out.
#[verifier::external_body]
fn ropey_remove(r: &mut RopeyText, start: usize, end: usize)
    requires
        start <= end <= ropey_text(*old(r)).len(),
    ensures
        ropey_text(*final(r)) == ropey_text(*old(r)).take(start as int) + ropey_text(
            *old(r),
        ).skip(end as int),
{
    r.remove(start..end)
}

/// `RopeyText::len_chars`.
#[verifier::external_body]
fn ropey_len_chars(r: &RopeyText) -> (res: usize)
    ensures
        res == ropey_text(*r).len(),
{
    r.len_chars()
}

/// `RopeyText::len_lines`: one more than the number of line breaks.
#[verifier::external_body]
fn ropey_len_lines(r: &RopeyText) -> (res: usize)
    ensures
        res == spec_len_lines(ropey_text(*r)),
{
    r.len_lines()
}

/// `RopeyText::char_to_line`: the number of line breaks ending at or
/// before the char. ropey panics past the end.
#[verifier::external_body]
fn ropey_char_to_line(r: &RopeyText, char_idx: usize) -> (res: usize)
    requires
        char_idx <= ropey_text(*r).len(),
    ensures
        res == breaks_before(ropey_text(*r), char_idx as int),
{
    r.char_to_line(char_idx)
}

/// `RopeyText::line_to_char`: where the line starts (one past the end
/// for the line after the last). ropey panics beyond that.
#[verifier::external_body]
fn ropey_line_to_char(r: &RopeyText, line_idx: usize) -> (res: usize)
    requires
        line_idx <= spec_len_lines(ropey_text(*r)),
    ensures
        res == line_start(ropey_text(*r), line_idx as nat),
{
    r.line_to_char(line_idx)
}

/// `RopeyText::line`: the chars of the line, with its line break.
/// ropey panics past the last line.
#[verifier::external_body]
fn ropey_line(r: &RopeyText, line_idx: usize) -> (res: RopeyTextSlice<'_>)
    requires
        line_idx < spec_len_lines(ropey_text(*r)),
    ensures
        ropey_slice_text(res) == line_text(ropey_text(*r), line_idx as nat),
{
    r.line(line_idx)
}

/// `RopeyText::slice` of the char range `start..end`. ropey panics on
/// a reversed or out of bounds range.
#[verifier::external_body]
fn ropey_slice(r: &RopeyText, start: usize, end: usize) -> (res: RopeyTextSlice<'_>)
    requires
        start <= end <= ropey_text(*r).len(),
    ensures
        ropey_slice_text(res) == ropey_text(*r).subrange(start as int, end as int),
{
    r.slice(start..end)
}

/// `ToString` of `RopeyText`: its chars as a string.
#[verifier::external_body]
fn ropey_to_string(r: &RopeyText) -> (res: String)
    ensures
        res@ == ropey_text(*r),
{
    r.to_string()
}

/// `RopeyTextSlice::byte_to_char`. ropey panics past the end.
#[verifier::external_body]
fn ropey_slice_byte_to_char(s: &RopeyTextSlice, byte_idx: usize) -> (res: usize)
    requires
        byte_idx <= utf8_len(ropey_slice_text(*s)),
    ensures
        res == byte_to_char_index(ropey_slice_text(*s), byte_idx as int),
{
    s.byte_to_char(byte_idx)
}

/// `RopeyTextSlice::char_to_byte`. ropey panics past the end.
#[verifier::external_body]
fn ropey_slice_char_to_byte(s: &RopeyTextSlice, char_idx: usize) -> (res: usize)
    requires
        char_idx <= ropey_slice_text(*s).len(),
    ensures
        res == utf8_len(ropey_slice_text(*s).take(char_idx as int)),
{
    s.char_to_byte(char_idx)
}

/// `RopeyTextSlice::chunk_at_byte`: the chunk holding the byte, with
/// the byte, char and line index at which the chunk starts. ropey
/// panics past the end. The line index is left unstated: how a slice
/// that starts between a CR and an LF counts its breaks is not shown
/// here.
#[verifier::external_body]
fn ropey_slice_chunk_at_byte<'a>(s: &RopeyTextSlice<'a>, byte_idx: usize) -> (res: (
    &'a str,
    usize,
    usize,
    usize,
))
    requires
        byte_idx <= utf8_len(ropey_slice_text(*s)),
    ensures
        res.2 + res.0@.len() <= ropey_slice_text(*s).len(),
        res.0@ == ropey_slice_text(*s).subrange(res.2 as int, res.2 + res.0@.len()),
        res.1 == utf8_len(ropey_slice_text(*s).take(res.2 as int)),
        res.1 <= byte_idx <= res.1 + utf8_len(res.0@),
{
    s.chunk_at_byte(byte_idx)
}

/// `RopeyTextSlice::chunks`, collected: chunks that together hold the
/// chars of the slice, in order.
#[verifier::external_body]
fn ropey_slice_chunks<'a>(s: &RopeyTextSlice<'a>) -> (res: Vec<&'a str>)
    ensures
        res@.map_values(|c: &str| c@).flatten() == ropey_slice_text(*s),
{
    s.chunks().collect()
}

/// `RopeyTextSlice::len_bytes`.
#[verifier::external_body]
fn ropey_slice_len_bytes(s: &RopeyTextSlice) -> (res: usize)
    ensures
        res == utf8_len(ropey_slice_text(*s)),
{
    s.len_bytes()
}

/// `RopeyTextSlice::len_chars`.
#[verifier::external_body]
fn ropey_slice_len_chars(s: &RopeyTextSlice) -> (res: usize)
    ensures
        res == ropey_slice_text(*s).len(),
{
    s.len_chars()
}

/// `RopeyTextSlice::slice` of the char range `start..end`. ropey
/// panics on a reversed or out of bounds range.
#[verifier::external_body]
fn ropey_slice_slice<'a>(s: &RopeyTextSlice<'a>, start: usize, end: usize) -> (res:
    RopeyTextSlice<'a>)
    requires
        start <= end <= ropey_slice_text(*s).len(),
    ensures
        ropey_slice_text(res) == ropey_slice_text(*s).subrange(start as int, end as int),
{
    s.slice(start..end)
}

/// `ToString` of `RopeyTextSlice`: its chars as a string.
#[verifier::external_body]
fn ropey_slice_to_string(s: &RopeyTextSlice) -> (res: String)
    ensures
        res@ == ropey_slice_text(*s),
{
    s.to_string()
}

// ---------------------------------------------------------------------
// Rope

pub struct Rope(RopeyText);

pub struct RopeSlice<'a>(RopeyTextSlice<'a>);

impl View for Rope {
    type V = Seq<char>;

    closed spec fn view(&self) -> Seq<char> {
        ropey_text(self.0)
    }
}

impl<'a> View for RopeSlice<'a> {
    type V = Seq<char>;

    closed spec fn view(&self) -> Seq<char> {
        ropey_slice_text(self.0)
    }
}

impl Clone for Rope {
    fn clone(&self) -> (res: Self)
        ensures
            res@ == self@,
    {
        Rope(ropey_clone(&self.0))
    }
}

impl Rope {
    pub fn new() -> (res: Self)
        ensures
            res@ == Seq::<char>::empty(),
    {
        Rope(ropey_new())
    }

    pub fn from_str(text: &str) -> (res: Self)
        ensures
            res@ == text@,
    {
        Rope(ropey_from_str(text))
    }

    pub fn to_string(&self) -> (res: String)
        ensures
            res@ == self@,
    {
        ropey_to_string(&self.0)
    }

    pub fn char_to_line(&self, char_idx: AbsChar) -> (res: AbsLine)
        requires
            char_idx.0 <= self@.len(),
        ensures
            res.0 == breaks_before(self@, char_idx.0 as int),
    {
        AbsLine(ropey_char_to_line(&self.0, char_idx.0))
    }

    pub fn insert(&mut self, char_idx: AbsChar, text: &str)
        requires
            char_idx.0 <= old(self)@.len(),
        ensures
            final(self)@ == old(self)@.take(char_idx.0 as int) + text@ + old(self)@.skip(
                char_idx.0 as int,
            ),
    {
        ropey_insert(&mut self.0, char_idx.0, text)
    }

    pub fn len_chars(&self) -> (res: usize)
        ensures
            res == self@.len(),
    {
        ropey_len_chars(&self.0)
    }

    pub fn len_lines(&self) -> (res: usize)
        ensures
            res == spec_len_lines(self@),
    {
        ropey_len_lines(&self.0)
    }

    pub fn max_line_index(&self) -> (res: AbsLine)
        ensures
            res.0 == spec_len_lines(self@) - 1,
    {
        AbsLine(ropey_len_lines(&self.0) - 1)
    }

    pub fn line(&self, line_idx: AbsLine) -> (res: RopeSlice<'_>)
        requires
            line_idx.0 < spec_len_lines(self@),
        ensures
            res@ == line_text(self@, line_idx.0 as nat),
    {
        RopeSlice(ropey_line(&self.0, line_idx.0))
    }

    /// The lines of the rope, from the first.
    pub fn lines(&self) -> (res: Lines<'_>)
        ensures
            res.rope() == self,
            res.index().0 == 0,
    {
        Lines { rope: self, index: AbsLine::zero() }
    }

    pub fn line_to_char(&self, line_idx: AbsLine) -> (res: usize)
        requires
            line_idx.0 <= spec_len_lines(self@),
        ensures
            res == line_start(self@, line_idx.0 as nat),
    {
        ropey_line_to_char(&self.0, line_idx.0)
    }

    /// The lines of the rope, from line `line_idx`.
    pub fn lines_at(&self, line_idx: AbsLine) -> (res: Lines<'_>)
        requires
            line_idx.0 <= spec_len_lines(self@),
        ensures
            res.rope() == self,
            res.index() == line_idx,
    {
        Lines { rope: self, index: line_idx }
    }

    pub fn remove(&mut self, char_range: core::ops::Range<AbsChar>)
        requires
            char_range.start.0 <= char_range.end.0 <= old(self)@.len(),
        ensures
            final(self)@ == old(self)@.take(char_range.start.0 as int) + old(self)@.skip(
                char_range.end.0 as int,
            ),
    {
        ropey_remove(&mut self.0, char_range.start.0, char_range.end.0)
    }

    pub fn slice(&self, char_range: core::ops::Range<AbsChar>) -> (res: RopeSlice<'_>)
        requires
            char_range.start.0 <= char_range.end.0 <= self@.len(),
        ensures
            res@ == self@.subrange(char_range.start.0 as int, char_range.end.0 as int),
    {
        RopeSlice(ropey_slice(&self.0, char_range.start.0, char_range.end.0))
    }
}

impl<'a> RopeSlice<'a> {
    pub fn to_string(&self) -> (res: String)
        ensures
            res@ == self@,
    {
        ropey_slice_to_string(&self.0)
    }

    pub fn byte_to_char(&self, byte_idx: usize) -> (res: usize)
        requires
            byte_idx <= utf8_len(self@),
        ensures
            res == byte_to_char_index(self@, byte_idx as int),
    {
        ropey_slice_byte_to_char(&self.0, byte_idx)
    }

    pub fn char_to_byte(&self, char_idx: usize) -> (res: usize)
        requires
            char_idx <= self@.len(),
        ensures
            res == utf8_len(self@.take(char_idx as int)),
    {
        ropey_slice_char_to_byte(&self.0, char_idx)
    }

    /// The chunk holding byte `byte_idx`, with the byte, char and line
    /// index at which the chunk starts; of the line index nothing is
    /// stated.
    pub fn chunk_at_byte(&self, byte_idx: usize) -> (res: (&'a str, usize, usize, usize))
        requires
            byte_idx <= utf8_len(self@),
        ensures
            res.2 + res.0@.len() <= self@.len(),
            res.0@ == self@.subrange(res.2 as int, res.2 + res.0@.len()),
            res.1 == utf8_len(self@.take(res.2 as int)),
            res.1 <= byte_idx <= res.1 + utf8_len(res.0@),
    {
        ropey_slice_chunk_at_byte(&self.0, byte_idx)
    }

    /// The chunks of the slice, which together hold its chars in order.
    pub fn chunks(&self) -> (res: Vec<&'a str>)
        ensures
            res@.map_values(|c: &str| c@).flatten() == self@,
    {
        ropey_slice_chunks(&self.0)
    }

    pub fn len_bytes(&self) -> (res: usize)
        ensures
            res == utf8_len(self@),
    {
        ropey_slice_len_bytes(&self.0)
    }

    pub fn len_chars(&self) -> (res: usize)
        ensures
            res == self@.len(),
    {
        ropey_slice_len_chars(&self.0)
    }

    pub fn slice(&self, char_range: core::ops::Range<usize>) -> (res: Self)
        requires
            char_range.start <= char_range.end <= self@.len(),
        ensures
            res@ == self@.subrange(char_range.start as int, char_range.end as int),
    {
        RopeSlice(ropey_slice_slice(&self.0, char_range.start, char_range.end))
    }
}

// ---------------------------------------------------------------------
// Line iteration

/// Walks the lines of a rope, from a starting line to the last.
pub struct Lines<'a> {
    rope: &'a Rope,
    index: AbsLine,
}

pub struct LinesIterItem<'a> {
    pub slice: RopeSlice<'a>,
    pub index: AbsLine,
}

impl<'a> Lines<'a> {
    pub closed spec fn rope(&self) -> &'a Rope {
        self.rope
    }

    /// The line that the next call of `next` yields.
    pub closed spec fn index(&self) -> AbsLine {
        self.index
    }

    /// The next line and its index, or `None` past the last line.
    pub fn next(&mut self) -> (res: Option<LinesIterItem<'a>>)
        ensures
            final(self).rope() == old(self).rope(),
            old(self).index().0 < spec_len_lines(old(self).rope()@) ==> {
                &&& res matches Some(item)
                &&& item.index == old(self).index()
                &&& item.slice@ == line_text(old(self).rope()@, old(self).index().0 as nat)
                &&& final(self).index().0 == old(self).index().0 + 1
            },
            old(self).index().0 >= spec_len_lines(old(self).rope()@) ==> {
                &&& res is None
                &&& final(self).index() == old(self).index()
            },
    {
        let len_lines = self.rope.len_lines();
        if self.index.0 < len_lines {
            let item = LinesIterItem { slice: self.rope.line(self.index), index: self.index };
            self.index = AbsLine(self.index.0 + 1);
            Some(item)
        } else {
            None
        }
    }
}

// ---------------------------------------------------------------------
// Per-line data

/// Container for data associated with a contiguous range of lines.
pub struct LineDataVec<T> {
    lines: Vec<T>,
    start_line: AbsLine,
}

pub struct LineDataIterItem<'a, T> {
    pub data: &'a T,
    pub index: AbsLine,
}

/// Walks the entries of a `LineDataVec` from some offset.
pub struct LineDataIter<'a, T> {
    data: &'a LineDataVec<T>,
    offset: usize,
}

impl<T> View for LineDataVec<T> {
    /// The first line, and the data of each line from it.
    type V = (nat, Seq<T>);

    closed spec fn view(&self) -> (nat, Seq<T>) {
        (self.start_line.0 as nat, self.lines@)
    }
}

impl<'a, T> LineDataIter<'a, T> {
    pub closed spec fn data(&self) -> &'a LineDataVec<T> {
        self.data
    }

    /// Offset into the data of the entry that `next` yields.
    pub closed spec fn offset(&self) -> nat {
        self.offset as nat
    }

    /// The next entry and its line, or `None` past the last entry.
    pub fn next(&mut self) -> (res: Option<LineDataIterItem<'a, T>>)
        requires
            old(self).data()@.0 + old(self).data()@.1.len() <= usize::MAX,
        ensures
            final(self).data() == old(self).data(),
            old(self).offset() < old(self).data()@.1.len() ==> {
                &&& res matches Some(item)
                &&& *item.data == old(self).data()@.1[old(self).offset() as int]
                &&& item.index.0 == old(self).data()@.0 + old(self).offset()
                &&& final(self).offset() == old(self).offset() + 1
            },
            old(self).offset() >= old(self).data()@.1.len() ==> {
                &&& res is None
                &&& final(self).offset() == old(self).offset()
            },
    {
        if self.offset >= self.data.lines.len() {
            return None;
        }
        let item = LineDataIterItem {
            data: &self.data.lines[self.offset],
            index: AbsLine(self.data.start_line.0 + self.offset),
        };
        self.offset = self.offset + 1;
        Some(item)
    }
}

impl<T: Clone + Default> LineDataVec<T> {
    /// Data for `len` lines from `start_line`, each the default value.
    pub fn with_size(start_line: AbsLine, len: usize) -> (res: Self)
        ensures
            res@.0 == start_line.0,
            res@.1.len() == len,
            forall|i: int| 0 <= i < len ==> call_ensures(T::default, (), #[trigger] res@.1[i]),
    {
        let mut lines: Vec<T> = Vec::new();
        let mut i: usize = 0;
        while i < len
            invariant
                i <= len,
                lines@.len() == i,
                forall|j: int| 0 <= j < i ==> call_ensures(T::default, (), #[trigger] lines@[j]),
            decreases len - i,
        {
            lines.push(T::default());
            i = i + 1;
        }
        LineDataVec { lines, start_line }
    }
}

impl<T> LineDataVec<T> {
    pub fn new(start_line: AbsLine) -> (res: Self)
        ensures
            res@ == (start_line.0 as nat, Seq::<T>::empty()),
    {
        LineDataVec { lines: Vec::new(), start_line }
    }

    pub fn start_line(&self) -> (res: AbsLine)
        ensures
            res.0 == self@.0,
    {
        self.start_line
    }

    pub fn len(&self) -> (res: usize)
        ensures
            res == self@.1.len(),
    {
        self.lines.len()
    }

    /// The data of line `abs_line`, if it is within the range held.
    pub fn get(&self, abs_line: AbsLine) -> (res: Option<&T>)
        ensures
            (self@.0 <= abs_line.0 < self@.0 + self@.1.len()) <==> res is Some,
            res matches Some(r) ==> *r == self@.1[abs_line.0 - self@.0],
    {
        let offset = abs_line.offset_from(self.start_line);
        match offset {
            Some(offset) => {
                let i = offset.get();
                if i < self.lines.len() {
                    Some(&self.lines[i])
                } else {
                    None
                }
            },
            None => None,
        }
    }

    /// Mutable access to the data of line `abs_line`, if it is within
    /// the range held.
    pub fn get_mut(&mut self, abs_line: AbsLine) -> (res: Option<&mut T>)
        ensures
            (old(self)@.0 <= abs_line.0 < old(self)@.0 + old(self)@.1.len()) <==> res is Some,
            res matches Some(r) ==> {
                &&& *r == old(self)@.1[abs_line.0 - old(self)@.0]
                &&& final(self)@ == (old(self)@.0, old(self)@.1.update(
                    abs_line.0 - old(self)@.0,
                    *final(r),
                ))
            },
            res is None ==> final(self)@ == old(self)@,
    {
        if abs_line.0 >= self.start_line.0 && abs_line.0 - self.start_line.0 < self.lines.len() {
            let i = abs_line.0 - self.start_line.0;
            Some(&mut self.lines[i])
        } else {
            None
        }
    }

    /// Entries from the start of the range held.
    pub fn iter(&self) -> (res: LineDataIter<'_, T>)
        ensures
            res.data() == self,
            res.offset() == 0,
    {
        self.starting_from(self.start_line())
    }

    /// Entries from line `abs_line`; none if it is before the start of
    /// the range held.
    pub fn starting_from(&self, abs_line: AbsLine) -> (res: LineDataIter<'_, T>)
        ensures
            res.data() == self,
            res.offset() == (if abs_line.0 >= self@.0 {
                abs_line.0 - self@.0
            } else {
                self@.1.len() as int
            }),
    {
        let offset = match abs_line.offset_from(self.start_line) {
            Some(rel) => rel.get(),
            None => self.lines.len(),
        };
        LineDataIter { data: self, offset }
    }

    pub fn push(&mut self, elem: T)
        ensures
            final(self)@ == (old(self)@.0, old(self)@.1.push(elem)),
    {
        self.lines.push(elem);
    }

    pub fn clear(&mut self)
        ensures
            final(self)@ == (old(self)@.0, Seq::<T>::empty()),
    {
        self.lines.clear();
    }
}

} // verus!
