//! Buffers: text being edited, with undo history and per-pane cursors.

pub use crate::action::{Boundary, Direction, Move};
pub use crate::rope::{AbsChar, AbsLine, LinesIterItem, RelChar, RelLine};

use crate::assoc::{
    assoc_map, distinct_keys, lemma_assoc_absent, lemma_assoc_dom, lemma_assoc_get,
    lemma_assoc_map_values, lemma_assoc_push, lemma_assoc_remove, lemma_assoc_update,
    lemma_distinct_len,
};
use crate::grapheme::{
    grapheme_clusters, lemma_next_at_boundary, lemma_pieces_before_step,
    lemma_width_le_total, lemma_width_lt_total, lemma_width_of_first_all, next_boundary,
    next_grapheme_boundary, nonempty_pieces, pieces_before, prev_boundary,
    prev_grapheme_boundary, total_len, width_of_first,
};
use crate::key_sequence::char_to_string;
use crate::pane_tree::{Pane, PaneId};
use crate::rope::{
    breaks_before, lemma_breaks_before_monotone, lemma_line_bounds, lemma_line_start_le_len,
    lemma_line_start_monotone, lemma_line_start_of_char, line_start, line_text, spec_len_lines, utf8_len,
    LineDataVec, Rope,
};
use crate::style::StyledLine;
use crate::util::make_id;
use aho_corasick::AhoCorasick;
use std::path::PathBuf;
use vstd::prelude::*;

verus! {

/// A file path; the buffer only carries it.
#[verifier::external_type_specification]
#[verifier::external_body]
pub struct ExPathBuf(PathBuf);

#[derive(Debug, PartialEq, Eq, Hash)]
pub struct BufferId(String);

impl View for BufferId {
    type V = Seq<char>;

    closed spec fn view(&self) -> Seq<char> {
        self.0@
    }
}

impl Clone for BufferId {
    fn clone(&self) -> (res: Self)
        ensures
            res == *self,
    {
        BufferId(self.0.clone())
    }
}

pub open spec fn minibuf_id_chars() -> Seq<char> {
    seq!['b', 'u', 'f', 'f', 'e', 'r', '-', 'm', 'i', 'n', 'i', 'b', 'u', 'f']
}

impl BufferId {
    /// A fresh identifier: "buffer-" followed by eight random ASCII
    /// letters or digits.
    fn new() -> (res: Self)
        ensures
            res@.len() == 15,
            res@.take(7) == seq!['b', 'u', 'f', 'f', 'e', 'r', '-'],
            forall|i: int| 7 <= i < 15 ==> crate::util::is_ascii_alphanumeric(#[trigger] res@[i]),
    {
        let id = make_id("buffer");
        proof {
            reveal_strlit("buffer");
            assert("buffer"@.len() == 6);
        }
        assert(id@.take(7) =~= seq!['b', 'u', 'f', 'f', 'e', 'r', '-']) by {
            assert(id@.take(6) == "buffer"@);
        }
        BufferId(id)
    }

    fn minibuf() -> (res: Self)
        ensures
            res@ == minibuf_id_chars(),
    {
        let s = String::from_str("buffer-minibuf");
        proof {
            reveal_strlit("buffer-minibuf");
        }
        BufferId(s)
    }

    pub fn is_minibuf(&self) -> (res: bool)
        ensures
            res == (self@ == minibuf_id_chars()),
    {
        self.0 == Self::minibuf().0
    }

    pub fn as_str(&self) -> (res: &str)
        ensures
            res@ == self@,
    {
        self.0.as_str()
    }

    pub fn from_string(s: String) -> (res: Self)
        ensures
            res@ == s@,
    {
        BufferId(s)
    }

    /// Whether two identifiers are the same.
    pub fn same(&self, other: &BufferId) -> (res: bool)
        ensures
            res == (self@ == other@),
    {
        self.0 == other.0
    }
}


// ---------------------------------------------------------------------
// Positions

/// A line and a char offset within it.
#[derive(Clone, Copy, Debug, Default, PartialEq, Eq, Structural)]
pub struct LinePosition {
    /// Line index.
    pub line: AbsLine,
    /// Character offset from the start of the line.
    pub offset: RelChar,
}

/// Marker name: the cursor may not move before it.
pub const PROMPT_END: &'static str = "prompt_end";

/// Marker name: the cursor may not move after it.
pub const COMPLETION_START: &'static str = "completion_start";

// ---------------------------------------------------------------------
// Cursor and marker maps

/// How every cursor of a buffer moves when the text changes.
pub enum Adjust {
    /// All text was removed.
    Reset,
    /// The chars `start..end` were removed.
    Delete(usize, usize),
    /// A char was inserted before `pos`.
    Insert(usize),
    /// The text was replaced by `len` chars.
    Clamp(usize),
}

pub open spec fn adjust_cursor(a: Adjust, c: AbsChar) -> AbsChar {
    match a {
        Adjust::Reset => AbsChar(0),
        Adjust::Delete(start, end) => if start <= c.0 < end {
            AbsChar(start)
        } else if c.0 >= end {
            AbsChar((c.0 - (end - start)) as usize)
        } else {
            c
        },
        Adjust::Insert(pos) => if c.0 >= pos {
            AbsChar((c.0 + 1) as usize)
        } else {
            c
        },
        Adjust::Clamp(len) => if c.0 > len {
            AbsChar(len)
        } else {
            c
        },
    }
}

pub open spec fn adjust_ok(a: Adjust, c: AbsChar) -> bool {
    match a {
        Adjust::Delete(start, end) => start <= end,
        Adjust::Insert(pos) => c.0 < usize::MAX,
        _ => true,
    }
}

/// The cursor of each pane showing a buffer, keyed by pane.
pub struct CursorMap {
    entries: Vec<(PaneId, AbsChar)>,
}

impl CursorMap {
    pub closed spec fn entry_views(&self) -> Seq<(Seq<char>, AbsChar)> {
        self.entries@.map_values(|p: (PaneId, AbsChar)| (p.0@, p.1))
    }

    pub closed spec fn wf(&self) -> bool {
        distinct_keys(self.entry_views())
    }
}

impl View for CursorMap {
    type V = Map<Seq<char>, AbsChar>;

    closed spec fn view(&self) -> Map<Seq<char>, AbsChar> {
        assoc_map(self.entry_views())
    }
}

impl Clone for CursorMap {
    fn clone(&self) -> (res: Self)
        ensures
            res@ == self@,
            self.wf() ==> res.wf(),
    {
        let mut entries: Vec<(PaneId, AbsChar)> = Vec::new();
        let mut i: usize = 0;
        while i < self.entries.len()
            invariant
                i <= self.entries@.len(),
                entries@.len() == i,
                forall|j: int|
                    0 <= j < i ==> (#[trigger] entries@[j]).0@ == self.entries@[j].0@
                        && entries@[j].1 == self.entries@[j].1,
            decreases self.entries@.len() - i,
        {
            entries.push((self.entries[i].0.clone(), self.entries[i].1));
            i = i + 1;
        }
        let res = CursorMap { entries };
        assert(res.entry_views() =~= self.entry_views());
        res
    }
}

impl CursorMap {
    pub fn new() -> (res: Self)
        ensures
            res@ == Map::<Seq<char>, AbsChar>::empty(),
            res.wf(),
    {
        let res = CursorMap { entries: Vec::new() };
        assert(res.entry_views() =~= Seq::<(Seq<char>, AbsChar)>::empty());
        res
    }

    pub fn len(&self) -> (res: usize)
        requires
            self.wf(),
        ensures
            res == self@.len(),
    {
        proof {
            self.lemma_len();
        }
        self.entries.len()
    }

    proof fn lemma_len(&self)
        requires
            self.wf(),
        ensures
            self@.dom().finite(),
            self@.len() == self.entry_views().len(),
    {
        lemma_distinct_len(self.entry_views());
    }

    /// Every cursor lies before `bound`.
    pub fn all_below(&self, bound: usize) -> (res: bool)
        requires
            self.wf(),
        ensures
            res == forall|k: Seq<char>| #[trigger] self@.dom().contains(k) ==> self@[k].0 < bound,
    {
        let mut i: usize = 0;
        while i < self.entries.len()
            invariant
                self.wf(),
                i <= self.entries@.len(),
                forall|j: int| 0 <= j < i ==> (#[trigger] self.entry_views()[j]).1.0 < bound,
            decreases self.entries@.len() - i,
        {
            if self.entries[i].1.0 >= bound {
                proof {
                    lemma_assoc_get(self.entry_views(), i as int);
                    let k = self.entry_views()[i as int].0;
                    assert(self@.dom().contains(k) && !(self@[k].0 < bound));
                }
                return false;
            }
            i = i + 1;
        }
        proof {
            assert forall|k: Seq<char>| #[trigger] self@.dom().contains(k) implies self@[k].0 < bound by {
                lemma_assoc_dom(self.entry_views(), k);
                let j = choose|j: int| 0 <= j < self.entry_views().len() && self.entry_views()[j].0 == k;
                lemma_assoc_get(self.entry_views(), j);
            }
        }
        true
    }

    /// The `i`th entry, in the order in which panes were added.
    pub fn entry(&self, i: usize) -> (res: (&PaneId, AbsChar))
        requires
            self.wf(),
            i < self@.len(),
        ensures
            self@.dom().contains(res.0@),
            self@[res.0@] == res.1,
    {
        proof {
            self.lemma_len();
            lemma_assoc_get(self.entry_views(), i as int);
        }
        (&self.entries[i].0, self.entries[i].1)
    }

    fn find(&self, pane_id: &PaneId) -> (res: Option<usize>)
        requires
            self.wf(),
        ensures
            res matches Some(i) ==> i < self.entries@.len() && self.entry_views()[i as int].0
                == pane_id@,
            res is None ==> !self@.dom().contains(pane_id@),
    {
        let mut i: usize = 0;
        while i < self.entries.len()
            invariant
                i <= self.entries@.len(),
                forall|j: int| 0 <= j < i ==> self.entry_views()[j].0 != pane_id@,
            decreases self.entries@.len() - i,
        {
            if self.entries[i].0.same(pane_id) {
                return Some(i);
            }
            i = i + 1;
        }
        proof {
            lemma_assoc_absent(self.entry_views(), pane_id@);
        }
        None
    }

    pub fn get(&self, pane_id: &PaneId) -> (res: Option<AbsChar>)
        requires
            self.wf(),
        ensures
            res == (if self@.dom().contains(pane_id@) {
                Some(self@[pane_id@])
            } else {
                None
            }),
    {
        match self.find(pane_id) {
            Some(i) => {
                proof {
                    lemma_assoc_get(self.entry_views(), i as int);
                }
                Some(self.entries[i].1)
            },
            None => None,
        }
    }

    pub fn insert(&mut self, pane_id: PaneId, pos: AbsChar)
        requires
            old(self).wf(),
        ensures
            final(self).wf(),
            final(self)@ == old(self)@.insert(pane_id@, pos),
    {
        let ghost old_views = self.entry_views();
        match self.find(&pane_id) {
            Some(i) => {
                proof {
                    lemma_assoc_update(old_views, i as int, pos);
                }
                self.entries.set(i, (pane_id, pos));
                assert(self.entry_views() =~= old_views.update(i as int, (old_views[i as int].0, pos)));
            },
            None => {
                let ghost k = pane_id@;
                proof {
                    lemma_assoc_push(old_views, k, pos);
                }
                self.entries.push((pane_id, pos));
                assert(self.entry_views() =~= old_views.push((k, pos)));
            },
        }
    }

    pub fn remove(&mut self, pane_id: &PaneId)
        requires
            old(self).wf(),
        ensures
            final(self).wf(),
            final(self)@ == old(self)@.remove(pane_id@),
    {
        let ghost old_views = self.entry_views();
        match self.find(pane_id) {
            Some(i) => {
                proof {
                    lemma_assoc_remove(old_views, i as int);
                }
                self.entries.remove(i);
                assert(self.entry_views() =~= old_views.remove(i as int));
            },
            None => {
                assert(old(self)@.remove(pane_id@) =~= old(self)@);
            },
        }
    }

    /// Move every cursor as `a` says.
    pub fn adjust_all(&mut self, a: Adjust)
        requires
            old(self).wf(),
            forall|k: Seq<char>| #[trigger]
                old(self)@.dom().contains(k) ==> adjust_ok(a, old(self)@[k]),
        ensures
            final(self).wf(),
            final(self)@ == old(self)@.map_values(|c: AbsChar| adjust_cursor(a, c)),
    {
        let ghost old_views = self.entry_views();
        let mut i: usize = 0;
        while i < self.entries.len()
            invariant
                i <= self.entries@.len(),
                self.entries@.len() == old_views.len(),
                old_views == old(self).entry_views(),
                distinct_keys(old_views),
                forall|k: Seq<char>| #[trigger]
                    old(self)@.dom().contains(k) ==> adjust_ok(a, old(self)@[k]),
                forall|j: int|
                    0 <= j < i ==> (#[trigger] self.entry_views()[j]).0 == old_views[j].0
                        && self.entry_views()[j].1 == adjust_cursor(a, old_views[j].1),
                forall|j: int| i <= j < old_views.len() ==> #[trigger] self.entry_views()[j] == old_views[j],
            decreases self.entries@.len() - i,
        {
            let c = self.entries[i].1;
            proof {
                lemma_assoc_get(old_views, i as int);
                assert(self.entry_views()[i as int] == old_views[i as int]);
                assert(old(self)@.dom().contains(old_views[i as int].0));
                assert(adjust_ok(a, c));
            }
            let new_c = match a {
                Adjust::Reset => AbsChar(0),
                Adjust::Delete(start, end) => if start <= c.0 && c.0 < end {
                    AbsChar(start)
                } else if c.0 >= end {
                    AbsChar(c.0 - (end - start))
                } else {
                    c
                },
                Adjust::Insert(pos) => if c.0 >= pos {
                    AbsChar(c.0 + 1)
                } else {
                    c
                },
                Adjust::Clamp(len) => if c.0 > len {
                    AbsChar(len)
                } else {
                    c
                },
            };
            let id = self.entries[i].0.clone();
            let ghost before = self.entry_views();
            self.entries.set(i, (id, new_c));
            assert(self.entry_views() =~= before.update(i as int, (before[i as int].0, new_c)));
            i = i + 1;
        }
        proof {
            lemma_assoc_map_values(old_views, self.entry_views(), |c: AbsChar| adjust_cursor(a, c));
        }
    }
}


/// Named positions in a buffer's text.
pub struct MarkerMap {
    entries: Vec<(String, AbsChar)>,
}

impl MarkerMap {
    pub closed spec fn entry_views(&self) -> Seq<(Seq<char>, AbsChar)> {
        self.entries@.map_values(|p: (String, AbsChar)| (p.0@, p.1))
    }

    pub closed spec fn wf(&self) -> bool {
        distinct_keys(self.entry_views())
    }
}

impl View for MarkerMap {
    type V = Map<Seq<char>, AbsChar>;

    closed spec fn view(&self) -> Map<Seq<char>, AbsChar> {
        assoc_map(self.entry_views())
    }
}

impl Clone for MarkerMap {
    fn clone(&self) -> (res: Self)
        ensures
            res@ == self@,
            self.wf() ==> res.wf(),
    {
        let mut entries: Vec<(String, AbsChar)> = Vec::new();
        let mut i: usize = 0;
        while i < self.entries.len()
            invariant
                i <= self.entries@.len(),
                entries@.len() == i,
                forall|j: int|
                    0 <= j < i ==> (#[trigger] entries@[j]).0@ == self.entries@[j].0@
                        && entries@[j].1 == self.entries@[j].1,
            decreases self.entries@.len() - i,
        {
            entries.push((self.entries[i].0.clone(), self.entries[i].1));
            i = i + 1;
        }
        let res = MarkerMap { entries };
        assert(res.entry_views() =~= self.entry_views());
        res
    }
}

impl MarkerMap {
    pub fn new() -> (res: Self)
        ensures
            res@ == Map::<Seq<char>, AbsChar>::empty(),
            res.wf(),
    {
        let res = MarkerMap { entries: Vec::new() };
        assert(res.entry_views() =~= Seq::<(Seq<char>, AbsChar)>::empty());
        res
    }

    fn find(&self, name: &str) -> (res: Option<usize>)
        requires
            self.wf(),
        ensures
            res matches Some(i) ==> i < self.entries@.len() && self.entry_views()[i as int].0
                == name@,
            res is None ==> !self@.dom().contains(name@),
    {
        let key = String::from_str(name);
        let mut i: usize = 0;
        while i < self.entries.len()
            invariant
                i <= self.entries@.len(),
                key@ == name@,
                forall|j: int| 0 <= j < i ==> self.entry_views()[j].0 != name@,
            decreases self.entries@.len() - i,
        {
            if self.entries[i].0 == key {
                return Some(i);
            }
            i = i + 1;
        }
        proof {
            lemma_assoc_absent(self.entry_views(), name@);
        }
        None
    }

    pub fn get(&self, name: &str) -> (res: Option<AbsChar>)
        requires
            self.wf(),
        ensures
            res == (if self@.dom().contains(name@) {
                Some(self@[name@])
            } else {
                None
            }),
    {
        match self.find(name) {
            Some(i) => {
                proof {
                    lemma_assoc_get(self.entry_views(), i as int);
                }
                Some(self.entries[i].1)
            },
            None => None,
        }
    }

    pub fn insert(&mut self, name: String, pos: AbsChar)
        requires
            old(self).wf(),
        ensures
            final(self).wf(),
            final(self)@ == old(self)@.insert(name@, pos),
    {
        let ghost old_views = self.entry_views();
        match self.find(name.as_str()) {
            Some(i) => {
                proof {
                    lemma_assoc_update(old_views, i as int, pos);
                }
                self.entries.set(i, (name, pos));
                assert(self.entry_views() =~= old_views.update(i as int, (old_views[i as int].0, pos)));
            },
            None => {
                let ghost k = name@;
                proof {
                    lemma_assoc_push(old_views, k, pos);
                }
                self.entries.push((name, pos));
                assert(self.entry_views() =~= old_views.push((k, pos)));
            },
        }
    }
}


// ---------------------------------------------------------------------
// Search

/// Matching spans within a line.
#[derive(Debug)]
pub struct LineMatches {
    pub spans: Vec<core::ops::Range<usize>>,
}

impl Default for LineMatches {
    fn default() -> (res: Self)
        ensures
            res.spans@ == Seq::<core::ops::Range<usize>>::empty(),
    {
        LineMatches { spans: Vec::new() }
    }
}

impl Clone for LineMatches {
    fn clone(&self) -> (res: Self)
        ensures
            res.spans@ == self.spans@,
    {
        let mut spans: Vec<core::ops::Range<usize>> = Vec::new();
        let mut i: usize = 0;
        while i < self.spans.len()
            invariant
                i <= self.spans@.len(),
                spans@ == self.spans@.take(i as int),
            decreases self.spans@.len() - i,
        {
            let r = self.spans[i].start..self.spans[i].end;
            spans.push(r);
            i = i + 1;
            assert(spans@ =~= self.spans@.take(i as int));
        }
        assert(spans@ =~= self.spans@);
        LineMatches { spans }
    }
}

#[verifier::external_type_specification]
#[verifier::external_body]
pub struct ExAhoCorasick(AhoCorasick);

/// Whether `AhoCorasick::new` builds a searcher for the single pattern.
pub uninterp spec fn searcher_builds(pattern: Seq<char>) -> bool;

/// The pattern that a searcher was built for.
pub uninterp spec fn searcher_pattern(ac: AhoCorasick) -> Seq<char>;

/// The occurrences of `pattern` in `haystack` at or after char `i`, as
/// char ranges: the leftmost one, then those after its end.
pub open spec fn occurrences_from(pattern: Seq<char>, haystack: Seq<char>, i: int) -> Seq<(int, int)>
    decreases haystack.len() - i,
{
    if pattern.len() == 0 || i < 0 || i + pattern.len() > haystack.len() {
        Seq::empty()
    } else if haystack.subrange(i, i + pattern.len()) == pattern {
        seq![(i, i + pattern.len())] + occurrences_from(pattern, haystack, i + pattern.len())
    } else {
        occurrences_from(pattern, haystack, i + 1)
    }
}

/// The non-overlapping occurrences of `pattern` in `haystack`, leftmost
/// first, as byte ranges of the utf8 encoding.
pub open spec fn pattern_matches(pattern: Seq<char>, haystack: Seq<char>) -> Seq<(usize, usize)> {
    occurrences_from(pattern, haystack, 0).map_values(
        |r: (int, int)| (utf8_len(haystack.take(r.0)) as usize, utf8_len(haystack.take(r.1)) as usize),
    )
}

/// `AhoCorasick::new` with the single pattern `pattern`. aho-corasick
/// documents that building fails only when a size limit is exceeded,
/// which is not stated here beyond naming the outcome.
#[verifier::external_body]
fn build_searcher(pattern: &str) -> (res: Option<AhoCorasick>)
    ensures
        res is Some <==> searcher_builds(pattern@),
        res matches Some(ac) ==> searcher_pattern(ac) == pattern@,
{
    AhoCorasick::new([pattern]).ok()
}

/// `AhoCorasick::find_iter` over `haystack`, collected as the start and
/// end byte offset of each match. With the default (standard) match kind
/// and one non-empty pattern, the iterator reports each occurrence as it
/// is seen and goes on after its end: the leftmost occurrences that do
/// not overlap. As both are valid utf8, an occurrence of the pattern's
/// bytes starts and ends at char boundaries.
#[verifier::external_body]
fn find_matches(ac: &AhoCorasick, haystack: &str) -> (res: Vec<(usize, usize)>)
    requires
        searcher_pattern(*ac).len() > 0,
    ensures
        res@ == pattern_matches(searcher_pattern(*ac), haystack@),
{
    ac.find_iter(haystack).map(|m| (m.start(), m.end())).collect()
}

/// The match spans that a search for `pattern` finds in `line`.
pub open spec fn line_match_spans(pattern: Seq<char>, line: Seq<char>) -> Seq<core::ops::Range<usize>> {
    if searcher_builds(pattern) {
        pattern_matches(pattern, line).map_values(
            |p: (usize, usize)| core::ops::Range { start: p.0, end: p.1 },
        )
    } else {
        Seq::empty()
    }
}

pub struct SearchState {
    pane_id: PaneId,
    matches: LineDataVec<LineMatches>,
}

/// Span `j` of line entry `k` counts as a match at or after `(line,
/// offset)`.
pub open spec fn is_later_match(
    m: (nat, Seq<LineMatches>),
    line: int,
    offset: int,
    k: int,
    j: int,
) -> bool {
    &&& line >= m.0
    &&& line - m.0 <= k < m.1.len()
    &&& 0 <= j < m.1[k].spans@.len()
    &&& !(m.0 + k == line && m.1[k].spans@[j].start < offset)
}

/// Span `j` of line entry `k` is the first match at or after `(line,
/// offset)`.
pub open spec fn is_first_later(m: (nat, Seq<LineMatches>), line: int, offset: int, k: int, j: int) -> bool {
    &&& is_later_match(m, line, offset, k, j)
    &&& forall|k2: int, j2: int|
        match_before(k2, j2, k, j) ==> !is_later_match(m, line, offset, k2, j2)
}

/// Entry `(k, j)` comes before `(k2, j2)`.
pub open spec fn match_before(k: int, j: int, k2: int, j2: int) -> bool {
    k < k2 || (k == k2 && j < j2)
}

impl SearchState {
    pub closed spec fn pane(&self) -> Seq<char> {
        self.pane_id@
    }

    pub closed spec fn matches(&self) -> (nat, Seq<LineMatches>) {
        self.matches@
    }

    /// The matches of line `line_index`, when the search was made for
    /// `pane` and covers that line.
    pub fn line_matches(&self, pane: &Pane, line_index: AbsLine) -> (res: Option<&LineMatches>)
        ensures
            pane.pid() != self.pane() ==> res is None,
            pane.pid() == self.pane() ==> ((self.matches().0 <= line_index.0 < self.matches().0
                + self.matches().1.len()) <==> res is Some),
            res matches Some(r) ==> *r == self.matches().1[line_index.0 - self.matches().0],
    {
        if !pane.id().same(&self.pane_id) {
            return None;
        }
        self.matches.get(line_index)
    }

    /// The first match at or after `line_pos`, in line order and then in
    /// the order found within the line.
    pub fn next_match(&self, line_pos: LinePosition) -> (res: Option<LinePosition>)
        requires
            self.matches().0 + self.matches().1.len() <= usize::MAX,
        ensures
            res is None ==> forall|k: int, j: int|
                !is_later_match(self.matches(), line_pos.line.0 as int, line_pos.offset.0 as int, k, j),
            res matches Some(p) ==> exists|k: int, j: int|
                #![trigger is_later_match(self.matches(), line_pos.line.0 as int, line_pos.offset.0 as int, k, j)]
                {
                    &&& is_later_match(self.matches(), line_pos.line.0 as int, line_pos.offset.0 as int, k, j)
                    &&& forall|k2: int, j2: int|
                        match_before(k2, j2, k, j) ==> !is_later_match(
                            self.matches(),
                            line_pos.line.0 as int,
                            line_pos.offset.0 as int,
                            k2,
                            j2,
                        )
                    &&& p.line.0 == self.matches().0 + k
                    &&& p.offset.0 == self.matches().1[k].spans@[j].start
                },
    {
        let ghost m = self.matches();
        let ghost line = line_pos.line.0 as int;
        let ghost offset = line_pos.offset.0 as int;
        let mut iter = self.matches.starting_from(line_pos.line);
        loop
            invariant
                iter.data() == &self.matches,
                m == self.matches@,
                line == line_pos.line.0 as int,
                offset == line_pos.offset.0 as int,
                m.0 + m.1.len() <= usize::MAX,
                line >= m.0 ==> iter.offset() >= line - m.0,
                line < m.0 ==> iter.offset() == m.1.len(),
                forall|k: int, j: int|
                    k < iter.offset() ==> !is_later_match(m, line, offset, k, j),
            decreases m.1.len() - iter.offset(),
        {
            let ghost k = iter.offset() as int;
            match iter.next() {
                None => {
                    assert(iter.offset() >= m.1.len());
                    assert forall|k2: int, j2: int|
                        !is_later_match(
                            self.matches(),
                            line_pos.line.0 as int,
                            line_pos.offset.0 as int,
                            k2,
                            j2,
                        ) by {
                        if k2 < iter.offset() {
                            assert(!is_later_match(m, line, offset, k2, j2));
                        }
                    }
                    return None;
                },
                Some(lm) => {
                    let mut j: usize = 0;
                    while j < lm.data.spans.len()
                        invariant
                            m == self.matches@,
                            line == line_pos.line.0 as int,
                            offset == line_pos.offset.0 as int,
                            0 <= k < m.1.len(),
                            *lm.data == m.1[k],
                            lm.index.0 == m.0 + k,
                            j <= lm.data.spans@.len(),
                            forall|k2: int, j2: int|
                                k2 < k ==> !is_later_match(m, line, offset, k2, j2),
                            forall|j2: int| j2 < j ==> !is_later_match(m, line, offset, k, j2),
                            line >= m.0 ==> k >= line - m.0,
                            line < m.0 ==> false,
                        decreases lm.data.spans@.len() - j,
                    {
                        let span_start = lm.data.spans[j].start;
                        assert(span_start == m.1[k].spans@[j as int].start);
                        if lm.index.0 == line_pos.line.0 && span_start < line_pos.offset.0 {
                            j = j + 1;
                            continue;
                        }
                        let res = LinePosition { line: lm.index, offset: RelChar(span_start) };
                        assert(is_later_match(m, line, offset, k, j as int));
                        assert forall|k2: int, j2: int| match_before(k2, j2, k, j as int) implies !is_later_match(
                            self.matches(),
                            line_pos.line.0 as int,
                            line_pos.offset.0 as int,
                            k2,
                            j2,
                        ) by {
                            if k2 < k {
                                assert(!is_later_match(m, line, offset, k2, j2));
                            } else {
                                assert(!is_later_match(m, line, offset, k, j2));
                            }
                        }
                        assert(is_later_match(
                            self.matches(),
                            line_pos.line.0 as int,
                            line_pos.offset.0 as int,
                            k,
                            j as int,
                        ));
                        return Some(res);
                    }
                    assert forall|j2: int| !is_later_match(m, line, offset, k, j2) by {}
                },
            }
        }
    }
}

// ---------------------------------------------------------------------
// Buffers

#[derive(Clone, Copy, Debug, PartialEq, Eq, Structural)]
pub enum ActionType {
    Other,
    Clear,
    InsertChar,
    Deletion,
}

/// The text, markers and cursors of one history entry.
pub type HistoryView = (Seq<char>, Map<Seq<char>, AbsChar>, Map<Seq<char>, AbsChar>);

struct HistoryItem {
    text: Rope,
    markers: MarkerMap,
    cursors: CursorMap,
}

impl HistoryItem {
    spec fn view(&self) -> HistoryView {
        (self.text@, self.markers@, self.cursors@)
    }

    spec fn wf(&self) -> bool {
        self.markers.wf() && self.cursors.wf()
    }

    fn clone_item(&self) -> (res: Self)
        ensures
            res.view() == self.view(),
            self.wf() ==> res.wf(),
    {
        HistoryItem {
            text: self.text.clone(),
            markers: self.markers.clone(),
            cursors: self.cursors.clone(),
        }
    }
}

/// The history, active entry and last action type after an edit of
/// type `at` prepares the history: entries after the active one are
/// dropped, and unless the edit continues the last one, a copy of the
/// active entry becomes the new active entry.
pub open spec fn stored_history(
    h: Seq<HistoryView>,
    active: int,
    last: ActionType,
    at: ActionType,
) -> (Seq<HistoryView>, int, ActionType) {
    let truncated = active != h.len() - 1;
    let h1 = if truncated {
        h.take(active + 1)
    } else {
        h
    };
    let last1 = if truncated {
        ActionType::Other
    } else {
        last
    };
    if last1 != at || at == ActionType::Other {
        (h1.push(h1.last()), h1.len() as int, at)
    } else {
        (h1, h1.len() - 1, last1)
    }
}

pub struct Buffer {
    id: BufferId,
    path: Option<PathBuf>,
    history: Vec<HistoryItem>,
    active_history_index: usize,
    last_action_type: ActionType,
    style_spans: LineDataVec<StyledLine>,
    search: Option<SearchState>,
    non_interactive_process: bool,
}

/// The line position of char `pos` of `t`.
pub open spec fn spec_line_position(t: Seq<char>, pos: int) -> (nat, int) {
    (breaks_before(t, pos), pos - line_start(t, breaks_before(t, pos)))
}

/// A match at char `offset` of line `line` of `t` lies within the text's
/// lines, at an index that fits in `usize`.
pub open spec fn match_fits(t: Seq<char>, line: int, offset: usize) -> bool {
    &&& line <= spec_len_lines(t)
    &&& line_start(t, line as nat) + offset <= usize::MAX
}

/// Every match of the buffer's search lies within a line of its text,
/// at an index that fits in `usize`.
pub open spec fn search_fits(buf: &Buffer) -> bool {
    buf.search_value() matches Some(st) ==> {
        &&& st.matches().0 + st.matches().1.len() <= usize::MAX
        &&& forall|k: int, j: int|
            0 <= k < st.matches().1.len() && 0 <= j < st.matches().1[k].spans@.len()
                ==> match_fits(
                buf.cur_text(),
                st.matches().0 + k,
                #[trigger] st.matches().1[k].spans@[j].start,
            )
    }
}

/// Where `find_boundary` lands from `pos`.
pub open spec fn spec_find_boundary(t: Seq<char>, pos: int, boundary: Boundary, dir: Direction) -> int {
    match boundary {
        Boundary::Grapheme => match dir {
            Direction::Dec => prev_boundary(grapheme_clusters(t), pos),
            Direction::Inc => next_boundary(grapheme_clusters(t), pos),
        },
        Boundary::LineEnd => {
            let l = breaks_before(t, pos);
            match dir {
                Direction::Dec => line_start(t, l) as int,
                Direction::Inc => {
                    let lt = line_text(t, l);
                    line_start(t, l) + lt.len() - (if lt.len() > 0 && lt.last() == '\n' {
                        1int
                    } else {
                        0int
                    })
                },
            }
        },
        Boundary::BufferEnd => match dir {
            Direction::Dec => 0,
            Direction::Inc => t.len() as int,
        },
    }
}

/// The length of line text `lt` without its trailing newline: where the
/// end of the line is for the cursor.
pub open spec fn content_len(lt: Seq<char>) -> nat {
    if lt.len() > 0 && lt.last() == '\n' {
        (lt.len() - 1) as nat
    } else {
        lt.len()
    }
}

/// `n` graphemes into line text `lt`, or the end of the line, before its
/// newline, when the line holds fewer.
pub open spec fn graphemes_into(lt: Seq<char>, n: int) -> nat {
    let w = width_of_first(grapheme_clusters(lt), n);
    if w <= content_len(lt) {
        w
    } else {
        content_len(lt)
    }
}

/// Where moving `n` lines from `pos` lands: the same number of
/// graphemes into the target line, or its end.
pub open spec fn spec_move_lines(t: Seq<char>, pos: int, n: int, dir: Direction) -> int {
    let l = breaks_before(t, pos);
    let g = pieces_before(grapheme_clusters(line_text(t, l)), pos - line_start(t, l));
    let max_line = spec_len_lines(t) - 1;
    let l2 = match dir {
        Direction::Dec => if l >= n {
            l - n
        } else {
            0
        },
        Direction::Inc => if l + n <= max_line {
            l + n
        } else {
            max_line
        },
    };
    (line_start(t, l2 as nat) + graphemes_into(line_text(t, l2 as nat), g as int)) as int
}

/// Keep `pos` from moving before the prompt end or after the
/// completion start markers.
pub open spec fn clamp_to_markers(markers: Map<Seq<char>, AbsChar>, pos: int) -> int {
    let p1 = if markers.dom().contains("prompt_end"@) && pos < markers["prompt_end"@].0 {
        markers["prompt_end"@].0 as int
    } else {
        pos
    };
    if markers.dom().contains("completion_start"@) && p1 > markers["completion_start"@].0 {
        markers["completion_start"@].0 as int
    } else {
        p1
    }
}

pub open spec fn spec_move_cursor(
    t: Seq<char>,
    markers: Map<Seq<char>, AbsChar>,
    pos: int,
    step: Move,
    dir: Direction,
) -> int {
    let moved = match step {
        Move::Boundary(b) => spec_find_boundary(t, pos, b, dir),
        Move::Line => spec_move_lines(t, pos, 1, dir),
        Move::Page => spec_move_lines(t, pos, 20, dir),
    };
    clamp_to_markers(markers, moved)
}

impl Buffer {
    pub closed spec fn wf(&self) -> bool {
        &&& self.history@.len() >= 1
        &&& self.active_history_index < self.history@.len()
        &&& forall|i: int| 0 <= i < self.history@.len() ==> (#[trigger] self.history@[i]).wf()
    }

    pub closed spec fn history(&self) -> Seq<HistoryView> {
        self.history@.map_values(|h: HistoryItem| h.view())
    }

    pub closed spec fn active(&self) -> int {
        self.active_history_index as int
    }

    pub closed spec fn last_action(&self) -> ActionType {
        self.last_action_type
    }

    pub closed spec fn buffer_id(&self) -> Seq<char> {
        self.id@
    }

    pub closed spec fn path_value(&self) -> Option<PathBuf> {
        self.path
    }

    pub closed spec fn spans(&self) -> (nat, Seq<StyledLine>) {
        self.style_spans@
    }

    pub closed spec fn search_value(&self) -> Option<SearchState> {
        self.search
    }

    pub closed spec fn process_flag(&self) -> bool {
        self.non_interactive_process
    }

    pub open spec fn cur(&self) -> HistoryView {
        self.history()[self.active()]
    }

    pub open spec fn cur_text(&self) -> Seq<char> {
        self.cur().0
    }

    pub open spec fn cur_cursors(&self) -> Map<Seq<char>, AbsChar> {
        self.cur().2
    }

    pub open spec fn cur_markers(&self) -> Map<Seq<char>, AbsChar> {
        self.cur().1
    }

    /// Identity and search state are unchanged.
    pub open spec fn same_identity(&self, other: &Buffer) -> bool {
        &&& self.buffer_id() == other.buffer_id()
        &&& self.path_value() == other.path_value()
        &&& self.search_value() == other.search_value()
        &&& self.process_flag() == other.process_flag()
    }

    /// `self` is `old` after an undo: the entry before the active one
    /// becomes active, when there is one.
    pub open spec fn undone_from(&self, old: &Buffer) -> bool {
        &&& self.history() == old.history()
        &&& self.active() == (if old.active() > 0 {
            old.active() - 1
        } else {
            0
        })
        &&& self.last_action() == old.last_action()
        &&& self.spans() == (old.spans().0, Seq::<StyledLine>::empty())
        &&& self.same_identity(old)
    }

    /// `self` is `old` after a redo: the entry after the active one
    /// becomes active, when there is one.
    pub open spec fn redone_from(&self, old: &Buffer) -> bool {
        &&& self.history() == old.history()
        &&& self.active() == (if old.active() + 1 < old.history().len() {
            old.active() + 1
        } else {
            old.active()
        })
        &&& self.last_action() == old.last_action()
        &&& self.spans() == (old.spans().0, Seq::<StyledLine>::empty())
        &&& self.same_identity(old)
    }

    /// An edit of type `at` starts a new history entry, rather than
    /// extending the active one: the last action differs, the action is
    /// of no kind that extends, or entries after the active one are
    /// dropped.
    pub open spec fn starts_entry(&self, at: ActionType) -> bool {
        self.last_action() != at || at == ActionType::Other || self.active() != self.history().len() - 1
    }

    /// `self` is `old` with the cursor of pane `pid` removed from every
    /// history entry.
    pub open spec fn cursor_removed_from(&self, old: &Buffer, pid: Seq<char>) -> bool {
        &&& self.wf()
        &&& self.history().len() == old.history().len()
        &&& forall|i: int|
            0 <= i < old.history().len() ==> #[trigger] self.history()[i] == (
                old.history()[i].0,
                old.history()[i].1,
                old.history()[i].2.remove(pid),
            )
        &&& self.active() == old.active()
        &&& self.last_action() == old.last_action()
        &&& self.spans() == old.spans()
        &&& self.same_identity(old)
    }

    /// `self` is `old` with the cursor of pane `pid` in the active entry
    /// set to `c`.
    pub open spec fn cursor_set_from(&self, old: &Buffer, pid: Seq<char>, c: AbsChar) -> bool {
        &&& self.wf()
        &&& self.history() == old.history().update(
            old.active(),
            (old.cur_text(), old.cur_markers(), old.cur_cursors().insert(pid, c)),
        )
        &&& self.active() == old.active()
        &&& self.last_action() == ActionType::Other
        &&& self.spans() == old.spans()
        &&& self.same_identity(old)
    }

    /// `self` is `old` after an edit of type `at` that leaves text `t`,
    /// markers unchanged and cursors `c` in the new active entry, with the
    /// style spans cleared.
    pub open spec fn edited_from(
        &self,
        old: &Buffer,
        at: ActionType,
        t: Seq<char>,
        c: Map<Seq<char>, AbsChar>,
    ) -> bool {
        let (h1, a1, l1) = stored_history(old.history(), old.active(), old.last_action(), at);
        &&& self.history() == h1.update(a1, (t, old.cur_markers(), c))
        &&& self.active() == a1
        &&& self.last_action() == l1
        &&& self.spans() == (old.spans().0, Seq::<StyledLine>::empty())
        &&& self.same_identity(old)
    }

    fn new(id: BufferId, text: Rope, path: Option<PathBuf>) -> (res: Self)
        ensures
            res.wf(),
            res.buffer_id() == id@,
            res.path_value() == path,
            res.history() == seq![(text@, Map::<Seq<char>, AbsChar>::empty(), Map::<Seq<char>, AbsChar>::empty())],
            res.active() == 0,
            res.last_action() == ActionType::Other,
            res.spans() == (0nat, Seq::<StyledLine>::empty()),
            res.search_value() is None,
            !res.process_flag(),
    {
        let item = HistoryItem { text, markers: MarkerMap::new(), cursors: CursorMap::new() };
        let mut history: Vec<HistoryItem> = Vec::new();
        history.push(item);
        let res = Buffer {
            id,
            history,
            active_history_index: 0,
            last_action_type: ActionType::Other,
            path,
            style_spans: LineDataVec::new(AbsLine::zero()),
            search: None,
            non_interactive_process: false,
        };
        assert(res.history() =~= seq![(text@, Map::<Seq<char>, AbsChar>::empty(), Map::<Seq<char>, AbsChar>::empty())]);
        res
    }

    /// An empty buffer with no associated path.
    pub fn create_empty() -> (res: Self)
        ensures
            res.wf(),
            res.buffer_id().len() == 15,
            res.path_value() is None,
            res.history() == seq![(Seq::<char>::empty(), Map::<Seq<char>, AbsChar>::empty(), Map::<Seq<char>, AbsChar>::empty())],
            res.active() == 0,
            res.last_action() == ActionType::Other,
            res.search_value() is None,
            !res.process_flag(),
    {
        Self::new(BufferId::new(), Rope::new(), None)
    }

    pub fn create_minibuf() -> (res: Self)
        ensures
            res.wf(),
            res.buffer_id() == minibuf_id_chars(),
            res.path_value() is None,
            res.history() == seq![(Seq::<char>::empty(), Map::<Seq<char>, AbsChar>::empty(), Map::<Seq<char>, AbsChar>::empty())],
            res.active() == 0,
            res.search_value() is None,
            !res.process_flag(),
    {
        Self::new(BufferId::minibuf(), Rope::new(), None)
    }

    /// An empty buffer that shows the output of a non-interactive process.
    pub fn create_for_non_interactive_process() -> (res: Self)
        ensures
            res.wf(),
            res.buffer_id().len() == 15,
            res.path_value() is None,
            res.history() == seq![(Seq::<char>::empty(), Map::<Seq<char>, AbsChar>::empty(), Map::<Seq<char>, AbsChar>::empty())],
            res.active() == 0,
            res.search_value() is None,
            res.process_flag(),
    {
        let mut buf = Self::new(BufferId::new(), Rope::new(), None);
        buf.non_interactive_process = true;
        buf
    }

    /// A buffer holding `text`, read from `path`.
    pub fn from_path_and_text(path: PathBuf, text: Rope) -> (res: Self)
        ensures
            res.wf(),
            res.buffer_id().len() == 15,
            res.path_value() == Some(path),
            res.history() == seq![(text@, Map::<Seq<char>, AbsChar>::empty(), Map::<Seq<char>, AbsChar>::empty())],
            res.active() == 0,
            res.search_value() is None,
            !res.process_flag(),
    {
        Self::new(BufferId::new(), text, Some(path))
    }

    /// A buffer holding `text`, read from `path`, under the identifier it
    /// was persisted with.
    pub fn restore(id: BufferId, path: PathBuf, text: Rope) -> (res: Self)
        ensures
            res.wf(),
            res.buffer_id() == id@,
            res.path_value() == Some(path),
            res.history() == seq![(text@, Map::<Seq<char>, AbsChar>::empty(), Map::<Seq<char>, AbsChar>::empty())],
            res.active() == 0,
            res.search_value() is None,
            !res.process_flag(),
    {
        Self::new(id, text, Some(path))
    }

    pub fn id(&self) -> (res: &BufferId)
        ensures
            res@ == self.buffer_id(),
    {
        &self.id
    }

    /// The buffer shows the output of a non-interactive process.
    pub fn has_non_interactive_process(&self) -> (res: bool)
        ensures
            res == self.process_flag(),
    {
        self.non_interactive_process
    }

    pub fn text(&self) -> (res: &Rope)
        requires
            self.wf(),
        ensures
            res@ == self.cur_text(),
    {
        &self.history[self.active_history_index].text
    }

    pub fn path(&self) -> (res: Option<&PathBuf>)
        ensures
            res == (match self.path_value() {
                Some(p) => Some(&p),
                None => None::<&PathBuf>,
            }),
    {
        match &self.path {
            Some(p) => Some(p),
            None => None,
        }
    }

    pub fn style_spans(&self) -> (res: &LineDataVec<StyledLine>)
        ensures
            res@ == self.spans(),
    {
        &self.style_spans
    }

    /// Replace the style spans, one entry per line from the first.
    pub fn set_style_spans(&mut self, spans: Vec<StyledLine>)
        requires
            old(self).wf(),
        ensures
            final(self).wf(),
            final(self).spans() == (old(self).spans().0, spans@),
            final(self).history() == old(self).history(),
            final(self).active() == old(self).active(),
            final(self).last_action() == old(self).last_action(),
            final(self).same_identity(old(self)),
    {
        let mut styles: LineDataVec<StyledLine> = LineDataVec::new(self.style_spans.start_line());
        let mut spans = spans;
        let ghost all = spans@;
        let mut rev: Vec<StyledLine> = Vec::new();
        while spans.len() > 0
            invariant
                spans@ + rev@.reverse() == all,
            decreases spans@.len(),
        {
            let x = spans.pop().unwrap();
            rev.push(x);
            assert(spans@ + rev@.reverse() =~= all);
        }
        assert(rev@.reverse() =~= all);
        let ghost start = styles@.0;
        while rev.len() > 0
            invariant
                styles@.0 == start,
                styles@.1 + rev@.reverse() == all,
            decreases rev@.len(),
        {
            let x = rev.pop().unwrap();
            styles.push(x);
            assert(styles@.1 + rev@.reverse() =~= all);
        }
        assert(styles@.1 =~= all);
        self.style_spans = styles;
    }

    /// Whether every match of the search lies within a line of the text,
    /// at an index that fits in `usize`.
    pub fn search_fits_text(&self) -> (res: bool)
        requires
            self.wf(),
        ensures
            res == search_fits(self),
    {
        match &self.search {
            None => true,
            Some(st) => {
                let start = st.matches.start_line().0;
                let len = st.matches.len();
                if start > usize::MAX - len {
                    return false;
                }
                let text = self.text();
                let len_lines = text.len_lines();
                let ghost m = st.matches@;
                let ghost t = self.cur_text();
                let mut k: usize = 0;
                while k < len
                    invariant
                        self.search_value() == Some(*st),
                        st.matches() == m,
                        t == self.cur_text(),
                        text@ == t,
                        start == m.0,
                        len == m.1.len(),
                        start + len <= usize::MAX,
                        len_lines == spec_len_lines(t),
                        k <= len,
                        forall|k2: int, j2: int|
                            0 <= k2 < k && 0 <= j2 < m.1[k2].spans@.len() ==> match_fits(
                                t,
                                m.0 + k2,
                                #[trigger] m.1[k2].spans@[j2].start,
                            ),
                    decreases len - k,
                {
                    let lm = st.matches.get(AbsLine(start + k)).unwrap();
                    let n = lm.spans.len();
                    let mut j: usize = 0;
                    while j < n
                        invariant
                            self.search_value() == Some(*st),
                            st.matches() == m,
                            t == self.cur_text(),
                            text@ == t,
                            start == m.0,
                            k < m.1.len(),
                            *lm == m.1[k as int],
                            n == lm.spans@.len(),
                            start + k <= usize::MAX,
                            len_lines == spec_len_lines(t),
                            j <= n,
                            forall|k2: int, j2: int|
                                0 <= k2 < k && 0 <= j2 < m.1[k2].spans@.len() ==> match_fits(
                                    t,
                                    m.0 + k2,
                                    #[trigger] m.1[k2].spans@[j2].start,
                                ),
                            forall|j2: int|
                                0 <= j2 < j ==> match_fits(
                                    t,
                                    m.0 + k,
                                    #[trigger] m.1[k as int].spans@[j2].start,
                                ),
                        decreases n - j,
                    {
                        if start + k > len_lines {
                            assert(!match_fits(t, m.0 + k, m.1[k as int].spans@[j as int].start));
                            return false;
                        }
                        let ls = text.line_to_char(AbsLine(start + k));
                        if ls > usize::MAX - lm.spans[j].start {
                            assert(!match_fits(t, m.0 + k, m.1[k as int].spans@[j as int].start));
                            return false;
                        }
                        j = j + 1;
                    }
                    assert forall|k2: int, j2: int|
                        0 <= k2 < k + 1 && 0 <= j2 < m.1[k2].spans@.len() implies match_fits(
                            t,
                            m.0 + k2,
                            #[trigger] m.1[k2].spans@[j2].start,
                        ) by {
                        if k2 == k {
                            assert(m.1[k as int].spans@[j2] == m.1[k2].spans@[j2]);
                        }
                    }
                    k = k + 1;
                }
                true
            },
        }
    }

    pub fn search_state(&self) -> (res: &Option<SearchState>)
        ensures
            *res == self.search_value(),
    {
        &self.search
    }

    pub fn get_marker(&self, name: &str) -> (res: Option<AbsChar>)
        requires
            self.wf(),
        ensures
            res == (if self.cur_markers().dom().contains(name@) {
                Some(self.cur_markers()[name@])
            } else {
                None
            }),
    {
        self.history[self.active_history_index].markers.get(name)
    }

    pub fn set_marker(&mut self, name: String, pos: AbsChar)
        requires
            old(self).wf(),
        ensures
            final(self).wf(),
            final(self).history() == old(self).history().update(
                old(self).active(),
                (old(self).cur_text(), old(self).cur_markers().insert(name@, pos), old(self).cur_cursors()),
            ),
            final(self).active() == old(self).active(),
            final(self).last_action() == old(self).last_action(),
            final(self).spans() == old(self).spans(),
            final(self).same_identity(old(self)),
    {
        let idx = self.active_history_index;
        let mut item = self.history[idx].clone_item();
        item.markers.insert(name, pos);
        let ghost iv = item.view();
        self.history.set(idx, item);
        assert(self.history() =~= old(self).history().update(idx as int, iv));
    }

    pub fn cursor(&self, pane_id: &PaneId) -> (res: AbsChar)
        requires
            self.wf(),
            self.cur_cursors().dom().contains(pane_id@),
        ensures
            res == self.cur_cursors()[pane_id@],
    {
        match self.history[self.active_history_index].cursors.get(pane_id) {
            Some(c) => c,
            None => AbsChar(0),
        }
    }

    pub fn cursors(&self) -> (res: &CursorMap)
        requires
            self.wf(),
        ensures
            res@ == self.cur_cursors(),
            res.wf(),
    {
        &self.history[self.active_history_index].cursors
    }

    pub fn set_cursor(&mut self, pane_id: &PaneId, cursor: AbsChar)
        requires
            old(self).wf(),
        ensures
            final(self).wf(),
            final(self).history() == old(self).history().update(
                old(self).active(),
                (old(self).cur_text(), old(self).cur_markers(), old(self).cur_cursors().insert(pane_id@, cursor)),
            ),
            final(self).active() == old(self).active(),
            final(self).last_action() == ActionType::Other,
            final(self).spans() == old(self).spans(),
            final(self).same_identity(old(self)),
            final(self).cursor_set_from(old(self), pane_id@, cursor),
    {
        self.last_action_type = ActionType::Other;
        let idx = self.active_history_index;
        let mut item = self.history[idx].clone_item();
        item.cursors.insert(pane_id.clone(), cursor);
        let ghost iv = item.view();
        self.history.set(idx, item);
        assert(self.history() =~= old(self).history().update(idx as int, iv));
    }

    /// Remove the pane's cursor from every history entry.
    pub fn remove_cursor(&mut self, pane: &Pane)
        requires
            old(self).wf(),
        ensures
            final(self).wf(),
            final(self).history().len() == old(self).history().len(),
            forall|i: int|
                0 <= i < old(self).history().len() ==> #[trigger] final(self).history()[i] == (
                    old(self).history()[i].0,
                    old(self).history()[i].1,
                    old(self).history()[i].2.remove(pane.pid()),
                ),
            final(self).active() == old(self).active(),
            final(self).last_action() == old(self).last_action(),
            final(self).spans() == old(self).spans(),
            final(self).same_identity(old(self)),
            final(self).cursor_removed_from(old(self), pane.pid()),
    {
        let mut i: usize = 0;
        while i < self.history.len()
            invariant
                self.wf(),
                i <= self.history@.len(),
                self.history@.len() == old(self).history@.len(),
                self.active_history_index == old(self).active_history_index,
                self.last_action_type == old(self).last_action_type,
                self.style_spans@ == old(self).style_spans@,
                self.same_identity(old(self)),
                forall|j: int|
                    0 <= j < i ==> #[trigger] self.history()[j] == (
                        old(self).history()[j].0,
                        old(self).history()[j].1,
                        old(self).history()[j].2.remove(pane.pid()),
                    ),
                forall|j: int| i <= j < self.history@.len() ==> #[trigger] self.history()[j] == old(self).history()[j],
            decreases self.history@.len() - i,
        {
            assert(self.history()[i as int] == self.history@[i as int].view());
            let mut item = self.history[i].clone_item();
            assert(item.view() == old(self).history()[i as int]);
            item.cursors.remove(pane.id());
            let ghost iv = item.view();
            assert(iv == (
                old(self).history()[i as int].0,
                old(self).history()[i as int].1,
                old(self).history()[i as int].2.remove(pane.pid()),
            ));
            let ghost before = self.history();
            self.history.set(i, item);
            assert(self.history() =~= before.update(i as int, iv));
            i = i + 1;
        }
    }

    /// Prepare the history for an edit of type `at`.
    fn maybe_store_history_item(&mut self, at: ActionType)
        requires
            old(self).wf(),
        ensures
            final(self).wf(),
            ({
                let (h1, a1, l1) = stored_history(old(self).history(), old(self).active(), old(self).last_action(), at);
                &&& final(self).history() == h1
                &&& final(self).active() == a1
                &&& final(self).last_action() == l1
            }),
            final(self).active() == final(self).history().len() - 1,
            final(self).cur() == old(self).cur(),
            final(self).spans() == old(self).spans(),
            final(self).same_identity(old(self)),
    {
        let len = self.history.len();
        if self.active_history_index != len - 1 {
            self.history.truncate(self.active_history_index + 1);
            self.last_action_type = ActionType::Other;
            assert(self.history() =~= old(self).history().take(old(self).active() + 1));
        }
        if self.last_action_type != at || at == ActionType::Other {
            let last = self.history[self.history.len() - 1].clone_item();
            let ghost lv = last.view();
            let ghost before = self.history();
            self.history.push(last);
            self.active_history_index = self.history.len() - 1;
            self.last_action_type = at;
            assert(self.history() =~= before.push(lv));
        }
    }

    /// Replace the text and cursors of the active entry.
    fn set_active_text_and_cursors(&mut self, item: HistoryItem)
        requires
            old(self).wf(),
            item.wf(),
        ensures
            final(self).wf(),
            final(self).history() == old(self).history().update(old(self).active(), item.view()),
            final(self).active() == old(self).active(),
            final(self).last_action() == old(self).last_action(),
            final(self).same_identity(old(self)),
            final(self).spans() == (old(self).spans().0, Seq::<StyledLine>::empty()),
    {
        let idx = self.active_history_index;
        let ghost iv = item.view();
        self.history.set(idx, item);
        assert(self.history() =~= old(self).history().update(idx as int, iv));
        self.style_spans.clear();
    }

    /// Remove all text from the buffer.
    pub fn clear(&mut self)
        requires
            old(self).wf(),
        ensures
            final(self).wf(),
            final(self).edited_from(
                old(self),
                ActionType::Clear,
                Seq::<char>::empty(),
                old(self).cur_cursors().map_values(|c: AbsChar| AbsChar(0)),
            ),
    {
        self.maybe_store_history_item(ActionType::Clear);
        let idx = self.active_history_index;
        let mut item = self.history[idx].clone_item();
        item.text = Rope::new();
        item.cursors.adjust_all(Adjust::Reset);
        assert(item.cursors@ =~= old(self).cur_cursors().map_values(|c: AbsChar| AbsChar(0)));
        self.set_active_text_and_cursors(item);
    }

    pub fn undo(&mut self)
        requires
            old(self).wf(),
        ensures
            final(self).wf(),
            final(self).undone_from(old(self)),
    {
        if self.active_history_index > 0 {
            self.active_history_index = self.active_history_index - 1;
        }
        self.style_spans.clear();
    }

    pub fn redo(&mut self)
        requires
            old(self).wf(),
        ensures
            final(self).wf(),
            final(self).redone_from(old(self)),
    {
        if self.active_history_index < self.history.len() - 1 {
            self.active_history_index = self.active_history_index + 1;
        }
        self.style_spans.clear();
    }

    /// Where the boundary in `direction` from `pos` is.
    pub fn find_boundary(&self, pos: AbsChar, boundary: Boundary, direction: Direction) -> (res: AbsChar)
        requires
            self.wf(),
            pos.0 <= self.cur_text().len(),
        ensures
            res.0 == spec_find_boundary(self.cur_text(), pos.0 as int, boundary, direction),
            res.0 <= self.cur_text().len(),
    {
        let text = self.text();
        let len = text.len_chars();
        let ghost t = self.cur_text();
        match boundary {
            Boundary::Grapheme => {
                let whole = text.slice(AbsChar(0)..AbsChar(len));
                assert(t.subrange(0, len as int) =~= t);
                match direction {
                    Direction::Dec => AbsChar(prev_grapheme_boundary(&whole, pos.0).0),
                    Direction::Inc => AbsChar(next_grapheme_boundary(&whole, pos.0).0),
                }
            },
            Boundary::LineEnd => {
                let mut lp = LinePosition::from_abs_char(pos, self);
                proof {
                    lemma_line_bounds(t, lp.line.0 as nat);
                }
                if direction == Direction::Dec {
                    lp.offset = RelChar::zero();
                } else {
                    let line = text.line(lp.line);
                    let n = line.len_chars();
                    let s = line.to_string();
                    let offset: usize = if n > 0 && s.as_str().get_char(n - 1) == '\n' {
                        1
                    } else {
                        0
                    };
                    lp.offset = RelChar(n - offset);
                }
                lp.to_abs_char(self)
            },
            Boundary::BufferEnd => match direction {
                Direction::Dec => AbsChar(0),
                Direction::Inc => AbsChar(len),
            },
        }
    }


    /// Move the pane's cursor by `step` in direction `dir`, keeping it
    /// between the prompt end and completion start markers.
    pub fn move_cursor(&mut self, pane_id: &PaneId, step: Move, dir: Direction)
        requires
            old(self).wf(),
            old(self).cur_cursors().dom().contains(pane_id@),
            old(self).cur_cursors()[pane_id@].0 <= old(self).cur_text().len(),
        ensures
            final(self).wf(),
            final(self).history() == old(self).history().update(
                old(self).active(),
                (
                    old(self).cur_text(),
                    old(self).cur_markers(),
                    old(self).cur_cursors().insert(
                        pane_id@,
                        AbsChar(
                            spec_move_cursor(
                                old(self).cur_text(),
                                old(self).cur_markers(),
                                old(self).cur_cursors()[pane_id@].0 as int,
                                step,
                                dir,
                            ) as usize,
                        ),
                    ),
                ),
            ),
            final(self).active() == old(self).active(),
            final(self).last_action() == ActionType::Other,
            final(self).spans() == old(self).spans(),
            final(self).same_identity(old(self)),
            final(self).cursor_set_from(
                old(self),
                pane_id@,
                AbsChar(
                    spec_move_cursor(
                        old(self).cur_text(),
                        old(self).cur_markers(),
                        old(self).cur_cursors()[pane_id@].0 as int,
                        step,
                        dir,
                    ) as usize,
                ),
            ),
            (forall|k: Seq<char>| #[trigger] old(self).cur_markers().dom().contains(k)
                ==> old(self).cur_markers()[k].0 <= old(self).cur_text().len()) ==> 0 <= spec_move_cursor(
                old(self).cur_text(),
                old(self).cur_markers(),
                old(self).cur_cursors()[pane_id@].0 as int,
                step,
                dir,
            ) <= old(self).cur_text().len(),
    {
        let ghost t = self.cur_text();
        let len = self.text().len_chars();
        let mut cursor = self.cursor(pane_id);
        match step {
            Move::Boundary(boundary) => {
                cursor = self.find_boundary(cursor, boundary, dir);
            },
            Move::Line | Move::Page => {
                let offset: usize = if step == Move::Line {
                    1
                } else {
                    20
                };
                let mut lp = LinePosition::from_abs_char(cursor, self);
                let num_graphemes = lp.grapheme_offset(self);
                let max_line = self.text().max_line_index();
                if dir == Direction::Dec {
                    lp.line = lp.line.saturating_sub(RelLine::new(offset));
                } else {
                    lp.line = if max_line.0 - lp.line.0 >= offset {
                        AbsLine(lp.line.0 + offset)
                    } else {
                        max_line
                    };
                }
                lp.set_offset_in_graphemes(self, num_graphemes);
                proof {
                    lemma_line_bounds(t, lp.line.0 as nat);
                }
                cursor = lp.to_abs_char(self);
            },
        }
        if let Some(prompt_end) = self.get_marker(PROMPT_END) {
            if cursor.0 < prompt_end.0 {
                cursor = prompt_end;
            }
        }
        if let Some(completion_start) = self.get_marker(COMPLETION_START) {
            if cursor.0 > completion_start.0 {
                cursor = completion_start;
            }
        }
        self.set_cursor(pane_id, cursor);
    }

    /// Remove the chars in `range`, moving cursors within it to its
    /// start and those after it back by its length.
    pub fn delete_text(&mut self, range: core::ops::Range<AbsChar>)
        requires
            old(self).wf(),
            range.start.0 <= range.end.0 <= old(self).cur_text().len(),
        ensures
            final(self).wf(),
            final(self).edited_from(
                old(self),
                ActionType::Deletion,
                old(self).cur_text().take(range.start.0 as int) + old(self).cur_text().skip(
                    range.end.0 as int,
                ),
                old(self).cur_cursors().map_values(
                    |c: AbsChar| adjust_cursor(Adjust::Delete(range.start.0, range.end.0), c),
                ),
            ),
    {
        self.maybe_store_history_item(ActionType::Deletion);
        let idx = self.active_history_index;
        let mut item = self.history[idx].clone_item();
        item.text.remove(range.start..range.end);
        item.cursors.adjust_all(Adjust::Delete(range.start.0, range.end.0));
        self.set_active_text_and_cursors(item);
    }

    /// Insert `c` before char `pos`, moving cursors at or after `pos`
    /// forward by one.
    pub fn insert_char(&mut self, c: char, pos: AbsChar)
        requires
            old(self).wf(),
            pos.0 <= old(self).cur_text().len(),
            forall|k: Seq<char>| #[trigger]
                old(self).cur_cursors().dom().contains(k) ==> old(self).cur_cursors()[k].0
                    < usize::MAX,
        ensures
            final(self).wf(),
            final(self).edited_from(
                old(self),
                ActionType::InsertChar,
                old(self).cur_text().take(pos.0 as int) + seq![c] + old(self).cur_text().skip(
                    pos.0 as int,
                ),
                old(self).cur_cursors().map_values(|x: AbsChar| adjust_cursor(Adjust::Insert(pos.0), x)),
            ),
    {
        self.maybe_store_history_item(ActionType::InsertChar);
        let idx = self.active_history_index;
        let mut item = self.history[idx].clone_item();
        assert(item.cursors@ == old(self).cur_cursors());
        let s = char_to_string(c);
        item.text.insert(pos, s.as_str());
        item.cursors.adjust_all(Adjust::Insert(pos.0));
        self.set_active_text_and_cursors(item);
    }

    /// Replace the entire contents of the buffer with `text`, moving
    /// cursors past its end to its end.
    pub fn set_text(&mut self, text: &str)
        requires
            old(self).wf(),
        ensures
            final(self).wf(),
            final(self).edited_from(
                old(self),
                ActionType::Other,
                text@,
                old(self).cur_cursors().map_values(
                    |x: AbsChar| adjust_cursor(Adjust::Clamp(text@.len() as usize), x),
                ),
            ),
    {
        self.maybe_store_history_item(ActionType::Other);
        let idx = self.active_history_index;
        let mut item = self.history[idx].clone_item();
        item.text = Rope::from_str(text);
        let len_chars = item.text.len_chars();
        item.cursors.adjust_all(Adjust::Clamp(len_chars));
        self.set_active_text_and_cursors(item);
    }

    /// Find `text` in the `num_lines` lines shown from the pane's top
    /// line, and keep the matches as the buffer's search state. An empty
    /// `text` leaves the buffer unchanged.
    pub fn search(&mut self, text: &str, pane: &Pane, num_lines: usize)
        requires
            old(self).wf(),
            pane.top() <= spec_len_lines(old(self).cur_text()),
        ensures
            final(self).wf(),
            final(self).history() == old(self).history(),
            final(self).active() == old(self).active(),
            final(self).last_action() == old(self).last_action(),
            final(self).spans() == old(self).spans(),
            final(self).buffer_id() == old(self).buffer_id(),
            final(self).path_value() == old(self).path_value(),
            final(self).process_flag() == old(self).process_flag(),
            text@.len() == 0 ==> final(self).search_value() == old(self).search_value(),
            text@.len() > 0 ==> (final(self).search_value() matches Some(st) && {
                &&& st.pane() == pane.pid()
                &&& st.matches().0 == pane.top()
                &&& st.matches().1.len() == num_lines
                &&& forall|k: int|
                    0 <= k < num_lines ==> (#[trigger] st.matches().1[k]).spans@ == if pane.top() + k
                        < spec_len_lines(old(self).cur_text()) {
                        line_match_spans(text@, line_text(old(self).cur_text(), (pane.top() + k) as nat))
                    } else {
                        Seq::<core::ops::Range<usize>>::empty()
                    }
            }),
    {
        if text.is_empty() {
            return ;
        }
        let top = pane.top_line();
        let mut matches: LineDataVec<LineMatches> = LineDataVec::with_size(top, num_lines);
        assert forall|j: int| 0 <= j < num_lines implies (#[trigger] matches@.1[j]).spans@
            == Seq::<core::ops::Range<usize>>::empty() by {
            assert(call_ensures(LineMatches::default, (), matches@.1[j]));
        }
        let ac = build_searcher(text);
        let rope = self.text();
        let len_lines = rope.len_lines();
        let ghost t = self.cur_text();
        let mut k: usize = 0;
        while k < num_lines && k < len_lines - top.0
            invariant
                rope@ == t,
                len_lines == spec_len_lines(t),
                top.0 <= len_lines,
                k <= num_lines,
                k <= len_lines - top.0,
                matches@.0 == top.0,
                matches@.1.len() == num_lines,
                ac matches Some(a) ==> searcher_pattern(a) == text@,
                ac is Some <==> searcher_builds(text@),
                text@.len() > 0,
                forall|j: int|
                    0 <= j < k ==> (#[trigger] matches@.1[j]).spans@ == line_match_spans(
                        text@,
                        line_text(t, (top.0 + j) as nat),
                    ),
                forall|j: int|
                    k <= j < num_lines ==> (#[trigger] matches@.1[j]).spans@ == Seq::<
                        core::ops::Range<usize>,
                    >::empty(),
            decreases num_lines - k,
        {
            let li = AbsLine(top.0 + k);
            let line = rope.line(li);
            let line_str = line.to_string();
            let found = match &ac {
                Some(a) => find_matches(a, line_str.as_str()),
                None => Vec::new(),
            };
            let mut spans: Vec<core::ops::Range<usize>> = Vec::new();
            let mut i: usize = 0;
            while i < found.len()
                invariant
                    i <= found@.len(),
                    spans@ == found@.take(i as int).map_values(
                        |p: (usize, usize)| core::ops::Range { start: p.0, end: p.1 },
                    ),
                decreases found@.len() - i,
            {
                let (s, e) = found[i];
                spans.push(s..e);
                i = i + 1;
                assert(spans@ =~= found@.take(i as int).map_values(
                    |p: (usize, usize)| core::ops::Range { start: p.0, end: p.1 },
                ));
            }
            assert(found@.take(found@.len() as int) =~= found@);
            assert(spans@ == line_match_spans(text@, line_text(t, (top.0 + k) as nat)));
            let ghost before = matches@;
            let ok = match matches.get_mut(li) {
                Some(lm) => {
                    lm.spans = spans;
                    true
                },
                None => false,
            };
            assert(ok);
            assert(matches@.1 =~= before.1.update(k as int, matches@.1[k as int]));
            k = k + 1;
        }
        proof {
            assert forall|j: int| 0 <= j < num_lines implies (#[trigger] matches@.1[j]).spans@ == if top.0 + j < spec_len_lines(t) {
                line_match_spans(text@, line_text(t, (top.0 + j) as nat))
            } else {
                Seq::<core::ops::Range<usize>>::empty()
            } by {
                if j >= k {
                    assert(top.0 + j >= spec_len_lines(t));
                }
            }
        }
        let state = SearchState { pane_id: pane.id().clone(), matches };
        self.search = Some(state);
    }

    pub fn clear_search(&mut self)
        ensures
            final(self).search_value() is None,
            final(self).history() == old(self).history(),
            final(self).active() == old(self).active(),
            final(self).last_action() == old(self).last_action(),
            final(self).spans() == old(self).spans(),
            final(self).buffer_id() == old(self).buffer_id(),
            final(self).path_value() == old(self).path_value(),
            final(self).process_flag() == old(self).process_flag(),
            old(self).wf() ==> final(self).wf(),
    {
        self.search = None;
    }
}

impl LinePosition {
    /// The line and offset of char `pos` of the buffer's text.
    pub fn from_abs_char(pos: AbsChar, buf: &Buffer) -> (res: Self)
        requires
            buf.wf(),
            pos.0 <= buf.cur_text().len(),
        ensures
            res.line.0 == spec_line_position(buf.cur_text(), pos.0 as int).0,
            res.offset.0 == spec_line_position(buf.cur_text(), pos.0 as int).1,
            res.line.0 < spec_len_lines(buf.cur_text()),
    {
        let text = buf.text();
        let ghost t = buf.cur_text();
        let line = text.char_to_line(pos);
        proof {
            lemma_breaks_before_monotone(t, pos.0 as int, t.len() as int);
            lemma_line_start_of_char(t, pos.0 as int);
        }
        let line_offset = pos.0 - text.line_to_char(line);
        LinePosition { line, offset: RelChar(line_offset) }
    }

    pub fn to_abs_char(self, buf: &Buffer) -> (res: AbsChar)
        requires
            buf.wf(),
            self.line.0 <= spec_len_lines(buf.cur_text()),
            line_start(buf.cur_text(), self.line.0 as nat) + self.offset.0 <= usize::MAX,
        ensures
            res.0 == line_start(buf.cur_text(), self.line.0 as nat) + self.offset.0,
    {
        AbsChar(buf.text().line_to_char(self.line) + self.offset.0)
    }

    /// Count the number of graphemes between the start of the line and
    /// the line offset.
    pub fn grapheme_offset(&self, buf: &Buffer) -> (res: usize)
        requires
            buf.wf(),
            self.line.0 < spec_len_lines(buf.cur_text()),
        ensures
            res == pieces_before(
                grapheme_clusters(line_text(buf.cur_text(), self.line.0 as nat)),
                self.offset.0 as int,
            ),
    {
        let line = buf.text().line(self.line);
        let ghost p = grapheme_clusters(line@);
        let mut num_graphemes: usize = 0;
        let mut cur_offset: usize = 0;
        assert(p.skip(0) =~= p);
        while cur_offset < self.offset.0
            invariant
                p == grapheme_clusters(line@),
                num_graphemes <= p.len(),
                num_graphemes <= cur_offset,
                cur_offset == width_of_first(p, num_graphemes as int),
                pieces_before(p, self.offset.0 as int) == num_graphemes + pieces_before(
                    p.skip(num_graphemes as int),
                    self.offset.0 - cur_offset,
                ),
            ensures
                pieces_before(p, self.offset.0 as int) == num_graphemes,
            decreases p.len() - num_graphemes,
        {
            let new_offset = next_grapheme_boundary(&line, cur_offset);
            proof {
                lemma_next_at_boundary(p, num_graphemes as int);
                lemma_width_lt_total(p, num_graphemes as int);
            }
            if cur_offset == new_offset.0 {
                proof {
                    assert(p.skip(num_graphemes as int).len() == 0);
                }
                break;
            } else {
                proof {
                    lemma_width_lt_total(p, num_graphemes + 1);
                    lemma_pieces_before_step(p, num_graphemes as int, self.offset.0 as int);
                }
                num_graphemes = num_graphemes + 1;
                cur_offset = new_offset.0;
            }
        }
        num_graphemes
    }

    /// Set the offset to point after the specified number of graphemes.
    /// This is truncated to the end of the line, before its newline, in
    /// case there are fewer graphemes in the line than requested.
    pub fn set_offset_in_graphemes(&mut self, buf: &Buffer, num_graphemes: usize)
        requires
            buf.wf(),
            old(self).line.0 < spec_len_lines(buf.cur_text()),
        ensures
            final(self).line == old(self).line,
            final(self).offset.0 == graphemes_into(
                line_text(buf.cur_text(), old(self).line.0 as nat),
                num_graphemes as int,
            ),
            final(self).offset.0 <= line_text(buf.cur_text(), old(self).line.0 as nat).len(),
    {
        let line = buf.text().line(self.line);
        let ghost p = grapheme_clusters(line@);
        let num_chars = line.len_chars();
        let mut remaining = num_graphemes;
        let ghost mut steps: int = 0;
        self.offset = RelChar::zero();
        while remaining > 0
            invariant_except_break
                self.offset.0 < num_chars || steps == 0,
            invariant
                p == grapheme_clusters(line@),
                num_chars == line@.len(),
                self.line == old(self).line,
                steps + remaining == num_graphemes,
                0 <= steps,
                self.offset.0 == width_of_first(p, steps),
                self.offset.0 <= num_chars,
                steps > 0 ==> nonempty_pieces(p) && total_len(p) == num_chars,
            ensures
                self.line == old(self).line,
                self.offset.0 == width_of_first(p, num_graphemes as int),
                self.offset.0 <= num_chars,
            decreases remaining,
        {
            let next = next_grapheme_boundary(&line, self.offset.0);
            proof {
                lemma_next_at_boundary(p, steps);
                lemma_width_lt_total(p, steps);
                lemma_width_lt_total(p, steps + 1);
            }
            self.offset = next;
            remaining = remaining - 1;
            proof {
                steps = steps + 1;
            }
            if self.offset.0 >= num_chars {
                proof {
                    lemma_width_of_first_all(p, num_graphemes as int);
                }
                self.offset = RelChar(num_chars);
                break;
            }
        }
        let mut end = num_chars;
        if num_chars > 0 {
            let last = line.slice(num_chars - 1..num_chars).to_string();
            proof {
                assert(last@.len() == 1);
            }
            if last.as_str().get_char(0) == '\n' {
                end = num_chars - 1;
            }
        }
        assert(end == content_len(line@));
        if self.offset.0 > end {
            self.offset = RelChar(end);
        }
    }
}


// ---------------------------------------------------------------------
// Laws

/// After an edit, the active entry holds the edit's text and cursors
/// and the markers from before.
pub proof fn lemma_edited_cur(b1: &Buffer, b0: &Buffer, at: ActionType, t: Seq<char>, c: Map<Seq<char>, AbsChar>)
    requires
        b0.wf(),
        b1.edited_from(b0, at, t, c),
    ensures
        b1.cur() == (t, b0.cur_markers(), c),
        b0.starts_entry(at) ==> b1.active() >= 1 && b1.history()[b1.active() - 1] == b0.cur(),
        b1.active() < b1.history().len(),
{
    lemma_map_len(b0);
}

proof fn lemma_map_len(b: &Buffer)
    requires
        b.wf(),
    ensures
        b.history().len() == b.history@.len(),
        0 <= b.active() < b.history().len(),
{
}

/// A well-formed buffer has a history of at least one entry, and its
/// active entry is one of them.
pub proof fn lemma_wf_history(b: &Buffer)
    requires
        b.wf(),
    ensures
        b.history().len() >= 1,
        0 <= b.active() < b.history().len(),
{
    lemma_map_len(b);
}

/// Undo right after an edit that started a new history entry gives
/// back the text, markers and cursors from before the edit.
pub proof fn law_undo_after_edit(
    b0: &Buffer,
    b1: &Buffer,
    b2: &Buffer,
    at: ActionType,
    t: Seq<char>,
    c: Map<Seq<char>, AbsChar>,
)
    requires
        b0.wf(),
        b0.starts_entry(at),
        b1.edited_from(b0, at, t, c),
        b2.undone_from(b1),
    ensures
        b2.cur() == b0.cur(),
{
    lemma_edited_cur(b1, b0, at, t, c);
}

/// Redo right after an undo that moved back gives back the history
/// position from before the undo.
pub proof fn law_redo_after_undo(b0: &Buffer, b1: &Buffer, b2: &Buffer)
    requires
        b0.wf(),
        b0.active() > 0,
        b1.undone_from(b0),
        b2.redone_from(b1),
    ensures
        b2.history() == b0.history(),
        b2.active() == b0.active(),
        b2.cur() == b0.cur(),
{
    lemma_map_len(b0);
}

/// An insert that started a new history entry, undone and then redone,
/// gives back the text with the char inserted and the cursor that stood
/// at the insert one char further on; a second redo changes nothing, as
/// an edit leaves the newest entry active.
pub proof fn law_redo_after_undone_insert(
    b0: &Buffer,
    b1: &Buffer,
    b2: &Buffer,
    b3: &Buffer,
    b4: &Buffer,
    ch: char,
    pos: usize,
    pid: Seq<char>,
)
    requires
        b0.wf(),
        b0.starts_entry(ActionType::InsertChar),
        pos <= b0.cur_text().len(),
        b0.cur_cursors().dom().contains(pid),
        b0.cur_cursors()[pid].0 == pos,
        forall|k: Seq<char>| #[trigger] b0.cur_cursors().dom().contains(k) ==> b0.cur_cursors()[k].0 < usize::MAX,
        b1.edited_from(
            b0,
            ActionType::InsertChar,
            b0.cur_text().take(pos as int) + seq![ch] + b0.cur_text().skip(pos as int),
            b0.cur_cursors().map_values(|x: AbsChar| adjust_cursor(Adjust::Insert(pos), x)),
        ),
        b2.undone_from(b1),
        b3.redone_from(b2),
        b4.redone_from(b3),
    ensures
        b2.cur_text() == b0.cur_text(),
        b3.cur_text() == b0.cur_text().take(pos as int) + seq![ch] + b0.cur_text().skip(pos as int),
        b3.cur_cursors().dom().contains(pid),
        b3.cur_cursors()[pid] == AbsChar((pos + 1) as usize),
        b4.history() == b3.history(),
        b4.active() == b3.active(),
{
    let t1 = b0.cur_text().take(pos as int) + seq![ch] + b0.cur_text().skip(pos as int);
    let c1 = b0.cur_cursors().map_values(|x: AbsChar| adjust_cursor(Adjust::Insert(pos), x));
    lemma_edited_cur(b1, b0, ActionType::InsertChar, t1, c1);
    assert(b3.active() == b1.active());
    assert(b1.active() == b1.history().len() - 1);
    assert(c1[pid] == adjust_cursor(Adjust::Insert(pos), b0.cur_cursors()[pid]));
}

/// An edit either extends the active history entry or starts a new one
/// after it. It extends the entry exactly when the edit is of the same
/// kind as the last action, that kind is not `Other`, and the entry is
/// the newest one: then the history keeps its length and active index
/// and the entries before the active one. Otherwise the entries after
/// the active one are dropped, the active entry is kept as it was, and
/// the edit goes into a new entry after it.
pub proof fn law_edits_group_by_kind(b0: &Buffer, b1: &Buffer, at: ActionType, t: Seq<char>, c: Map<
    Seq<char>,
    AbsChar,
>)
    requires
        b0.wf(),
        b1.edited_from(b0, at, t, c),
    ensures
        b1.cur() == (t, b0.cur_markers(), c),
        b1.active() == b1.history().len() - 1,
        !b0.starts_entry(at) ==> {
            &&& b1.history().len() == b0.history().len()
            &&& b1.active() == b0.active()
            &&& forall|k: int| 0 <= k < b0.active() ==> #[trigger] b1.history()[k] == b0.history()[k]
        },
        b0.starts_entry(at) ==> {
            &&& b1.history().len() == b0.active() + 2
            &&& b1.active() == b0.active() + 1
            &&& forall|k: int| 0 <= k < b0.active() ==> #[trigger] b1.history()[k] == b0.history()[k]
            &&& b1.history()[b0.active()] == b0.cur()
        },
        b1.last_action() == at,
{
    lemma_map_len(b0);
    lemma_edited_cur(b1, b0, at, t, c);
}

/// Edits of one kind other than `Other` made one after another, the
/// first of them starting a new history entry, are undone together: one
/// undo gives back the text, markers and cursors from before the first.
pub proof fn law_grouped_edits_undo_together(
    b0: &Buffer,
    b1: &Buffer,
    b2: &Buffer,
    b3: &Buffer,
    at: ActionType,
    t1: Seq<char>,
    c1: Map<Seq<char>, AbsChar>,
    t2: Seq<char>,
    c2: Map<Seq<char>, AbsChar>,
)
    requires
        b0.wf(),
        b1.wf(),
        at != ActionType::Other,
        b0.starts_entry(at),
        b1.edited_from(b0, at, t1, c1),
        b2.edited_from(b1, at, t2, c2),
        b3.undone_from(b2),
    ensures
        b3.cur() == b0.cur(),
        b2.cur_text() == t2,
{
    law_edits_group_by_kind(b0, b1, at, t1, c1);
    assert(!b1.starts_entry(at));
    law_edits_group_by_kind(b1, b2, at, t2, c2);
    lemma_map_len(b0);
}

/// Moving the cursor by lines or pages lands on the line that many lines
/// away, held within the text's lines: at or after its start and at
/// most at the start of the next line, and on that very line when it
/// ends in a newline or is the last. Moving down from any line but the
/// last lands on a later line.
pub proof fn law_move_lines_target(
    t: Seq<char>,
    markers: Map<Seq<char>, AbsChar>,
    pos: int,
    step: Move,
    dir: Direction,
)
    requires
        0 <= pos <= t.len(),
        step is Line || step is Page,
        !markers.dom().contains("prompt_end"@),
        !markers.dom().contains("completion_start"@),
    ensures
        ({
            let n: int = if step is Line { 1 } else { 20 };
            let l = breaks_before(t, pos) as int;
            let last = spec_len_lines(t) - 1;
            let target: int = match dir {
                Direction::Inc => if l + n <= last { l + n } else { last },
                Direction::Dec => if l >= n { l - n } else { 0 },
            };
            let r = spec_move_cursor(t, markers, pos, step, dir);
            &&& line_start(t, target as nat) <= r <= line_start(t, (target + 1) as nat)
            &&& breaks_before(t, r) >= target
            &&& (target == last || (line_text(t, target as nat).len() > 0 && line_text(t, target as nat).last()
                == '\n')) ==> breaks_before(t, r) == target
            &&& breaks_before(t, r) <= target + 1
            &&& (dir is Inc && l < last) ==> breaks_before(t, r) > l
        }),
{
    let n: int = if step is Line { 1 } else { 20 };
    let l = breaks_before(t, pos) as int;
    let last = spec_len_lines(t) - 1;
    let target: int = match dir {
        Direction::Inc => if l + n <= last { l + n } else { last },
        Direction::Dec => if l >= n { l - n } else { 0 },
    };
    lemma_breaks_before_monotone(t, pos, t.len() as int);
    assert(spec_move_cursor(t, markers, pos, step, dir) == spec_move_lines(t, pos, n, dir));
    let lt = line_text(t, target as nat);
    let r = spec_move_lines(t, pos, n, dir);
    lemma_line_bounds(t, target as nat);
    assert(r == line_start(t, target as nat) + graphemes_into(lt, pieces_before(
        grapheme_clusters(line_text(t, l as nat)),
        pos - line_start(t, l as nat),
    ) as int));
    crate::rope::law_line_char_round_trip(t, target as nat, 0);
    lemma_breaks_before_monotone(t, line_start(t, target as nat) as int, r);
    if target == last {
        lemma_breaks_before_monotone(t, r, t.len() as int);
    } else if lt.len() > 0 && lt.last() == '\n' {
        crate::rope::lemma_line_start_from_facts(t, (target + 1) as nat, 0);
        assert(r < line_start(t, (target + 1) as nat));
        assert(breaks_before(t, r) < target + 1);
    }
    if target < last {
        crate::rope::law_line_char_round_trip(t, (target + 1) as nat, 0);
        lemma_breaks_before_monotone(t, r, line_start(t, (target + 1) as nat) as int);
    }
}

/// Deleting the char just inserted gives back the text and cursors.
pub proof fn law_delete_undoes_insert(
    t: Seq<char>,
    cursors: Map<Seq<char>, AbsChar>,
    ch: char,
    pos: usize,
)
    requires
        pos <= t.len(),
        pos < usize::MAX,
        forall|k: Seq<char>| #[trigger] cursors.dom().contains(k) ==> cursors[k].0 < usize::MAX,
    ensures
        ({
            let t1 = t.take(pos as int) + seq![ch] + t.skip(pos as int);
            let c1 = cursors.map_values(|x: AbsChar| adjust_cursor(Adjust::Insert(pos), x));
            &&& t1.take(pos as int) + t1.skip(pos + 1) == t
            &&& c1.map_values(|x: AbsChar| adjust_cursor(Adjust::Delete(pos, (pos + 1) as usize), x))
                == cursors
        }),
{
    let t1 = t.take(pos as int) + seq![ch] + t.skip(pos as int);
    assert(t1.take(pos as int) + t1.skip(pos + 1) =~= t);
    let c1 = cursors.map_values(|x: AbsChar| adjust_cursor(Adjust::Insert(pos), x));
    let c2 = c1.map_values(|x: AbsChar| adjust_cursor(Adjust::Delete(pos, (pos + 1) as usize), x));
    assert forall|k: Seq<char>| #[trigger] c2.dom().contains(k) implies c2[k] == cursors[k] by {
        assert(c1[k] == adjust_cursor(Adjust::Insert(pos), cursors[k]));
        assert(c2[k] == adjust_cursor(Adjust::Delete(pos, (pos + 1) as usize), c1[k]));
        if cursors[k].0 >= pos {
            assert(c1[k].0 == cursors[k].0 + 1);
            assert(c2[k].0 == cursors[k].0);
        } else {
            assert(c1[k] == cursors[k]);
        }
    }
    assert(c2 =~= cursors);
}


/// Setting a cursor keeps the text and markers of the active entry.
pub proof fn lemma_cursor_set(new: &Buffer, old: &Buffer, pid: Seq<char>, c: AbsChar)
    requires
        old.wf(),
        new.cursor_set_from(old, pid, c),
    ensures
        new.cur_text() == old.cur_text(),
        new.cur_markers() == old.cur_markers(),
        new.cur_cursors() == old.cur_cursors().insert(pid, c),
{
    lemma_map_len(old);
}


/// Removing a cursor keeps the text and markers of the active entry.
pub proof fn lemma_cursor_removed(new: &Buffer, old: &Buffer, pid: Seq<char>)
    requires
        old.wf(),
        new.cursor_removed_from(old, pid),
    ensures
        new.cur_text() == old.cur_text(),
        new.cur_markers() == old.cur_markers(),
        new.cur_cursors() == old.cur_cursors().remove(pid),
{
    lemma_map_len(old);
}

/// A char index turned into a line position and back is the same index:
/// the line is one of the text's, and the offset counts from its start.
pub proof fn law_line_position_round_trip(t: Seq<char>, pos: int)
    requires
        0 <= pos <= t.len(),
    ensures
        spec_line_position(t, pos).0 < spec_len_lines(t),
        spec_line_position(t, pos).1 >= 0,
        line_start(t, spec_line_position(t, pos).0) + spec_line_position(t, pos).1 == pos,
{
    lemma_breaks_before_monotone(t, pos, t.len() as int);
    crate::rope::lemma_line_start_of_char(t, pos);
}

} // verus!
