//! The editor's state: its buffers and pane tree, and what each action
//! does to them.

use crate::assoc::{
    assoc_map, distinct_keys, lemma_assoc_absent, lemma_assoc_dom, lemma_assoc_get,
    lemma_assoc_push, lemma_assoc_remove, lemma_assoc_update, lemma_distinct_len,
};
use crate::buffer::{
    adjust_cursor, line_match_spans, spec_move_cursor, Move, is_first_later, is_later_match, spec_find_boundary, spec_line_position,
    AbsChar, ActionType, Adjust, Boundary, Buffer, BufferId, CursorMap, Direction, LinePosition,
    search_fits,
};
use crate::rope::AbsLine;
use std::path::PathBuf;
use crate::rope::{line_start, line_text, spec_len_lines};
use crate::action::Action;
use crate::key::{char_lowercase, map_single_char, Key, Modifiers};
use crate::key_map::{
    all_parse, base_bindings, spec_from_pairs, spec_stack_lookup, Bindings, KeyMap, KeyMapLookup,
    KeyMapStack,
};
use crate::key_sequence::{Error, KeySequence, KeySequenceAtom};
use crate::overlay::{fresh_prompt, Overlay, SearchWidget};
use crate::pane_tree::{
    activated_at, layout_of, lemma_with_buffer, next_pos, prev_pos, rebound, some_active, unique_ids, Orientation, Pane,
    PaneId, PaneTree,
};
use crate::highlight::{has_syntax, highlighted_lines, syntax_named, HighlightError};
use crate::style::StyledLine;
use syntect::highlighting::Theme as SyntectTheme;
use syntect::parsing::SyntaxSet;
use vstd::prelude::*;

verus! {

/// The open buffers, each under its identifier.
pub struct BufferMap {
    buffers: Vec<Buffer>,
}

impl BufferMap {
    closed spec fn entries(&self) -> Seq<(Seq<char>, Buffer)> {
        self.buffers@.map_values(|b: Buffer| (b.buffer_id(), b))
    }

    /// No two buffers share an identifier, and each buffer is well formed.
    pub closed spec fn wf(&self) -> bool {
        &&& distinct_keys(self.entries())
        &&& forall|i: int| 0 <= i < self.buffers@.len() ==> (#[trigger] self.buffers@[i]).wf()
    }
}

impl View for BufferMap {
    type V = Map<Seq<char>, Buffer>;

    closed spec fn view(&self) -> Map<Seq<char>, Buffer> {
        assoc_map(self.entries())
    }
}

impl BufferMap {
    pub fn new() -> (res: Self)
        ensures
            res.wf(),
            res@ == Map::<Seq<char>, Buffer>::empty(),
    {
        let res = BufferMap { buffers: Vec::new() };
        assert(res.entries() =~= Seq::<(Seq<char>, Buffer)>::empty());
        res
    }

    /// Each buffer of a well-formed map is well formed and is held under
    /// its own identifier.
    pub proof fn lemma_wf(&self)
        requires
            self.wf(),
        ensures
            forall|k: Seq<char>| #[trigger]
                self@.dom().contains(k) ==> self@[k].wf() && self@[k].buffer_id() == k,
            self@.dom().finite(),
    {
        lemma_distinct_len(self.entries());
        assert forall|k: Seq<char>| #[trigger] self@.dom().contains(k) implies self@[k].wf()
            && self@[k].buffer_id() == k by {
            lemma_assoc_dom(self.entries(), k);
            let i = choose|i: int| 0 <= i < self.entries().len() && self.entries()[i].0 == k;
            lemma_assoc_get(self.entries(), i);
            assert(self.entries()[i] == (self.buffers@[i].buffer_id(), self.buffers@[i]));
        }
    }

    /// The buffer at position `i`, in the order that the map keeps.
    pub fn at(&self, i: usize) -> (res: &Buffer)
        requires
            self.wf(),
            i < self@.len(),
        ensures
            self@.dom().contains(res.buffer_id()),
            self@[res.buffer_id()] == *res,
    {
        proof {
            lemma_distinct_len(self.entries());
            lemma_assoc_get(self.entries(), i as int);
        }
        &self.buffers[i]
    }

    pub fn len(&self) -> (res: usize)
        requires
            self.wf(),
        ensures
            res == self@.len(),
    {
        proof {
            lemma_distinct_len(self.entries());
        }
        self.buffers.len()
    }

    fn find(&self, id: &BufferId) -> (res: Option<usize>)
        requires
            self.wf(),
        ensures
            res matches Some(i) ==> i < self.buffers@.len() && self.entries()[i as int].0 == id@,
            res is None ==> !self@.dom().contains(id@),
    {
        let mut i: usize = 0;
        while i < self.buffers.len()
            invariant
                i <= self.buffers@.len(),
                forall|j: int| 0 <= j < i ==> self.entries()[j].0 != id@,
            decreases self.buffers@.len() - i,
        {
            if self.buffers[i].id().same(id) {
                return Some(i);
            }
            i = i + 1;
        }
        proof {
            lemma_assoc_absent(self.entries(), id@);
        }
        None
    }

    pub fn contains(&self, id: &BufferId) -> (res: bool)
        requires
            self.wf(),
        ensures
            res == self@.dom().contains(id@),
    {
        match self.find(id) {
            Some(i) => {
                proof {
                    lemma_assoc_get(self.entries(), i as int);
                }
                true
            },
            None => false,
        }
    }

    pub fn get(&self, id: &BufferId) -> (res: Option<&Buffer>)
        requires
            self.wf(),
        ensures
            res is Some <==> self@.dom().contains(id@),
            res matches Some(b) ==> *b == self@[id@] && b.wf(),
    {
        match self.find(id) {
            Some(i) => {
                proof {
                    lemma_assoc_get(self.entries(), i as int);
                }
                Some(&self.buffers[i])
            },
            None => None,
        }
    }

    /// Add `buf` under its identifier, replacing any buffer held there.
    pub fn insert(&mut self, buf: Buffer)
        requires
            old(self).wf(),
            buf.wf(),
        ensures
            final(self).wf(),
            final(self)@ == old(self)@.insert(buf.buffer_id(), buf),
    {
        let ghost b = buf;
        match self.find(buf.id()) {
            Some(i) => {
                proof {
                    lemma_assoc_update(self.entries(), i as int, b);
                }
                self.buffers.set(i, buf);
                assert(self.entries() =~= old(self).entries().update(i as int, (b.buffer_id(), b)));
            },
            None => {
                proof {
                    lemma_assoc_push(self.entries(), b.buffer_id(), b);
                }
                self.buffers.push(buf);
                assert(self.entries() =~= old(self).entries().push((b.buffer_id(), b)));
            },
        }
    }

    /// Take out the buffer held under `id`.
    pub fn remove(&mut self, id: &BufferId) -> (res: Option<Buffer>)
        requires
            old(self).wf(),
        ensures
            final(self).wf(),
            final(self)@ == old(self)@.remove(id@),
            res is Some <==> old(self)@.dom().contains(id@),
            res matches Some(b) ==> b == old(self)@[id@] && b.wf(),
    {
        match self.find(id) {
            Some(i) => {
                proof {
                    lemma_assoc_get(self.entries(), i as int);
                    lemma_assoc_remove(self.entries(), i as int);
                }
                let b = self.buffers.remove(i);
                assert(self.entries() =~= old(self).entries().remove(i as int));
                Some(b)
            },
            None => {
                assert(old(self)@.remove(id@) =~= old(self)@);
                None
            },
        }
    }

    /// The identifier of some buffer other than `id`, if there is one.
    pub fn find_other(&self, id: &BufferId) -> (res: Option<BufferId>)
        requires
            self.wf(),
        ensures
            res matches Some(o) ==> o@ != id@ && self@.dom().contains(o@),
            res is None ==> forall|k: Seq<char>| #[trigger] self@.dom().contains(k) ==> k == id@,
    {
        let mut i: usize = 0;
        while i < self.buffers.len()
            invariant
                self.wf(),
                i <= self.buffers@.len(),
                forall|j: int| 0 <= j < i ==> self.entries()[j].0 == id@,
            decreases self.buffers@.len() - i,
        {
            if !self.buffers[i].id().same(id) {
                proof {
                    lemma_assoc_get(self.entries(), i as int);
                }
                return Some(self.buffers[i].id().clone());
            }
            i = i + 1;
        }
        proof {
            assert forall|k: Seq<char>| #[trigger] self@.dom().contains(k) implies k == id@ by {
                lemma_assoc_dom(self.entries(), k);
            }
        }
        None
    }
}


// ---------------------------------------------------------------------
// Editing at a pane's cursor

/// The cursor of pane `pid` in `buf` is there and within the text.
pub open spec fn cursor_in_text(buf: &Buffer, pid: Seq<char>) -> bool {
    &&& buf.cur_cursors().dom().contains(pid)
    &&& buf.cur_cursors()[pid].0 <= buf.cur_text().len()
}

/// Whether the cursor of pane `pane_id` lies in the text of `buf`.
pub fn cursor_lies_in_text(buf: &Buffer, pane_id: &PaneId) -> (res: bool)
    requires
        buf.wf(),
    ensures
        res == cursor_in_text(buf, pane_id@),
{
    match buf.cursors().get(pane_id) {
        Some(c) => c.0 <= buf.text().len_chars(),
        None => false,
    }
}

/// No cursor of `buf` is at the largest index, so each can move one
/// char on.
pub open spec fn cursors_below_max(buf: &Buffer) -> bool {
    forall|k: Seq<char>| #[trigger]
        buf.cur_cursors().dom().contains(k) ==> buf.cur_cursors()[k].0 < usize::MAX
}

/// `new` is `old` after inserting `c` at the cursor of pane `pid`.
pub open spec fn inserted_at_cursor(new: Buffer, old: Buffer, pid: Seq<char>, c: char) -> bool {
    let pos = old.cur_cursors()[pid].0;
    &&& new.wf()
    &&& new.edited_from(
        &old,
        ActionType::InsertChar,
        old.cur_text().take(pos as int) + seq![c] + old.cur_text().skip(pos as int),
        old.cur_cursors().map_values(|x: AbsChar| adjust_cursor(Adjust::Insert(pos), x)),
    )
}

/// `new` is `old` after deleting from the cursor of pane `pid` to the
/// boundary in `direction`.
pub open spec fn deleted_at_cursor(
    new: Buffer,
    old: Buffer,
    pid: Seq<char>,
    boundary: Boundary,
    direction: Direction,
) -> bool {
    let pos = old.cur_cursors()[pid].0 as int;
    let to = spec_find_boundary(old.cur_text(), pos, boundary, direction);
    let (start, end) = if pos < to {
        (pos, to)
    } else {
        (to, pos)
    };
    &&& new.wf()
    &&& to == pos ==> new == old
    &&& to != pos ==> new.edited_from(
        &old,
        ActionType::Deletion,
        old.cur_text().take(start) + old.cur_text().skip(end),
        old.cur_cursors().map_values(
            |x: AbsChar| adjust_cursor(Adjust::Delete(start as usize, end as usize), x),
        ),
    )
}

/// `new` is `old` with the cursor of pane `pid` moved by `step` in
/// direction `dir`.
pub open spec fn moved_cursor(new: Buffer, old: Buffer, pid: Seq<char>, step: Move, dir: Direction) -> bool {
    new.cursor_set_from(
        &old,
        pid,
        AbsChar(
            spec_move_cursor(
                old.cur_text(),
                old.cur_markers(),
                old.cur_cursors()[pid].0 as int,
                step,
                dir,
            ) as usize,
        ),
    )
}

/// `new` is `old` with the cursor of pane `pid` moved to the next match
/// of the search, when there is one.
pub open spec fn searched_next(new: Buffer, old: Buffer, pid: Seq<char>) -> bool {
    let t = old.cur_text();
    let lp = spec_line_position(t, old.cur_cursors()[pid].0 as int);
    &&& new.wf()
    &&& match old.search_value() {
        Some(st) => {
            ||| (forall|k: int, j: int| !is_later_match(st.matches(), lp.0 as int, lp.1, k, j))
                && new == old
            ||| exists|k: int, j: int|
                #![trigger is_first_later(st.matches(), lp.0 as int, lp.1, k, j)]
                is_first_later(st.matches(), lp.0 as int, lp.1, k, j) && new.cursor_set_from(
                    &old,
                    pid,
                    AbsChar(
                        (line_start(t, (st.matches().0 + k) as nat)
                            + st.matches().1[k].spans@[j].start) as usize,
                    ),
                )
        },
        None => new == old,
    }
}

/// Insert `c` at the cursor of pane `pane_id`.
pub fn insert_char_at_cursor(pane_id: &PaneId, buf: &mut Buffer, c: char)
    requires
        old(buf).wf(),
        cursor_in_text(old(buf), pane_id@),
        cursors_below_max(old(buf)),
    ensures
        ({
            let pos = old(buf).cur_cursors()[pane_id@].0;
            final(buf).edited_from(
                old(buf),
                ActionType::InsertChar,
                old(buf).cur_text().take(pos as int) + seq![c] + old(buf).cur_text().skip(pos as int),
                old(buf).cur_cursors().map_values(|x: AbsChar| adjust_cursor(Adjust::Insert(pos), x)),
            )
        }),
        final(buf).wf(),
{
    let pos = buf.cursor(pane_id);
    buf.insert_char(c, pos);
}

/// Delete from the cursor of pane `pane_id` to the boundary in
/// `direction`; nothing changes when the cursor is at that boundary.
pub fn delete_at_cursor(pane_id: &PaneId, buf: &mut Buffer, boundary: Boundary, direction: Direction)
    requires
        old(buf).wf(),
        cursor_in_text(old(buf), pane_id@),
    ensures
        final(buf).wf(),
        ({
            let pos = old(buf).cur_cursors()[pane_id@].0 as int;
            let to = spec_find_boundary(old(buf).cur_text(), pos, boundary, direction);
            let (start, end) = if pos < to {
                (pos, to)
            } else {
                (to, pos)
            };
            &&& to == pos ==> *final(buf) == *old(buf)
            &&& to != pos ==> final(buf).edited_from(
                old(buf),
                ActionType::Deletion,
                old(buf).cur_text().take(start) + old(buf).cur_text().skip(end),
                old(buf).cur_cursors().map_values(
                    |x: AbsChar| adjust_cursor(Adjust::Delete(start as usize, end as usize), x),
                ),
            )
        }),
{
    let pos = buf.cursor(pane_id);
    let to = buf.find_boundary(pos, boundary, direction);
    if pos.0 != to.0 {
        let range = if pos.0 < to.0 {
            pos..to
        } else {
            to..pos
        };
        buf.delete_text(range);
    }
}


// ---------------------------------------------------------------------
// Key presses

/// The key sequence typed so far, and the base key map.
pub struct KeyHandler {
    base_keymap: KeyMap,
    cur_seq: KeySequence,
}

/// The atom that a key press makes: the key lowercased, with its
/// modifiers.
pub open spec fn press_atom(key: Key, modifiers: Modifiers) -> KeySequenceAtom {
    KeySequenceAtom { modifiers, key: map_single_char(key, |c: char| char_lowercase(c)) }
}

/// The maps that a key press is looked up in: the base map, with the
/// overlay's map on top when it was built.
pub open spec fn stack_for(base: Bindings, overlay_keymap: Option<Result<KeyMap, Error>>) -> Seq<Bindings> {
    match overlay_keymap {
        Some(Ok(m)) => seq![base, m@],
        _ => seq![base],
    }
}

impl KeyHandler {
    pub closed spec fn base(&self) -> Bindings {
        self.base_keymap@
    }

    /// The keys typed so far of a sequence not yet complete.
    pub closed spec fn typed(&self) -> Seq<KeySequenceAtom> {
        self.cur_seq.0@
    }

    /// A handler with the base key map and nothing typed.
    pub fn new() -> (res: Result<Self, Error>)
        ensures
            res matches Ok(h) ==> h.typed() == Seq::<KeySequenceAtom>::empty(),
            res is Ok <==> all_parse(base_bindings()),
            res matches Ok(h) ==> h.base() == spec_from_pairs(base_bindings()),
    {
        match KeyMap::base() {
            Ok(base_keymap) => {
                let cur_seq = KeySequence::default();
                Ok(KeyHandler { base_keymap, cur_seq })
            },
            Err(e) => Err(e),
        }
    }

    /// Whether the key press can be looked up: a lone key that no map
    /// binds must have a char to insert.
    pub fn can_handle(&self, key: Key, modifiers: Modifiers, overlay_keymap: &Option<Result<KeyMap, Error>>) -> (res: bool)
        ensures
            res == (key is Modifier || spec_stack_lookup(
                stack_for(self.base(), *overlay_keymap),
                self.typed().push(press_atom(key, modifiers)),
            ) is Some),
    {
        if key.is_modifier() {
            return true;
        }
        let stack = self.build_stack(overlay_keymap);
        let mut seq = self.cur_seq.clone();
        seq.0.push(KeySequenceAtom::from_event(key, modifiers));
        stack.try_lookup(&seq).is_some()
    }

    fn build_stack(&self, overlay_keymap: &Option<Result<KeyMap, Error>>) -> (res: KeyMapStack)
        ensures
            res@ == stack_for(self.base(), *overlay_keymap),
    {
        let mut stack = KeyMapStack::default();
        stack.push(Ok(self.base_keymap.clone()));
        match overlay_keymap {
            Some(Ok(m)) => stack.push(Ok(m.clone())),
            _ => {},
        }
        assert(stack@ =~= stack_for(self.base(), *overlay_keymap));
        stack
    }

    /// Handle a key press. A lone modifier is ignored. Otherwise the key
    /// extends the typed sequence, which is looked up in the base map and
    /// the overlay's: a bound action is returned and the sequence
    /// cleared; a sequence that may still grow into a binding is kept;
    /// any other is dropped.
    pub fn handle_key(&mut self, key: Key, modifiers: Modifiers, overlay_keymap: &Option<Result<KeyMap, Error>>) -> (res: Option<Action>)
        requires
            key is Modifier || spec_stack_lookup(
                stack_for(old(self).base(), *overlay_keymap),
                old(self).typed().push(press_atom(key, modifiers)),
            ) is Some,
        ensures
            final(self).base() == old(self).base(),
            key is Modifier ==> res is None && final(self).typed() == old(self).typed(),
            key !is Modifier ==> {
                let s = old(self).typed().push(press_atom(key, modifiers));
                match spec_stack_lookup(stack_for(old(self).base(), *overlay_keymap), s) {
                    Some(KeyMapLookup::Action(a)) => res == Some(a) && final(self).typed()
                        == Seq::<KeySequenceAtom>::empty(),
                    Some(KeyMapLookup::Prefix) => res is None && final(self).typed() == s,
                    _ => res is None && final(self).typed() == Seq::<KeySequenceAtom>::empty(),
                }
            },
    {
        let stack = self.build_stack(overlay_keymap);
        if key.is_modifier() {
            return None;
        }
        let atom = KeySequenceAtom::from_event(key, modifiers);
        self.cur_seq.0.push(atom);
        let mut clear_seq = true;
        let mut res = None;
        match stack.lookup(&self.cur_seq) {
            KeyMapLookup::BadSequence => {},
            KeyMapLookup::Prefix => {
                clear_seq = false;
            },
            KeyMapLookup::Action(action) => {
                res = Some(action);
            },
        }
        if clear_seq {
            self.cur_seq.0.clear();
        }
        res
    }
}


/// Move the cursor of pane `pane_id` to the next match of the buffer's
/// search, at or after the cursor; nothing changes when there is none.
pub fn search_next_in(pane_id: &PaneId, buf: &mut Buffer)
    requires
        old(buf).wf(),
        cursor_in_text(old(buf), pane_id@),
        search_fits(old(buf)),
    ensures
        final(buf).wf(),
        ({
            let t = old(buf).cur_text();
            let lp = spec_line_position(t, old(buf).cur_cursors()[pane_id@].0 as int);
            match old(buf).search_value() {
                Some(st) => {
                    ||| (forall|k: int, j: int| !is_later_match(st.matches(), lp.0 as int, lp.1, k, j))
                        && *final(buf) == *old(buf)
                    ||| exists|k: int, j: int|
                        #![trigger is_first_later(st.matches(), lp.0 as int, lp.1, k, j)]
                        is_first_later(st.matches(), lp.0 as int, lp.1, k, j)
                            && final(buf).cursor_set_from(
                            old(buf),
                            pane_id@,
                            AbsChar(
                                (line_start(t, (st.matches().0 + k) as nat)
                                    + st.matches().1[k].spans@[j].start) as usize,
                            ),
                        )
                },
                None => *final(buf) == *old(buf),
            }
        }),
{
    let pos = buf.cursor(pane_id);
    let line_pos = LinePosition::from_abs_char(pos, buf);
    let target = match buf.search_state() {
        Some(search) => search.next_match(line_pos),
        None => None,
    };
    if let Some(m) = target {
        let ghost st = buf.search_value()->0;
        proof {
            let (k, j) = choose|k: int, j: int|
                #![trigger is_later_match(st.matches(), line_pos.line.0 as int, line_pos.offset.0 as int, k, j)]
                {
                    &&& is_later_match(st.matches(), line_pos.line.0 as int, line_pos.offset.0 as int, k, j)
                    &&& forall|k2: int, j2: int|
                        crate::buffer::match_before(k2, j2, k, j) ==> !is_later_match(
                            st.matches(),
                            line_pos.line.0 as int,
                            line_pos.offset.0 as int,
                            k2,
                            j2,
                        )
                    &&& m.line.0 == st.matches().0 + k
                    &&& m.offset.0 == st.matches().1[k].spans@[j].start
                };
            assert(st.matches().1[k].spans@[j] == st.matches().1[k].spans@[j]);
            assert(is_first_later(st.matches(), line_pos.line.0 as int, line_pos.offset.0 as int, k, j));
        }
        let ci = m.to_abs_char(buf);
        buf.set_cursor(pane_id, ci);
    }
}


// ---------------------------------------------------------------------
// The editor

/// Why an action could not be carried out.
#[derive(Debug, PartialEq, Eq)]
pub enum StateError {
    /// The active pane shows a buffer that is not open.
    InvalidActiveBuffer,
    /// No open buffer has this identifier.
    InvalidBuffer(BufferId),
}

impl StateError {
    pub fn to_string(&self) -> (res: String)
        ensures
            self is InvalidActiveBuffer ==> res@
                == "internal error: active pane points to invalid buffer"@,
            self is InvalidBuffer ==> res@ == "invalid buffer: {buf_id}"@,
    {
        match self {
            StateError::InvalidActiveBuffer => String::from_str(
                "internal error: active pane points to invalid buffer",
            ),
            StateError::InvalidBuffer(_) => String::from_str("invalid buffer: {buf_id}"),
        }
    }
}

/// What became of an action.
#[derive(Debug, PartialEq, Eq)]
pub enum Outcome {
    /// The action was carried out; `true` when a buffer's text may have
    /// changed.
    Done(bool),
    /// The file at this path is to be read and shown in the active pane.
    OpenPath(String),
    /// The action needs the outside world.
    External(Action),
}

/// The open buffers, the panes that show them, the overlay if one is
/// shown, and the key handler.
pub struct AppState {
    key_handler: KeyHandler,
    buffers: BufferMap,
    pane_tree: PaneTree,
    is_persistence_enabled: bool,
    overlay: Option<Overlay>,
}

/// Taking out the value under `k` and putting in `v` is putting in `v`.
proof fn lemma_reinsert(m: Map<Seq<char>, Buffer>, k: Seq<char>, v: Buffer)
    ensures
        m.remove(k).insert(k, v) == m.insert(k, v),
{
    assert(m.remove(k).insert(k, v) =~= m.insert(k, v));
}

/// `new` equals `old` but for the value under `k`, which both hold.
pub open spec fn only_changed(new: Map<Seq<char>, Buffer>, old: Map<Seq<char>, Buffer>, k: Seq<char>) -> bool {
    &&& old.dom().contains(k)
    &&& new == old.insert(k, new[k])
}

impl AppState {
    pub closed spec fn bufs(&self) -> Map<Seq<char>, Buffer> {
        self.buffers@
    }

    pub closed spec fn tree(&self) -> PaneTree {
        self.pane_tree
    }

    pub closed spec fn keys(&self) -> KeyHandler {
        self.key_handler
    }

    pub closed spec fn persist(&self) -> bool {
        self.is_persistence_enabled
    }

    pub closed spec fn ov(&self) -> Option<Overlay> {
        self.overlay
    }

    pub closed spec fn wf(&self) -> bool {
        &&& self.buffers.wf()
        &&& self.pane_tree.wf()
        &&& self.overlay matches Some(o) ==> o.buf().wf()
    }

    /// The active pane.
    pub open spec fn active_pane(&self) -> Pane {
        self.tree().leaves()[self.tree().active_pos()]
    }

    /// The active pane shows an open buffer.
    pub open spec fn has_active_buffer(&self) -> bool {
        self.bufs().dom().contains(self.active_pane().bid())
    }

    /// The buffer that the active pane shows.
    pub open spec fn active_buffer(&self) -> Buffer {
        self.bufs()[self.active_pane().bid()]
    }

    /// The pane that edits go to: the overlay's, or the active pane.
    pub open spec fn target_pane(&self) -> Pane {
        match self.ov() {
            Some(o) => o.pan(),
            None => self.active_pane(),
        }
    }

    /// The buffer that edits go to: the overlay's, or the active pane's.
    pub open spec fn target_buffer(&self) -> Buffer {
        match self.ov() {
            Some(o) => o.buf(),
            None => self.active_buffer(),
        }
    }

    /// There is a buffer for edits to go to.
    pub open spec fn has_target(&self) -> bool {
        self.ov() is Some || self.has_active_buffer()
    }

    /// `self` is `old` with only the buffer that edits go to changed.
    pub open spec fn target_updated(&self, old: &AppState) -> bool {
        &&& self.tree() == old.tree()
        &&& match old.ov() {
            Some(o) => self.bufs() == old.bufs() && (self.ov() matches Some(o2)
                && o2.same_but_buffer(o)),
            None => self.ov() is None && only_changed(
                self.bufs(),
                old.bufs(),
                old.active_pane().bid(),
            ),
        }
    }

    pub proof fn lemma_wf(&self)
        requires
            self.wf(),
        ensures
            self.tree().wf(),
            forall|k: Seq<char>| #[trigger]
                self.bufs().dom().contains(k) ==> self.bufs()[k].wf() && self.bufs()[k].buffer_id()
                    == k,
            self.ov() matches Some(o) ==> o.buf().wf(),
    {
        self.buffers.lemma_wf();
    }

    pub fn buffers(&self) -> (res: &BufferMap)
        ensures
            res@ == self.bufs(),
            self.wf() ==> res.wf(),
    {
        &self.buffers
    }

    /// Scroll the active pane so that line `top_line` is the first shown.
    pub fn set_active_top_line(&mut self, top_line: AbsLine)
        requires
            old(self).wf(),
        ensures
            final(self).wf(),
            final(self).bufs() == old(self).bufs(),
            final(self).ov() == old(self).ov(),
            final(self).keys() == old(self).keys(),
            final(self).persist() == old(self).persist(),
            final(self).tree().leaves().len() == old(self).tree().leaves().len(),
            final(self).tree().active_pos() == old(self).tree().active_pos(),
            layout_of(final(self).tree().tree()) == layout_of(old(self).tree().tree()),
            forall|i: int|
                0 <= i < old(self).tree().leaves().len() && i != old(self).tree().active_pos()
                    ==> #[trigger] final(self).tree().leaves()[i] == old(self).tree().leaves()[i],
            ({
                let p = final(self).active_pane();
                let q = old(self).active_pane();
                &&& p.top() == top_line.0
                &&& p.pid() == q.pid()
                &&& p.bid() == q.bid()
                &&& p.active_flag() == q.active_flag()
                &&& p.info_bar() == q.info_bar()
                &&& p.cursor_visible() == q.cursor_visible()
            }),
    {
        let i = self.pane_tree.active_index();
        let mut pane = self.pane_tree.active().clone();
        pane.set_top_line(top_line);
        self.pane_tree.set_pane(i, pane);
        proof {
            let old_l = old(self).tree().leaves();
            let new_l = self.tree().leaves();
            crate::pane_tree::lemma_first_active(old_l);
            assert forall|j: int| 0 <= j < i implies !(#[trigger] new_l[j]).active_flag() by {
                assert(new_l[j] == old_l[j]);
            }
            crate::pane_tree::lemma_first_active_at(new_l, i as int);
        }
    }

    /// `self` is `old` after highlighting the open buffer `id` in the
    /// syntax named `name` of `set` with `theme`, with result `res`.
    pub open spec fn buffer_highlighted(
        &self,
        old: &AppState,
        id: Seq<char>,
        set: SyntaxSet,
        name: Seq<char>,
        theme: SyntectTheme,
        res: Result<bool, HighlightError>,
    ) -> bool {
        &&& self.tree() == old.tree()
        &&& self.ov() == old.ov()
        &&& self.keys() == old.keys()
        &&& self.persist() == old.persist()
        &&& !old.bufs().dom().contains(id) ==> (res matches Ok(false))
        &&& (res is Err || res == Ok::<bool, HighlightError>(false)) ==> self.bufs() == old.bufs()
        &&& old.bufs().dom().contains(id) && res is Ok ==> {
            let b = self.bufs()[id];
            let a = old.bufs()[id];
            &&& res matches Ok(true)
            &&& only_changed(self.bufs(), old.bufs(), id)
            &&& b.history() == a.history()
            &&& b.active() == a.active()
            &&& b.last_action() == a.last_action()
            &&& b.same_identity(&a)
            &&& b.spans().1.len() == spec_len_lines(a.cur_text())
            &&& b.spans().1.map_values(|s: StyledLine| s.0@) == highlighted_lines(a.cur_text(), set, name, theme)->0
        }
        &&& old.bufs().dom().contains(id) ==> (res is Ok <==> highlighted_lines(
            old.bufs()[id].cur_text(),
            set,
            name,
            theme,
        ) is Some)
    }

    /// Highlight the open buffer `id` in the syntax named `syntax_name` of
    /// `syntax_set` with `theme`, when the set holds such a syntax;
    /// otherwise change nothing and say so.
    pub fn highlight_buffer_in(
        &mut self,
        id: &BufferId,
        syntax_set: &SyntaxSet,
        syntax_name: &str,
        theme: &SyntectTheme,
    ) -> (res: Result<bool, HighlightError>)
        requires
            old(self).wf(),
        ensures
            final(self).wf(),
            syntax_named(*syntax_set, syntax_name@) is None ==> (res matches Err(HighlightError::UnknownSyntax)
                && *final(self) == *old(self)),
            syntax_named(*syntax_set, syntax_name@) is Some ==> final(self).buffer_highlighted(
                old(self),
                id@,
                *syntax_set,
                syntax_name@,
                *theme,
                res,
            ),
    {
        if !has_syntax(syntax_set, syntax_name) {
            return Err(HighlightError::UnknownSyntax);
        }
        self.highlight_buffer(id, syntax_set, syntax_name, theme)
    }

    /// Highlight the open buffer `id` in the syntax named `syntax_name` of
    /// `syntax_set` with `theme` (see `Buffer::recalc_style_spans`);
    /// `false` when no such buffer is open.
    pub fn highlight_buffer(
        &mut self,
        id: &BufferId,
        syntax_set: &SyntaxSet,
        syntax_name: &str,
        theme: &SyntectTheme,
    ) -> (res: Result<bool, HighlightError>)
        requires
            old(self).wf(),
            syntax_named(*syntax_set, syntax_name@) is Some,
        ensures
            final(self).wf(),
            final(self).buffer_highlighted(old(self), id@, *syntax_set, syntax_name@, *theme, res),
    {
        proof {
            self.lemma_wf();
        }
        match self.buffers.remove(id) {
            None => {
                assert(self.buffers@ =~= old(self).buffers@);
                Ok(false)
            },
            Some(mut buf) => {
                let r = buf.recalc_style_spans(syntax_set, syntax_name, theme);
                proof {
                    lemma_reinsert(old(self).bufs(), id@, buf);
                    if r is Err {
                        assert(old(self).bufs().insert(id@, buf) =~= old(self).bufs());
                    }
                }
                self.buffers.insert(buf);
                match r {
                    Ok(()) => Ok(true),
                    Err(e) => Err(e),
                }
            },
        }
    }

    pub fn key_handler(&self) -> (res: &KeyHandler)
        ensures
            *res == self.keys(),
    {
        &self.key_handler
    }

    pub fn pane_tree(&self) -> (res: &PaneTree)
        ensures
            *res == self.tree(),
    {
        &self.pane_tree
    }

    pub fn overlay(&self) -> (res: Option<&Overlay>)
        ensures
            res matches Some(o) ==> self.ov() == Some(*o),
            res is None ==> self.ov() is None,
    {
        match &self.overlay {
            Some(o) => Some(o),
            None => None,
        }
    }

    /// Show `overlay` over the panes, or none.
    pub fn set_overlay(&mut self, overlay: Option<Overlay>)
        requires
            overlay matches Some(o) ==> o.buf().wf(),
        ensures
            final(self).ov() == overlay,
            final(self).bufs() == old(self).bufs(),
            final(self).tree() == old(self).tree(),
            final(self).keys() == old(self).keys(),
            final(self).persist() == old(self).persist(),
            old(self).wf() ==> final(self).wf(),
    {
        self.overlay = overlay;
    }

    /// Give the open-file overlay, when it is shown, the names found for
    /// what was typed.
    pub fn set_open_file_suggestions(&mut self, names: Vec<String>)
        ensures
            final(self).bufs() == old(self).bufs(),
            final(self).tree() == old(self).tree(),
            final(self).keys() == old(self).keys(),
            final(self).persist() == old(self).persist(),
            old(self).ov() matches Some(Overlay::OpenFile(w)) ==> (final(self).ov() matches Some(
                Overlay::OpenFile(w2),
            ) && w2.buf() == w.buf() && w2.pan() == w.pan() && w2.suggested() == crate::overlay::joined(
                names@.map_values(|n: String| n@),
                " | "@,
            )),
            !(old(self).ov() matches Some(Overlay::OpenFile(_))) ==> final(self).ov() == old(self).ov(),
            old(self).wf() ==> final(self).wf(),
    {
        match &mut self.overlay {
            Some(Overlay::OpenFile(w)) => w.set_suggestions(names),
            _ => {},
        }
    }

    pub fn is_persistence_enabled(&self) -> (res: bool)
        ensures
            res == self.persist(),
    {
        self.is_persistence_enabled
    }

    pub fn enable_persistence(&mut self)
        ensures
            final(self).persist(),
            final(self).bufs() == old(self).bufs(),
            final(self).tree() == old(self).tree(),
            final(self).keys() == old(self).keys(),
            final(self).ov() == old(self).ov(),
            old(self).wf() ==> final(self).wf(),
    {
        self.is_persistence_enabled = true;
    }

    /// The buffer that edits go to: the overlay's, or the active pane's
    /// when it is open.
    pub fn active_buffer_ref(&self) -> (res: Result<&Buffer, StateError>)
        requires
            self.wf(),
        ensures
            self.has_target() ==> (res matches Ok(b) && *b == self.target_buffer()),
            !self.has_target() ==> res == Err::<&Buffer, StateError>(StateError::InvalidActiveBuffer),
    {
        match &self.overlay {
            Some(o) => Ok(o.buffer()),
            None => {
                let pane = self.pane_tree.active();
                match self.buffers.get(pane.buffer_id()) {
                    Some(b) => Ok(b),
                    None => Err(StateError::InvalidActiveBuffer),
                }
            },
        }
    }

    /// Handle a key press with the key handler; see
    /// `KeyHandler::handle_key`.
    pub fn handle_key(&mut self, key: Key, modifiers: Modifiers, overlay_keymap: &Option<Result<KeyMap, Error>>) -> (res: Option<Action>)
        requires
            key is Modifier || spec_stack_lookup(
                stack_for(old(self).keys().base(), *overlay_keymap),
                old(self).keys().typed().push(press_atom(key, modifiers)),
            ) is Some,
        ensures
            final(self).bufs() == old(self).bufs(),
            final(self).tree() == old(self).tree(),
            final(self).ov() == old(self).ov(),
            final(self).persist() == old(self).persist(),
            final(self).keys().base() == old(self).keys().base(),
            key is Modifier ==> res is None && final(self).keys().typed() == old(self).keys().typed(),
            key !is Modifier ==> {
                let s = old(self).keys().typed().push(press_atom(key, modifiers));
                match spec_stack_lookup(stack_for(old(self).keys().base(), *overlay_keymap), s) {
                    Some(KeyMapLookup::Action(a)) => res == Some(a) && final(self).keys().typed()
                        == Seq::<KeySequenceAtom>::empty(),
                    Some(KeyMapLookup::Prefix) => res is None && final(self).keys().typed() == s,
                    _ => res is None && final(self).keys().typed() == Seq::<KeySequenceAtom>::empty(),
                }
            },
            old(self).wf() ==> final(self).wf(),
    {
        self.key_handler.handle_key(key, modifiers, overlay_keymap)
    }

    /// Take the active pane's buffer out of the map.
    fn take_active_buffer(&mut self) -> (res: Option<Buffer>)
        requires
            old(self).wf(),
        ensures
            res is Some <==> old(self).has_active_buffer(),
            res matches Some(b) ==> b == old(self).active_buffer() && b.wf(),
            final(self).bufs() == old(self).bufs().remove(old(self).active_pane().bid()),
            res is None ==> final(self).bufs() == old(self).bufs(),
            final(self).tree() == old(self).tree(),
            final(self).keys() == old(self).keys(),
            final(self).persist() == old(self).persist(),
            final(self).ov() == old(self).ov(),
            final(self).buffers.wf(),
            final(self).pane_tree.wf(),
            final(self).overlay matches Some(o) ==> o.buf().wf(),
    {
        let pane = self.pane_tree.active();
        let id = pane.buffer_id().clone();
        let res = self.buffers.remove(&id);
        proof {
            if res is None {
                assert(self.buffers@ =~= old(self).buffers@);
            }
        }
        res
    }
}

impl AppState {
    /// The state holds what carrying out `action` needs: the cursor that
    /// an edit works at lies in its buffer's text, a search fits, and
    /// another buffer is open where one is deleted.
    pub open spec fn action_defined(&self, action: Action) -> bool {
        let tpid = self.target_pane().pid();
        let t = self.target_buffer();
        let pid = self.active_pane().pid();
        let b = self.active_buffer();
        &&& self.has_target() ==> match action {
            Action::Insert(_) => cursor_in_text(&t, tpid) && cursors_below_max(&t),
            Action::Move(_, _) => cursor_in_text(&t, tpid),
            Action::Delete(_, _) => cursor_in_text(&t, tpid),
            Action::DeleteBuffer => exists|k: Seq<char>| #[trigger]
                self.bufs().dom().contains(k) && k != t.buffer_id(),
            _ => true,
        }
        &&& self.has_active_buffer() ==> match action {
            Action::SearchNext => cursor_in_text(&b, pid) && search_fits(&b),
            Action::Confirm => self.ov() matches Some(Overlay::Search(_)) ==> cursor_in_text(&b, pid)
                && search_fits(&b),
            Action::SplitPane(_) => b.cur_cursors().dom().contains(pid),
            _ => true,
        }
    }

    /// Whether the state holds what carrying out `action` needs.
    pub fn can_handle_action(&self, action: &Action) -> (res: bool)
        requires
            self.wf(),
        ensures
            res == self.action_defined(*action),
    {
        proof {
            self.lemma_wf();
        }
        let target_ok = match self.active_buffer_ref() {
            Err(_) => true,
            Ok(t) => {
                let tpane = match &self.overlay {
                    Some(o) => o.pane(),
                    None => self.pane_tree.active(),
                };
                match action {
                    Action::Insert(_) => cursor_lies_in_text(t, tpane.id()) && t.cursors().all_below(
                        usize::MAX,
                    ),
                    Action::Move(_, _) => cursor_lies_in_text(t, tpane.id()),
                    Action::Delete(_, _) => cursor_lies_in_text(t, tpane.id()),
                    Action::DeleteBuffer => {
                        let other = self.buffers.find_other(t.id());
                        match other {
                            Some(o) => {
                                assert(self.bufs().dom().contains(o@));
                                true
                            },
                            None => false,
                        }
                    },
                    _ => true,
                }
            },
        };
        let pane = self.pane_tree.active();
        let active_ok = match self.buffers.get(pane.buffer_id()) {
            None => true,
            Some(b) => match action {
                Action::SearchNext => cursor_lies_in_text(b, pane.id()) && b.search_fits_text(),
                Action::Confirm => match &self.overlay {
                    Some(Overlay::Search(_)) => cursor_lies_in_text(b, pane.id())
                        && b.search_fits_text(),
                    _ => true,
                },
                Action::SplitPane(_) => b.cursors().get(pane.id()).is_some(),
                _ => true,
            },
        };
        target_ok && active_ok
    }

    /// What carrying out `action` does to the state.
    pub open spec fn handled(&self, old: &AppState, action: Action, res: Result<Outcome, StateError>) -> bool {
        let pane = old.active_pane();
        let pid = pane.pid();
        let bid = pane.bid();
        let b = old.active_buffer();
        let tpid = old.target_pane().pid();
        let t = old.target_buffer();
        let unchanged = self.bufs() == old.bufs() && self.tree() == old.tree() && self.ov()
            == old.ov();
        let on_target = match action {
            Action::Insert(_) | Action::Move(_, _) | Action::Delete(_, _) | Action::Undo
            | Action::Redo => true,
            _ => false,
        };
        let on_active = match action {
            Action::SearchNext | Action::SplitPane(_) => true,
            _ => false,
        };
        &&& self.keys() == old.keys()
        &&& self.persist() == old.persist()
        &&& on_target && !old.has_target() ==> res == Err::<Outcome, StateError>(
            StateError::InvalidActiveBuffer,
        ) && unchanged
        &&& on_target && old.has_target() ==> self.target_updated(old) && match action {
            Action::Insert(c) => res == Ok::<Outcome, StateError>(Outcome::Done(true))
                && inserted_at_cursor(self.target_buffer(), t, tpid, c),
            Action::Move(step, dir) => res == Ok::<Outcome, StateError>(Outcome::Done(false))
                && moved_cursor(self.target_buffer(), t, tpid, step, dir),
            Action::Delete(boundary, dir) => res == Ok::<Outcome, StateError>(Outcome::Done(true))
                && deleted_at_cursor(self.target_buffer(), t, tpid, boundary, dir),
            Action::Undo => res == Ok::<Outcome, StateError>(Outcome::Done(true))
                && self.target_buffer().undone_from(&t) && self.target_buffer().wf(),
            Action::Redo => res == Ok::<Outcome, StateError>(Outcome::Done(true))
                && self.target_buffer().redone_from(&t) && self.target_buffer().wf(),
            _ => true,
        }
        &&& on_active && !old.has_active_buffer() ==> res == Err::<Outcome, StateError>(
            StateError::InvalidActiveBuffer,
        ) && unchanged
        &&& on_active && old.has_active_buffer() ==> self.ov() == old.ov() && only_changed(
            self.bufs(),
            old.bufs(),
            bid,
        ) && match action {
            Action::SearchNext => res == Ok::<Outcome, StateError>(Outcome::Done(false))
                && self.tree() == old.tree() && searched_next(self.bufs()[bid], b, pid),
            Action::SplitPane(o) => res == Ok::<Outcome, StateError>(Outcome::Done(false))
                && self.tree().split_from(old.tree(), o, self.bufs()[bid], b),
            _ => true,
        }
        &&& match action {
            Action::Insert(_) | Action::Move(_, _) | Action::Delete(_, _) | Action::Undo
            | Action::Redo | Action::SearchNext | Action::SplitPane(_) => true,
            Action::PreviousPane => res == Ok::<Outcome, StateError>(Outcome::Done(false))
                && self.bufs() == old.bufs() && self.ov() == old.ov() && activated_at(
                self.tree().leaves(),
                old.tree().leaves(),
                prev_pos(old.tree().active_pos(), old.tree().leaves().len() as int),
            ) && layout_of(self.tree().tree()) == layout_of(old.tree().tree()),
            Action::NextPane => res == Ok::<Outcome, StateError>(Outcome::Done(false))
                && self.bufs() == old.bufs() && self.ov() == old.ov() && activated_at(
                self.tree().leaves(),
                old.tree().leaves(),
                next_pos(old.tree().active_pos(), old.tree().leaves().len() as int),
            ) && layout_of(self.tree().tree()) == layout_of(old.tree().tree()),
            Action::DeleteBuffer => if !old.has_target() {
                res == Err::<Outcome, StateError>(StateError::InvalidActiveBuffer) && unchanged
            } else if old.ov() is Some {
                res == Ok::<Outcome, StateError>(Outcome::Done(false)) && unchanged
            } else {
                &&& res == Ok::<Outcome, StateError>(Outcome::Done(false))
                &&& self.ov() is None
                &&& layout_of(self.tree().tree()) == layout_of(old.tree().tree())
                &&& exists|to: BufferId|
                    #![trigger rebound(self.tree().leaves(), old.tree().leaves(), bid, to)]
                    {
                        &&& to@ != bid
                        &&& old.bufs().dom().contains(to@)
                        &&& rebound(self.tree().leaves(), old.tree().leaves(), bid, to)
                        &&& self.bufs().dom() == old.bufs().dom().remove(bid)
                        &&& forall|k: Seq<char>|
                            #[trigger] self.bufs().dom().contains(k) && k != to@ ==> self.bufs()[k]
                                == old.bufs()[k]
                        &&& self.bufs()[to@].cur_text() == old.bufs()[to@].cur_text()
                    }
            },
            Action::InteractiveSearch => res == Ok::<Outcome, StateError>(Outcome::Done(false))
                && self.bufs() == old.bufs() && self.tree() == old.tree() && (self.ov() matches Some(
                Overlay::Search(w),
            ) && fresh_prompt(w.buf(), w.pan(), Seq::empty(), 0)),
            Action::Cancel => res == Ok::<Outcome, StateError>(Outcome::Done(false)) && self.bufs()
                == old.bufs() && self.tree() == old.tree() && self.ov() is None,
            Action::Confirm => match old.ov() {
                Some(Overlay::OpenFile(w)) => (res matches Ok(Outcome::OpenPath(p)) && p@
                    == w.buf().cur_text()) && self.bufs()
                    == old.bufs() && self.tree() == old.tree() && self.ov() is None,
                Some(Overlay::Search(_)) => self.ov() is None && self.tree() == old.tree() && if !old.has_active_buffer() {
                    res == Err::<Outcome, StateError>(StateError::InvalidActiveBuffer) && self.bufs()
                        == old.bufs()
                } else {
                    &&& res == Ok::<Outcome, StateError>(Outcome::Done(false))
                    &&& only_changed(self.bufs(), old.bufs(), bid)
                    &&& exists|mid: Buffer|
                        #[trigger] searched_next(mid, b, pid) && self.bufs()[bid].search_value()
                            is None && self.bufs()[bid].history() == mid.history()
                            && self.bufs()[bid].active() == mid.active()
                },
                None => res == Ok::<Outcome, StateError>(Outcome::Done(false)) && unchanged,
            },
            Action::AppendToBuffer(id, content) => if old.bufs().dom().contains(id@) {
                &&& res == Ok::<Outcome, StateError>(Outcome::Done(true))
                &&& self.tree() == old.tree()
                &&& self.ov() == old.ov()
                &&& only_changed(self.bufs(), old.bufs(), id@)
                &&& self.bufs()[id@].wf()
                &&& self.bufs()[id@].edited_from(
                    &old.bufs()[id@],
                    ActionType::Other,
                    old.bufs()[id@].cur_text() + content@,
                    old.bufs()[id@].cur_cursors().map_values(
                        |x: AbsChar|
                            adjust_cursor(
                                Adjust::Clamp((old.bufs()[id@].cur_text() + content@).len() as usize),
                                x,
                            ),
                    ),
                )
            } else {
                res == Err::<Outcome, StateError>(StateError::InvalidBuffer(id)) && unchanged
            },
            _ => res == Ok::<Outcome, StateError>(Outcome::External(action)) && unchanged,
        }
    }

    /// Carry out `action`. Edits go to the overlay when one is shown, and
    /// otherwise to the active pane. Actions that need the outside world
    /// come back as `External`, and opening a confirmed path as
    /// `OpenPath`.
    pub fn handle_action(&mut self, action: Action) -> (res: Result<Outcome, StateError>)
        requires
            old(self).wf(),
            old(self).action_defined(action),
        ensures
            final(self).wf(),
            final(self).handled(old(self), action, res),
    {
        proof {
            self.lemma_wf();
        }
        match action {
            Action::Insert(c) => {
                if let Some(o) = &mut self.overlay {
                    let (pane, buf) = o.pane_buffer_mut();
                    insert_char_at_cursor(pane.id(), buf, c);
                    return Ok(Outcome::Done(true));
                }
                let pane_id = self.pane_tree.active().id().clone();
                match self.take_active_buffer() {
                    Some(mut buf) => {
                        insert_char_at_cursor(&pane_id, &mut buf, c);
                        proof {
                            lemma_reinsert(old(self).bufs(), old(self).active_pane().bid(), buf);
                        }
                        self.buffers.insert(buf);
                        Ok(Outcome::Done(true))
                    },
                    None => Err(StateError::InvalidActiveBuffer),
                }
            },
            Action::Move(step, dir) => {
                if let Some(o) = &mut self.overlay {
                    let (pane, buf) = o.pane_buffer_mut();
                    buf.move_cursor(pane.id(), step, dir);
                    return Ok(Outcome::Done(false));
                }
                let pane_id = self.pane_tree.active().id().clone();
                match self.take_active_buffer() {
                    Some(mut buf) => {
                        buf.move_cursor(&pane_id, step, dir);
                        proof {
                            lemma_reinsert(old(self).bufs(), old(self).active_pane().bid(), buf);
                        }
                        self.buffers.insert(buf);
                        Ok(Outcome::Done(false))
                    },
                    None => Err(StateError::InvalidActiveBuffer),
                }
            },
            Action::Delete(boundary, direction) => {
                if let Some(o) = &mut self.overlay {
                    let (pane, buf) = o.pane_buffer_mut();
                    delete_at_cursor(pane.id(), buf, boundary, direction);
                    return Ok(Outcome::Done(true));
                }
                let pane_id = self.pane_tree.active().id().clone();
                match self.take_active_buffer() {
                    Some(mut buf) => {
                        delete_at_cursor(&pane_id, &mut buf, boundary, direction);
                        proof {
                            lemma_reinsert(old(self).bufs(), old(self).active_pane().bid(), buf);
                        }
                        self.buffers.insert(buf);
                        Ok(Outcome::Done(true))
                    },
                    None => Err(StateError::InvalidActiveBuffer),
                }
            },
            Action::Undo => {
                if let Some(o) = &mut self.overlay {
                    let (_pane, buf) = o.pane_buffer_mut();
                    buf.undo();
                    return Ok(Outcome::Done(true));
                }
                match self.take_active_buffer() {
                    Some(mut buf) => {
                        buf.undo();
                        proof {
                            lemma_reinsert(old(self).bufs(), old(self).active_pane().bid(), buf);
                        }
                        self.buffers.insert(buf);
                        Ok(Outcome::Done(true))
                    },
                    None => Err(StateError::InvalidActiveBuffer),
                }
            },
            Action::Redo => {
                if let Some(o) = &mut self.overlay {
                    let (_pane, buf) = o.pane_buffer_mut();
                    buf.redo();
                    return Ok(Outcome::Done(true));
                }
                match self.take_active_buffer() {
                    Some(mut buf) => {
                        buf.redo();
                        proof {
                            lemma_reinsert(old(self).bufs(), old(self).active_pane().bid(), buf);
                        }
                        self.buffers.insert(buf);
                        Ok(Outcome::Done(true))
                    },
                    None => Err(StateError::InvalidActiveBuffer),
                }
            },
            Action::SearchNext => {
                let pane_id = self.pane_tree.active().id().clone();
                match self.take_active_buffer() {
                    Some(mut buf) => {
                        search_next_in(&pane_id, &mut buf);
                        proof {
                            lemma_reinsert(old(self).bufs(), old(self).active_pane().bid(), buf);
                        }
                        self.buffers.insert(buf);
                        Ok(Outcome::Done(false))
                    },
                    None => Err(StateError::InvalidActiveBuffer),
                }
            },
            Action::SplitPane(orientation) => {
                match self.take_active_buffer() {
                    Some(mut buf) => {
                        self.pane_tree.split(orientation, &mut buf);
                        proof {
                            lemma_reinsert(old(self).bufs(), old(self).active_pane().bid(), buf);
                        }
                        self.buffers.insert(buf);
                        Ok(Outcome::Done(false))
                    },
                    None => Err(StateError::InvalidActiveBuffer),
                }
            },
            Action::PreviousPane => {
                self.pane_tree.make_previous_pane_active();
                Ok(Outcome::Done(false))
            },
            Action::NextPane => {
                self.pane_tree.make_next_pane_active();
                Ok(Outcome::Done(false))
            },
            Action::DeleteBuffer => {
                if self.overlay.is_some() {
                    return Ok(Outcome::Done(false));
                }
                match self.delete_active_buffer() {
                    true => Ok(Outcome::Done(false)),
                    false => Err(StateError::InvalidActiveBuffer),
                }
            },
            Action::InteractiveSearch => {
                self.overlay = Some(Overlay::Search(SearchWidget::new()));
                Ok(Outcome::Done(false))
            },
            Action::Cancel => {
                self.overlay = None;
                Ok(Outcome::Done(false))
            },
            Action::Confirm => self.handle_confirm(),
            Action::AppendToBuffer(buf_id, content) => {
                match self.buffers.remove(&buf_id) {
                    Some(mut buf) => {
                        let mut s = buf.text().to_string();
                        s.append(content.as_str());
                        buf.set_text(s.as_str());
                        proof {
                            lemma_reinsert(old(self).bufs(), buf_id@, buf);
                        }
                        self.buffers.insert(buf);
                        Ok(Outcome::Done(true))
                    },
                    None => {
                        assert(self.buffers@ =~= old(self).buffers@);
                        Err(StateError::InvalidBuffer(buf_id))
                    },
                }
            },
            _ => Ok(Outcome::External(action)),
        }
    }

    /// Confirm what the overlay holds: a path to open, or the text
    /// searched for, after which the cursor moves to the next match and
    /// the search ends.
    fn handle_confirm(&mut self) -> (res: Result<Outcome, StateError>)
        requires
            old(self).wf(),
            old(self).action_defined(Action::Confirm),
        ensures
            final(self).wf(),
            final(self).handled(old(self), Action::Confirm, res),
    {
        proof {
            self.lemma_wf();
        }
        match &self.overlay {
            Some(Overlay::OpenFile(open_file)) => {
                let path = open_file.path_text();
                self.overlay = None;
                Ok(Outcome::OpenPath(path))
            },
            Some(Overlay::Search(_)) => {
                self.overlay = None;
                let pane_id = self.pane_tree.active().id().clone();
                match self.take_active_buffer() {
                    Some(mut buf) => {
                        search_next_in(&pane_id, &mut buf);
                        let ghost mid = buf;
                        buf.clear_search();
                        proof {
                            lemma_reinsert(old(self).bufs(), old(self).active_pane().bid(), buf);
                            assert(searched_next(mid, old(self).active_buffer(), old(self).active_pane().pid()));
                        }
                        self.buffers.insert(buf);
                        Ok(Outcome::Done(false))
                    },
                    None => Err(StateError::InvalidActiveBuffer),
                }
            },
            None => Ok(Outcome::Done(false)),
        }
    }

    /// Run the search typed in the search overlay, when it is shown, over
    /// the `num_lines` lines shown from the active pane's top line.
    pub fn update_search(&mut self, num_lines: usize) -> (res: Result<(), StateError>)
        requires
            old(self).wf(),
            old(self).has_active_buffer() ==> old(self).active_pane().top() <= spec_len_lines(
                old(self).active_buffer().cur_text(),
            ),
        ensures
            final(self).wf(),
            final(self).tree() == old(self).tree(),
            final(self).ov() == old(self).ov(),
            final(self).keys() == old(self).keys(),
            final(self).persist() == old(self).persist(),
            !(old(self).ov() matches Some(Overlay::Search(_))) ==> res is Ok && final(self).bufs()
                == old(self).bufs(),
            (old(self).ov() matches Some(Overlay::Search(_))) && !old(self).has_active_buffer() ==> res
                == Err::<(), StateError>(StateError::InvalidActiveBuffer) && final(self).bufs()
                == old(self).bufs(),
            old(self).has_active_buffer() ==> (old(self).ov() matches Some(Overlay::Search(w)) ==> {
                let bid = old(self).active_pane().bid();
                &&& res is Ok
                &&& only_changed(final(self).bufs(), old(self).bufs(), bid)
                &&& final(self).bufs()[bid].history() == old(self).active_buffer().history()
                &&& final(self).bufs()[bid].active() == old(self).active_buffer().active()
                &&& w.buf().cur_text().len() == 0 ==> final(self).bufs()[bid].search_value()
                    == old(self).active_buffer().search_value()
                &&& w.buf().cur_text().len() > 0 ==> (final(self).bufs()[bid].search_value() matches Some(
                    st,
                ) && st.pane() == old(self).active_pane().pid() && st.matches().0
                    == old(self).active_pane().top() && st.matches().1.len() == num_lines && forall|k: int|
                    0 <= k < num_lines ==> (#[trigger] st.matches().1[k]).spans@ == if old(self).active_pane().top()
                        + k < spec_len_lines(old(self).active_buffer().cur_text()) {
                        line_match_spans(
                            w.buf().cur_text(),
                            line_text(old(self).active_buffer().cur_text(), (old(self).active_pane().top() + k) as nat),
                        )
                    } else {
                        Seq::<core::ops::Range<usize>>::empty()
                    })
            }),
    {
        proof {
            self.lemma_wf();
        }
        let text = match &self.overlay {
            Some(Overlay::Search(w)) => w.text(),
            _ => return Ok(()),
        };
        let pane = self.pane_tree.active().clone();
        match self.take_active_buffer() {
            Some(mut buf) => {
                buf.search(text.as_str(), &pane, num_lines);
                proof {
                    lemma_reinsert(old(self).bufs(), old(self).active_pane().bid(), buf);
                }
                self.buffers.insert(buf);
                Ok(())
            },
            None => Err(StateError::InvalidActiveBuffer),
        }
    }

    /// Open `buf` and show it in the active pane.
    pub fn show_buffer(&mut self, buf: Buffer)
        requires
            old(self).wf(),
            buf.wf(),
        ensures
            final(self).wf(),
            final(self).keys() == old(self).keys(),
            final(self).persist() == old(self).persist(),
            final(self).ov() == old(self).ov(),
            final(self).bufs().dom() == old(self).bufs().dom().insert(buf.buffer_id()),
            final(self).tree().leaves().len() == old(self).tree().leaves().len(),
            final(self).tree().leaves()[old(self).tree().active_pos()].bid() == buf.buffer_id(),
            layout_of(final(self).tree().tree()) == layout_of(old(self).tree().tree()),
            forall|i: int|
                0 <= i < old(self).tree().leaves().len() && i != old(self).tree().active_pos()
                    ==> #[trigger] final(self).tree().leaves()[i] == old(self).tree().leaves()[i],
            final(self).bufs()[buf.buffer_id()].cur_text() == buf.cur_text(),
            final(self).bufs()[buf.buffer_id()].cur_cursors().dom().contains(
                old(self).active_pane().pid(),
            ),
    {
        proof {
            self.lemma_wf();
        }
        let buf_id = buf.id().clone();
        let ghost b = buf;
        self.buffers.insert(buf);
        let index = self.pane_tree.active_index();
        let mut pane = self.pane_tree.active().clone();
        proof {
            self.buffers.lemma_wf();
        }
        let ghost before = self.buffers@;
        pane.switch_buffer(&mut self.buffers, &buf_id);
        proof {
            if old(self).active_pane().bid() != buf_id@ {
                crate::buffer::lemma_cursor_set(
                    &self.buffers@[buf_id@],
                    &before[buf_id@],
                    old(self).active_pane().pid(),
                    AbsChar(0),
                );
            } else {
                let mid = choose|mid: Buffer|
                    #[trigger] mid.cursor_removed_from(&before[buf_id@], old(self).active_pane().pid())
                        && self.buffers@[buf_id@].cursor_set_from(
                        &mid,
                        old(self).active_pane().pid(),
                        AbsChar(0),
                    );
                crate::buffer::lemma_cursor_removed(&mid, &before[buf_id@], old(self).active_pane().pid());
                crate::buffer::lemma_cursor_set(
                    &self.buffers@[buf_id@],
                    &mid,
                    old(self).active_pane().pid(),
                    AbsChar(0),
                );
            }
        }
        self.pane_tree.set_pane(index, pane);
        proof {
            let a = old(self).tree().active_pos();
            assert(self.pane_tree.leaves()[a].active_flag());
        }
    }

    /// Switch the panes showing the active pane's buffer to another open
    /// buffer, and close it. `false` when the active pane's buffer is not
    /// open.
    fn delete_active_buffer(&mut self) -> (res: bool)
        requires
            old(self).wf(),
            old(self).ov() is None,
            old(self).action_defined(Action::DeleteBuffer),
        ensures
            final(self).wf(),
            final(self).keys() == old(self).keys(),
            final(self).persist() == old(self).persist(),
            final(self).ov() == old(self).ov(),
            res == old(self).has_active_buffer(),
            !res ==> final(self).bufs() == old(self).bufs() && final(self).tree() == old(self).tree(),
            res ==> layout_of(final(self).tree().tree()) == layout_of(old(self).tree().tree()),
            res ==> exists|to: BufferId|
                #![trigger rebound(final(self).tree().leaves(), old(self).tree().leaves(), old(self).active_pane().bid(), to)]
                {
                    let bid = old(self).active_pane().bid();
                    &&& to@ != bid
                    &&& old(self).bufs().dom().contains(to@)
                    &&& rebound(final(self).tree().leaves(), old(self).tree().leaves(), bid, to)
                    &&& final(self).bufs().dom() == old(self).bufs().dom().remove(bid)
                    &&& forall|k: Seq<char>|
                        #[trigger] final(self).bufs().dom().contains(k) && k != to@
                            ==> final(self).bufs()[k] == old(self).bufs()[k]
                    &&& final(self).bufs()[to@].cur_text() == old(self).bufs()[to@].cur_text()
                },
    {
        proof {
            self.lemma_wf();
        }
        let active_id = self.pane_tree.active().buffer_id().clone();
        if !self.buffers.contains(&active_id) {
            return false;
        }
        let new_id = self.buffers.find_other(&active_id).unwrap();
        let n = self.pane_tree.panes().len();
        let ghost ps = self.pane_tree.leaves();
        let ghost b0 = self.buffers@;
        let mut k: usize = 0;
        while k < n
            invariant
                self.buffers.wf(),
                self.key_handler == old(self).key_handler,
                self.is_persistence_enabled == old(self).is_persistence_enabled,
                self.overlay == old(self).overlay,
                self.pane_tree.leaves().len() == n,
                layout_of(self.pane_tree.tree()) == layout_of(old(self).pane_tree.tree()),
                ps.len() == n,
                some_active(ps),
                forall|i: int| 0 <= i < k ==> #[trigger] self.pane_tree.leaves()[i] == (if ps[i].bid() == active_id@ {
                    ps[i].with_buffer(new_id)
                } else {
                    ps[i]
                }),
                forall|i: int| k <= i < n ==> #[trigger] self.pane_tree.leaves()[i] == ps[i],
                self.buffers@.dom() == b0.dom(),
                b0.dom().contains(new_id@),
                new_id@ != active_id@,
                forall|key: Seq<char>|
                    #[trigger] b0.dom().contains(key) && key != active_id@ && key != new_id@ ==> self.buffers@[key] == b0[key],
                self.buffers@[new_id@].cur_text() == b0[new_id@].cur_text(),
            decreases n - k,
        {
            let panes = self.pane_tree.panes();
            let mut pane = panes[k].clone();
            assert(*panes@[k as int] == self.pane_tree.leaves()[k as int]);
            assert(pane == ps[k as int]);
            if pane.buffer_id().same(&active_id) {
                proof {
                    self.buffers.lemma_wf();
                }
                let ghost before = self.buffers@;
                pane.switch_buffer(&mut self.buffers, &new_id);
                proof {
                    crate::buffer::lemma_cursor_set(
                        &self.buffers@[new_id@],
                        &before[new_id@],
                        ps[k as int].pid(),
                        AbsChar(0),
                    );
                }
                self.pane_tree.set_pane(k, pane);
            }
            k = k + 1;
        }
        self.buffers.remove(&active_id);
        proof {
            let qs = self.pane_tree.leaves();
            let i = choose|i: int| 0 <= i < ps.len() && (#[trigger] ps[i]).active_flag();
            lemma_with_buffer(ps[i], new_id);
            assert(qs[i].active_flag());
            assert(rebound(qs, ps, active_id@, new_id));
            assert(self.buffers@.dom() =~= b0.dom().remove(active_id@));
            let bid = old(self).active_pane().bid();
            assert(active_id@ == bid);
            assert(qs == self.tree().leaves());
            assert(rebound(self.tree().leaves(), old(self).tree().leaves(), bid, new_id));
            assert(self.bufs()[new_id@].cur_text() == old(self).bufs()[new_id@].cur_text());
        }
        true
    }
}


// ---------------------------------------------------------------------
// Loading persisted state

/// What was persisted of an open buffer.
pub struct PersistedBuffer {
    pub buffer_id: BufferId,
    pub path: Option<PathBuf>,
    pub cursors: CursorMap,
}

/// Every pane shows an open buffer that has a cursor for it, and the
/// pane's top line is a line of that buffer's text.
pub open spec fn panes_valid(tree: PaneTree, bufs: Map<Seq<char>, Buffer>) -> bool {
    forall|i: int|
        0 <= i < tree.leaves().len() ==> {
            let p = #[trigger] tree.leaves()[i];
            &&& bufs.dom().contains(p.bid())
            &&& bufs[p.bid()].cur_cursors().dom().contains(p.pid())
            &&& p.top() < spec_len_lines(bufs[p.bid()].cur_text())
        }
}

/// The position of the last entry of `ps` for buffer `id`.
pub open spec fn last_persisted(ps: Seq<PersistedBuffer>, id: Seq<char>) -> Option<int>
    decreases ps.len(),
{
    if ps.len() == 0 {
        None
    } else if ps.last().buffer_id@ == id {
        Some(ps.len() - 1)
    } else {
        last_persisted(ps.drop_last(), id)
    }
}

/// The last entry for a buffer is one of the entries, for that buffer.
proof fn lemma_last_persisted(ps: Seq<PersistedBuffer>, id: Seq<char>)
    ensures
        last_persisted(ps, id) matches Some(i) ==> 0 <= i < ps.len() && ps[i].buffer_id@ == id,
    decreases ps.len(),
{
    if ps.len() > 0 && ps.last().buffer_id@ != id {
        lemma_last_persisted(ps.drop_last(), id);
        if let Some(i) = last_persisted(ps.drop_last(), id) {
            assert(ps.drop_last()[i] == ps[i]);
        }
    }
}

/// No buffer after index `i` and before `n` in `bs` has the id of `bs[i]`.
pub open spec fn last_in(bs: Seq<Buffer>, i: int, n: int) -> bool {
    forall|j: int| i < j < n ==> #[trigger] bs[j].buffer_id() != bs[i].buffer_id()
}

/// `b` is `a` with at most the cursors of the active history entry
/// changed: the same texts and markers throughout, the same other
/// entries, the same active entry, style spans, identity and path.
pub open spec fn kept_but_cursors(b: Buffer, a: Buffer) -> bool {
    &&& b.history().len() == a.history().len()
    &&& forall|k: int|
        0 <= k < a.history().len() ==> (#[trigger] b.history()[k]).0 == a.history()[k].0
            && b.history()[k].1 == a.history()[k].1
    &&& forall|k: int| 0 <= k < a.history().len() && k != a.active() ==> #[trigger] b.history()[k] == a.history()[k]
    &&& b.active() == a.active()
    &&& b.spans() == a.spans()
    &&& b.same_identity(&a)
}

proof fn lemma_kept_cursor_set(new: &Buffer, mid: &Buffer, pid: Seq<char>, c: AbsChar, a: &Buffer)
    requires
        mid.wf(),
        new.cursor_set_from(mid, pid, c),
        kept_but_cursors(*mid, *a),
    ensures
        kept_but_cursors(*new, *a),
{
    crate::buffer::lemma_cursor_set(new, mid, pid, c);
    crate::buffer::lemma_wf_history(mid);
    let h = mid.history().update(mid.active(), (mid.cur_text(), mid.cur_markers(), mid.cur_cursors().insert(pid, c)));
    assert(new.history() == h);
    assert forall|k: int| 0 <= k < a.history().len() implies (#[trigger] new.history()[k]).0 == a.history()[k].0
        && new.history()[k].1 == a.history()[k].1 by {
        if k == mid.active() {
            assert(new.history()[k] == new.cur());
        } else {
            assert(h[k] == mid.history()[k]);
        }
    }
    assert forall|k: int| 0 <= k < a.history().len() && k != a.active() implies #[trigger] new.history()[k]
        == a.history()[k] by {
        assert(h[k] == mid.history()[k]);
    }
}

/// Where the cursor of pane `pid` in buffer `id` starts: where the last
/// entry persisted for the buffer put it, or the start of the text.
pub open spec fn restored_cursor(ps: Seq<PersistedBuffer>, id: Seq<char>, pid: Seq<char>) -> AbsChar {
    match last_persisted(ps, id) {
        Some(i) => if ps[i].cursors@.dom().contains(pid) {
            ps[i].cursors@[pid]
        } else {
            AbsChar(0)
        },
        None => AbsChar(0),
    }
}

/// Pane `q` of the loaded state restores the persisted pane `p`: a pane
/// whose buffer is open keeps it, with its cursor restored; another
/// shows a buffer of its own with the cursor at the start; a top line
/// past the end of the text becomes the first line.
pub open spec fn restored_pane(q: Pane, p: Pane, bufs: Map<Seq<char>, Buffer>, ps: Seq<PersistedBuffer>) -> bool {
    &&& q.pid() == p.pid()
    &&& q.active_flag() == p.active_flag()
    &&& q.info_bar() == p.info_bar()
    &&& q.cursor_visible() == p.cursor_visible()
    &&& bufs.dom().contains(p.bid()) ==> q.bid() == p.bid() && bufs[q.bid()].cur_cursors()[q.pid()]
        == restored_cursor(ps, p.bid(), p.pid())
    &&& !bufs.dom().contains(p.bid()) ==> q.bid() != p.bid() && bufs[q.bid()].cur_cursors()[q.pid()]
        == AbsChar(0)
    &&& q.top() == (if p.top() < spec_len_lines(bufs[q.bid()].cur_text()) {
        p.top()
    } else {
        0
    })
}

/// The cursors persisted for buffer `id`: the last entry for it wins.
fn persisted_cursors<'a>(persisted: &'a Vec<PersistedBuffer>, id: &BufferId) -> (res: Option<&'a CursorMap>)
    ensures
        res is Some <==> last_persisted(persisted@, id@) is Some,
        res matches Some(c) ==> *c == persisted@[last_persisted(persisted@, id@)->0].cursors,
        res matches Some(c) ==> 0 <= last_persisted(persisted@, id@)->0 < persisted@.len(),
{
    proof {
        lemma_last_persisted(persisted@, id@);
    }
    let mut i = persisted.len();
    assert(persisted@.take(i as int) =~= persisted@);
    while i > 0
        invariant
            i <= persisted@.len(),
            last_persisted(persisted@, id@) == last_persisted(persisted@.take(i as int), id@),
        decreases i,
    {
        let ghost t = persisted@.take(i as int);
        assert(t.last() == persisted@[i - 1]);
        assert(t.drop_last() =~= persisted@.take(i - 1));
        if persisted[i - 1].buffer_id.same(id) {
            return Some(&persisted[i - 1].cursors);
        }
        i = i - 1;
    }
    None
}

impl AppState {
    /// The state at start-up from what was persisted: the buffers read
    /// back, the persisted cursors, and the pane tree when it could be
    /// read. An empty scratch buffer is always added, and a tree of one
    /// pane on it is made when none could be read. Each pane's cursor
    /// starts at the beginning of its buffer or where it was persisted; a
    /// pane whose buffer is not open shows the scratch buffer; a top line
    /// past the end of the text becomes the first line. A loaded buffer
    /// keeps its text, history and path, with only cursors set; where two
    /// share an id the later one is kept, and the scratch buffer, whose id
    /// is drawn at random, takes the place of one that has its id.
    pub fn load(
        key_handler: KeyHandler,
        persisted: Vec<PersistedBuffer>,
        loaded: Vec<Buffer>,
        pane_tree: Option<PaneTree>,
    ) -> (res: Self)
        requires
            forall|i: int| 0 <= i < loaded@.len() ==> (#[trigger] loaded@[i]).wf(),
            forall|i: int| 0 <= i < persisted@.len() ==> (#[trigger] persisted@[i]).cursors.wf(),
            pane_tree matches Some(t) ==> t.wf(),
        ensures
            res.wf(),
            res.keys() == key_handler,
            !res.persist(),
            res.ov() is None,
            panes_valid(res.tree(), res.bufs()),
            forall|i: int| 0 <= i < loaded@.len() ==> res.bufs().dom().contains(#[trigger] loaded@[i].buffer_id()),
            res.bufs().dom().len() <= loaded@.len() + 1,
            pane_tree matches Some(t) ==> res.tree().leaves().len() == t.leaves().len(),
            pane_tree matches Some(t) ==> layout_of(res.tree().tree()) == layout_of(t.tree()),
            pane_tree matches Some(t) ==> (unique_ids(t.leaves()) ==> forall|i: int|
                0 <= i < t.leaves().len() ==> restored_pane(
                    #[trigger] res.tree().leaves()[i],
                    t.leaves()[i],
                    res.bufs(),
                    persisted@,
                )),
            pane_tree is None ==> res.tree().leaves().len() == 1,
            pane_tree is None ==> ({
                let q = res.tree().leaves()[0];
                &&& res.bufs().dom().contains(q.bid())
                &&& res.bufs()[q.bid()].cur_text().len() == 0
                &&& res.bufs()[q.bid()].cur_cursors().dom() == set![q.pid()]
                &&& res.bufs()[q.bid()].cur_cursors()[q.pid()] == restored_cursor(persisted@, q.bid(), q.pid())
                &&& q.top() == 0
                &&& q.active_flag()
            }),
            pane_tree matches Some(t) ==> forall|i: int|
                0 <= i < t.leaves().len() && !res.bufs().dom().contains(#[trigger] t.leaves()[i].bid())
                    ==> res.bufs()[res.tree().leaves()[i].bid()].cur_text().len() == 0,
            exists|sid: Seq<char>|
                #[trigger] res.bufs().dom().contains(sid) && res.bufs()[sid].cur_text().len() == 0 && (pane_tree is None
                    ==> res.tree().leaves()[0].bid() == sid) && forall|i: int|
                    0 <= i < loaded@.len() && last_in(loaded@, i, loaded@.len() as int) && loaded@[i].buffer_id()
                        != sid ==> kept_but_cursors(res.bufs()[#[trigger] loaded@[i].buffer_id()], loaded@[i]),
    {
        let mut scratch_buffer = Buffer::create_empty();
        let ghost scratch0 = scratch_buffer;
        let mut buffers = BufferMap::new();
        let mut i: usize = 0;
        let mut loaded = loaded;
        let ghost all = loaded@;
        let n0 = loaded.len();
        while loaded.len() > 0
            invariant
                all.len() == n0,
                buffers.wf(),
                forall|j: int| 0 <= j < loaded@.len() ==> (#[trigger] loaded@[j]).wf(),
                forall|j: int| 0 <= j < all.len() ==> (#[trigger] all[j]).wf(),
                loaded@ == all.skip(i as int),
                i + loaded@.len() == all.len(),
                forall|j: int| 0 <= j < i ==> buffers@.dom().contains(#[trigger] all[j].buffer_id()),
                buffers@.dom().finite(),
                buffers@.dom().len() <= i,
                forall|j: int| 0 <= j < i && #[trigger] last_in(all, j, i as int) ==> buffers@[all[j].buffer_id()] == all[j],
            decreases loaded@.len(),
        {
            let b = loaded.remove(0);
            assert(b == all[i as int]);
            assert(loaded@ =~= all.skip(i as int + 1));
            let ghost d0 = buffers@.dom();
            let ghost m0 = buffers@;
            buffers.insert(b);
            proof {
                buffers.lemma_wf();
                assert(buffers@.dom() =~= d0.insert(all[i as int].buffer_id()));
                assert forall|j: int| 0 <= j < i + 1 && #[trigger] last_in(all, j, i + 1) implies buffers@[all[j].buffer_id()]
                    == all[j] by {
                    if j < i {
                        assert(all[i as int].buffer_id() != all[j].buffer_id());
                        assert(last_in(all, j, i as int));
                    }
                }
            }
            i = i + 1;
        }
        let ghost given = pane_tree;
        let mut pane_tree = match pane_tree {
            Some(pt) => pt,
            None => {
                let pt = PaneTree::new(&mut scratch_buffer);
                proof {
                    crate::buffer::lemma_cursor_set(&scratch_buffer, &scratch0, pt.leaves()[0].pid(), AbsChar(0));
                }
                pt
            },
        };
        assert(scratch_buffer.cur_text().len() == 0);
        assert(given is None ==> scratch_buffer.cur_cursors().dom() =~= set![pane_tree.leaves()[0].pid()]);
        let ghost layout0 = layout_of(pane_tree.tree());
        assert(given matches Some(t) ==> layout0 == layout_of(t.tree()));
        let scratch_buffer_id = scratch_buffer.id().clone();
        let ghost d1 = buffers@.dom();
        let ghost m1 = buffers@;
        buffers.insert(scratch_buffer);
        proof {
            buffers.lemma_wf();
            assert(buffers@.dom() =~= d1.insert(scratch_buffer_id@));
        }
        let ghost dom = buffers@.dom();
        let ghost m2 = buffers@;
        assert forall|id: Seq<char>| dom.contains(id) && id != scratch_buffer_id@ implies kept_but_cursors(
            #[trigger] buffers@[id],
            m2[id],
        ) by {
            assert(m2[id].same_identity(&m2[id]));
        }
        let n = pane_tree.panes().len();
        let ghost ps = pane_tree.leaves();
        assert(given matches Some(t) ==> ps == t.leaves());
        let mut k: usize = 0;
        while k < n
            invariant
                buffers.wf(),
                buffers@.dom() == dom,
                dom.contains(scratch_buffer_id@),
                pane_tree.wf(),
                pane_tree.leaves().len() == n,
                layout_of(pane_tree.tree()) == layout0,
                ps.len() == n,
                some_active(ps),
                forall|j: int| 0 <= j < all.len() ==> dom.contains(#[trigger] all[j].buffer_id()),
                forall|j: int| k <= j < n ==> #[trigger] pane_tree.leaves()[j] == ps[j],
                forall|j: int|
                    0 <= j < k ==> {
                        let p = #[trigger] pane_tree.leaves()[j];
                        &&& dom.contains(p.bid())
                        &&& buffers@[p.bid()].cur_cursors().dom().contains(p.pid())
                        &&& p.top() < spec_len_lines(buffers@[p.bid()].cur_text())
                    },
                forall|j: int| 0 <= j < k ==> (#[trigger] pane_tree.leaves()[j]).active_flag() == ps[j].active_flag(),
                forall|j: int| 0 <= j < persisted@.len() ==> (#[trigger] persisted@[j]).cursors.wf(),
                unique_ids(ps) ==> forall|j: int|
                    0 <= j < k ==> restored_pane(#[trigger] pane_tree.leaves()[j], ps[j], buffers@, persisted@),
                buffers@[scratch_buffer_id@].cur_text().len() == 0,
                forall|j: int|
                    0 <= j < k && !dom.contains(#[trigger] ps[j].bid()) ==> pane_tree.leaves()[j].bid()
                        == scratch_buffer_id@,
                given is None ==> ps.len() == 1 && ps[0].bid() == scratch_buffer_id@ && ps[0].top() == 0
                    && ps[0].active_flag(),
                given is None ==> buffers@[scratch_buffer_id@].cur_cursors().dom() == set![ps[0].pid()],
                forall|id: Seq<char>|
                    dom.contains(id) && id != scratch_buffer_id@ ==> kept_but_cursors(#[trigger] buffers@[id], m2[id]),
                forall|id: Seq<char>| dom.contains(id) && id != scratch_buffer_id@ ==> m2[id] == m1[id],
            decreases n - k,
        {
            let panes = pane_tree.panes();
            let mut pane = panes[k].clone();
            assert(*panes@[k as int] == pane_tree.leaves()[k as int]);
            proof {
                buffers.lemma_wf();
            }
            let ghost b_before = buffers@;
            match buffers.remove(pane.buffer_id()) {
                Some(mut buffer) => {
                    buffer.set_cursor(pane.id(), AbsChar(0));
                    proof {
                        crate::buffer::lemma_cursor_set(&buffer, &b_before[pane.bid()], pane.pid(), AbsChar(0));
                        if pane.bid() != scratch_buffer_id@ {
                            lemma_kept_cursor_set(&buffer, &b_before[pane.bid()], pane.pid(), AbsChar(0), &m2[pane.bid()]);
                        }
                    }
                    match persisted_cursors(&persisted, pane.buffer_id()) {
                        Some(cursors) => {
                            match cursors.get(pane.id()) {
                                Some(pane_cursor) => {
                                    let ghost mid = buffer;
                                    buffer.set_cursor(pane.id(), pane_cursor);
                                    proof {
                                        crate::buffer::lemma_cursor_set(&buffer, &mid, pane.pid(), pane_cursor);
                                        if pane.bid() != scratch_buffer_id@ {
                                            lemma_kept_cursor_set(&buffer, &mid, pane.pid(), pane_cursor, &m2[pane.bid()]);
                                        }
                                    }
                                },
                                None => {},
                            }
                        },
                        None => {},
                    }
                    buffers.insert(buffer);
                },
                None => {
                    pane.switch_buffer(&mut buffers, &scratch_buffer_id);
                    proof {
                        crate::buffer::lemma_cursor_set(
                            &buffers@[scratch_buffer_id@],
                            &b_before[scratch_buffer_id@],
                            pane.pid(),
                            AbsChar(0),
                        );
                    }
                },
            }
            proof {
                buffers.lemma_wf();
                assert(buffers@.dom() =~= dom);
            }
            let len_lines = buffers.get(pane.buffer_id()).unwrap().text().len_lines();
            if pane.top_line().0 >= len_lines {
                pane.set_top_line(AbsLine(0));
            }
            pane_tree.set_pane(k, pane);
            proof {
                let a = choose|a: int| 0 <= a < ps.len() && (#[trigger] ps[a]).active_flag();
                assert(pane_tree.leaves()[a].active_flag());
            }
            k = k + 1;
        }
        proof {
            if given is None {
                assert(unique_ids(ps));
                assert(restored_pane(pane_tree.leaves()[0], ps[0], buffers@, persisted@));
            }
        }
        AppState { key_handler, buffers, pane_tree, is_persistence_enabled: false, overlay: None }
    }
}


} // verus!
