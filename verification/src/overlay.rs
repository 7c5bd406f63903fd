//! Overlays: one-line widgets shown over the panes, each with its own
//! pane and buffer.

use crate::action::Action;
use crate::buffer::{AbsChar, Buffer};
use crate::key_map::{all_parse, pair_views, spec_from_pairs, KeyMap};
use crate::key_sequence::Error;
use crate::pane_tree::Pane;
use std::path::PathBuf;
use vstd::prelude::*;

verus! {

/// A prompt for text to search for.
pub struct SearchWidget {
    buffer: Buffer,
    pane: Pane,
}

/// The bindings of the search prompt.
pub open spec fn search_bindings() -> Seq<(Seq<char>, Action)> {
    seq![
        ("<ret>"@, Action::Confirm),
        ("<ctrl>m"@, Action::Confirm),
        ("<ctrl>s"@, Action::SearchNext),
    ]
}

/// The bindings of the open-file prompt.
pub open spec fn open_file_bindings() -> Seq<(Seq<char>, Action)> {
    seq![
        ("<ctrl>i"@, Action::Autocomplete),
        ("<ret>"@, Action::Confirm),
        ("<ctrl>m"@, Action::Confirm),
    ]
}

/// A fresh prompt buffer shown in a pane of its own, with the pane's
/// cursor at `cursor`.
pub open spec fn fresh_prompt(buffer: Buffer, pane: Pane, text: Seq<char>, cursor: usize) -> bool {
    &&& buffer.wf()
    &&& buffer.cur_text() == text
    &&& buffer.cur_cursors() == Map::<Seq<char>, AbsChar>::empty().insert(pane.pid(), AbsChar(cursor))
    &&& pane.bid() == buffer.buffer_id()
    &&& pane.active_flag()
    &&& !pane.info_bar()
    &&& pane.cursor_visible()
    &&& buffer.path_value() is None
}

impl SearchWidget {
    pub closed spec fn buf(&self) -> Buffer {
        self.buffer
    }

    pub closed spec fn pan(&self) -> Pane {
        self.pane
    }

    /// An empty search prompt.
    pub fn new() -> (res: Self)
        ensures
            fresh_prompt(res.buf(), res.pan(), Seq::empty(), 0),
    {
        let mut buffer = Buffer::create_empty();
        let pane = Pane::create_for_widget(buffer.id().clone());
        let ghost before = buffer;
        buffer.set_cursor(pane.id(), AbsChar(0));
        proof {
            crate::buffer::lemma_cursor_set(&buffer, &before, pane.pid(), AbsChar(0));
        }
        let res = SearchWidget { buffer, pane };
        assert(res.buf().cur_cursors() =~= Map::<Seq<char>, AbsChar>::empty().insert(
            res.pan().pid(),
            AbsChar(0),
        ));
        res
    }

    /// The text searched for.
    pub fn text(&self) -> (res: String)
        requires
            self.buf().wf(),
        ensures
            res@ == self.buf().cur_text(),
    {
        self.buffer.text().to_string()
    }

    pub fn get_keymap(&self) -> (res: Result<KeyMap, Error>)
        ensures
            res is Ok <==> all_parse(search_bindings()),
            res matches Ok(m) ==> m@ == spec_from_pairs(search_bindings()),
    {
        let pairs = vec![
            ("<ret>", Action::Confirm),
            ("<ctrl>m", Action::Confirm),
            ("<ctrl>s", Action::SearchNext),
        ];
        assert(pair_views(pairs@) =~= search_bindings());
        KeyMap::from_pairs("search", pairs)
    }

    pub fn buffer(&self) -> (res: &Buffer)
        ensures
            *res == self.buf(),
    {
        &self.buffer
    }

    pub fn pane(&self) -> (res: &Pane)
        ensures
            *res == self.pan(),
    {
        &self.pane
    }

    /// The pane, and the buffer to edit in place.
    pub fn pane_buffer_mut(&mut self) -> ((pane, buffer): (&Pane, &mut Buffer))
        ensures
            *pane == old(self).pan(),
            *buffer == old(self).buf(),
            final(self).pan() == old(self).pan(),
            final(self).buf() == *final(buffer),
    {
        (&self.pane, &mut self.buffer)
    }

    /// Replace the prompt's buffer.
    pub fn set_buffer(&mut self, buffer: Buffer)
        ensures
            final(self).buf() == buffer,
            final(self).pan() == old(self).pan(),
    {
        self.buffer = buffer;
    }

    /// Replace the prompt's pane.
    pub fn set_pane(&mut self, pane: Pane)
        ensures
            final(self).buf() == old(self).buf(),
            final(self).pan() == pane,
    {
        self.pane = pane;
    }
}

/// A prompt for a path to open, with completions of what was typed.
pub struct OpenFile {
    buffer: Buffer,
    pane: Pane,
    suggestions: String,
}

/// `parts` joined with `sep` between each two.
pub open spec fn joined(parts: Seq<Seq<char>>, sep: Seq<char>) -> Seq<char>
    decreases parts.len(),
{
    if parts.len() == 0 {
        Seq::empty()
    } else if parts.len() == 1 {
        parts[0]
    } else {
        joined(parts.drop_last(), sep) + sep + parts.last()
    }
}

/// `std::path::PathBuf::from` on a `String`. The path takes over the
/// string's buffer; `PathBuf` is opaque here, so nothing is stated of it.
#[verifier::external_body]
fn path_from_string(s: String) -> PathBuf {
    PathBuf::from(s)
}

impl OpenFile {
    pub closed spec fn buf(&self) -> Buffer {
        self.buffer
    }

    pub closed spec fn pan(&self) -> Pane {
        self.pane
    }

    pub closed spec fn suggested(&self) -> Seq<char> {
        self.suggestions@
    }

    /// A prompt holding `default_path` and a slash, the cursor at the
    /// byte length of that text, and no suggestions yet.
    pub fn new(default_path: &str) -> (res: Self)
        ensures
            fresh_prompt(
                res.buf(),
                res.pan(),
                default_path@ + seq!['/'],
                vstd::utf8::encode_utf8(default_path@ + seq!['/']).len() as usize,
            ),
            res.suggested() == Seq::<char>::empty(),
    {
        let mut buffer = Buffer::create_empty();
        let mut path = String::from_str(default_path);
        path.append("/");
        proof {
            reveal_strlit("/");
        }
        let ghost empty = buffer;
        buffer.set_text(path.as_str());
        proof {
            crate::buffer::lemma_edited_cur(
                &buffer,
                &empty,
                crate::buffer::ActionType::Other,
                path@,
                empty.cur_cursors().map_values(
                    |x: AbsChar| crate::buffer::adjust_cursor(crate::buffer::Adjust::Clamp(path@.len() as usize), x),
                ),
            );
            assert(empty.cur_cursors().map_values(
                |x: AbsChar| crate::buffer::adjust_cursor(crate::buffer::Adjust::Clamp(path@.len() as usize), x),
            ) =~= Map::<Seq<char>, AbsChar>::empty());
        }
        let pane = Pane::create_for_widget(buffer.id().clone());
        let len = path.as_str().len();
        let ghost before = buffer;
        buffer.set_cursor(pane.id(), AbsChar(len));
        proof {
            crate::buffer::lemma_cursor_set(&buffer, &before, pane.pid(), AbsChar(len));
        }
        assert(path@ =~= default_path@ + seq!['/']);
        assert(before.cur_text() == path@);
        assert(buffer.cur_text() == path@);
        let res = OpenFile { buffer, pane, suggestions: String::new() };
        assert(res.buf().cur_cursors() =~= Map::<Seq<char>, AbsChar>::empty().insert(
            res.pan().pid(),
            AbsChar(len),
        ));
        res
    }

    /// The path typed.
    pub fn path(&self) -> (res: PathBuf)
        requires
            self.buf().wf(),
    {
        path_from_string(self.buffer.text().to_string())
    }

    /// The text typed.
    pub fn path_text(&self) -> (res: String)
        requires
            self.buf().wf(),
        ensures
            res@ == self.buf().cur_text(),
    {
        self.buffer.text().to_string()
    }

    /// The glob pattern whose matches are suggested: the path typed
    /// followed by `*`.
    pub fn suggestion_pattern(&self) -> (res: String)
        requires
            self.buf().wf(),
        ensures
            res@ == self.buf().cur_text() + seq!['*'],
    {
        let mut p = self.buffer.text().to_string();
        p.append("*");
        proof {
            reveal_strlit("*");
        }
        p
    }

    /// Keep `names` as the suggestions, joined by " | ".
    pub fn set_suggestions(&mut self, names: Vec<String>)
        ensures
            final(self).suggested() == joined(names@.map_values(|n: String| n@), " | "@),
            final(self).buf() == old(self).buf(),
            final(self).pan() == old(self).pan(),
    {
        let ghost parts = names@.map_values(|n: String| n@);
        let mut s = String::new();
        let mut i: usize = 0;
        proof {
            assert(parts.take(0) =~= Seq::<Seq<char>>::empty());
        }
        while i < names.len()
            invariant
                i <= names@.len(),
                parts == names@.map_values(|n: String| n@),
                s@ == joined(parts.take(i as int), " | "@),
            decreases names@.len() - i,
        {
            if i > 0 {
                s.append(" | ");
            }
            s.append(names[i].as_str());
            proof {
                let t = parts.take(i as int + 1);
                assert(t.drop_last() =~= parts.take(i as int));
                assert(t.last() == names@[i as int]@);
                if i == 0 {
                    assert(t =~= seq![names@[0]@]);
                }
            }
            i = i + 1;
        }
        assert(parts.take(names@.len() as int) =~= parts);
        self.suggestions = s;
    }

    pub fn suggestions(&self) -> (res: &str)
        ensures
            res@ == self.suggested(),
    {
        self.suggestions.as_str()
    }

    pub fn get_keymap(&self) -> (res: Result<KeyMap, Error>)
        ensures
            res is Ok <==> all_parse(open_file_bindings()),
            res matches Ok(m) ==> m@ == spec_from_pairs(open_file_bindings()),
    {
        let pairs = vec![
            ("<ctrl>i", Action::Autocomplete),
            ("<ret>", Action::Confirm),
            ("<ctrl>m", Action::Confirm),
        ];
        assert(pair_views(pairs@) =~= open_file_bindings());
        KeyMap::from_pairs("open_file", pairs)
    }

    pub fn buffer(&self) -> (res: &Buffer)
        ensures
            *res == self.buf(),
    {
        &self.buffer
    }

    pub fn pane(&self) -> (res: &Pane)
        ensures
            *res == self.pan(),
    {
        &self.pane
    }

    /// The pane, and the buffer to edit in place.
    pub fn pane_buffer_mut(&mut self) -> ((pane, buffer): (&Pane, &mut Buffer))
        ensures
            *pane == old(self).pan(),
            *buffer == old(self).buf(),
            final(self).pan() == old(self).pan(),
            final(self).suggested() == old(self).suggested(),
            final(self).buf() == *final(buffer),
    {
        (&self.pane, &mut self.buffer)
    }

    /// Replace the prompt's buffer.
    pub fn set_buffer(&mut self, buffer: Buffer)
        ensures
            final(self).buf() == buffer,
            final(self).pan() == old(self).pan(),
            final(self).suggested() == old(self).suggested(),
    {
        self.buffer = buffer;
    }

    /// Replace the prompt's pane.
    pub fn set_pane(&mut self, pane: Pane)
        ensures
            final(self).buf() == old(self).buf(),
            final(self).pan() == pane,
            final(self).suggested() == old(self).suggested(),
    {
        self.pane = pane;
    }
}

/// A widget shown over the panes.
pub enum Overlay {
    OpenFile(OpenFile),
    Search(SearchWidget),
}

impl Overlay {
    pub open spec fn buf(&self) -> Buffer {
        match self {
            Overlay::OpenFile(w) => w.buf(),
            Overlay::Search(w) => w.buf(),
        }
    }

    pub open spec fn pan(&self) -> Pane {
        match self {
            Overlay::OpenFile(w) => w.pan(),
            Overlay::Search(w) => w.pan(),
        }
    }

    /// `self` is `old` with only its buffer changed.
    pub open spec fn same_but_buffer(&self, old: Overlay) -> bool {
        match (*self, old) {
            (Overlay::OpenFile(a), Overlay::OpenFile(b)) => a.pan() == b.pan() && a.suggested()
                == b.suggested(),
            (Overlay::Search(a), Overlay::Search(b)) => a.pan() == b.pan(),
            _ => false,
        }
    }

    /// The pane, and the buffer to edit in place.
    pub fn pane_buffer_mut(&mut self) -> ((pane, buffer): (&Pane, &mut Buffer))
        ensures
            *pane == old(self).pan(),
            *buffer == old(self).buf(),
            final(self).same_but_buffer(*old(self)),
            final(self).buf() == *final(buffer),
    {
        match self {
            Overlay::OpenFile(w) => w.pane_buffer_mut(),
            Overlay::Search(w) => w.pane_buffer_mut(),
        }
    }

    /// The text shown before the overlay's input.
    pub fn prompt(&self) -> (res: &'static str)
        ensures
            self is OpenFile ==> res@ == "Open file:"@,
            self is Search ==> res@ == "Search:"@,
    {
        match self {
            Overlay::OpenFile(_) => "Open file:",
            Overlay::Search(_) => "Search:",
        }
    }

    pub fn get_keymap(&self) -> (res: Result<KeyMap, Error>)
        ensures
            self is OpenFile ==> (res is Ok <==> all_parse(open_file_bindings())) && (res matches Ok(
                m,
            ) ==> m@ == spec_from_pairs(open_file_bindings())),
            self is Search ==> (res is Ok <==> all_parse(search_bindings())) && (res matches Ok(m)
                ==> m@ == spec_from_pairs(search_bindings())),
    {
        match self {
            Overlay::OpenFile(w) => w.get_keymap(),
            Overlay::Search(w) => w.get_keymap(),
        }
    }

    pub fn buffer(&self) -> (res: &Buffer)
        ensures
            *res == self.buf(),
    {
        match self {
            Overlay::OpenFile(w) => w.buffer(),
            Overlay::Search(w) => w.buffer(),
        }
    }

    pub fn pane(&self) -> (res: &Pane)
        ensures
            *res == self.pan(),
    {
        match self {
            Overlay::OpenFile(w) => w.pane(),
            Overlay::Search(w) => w.pane(),
        }
    }
}

} // verus!
