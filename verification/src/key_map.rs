//! Key maps: bindings from key sequences to actions, and stacks of
//! them in which upper maps override lower ones.

use crate::action::{Action, Boundary, Direction, Move};
use crate::key::{char_uppercase, map_single_char, only_modifier, spec_key_to_char, Key, Modifier};
use crate::key_sequence::{
    is_prefix, spec_from_items, spec_parse, spec_parse_items, Error, KeySequence, KeySequenceAtom,
};
use crate::pane_tree::Orientation;
use vstd::prelude::*;

verus! {

#[derive(Debug, PartialEq, Eq)]
pub enum KeyMapLookup {
    Action(Action),
    Prefix,
    BadSequence,
}

pub type Bindings = Map<Seq<KeySequenceAtom>, Action>;

/// The bindings that a list of distinct entries describes.
pub open spec fn entries_map(e: Seq<(Seq<KeySequenceAtom>, Action)>) -> Bindings
    decreases e.len(),
{
    if e.len() == 0 {
        Map::empty()
    } else {
        entries_map(e.drop_last()).insert(e.last().0, e.last().1)
    }
}

pub open spec fn distinct_keys(e: Seq<(Seq<KeySequenceAtom>, Action)>) -> bool {
    forall|i: int, j: int| 0 <= i < j < e.len() ==> e[i].0 != e[j].0
}

proof fn lemma_entries_map_dom(e: Seq<(Seq<KeySequenceAtom>, Action)>, k: Seq<KeySequenceAtom>)
    ensures
        entries_map(e).dom().contains(k) <==> exists|i: int| 0 <= i < e.len() && e[i].0 == k,
    decreases e.len(),
{
    if e.len() > 0 {
        lemma_entries_map_dom(e.drop_last(), k);
        if entries_map(e.drop_last()).dom().contains(k) {
            let i = choose|i: int| 0 <= i < e.drop_last().len() && e.drop_last()[i].0 == k;
            assert(e[i].0 == k);
        }
        if exists|i: int| 0 <= i < e.len() && e[i].0 == k {
            let i = choose|i: int| 0 <= i < e.len() && e[i].0 == k;
            if i < e.len() - 1 {
                assert(e.drop_last()[i].0 == k);
            }
        }
    }
}

proof fn lemma_entries_map_get(e: Seq<(Seq<KeySequenceAtom>, Action)>, i: int)
    requires
        distinct_keys(e),
        0 <= i < e.len(),
    ensures
        entries_map(e).dom().contains(e[i].0),
        entries_map(e)[e[i].0] == e[i].1,
    decreases e.len(),
{
    if i < e.len() - 1 {
        assert(e.drop_last()[i] == e[i]);
        lemma_entries_map_get(e.drop_last(), i);
    }
}

proof fn lemma_entries_map_update(
    e: Seq<(Seq<KeySequenceAtom>, Action)>,
    i: int,
    a: Action,
)
    requires
        distinct_keys(e),
        0 <= i < e.len(),
    ensures
        entries_map(e.update(i, (e[i].0, a))) == entries_map(e).insert(e[i].0, a),
        distinct_keys(e.update(i, (e[i].0, a))),
    decreases e.len(),
{
    let e2 = e.update(i, (e[i].0, a));
    if i == e.len() - 1 {
        assert(e2.drop_last() =~= e.drop_last());
        assert(entries_map(e2) =~= entries_map(e).insert(e[i].0, a));
    } else {
        assert(e2.drop_last() =~= e.drop_last().update(i, (e[i].0, a)));
        lemma_entries_map_update(e.drop_last(), i, a);
        assert(e.last().0 != e[i].0);
        assert(entries_map(e2) =~= entries_map(e).insert(e[i].0, a));
    }
}

/// What looking up `seq` in `bindings` gives, without falling back.
pub open spec fn spec_map_lookup(bindings: Bindings, seq: Seq<KeySequenceAtom>) -> KeyMapLookup {
    if bindings.dom().contains(seq) {
        KeyMapLookup::Action(bindings[seq])
    } else if exists|k: Seq<KeySequenceAtom>| bindings.dom().contains(k) && is_prefix(seq, k) {
        KeyMapLookup::Prefix
    } else {
        KeyMapLookup::BadSequence
    }
}

pub struct KeyMap {
    name: &'static str,
    map: Vec<(KeySequence, Action)>,
}

impl View for KeyMap {
    type V = Bindings;

    closed spec fn view(&self) -> Bindings {
        entries_map(self.entries())
    }
}

impl Clone for KeyMap {
    fn clone(&self) -> (res: Self)
        ensures
            res@ == self@,
            res.name() == self.name(),
    {
        proof {
            use_type_invariant(self);
        }
        let mut map: Vec<(KeySequence, Action)> = Vec::new();
        let mut i: usize = 0;
        while i < self.map.len()
            invariant
                i <= self.map@.len(),
                map@.len() == i,
                forall|j: int|
                    0 <= j < i ==> (#[trigger] map@[j]).0.0@ == self.map@[j].0.0@ && map@[j].1
                        == self.map@[j].1,
            decreases self.map@.len() - i,
        {
            let entry = (self.map[i].0.clone(), self.map[i].1.clone());
            map.push(entry);
            i = i + 1;
        }
        assert(map@.map_values(|p: (KeySequence, Action)| (p.0.0@, p.1)) =~= self.entries());
        KeyMap { name: self.name, map }
    }
}

impl KeyMap {
    /// The bindings, in the order they were first added.
    pub closed spec fn entries(&self) -> Seq<(Seq<KeySequenceAtom>, Action)> {
        self.map@.map_values(|p: (KeySequence, Action)| (p.0.0@, p.1))
    }

    pub closed spec fn name(&self) -> &'static str {
        self.name
    }

    #[verifier::type_invariant]
    closed spec fn keys_distinct(&self) -> bool {
        distinct_keys(self.entries())
    }

    pub fn get_name(&self) -> (res: &'static str)
        ensures
            res == self.name(),
    {
        self.name
    }

    pub fn new(name: &'static str) -> (res: Self)
        ensures
            res@ == Map::<Seq<KeySequenceAtom>, Action>::empty(),
            res.name() == name,
    {
        let res = KeyMap { name, map: Vec::new() };
        assert(res.entries() =~= Seq::<(Seq<KeySequenceAtom>, Action)>::empty());
        res
    }

    /// Bind `seq` to `action`, replacing any earlier binding of `seq`.
    pub fn insert(&mut self, seq: KeySequence, action: Action)
        ensures
            final(self)@ == old(self)@.insert(seq.0@, action),
            final(self).name() == old(self).name(),
    {
        proof {
            use_type_invariant(&*self);
        }
        let ghost old_entries = self.entries();
        let mut i: usize = 0;
        while i < self.map.len()
            invariant
                i <= self.map@.len(),
                self.entries() == old_entries,
                old_entries == old(self).entries(),
                distinct_keys(old_entries),
                self.name == old(self).name,
                forall|j: int| 0 <= j < i ==> old_entries[j].0 != seq.0@,
            decreases self.map@.len() - i,
        {
            if self.map[i].0.same(&seq) {
                let ghost idx = i as int;
                proof {
                    lemma_entries_map_update(old_entries, idx, action);
                }
                let entry = (seq, action);
                let ghost new_entry = (entry.0.0@, entry.1);
                let mut map: Vec<(KeySequence, Action)> = Vec::new();
                std::mem::swap(&mut map, &mut self.map);
                map.set(i, entry);
                assert(map@.map_values(|p: (KeySequence, Action)| (p.0.0@, p.1)) =~= old_entries.update(
                    idx,
                    (old_entries[idx].0, action),
                ));
                self.map = map;
                return ;
            }
            i = i + 1;
        }
        let ghost k = seq.0@;
        let mut map: Vec<(KeySequence, Action)> = Vec::new();
        std::mem::swap(&mut map, &mut self.map);
        map.push((seq, action));
        assert(map@.map_values(|p: (KeySequence, Action)| (p.0.0@, p.1)) =~= old_entries.push(
            (k, action),
        ));
        assert(old_entries.push((k, action)).drop_last() =~= old_entries);
        self.map = map;
    }

    /// Parse `s` and bind the sequence to `action`. Fails, leaving the map
    /// unchanged, when `s` does not parse.
    pub fn parse_and_insert(&mut self, s: &str, action: Action) -> (res: Result<(), Error>)
        ensures
            res is Ok <==> spec_parse(s@) is Some,
            spec_parse(s@) matches Some(atoms) ==> final(self)@ == old(self)@.insert(atoms, action),
            spec_parse(s@) is None ==> final(self)@ == old(self)@,
            res matches Err(e) ==> spec_parse_error(s@, e),
            final(self).name() == old(self).name(),
    {
        let seq = KeySequence::parse(s)?;
        self.insert(seq, action);
        Ok(())
    }

    /// A map named `name` holding the bindings of `pairs`, later pairs
    /// overriding earlier ones. Fails with the error of the first pair
    /// that does not parse.
    pub fn from_pairs(name: &'static str, pairs: Vec<(&str, Action)>) -> (res: Result<Self, Error>)
        ensures
            res is Ok <==> all_parse(pair_views(pairs@)),
            res matches Ok(m) ==> m@ == spec_from_pairs(pair_views(pairs@)) && m.name() == name,
            res matches Err(e) ==> exists|j: int|
                0 <= j < pairs@.len() && all_parse(pair_views(pairs@).take(j)) && spec_parse(
                    pairs@[j].0@,
                ) is None && spec_parse_error(pairs@[j].0@, e),
    {
        let mut map = Self::new(name);
        let mut i: usize = 0;
        while i < pairs.len()
            invariant
                i <= pairs@.len(),
                all_parse(pair_views(pairs@).take(i as int)),
                map@ == spec_from_pairs(pair_views(pairs@).take(i as int)),
                map.name() == name,
            decreases pairs@.len() - i,
        {
            let (keys, action) = (pairs[i].0, pairs[i].1.clone());
            let r = map.parse_and_insert(keys, action);
            proof {
                let pv = pair_views(pairs@);
                assert(pv.take(i + 1).drop_last() =~= pv.take(i as int));
                assert(pv.take(i + 1).last() == pv[i as int]);
            }
            match r {
                Ok(()) => {},
                Err(e) => {
                    assert(pair_views(pairs@)[i as int].0 == pairs@[i as int].0@);
                    return Err(e);
                },
            }
            i = i + 1;
        }
        assert(pair_views(pairs@).take(pairs@.len() as int) =~= pair_views(pairs@));
        Ok(map)
    }

    /// The default bindings of the editor.
    pub fn base() -> (res: Result<Self, Error>)
        ensures
            res is Ok <==> all_parse(base_bindings()),
            res matches Ok(m) ==> m@ == spec_from_pairs(base_bindings()) && m.name() == "base",
    {
        let pairs = vec![
            ("<esc>", Action::Exit),
            ("<ctrl>q", Action::Exit),
            ("<ctrl>x+<ctrl>c", Action::Exit),
            ("<ctrl>o", Action::InsertLineAfter),
            ("<ctrl>b", Action::Move(Move::Boundary(Boundary::Grapheme), Direction::Dec)),
            ("<ctrl>f", Action::Move(Move::Boundary(Boundary::Grapheme), Direction::Inc)),
            ("<ctrl>p", Action::Move(Move::Line, Direction::Dec)),
            ("<ctrl>n", Action::Move(Move::Line, Direction::Inc)),
            ("<ctrl>a", Action::Move(Move::Boundary(Boundary::LineEnd), Direction::Dec)),
            ("<ctrl>e", Action::Move(Move::Boundary(Boundary::LineEnd), Direction::Inc)),
            ("<alt>v", Action::Move(Move::Page, Direction::Dec)),
            ("<ctrl>v", Action::Move(Move::Page, Direction::Inc)),
            ("<alt><shift><less>", Action::Move(Move::Boundary(Boundary::BufferEnd), Direction::Dec)),
            (
                "<alt><shift><greater>",
                Action::Move(Move::Boundary(Boundary::BufferEnd), Direction::Inc),
            ),
            ("<backspace>", Action::Delete(Boundary::Grapheme, Direction::Dec)),
            ("<ctrl>d", Action::Delete(Boundary::Grapheme, Direction::Inc)),
            ("<ctrl>k", Action::Delete(Boundary::LineEnd, Direction::Inc)),
            ("<ctrl>s", Action::InteractiveSearch),
            ("<ctrl>/", Action::Undo),
            ("<ctrl><shift>?", Action::Redo),
            ("<ctrl>x+k", Action::DeleteBuffer),
            ("<ctrl>x+<ctrl>f", Action::OpenFile),
            ("<ctrl>x+<ctrl>s", Action::SaveFile),
            ("<ctrl><shift>j", Action::PreviousPane),
            ("<ctrl><shift>k", Action::NextPane),
            ("<ctrl>x+2", Action::SplitPane(Orientation::Vertical)),
            ("<ctrl>x+3", Action::SplitPane(Orientation::Horizontal)),
            ("<ctrl>x+0", Action::ClosePane),
            ("<ctrl>c+<ctrl>s", Action::OpenShell),
            ("<ctrl>x+b", Action::SwitchToBuffer),
            ("<ctrl>x+<ctrl>p", Action::RunNonInteractiveProcess),
            ("<ctrl>g", Action::Cancel),
        ];
        assert(pair_views(pairs@) =~= base_bindings());
        Self::from_pairs("base", pairs)
    }

    /// What `seq` is bound to; otherwise whether it starts some bound
    /// sequence.
    pub fn lookup(&self, seq: &KeySequence) -> (res: KeyMapLookup)
        ensures
            res == spec_map_lookup(self@, seq.0@),
    {
        proof {
            use_type_invariant(self);
        }
        let mut i: usize = 0;
        while i < self.map.len()
            invariant
                i <= self.map@.len(),
                distinct_keys(self.entries()),
                forall|j: int| 0 <= j < i ==> self.entries()[j].0 != seq.0@,
            decreases self.map@.len() - i,
        {
            if self.map[i].0.same(seq) {
                proof {
                    lemma_entries_map_get(self.entries(), i as int);
                }
                return KeyMapLookup::Action(self.map[i].1.clone());
            }
            i = i + 1;
        }
        proof {
            lemma_entries_map_dom(self.entries(), seq.0@);
        }
        if self.contains_prefix(seq) {
            KeyMapLookup::Prefix
        } else {
            KeyMapLookup::BadSequence
        }
    }

    /// Some bound sequence starts with `seq`.
    fn contains_prefix(&self, seq: &KeySequence) -> (res: bool)
        ensures
            res == exists|k: Seq<KeySequenceAtom>| self@.dom().contains(k) && is_prefix(seq.0@, k),
    {
        let mut i: usize = 0;
        while i < self.map.len()
            invariant
                i <= self.map@.len(),
                forall|j: int| 0 <= j < i ==> !is_prefix(seq.0@, #[trigger] self.entries()[j].0),
            decreases self.map@.len() - i,
        {
            if self.map[i].0.starts_with(seq) {
                proof {
                    let k = self.entries()[i as int].0;
                    lemma_entries_map_dom(self.entries(), k);
                }
                return true;
            }
            i = i + 1;
        }
        proof {
            assert forall|k: Seq<KeySequenceAtom>|
                self@.dom().contains(k) implies !is_prefix(seq.0@, k) by {
                lemma_entries_map_dom(self.entries(), k);
                let j = choose|j: int| 0 <= j < self.entries().len() && self.entries()[j].0 == k;
                assert(!is_prefix(seq.0@, self.entries()[j].0));
            }
        }
        false
    }
}

pub open spec fn pair_views(pairs: Seq<(&str, Action)>) -> Seq<(Seq<char>, Action)> {
    pairs.map_values(|p: (&str, Action)| (p.0@, p.1))
}

pub open spec fn all_parse(pairs: Seq<(Seq<char>, Action)>) -> bool {
    forall|i: int| 0 <= i < pairs.len() ==> spec_parse(#[trigger] pairs[i].0) is Some
}

/// The bindings of `pairs`, later pairs overriding earlier ones.
pub open spec fn spec_from_pairs(pairs: Seq<(Seq<char>, Action)>) -> Bindings
    decreases pairs.len(),
{
    if pairs.len() == 0 {
        Map::empty()
    } else {
        spec_from_pairs(pairs.drop_last()).insert(
            spec_parse(pairs.last().0).unwrap(),
            pairs.last().1,
        )
    }
}

/// `e` is the error that parsing `s` fails with.
pub open spec fn spec_parse_error(s: Seq<char>, e: Error) -> bool {
    match spec_parse_items(s) {
        Err(name) => e matches Error::InvalidName(n) && n@ == name,
        Ok(items) => spec_from_items(items) == Err::<Seq<KeySequenceAtom>, Error>(e),
    }
}

/// The default bindings, as written.
pub open spec fn base_bindings() -> Seq<(Seq<char>, Action)> {
    seq![
        ("<esc>"@, Action::Exit),
        ("<ctrl>q"@, Action::Exit),
        ("<ctrl>x+<ctrl>c"@, Action::Exit),
        ("<ctrl>o"@, Action::InsertLineAfter),
        ("<ctrl>b"@, Action::Move(Move::Boundary(Boundary::Grapheme), Direction::Dec)),
        ("<ctrl>f"@, Action::Move(Move::Boundary(Boundary::Grapheme), Direction::Inc)),
        ("<ctrl>p"@, Action::Move(Move::Line, Direction::Dec)),
        ("<ctrl>n"@, Action::Move(Move::Line, Direction::Inc)),
        ("<ctrl>a"@, Action::Move(Move::Boundary(Boundary::LineEnd), Direction::Dec)),
        ("<ctrl>e"@, Action::Move(Move::Boundary(Boundary::LineEnd), Direction::Inc)),
        ("<alt>v"@, Action::Move(Move::Page, Direction::Dec)),
        ("<ctrl>v"@, Action::Move(Move::Page, Direction::Inc)),
        ("<alt><shift><less>"@, Action::Move(Move::Boundary(Boundary::BufferEnd), Direction::Dec)),
        (
            "<alt><shift><greater>"@,
            Action::Move(Move::Boundary(Boundary::BufferEnd), Direction::Inc),
        ),
        ("<backspace>"@, Action::Delete(Boundary::Grapheme, Direction::Dec)),
        ("<ctrl>d"@, Action::Delete(Boundary::Grapheme, Direction::Inc)),
        ("<ctrl>k"@, Action::Delete(Boundary::LineEnd, Direction::Inc)),
        ("<ctrl>s"@, Action::InteractiveSearch),
        ("<ctrl>/"@, Action::Undo),
        ("<ctrl><shift>?"@, Action::Redo),
        ("<ctrl>x+k"@, Action::DeleteBuffer),
        ("<ctrl>x+<ctrl>f"@, Action::OpenFile),
        ("<ctrl>x+<ctrl>s"@, Action::SaveFile),
        ("<ctrl><shift>j"@, Action::PreviousPane),
        ("<ctrl><shift>k"@, Action::NextPane),
        ("<ctrl>x+2"@, Action::SplitPane(Orientation::Vertical)),
        ("<ctrl>x+3"@, Action::SplitPane(Orientation::Horizontal)),
        ("<ctrl>x+0"@, Action::ClosePane),
        ("<ctrl>c+<ctrl>s"@, Action::OpenShell),
        ("<ctrl>x+b"@, Action::SwitchToBuffer),
        ("<ctrl>x+<ctrl>p"@, Action::RunNonInteractiveProcess),
        ("<ctrl>g"@, Action::Cancel),
    ]
}

// ---------------------------------------------------------------------
// Stacks of key maps

/// The key to insert for a lone key press that no map binds: the key
/// itself without modifiers, uppercased with shift alone.
pub open spec fn fallback_key(seq: Seq<KeySequenceAtom>) -> Option<Key> {
    if seq.len() == 1 {
        let atom = seq[0];
        if !atom.modifiers.alt && !atom.modifiers.control && !atom.modifiers.shift {
            Some(atom.key)
        } else if atom.modifiers == only_modifier(Modifier::Shift) {
            Some(map_single_char(atom.key, |c: char| char_uppercase(c)))
        } else {
            None
        }
    } else {
        None
    }
}

/// The first lookup, from the map at index `n - 1` down, that binds
/// `seq` or might with more keys.
pub open spec fn stack_lookup_below(maps: Seq<Bindings>, n: int, seq: Seq<KeySequenceAtom>) -> Option<
    KeyMapLookup,
>
    decreases n,
{
    if n <= 0 || n > maps.len() {
        None
    } else {
        let r = spec_map_lookup(maps[n - 1], seq);
        if r is Action || r is Prefix {
            Some(r)
        } else {
            stack_lookup_below(maps, n - 1, seq)
        }
    }
}

/// What looking up `seq` in a stack of maps gives: the topmost map that
/// binds it or might with more keys decides; otherwise a lone key press
/// inserts its char. `None` where that key has no char.
pub open spec fn spec_stack_lookup(maps: Seq<Bindings>, seq: Seq<KeySequenceAtom>) -> Option<
    KeyMapLookup,
> {
    match stack_lookup_below(maps, maps.len() as int, seq) {
        Some(r) => Some(r),
        None => match fallback_key(seq) {
            Some(k) => match spec_key_to_char(k) {
                Some(c) => Some(KeyMapLookup::Action(Action::Insert(c))),
                None => None,
            },
            None => Some(KeyMapLookup::BadSequence),
        },
    }
}

pub struct KeyMapStack(Vec<KeyMap>);

impl View for KeyMapStack {
    type V = Seq<Bindings>;

    closed spec fn view(&self) -> Seq<Bindings> {
        self.0@.map_values(|m: KeyMap| m@)
    }
}

impl Default for KeyMapStack {
    fn default() -> (res: Self)
        ensures
            res@ == Seq::<Bindings>::empty(),
    {
        let res = KeyMapStack(Vec::new());
        assert(res@ =~= Seq::<Bindings>::empty());
        res
    }
}

impl KeyMapStack {
    /// Look `seq` up in the stack, from the top map down. `None` where a
    /// lone key press that no map binds has no char to insert.
    pub fn try_lookup(&self, seq: &KeySequence) -> (res: Option<KeyMapLookup>)
        ensures
            res == spec_stack_lookup(self@, seq.0@),
    {
        let mut n: usize = self.0.len();
        while n > 0
            invariant
                n <= self.0@.len(),
                stack_lookup_below(self@, self@.len() as int, seq.0@) == stack_lookup_below(
                    self@,
                    n as int,
                    seq.0@,
                ),
            decreases n,
        {
            let res = self.0[n - 1].lookup(seq);
            if matches!(res, KeyMapLookup::Action(_) | KeyMapLookup::Prefix) {
                return Some(res);
            }
            n = n - 1;
        }
        if seq.0.len() == 1 {
            let atom = seq.0[0];
            let key = if atom.modifiers.is_empty() {
                Some(atom.key)
            } else if atom.modifiers == Modifier::Shift {
                Some(atom.key.to_upper())
            } else {
                None
            };
            if let Some(key) = key {
                return match key.to_char() {
                    Some(c) => Some(KeyMapLookup::Action(Action::Insert(c))),
                    None => None,
                };
            }
        }
        Some(KeyMapLookup::BadSequence)
    }

    /// Look `seq` up in the stack, from the top map down: the topmost map
    /// that binds it or might with more keys decides; otherwise a lone
    /// key press inserts its char.
    pub fn lookup(&self, seq: &KeySequence) -> (res: KeyMapLookup)
        requires
            spec_stack_lookup(self@, seq.0@) is Some,
        ensures
            Some(res) == spec_stack_lookup(self@, seq.0@),
    {
        match self.try_lookup(seq) {
            Some(res) => res,
            None => KeyMapLookup::BadSequence,
        }
    }

    /// Push a map on top of the stack; a map that failed to build is
    /// left out.
    pub fn push(&mut self, map: Result<KeyMap, Error>)
        ensures
            map matches Ok(m) ==> final(self)@ == old(self)@.push(m@),
            map is Err ==> final(self)@ == old(self)@,
    {
        match map {
            Ok(map) => {
                let ghost m = map@;
                self.0.push(map);
                assert(self@ =~= old(self)@.push(m));
            },
            Err(_) => {},
        }
    }
}

/// Looking up a sequence right after binding it gives the action just
/// bound.
pub proof fn law_lookup_after_insert(m: Bindings, seq: Seq<KeySequenceAtom>, action: Action)
    ensures
        spec_map_lookup(m.insert(seq, action), seq) == KeyMapLookup::Action(action),
{
}

/// Binding a sequence leaves the action of every other bound sequence
/// as it was.
pub proof fn law_insert_keeps_other_bindings(
    m: Bindings,
    seq: Seq<KeySequenceAtom>,
    action: Action,
    other: Seq<KeySequenceAtom>,
)
    requires
        other != seq,
        m.dom().contains(other),
    ensures
        spec_map_lookup(m.insert(seq, action), other) == spec_map_lookup(m, other),
{
}

/// The map pushed last decides for the sequences that it binds: an
/// overlay's bindings override those of the maps below.
pub proof fn law_top_map_wins(maps: Seq<Bindings>, seq: Seq<KeySequenceAtom>)
    requires
        maps.len() > 0,
        maps.last().dom().contains(seq),
    ensures
        spec_stack_lookup(maps, seq) == Some(KeyMapLookup::Action(maps.last()[seq])),
{
}

/// A map that binds a sequence or a longer one decides, whatever the maps
/// below it bind.
pub proof fn law_lower_maps_unread(maps: Seq<Bindings>, below: Seq<Bindings>, seq: Seq<KeySequenceAtom>)
    requires
        maps.len() > 0,
        !(spec_map_lookup(maps.last(), seq) is BadSequence),
    ensures
        spec_stack_lookup(below + maps, seq) == spec_stack_lookup(maps, seq),
{
    let all = below + maps;
    assert(all[all.len() - 1] == maps.last());
}

} // verus!
