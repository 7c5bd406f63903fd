//! Key sequences such as `<ctrl>x+<ctrl>f`, and their parser.
//!
//! A sequence is written as atoms joined by `+`. Each atom is zero or
//! more modifiers followed by one key. Named keys and modifiers are
//! written in angle brackets (`<ctrl>`, `<esc>`, ...); any other char
//! stands for itself.

use crate::key::{
    char_lowercase, map_single_char, only_modifier, spec_key_to_char, spec_modifier_name, Key, Modifier,
    Modifiers,
};
use vstd::prelude::*;

verus! {

/// The chars of `s`, in order.
fn str_chars(s: &str) -> (res: Vec<char>)
    ensures
        res@ == s@,
{
    broadcast use vstd::string::axiom_spec_iter;
    let mut v: Vec<char> = Vec::new();
    for c in it: s.chars()
        invariant
            it.seq() == s@,
            v@ == it.seq().take(it.index() as int),
    {
        v.push(c);
    }
    v
}

/// Collects chars into a `String`.
#[verifier::external_body]
fn chars_to_string(v: &Vec<char>) -> (res: String)
    ensures
        res@ == v@,
{
    v.iter().collect()
}

/// Calls `char::to_string`.
#[verifier::external_body]
pub(crate) fn char_to_string(c: char) -> (res: String)
    ensures
        res@ == seq![c],
{
    c.to_string()
}

#[derive(Clone, Copy, Debug, PartialEq, Eq, Structural, Hash, Ord, PartialOrd)]
pub struct KeySequenceAtom {
    pub modifiers: Modifiers,
    pub key: Key,
}

impl KeySequenceAtom {
    /// The atom for a key event. The key is lowercased as a way to
    /// normalize it.
    pub fn from_event(key: Key, modifiers: Modifiers) -> (res: Self)
        ensures
            res.modifiers == modifiers,
            res.key == map_single_char(key, |c: char| char_lowercase(c)),
    {
        KeySequenceAtom { modifiers, key: key.to_lower() }
    }
}

#[derive(Clone, Copy, Debug, PartialEq, Eq, Structural)]
pub enum ParseItem {
    Modifier(Modifiers),
    Key(Key),
    Append,
}

#[derive(Debug, PartialEq, Eq)]
pub enum Error {
    InvalidName(String),
    UnexpectedAppend,
    UnexpectedModifier(Modifiers),
    UnexpectedKey(Key),
}

impl Clone for Error {
    fn clone(&self) -> (res: Self)
        ensures
            res == *self,
    {
        match self {
            Error::InvalidName(s) => Error::InvalidName(s.clone()),
            Error::UnexpectedAppend => Error::UnexpectedAppend,
            Error::UnexpectedModifier(m) => Error::UnexpectedModifier(*m),
            Error::UnexpectedKey(k) => Error::UnexpectedKey(*k),
        }
    }
}

/// The item that a name in angle brackets stands for.
pub open spec fn name_item(name: Seq<char>) -> Option<ParseItem> {
    if name == "ctrl"@ {
        Some(ParseItem::Modifier(Modifiers { alt: false, control: true, shift: false }))
    } else if name == "shift"@ {
        Some(ParseItem::Modifier(Modifiers { alt: false, control: false, shift: true }))
    } else if name == "alt"@ {
        Some(ParseItem::Modifier(Modifiers { alt: true, control: false, shift: false }))
    } else if name == "backspace"@ {
        Some(ParseItem::Key(Key::Backspace))
    } else if name == "esc"@ {
        Some(ParseItem::Key(Key::Escape))
    } else if name == "space"@ {
        Some(ParseItem::Key(Key::Space))
    } else if name == "ret"@ {
        Some(ParseItem::Key(Key::Return))
    } else if name == "plus"@ {
        Some(ParseItem::Key(Key::Plus))
    } else if name == "less"@ {
        Some(ParseItem::Key(Key::Less))
    } else if name == "greater"@ {
        Some(ParseItem::Key(Key::Greater))
    } else {
        None
    }
}

/// Items of `s` from index `i`, given whether a name is open, the name
/// read so far and the items read so far. An unknown name is the error.
pub open spec fn parse_items_from(
    s: Seq<char>,
    i: int,
    in_name: bool,
    name: Seq<char>,
    items: Seq<ParseItem>,
) -> Result<Seq<ParseItem>, Seq<char>>
    decreases s.len() - i,
{
    if i >= s.len() || i < 0 {
        Ok(items)
    } else {
        let c = s[i];
        if !in_name {
            if c == '<' {
                parse_items_from(s, i + 1, true, name, items)
            } else if c == '+' {
                parse_items_from(s, i + 1, false, name, items.push(ParseItem::Append))
            } else {
                parse_items_from(s, i + 1, false, name, items.push(ParseItem::Key(Key::Char(c))))
            }
        } else if c == '>' {
            match name_item(name) {
                Some(item) => parse_items_from(
                    s,
                    i + 1,
                    false,
                    Seq::<char>::empty(),
                    items.push(item),
                ),
                None => Err(name),
            }
        } else {
            parse_items_from(s, i + 1, true, name.push(c), items)
        }
    }
}

/// The items that `s` parses to, or the unknown name it holds.
pub open spec fn spec_parse_items(s: Seq<char>) -> Result<Seq<ParseItem>, Seq<char>> {
    parse_items_from(s, 0, false, Seq::<char>::empty(), Seq::<ParseItem>::empty())
}

pub open spec fn mods_union(a: Modifiers, b: Modifiers) -> Modifiers {
    Modifiers { alt: a.alt || b.alt, control: a.control || b.control, shift: a.shift || b.shift }
}

pub open spec fn no_mods() -> Modifiers {
    Modifiers { alt: false, control: false, shift: false }
}

/// Atoms of `items` from index `i`, given whether a `+` is due next,
/// the modifiers collected for the next key and the atoms so far.
pub open spec fn from_items_from(
    items: Seq<ParseItem>,
    i: int,
    append_required: bool,
    mods: Modifiers,
    atoms: Seq<KeySequenceAtom>,
) -> Result<Seq<KeySequenceAtom>, Error>
    decreases items.len() - i,
{
    if i >= items.len() || i < 0 {
        Ok(atoms)
    } else {
        match items[i] {
            ParseItem::Modifier(m) => if append_required {
                Err(Error::UnexpectedModifier(m))
            } else {
                from_items_from(items, i + 1, false, mods_union(mods, m), atoms)
            },
            ParseItem::Key(k) => if append_required {
                Err(Error::UnexpectedKey(k))
            } else {
                from_items_from(
                    items,
                    i + 1,
                    true,
                    no_mods(),
                    atoms.push(KeySequenceAtom { modifiers: mods, key: k }),
                )
            },
            ParseItem::Append => if !append_required {
                Err(Error::UnexpectedAppend)
            } else {
                from_items_from(items, i + 1, false, mods, atoms)
            },
        }
    }
}

pub open spec fn spec_from_items(items: Seq<ParseItem>) -> Result<Seq<KeySequenceAtom>, Error> {
    from_items_from(items, 0, false, no_mods(), Seq::<KeySequenceAtom>::empty())
}

/// The item for a name, looked up by comparing it with each name.
fn lookup_name(name: &String) -> (res: Option<ParseItem>)
    ensures
        res == name_item(name@),
{
    if *name == String::from_str("ctrl") {
        Some(ParseItem::Modifier(Modifiers { alt: false, control: true, shift: false }))
    } else if *name == String::from_str("shift") {
        Some(ParseItem::Modifier(Modifiers { alt: false, control: false, shift: true }))
    } else if *name == String::from_str("alt") {
        Some(ParseItem::Modifier(Modifiers { alt: true, control: false, shift: false }))
    } else if *name == String::from_str("backspace") {
        Some(ParseItem::Key(Key::Backspace))
    } else if *name == String::from_str("esc") {
        Some(ParseItem::Key(Key::Escape))
    } else if *name == String::from_str("space") {
        Some(ParseItem::Key(Key::Space))
    } else if *name == String::from_str("ret") {
        Some(ParseItem::Key(Key::Return))
    } else if *name == String::from_str("plus") {
        Some(ParseItem::Key(Key::Plus))
    } else if *name == String::from_str("less") {
        Some(ParseItem::Key(Key::Less))
    } else if *name == String::from_str("greater") {
        Some(ParseItem::Key(Key::Greater))
    } else {
        None
    }
}

/// Split `s` into modifiers, keys and `+` signs.
pub fn parse_key_sequence_as_items(s: &str) -> (res: Result<Vec<ParseItem>, Error>)
    ensures
        spec_parse_items(s@) matches Ok(items) ==> res matches Ok(v) && v@ == items,
        spec_parse_items(s@) matches Err(name) ==> res matches Err(Error::InvalidName(n))
            && n@ == name,
{
    let chars = str_chars(s);
    let mut items: Vec<ParseItem> = Vec::new();
    let mut name: Vec<char> = Vec::new();
    let mut in_name = false;
    let mut i: usize = 0;
    while i < chars.len()
        invariant
            chars@ == s@,
            i <= chars.len(),
            spec_parse_items(s@) == parse_items_from(s@, i as int, in_name, name@, items@),
        decreases chars.len() - i,
    {
        let c = chars[i];
        if !in_name {
            if c == '<' {
                in_name = true;
            } else if c == '+' {
                items.push(ParseItem::Append);
            } else {
                items.push(ParseItem::Key(Key::Char(c)));
            }
        } else if c == '>' {
            let name_str = chars_to_string(&name);
            match lookup_name(&name_str) {
                Some(item) => {
                    items.push(item);
                },
                None => {
                    return Err(Error::InvalidName(name_str));
                },
            }
            name = Vec::new();
            in_name = false;
        } else {
            name.push(c);
        }
        i = i + 1;
    }
    Ok(items)
}

pub open spec fn spec_single_modifier_name(m: Modifiers) -> Seq<char> {
    if m == (Modifiers { alt: false, control: true, shift: false }) {
        "ctrl"@
    } else if m == (Modifiers { alt: false, control: false, shift: true }) {
        "shift"@
    } else if m == (Modifiers { alt: true, control: false, shift: false }) {
        "alt"@
    } else {
        "unknown"@
    }
}

fn single_modifier_to_string(m: &Modifiers) -> (res: String)
    ensures
        res@ == spec_single_modifier_name(*m),
{
    if *m == (Modifiers { alt: false, control: true, shift: false }) {
        String::from_str("ctrl")
    } else if *m == (Modifiers { alt: false, control: false, shift: true }) {
        String::from_str("shift")
    } else if *m == (Modifiers { alt: true, control: false, shift: false }) {
        String::from_str("alt")
    } else {
        String::from_str("unknown")
    }
}

/// The name that a key is written with in angle brackets, if it has one.
pub open spec fn key_name(k: Key) -> Option<Seq<char>> {
    match k {
        Key::Backspace => Some("backspace"@),
        Key::Escape => Some("esc"@),
        Key::Space => Some("space"@),
        Key::Return => Some("ret"@),
        Key::Plus => Some("plus"@),
        Key::Less => Some("less"@),
        Key::Greater => Some("greater"@),
        _ => None,
    }
}

pub open spec fn spec_key_to_string(k: Key) -> Seq<char> {
    match key_name(k) {
        Some(name) => "<"@ + name + ">"@,
        None => match spec_key_to_char(k) {
            Some(c) => "\""@ + seq![c] + "\""@,
            None => "unknown"@,
        },
    }
}

fn key_name_string(k: Key) -> (res: Option<String>)
    ensures
        res matches Some(s) ==> key_name(k) == Some(s@),
        res is None ==> key_name(k) is None,
{
    match k {
        Key::Backspace => Some(String::from_str("backspace")),
        Key::Escape => Some(String::from_str("esc")),
        Key::Space => Some(String::from_str("space")),
        Key::Return => Some(String::from_str("ret")),
        Key::Plus => Some(String::from_str("plus")),
        Key::Less => Some(String::from_str("less")),
        Key::Greater => Some(String::from_str("greater")),
        _ => None,
    }
}

fn key_to_string(key: &Key) -> (res: String)
    ensures
        res@ == spec_key_to_string(*key),
{
    match key_name_string(*key) {
        Some(name) => {
            let mut s = String::from_str("<");
            s.append(name.as_str());
            s.append(">");
            s
        },
        None => match key.to_char() {
            Some(c) => {
                let mut s = String::from_str("\"");
                s.append(char_to_string(c).as_str());
                s.append("\"");
                s
            },
            None => String::from_str("unknown"),
        },
    }
}

pub open spec fn spec_error_message(e: Error) -> Seq<char> {
    match e {
        Error::InvalidName(name) => "invalid name: \""@ + name@ + "\""@,
        Error::UnexpectedAppend => "unexpected \"+\""@,
        Error::UnexpectedModifier(m) => "unexpected modifier "@ + spec_single_modifier_name(m),
        Error::UnexpectedKey(k) => "unexpected key "@ + spec_key_to_string(k),
    }
}

impl Error {
    /// The message describing the error.
    pub fn to_string(&self) -> (res: String)
        ensures
            res@ == spec_error_message(*self),
    {
        match self {
            Error::InvalidName(name) => {
                let mut s = String::from_str("invalid name: \"");
                s.append(name.as_str());
                s.append("\"");
                s
            },
            Error::UnexpectedAppend => String::from_str("unexpected \"+\""),
            Error::UnexpectedModifier(m) => {
                let s = String::from_str("unexpected modifier ");
                let name = single_modifier_to_string(m);
                s.concat(name.as_str())
            },
            Error::UnexpectedKey(k) => {
                let s = String::from_str("unexpected key ");
                let name = key_to_string(k);
                s.concat(name.as_str())
            },
        }
    }
}

#[derive(Debug, PartialEq, Eq, Hash)]
pub struct KeySequence(pub Vec<KeySequenceAtom>);

/// `prefix` is a prefix of `s`.
pub open spec fn is_prefix(prefix: Seq<KeySequenceAtom>, s: Seq<KeySequenceAtom>) -> bool {
    prefix.len() <= s.len() && s.take(prefix.len() as int) == prefix
}

impl Clone for KeySequence {
    fn clone(&self) -> (res: Self)
        ensures
            res.0@ == self.0@,
    {
        let mut v: Vec<KeySequenceAtom> = Vec::new();
        let mut i: usize = 0;
        while i < self.0.len()
            invariant
                i <= self.0@.len(),
                v@ == self.0@.take(i as int),
            decreases self.0@.len() - i,
        {
            v.push(self.0[i]);
            i = i + 1;
            assert(v@ =~= self.0@.take(i as int));
        }
        assert(v@ =~= self.0@);
        KeySequence(v)
    }
}

impl Default for KeySequence {
    fn default() -> (res: Self)
        ensures
            res.0@ == Seq::<KeySequenceAtom>::empty(),
    {
        KeySequence(Vec::new())
    }
}

impl KeySequence {
    /// The sequence that `items` describe.
    pub fn from_items(items: &[ParseItem]) -> (res: Result<Self, Error>)
        ensures
            spec_from_items(items@) matches Ok(atoms) ==> res matches Ok(k) && k.0@ == atoms,
            spec_from_items(items@) matches Err(e) ==> res == Err::<KeySequence, Error>(e),
    {
        let mut append_required = false;
        let mut seq: Vec<KeySequenceAtom> = Vec::new();
        let mut cur_mods = Modifiers::new();
        let mut i: usize = 0;
        while i < items.len()
            invariant
                i <= items@.len(),
                spec_from_items(items@) == from_items_from(
                    items@,
                    i as int,
                    append_required,
                    cur_mods,
                    seq@,
                ),
            decreases items@.len() - i,
        {
            match items[i] {
                ParseItem::Modifier(m) => {
                    if append_required {
                        return Err(Error::UnexpectedModifier(m));
                    }
                    cur_mods = Modifiers {
                        alt: cur_mods.alt || m.alt,
                        control: cur_mods.control || m.control,
                        shift: cur_mods.shift || m.shift,
                    };
                },
                ParseItem::Key(k) => {
                    if append_required {
                        return Err(Error::UnexpectedKey(k));
                    }
                    seq.push(KeySequenceAtom { modifiers: cur_mods, key: k });
                    cur_mods = Modifiers::new();
                    append_required = true;
                },
                ParseItem::Append => {
                    if !append_required {
                        return Err(Error::UnexpectedAppend);
                    }
                    append_required = false;
                },
            }
            i = i + 1;
        }
        Ok(KeySequence(seq))
    }

    /// Parse a key sequence such as `<ctrl>x+<ctrl>f`.
    pub fn parse(s: &str) -> (res: Result<Self, Error>)
        ensures
            spec_parse_items(s@) matches Err(name) ==> res matches Err(Error::InvalidName(n))
                && n@ == name,
            spec_parse_items(s@) matches Ok(items) ==> match spec_from_items(items) {
                Ok(atoms) => res matches Ok(k) && k.0@ == atoms,
                Err(e) => res == Err::<KeySequence, Error>(e),
            },
            spec_parse(s@) is Some <==> res is Ok,
            res matches Ok(k) ==> spec_parse(s@) == Some(k.0@),
    {
        let items = parse_key_sequence_as_items(s)?;
        Self::from_items(items.as_slice())
    }

    /// `other` is a prefix of `self`.
    pub fn starts_with(&self, other: &Self) -> (res: bool)
        ensures
            res == is_prefix(other.0@, self.0@),
    {
        if other.0.len() > self.0.len() {
            return false;
        }
        let mut i: usize = 0;
        while i < other.0.len()
            invariant
                other.0@.len() <= self.0@.len(),
                i <= other.0@.len(),
                forall|j: int| 0 <= j < i ==> self.0@[j] == other.0@[j],
            decreases other.0@.len() - i,
        {
            if self.0[i] != other.0[i] {
                assert(self.0@.take(other.0@.len() as int)[i as int] != other.0@[i as int]);
                return false;
            }
            i = i + 1;
        }
        assert(self.0@.take(other.0@.len() as int) =~= other.0@);
        true
    }

    /// The two sequences hold the same atoms.
    pub fn same(&self, other: &Self) -> (res: bool)
        ensures
            res == (self.0@ == other.0@),
    {
        if self.0.len() != other.0.len() {
            return false;
        }
        let mut i: usize = 0;
        while i < self.0.len()
            invariant
                self.0@.len() == other.0@.len(),
                i <= self.0@.len(),
                forall|j: int| 0 <= j < i ==> self.0@[j] == other.0@[j],
            decreases self.0@.len() - i,
        {
            if self.0[i] != other.0[i] {
                return false;
            }
            i = i + 1;
        }
        assert(self.0@ =~= other.0@);
        true
    }
}

/// The atoms that `s` parses to, when it parses.
pub open spec fn spec_parse(s: Seq<char>) -> Option<Seq<KeySequenceAtom>> {
    match spec_parse_items(s) {
        Ok(items) => match spec_from_items(items) {
            Ok(atoms) => Some(atoms),
            Err(_) => None,
        },
        Err(_) => None,
    }
}

/// The names that the key sequence syntax knows are all different.
proof fn lemma_names_differ()
    ensures
        name_item("ctrl"@) is Some,
        name_item("shift"@) is Some,
        name_item("alt"@) is Some,
        name_item("backspace"@) is Some,
        name_item("esc"@) is Some,
        name_item("space"@) is Some,
        name_item("ret"@) is Some,
        name_item("plus"@) is Some,
        name_item("less"@) is Some,
        name_item("greater"@) is Some,
        name_item("ctrl"@) == Some(ParseItem::Modifier(only_modifier(Modifier::Control))),
        name_item("shift"@) == Some(ParseItem::Modifier(only_modifier(Modifier::Shift))),
        name_item("alt"@) == Some(ParseItem::Modifier(only_modifier(Modifier::Alt))),
        name_item("backspace"@) == Some(ParseItem::Key(Key::Backspace)),
        name_item("esc"@) == Some(ParseItem::Key(Key::Escape)),
        name_item("space"@) == Some(ParseItem::Key(Key::Space)),
        name_item("ret"@) == Some(ParseItem::Key(Key::Return)),
        name_item("plus"@) == Some(ParseItem::Key(Key::Plus)),
        name_item("less"@) == Some(ParseItem::Key(Key::Less)),
        name_item("greater"@) == Some(ParseItem::Key(Key::Greater)),
{
    reveal_strlit("ctrl");
    reveal_strlit("shift");
    reveal_strlit("alt");
    reveal_strlit("backspace");
    reveal_strlit("esc");
    reveal_strlit("space");
    reveal_strlit("ret");
    reveal_strlit("plus");
    reveal_strlit("less");
    reveal_strlit("greater");
    assert("shift"@ != "ctrl"@) by {
        assert("shift"@.len() == 5);
        assert("ctrl"@.len() == 4);
    }
    assert("alt"@ != "ctrl"@) by {
        assert("alt"@.len() == 3);
        assert("ctrl"@.len() == 4);
    }
    assert("alt"@ != "shift"@) by {
        assert("alt"@.len() == 3);
        assert("shift"@.len() == 5);
    }
    assert("backspace"@ != "ctrl"@) by {
        assert("backspace"@.len() == 9);
        assert("ctrl"@.len() == 4);
    }
    assert("backspace"@ != "shift"@) by {
        assert("backspace"@.len() == 9);
        assert("shift"@.len() == 5);
    }
    assert("backspace"@ != "alt"@) by {
        assert("backspace"@.len() == 9);
        assert("alt"@.len() == 3);
    }
    assert("esc"@ != "ctrl"@) by {
        assert("esc"@.len() == 3);
        assert("ctrl"@.len() == 4);
    }
    assert("esc"@ != "shift"@) by {
        assert("esc"@.len() == 3);
        assert("shift"@.len() == 5);
    }
    assert("esc"@ != "alt"@) by {
        assert("esc"@[0] != "alt"@[0]);
    }
    assert("esc"@ != "backspace"@) by {
        assert("esc"@.len() == 3);
        assert("backspace"@.len() == 9);
    }
    assert("space"@ != "ctrl"@) by {
        assert("space"@.len() == 5);
        assert("ctrl"@.len() == 4);
    }
    assert("space"@ != "shift"@) by {
        assert("space"@[1] != "shift"@[1]);
    }
    assert("space"@ != "alt"@) by {
        assert("space"@.len() == 5);
        assert("alt"@.len() == 3);
    }
    assert("space"@ != "backspace"@) by {
        assert("space"@.len() == 5);
        assert("backspace"@.len() == 9);
    }
    assert("space"@ != "esc"@) by {
        assert("space"@.len() == 5);
        assert("esc"@.len() == 3);
    }
    assert("ret"@ != "ctrl"@) by {
        assert("ret"@.len() == 3);
        assert("ctrl"@.len() == 4);
    }
    assert("ret"@ != "shift"@) by {
        assert("ret"@.len() == 3);
        assert("shift"@.len() == 5);
    }
    assert("ret"@ != "alt"@) by {
        assert("ret"@[0] != "alt"@[0]);
    }
    assert("ret"@ != "backspace"@) by {
        assert("ret"@.len() == 3);
        assert("backspace"@.len() == 9);
    }
    assert("ret"@ != "esc"@) by {
        assert("ret"@[0] != "esc"@[0]);
    }
    assert("ret"@ != "space"@) by {
        assert("ret"@.len() == 3);
        assert("space"@.len() == 5);
    }
    assert("plus"@ != "ctrl"@) by {
        assert("plus"@[0] != "ctrl"@[0]);
    }
    assert("plus"@ != "shift"@) by {
        assert("plus"@.len() == 4);
        assert("shift"@.len() == 5);
    }
    assert("plus"@ != "alt"@) by {
        assert("plus"@.len() == 4);
        assert("alt"@.len() == 3);
    }
    assert("plus"@ != "backspace"@) by {
        assert("plus"@.len() == 4);
        assert("backspace"@.len() == 9);
    }
    assert("plus"@ != "esc"@) by {
        assert("plus"@.len() == 4);
        assert("esc"@.len() == 3);
    }
    assert("plus"@ != "space"@) by {
        assert("plus"@.len() == 4);
        assert("space"@.len() == 5);
    }
    assert("plus"@ != "ret"@) by {
        assert("plus"@.len() == 4);
        assert("ret"@.len() == 3);
    }
    assert("less"@ != "ctrl"@) by {
        assert("less"@[0] != "ctrl"@[0]);
    }
    assert("less"@ != "shift"@) by {
        assert("less"@.len() == 4);
        assert("shift"@.len() == 5);
    }
    assert("less"@ != "alt"@) by {
        assert("less"@.len() == 4);
        assert("alt"@.len() == 3);
    }
    assert("less"@ != "backspace"@) by {
        assert("less"@.len() == 4);
        assert("backspace"@.len() == 9);
    }
    assert("less"@ != "esc"@) by {
        assert("less"@.len() == 4);
        assert("esc"@.len() == 3);
    }
    assert("less"@ != "space"@) by {
        assert("less"@.len() == 4);
        assert("space"@.len() == 5);
    }
    assert("less"@ != "ret"@) by {
        assert("less"@.len() == 4);
        assert("ret"@.len() == 3);
    }
    assert("less"@ != "plus"@) by {
        assert("less"@[0] != "plus"@[0]);
    }
    assert("greater"@ != "ctrl"@) by {
        assert("greater"@.len() == 7);
        assert("ctrl"@.len() == 4);
    }
    assert("greater"@ != "shift"@) by {
        assert("greater"@.len() == 7);
        assert("shift"@.len() == 5);
    }
    assert("greater"@ != "alt"@) by {
        assert("greater"@.len() == 7);
        assert("alt"@.len() == 3);
    }
    assert("greater"@ != "backspace"@) by {
        assert("greater"@.len() == 7);
        assert("backspace"@.len() == 9);
    }
    assert("greater"@ != "esc"@) by {
        assert("greater"@.len() == 7);
        assert("esc"@.len() == 3);
    }
    assert("greater"@ != "space"@) by {
        assert("greater"@.len() == 7);
        assert("space"@.len() == 5);
    }
    assert("greater"@ != "ret"@) by {
        assert("greater"@.len() == 7);
        assert("ret"@.len() == 3);
    }
    assert("greater"@ != "plus"@) by {
        assert("greater"@.len() == 7);
        assert("plus"@.len() == 4);
    }
    assert("greater"@ != "less"@) by {
        assert("greater"@.len() == 7);
        assert("less"@.len() == 4);
    }
}

/// Each modifier's name, as `Modifier::to_string` writes it, stands
/// for that modifier alone: the name looks up to it, the name of the
/// set holding only it is that name, and the name in angle brackets
/// before a key parses to the key with exactly that modifier. So the
/// three names give three different atoms.
pub proof fn law_modifier_names_parse(m: Modifier, c: char)
    requires
        c != '<',
        c != '+',
    ensures
        name_item(spec_modifier_name(m)) == Some(ParseItem::Modifier(only_modifier(m))),
        spec_single_modifier_name(only_modifier(m)) == spec_modifier_name(m),
        spec_parse("<"@ + spec_modifier_name(m) + ">"@ + seq![c]) == Some(
            seq![KeySequenceAtom { modifiers: only_modifier(m), key: Key::Char(c) }],
        ),
{
    reveal_strlit("<");
    reveal_strlit(">");
    reveal_strlit("ctrl");
    reveal_strlit("shift");
    reveal_strlit("alt");
    lemma_names_differ();
    let name = spec_modifier_name(m);
    let s = "<"@ + name + ">"@ + seq![c];
    let e = Seq::<char>::empty();
    let none = Seq::<ParseItem>::empty();
    let item = ParseItem::Modifier(only_modifier(m));
    let key = ParseItem::Key(Key::Char(c));
    match m {
        Modifier::Alt => {
            assert(name =~= seq!['a', 'l', 't']);
            assert(seq!['a', 'l', 't'] =~= "alt"@);
            assert(s =~= seq!['<', 'a', 'l', 't', '>', c]);
            assert(parse_items_from(s, 4, true, seq!['a', 'l', 't'], none) == parse_items_from(s, 5, false, e, seq![item]));
            assert(parse_items_from(s, 1, true, e, none) == parse_items_from(s, 2, true, e.push('a'), none));
            assert(e.push('a') =~= seq!['a']);
            assert(parse_items_from(s, 2, true, seq!['a'], none) == parse_items_from(s, 3, true, seq!['a'].push('l'), none));
            assert(seq!['a'].push('l') =~= seq!['a', 'l']);
            assert(parse_items_from(s, 3, true, seq!['a', 'l'], none) == parse_items_from(s, 4, true, seq!['a', 'l'].push('t'), none));
            assert(seq!['a', 'l'].push('t') =~= seq!['a', 'l', 't']);
        },
        Modifier::Control => {
            assert(name =~= seq!['c', 't', 'r', 'l']);
            assert(seq!['c', 't', 'r', 'l'] =~= "ctrl"@);
            assert(s =~= seq!['<', 'c', 't', 'r', 'l', '>', c]);
            assert(parse_items_from(s, 5, true, seq!['c', 't', 'r', 'l'], none) == parse_items_from(s, 6, false, e, seq![item]));
            assert(parse_items_from(s, 1, true, e, none) == parse_items_from(s, 2, true, e.push('c'), none));
            assert(e.push('c') =~= seq!['c']);
            assert(parse_items_from(s, 2, true, seq!['c'], none) == parse_items_from(s, 3, true, seq!['c'].push('t'), none));
            assert(seq!['c'].push('t') =~= seq!['c', 't']);
            assert(parse_items_from(s, 3, true, seq!['c', 't'], none) == parse_items_from(s, 4, true, seq!['c', 't'].push('r'), none));
            assert(seq!['c', 't'].push('r') =~= seq!['c', 't', 'r']);
            assert(parse_items_from(s, 4, true, seq!['c', 't', 'r'], none) == parse_items_from(s, 5, true, seq!['c', 't', 'r'].push('l'), none));
            assert(seq!['c', 't', 'r'].push('l') =~= seq!['c', 't', 'r', 'l']);
        },
        Modifier::Shift => {
            assert(name =~= seq!['s', 'h', 'i', 'f', 't']);
            assert(seq!['s', 'h', 'i', 'f', 't'] =~= "shift"@);
            assert(s =~= seq!['<', 's', 'h', 'i', 'f', 't', '>', c]);
            assert(parse_items_from(s, 6, true, seq!['s', 'h', 'i', 'f', 't'], none) == parse_items_from(s, 7, false, e, seq![item]));
            assert(parse_items_from(s, 1, true, e, none) == parse_items_from(s, 2, true, e.push('s'), none));
            assert(e.push('s') =~= seq!['s']);
            assert(parse_items_from(s, 2, true, seq!['s'], none) == parse_items_from(s, 3, true, seq!['s'].push('h'), none));
            assert(seq!['s'].push('h') =~= seq!['s', 'h']);
            assert(parse_items_from(s, 3, true, seq!['s', 'h'], none) == parse_items_from(s, 4, true, seq!['s', 'h'].push('i'), none));
            assert(seq!['s', 'h'].push('i') =~= seq!['s', 'h', 'i']);
            assert(parse_items_from(s, 4, true, seq!['s', 'h', 'i'], none) == parse_items_from(s, 5, true, seq!['s', 'h', 'i'].push('f'), none));
            assert(seq!['s', 'h', 'i'].push('f') =~= seq!['s', 'h', 'i', 'f']);
            assert(parse_items_from(s, 5, true, seq!['s', 'h', 'i', 'f'], none) == parse_items_from(s, 6, true, seq!['s', 'h', 'i', 'f'].push('t'), none));
            assert(seq!['s', 'h', 'i', 'f'].push('t') =~= seq!['s', 'h', 'i', 'f', 't']);
        },
    }
    let n = s.len() as int;
    assert(s[0] == '<');
    assert(spec_parse_items(s) == parse_items_from(s, 1, true, e, none));
    assert(s[n - 1] == c);
    assert(parse_items_from(s, n - 1, false, e, seq![item]) == parse_items_from(s, n, false, e, seq![item].push(key)));
    assert(seq![item].push(key) =~= seq![item, key]);
    assert(parse_items_from(s, n, false, e, seq![item, key]) == Ok::<Seq<ParseItem>, Seq<char>>(seq![item, key]));
    assert(spec_parse_items(s) == Ok::<Seq<ParseItem>, Seq<char>>(seq![item, key]));
    let items = seq![item, key];
    let atom = KeySequenceAtom { modifiers: only_modifier(m), key: Key::Char(c) };
    let atoms = seq![atom];
    let empty = Seq::<KeySequenceAtom>::empty();
    assert(mods_union(no_mods(), only_modifier(m)) == only_modifier(m));
    assert(spec_from_items(items) == from_items_from(items, 1, false, only_modifier(m), empty));
    assert(from_items_from(items, 1, false, only_modifier(m), empty) == from_items_from(items, 2, true, no_mods(), empty.push(atom)));
    assert(empty.push(atom) =~= atoms);
    assert(from_items_from(items, 2, true, no_mods(), atoms) == Ok::<Seq<KeySequenceAtom>, Error>(atoms));
}

/// Each key that has a name is written as that name and parses back
/// from it, and the chars that the key sequence syntax keeps for itself
/// (`<` opens a name, `>` closes one, `+` joins atoms) are each typed by
/// a named key that yields that char.
pub proof fn law_named_keys(k: Key, c: char)
    ensures
        key_name(k) matches Some(n) ==> name_item(n) == Some(ParseItem::Key(k)),
        spec_parse_items(seq![c]) != Ok::<Seq<ParseItem>, Seq<char>>(seq![ParseItem::Key(Key::Char(c))]) ==> exists|
            named: Key,
        |
            !(named is Char) && spec_key_to_char(named) == Some(c) && (#[trigger] key_name(named) matches Some(n)
                && name_item(n) == Some(ParseItem::Key(named))),
        spec_parse_items(seq!['<', c]) is Err ==> exists|named: Key|
            !(named is Char) && spec_key_to_char(named) == Some(c) && (#[trigger] key_name(named) matches Some(n)
                && name_item(n) == Some(ParseItem::Key(named))),
{
    reveal_strlit("backspace");
    reveal_strlit("esc");
    reveal_strlit("space");
    reveal_strlit("ret");
    reveal_strlit("plus");
    reveal_strlit("less");
    reveal_strlit("greater");
    reveal_strlit("ctrl");
    reveal_strlit("shift");
    reveal_strlit("alt");
    lemma_names_differ();
    let s = seq![c];
    let e = Seq::<char>::empty();
    let none = Seq::<ParseItem>::empty();
    let s2 = seq!['<', c];
    assert(spec_parse_items(s2) == parse_items_from(s2, 1, true, e, none));
    if c == '>' {
        assert(key_name(Key::Greater) == Some("greater"@));
        assert(name_item("greater"@) == Some(ParseItem::Key(Key::Greater)));
    } else {
        assert(parse_items_from(s2, 1, true, e, none) == parse_items_from(s2, 2, true, e.push(c), none));
    }
    if c == '<' {
        assert(key_name(Key::Less) == Some("less"@));
        assert(name_item("less"@) == Some(ParseItem::Key(Key::Less)));
    } else if c == '+' {
        assert(key_name(Key::Plus) == Some("plus"@));
        assert(name_item("plus"@) == Some(ParseItem::Key(Key::Plus)));
    } else {
        assert(parse_items_from(s, 0, false, e, none) == parse_items_from(s, 1, false, e, none.push(ParseItem::Key(Key::Char(c)))));
        assert(none.push(ParseItem::Key(Key::Char(c))) =~= seq![ParseItem::Key(Key::Char(c))]);
    }
}

} // verus!
