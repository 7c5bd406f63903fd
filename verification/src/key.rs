//! Keyboard keys and modifier state, independent of any GUI toolkit.

use vstd::prelude::*;

verus! {

/// What `char::to_lowercase` yields for `c`.
pub uninterp spec fn char_lowercase(c: char) -> Seq<char>;

/// What `char::to_uppercase` yields for `c`.
pub uninterp spec fn char_uppercase(c: char) -> Seq<char>;

/// The ASCII lowercase of `c`: `A` to `Z` become `a` to `z`, other
/// chars stay.
pub open spec fn ascii_lower(c: char) -> char {
    if 'A' <= c <= 'Z' {
        ((c as u32) + 32) as char
    } else {
        c
    }
}

/// The ASCII uppercase of `c`: `a` to `z` become `A` to `Z`, other
/// chars stay.
pub open spec fn ascii_upper(c: char) -> char {
    if 'a' <= c <= 'z' {
        ((c as u32) - 32) as char
    } else {
        c
    }
}

/// Calls `char::to_lowercase` and collects the chars it yields. The
/// standard library documents that the mapping is one or more chars,
/// the char itself where it has no lowercase mapping; for an ASCII char
/// it is its ASCII lowercase.
#[verifier::external_body]
fn lowercase_chars(c: char) -> (res: Vec<char>)
    ensures
        res@ == char_lowercase(c),
        res@.len() >= 1,
        (c as u32) < 128 ==> res@ == seq![ascii_lower(c)],
{
    c.to_lowercase().collect()
}

/// Calls `char::to_uppercase` and collects the chars it yields. The
/// standard library documents that the mapping is one or more chars,
/// the char itself where it has no uppercase mapping; for an ASCII char
/// it is its ASCII uppercase.
#[verifier::external_body]
fn uppercase_chars(c: char) -> (res: Vec<char>)
    ensures
        res@ == char_uppercase(c),
        res@.len() >= 1,
        (c as u32) < 128 ==> res@ == seq![ascii_upper(c)],
{
    c.to_uppercase().collect()
}

#[derive(Clone, Copy, Debug, PartialEq, Eq, Structural, Ord, PartialOrd, Hash)]
pub enum Modifier {
    Alt,
    Control,
    Shift,
}

#[derive(Clone, Copy, Debug, PartialEq, Eq, Structural, Ord, PartialOrd, Hash)]
pub enum Key {
    Modifier(Modifier),
    Char(char),
    Backspace,
    Escape,
    Greater,
    Less,
    Plus,
    Return,
    Space,
}

/// A key mapped through a case mapping, keeping the key unchanged when
/// the mapping of its char is not a single char.
pub open spec fn map_single_char(k: Key, mapping: spec_fn(char) -> Seq<char>) -> Key {
    match k {
        Key::Char(c) => if mapping(c).len() == 1 {
            Key::Char(mapping(c)[0])
        } else {
            k
        },
        _ => k,
    }
}

pub open spec fn spec_key_to_char(k: Key) -> Option<char> {
    match k {
        Key::Char(c) => Some(c),
        Key::Less => Some('<'),
        Key::Greater => Some('>'),
        Key::Plus => Some('+'),
        Key::Space => Some(' '),
        Key::Return => Some('\n'),
        _ => None,
    }
}

impl Key {
    pub fn is_modifier(self) -> (res: bool)
        ensures
            res == (self is Modifier),
    {
        matches!(self, Key::Modifier(_))
    }

    pub fn from_char(c: char) -> (res: Self)
        ensures
            res == Key::Char(c),
    {
        Key::Char(c)
    }

    /// Lowercase a char key. Keys that are not chars, and chars whose
    /// lowercase form is more than one char, are returned unchanged.
    pub fn to_lower(self) -> (res: Self)
        ensures
            res == map_single_char(self, |c: char| char_lowercase(c)),
            self matches Key::Char(c) ==> ((c as u32) < 128 ==> res == Key::Char(ascii_lower(c))),
    {
        if let Key::Char(c) = self {
            let chars = lowercase_chars(c);
            if chars.len() == 1 {
                Key::Char(chars[0])
            } else {
                self
            }
        } else {
            self
        }
    }

    /// Uppercase a char key. Keys that are not chars, and chars whose
    /// uppercase form is more than one char, are returned unchanged.
    pub fn to_upper(self) -> (res: Self)
        ensures
            res == map_single_char(self, |c: char| char_uppercase(c)),
            self matches Key::Char(c) ==> ((c as u32) < 128 ==> res == Key::Char(ascii_upper(c))),
    {
        if let Key::Char(c) = self {
            let chars = uppercase_chars(c);
            if chars.len() == 1 {
                Key::Char(chars[0])
            } else {
                self
            }
        } else {
            self
        }
    }

    pub fn to_char(self) -> (res: Option<char>)
        ensures
            res == spec_key_to_char(self),
    {
        match self {
            Key::Char(c) => Some(c),
            Key::Less => Some('<'),
            Key::Greater => Some('>'),
            Key::Plus => Some('+'),
            Key::Space => Some(' '),
            Key::Return => Some('\n'),
            _ => None,
        }
    }
}

pub open spec fn spec_modifier_name(m: Modifier) -> Seq<char> {
    match m {
        Modifier::Control => seq!['c', 't', 'r', 'l'],
        Modifier::Shift => seq!['s', 'h', 'i', 'f', 't'],
        Modifier::Alt => seq!['a', 'l', 't'],
    }
}

impl Modifier {
    /// The modifier's name as written in key sequences.
    pub fn to_string(&self) -> (res: String)
        ensures
            res@ == spec_modifier_name(*self),
    {
        match self {
            Modifier::Control => {
                let s = String::from_str("ctrl");
                proof {
                    reveal_strlit("ctrl");
                }
                s
            },
            Modifier::Shift => {
                let s = String::from_str("shift");
                proof {
                    reveal_strlit("shift");
                }
                s
            },
            Modifier::Alt => {
                let s = String::from_str("alt");
                proof {
                    reveal_strlit("alt");
                }
                s
            },
        }
    }
}

#[derive(Clone, Copy, Debug, Default, PartialEq, Eq, Structural, Ord, PartialOrd, Hash)]
pub struct Modifiers {
    pub alt: bool,
    pub control: bool,
    pub shift: bool,
}

/// The modifier state in which exactly `m` is held.
pub open spec fn only_modifier(m: Modifier) -> Modifiers {
    match m {
        Modifier::Alt => Modifiers { alt: true, control: false, shift: false },
        Modifier::Control => Modifiers { alt: false, control: true, shift: false },
        Modifier::Shift => Modifiers { alt: false, control: false, shift: true },
    }
}

pub open spec fn with_modifier(mods: Modifiers, m: Modifier) -> Modifiers {
    match m {
        Modifier::Alt => Modifiers { alt: true, ..mods },
        Modifier::Control => Modifiers { control: true, ..mods },
        Modifier::Shift => Modifiers { shift: true, ..mods },
    }
}

impl Modifiers {
    pub fn new() -> (res: Self)
        ensures
            res == (Modifiers { alt: false, control: false, shift: false }),
    {
        Modifiers { alt: false, control: false, shift: false }
    }

    pub fn is_empty(&self) -> (res: bool)
        ensures
            res == (!self.alt && !self.control && !self.shift),
    {
        !self.alt && !self.control && !self.shift
    }

    pub fn enable_modifier(&mut self, modifier: Modifier)
        ensures
            *final(self) == with_modifier(*old(self), modifier),
    {
        match modifier {
            Modifier::Alt => self.alt = true,
            Modifier::Control => self.control = true,
            Modifier::Shift => self.shift = true,
        }
    }
}

impl PartialEq<Modifier> for Modifiers {
    /// True when exactly `modifier` is held.
    fn eq(&self, modifier: &Modifier) -> (res: bool) {
        match modifier {
            Modifier::Alt => self.alt && !self.control && !self.shift,
            Modifier::Control => !self.alt && self.control && !self.shift,
            Modifier::Shift => !self.alt && !self.control && self.shift,
        }
    }
}

impl vstd::std_specs::cmp::PartialEqSpecImpl<Modifier> for Modifiers {
    open spec fn obeys_eq_spec() -> bool {
        true
    }

    open spec fn eq_spec(&self, modifier: &Modifier) -> bool {
        *self == only_modifier(*modifier)
    }
}

impl From<Modifier> for Modifiers {
    fn from(modifier: Modifier) -> (res: Self) {
        match modifier {
            Modifier::Alt => Modifiers { alt: true, control: false, shift: false },
            Modifier::Control => Modifiers { alt: false, control: true, shift: false },
            Modifier::Shift => Modifiers { alt: false, control: false, shift: true },
        }
    }
}

impl vstd::std_specs::convert::FromSpecImpl<Modifier> for Modifiers {
    open spec fn obeys_from_spec() -> bool {
        true
    }

    open spec fn from_spec(modifier: Modifier) -> Modifiers {
        only_modifier(modifier)
    }
}

} // verus!
