//! Key combinations: a key symbol together with its modifier flags.
//!
//! A `KeyCombo` is an immutable value. The tries of this crate file their
//! children under its `token`, a number that identifies the combination.

use vstd::prelude::*;
use vstd::std_specs::convert::FromSpecImpl;

verus! {

/// The symbol of a key, without its modifiers.
#[derive(Debug, Hash, PartialEq, Eq, Clone, Copy, Structural)]
pub enum KeyCode {
    Backspace,
    Enter,
    Left,
    Right,
    Up,
    Down,
    Home,
    End,
    PageUp,
    PageDown,
    Tab,
    BackTab,
    Delete,
    Insert,
    /// A function key, by its number.
    F(u8),
    /// A character key.
    Char(char),
    Null,
    Esc,
    CapsLock,
    ScrollLock,
    NumLock,
    PrintScreen,
    Pause,
    Menu,
    KeypadBegin,
    /// A media key, by its number.
    Media(u8),
    /// A modifier key pressed on its own, by its number.
    Modifier(u8),
}

impl KeyCode {
    /// The number of the variant.
    pub open spec fn kind(self) -> nat {
        match self {
            KeyCode::Backspace => 0,
            KeyCode::Enter => 1,
            KeyCode::Left => 2,
            KeyCode::Right => 3,
            KeyCode::Up => 4,
            KeyCode::Down => 5,
            KeyCode::Home => 6,
            KeyCode::End => 7,
            KeyCode::PageUp => 8,
            KeyCode::PageDown => 9,
            KeyCode::Tab => 10,
            KeyCode::BackTab => 11,
            KeyCode::Delete => 12,
            KeyCode::Insert => 13,
            KeyCode::F(_) => 14,
            KeyCode::Char(_) => 15,
            KeyCode::Null => 16,
            KeyCode::Esc => 17,
            KeyCode::CapsLock => 18,
            KeyCode::ScrollLock => 19,
            KeyCode::NumLock => 20,
            KeyCode::PrintScreen => 21,
            KeyCode::Pause => 22,
            KeyCode::Menu => 23,
            KeyCode::KeypadBegin => 24,
            KeyCode::Media(_) => 25,
            KeyCode::Modifier(_) => 26,
        }
    }

    /// What the variant carries, as a number; 0 where it carries nothing.
    pub open spec fn payload(self) -> nat {
        match self {
            KeyCode::F(n) => n as nat,
            KeyCode::Char(c) => c as nat,
            KeyCode::Media(n) => n as nat,
            KeyCode::Modifier(n) => n as nat,
            _ => 0,
        }
    }

    /// The character of a character key.
    pub open spec fn character(self) -> Option<char> {
        match self {
            KeyCode::Char(c) => Some(c),
            _ => None,
        }
    }

    /// The character of a character key, `None` for every other key.
    pub fn as_char(&self) -> (c: Option<char>)
        ensures
            c == self.character(),
    {
        match self {
            KeyCode::Char(c) => Some(*c),
            _ => None,
        }
    }

    fn kind_and_payload(&self) -> (r: (u64, u64))
        ensures
            r.0 == self.kind(),
            r.1 == self.payload(),
    {
        match self {
            KeyCode::Backspace => (0, 0),
            KeyCode::Enter => (1, 0),
            KeyCode::Left => (2, 0),
            KeyCode::Right => (3, 0),
            KeyCode::Up => (4, 0),
            KeyCode::Down => (5, 0),
            KeyCode::Home => (6, 0),
            KeyCode::End => (7, 0),
            KeyCode::PageUp => (8, 0),
            KeyCode::PageDown => (9, 0),
            KeyCode::Tab => (10, 0),
            KeyCode::BackTab => (11, 0),
            KeyCode::Delete => (12, 0),
            KeyCode::Insert => (13, 0),
            KeyCode::F(n) => (14, *n as u64),
            KeyCode::Char(c) => (15, *c as u64),
            KeyCode::Null => (16, 0),
            KeyCode::Esc => (17, 0),
            KeyCode::CapsLock => (18, 0),
            KeyCode::ScrollLock => (19, 0),
            KeyCode::NumLock => (20, 0),
            KeyCode::PrintScreen => (21, 0),
            KeyCode::Pause => (22, 0),
            KeyCode::Menu => (23, 0),
            KeyCode::KeypadBegin => (24, 0),
            KeyCode::Media(n) => (25, *n as u64),
            KeyCode::Modifier(n) => (26, *n as u64),
        }
    }
}

/// The modifier keys held with a key, one bit each.
#[derive(Debug, Hash, PartialEq, Eq, Clone, Copy, Structural)]
pub struct KeyModifiers {
    pub bits: u8,
}

impl KeyModifiers {
    pub const SHIFT_BIT: u8 = 0b0000_0001;

    pub const CONTROL_BIT: u8 = 0b0000_0010;

    pub const ALT_BIT: u8 = 0b0000_0100;

    pub const SUPER_BIT: u8 = 0b0000_1000;

    pub const HYPER_BIT: u8 = 0b0001_0000;

    pub const META_BIT: u8 = 0b0010_0000;

    /// The modifiers with exactly the given bits set.
    pub fn from_bits(bits: u8) -> (m: KeyModifiers)
        ensures
            m.bits == bits,
    {
        KeyModifiers { bits }
    }

    /// No modifier.
    pub fn none() -> (m: KeyModifiers)
        ensures
            m.bits == 0,
    {
        KeyModifiers { bits: 0 }
    }

    /// Shift alone.
    pub fn shift() -> (m: KeyModifiers)
        ensures
            m.bits == KeyModifiers::SHIFT_BIT,
    {
        KeyModifiers { bits: KeyModifiers::SHIFT_BIT }
    }

    /// Control alone.
    pub fn control() -> (m: KeyModifiers)
        ensures
            m.bits == KeyModifiers::CONTROL_BIT,
    {
        KeyModifiers { bits: KeyModifiers::CONTROL_BIT }
    }

    /// Alt alone.
    pub fn alt() -> (m: KeyModifiers)
        ensures
            m.bits == KeyModifiers::ALT_BIT,
    {
        KeyModifiers { bits: KeyModifiers::ALT_BIT }
    }
}

/// One keystroke: a key symbol and the modifiers held with it.
#[derive(Debug, Hash, PartialEq, Eq, Clone, Copy, Structural)]
pub struct KeyCombo {
    pub key_code: KeyCode,
    pub modifiers: KeyModifiers,
}

impl KeyCombo {
    /// The combination of a character key and no modifier.
    pub open spec fn of_char(c: char) -> KeyCombo {
        KeyCombo { key_code: KeyCode::Char(c), modifiers: KeyModifiers { bits: 0 } }
    }

    /// The combination of a key and no modifier.
    pub open spec fn of_code(key_code: KeyCode) -> KeyCombo {
        KeyCombo { key_code, modifiers: KeyModifiers { bits: 0 } }
    }

    /// The number under which a trie node files the child for this
    /// combination: the variant of the key, what it carries and the modifier
    /// bits, side by side.
    pub open spec fn spec_token(self) -> u64 {
        ((self.key_code.kind() * 0x1_0000_0000 + self.key_code.payload()) * 0x100
            + self.modifiers.bits) as u64
    }

    /// Computes `spec_token`.
    pub fn token(&self) -> (t: u64)
        ensures
            t == self.spec_token(),
    {
        let (kind, payload) = self.key_code.kind_and_payload();
        (kind * 0x1_0000_0000 + payload) * 0x100 + self.modifiers.bits as u64
    }

    /// Two combinations with the same token are the same combination.
    pub proof fn lemma_token_injective(a: KeyCombo, b: KeyCombo)
        requires
            a.spec_token() == b.spec_token(),
        ensures
            a == b,
    {
        let ka = a.key_code.kind();
        let kb = b.key_code.kind();
        let pa = a.key_code.payload();
        let pb = b.key_code.payload();
        assert(pa < 0x1_0000_0000 && pb < 0x1_0000_0000);
        assert(ka <= 26 && kb <= 26);
        assert(a.modifiers.bits == b.modifiers.bits);
        assert(ka * 0x1_0000_0000 + pa == kb * 0x1_0000_0000 + pb);
        assert(ka == kb);
        assert(pa == pb);
    }

    /// The character of the combination's key, whatever its modifiers.
    pub fn as_char(&self) -> (c: Option<char>)
        ensures
            c == self.key_code.character(),
    {
        self.key_code.as_char()
    }
}

impl From<KeyCode> for KeyCombo {
    fn from(key_code: KeyCode) -> (combo: KeyCombo) {
        KeyCombo { key_code, modifiers: KeyModifiers { bits: 0 } }
    }
}

impl FromSpecImpl<KeyCode> for KeyCombo {
    open spec fn obeys_from_spec() -> bool {
        true
    }

    open spec fn from_spec(key_code: KeyCode) -> KeyCombo {
        KeyCombo::of_code(key_code)
    }
}

impl From<char> for KeyCombo {
    fn from(c: char) -> (combo: KeyCombo) {
        KeyCombo { key_code: KeyCode::Char(c), modifiers: KeyModifiers { bits: 0 } }
    }
}

impl FromSpecImpl<char> for KeyCombo {
    open spec fn obeys_from_spec() -> bool {
        true
    }

    open spec fn from_spec(c: char) -> KeyCombo {
        KeyCombo::of_char(c)
    }
}

impl From<(char, KeyModifiers)> for KeyCombo {
    fn from(pair: (char, KeyModifiers)) -> (combo: KeyCombo) {
        KeyCombo { key_code: KeyCode::Char(pair.0), modifiers: pair.1 }
    }
}

impl FromSpecImpl<(char, KeyModifiers)> for KeyCombo {
    open spec fn obeys_from_spec() -> bool {
        true
    }

    open spec fn from_spec(pair: (char, KeyModifiers)) -> KeyCombo {
        KeyCombo { key_code: KeyCode::Char(pair.0), modifiers: pair.1 }
    }
}

impl From<(KeyCode, KeyModifiers)> for KeyCombo {
    fn from(pair: (KeyCode, KeyModifiers)) -> (combo: KeyCombo) {
        KeyCombo { key_code: pair.0, modifiers: pair.1 }
    }
}

impl FromSpecImpl<(KeyCode, KeyModifiers)> for KeyCombo {
    open spec fn obeys_from_spec() -> bool {
        true
    }

    open spec fn from_spec(pair: (KeyCode, KeyModifiers)) -> KeyCombo {
        KeyCombo { key_code: pair.0, modifiers: pair.1 }
    }
}

} // verus!
