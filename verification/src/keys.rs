//! Key events as plain values.

use vstd::prelude::*;

verus! {

/// A key of the keyboard.
#[derive(Debug, Clone, Copy, PartialEq, Eq, Structural)]
pub enum KeyCode {
    Backspace,
    Enter,
    Left,
    Right,
    Up,
    Down,
    Home,
    End,
    PageUp,
    PageDown,
    Tab,
    BackTab,
    Delete,
    Insert,
    F(u8),
    Char(char),
    Null,
    Esc,
    /// A key that nothing in the editor asks for by name.
    Other(u16),
}

/// The modifier keys that are held down.
#[derive(Debug, Clone, Copy, PartialEq, Eq, Structural)]
pub struct KeyModifiers {
    pub shift: bool,
    pub control: bool,
    pub alt: bool,
    pub super_key: bool,
    pub hyper: bool,
    pub meta: bool,
}

/// No modifier key.
pub open spec fn no_modifiers() -> KeyModifiers {
    KeyModifiers {
        shift: false,
        control: false,
        alt: false,
        super_key: false,
        hyper: false,
        meta: false,
    }
}

/// The control key alone.
pub open spec fn only_control() -> KeyModifiers {
    KeyModifiers { control: true, ..no_modifiers() }
}

impl KeyModifiers {
    pub fn none() -> (r: KeyModifiers)
        ensures
            r == no_modifiers(),
    {
        KeyModifiers {
            shift: false,
            control: false,
            alt: false,
            super_key: false,
            hyper: false,
            meta: false,
        }
    }

    pub fn control() -> (r: KeyModifiers)
        ensures
            r == only_control(),
    {
        KeyModifiers {
            shift: false,
            control: true,
            alt: false,
            super_key: false,
            hyper: false,
            meta: false,
        }
    }
}

#[derive(Debug, Clone, Copy, PartialEq, Eq, Structural)]
pub enum KeyEventKind {
    Press,
    Repeat,
    Release,
}

/// One event of the keyboard. `state` holds the terminal's extra flags.
#[derive(Debug, Clone, Copy, PartialEq, Eq, Structural)]
pub struct KeyEvent {
    pub code: KeyCode,
    pub modifiers: KeyModifiers,
    pub kind: KeyEventKind,
    pub state: u8,
}

/// The ASCII capital of `c`, where `c` is a small ASCII letter.
pub open spec fn ascii_upper(c: char) -> char {
    if 'a' <= c && c <= 'z' {
        ((c as u32) - 32) as char
    } else {
        c
    }
}

pub open spec fn key_of(code: KeyCode, modifiers: KeyModifiers) -> KeyEvent {
    KeyEvent { code, modifiers, kind: KeyEventKind::Press, state: 0 }
}

impl KeyEvent {
    /// Terminals report a capital letter with or without the shift key, and a shifted
    /// letter as small or capital. All of these are the same key: the capital with shift.
    pub open spec fn canonical(self) -> KeyEvent {
        match self.code {
            KeyCode::Char(c) => if 'A' <= c && c <= 'Z' {
                KeyEvent {
                    modifiers: KeyModifiers { shift: true, ..self.modifiers },
                    ..self
                }
            } else if self.modifiers.shift {
                KeyEvent { code: KeyCode::Char(ascii_upper(c)), ..self }
            } else {
                self
            },
            _ => self,
        }
    }

    pub fn new(code: KeyCode, modifiers: KeyModifiers) -> (r: KeyEvent)
        ensures
            r == key_of(code, modifiers),
    {
        KeyEvent { code, modifiers, kind: KeyEventKind::Press, state: 0 }
    }

    pub fn to_canonical(self) -> (r: KeyEvent)
        ensures
            r == self.canonical(),
    {
        match self.code {
            KeyCode::Char(c) => {
                if 'A' <= c && c <= 'Z' {
                    KeyEvent {
                        modifiers: KeyModifiers { shift: true, ..self.modifiers },
                        ..self
                    }
                } else if self.modifiers.shift {
                    KeyEvent { code: KeyCode::Char(to_ascii_upper(c)), ..self }
                } else {
                    self
                }
            },
            _ => self,
        }
    }
}

fn to_ascii_upper(c: char) -> (r: char)
    ensures
        r == ascii_upper(c),
{
    if 'a' <= c && c <= 'z' {
        let v: u8 = c as u8;
        assert(v == c as u32);
        let u: u8 = v - 32;
        u as char
    } else {
        c
    }
}

/// Making a key canonical twice changes nothing more.
pub proof fn law_canonical_idempotent(k: KeyEvent)
    ensures
        k.canonical().canonical() == k.canonical(),
{
}

/// The plain character key `c`.
pub open spec fn ch(c: char) -> KeyEvent {
    key_of(KeyCode::Char(c), no_modifiers()).canonical()
}

/// The character key `c` with control held down.
pub open spec fn ctrl(c: char) -> KeyEvent {
    key_of(KeyCode::Char(c), only_control()).canonical()
}

/// The key `code` by itself.
pub open spec fn named(code: KeyCode) -> KeyEvent {
    key_of(code, no_modifiers()).canonical()
}

pub fn char_key(c: char) -> (r: KeyEvent)
    ensures
        r.canonical() == ch(c),
        r == key_of(KeyCode::Char(c), no_modifiers()),
{
    KeyEvent::new(KeyCode::Char(c), KeyModifiers::none())
}

pub fn ctrl_key(c: char) -> (r: KeyEvent)
    ensures
        r.canonical() == ctrl(c),
        r == key_of(KeyCode::Char(c), only_control()),
{
    KeyEvent::new(KeyCode::Char(c), KeyModifiers::control())
}

pub fn named_key(code: KeyCode) -> (r: KeyEvent)
    ensures
        r.canonical() == named(code),
        r == key_of(code, no_modifiers()),
{
    KeyEvent::new(code, KeyModifiers::none())
}

/// However a terminal reports a capital letter, it is the same key: the capital, with shift or
/// without, and the small letter with shift. A small letter without shift is another key, and
/// control makes another key of either.
pub proof fn law_capitals_are_one_key(c: char, m: KeyModifiers)
    requires
        'a' <= c <= 'z',
    ensures
        ({
            let capital = ((c as u32) - 32) as char;
            let up = KeyModifiers { shift: true, ..m };
            let down = KeyModifiers { shift: false, ..m };
            let one = key_of(KeyCode::Char(capital), up);
            &&& key_of(KeyCode::Char(capital), up).canonical() == one
            &&& key_of(KeyCode::Char(capital), down).canonical() == one
            &&& key_of(KeyCode::Char(c), up).canonical() == one
            &&& key_of(KeyCode::Char(c), down).canonical() == key_of(KeyCode::Char(c), down)
            &&& key_of(KeyCode::Char(c), down).canonical() != one
        }),
{
    let u = (c as u32) - 32;
    assert(65 <= u <= 90);
    let capital = u as char;
    assert(capital as u32 == u);
}

/// A key that is no letter is its own form, without shift; so is every key that types nothing.
pub proof fn law_other_keys_are_themselves(k: KeyEvent)
    requires
        match k.code {
            KeyCode::Char(c) => !('a' <= c <= 'z') && !('A' <= c <= 'Z'),
            _ => true,
        },
    ensures
        k.canonical() == k,
{
}

/// Making a key canonical neither adds nor drops a modifier but shift.
pub proof fn law_canonical_keeps_modifiers(k: KeyEvent)
    ensures
        k.canonical().modifiers.control == k.modifiers.control,
        k.canonical().modifiers.alt == k.modifiers.alt,
        k.canonical().kind == k.kind,
        k.modifiers.shift ==> k.canonical().modifiers.shift,
{
}

} // verus!
