//! Translate host keyboard events into TI-99/4A keyboard-matrix keys.
//!
//! Two mappings are offered; the frontend toggles between them with `F7`
//! ([`KeyLayout`]):
//!
//! * **Character** (the default) maps by the *character your keystroke
//!   produces*. Whatever you type — on any host layout, with or without Shift —
//!   is translated into the TI keystroke that types the same character, with the
//!   TI's `SHIFT`/`FCTN` modifier synthesized as needed: `@` becomes
//!   `SHIFT`+`2`, `"` becomes `FCTN`+`P`, and so on (see [`char_to_ti_press`]).
//!   Hold **Left-Alt** (`FCTN`) or **Left-Ctrl** (`CTRL`) to reach the TI's
//!   function/control layer, and the **Backspace/Delete** key sends the TI's
//!   backspace, `FCTN`+`S` (cursor-left).
//! * **Positional** ([`to_ti_key`]) maps by *physical* key location: the key in
//!   the QWERTY `Q` spot is TI `Q` no matter what your OS layout is, and you
//!   press the TI modifiers yourself. Best for games.
//!
//! Either way the TI's modifier/function keys map to convenient host keys —
//! Left Alt = `FCTN`, Left Ctrl = `CTRL`, Left Shift = `SHIFT` — and the arrow
//! keys plus Right Alt drive joystick 1.
//!
//! Host keys are named by their physical position ([`HostKey`], the keys this
//! mapping knows); the keys of the TI keyboard matrix and joystick are
//! [`TiKey`].

use vstd::prelude::*;

use crate::strings::{ascii_lower_seq, ascii_upper, str_eq, trim};

verus! {

/// A key of the TI-99/4A keyboard matrix, or a joystick-1 line.
#[derive(Clone, Copy, Debug, PartialEq, Eq, Structural)]
pub enum TiKey {
    A,
    B,
    C,
    D,
    E,
    F,
    G,
    H,
    I,
    J,
    K,
    L,
    M,
    N,
    O,
    P,
    Q,
    R,
    S,
    T,
    U,
    V,
    W,
    X,
    Y,
    Z,
    Num0,
    Num1,
    Num2,
    Num3,
    Num4,
    Num5,
    Num6,
    Num7,
    Num8,
    Num9,
    Equals,
    Period,
    Comma,
    Semicolon,
    Slash,
    Space,
    Enter,
    Fctn,
    Shift,
    Ctrl,
    Joy1Up,
    Joy1Down,
    Joy1Left,
    Joy1Right,
    Joy1Fire,
}

/// A host key, by physical position (the US-QWERTY name of the key in that
/// spot). `Other` is any key the mapping ignores.
#[derive(Clone, Copy, Debug, PartialEq, Eq, Structural)]
pub enum HostKey {
    KeyA,
    KeyB,
    KeyC,
    KeyD,
    KeyE,
    KeyF,
    KeyG,
    KeyH,
    KeyI,
    KeyJ,
    KeyK,
    KeyL,
    KeyM,
    KeyN,
    KeyO,
    KeyP,
    KeyQ,
    KeyR,
    KeyS,
    KeyT,
    KeyU,
    KeyV,
    KeyW,
    KeyX,
    KeyY,
    KeyZ,
    Digit0,
    Digit1,
    Digit2,
    Digit3,
    Digit4,
    Digit5,
    Digit6,
    Digit7,
    Digit8,
    Digit9,
    Equal,
    Period,
    Comma,
    Semicolon,
    Slash,
    Space,
    Enter,
    NumpadEnter,
    AltLeft,
    AltRight,
    ShiftLeft,
    ShiftRight,
    ControlLeft,
    ArrowUp,
    ArrowDown,
    ArrowLeft,
    ArrowRight,
    Backspace,
    Delete,
    Escape,
    Tab,
    F1,
    F2,
    F3,
    F4,
    F5,
    F6,
    F7,
    F8,
    F9,
    F10,
    F11,
    F12,
    Other,
}

/// Map a host physical key to a TI key, or `None` if it isn't part of the TI
/// keyboard / joystick.
pub open spec fn to_ti_key_spec(code: HostKey) -> Option<TiKey> {
    match code {
        HostKey::KeyA => Some(TiKey::A),
        HostKey::KeyB => Some(TiKey::B),
        HostKey::KeyC => Some(TiKey::C),
        HostKey::KeyD => Some(TiKey::D),
        HostKey::KeyE => Some(TiKey::E),
        HostKey::KeyF => Some(TiKey::F),
        HostKey::KeyG => Some(TiKey::G),
        HostKey::KeyH => Some(TiKey::H),
        HostKey::KeyI => Some(TiKey::I),
        HostKey::KeyJ => Some(TiKey::J),
        HostKey::KeyK => Some(TiKey::K),
        HostKey::KeyL => Some(TiKey::L),
        HostKey::KeyM => Some(TiKey::M),
        HostKey::KeyN => Some(TiKey::N),
        HostKey::KeyO => Some(TiKey::O),
        HostKey::KeyP => Some(TiKey::P),
        HostKey::KeyQ => Some(TiKey::Q),
        HostKey::KeyR => Some(TiKey::R),
        HostKey::KeyS => Some(TiKey::S),
        HostKey::KeyT => Some(TiKey::T),
        HostKey::KeyU => Some(TiKey::U),
        HostKey::KeyV => Some(TiKey::V),
        HostKey::KeyW => Some(TiKey::W),
        HostKey::KeyX => Some(TiKey::X),
        HostKey::KeyY => Some(TiKey::Y),
        HostKey::KeyZ => Some(TiKey::Z),
        HostKey::Digit0 => Some(TiKey::Num0),
        HostKey::Digit1 => Some(TiKey::Num1),
        HostKey::Digit2 => Some(TiKey::Num2),
        HostKey::Digit3 => Some(TiKey::Num3),
        HostKey::Digit4 => Some(TiKey::Num4),
        HostKey::Digit5 => Some(TiKey::Num5),
        HostKey::Digit6 => Some(TiKey::Num6),
        HostKey::Digit7 => Some(TiKey::Num7),
        HostKey::Digit8 => Some(TiKey::Num8),
        HostKey::Digit9 => Some(TiKey::Num9),
        HostKey::Equal => Some(TiKey::Equals),
        HostKey::Period => Some(TiKey::Period),
        HostKey::Comma => Some(TiKey::Comma),
        HostKey::Semicolon => Some(TiKey::Semicolon),
        HostKey::Slash => Some(TiKey::Slash),
        HostKey::Space => Some(TiKey::Space),
        HostKey::Enter => Some(TiKey::Enter),
        HostKey::NumpadEnter => Some(TiKey::Enter),
        HostKey::AltLeft => Some(TiKey::Fctn),
        HostKey::ShiftLeft => Some(TiKey::Shift),
        HostKey::ShiftRight => Some(TiKey::Shift),
        HostKey::ControlLeft => Some(TiKey::Ctrl),
        HostKey::ArrowUp => Some(TiKey::Joy1Up),
        HostKey::ArrowDown => Some(TiKey::Joy1Down),
        HostKey::ArrowLeft => Some(TiKey::Joy1Left),
        HostKey::ArrowRight => Some(TiKey::Joy1Right),
        HostKey::AltRight => Some(TiKey::Joy1Fire),
        _ => None,
    }
}

/// Map a host physical key to a TI key, or `None` if it isn't part of the TI
/// keyboard / joystick.
pub fn to_ti_key(code: HostKey) -> (r: Option<TiKey>)
    ensures
        r == to_ti_key_spec(code),
{
    match code {
        HostKey::KeyA => Some(TiKey::A),
        HostKey::KeyB => Some(TiKey::B),
        HostKey::KeyC => Some(TiKey::C),
        HostKey::KeyD => Some(TiKey::D),
        HostKey::KeyE => Some(TiKey::E),
        HostKey::KeyF => Some(TiKey::F),
        HostKey::KeyG => Some(TiKey::G),
        HostKey::KeyH => Some(TiKey::H),
        HostKey::KeyI => Some(TiKey::I),
        HostKey::KeyJ => Some(TiKey::J),
        HostKey::KeyK => Some(TiKey::K),
        HostKey::KeyL => Some(TiKey::L),
        HostKey::KeyM => Some(TiKey::M),
        HostKey::KeyN => Some(TiKey::N),
        HostKey::KeyO => Some(TiKey::O),
        HostKey::KeyP => Some(TiKey::P),
        HostKey::KeyQ => Some(TiKey::Q),
        HostKey::KeyR => Some(TiKey::R),
        HostKey::KeyS => Some(TiKey::S),
        HostKey::KeyT => Some(TiKey::T),
        HostKey::KeyU => Some(TiKey::U),
        HostKey::KeyV => Some(TiKey::V),
        HostKey::KeyW => Some(TiKey::W),
        HostKey::KeyX => Some(TiKey::X),
        HostKey::KeyY => Some(TiKey::Y),
        HostKey::KeyZ => Some(TiKey::Z),
        HostKey::Digit0 => Some(TiKey::Num0),
        HostKey::Digit1 => Some(TiKey::Num1),
        HostKey::Digit2 => Some(TiKey::Num2),
        HostKey::Digit3 => Some(TiKey::Num3),
        HostKey::Digit4 => Some(TiKey::Num4),
        HostKey::Digit5 => Some(TiKey::Num5),
        HostKey::Digit6 => Some(TiKey::Num6),
        HostKey::Digit7 => Some(TiKey::Num7),
        HostKey::Digit8 => Some(TiKey::Num8),
        HostKey::Digit9 => Some(TiKey::Num9),
        HostKey::Equal => Some(TiKey::Equals),
        HostKey::Period => Some(TiKey::Period),
        HostKey::Comma => Some(TiKey::Comma),
        HostKey::Semicolon => Some(TiKey::Semicolon),
        HostKey::Slash => Some(TiKey::Slash),
        HostKey::Space => Some(TiKey::Space),
        HostKey::Enter => Some(TiKey::Enter),
        HostKey::NumpadEnter => Some(TiKey::Enter),
        HostKey::AltLeft => Some(TiKey::Fctn),
        HostKey::ShiftLeft => Some(TiKey::Shift),
        HostKey::ShiftRight => Some(TiKey::Shift),
        HostKey::ControlLeft => Some(TiKey::Ctrl),
        HostKey::ArrowUp => Some(TiKey::Joy1Up),
        HostKey::ArrowDown => Some(TiKey::Joy1Down),
        HostKey::ArrowLeft => Some(TiKey::Joy1Left),
        HostKey::ArrowRight => Some(TiKey::Joy1Right),
        HostKey::AltRight => Some(TiKey::Joy1Fire),
        _ => None,
    }
}

/// The TI key that types character `c` (after ASCII upper-casing): the
/// letters, digits, and the five punctuation keys the TI keyboard has.
pub open spec fn char_to_ti_key_spec(c: char) -> Option<TiKey> {
    match ascii_upper(c) {
        'A' => Some(TiKey::A),
        'B' => Some(TiKey::B),
        'C' => Some(TiKey::C),
        'D' => Some(TiKey::D),
        'E' => Some(TiKey::E),
        'F' => Some(TiKey::F),
        'G' => Some(TiKey::G),
        'H' => Some(TiKey::H),
        'I' => Some(TiKey::I),
        'J' => Some(TiKey::J),
        'K' => Some(TiKey::K),
        'L' => Some(TiKey::L),
        'M' => Some(TiKey::M),
        'N' => Some(TiKey::N),
        'O' => Some(TiKey::O),
        'P' => Some(TiKey::P),
        'Q' => Some(TiKey::Q),
        'R' => Some(TiKey::R),
        'S' => Some(TiKey::S),
        'T' => Some(TiKey::T),
        'U' => Some(TiKey::U),
        'V' => Some(TiKey::V),
        'W' => Some(TiKey::W),
        'X' => Some(TiKey::X),
        'Y' => Some(TiKey::Y),
        'Z' => Some(TiKey::Z),
        '0' => Some(TiKey::Num0),
        '1' => Some(TiKey::Num1),
        '2' => Some(TiKey::Num2),
        '3' => Some(TiKey::Num3),
        '4' => Some(TiKey::Num4),
        '5' => Some(TiKey::Num5),
        '6' => Some(TiKey::Num6),
        '7' => Some(TiKey::Num7),
        '8' => Some(TiKey::Num8),
        '9' => Some(TiKey::Num9),
        '=' => Some(TiKey::Equals),
        '.' => Some(TiKey::Period),
        ',' => Some(TiKey::Comma),
        ';' => Some(TiKey::Semicolon),
        '/' => Some(TiKey::Slash),
        _ => None,
    }
}

/// Map a produced character (case-folded) to a TI key: the letters, digits, and
/// the five punctuation keys the TI keyboard has. The case-folded letter base
/// for [`char_to_ti_press`]; modifiers/space/enter/arrows are positional and
/// handled by [`to_ti_key`], not here.
pub fn char_to_ti_key(c: char) -> (r: Option<TiKey>)
    ensures
        r == char_to_ti_key_spec(c),
{
    match crate::strings::to_ascii_upper(c) {
        'A' => Some(TiKey::A),
        'B' => Some(TiKey::B),
        'C' => Some(TiKey::C),
        'D' => Some(TiKey::D),
        'E' => Some(TiKey::E),
        'F' => Some(TiKey::F),
        'G' => Some(TiKey::G),
        'H' => Some(TiKey::H),
        'I' => Some(TiKey::I),
        'J' => Some(TiKey::J),
        'K' => Some(TiKey::K),
        'L' => Some(TiKey::L),
        'M' => Some(TiKey::M),
        'N' => Some(TiKey::N),
        'O' => Some(TiKey::O),
        'P' => Some(TiKey::P),
        'Q' => Some(TiKey::Q),
        'R' => Some(TiKey::R),
        'S' => Some(TiKey::S),
        'T' => Some(TiKey::T),
        'U' => Some(TiKey::U),
        'V' => Some(TiKey::V),
        'W' => Some(TiKey::W),
        'X' => Some(TiKey::X),
        'Y' => Some(TiKey::Y),
        'Z' => Some(TiKey::Z),
        '0' => Some(TiKey::Num0),
        '1' => Some(TiKey::Num1),
        '2' => Some(TiKey::Num2),
        '3' => Some(TiKey::Num3),
        '4' => Some(TiKey::Num4),
        '5' => Some(TiKey::Num5),
        '6' => Some(TiKey::Num6),
        '7' => Some(TiKey::Num7),
        '8' => Some(TiKey::Num8),
        '9' => Some(TiKey::Num9),
        '=' => Some(TiKey::Equals),
        '.' => Some(TiKey::Period),
        ',' => Some(TiKey::Comma),
        ';' => Some(TiKey::Semicolon),
        '/' => Some(TiKey::Slash),
        _ => None,
    }
}

/// The TI matrix key(s) one host key resolves to: an optional modifier
/// (`SHIFT`/`FCTN`/`CTRL`) held together with an optional base key.
#[derive(Clone, Copy, Debug, PartialEq, Eq, Structural)]
pub struct TiPress {
    pub modifier: Option<TiKey>,
    pub key: Option<TiKey>,
}

impl TiPress {
    /// Nothing — the host key has no TI equivalent.
    pub fn none() -> (p: TiPress)
        ensures
            p == no_press(),
    {
        TiPress { modifier: None, key: None }
    }

    /// The (at most two) matrix keys this press closes, modifier first.
    pub fn keys(self) -> (v: Vec<TiKey>)
        ensures
            v@ == press_keys(self),
    {
        let mut v: Vec<TiKey> = Vec::new();
        if let Some(m) = self.modifier {
            v.push(m);
        }
        if let Some(k) = self.key {
            v.push(k);
        }
        assert(v@ =~= press_keys(self));
        v
    }
}

/// No key pressed.
pub open spec fn no_press() -> TiPress {
    TiPress { modifier: None, key: None }
}

/// The keys a press closes, modifier first.
pub open spec fn press_keys(p: TiPress) -> Seq<TiKey> {
    (match p.modifier {
        Some(m) => seq![m],
        None => seq![],
    }) + (match p.key {
        Some(k) => seq![k],
        None => seq![],
    })
}

/// A base key alone.
pub open spec fn base_press(k: TiKey) -> TiPress {
    TiPress { modifier: None, key: Some(k) }
}

/// A modifier held with a base key.
pub open spec fn combo_press(m: TiKey, k: TiKey) -> TiPress {
    TiPress { modifier: Some(m), key: Some(k) }
}

/// Whether `c` is an ASCII letter.
pub open spec fn is_ascii_letter(c: char) -> bool {
    ('a' <= c <= 'z') || ('A' <= c <= 'Z')
}

/// The TI keystroke that types character `c`, or `None` where the TI
/// keyboard cannot type it. Letters type lower case unshifted and upper case
/// with `SHIFT`; digits and the base punctuation keys type unshifted; the
/// shifted number row and punctuation with `SHIFT`; the rest with `FCTN`.
pub open spec fn char_to_ti_press_spec(c: char) -> Option<TiPress> {
    if is_ascii_letter(c) {
        match char_to_ti_key_spec(c) {
            Some(base) => Some(
                TiPress {
                    modifier: if 'A' <= c <= 'Z' {
                        Some(TiKey::Shift)
                    } else {
                        None
                    },
                    key: Some(base),
                },
            ),
            None => None,
        }
    } else {
        match c {
            '0' => Some(base_press(TiKey::Num0)),
            '1' => Some(base_press(TiKey::Num1)),
            '2' => Some(base_press(TiKey::Num2)),
            '3' => Some(base_press(TiKey::Num3)),
            '4' => Some(base_press(TiKey::Num4)),
            '5' => Some(base_press(TiKey::Num5)),
            '6' => Some(base_press(TiKey::Num6)),
            '7' => Some(base_press(TiKey::Num7)),
            '8' => Some(base_press(TiKey::Num8)),
            '9' => Some(base_press(TiKey::Num9)),
            '=' => Some(base_press(TiKey::Equals)),
            '.' => Some(base_press(TiKey::Period)),
            ',' => Some(base_press(TiKey::Comma)),
            ';' => Some(base_press(TiKey::Semicolon)),
            '/' => Some(base_press(TiKey::Slash)),
            ' ' => Some(base_press(TiKey::Space)),
            '!' => Some(combo_press(TiKey::Shift, TiKey::Num1)),
            '@' => Some(combo_press(TiKey::Shift, TiKey::Num2)),
            '#' => Some(combo_press(TiKey::Shift, TiKey::Num3)),
            '$' => Some(combo_press(TiKey::Shift, TiKey::Num4)),
            '%' => Some(combo_press(TiKey::Shift, TiKey::Num5)),
            '^' => Some(combo_press(TiKey::Shift, TiKey::Num6)),
            '&' => Some(combo_press(TiKey::Shift, TiKey::Num7)),
            '*' => Some(combo_press(TiKey::Shift, TiKey::Num8)),
            '(' => Some(combo_press(TiKey::Shift, TiKey::Num9)),
            ')' => Some(combo_press(TiKey::Shift, TiKey::Num0)),
            '+' => Some(combo_press(TiKey::Shift, TiKey::Equals)),
            ':' => Some(combo_press(TiKey::Shift, TiKey::Semicolon)),
            '<' => Some(combo_press(TiKey::Shift, TiKey::Comma)),
            '>' => Some(combo_press(TiKey::Shift, TiKey::Period)),
            '-' => Some(combo_press(TiKey::Shift, TiKey::Slash)),
            '?' => Some(combo_press(TiKey::Fctn, TiKey::I)),
            '_' => Some(combo_press(TiKey::Fctn, TiKey::U)),
            '\'' => Some(combo_press(TiKey::Fctn, TiKey::O)),
            '"' => Some(combo_press(TiKey::Fctn, TiKey::P)),
            '~' => Some(combo_press(TiKey::Fctn, TiKey::W)),
            '[' => Some(combo_press(TiKey::Fctn, TiKey::R)),
            ']' => Some(combo_press(TiKey::Fctn, TiKey::T)),
            '{' => Some(combo_press(TiKey::Fctn, TiKey::F)),
            '}' => Some(combo_press(TiKey::Fctn, TiKey::G)),
            '\\' => Some(combo_press(TiKey::Fctn, TiKey::Z)),
            '|' => Some(combo_press(TiKey::Fctn, TiKey::A)),
            '`' => Some(combo_press(TiKey::Fctn, TiKey::C)),
            _ => None,
        }
    }
}

/// Map a produced character to the TI keystroke that types it: a base key plus a
/// synthesized `SHIFT`/`FCTN` modifier where the TI needs one. Covers the full
/// printable set the TI keyboard can produce. Returns `None` for characters the
/// TI keyboard can't type.
pub fn char_to_ti_press(c: char) -> (r: Option<TiPress>)
    ensures
        r == char_to_ti_press_spec(c),
{
    if ('a' <= c && c <= 'z') || ('A' <= c && c <= 'Z') {
        let base = match char_to_ti_key(c) {
            Some(b) => b,
            None => return None,
        };
        let modifier = if 'A' <= c && c <= 'Z' {
            Some(TiKey::Shift)
        } else {
            None
        };
        return Some(TiPress { modifier, key: Some(base) });
    }
    match c {
        '0' => Some(TiPress { modifier: None, key: Some(TiKey::Num0) }),
        '1' => Some(TiPress { modifier: None, key: Some(TiKey::Num1) }),
        '2' => Some(TiPress { modifier: None, key: Some(TiKey::Num2) }),
        '3' => Some(TiPress { modifier: None, key: Some(TiKey::Num3) }),
        '4' => Some(TiPress { modifier: None, key: Some(TiKey::Num4) }),
        '5' => Some(TiPress { modifier: None, key: Some(TiKey::Num5) }),
        '6' => Some(TiPress { modifier: None, key: Some(TiKey::Num6) }),
        '7' => Some(TiPress { modifier: None, key: Some(TiKey::Num7) }),
        '8' => Some(TiPress { modifier: None, key: Some(TiKey::Num8) }),
        '9' => Some(TiPress { modifier: None, key: Some(TiKey::Num9) }),
        '=' => Some(TiPress { modifier: None, key: Some(TiKey::Equals) }),
        '.' => Some(TiPress { modifier: None, key: Some(TiKey::Period) }),
        ',' => Some(TiPress { modifier: None, key: Some(TiKey::Comma) }),
        ';' => Some(TiPress { modifier: None, key: Some(TiKey::Semicolon) }),
        '/' => Some(TiPress { modifier: None, key: Some(TiKey::Slash) }),
        ' ' => Some(TiPress { modifier: None, key: Some(TiKey::Space) }),
        '!' => Some(TiPress { modifier: Some(TiKey::Shift), key: Some(TiKey::Num1) }),
        '@' => Some(TiPress { modifier: Some(TiKey::Shift), key: Some(TiKey::Num2) }),
        '#' => Some(TiPress { modifier: Some(TiKey::Shift), key: Some(TiKey::Num3) }),
        '$' => Some(TiPress { modifier: Some(TiKey::Shift), key: Some(TiKey::Num4) }),
        '%' => Some(TiPress { modifier: Some(TiKey::Shift), key: Some(TiKey::Num5) }),
        '^' => Some(TiPress { modifier: Some(TiKey::Shift), key: Some(TiKey::Num6) }),
        '&' => Some(TiPress { modifier: Some(TiKey::Shift), key: Some(TiKey::Num7) }),
        '*' => Some(TiPress { modifier: Some(TiKey::Shift), key: Some(TiKey::Num8) }),
        '(' => Some(TiPress { modifier: Some(TiKey::Shift), key: Some(TiKey::Num9) }),
        ')' => Some(TiPress { modifier: Some(TiKey::Shift), key: Some(TiKey::Num0) }),
        '+' => Some(TiPress { modifier: Some(TiKey::Shift), key: Some(TiKey::Equals) }),
        ':' => Some(TiPress { modifier: Some(TiKey::Shift), key: Some(TiKey::Semicolon) }),
        '<' => Some(TiPress { modifier: Some(TiKey::Shift), key: Some(TiKey::Comma) }),
        '>' => Some(TiPress { modifier: Some(TiKey::Shift), key: Some(TiKey::Period) }),
        '-' => Some(TiPress { modifier: Some(TiKey::Shift), key: Some(TiKey::Slash) }),
        '?' => Some(TiPress { modifier: Some(TiKey::Fctn), key: Some(TiKey::I) }),
        '_' => Some(TiPress { modifier: Some(TiKey::Fctn), key: Some(TiKey::U) }),
        '\'' => Some(TiPress { modifier: Some(TiKey::Fctn), key: Some(TiKey::O) }),
        '"' => Some(TiPress { modifier: Some(TiKey::Fctn), key: Some(TiKey::P) }),
        '~' => Some(TiPress { modifier: Some(TiKey::Fctn), key: Some(TiKey::W) }),
        '[' => Some(TiPress { modifier: Some(TiKey::Fctn), key: Some(TiKey::R) }),
        ']' => Some(TiPress { modifier: Some(TiKey::Fctn), key: Some(TiKey::T) }),
        '{' => Some(TiPress { modifier: Some(TiKey::Fctn), key: Some(TiKey::F) }),
        '}' => Some(TiPress { modifier: Some(TiKey::Fctn), key: Some(TiKey::G) }),
        '\\' => Some(TiPress { modifier: Some(TiKey::Fctn), key: Some(TiKey::Z) }),
        '|' => Some(TiPress { modifier: Some(TiKey::Fctn), key: Some(TiKey::A) }),
        '`' => Some(TiPress { modifier: Some(TiKey::Fctn), key: Some(TiKey::C) }),
        _ => None,
    }
}

/// Which mapping the frontend uses to turn host keys into TI keys.
#[derive(Clone, Copy, Debug, PartialEq, Eq, Structural)]
pub enum KeyLayout {
    /// Map by the character the keystroke produces (default; natural typing,
    /// layout-independent). See [`char_to_ti_press`].
    Character,
    /// Map by physical key position (host layout ignored). Best for games.
    Positional,
}

impl Default for KeyLayout {
    fn default() -> (l: KeyLayout)
        ensures
            l == KeyLayout::Character,
    {
        KeyLayout::Character
    }
}

/// The layout a config string names: `positional` or `qwerty` (any ASCII
/// case, surrounding white space ignored) is positional; anything else is the
/// default, character.
pub open spec fn layout_from(s: Seq<char>) -> KeyLayout {
    let t = ascii_lower_seq(trim(s));
    if t == "positional"@ || t == "qwerty"@ {
        KeyLayout::Positional
    } else {
        KeyLayout::Character
    }
}

/// The config string of a layout.
pub open spec fn layout_name(l: KeyLayout) -> Seq<char> {
    match l {
        KeyLayout::Character => "character"@,
        KeyLayout::Positional => "positional"@,
    }
}

impl KeyLayout {
    /// Parse a config string; anything but `positional`/`qwerty` is the default
    /// [`Character`](KeyLayout::Character).
    pub fn from_config(s: &str) -> (l: KeyLayout)
        ensures
            l == layout_from(s@),
    {
        let t = crate::strings::trimmed(s);
        let low = crate::strings::ascii_lowercase(t.as_str());
        let p = crate::strings::chars_of("positional");
        let q = crate::strings::chars_of("qwerty");
        if crate::strings::chars_eq(low.as_slice(), p.as_slice()) || crate::strings::chars_eq(
            low.as_slice(),
            q.as_slice(),
        ) {
            KeyLayout::Positional
        } else {
            KeyLayout::Character
        }
    }

    /// The config string for this layout (round-trips with [`from_config`]).
    pub fn as_config(self) -> (s: &'static str)
        ensures
            s@ == layout_name(self),
    {
        match self {
            KeyLayout::Character => "character",
            KeyLayout::Positional => "positional",
        }
    }

    /// The other layout (what `F7` switches to).
    pub fn toggled(self) -> (l: KeyLayout)
        ensures
            l == other_layout(self),
    {
        match self {
            KeyLayout::Positional => KeyLayout::Character,
            KeyLayout::Character => KeyLayout::Positional,
        }
    }

    /// The banner shown when the layout switches to this one.
    pub fn banner(self) -> (s: &'static str)
        ensures
            s@ == layout_banner(self),
    {
        match self {
            KeyLayout::Positional => "INPUT: POSITIONAL (QWERTY)",
            KeyLayout::Character => "INPUT: CHARACTER (HOST LAYOUT)",
        }
    }
}

/// The banner shown when the layout switches to `l`.
pub open spec fn layout_banner(l: KeyLayout) -> Seq<char> {
    match l {
        KeyLayout::Positional => "INPUT: POSITIONAL (QWERTY)"@,
        KeyLayout::Character => "INPUT: CHARACTER (HOST LAYOUT)"@,
    }
}

/// The layout `F7` switches to from `l`.
pub open spec fn other_layout(l: KeyLayout) -> KeyLayout {
    match l {
        KeyLayout::Positional => KeyLayout::Character,
        KeyLayout::Character => KeyLayout::Positional,
    }
}

/// Switching the layout always changes it, and switching twice comes back
/// to where it started.
pub proof fn lemma_toggle_layout_twice(l: KeyLayout)
    ensures
        other_layout(l) != l,
        other_layout(other_layout(l)) == l,
{
}

/// A layout's config string reads back as that layout.
pub proof fn lemma_layout_round_trip(l: KeyLayout)
    ensures
        layout_from(layout_name(l)) == l,
{
    reveal_strlit("character");
    reveal_strlit("positional");
    reveal_strlit("qwerty");
    let s = layout_name(l);
    assert(crate::strings::trim_start(s) == s);
    assert(crate::strings::trim_end(s) == s);
    assert(trim(s) == s);
    assert(ascii_lower_seq(s) =~= s);
    match l {
        KeyLayout::Character => {
            assert(s[0] != "positional"@[0]);
            assert(s.len() != "qwerty"@.len());
        },
        KeyLayout::Positional => {},
    }
}

/// Host modifier state we care about while resolving keys: `alt`/`ctrl` drive
/// the character layout's `FCTN`/`CTRL` layer, and `cmd` (Super) is the
/// macOS emulator-shortcut modifier. `shift` isn't used for TI translation
/// (it's folded into the produced character); the frontend reads it for
/// overlay navigation.
#[derive(Clone, Copy, Debug, PartialEq, Eq, Structural)]
pub struct HostMods {
    pub alt: bool,
    pub ctrl: bool,
    pub cmd: bool,
    pub shift: bool,
}

impl Default for HostMods {
    fn default() -> (m: HostMods)
        ensures
            m == (HostMods { alt: false, ctrl: false, cmd: false, shift: false }),
    {
        HostMods { alt: false, ctrl: false, cmd: false, shift: false }
    }
}

impl HostMods {
    /// The platform "command" modifier for emulator shortcuts (screenshot, CPU
    /// inspector, …): **Super/Cmd** on macOS, **Ctrl** everywhere else —
    /// `Win`+key combos are stolen by the OS on Windows, so Ctrl is the
    /// portable choice. `macos` says whether the host is macOS.
    pub fn command(self, macos: bool) -> (r: bool)
        ensures
            r == (if macos {
                self.cmd
            } else {
                self.ctrl
            }),
    {
        if macos {
            self.cmd
        } else {
            self.ctrl
        }
    }
}

/// The letter keys the emulator claims as command-modifier shortcuts: **S**
/// = screenshot, **D** = CPU inspector.
pub open spec fn command_key(code: HostKey) -> bool {
    code == HostKey::KeyS || code == HostKey::KeyD
}

/// The letter keys the emulator claims as command-modifier shortcuts: **S** =
/// screenshot, **D** = CPU inspector. On non-macOS the command modifier is Ctrl
/// — which also drives the TI `CTRL` layer — so these are the only Ctrl chords
/// withheld from the TI; every other Ctrl chord still reaches it.
pub fn is_command_key(code: HostKey) -> (r: bool)
    ensures
        r == command_key(code),
{
    match code {
        HostKey::KeyS | HostKey::KeyD => true,
        _ => false,
    }
}

/// A base key from the positional table, alone (or nothing).
pub open spec fn opt_press(k: Option<TiKey>) -> TiPress {
    TiPress { modifier: None, key: k }
}

/// Character-layout resolution of host key `code` that produced the
/// character `produced` (if any): bare `SHIFT` does nothing, Left-Alt is
/// `FCTN`, Left-Ctrl `CTRL`, Right-Alt joystick fire; with Alt or Ctrl held
/// the key maps positionally; otherwise the produced character's TI
/// keystroke, else Backspace is `FCTN`+`S` and any other key positional.
pub open spec fn resolve_character_spec(code: HostKey, produced: Option<char>, mods: HostMods) -> TiPress {
    match code {
        HostKey::ShiftLeft | HostKey::ShiftRight => no_press(),
        HostKey::AltLeft => base_press(TiKey::Fctn),
        HostKey::ControlLeft => base_press(TiKey::Ctrl),
        HostKey::AltRight => base_press(TiKey::Joy1Fire),
        _ => if mods.alt || mods.ctrl {
            opt_press(to_ti_key_spec(code))
        } else {
            match (match produced {
                Some(c) => char_to_ti_press_spec(c),
                None => None,
            }) {
                Some(p) => p,
                None => if code == HostKey::Backspace {
                    combo_press(TiKey::Fctn, TiKey::S)
                } else {
                    opt_press(to_ti_key_spec(code))
                },
            }
        },
    }
}

/// The TI key(s) a host key press resolves to under `layout`: nothing for an
/// unidentified key or a command-modifier chord (any Super chord; off macOS,
/// Ctrl with a reserved letter), else by position or by character.
pub open spec fn resolve_spec(
    code: Option<HostKey>,
    produced: Option<char>,
    layout: KeyLayout,
    mods: HostMods,
    macos: bool,
) -> TiPress {
    match code {
        None => no_press(),
        Some(c) => if mods.cmd || (!macos && mods.ctrl && command_key(c)) {
            no_press()
        } else {
            match layout {
                KeyLayout::Positional => opt_press(to_ti_key_spec(c)),
                KeyLayout::Character => resolve_character_spec(c, produced, mods),
            }
        },
    }
}

/// Character-layout resolution: translate the produced character into the TI
/// keystroke that types it, with the `FCTN`/`CTRL` layer and a couple of
/// convenience keys handled positionally.
fn resolve_character(code: HostKey, produced: Option<char>, mods: HostMods) -> (p: TiPress)
    ensures
        p == resolve_character_spec(code, produced, mods),
{
    // Bare host modifiers: SHIFT is folded into the produced character, so the
    // SHIFT key itself does nothing here; ALT and CTRL stay live as the TI
    // FCTN / CTRL layer (and Right-Alt is joystick fire, as in positional mode).
    match code {
        HostKey::ShiftLeft | HostKey::ShiftRight => return TiPress { modifier: None, key: None },
        HostKey::AltLeft => return TiPress { modifier: None, key: Some(TiKey::Fctn) },
        HostKey::ControlLeft => return TiPress { modifier: None, key: Some(TiKey::Ctrl) },
        HostKey::AltRight => return TiPress { modifier: None, key: Some(TiKey::Joy1Fire) },
        _ => {},
    }
    // Holding ALT or CTRL selects the TI function / control layer, mapped
    // positionally so the whole TI keyboard stays reachable.
    if mods.alt || mods.ctrl {
        return TiPress { modifier: None, key: to_ti_key(code) };
    }
    // The common case: the character the host layout actually produced.
    if let Some(c) = produced {
        if let Some(press) = char_to_ti_press(c) {
            return press;
        }
    }
    // Non-character keys: the TI's backspace is FCTN+S (cursor-left);
    // everything else maps positionally.
    match code {
        HostKey::Backspace => TiPress { modifier: Some(TiKey::Fctn), key: Some(TiKey::S) },
        _ => TiPress { modifier: None, key: to_ti_key(code) },
    }
}

/// Resolve a host key press to the TI key(s) it presses under `layout`:
/// `code` is the physical key (`None` when the host could not identify it),
/// `produced` the first character the keystroke produced (if any), and
/// `macos` whether the host is macOS.
pub fn resolve(code: Option<HostKey>, produced: Option<char>, layout: KeyLayout, mods: HostMods, macos: bool) -> (p: TiPress)
    ensures
        p == resolve_spec(code, produced, layout, mods, macos),
{
    let code = match code {
        Some(c) => c,
        None => return TiPress { modifier: None, key: None },
    };
    // Command-modifier chords are emulator shortcuts, never TI input: Super
    // (Cmd) is never a TI key; off macOS the command modifier is Ctrl, which
    // also drives the TI CTRL layer, so only the claimed letters are withheld.
    if mods.cmd {
        return TiPress { modifier: None, key: None };
    }
    if !macos && mods.ctrl && is_command_key(code) {
        return TiPress { modifier: None, key: None };
    }
    match layout {
        KeyLayout::Positional => TiPress { modifier: None, key: to_ti_key(code) },
        KeyLayout::Character => resolve_character(code, produced, mods),
    }
}

/// The character printed on a TI key's cap, for the letter, digit and
/// punctuation keys.
pub open spec fn key_legend(k: TiKey) -> Option<char> {
    match k {
        TiKey::A => Some('A'),
        TiKey::B => Some('B'),
        TiKey::C => Some('C'),
        TiKey::D => Some('D'),
        TiKey::E => Some('E'),
        TiKey::F => Some('F'),
        TiKey::G => Some('G'),
        TiKey::H => Some('H'),
        TiKey::I => Some('I'),
        TiKey::J => Some('J'),
        TiKey::K => Some('K'),
        TiKey::L => Some('L'),
        TiKey::M => Some('M'),
        TiKey::N => Some('N'),
        TiKey::O => Some('O'),
        TiKey::P => Some('P'),
        TiKey::Q => Some('Q'),
        TiKey::R => Some('R'),
        TiKey::S => Some('S'),
        TiKey::T => Some('T'),
        TiKey::U => Some('U'),
        TiKey::V => Some('V'),
        TiKey::W => Some('W'),
        TiKey::X => Some('X'),
        TiKey::Y => Some('Y'),
        TiKey::Z => Some('Z'),
        TiKey::Num0 => Some('0'),
        TiKey::Num1 => Some('1'),
        TiKey::Num2 => Some('2'),
        TiKey::Num3 => Some('3'),
        TiKey::Num4 => Some('4'),
        TiKey::Num5 => Some('5'),
        TiKey::Num6 => Some('6'),
        TiKey::Num7 => Some('7'),
        TiKey::Num8 => Some('8'),
        TiKey::Num9 => Some('9'),
        TiKey::Equals => Some('='),
        TiKey::Period => Some('.'),
        TiKey::Comma => Some(','),
        TiKey::Semicolon => Some(';'),
        TiKey::Slash => Some('/'),
        _ => None,
    }
}

/// A character some TI key bears (after ASCII upper-casing): a letter, a
/// digit, or one of `=`, `.`, `,`, `;`, `/`.
pub open spec fn on_a_key_cap(c: char) -> bool {
    let u = ascii_upper(c);
    ||| 'A' <= u <= 'Z'
    ||| '0' <= u <= '9'
    ||| u == '=' || u == '.' || u == ',' || u == ';' || u == '/'
}

/// Typing a character presses the key that bears it: exactly the characters
/// on a key cap (in either case) map to a key, and that key's legend is the
/// character, upper-cased.
pub proof fn lemma_typed_key_bears_the_character(c: char)
    ensures
        on_a_key_cap(c) <==> char_to_ti_key_spec(c) is Some,
        char_to_ti_key_spec(c) matches Some(k) ==> key_legend(k) == Some(ascii_upper(c)),
{
}

/// Different characters (ignoring case) type different keys.
pub proof fn lemma_characters_type_distinct_keys(c1: char, c2: char)
    requires
        char_to_ti_key_spec(c1) is Some,
        ascii_upper(c1) != ascii_upper(c2),
    ensures
        char_to_ti_key_spec(c1) != char_to_ti_key_spec(c2),
{
    lemma_typed_key_bears_the_character(c1);
    lemma_typed_key_bears_the_character(c2);
}

/// The character map folds case: a letter and its upper-case form type the
/// same base key.
pub proof fn lemma_char_key_folds_case(c: char)
    requires
        'a' <= c <= 'z',
    ensures
        char_to_ti_key_spec(c) == char_to_ti_key_spec(ascii_upper(c)),
        char_to_ti_key_spec(c) is Some,
{
}

/// An upper-case letter types as `SHIFT` with its lower-case letter's key.
pub proof fn lemma_upper_adds_shift(c: char)
    requires
        'a' <= c <= 'z',
    ensures
        char_to_ti_press_spec(ascii_upper(c)) == Some(
            combo_press(TiKey::Shift, char_to_ti_press_spec(c)->Some_0.key->Some_0),
        ),
        char_to_ti_press_spec(c) == Some(base_press(char_to_ti_key_spec(c)->Some_0)),
{
}

} // verus!
