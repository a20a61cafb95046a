//! Human input: keyboard keys, PS/2 scan code set 1, and the US QWERTY layout.
pub mod standard_usa_qwerty;

use crate::kernel::ps2_8042::KeyboardModifiers;
use crate::kernel::hio::standard_usa_qwerty::key_char;
use vstd::prelude::*;

verus! {

#[derive(Debug, PartialEq, Eq, Structural, Clone, Copy)]
pub enum KeyboardPacketType {
    KeyPressed,
    KeyReleased,
}

#[derive(Debug, PartialEq, Eq, Structural, Clone, Copy)]
pub struct KeyboardPacket {
    pub key: KeyboardKey,
    pub modifiers: KeyboardModifiers,
    pub packet_type: KeyboardPacketType,
}

/// A key of the keyboard. The keys that a layout maps to characters are
/// `Unmapped` and named by their place on an ANSI keyboard: `row` counts
/// from the row of digits (0) down, `column` from the left.
#[derive(Debug, PartialEq, Eq, Structural, Clone, Copy)]
pub enum KeyboardKey {
    Unmapped { row: usize, column: usize },
    Escape,
    F1, F2, F3, F4, F5, F6, F7, F8, F9, F10, F11, F12,
    Delete,
    UpArrow, DownArrow, LeftArrow, RightArrow,
    Backspace,
    Enter,
    Space,
    Tab,
    Insert,
    Home,
    PageUp,
    PageDown,
    End,
    PrintScreen,
    LeftShift,
    RightShift,
    LeftCtrl,
    RightCtrl,
    LeftSuper,
    RightSuper,
    LeftAlt,
    RightAlt,
    CapsLock,
    NumLock,
    ScrollLock,
    Power,
    Sleep,
    Wake,
    NextTrack,
    PrevTrack,
    Stop,
    Play,
    Mute,
    VolUp,
    VolDown,
    MediaSelect,
    EMail,
    Calculator,
    MyComputer,
    WWWSearch,
    WWWHome,
    WWWBack,
    WWWForward,
    WWWStop,
    WWWRefresh,
    WWWFavorites,
    Keypad0,
    Keypad1,
    Keypad2,
    Keypad3,
    Keypad4,
    Keypad5,
    Keypad6,
    Keypad7,
    Keypad8,
    Keypad9,
    KeypadSlash,
    KeypadStar,
    KeypadMinus,
    KeypadPlus,
    KeypadEnter,
    KeypadDot,
}

/// The place of the layout-mapped key that a scan code of set 1 (with the
/// released bit cleared) stands for.
pub open spec fn set1_unmapped(k: u32) -> Option<(usize, usize)> {
    if k == 0x29 {
        Some((0usize, 0usize))
    } else if 0x02 <= k <= 0x0D {
        Some((0usize, (k - 1) as usize))
    } else if 0x10 <= k <= 0x1B {
        Some((1usize, (k - 0x10) as usize))
    } else if k == 0x2B {
        Some((1usize, 12usize))
    } else if 0x1E <= k <= 0x28 {
        Some((2usize, (k - 0x1E) as usize))
    } else if 0x2C <= k <= 0x35 {
        Some((3usize, (k - 0x2C) as usize))
    } else {
        None
    }
}

/// The key with a name of its own that a scan code of set 1 (with the
/// released bit cleared) stands for.
pub open spec fn set1_named(k: u32) -> Option<KeyboardKey> {
    if k == 0x01 {
        Some(KeyboardKey::Escape)
    } else if k == 0x0E {
        Some(KeyboardKey::Backspace)
    } else if k == 0x0F {
        Some(KeyboardKey::Tab)
    } else if k == 0x1C {
        Some(KeyboardKey::Enter)
    } else if k == 0x1D {
        Some(KeyboardKey::LeftCtrl)
    } else if k == 0x2A {
        Some(KeyboardKey::LeftShift)
    } else if k == 0x36 {
        Some(KeyboardKey::RightShift)
    } else if k == 0x37 {
        Some(KeyboardKey::KeypadStar)
    } else if k == 0x38 {
        Some(KeyboardKey::LeftAlt)
    } else if k == 0x39 {
        Some(KeyboardKey::Space)
    } else if k == 0x3A {
        Some(KeyboardKey::CapsLock)
    } else if k == 0x3B {
        Some(KeyboardKey::F1)
    } else if k == 0x3C {
        Some(KeyboardKey::F2)
    } else if k == 0x3D {
        Some(KeyboardKey::F3)
    } else if k == 0x3E {
        Some(KeyboardKey::F4)
    } else if k == 0x3F {
        Some(KeyboardKey::F5)
    } else if k == 0x40 {
        Some(KeyboardKey::F6)
    } else if k == 0x41 {
        Some(KeyboardKey::F7)
    } else if k == 0x42 {
        Some(KeyboardKey::F8)
    } else if k == 0x43 {
        Some(KeyboardKey::F9)
    } else if k == 0x44 {
        Some(KeyboardKey::F10)
    } else if k == 0x45 {
        Some(KeyboardKey::NumLock)
    } else if k == 0x46 {
        Some(KeyboardKey::ScrollLock)
    } else if k == 0x47 {
        Some(KeyboardKey::Keypad7)
    } else if k == 0x48 {
        Some(KeyboardKey::Keypad8)
    } else if k == 0x49 {
        Some(KeyboardKey::Keypad9)
    } else if k == 0x4A {
        Some(KeyboardKey::KeypadMinus)
    } else if k == 0x4B {
        Some(KeyboardKey::Keypad4)
    } else if k == 0x4C {
        Some(KeyboardKey::Keypad5)
    } else if k == 0x4D {
        Some(KeyboardKey::Keypad6)
    } else if k == 0x4E {
        Some(KeyboardKey::KeypadPlus)
    } else if k == 0x4F {
        Some(KeyboardKey::Keypad1)
    } else if k == 0x50 {
        Some(KeyboardKey::Keypad2)
    } else if k == 0x51 {
        Some(KeyboardKey::Keypad3)
    } else if k == 0x52 {
        Some(KeyboardKey::Keypad0)
    } else if k == 0x53 {
        Some(KeyboardKey::KeypadDot)
    } else if k == 0x57 {
        Some(KeyboardKey::F11)
    } else if k == 0x58 {
        Some(KeyboardKey::F12)
    } else {
        None
    }
}

/// The key that a scan code of set 1 stands for, pressed or released.
pub open spec fn set1_key(code: u32) -> Option<KeyboardKey> {
    let k = code & 0x7F;
    match set1_unmapped(k) {
        Some((row, column)) => Some(KeyboardKey::Unmapped { row, column }),
        None => set1_named(k),
    }
}

impl KeyboardKey {
    /// The key that a scan code of set 1 stands for; the bit that marks a
    /// release is ignored.
    pub fn from_scancode_in_set1(code: u32) -> (r: Option<KeyboardKey>)
        ensures
            r == set1_key(code),
    {
        let k = code & 0x7F;
        assert(k < 0x80) by (bit_vector)
            requires
                k == code & 0x7F,
        ;
        Some(
            match k {
                0x01 => KeyboardKey::Escape,
                0x29 => KeyboardKey::Unmapped { row: 0, column: 0 },
                0x02 => KeyboardKey::Unmapped { row: 0, column: 1 },
                0x03 => KeyboardKey::Unmapped { row: 0, column: 2 },
                0x04 => KeyboardKey::Unmapped { row: 0, column: 3 },
                0x05 => KeyboardKey::Unmapped { row: 0, column: 4 },
                0x06 => KeyboardKey::Unmapped { row: 0, column: 5 },
                0x07 => KeyboardKey::Unmapped { row: 0, column: 6 },
                0x08 => KeyboardKey::Unmapped { row: 0, column: 7 },
                0x09 => KeyboardKey::Unmapped { row: 0, column: 8 },
                0x0A => KeyboardKey::Unmapped { row: 0, column: 9 },
                0x0B => KeyboardKey::Unmapped { row: 0, column: 10 },
                0x0C => KeyboardKey::Unmapped { row: 0, column: 11 },
                0x0D => KeyboardKey::Unmapped { row: 0, column: 12 },
                0x0E => KeyboardKey::Backspace,
                0x0F => KeyboardKey::Tab,
                0x10 => KeyboardKey::Unmapped { row: 1, column: 0 },
                0x11 => KeyboardKey::Unmapped { row: 1, column: 1 },
                0x12 => KeyboardKey::Unmapped { row: 1, column: 2 },
                0x13 => KeyboardKey::Unmapped { row: 1, column: 3 },
                0x14 => KeyboardKey::Unmapped { row: 1, column: 4 },
                0x15 => KeyboardKey::Unmapped { row: 1, column: 5 },
                0x16 => KeyboardKey::Unmapped { row: 1, column: 6 },
                0x17 => KeyboardKey::Unmapped { row: 1, column: 7 },
                0x18 => KeyboardKey::Unmapped { row: 1, column: 8 },
                0x19 => KeyboardKey::Unmapped { row: 1, column: 9 },
                0x1A => KeyboardKey::Unmapped { row: 1, column: 10 },
                0x1B => KeyboardKey::Unmapped { row: 1, column: 11 },
                0x2B => KeyboardKey::Unmapped { row: 1, column: 12 },
                0x1C => KeyboardKey::Enter,
                0x1D => KeyboardKey::LeftCtrl,
                0x1E => KeyboardKey::Unmapped { row: 2, column: 0 },
                0x1F => KeyboardKey::Unmapped { row: 2, column: 1 },
                0x20 => KeyboardKey::Unmapped { row: 2, column: 2 },
                0x21 => KeyboardKey::Unmapped { row: 2, column: 3 },
                0x22 => KeyboardKey::Unmapped { row: 2, column: 4 },
                0x23 => KeyboardKey::Unmapped { row: 2, column: 5 },
                0x24 => KeyboardKey::Unmapped { row: 2, column: 6 },
                0x25 => KeyboardKey::Unmapped { row: 2, column: 7 },
                0x26 => KeyboardKey::Unmapped { row: 2, column: 8 },
                0x27 => KeyboardKey::Unmapped { row: 2, column: 9 },
                0x28 => KeyboardKey::Unmapped { row: 2, column: 10 },
                0x2A => KeyboardKey::LeftShift,
                0x2C => KeyboardKey::Unmapped { row: 3, column: 0 },
                0x2D => KeyboardKey::Unmapped { row: 3, column: 1 },
                0x2E => KeyboardKey::Unmapped { row: 3, column: 2 },
                0x2F => KeyboardKey::Unmapped { row: 3, column: 3 },
                0x30 => KeyboardKey::Unmapped { row: 3, column: 4 },
                0x31 => KeyboardKey::Unmapped { row: 3, column: 5 },
                0x32 => KeyboardKey::Unmapped { row: 3, column: 6 },
                0x33 => KeyboardKey::Unmapped { row: 3, column: 7 },
                0x34 => KeyboardKey::Unmapped { row: 3, column: 8 },
                0x35 => KeyboardKey::Unmapped { row: 3, column: 9 },
                0x36 => KeyboardKey::RightShift,
                0x37 => KeyboardKey::KeypadStar,
                0x38 => KeyboardKey::LeftAlt,
                0x39 => KeyboardKey::Space,
                0x3A => KeyboardKey::CapsLock,
                0x3B => KeyboardKey::F1,
                0x3C => KeyboardKey::F2,
                0x3D => KeyboardKey::F3,
                0x3E => KeyboardKey::F4,
                0x3F => KeyboardKey::F5,
                0x40 => KeyboardKey::F6,
                0x41 => KeyboardKey::F7,
                0x42 => KeyboardKey::F8,
                0x43 => KeyboardKey::F9,
                0x44 => KeyboardKey::F10,
                0x45 => KeyboardKey::NumLock,
                0x46 => KeyboardKey::ScrollLock,
                0x47 => KeyboardKey::Keypad7,
                0x48 => KeyboardKey::Keypad8,
                0x49 => KeyboardKey::Keypad9,
                0x4A => KeyboardKey::KeypadMinus,
                0x4B => KeyboardKey::Keypad4,
                0x4C => KeyboardKey::Keypad5,
                0x4D => KeyboardKey::Keypad6,
                0x4E => KeyboardKey::KeypadPlus,
                0x4F => KeyboardKey::Keypad1,
                0x50 => KeyboardKey::Keypad2,
                0x51 => KeyboardKey::Keypad3,
                0x52 => KeyboardKey::Keypad0,
                0x53 => KeyboardKey::KeypadDot,
                0x57 => KeyboardKey::F11,
                0x58 => KeyboardKey::F12,
                _ => return None,
            },
        )
    }
}

/// Whether a scan code of set 1 reports a press (else a release).
pub fn is_scancode_in_set1_pressed(code: u32) -> (r: bool)
    ensures
        r == (code & 0x80 == 0),
{
    code & 0x80 == 0
}

proof fn lemma_release_bit(code: u32)
    by (bit_vector)
    ensures
        (code | 0x80) & 0x7F == code & 0x7F,
        code & 0x7F < 0x80,
        code < 0x80 ==> code & 0x7F == code,
{
}

/// A scan code and the same code with the release bit (0x80) set stand for
/// the same key: pressing and releasing a key name it alike.
pub proof fn lemma_set1_release_same_key(code: u32)
    ensures
        set1_key(code | 0x80) == set1_key(code),
{
    lemma_release_bit(code);
}

/// Different scan codes of set 1 (below 0x80, without the release bit) that
/// stand for keys stand for different keys.
pub proof fn lemma_set1_injective(c1: u32, c2: u32)
    requires
        c1 < 0x80,
        c2 < 0x80,
        c1 != c2,
        set1_key(c1) is Some,
    ensures
        set1_key(c1) != set1_key(c2),
{
    lemma_release_bit(c1);
    lemma_release_bit(c2);
}

/// The scan codes 0x02 to 0x0B are the digit keys `1` to `9` and `0` of the
/// top row: without modifiers they make those digits.
pub proof fn lemma_set1_digits(code: u32)
    requires
        0x02 <= code <= 0x0B,
    ensures
        set1_key(code) matches Some(k) && key_char(k, KeyboardModifiers {
            left_shift: false,
            right_shift: false,
            left_alt: false,
            right_alt: false,
            left_ctrl: false,
            right_ctrl: false,
            caps_lock: false,
            num_lock: false,
        }) == Ok::<char, KeyboardKey>(if code == 0x0B { '0' } else { (0x2f + code) as char }),
{
    lemma_release_bit(code);
    let c = (code - 1) as int;
    crate::kernel::hio::standard_usa_qwerty::lemma_layout_shape(0, c);
}

} // verus!
