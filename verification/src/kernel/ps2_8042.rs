//! The state that the PS/2 keyboard driver keeps: which modifier keys are
//! down, and how scan codes read from the controller become key packets.
use crate::kernel::hio::{set1_key, KeyboardKey, KeyboardPacket, KeyboardPacketType};
use vstd::prelude::*;

verus! {

/// The modifier keys that are down, and the lock keys that are on.
#[derive(Debug, PartialEq, Eq, Structural, Clone, Copy)]
pub struct KeyboardModifiers {
    pub left_shift: bool,
    pub right_shift: bool,
    pub left_alt: bool,
    pub right_alt: bool,
    pub left_ctrl: bool,
    pub right_ctrl: bool,
    pub caps_lock: bool,
    pub num_lock: bool,
}

impl KeyboardModifiers {
    pub fn none() -> (r: KeyboardModifiers)
        ensures
            !r.left_shift && !r.right_shift && !r.left_alt && !r.right_alt,
            !r.left_ctrl && !r.right_ctrl && !r.caps_lock && !r.num_lock,
    {
        KeyboardModifiers {
            left_shift: false,
            right_shift: false,
            left_alt: false,
            right_alt: false,
            left_ctrl: false,
            right_ctrl: false,
            caps_lock: false,
            num_lock: false,
        }
    }

    pub fn any_shift(&self) -> (r: bool)
        ensures
            r == (self.left_shift || self.right_shift),
    {
        self.left_shift || self.right_shift
    }

    pub fn any_alt(&self) -> (r: bool)
        ensures
            r == (self.left_alt || self.right_alt),
    {
        self.left_alt || self.right_alt
    }

    /// Whether a control key is down. This reads the left control key and
    /// the right *alt* key, as the driver always has.
    pub fn any_ctrl(&self) -> (r: bool)
        ensures
            r == (self.left_ctrl || self.right_alt),
    {
        self.left_ctrl || self.right_alt
    }
}

/// The modifiers after `key` was pressed (`pressed`) or released: a
/// shift, control or alt key is down while pressed; caps lock toggles on
/// each press.
pub open spec fn modifiers_after(m: KeyboardModifiers, key: KeyboardKey, pressed: bool) -> KeyboardModifiers {
    match key {
        KeyboardKey::LeftShift => KeyboardModifiers { left_shift: pressed, ..m },
        KeyboardKey::RightShift => KeyboardModifiers { right_shift: pressed, ..m },
        KeyboardKey::LeftCtrl => KeyboardModifiers { left_ctrl: pressed, ..m },
        KeyboardKey::RightCtrl => KeyboardModifiers { right_ctrl: pressed, ..m },
        KeyboardKey::LeftAlt => KeyboardModifiers { left_alt: pressed, ..m },
        KeyboardKey::RightAlt => KeyboardModifiers { right_alt: pressed, ..m },
        KeyboardKey::CapsLock => if pressed {
            KeyboardModifiers { caps_lock: !m.caps_lock, ..m }
        } else {
            m
        },
        _ => m,
    }
}

/// The scan code that the bytes read from the controller make: a `0xE0`
/// prefix, then possibly `0xF0`, then the last byte.
pub open spec fn scancode_of(first: u8, second: u8, third: u8) -> u32 {
    if first == 0xE0 {
        if second == 0xF0 {
            (0xE0F000 + third) as u32
        } else {
            (0xE000 + second) as u32
        }
    } else if first == 0xF0 {
        (0xF000 + second) as u32
    } else {
        first as u32
    }
}

/// Builds a scan code from the bytes read from the controller. `second` and
/// `third` are read only where the code has that many bytes.
pub fn combine_scancode(first: u8, second: u8, third: u8) -> (r: u32)
    ensures
        r == scancode_of(first, second, third),
{
    let s: u32 = second as u32;
    let t: u32 = third as u32;
    if first == 0xE0 {
        if second == 0xF0 {
            let r: u32 = (0xE0u32 << 16u32) | (0xF0u32 << 8u32) | t;
            assert(r == 0xE0F000 + t) by (bit_vector)
                requires
                    r == (0xE0u32 << 16u32) | (0xF0u32 << 8u32) | t,
                    t < 0x100,
            ;
            r
        } else {
            let r: u32 = (0xE0u32 << 8u32) | s;
            assert(r == 0xE000 + s) by (bit_vector)
                requires
                    r == (0xE0u32 << 8u32) | s,
                    s < 0x100,
            ;
            r
        }
    } else if first == 0xF0 {
        let r: u32 = (0xF0u32 << 8u32) | s;
        assert(r == 0xF000 + s) by (bit_vector)
            requires
                r == (0xF0u32 << 8u32) | s,
                s < 0x100,
        ;
        r
    } else {
        first as u32
    }
}

/// The packet that a scan code of set 1 makes, given the modifiers that are
/// active, which it updates first; `None` (and the modifiers unchanged) for a
/// code that stands for no key.
pub fn packet_from_scancode(active_modifiers: &mut KeyboardModifiers, scancode: u32) -> (r: Option<KeyboardPacket>)
    ensures
        match set1_key(scancode) {
            None => r is None && *final(active_modifiers) == *old(active_modifiers),
            Some(key) => {
                let pressed = scancode & 0x80 == 0;
                &&& *final(active_modifiers) == modifiers_after(*old(active_modifiers), key, pressed)
                &&& r == Some(KeyboardPacket {
                    key,
                    modifiers: *final(active_modifiers),
                    packet_type: if pressed {
                        KeyboardPacketType::KeyPressed
                    } else {
                        KeyboardPacketType::KeyReleased
                    },
                })
            },
        },
{
    let key = match KeyboardKey::from_scancode_in_set1(scancode) {
        Some(k) => k,
        None => return None,
    };
    let pressed = crate::kernel::hio::is_scancode_in_set1_pressed(scancode);
    let packet_type = if pressed {
        KeyboardPacketType::KeyPressed
    } else {
        KeyboardPacketType::KeyReleased
    };
    match key {
        KeyboardKey::LeftShift => active_modifiers.left_shift = pressed,
        KeyboardKey::RightShift => active_modifiers.right_shift = pressed,
        KeyboardKey::LeftCtrl => active_modifiers.left_ctrl = pressed,
        KeyboardKey::RightCtrl => active_modifiers.right_ctrl = pressed,
        KeyboardKey::LeftAlt => active_modifiers.left_alt = pressed,
        KeyboardKey::RightAlt => active_modifiers.right_alt = pressed,
        KeyboardKey::CapsLock => {
            if pressed {
                active_modifiers.caps_lock = !active_modifiers.caps_lock;
            }
        },
        _ => {},
    }
    Some(KeyboardPacket { key, modifiers: *active_modifiers, packet_type })
}

} // verus!
