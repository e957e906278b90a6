//! What a key of the map does, and the key codes of the HID keyboard page.

use usbd_human_interface_device::page::Keyboard as Kc;
use vstd::prelude::*;

verus! {

/// A change of the active layer, bound to a key.
#[allow(non_camel_case_types)]
#[derive(Clone, Copy, Debug, PartialEq, Eq, Structural)]
pub enum LayerCMD {
    /// Switch to the layer while the key is held, back when it is released.
    TMP(u8),
    /// Move one layer up.
    NEXT,
    /// Move one layer down.
    PREV,
    /// Go to the first layer.
    FIRST,
    /// Go to the last layer.
    LAST,
    /// Switch to the layer and stay there.
    SET(u8),
}

/// What a position of the key map does.
///
/// `Code` holds the usage id of a key of the HID keyboard page.
#[derive(Clone, Copy, Debug, PartialEq, Eq, Structural)]
pub enum Key {
    Code(u8),
    Layer(LayerCMD),
    NoKey,
}

/// The usage id that the keyboard page gives to a byte: the byte itself
/// where the page names a key with it, else `NoEventIndicated` (0).
pub open spec fn keyboard_code(b: u8) -> u8 {
    if b <= 0xA4 || (0xE0 <= b && b <= 0xE7) {
        b
    } else {
        KC_NO_EVENT
    }
}

/// A byte is a key code when the keyboard page names a key with it.
pub open spec fn is_keyboard_code(b: u8) -> bool {
    keyboard_code(b) == b
}

/// A key whose code, if it has one, is a key code of the keyboard page.
pub open spec fn key_wf(key: Key) -> bool {
    match key {
        Key::Code(code) => is_keyboard_code(code),
        _ => true,
    }
}

/// Converts a byte to a key of the keyboard page, as
/// `usbd_human_interface_device::page::Keyboard::from(u8)` does, and gives
/// back its usage id. The enum is `num_enum::FromPrimitive` with
/// `NoEventIndicated` (0) as its default: bytes 0x00..=0xA4 and 0xE0..=0xE7
/// name a variant of that value, every other byte gives the default.
#[verifier::external_body]
pub(crate) fn keyboard_code_of(b: u8) -> (code: u8)
    ensures
        code == keyboard_code(b),
{
    Kc::from(b) as u8
}

/// `NoEventIndicated`: no key, an empty place of the report.
pub const KC_NO_EVENT: u8 = 0x00;
pub const KC_A: u8 = 0x04;
pub const KC_B: u8 = 0x05;
pub const KC_C: u8 = 0x06;
pub const KC_D: u8 = 0x07;
pub const KC_E: u8 = 0x08;
pub const KC_F: u8 = 0x09;
pub const KC_G: u8 = 0x0A;
pub const KC_H: u8 = 0x0B;
pub const KC_I: u8 = 0x0C;
pub const KC_J: u8 = 0x0D;
pub const KC_K: u8 = 0x0E;
pub const KC_L: u8 = 0x0F;
pub const KC_M: u8 = 0x10;
pub const KC_N: u8 = 0x11;
pub const KC_O: u8 = 0x12;
pub const KC_P: u8 = 0x13;
pub const KC_Q: u8 = 0x14;
pub const KC_R: u8 = 0x15;
pub const KC_S: u8 = 0x16;
pub const KC_T: u8 = 0x17;
pub const KC_U: u8 = 0x18;
pub const KC_V: u8 = 0x19;
pub const KC_W: u8 = 0x1A;
pub const KC_X: u8 = 0x1B;
pub const KC_Y: u8 = 0x1C;
pub const KC_Z: u8 = 0x1D;
pub const KC_KEYBOARD1: u8 = 0x1E;
pub const KC_KEYBOARD2: u8 = 0x1F;
pub const KC_KEYBOARD3: u8 = 0x20;
pub const KC_KEYBOARD4: u8 = 0x21;
pub const KC_KEYBOARD5: u8 = 0x22;
pub const KC_KEYBOARD6: u8 = 0x23;
pub const KC_KEYBOARD7: u8 = 0x24;
pub const KC_KEYBOARD8: u8 = 0x25;
pub const KC_KEYBOARD9: u8 = 0x26;
pub const KC_KEYBOARD0: u8 = 0x27;
pub const KC_RETURN_ENTER: u8 = 0x28;
pub const KC_ESCAPE: u8 = 0x29;
pub const KC_DELETE_BACKSPACE: u8 = 0x2A;
pub const KC_TAB: u8 = 0x2B;
pub const KC_SPACE: u8 = 0x2C;
pub const KC_MINUS: u8 = 0x2D;
pub const KC_LEFT_BRACE: u8 = 0x2F;
pub const KC_RIGHT_BRACE: u8 = 0x30;
pub const KC_BACKSLASH: u8 = 0x31;
pub const KC_SEMICOLON: u8 = 0x33;
pub const KC_APOSTROPHE: u8 = 0x34;
pub const KC_COMMA: u8 = 0x36;
pub const KC_DOT: u8 = 0x37;
pub const KC_F1: u8 = 0x3A;
pub const KC_F2: u8 = 0x3B;
pub const KC_F3: u8 = 0x3C;
pub const KC_F4: u8 = 0x3D;
pub const KC_F5: u8 = 0x3E;
pub const KC_F6: u8 = 0x3F;
pub const KC_F7: u8 = 0x40;
pub const KC_F8: u8 = 0x41;
pub const KC_F9: u8 = 0x42;
pub const KC_F10: u8 = 0x43;
pub const KC_F11: u8 = 0x44;
pub const KC_F12: u8 = 0x45;
pub const KC_HOME: u8 = 0x4A;
pub const KC_PAGE_UP: u8 = 0x4B;
pub const KC_DELETE_FORWARD: u8 = 0x4C;
pub const KC_END: u8 = 0x4D;
pub const KC_PAGE_DOWN: u8 = 0x4E;
pub const KC_RIGHT_ARROW: u8 = 0x4F;
pub const KC_LEFT_ARROW: u8 = 0x50;
pub const KC_DOWN_ARROW: u8 = 0x51;
pub const KC_UP_ARROW: u8 = 0x52;
pub const KC_LEFT_CONTROL: u8 = 0xE0;
pub const KC_LEFT_SHIFT: u8 = 0xE1;
pub const KC_LEFT_ALT: u8 = 0xE2;
pub const KC_LEFT_GUI: u8 = 0xE3;
pub const KC_RIGHT_GUI: u8 = 0xE7;

} // verus!
