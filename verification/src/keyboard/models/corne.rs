//! The key map that the keyboard starts with.

use crate::eeprom::key_pos;
use crate::keyboard::conf::key_survives_bytes;
use crate::keyboard::key::{key_wf, Key, LayerCMD, KC_A, KC_APOSTROPHE, KC_B, KC_BACKSLASH, KC_C, KC_COMMA, KC_D, KC_DELETE_BACKSPACE, KC_DELETE_FORWARD, KC_DOT, KC_DOWN_ARROW, KC_E, KC_END, KC_ESCAPE, KC_F, KC_F1, KC_F10, KC_F11, KC_F12, KC_F2, KC_F3, KC_F4, KC_F5, KC_F6, KC_F7, KC_F8, KC_F9, KC_G, KC_H, KC_HOME, KC_I, KC_J, KC_K, KC_KEYBOARD0, KC_KEYBOARD1, KC_KEYBOARD2, KC_KEYBOARD3, KC_KEYBOARD4, KC_KEYBOARD5, KC_KEYBOARD6, KC_KEYBOARD7, KC_KEYBOARD8, KC_KEYBOARD9, KC_L, KC_LEFT_ALT, KC_LEFT_ARROW, KC_LEFT_BRACE, KC_LEFT_CONTROL, KC_LEFT_GUI, KC_LEFT_SHIFT, KC_M, KC_MINUS, KC_N, KC_O, KC_P, KC_PAGE_DOWN, KC_PAGE_UP, KC_Q, KC_R, KC_RETURN_ENTER, KC_RIGHT_ARROW, KC_RIGHT_BRACE, KC_RIGHT_GUI, KC_S, KC_SEMICOLON, KC_SPACE, KC_T, KC_TAB, KC_U, KC_UP_ARROW, KC_V, KC_W, KC_X, KC_Y, KC_Z};
use crate::keyboard::keyboard::{KeyboardTrait, Ninja, NINJA_COLS, NINJA_LAYERS, NINJA_ROWS, NINJA_SIDES};
use crate::Keys;
use vstd::prelude::*;

verus! {

/// The key map that the keyboard starts with: letters and modifiers on the
/// first layer, function keys, digits and arrows on the second, nothing on
/// the other two. The bottom right key of the left side holds the second
/// layer while it is down.
pub open spec fn corne_default_keys() -> Keys {
    [
        [
            [
                [Key::Code(KC_ESCAPE), Key::Code(KC_Q), Key::Code(KC_W), Key::Code(KC_E), Key::Code(KC_R), Key::Code(KC_T)],
                [Key::Code(KC_TAB), Key::Code(KC_A), Key::Code(KC_S), Key::Code(KC_D), Key::Code(KC_F), Key::Code(KC_G)],
                [Key::Code(KC_LEFT_SHIFT), Key::Code(KC_Z), Key::Code(KC_X), Key::Code(KC_C), Key::Code(KC_V), Key::Code(KC_B)],
                [Key::NoKey, Key::NoKey, Key::NoKey, Key::Code(KC_LEFT_CONTROL), Key::Code(KC_LEFT_GUI), Key::Layer(LayerCMD::TMP(1))],
            ],
            [
                [Key::Code(KC_F1), Key::Code(KC_F2), Key::Code(KC_F3), Key::Code(KC_F4), Key::Code(KC_F5), Key::Code(KC_F6)],
                [Key::Code(KC_KEYBOARD1), Key::Code(KC_KEYBOARD1), Key::Code(KC_KEYBOARD2), Key::Code(KC_KEYBOARD3), Key::Code(KC_KEYBOARD4), Key::Code(KC_KEYBOARD5)],
                [Key::Code(KC_BACKSLASH), Key::Code(KC_Z), Key::Code(KC_X), Key::Code(KC_C), Key::Code(KC_V), Key::Code(KC_B)],
                [Key::NoKey, Key::NoKey, Key::NoKey, Key::Code(KC_LEFT_ALT), Key::Code(KC_RIGHT_GUI), Key::Layer(LayerCMD::TMP(1))],
            ],
            [
                [Key::NoKey, Key::NoKey, Key::NoKey, Key::NoKey, Key::NoKey, Key::NoKey],
                [Key::NoKey, Key::NoKey, Key::NoKey, Key::NoKey, Key::NoKey, Key::NoKey],
                [Key::NoKey, Key::NoKey, Key::NoKey, Key::NoKey, Key::NoKey, Key::NoKey],
                [Key::NoKey, Key::NoKey, Key::NoKey, Key::NoKey, Key::NoKey, Key::NoKey],
            ],
            [
                [Key::NoKey, Key::NoKey, Key::NoKey, Key::NoKey, Key::NoKey, Key::NoKey],
                [Key::NoKey, Key::NoKey, Key::NoKey, Key::NoKey, Key::NoKey, Key::NoKey],
                [Key::NoKey, Key::NoKey, Key::NoKey, Key::NoKey, Key::NoKey, Key::NoKey],
                [Key::NoKey, Key::NoKey, Key::NoKey, Key::NoKey, Key::NoKey, Key::NoKey],
            ],
        ],
        [
            [
                [Key::Code(KC_Y), Key::Code(KC_U), Key::Code(KC_I), Key::Code(KC_O), Key::Code(KC_P), Key::Code(KC_DELETE_BACKSPACE)],
                [Key::Code(KC_H), Key::Code(KC_J), Key::Code(KC_K), Key::Code(KC_L), Key::Code(KC_SEMICOLON), Key::Code(KC_BACKSLASH)],
                [Key::Code(KC_N), Key::Code(KC_M), Key::Code(KC_COMMA), Key::Code(KC_LEFT_BRACE), Key::Code(KC_RIGHT_BRACE), Key::Code(KC_APOSTROPHE)],
                [Key::Code(KC_RETURN_ENTER), Key::Code(KC_SPACE), Key::Code(KC_DOT), Key::NoKey, Key::NoKey, Key::NoKey],
            ],
            [
                [Key::Code(KC_F7), Key::Code(KC_F8), Key::Code(KC_F9), Key::Code(KC_F10), Key::Code(KC_F11), Key::Code(KC_F12)],
                [Key::Code(KC_KEYBOARD6), Key::Code(KC_UP_ARROW), Key::Code(KC_KEYBOARD7), Key::Code(KC_KEYBOARD8), Key::Code(KC_KEYBOARD9), Key::Code(KC_KEYBOARD0)],
                [Key::Code(KC_LEFT_ARROW), Key::Code(KC_DOWN_ARROW), Key::Code(KC_RIGHT_ARROW), Key::Code(KC_PAGE_UP), Key::Code(KC_PAGE_DOWN), Key::Code(KC_MINUS)],
                [Key::Code(KC_DELETE_FORWARD), Key::Code(KC_HOME), Key::Code(KC_END), Key::NoKey, Key::NoKey, Key::NoKey],
            ],
            [
                [Key::NoKey, Key::NoKey, Key::NoKey, Key::NoKey, Key::NoKey, Key::NoKey],
                [Key::NoKey, Key::NoKey, Key::NoKey, Key::NoKey, Key::NoKey, Key::NoKey],
                [Key::NoKey, Key::NoKey, Key::NoKey, Key::NoKey, Key::NoKey, Key::NoKey],
                [Key::NoKey, Key::NoKey, Key::NoKey, Key::NoKey, Key::NoKey, Key::NoKey],
            ],
            [
                [Key::NoKey, Key::NoKey, Key::NoKey, Key::NoKey, Key::NoKey, Key::NoKey],
                [Key::NoKey, Key::NoKey, Key::NoKey, Key::NoKey, Key::NoKey, Key::NoKey],
                [Key::NoKey, Key::NoKey, Key::NoKey, Key::NoKey, Key::NoKey, Key::NoKey],
                [Key::NoKey, Key::NoKey, Key::NoKey, Key::NoKey, Key::NoKey, Key::NoKey],
            ],
        ],
    ]
}

/// The key map the keyboard starts with, row by row, as HID usage ids:
/// QWERTY letters, Tab, Shift, Control, GUI and the held second layer on
/// the left; Y to P, Backspace, Enter, Space and punctuation on the right;
/// function keys, digits and arrows on the second layer; nothing on the
/// third and fourth.
pub proof fn lemma_default_layout()
    ensures
        ({
            let k = corne_default_keys();
            &&& k[0][0][0] == [Key::Code(0x29u8), Key::Code(0x14u8), Key::Code(0x1Au8), Key::Code(0x08u8), Key::Code(0x15u8), Key::Code(0x17u8)]
            &&& k[0][0][1] == [Key::Code(0x2Bu8), Key::Code(0x04u8), Key::Code(0x16u8), Key::Code(0x07u8), Key::Code(0x09u8), Key::Code(0x0Au8)]
            &&& k[0][0][2] == [Key::Code(0xE1u8), Key::Code(0x1Du8), Key::Code(0x1Bu8), Key::Code(0x06u8), Key::Code(0x19u8), Key::Code(0x05u8)]
            &&& k[0][0][3] == [Key::NoKey, Key::NoKey, Key::NoKey, Key::Code(0xE0u8), Key::Code(0xE3u8), Key::Layer(LayerCMD::TMP(1))]
            &&& k[0][1][0] == [Key::Code(0x3Au8), Key::Code(0x3Bu8), Key::Code(0x3Cu8), Key::Code(0x3Du8), Key::Code(0x3Eu8), Key::Code(0x3Fu8)]
            &&& k[0][1][1] == [Key::Code(0x1Eu8), Key::Code(0x1Eu8), Key::Code(0x1Fu8), Key::Code(0x20u8), Key::Code(0x21u8), Key::Code(0x22u8)]
            &&& k[0][1][2] == [Key::Code(0x31u8), Key::Code(0x1Du8), Key::Code(0x1Bu8), Key::Code(0x06u8), Key::Code(0x19u8), Key::Code(0x05u8)]
            &&& k[0][1][3] == [Key::NoKey, Key::NoKey, Key::NoKey, Key::Code(0xE2u8), Key::Code(0xE7u8), Key::Layer(LayerCMD::TMP(1))]
            &&& k[0][2][0] == [Key::NoKey, Key::NoKey, Key::NoKey, Key::NoKey, Key::NoKey, Key::NoKey]
            &&& k[0][2][1] == [Key::NoKey, Key::NoKey, Key::NoKey, Key::NoKey, Key::NoKey, Key::NoKey]
            &&& k[0][2][2] == [Key::NoKey, Key::NoKey, Key::NoKey, Key::NoKey, Key::NoKey, Key::NoKey]
            &&& k[0][2][3] == [Key::NoKey, Key::NoKey, Key::NoKey, Key::NoKey, Key::NoKey, Key::NoKey]
            &&& k[0][3][0] == [Key::NoKey, Key::NoKey, Key::NoKey, Key::NoKey, Key::NoKey, Key::NoKey]
            &&& k[0][3][1] == [Key::NoKey, Key::NoKey, Key::NoKey, Key::NoKey, Key::NoKey, Key::NoKey]
            &&& k[0][3][2] == [Key::NoKey, Key::NoKey, Key::NoKey, Key::NoKey, Key::NoKey, Key::NoKey]
            &&& k[0][3][3] == [Key::NoKey, Key::NoKey, Key::NoKey, Key::NoKey, Key::NoKey, Key::NoKey]
            &&& k[1][0][0] == [Key::Code(0x1Cu8), Key::Code(0x18u8), Key::Code(0x0Cu8), Key::Code(0x12u8), Key::Code(0x13u8), Key::Code(0x2Au8)]
            &&& k[1][0][1] == [Key::Code(0x0Bu8), Key::Code(0x0Du8), Key::Code(0x0Eu8), Key::Code(0x0Fu8), Key::Code(0x33u8), Key::Code(0x31u8)]
            &&& k[1][0][2] == [Key::Code(0x11u8), Key::Code(0x10u8), Key::Code(0x36u8), Key::Code(0x2Fu8), Key::Code(0x30u8), Key::Code(0x34u8)]
            &&& k[1][0][3] == [Key::Code(0x28u8), Key::Code(0x2Cu8), Key::Code(0x37u8), Key::NoKey, Key::NoKey, Key::NoKey]
            &&& k[1][1][0] == [Key::Code(0x40u8), Key::Code(0x41u8), Key::Code(0x42u8), Key::Code(0x43u8), Key::Code(0x44u8), Key::Code(0x45u8)]
            &&& k[1][1][1] == [Key::Code(0x23u8), Key::Code(0x52u8), Key::Code(0x24u8), Key::Code(0x25u8), Key::Code(0x26u8), Key::Code(0x27u8)]
            &&& k[1][1][2] == [Key::Code(0x50u8), Key::Code(0x51u8), Key::Code(0x4Fu8), Key::Code(0x4Bu8), Key::Code(0x4Eu8), Key::Code(0x2Du8)]
            &&& k[1][1][3] == [Key::Code(0x4Cu8), Key::Code(0x4Au8), Key::Code(0x4Du8), Key::NoKey, Key::NoKey, Key::NoKey]
            &&& k[1][2][0] == [Key::NoKey, Key::NoKey, Key::NoKey, Key::NoKey, Key::NoKey, Key::NoKey]
            &&& k[1][2][1] == [Key::NoKey, Key::NoKey, Key::NoKey, Key::NoKey, Key::NoKey, Key::NoKey]
            &&& k[1][2][2] == [Key::NoKey, Key::NoKey, Key::NoKey, Key::NoKey, Key::NoKey, Key::NoKey]
            &&& k[1][2][3] == [Key::NoKey, Key::NoKey, Key::NoKey, Key::NoKey, Key::NoKey, Key::NoKey]
            &&& k[1][3][0] == [Key::NoKey, Key::NoKey, Key::NoKey, Key::NoKey, Key::NoKey, Key::NoKey]
            &&& k[1][3][1] == [Key::NoKey, Key::NoKey, Key::NoKey, Key::NoKey, Key::NoKey, Key::NoKey]
            &&& k[1][3][2] == [Key::NoKey, Key::NoKey, Key::NoKey, Key::NoKey, Key::NoKey, Key::NoKey]
            &&& k[1][3][3] == [Key::NoKey, Key::NoKey, Key::NoKey, Key::NoKey, Key::NoKey, Key::NoKey]
        }),
{
}

impl KeyboardTrait for Ninja {
    const MODEL: u8 = 1;
    const COLS: usize = NINJA_COLS;
    const ROWS: usize = NINJA_ROWS;
    const MAIN: usize = 0;
    const SECONDARY: usize = 1;
    const LAYERS: usize = NINJA_LAYERS;
    const SIDES: usize = NINJA_SIDES;

    fn get_default_keys() -> (keys: Keys)
        ensures
            keys == corne_default_keys(),
            forall|s: int, l: int, r: int, c: int| key_pos(s, l, r, c) ==> key_wf(#[trigger] keys[s][l][r][c]),
    {
        proof {
            lemma_default_keys_survive_bytes();
        }
        [
            [
                [
                    [Key::Code(KC_ESCAPE), Key::Code(KC_Q), Key::Code(KC_W), Key::Code(KC_E), Key::Code(KC_R), Key::Code(KC_T)],
                    [Key::Code(KC_TAB), Key::Code(KC_A), Key::Code(KC_S), Key::Code(KC_D), Key::Code(KC_F), Key::Code(KC_G)],
                    [Key::Code(KC_LEFT_SHIFT), Key::Code(KC_Z), Key::Code(KC_X), Key::Code(KC_C), Key::Code(KC_V), Key::Code(KC_B)],
                    [Key::NoKey, Key::NoKey, Key::NoKey, Key::Code(KC_LEFT_CONTROL), Key::Code(KC_LEFT_GUI), Key::Layer(LayerCMD::TMP(1))],
                ],
                [
                    [Key::Code(KC_F1), Key::Code(KC_F2), Key::Code(KC_F3), Key::Code(KC_F4), Key::Code(KC_F5), Key::Code(KC_F6)],
                    [Key::Code(KC_KEYBOARD1), Key::Code(KC_KEYBOARD1), Key::Code(KC_KEYBOARD2), Key::Code(KC_KEYBOARD3), Key::Code(KC_KEYBOARD4), Key::Code(KC_KEYBOARD5)],
                    [Key::Code(KC_BACKSLASH), Key::Code(KC_Z), Key::Code(KC_X), Key::Code(KC_C), Key::Code(KC_V), Key::Code(KC_B)],
                    [Key::NoKey, Key::NoKey, Key::NoKey, Key::Code(KC_LEFT_ALT), Key::Code(KC_RIGHT_GUI), Key::Layer(LayerCMD::TMP(1))],
                ],
                [
                    [Key::NoKey, Key::NoKey, Key::NoKey, Key::NoKey, Key::NoKey, Key::NoKey],
                    [Key::NoKey, Key::NoKey, Key::NoKey, Key::NoKey, Key::NoKey, Key::NoKey],
                    [Key::NoKey, Key::NoKey, Key::NoKey, Key::NoKey, Key::NoKey, Key::NoKey],
                    [Key::NoKey, Key::NoKey, Key::NoKey, Key::NoKey, Key::NoKey, Key::NoKey],
                ],
                [
                    [Key::NoKey, Key::NoKey, Key::NoKey, Key::NoKey, Key::NoKey, Key::NoKey],
                    [Key::NoKey, Key::NoKey, Key::NoKey, Key::NoKey, Key::NoKey, Key::NoKey],
                    [Key::NoKey, Key::NoKey, Key::NoKey, Key::NoKey, Key::NoKey, Key::NoKey],
                    [Key::NoKey, Key::NoKey, Key::NoKey, Key::NoKey, Key::NoKey, Key::NoKey],
                ],
            ],
            [
                [
                    [Key::Code(KC_Y), Key::Code(KC_U), Key::Code(KC_I), Key::Code(KC_O), Key::Code(KC_P), Key::Code(KC_DELETE_BACKSPACE)],
                    [Key::Code(KC_H), Key::Code(KC_J), Key::Code(KC_K), Key::Code(KC_L), Key::Code(KC_SEMICOLON), Key::Code(KC_BACKSLASH)],
                    [Key::Code(KC_N), Key::Code(KC_M), Key::Code(KC_COMMA), Key::Code(KC_LEFT_BRACE), Key::Code(KC_RIGHT_BRACE), Key::Code(KC_APOSTROPHE)],
                    [Key::Code(KC_RETURN_ENTER), Key::Code(KC_SPACE), Key::Code(KC_DOT), Key::NoKey, Key::NoKey, Key::NoKey],
                ],
                [
                    [Key::Code(KC_F7), Key::Code(KC_F8), Key::Code(KC_F9), Key::Code(KC_F10), Key::Code(KC_F11), Key::Code(KC_F12)],
                    [Key::Code(KC_KEYBOARD6), Key::Code(KC_UP_ARROW), Key::Code(KC_KEYBOARD7), Key::Code(KC_KEYBOARD8), Key::Code(KC_KEYBOARD9), Key::Code(KC_KEYBOARD0)],
                    [Key::Code(KC_LEFT_ARROW), Key::Code(KC_DOWN_ARROW), Key::Code(KC_RIGHT_ARROW), Key::Code(KC_PAGE_UP), Key::Code(KC_PAGE_DOWN), Key::Code(KC_MINUS)],
                    [Key::Code(KC_DELETE_FORWARD), Key::Code(KC_HOME), Key::Code(KC_END), Key::NoKey, Key::NoKey, Key::NoKey],
                ],
                [
                    [Key::NoKey, Key::NoKey, Key::NoKey, Key::NoKey, Key::NoKey, Key::NoKey],
                    [Key::NoKey, Key::NoKey, Key::NoKey, Key::NoKey, Key::NoKey, Key::NoKey],
                    [Key::NoKey, Key::NoKey, Key::NoKey, Key::NoKey, Key::NoKey, Key::NoKey],
                    [Key::NoKey, Key::NoKey, Key::NoKey, Key::NoKey, Key::NoKey, Key::NoKey],
                ],
                [
                    [Key::NoKey, Key::NoKey, Key::NoKey, Key::NoKey, Key::NoKey, Key::NoKey],
                    [Key::NoKey, Key::NoKey, Key::NoKey, Key::NoKey, Key::NoKey, Key::NoKey],
                    [Key::NoKey, Key::NoKey, Key::NoKey, Key::NoKey, Key::NoKey, Key::NoKey],
                    [Key::NoKey, Key::NoKey, Key::NoKey, Key::NoKey, Key::NoKey, Key::NoKey],
                ],
            ],
        ]
    }
}

/// Every key of the map the keyboard starts with comes back unchanged from
/// its two bytes: the map survives being stored in the EEPROM and being
/// sent in configuration reports.
pub proof fn lemma_default_keys_survive_bytes()
    ensures
        forall|s: int, l: int, r: int, c: int|
            key_pos(s, l, r, c) ==> key_survives_bytes(#[trigger] corne_default_keys()[s][l][r][c]),
{
    let keys = corne_default_keys();
    assert forall|s: int, l: int, r: int, c: int| key_pos(s, l, r, c) implies key_survives_bytes(
        #[trigger] keys[s][l][r][c],
    ) by {
        assert(s == 0 || s == 1);
        assert(l == 0 || l == 1 || l == 2 || l == 3);
        assert(r == 0 || r == 1 || r == 2 || r == 3);
        assert(c == 0 || c == 1 || c == 2 || c == 3 || c == 4 || c == 5);
    }
}

} // verus!
