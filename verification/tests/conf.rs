use ninja_keyboard::keyboard::conf::{deserialize_key, deserialize_keys, serialize_key, serialize_keys};
use ninja_keyboard::keyboard::key::{Key, LayerCMD, KC_ESCAPE, KC_LEFT_GUI, KC_NO_EVENT, KC_Q};
use ninja_keyboard::keyboard::keyboard::KeyboardTrait;
use ninja_keyboard::keyboard::keyboard::Ninja;
use ninja_keyboard::Keys;

#[test]
fn serialize_key_tags() {
    assert_eq!(serialize_key(&Key::Code(KC_ESCAPE)), (0, 0x29));
    assert_eq!(serialize_key(&Key::Layer(LayerCMD::TMP(1))), (1, 1));
    assert_eq!(serialize_key(&Key::Layer(LayerCMD::NEXT)), (2, 0));
    assert_eq!(serialize_key(&Key::Layer(LayerCMD::PREV)), (3, 0));
    assert_eq!(serialize_key(&Key::Layer(LayerCMD::FIRST)), (4, 0));
    assert_eq!(serialize_key(&Key::Layer(LayerCMD::LAST)), (5, 0));
    assert_eq!(serialize_key(&Key::Layer(LayerCMD::SET(2))), (5, 2));
    assert_eq!(serialize_key(&Key::NoKey), (255, 0));
}

#[test]
fn deserialize_key_tags() {
    assert_eq!(deserialize_key(0, 0x29), Key::Code(KC_ESCAPE));
    assert_eq!(deserialize_key(1, 3), Key::Layer(LayerCMD::TMP(3)));
    assert_eq!(deserialize_key(2, 9), Key::Layer(LayerCMD::NEXT));
    assert_eq!(deserialize_key(3, 0), Key::Layer(LayerCMD::PREV));
    assert_eq!(deserialize_key(4, 0), Key::Layer(LayerCMD::FIRST));
    assert_eq!(deserialize_key(5, 7), Key::Layer(LayerCMD::LAST));
    assert_eq!(deserialize_key(6, 2), Key::Layer(LayerCMD::SET(2)));
    assert_eq!(deserialize_key(255, 0), Key::NoKey);
    assert_eq!(deserialize_key(7, 1), Key::NoKey);
    assert_eq!(deserialize_key(200, 1), Key::NoKey);
}

#[test]
fn deserialize_key_maps_unknown_codes_to_no_event() {
    // 0xA5..=0xDF and 0xE8.. are reserved on the keyboard page.
    assert_eq!(deserialize_key(0, 0xB0), Key::Code(KC_NO_EVENT));
    assert_eq!(deserialize_key(0, 0xE8), Key::Code(KC_NO_EVENT));
    assert_eq!(deserialize_key(0, 0xFF), Key::Code(KC_NO_EVENT));
    assert_eq!(deserialize_key(0, 0xA4), Key::Code(0xA4));
    assert_eq!(deserialize_key(0, 0xE7), Key::Code(0xE7));
}

#[test]
fn key_bytes_roundtrip() {
    let keys = [
        Key::Code(KC_Q),
        Key::Code(KC_LEFT_GUI),
        Key::Layer(LayerCMD::TMP(1)),
        Key::Layer(LayerCMD::NEXT),
        Key::Layer(LayerCMD::PREV),
        Key::Layer(LayerCMD::FIRST),
        Key::Layer(LayerCMD::LAST),
        Key::NoKey,
    ];
    for k in keys.iter() {
        let (a, b) = serialize_key(k);
        assert_eq!(deserialize_key(a, b), *k);
    }
}

#[test]
fn set_key_comes_back_as_last() {
    let (a, b) = serialize_key(&Key::Layer(LayerCMD::SET(2)));
    assert_eq!(deserialize_key(a, b), Key::Layer(LayerCMD::LAST));
}

#[test]
fn serialize_keys_layout() {
    let keys = Ninja::get_default_keys();
    let mut bytes = [0xEEu8; 64];
    serialize_keys(1, 0, &keys[1][0], &mut bytes);
    assert_eq!(&bytes[0..4], &[1, 0, 1, 0]);
    // first key of the right side: Y
    assert_eq!(&bytes[4..6], &[0, 0x1C]);
    // last key of row 0: DeleteBackspace
    assert_eq!(&bytes[14..16], &[0, 0x2A]);
    // row 3, col 3: NoKey
    assert_eq!(&bytes[4 + 2 * 21..4 + 2 * 21 + 2], &[255, 0]);
    for j in 52..64 {
        assert_eq!(bytes[j], 0xEE);
    }
}

#[test]
fn deserialize_keys_sets_one_side_and_layer() {
    let mut keys: Keys = Ninja::get_default_keys();
    let before = keys;
    let mut bytes = [0u8; 64];
    bytes[0] = 1;
    bytes[2] = 0;
    bytes[3] = 2;
    for i in 0..24 {
        bytes[4 + 2 * i] = 0;
        bytes[5 + 2 * i] = 0x04 + i as u8;
    }
    deserialize_keys(&bytes, &mut keys);
    for r in 0..4 {
        for c in 0..6 {
            assert_eq!(keys[0][2][r][c], Key::Code(0x04 + (r * 6 + c) as u8));
        }
    }
    for s in 0..2 {
        for l in 0..4 {
            if s == 0 && l == 2 {
                continue;
            }
            assert_eq!(keys[s][l], before[s][l]);
        }
    }
}

#[test]
fn deserialize_keys_out_of_range_changes_nothing() {
    let mut keys: Keys = Ninja::get_default_keys();
    let before = keys;
    let mut bytes = [0u8; 64];
    bytes[2] = 2;
    bytes[3] = 0;
    deserialize_keys(&bytes, &mut keys);
    assert_eq!(keys, before);
    bytes[2] = 0;
    bytes[3] = 4;
    deserialize_keys(&bytes, &mut keys);
    assert_eq!(keys, before);
}

#[test]
fn report_roundtrip_copies_side_and_layer() {
    let src: Keys = Ninja::get_default_keys();
    let mut dst: Keys = [[[[Key::NoKey; 6]; 4]; 4]; 2];
    let mut bytes = [0u8; 64];
    serialize_keys(1, 1, &src[1][1], &mut bytes);
    deserialize_keys(&bytes, &mut dst);
    assert_eq!(dst[1][1], src[1][1]);
    assert_eq!(dst[0][0], [[Key::NoKey; 6]; 4]);
}
