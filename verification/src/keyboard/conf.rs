//! Byte encodings of keys: two bytes per key, and the 64-byte report of the
//! configuration protocol that carries one side and layer of the map.

use crate::keyboard::key::{key_wf, keyboard_code, keyboard_code_of, Key, LayerCMD};
use crate::keyboard::keyboard::{NINJA_COLS, NINJA_LAYERS, NINJA_ROWS, NINJA_SIDES};
use crate::{Keys, Side};
use vstd::prelude::*;

verus! {

/// Bytes per key in a configuration report.
pub const CONF_KEY_BYTES: usize = 2;
/// Bytes of the whole map: a mark of two bytes, then two bytes per key.
pub const CONF_SIZE: usize = NINJA_COLS * NINJA_ROWS * NINJA_LAYERS * NINJA_SIDES * CONF_KEY_BYTES + 2;
/// Bytes of a configuration report.
pub const REPORT_SIZE: usize = 64;
/// Where the keys start in a configuration report.
pub const REPORT_KEYS_START: usize = 4;

/// The two bytes of a key: a tag, then its argument.
pub open spec fn spec_serialize_key(key: Key) -> (u8, u8) {
    match key {
        Key::Code(code) => (0, code),
        Key::Layer(LayerCMD::TMP(l)) => (1, l),
        Key::Layer(LayerCMD::NEXT) => (2, 0),
        Key::Layer(LayerCMD::PREV) => (3, 0),
        Key::Layer(LayerCMD::FIRST) => (4, 0),
        Key::Layer(LayerCMD::LAST) => (5, 0),
        Key::Layer(LayerCMD::SET(l)) => (5, l),
        Key::NoKey => (255, 0),
    }
}

/// The key that two bytes stand for; an unknown tag stands for no key.
pub open spec fn spec_deserialize_key(b1: u8, b2: u8) -> Key {
    if b1 == 0 {
        Key::Code(keyboard_code(b2))
    } else if b1 == 1 {
        Key::Layer(LayerCMD::TMP(b2))
    } else if b1 == 2 {
        Key::Layer(LayerCMD::NEXT)
    } else if b1 == 3 {
        Key::Layer(LayerCMD::PREV)
    } else if b1 == 4 {
        Key::Layer(LayerCMD::FIRST)
    } else if b1 == 5 {
        Key::Layer(LayerCMD::LAST)
    } else if b1 == 6 {
        Key::Layer(LayerCMD::SET(b2))
    } else {
        Key::NoKey
    }
}

/// The keys that come back unchanged from their two bytes: well-formed
/// keys other than `SET`, whose tag is that of `LAST`.
pub open spec fn key_survives_bytes(key: Key) -> bool {
    match key {
        Key::Layer(LayerCMD::SET(_)) => false,
        _ => key_wf(key),
    }
}

/// Encodes a key as two bytes.
pub fn serialize_key(key: &Key) -> (r: (u8, u8))
    ensures
        r == spec_serialize_key(*key),
        key is Code ==> r == (0u8, key->Code_0),
        *key == Key::Layer(LayerCMD::NEXT) ==> r == (2u8, 0u8),
        *key == Key::Layer(LayerCMD::PREV) ==> r == (3u8, 0u8),
        *key == Key::Layer(LayerCMD::FIRST) ==> r == (4u8, 0u8),
        *key == Key::Layer(LayerCMD::LAST) ==> r == (5u8, 0u8),
        key is NoKey ==> r == (255u8, 0u8),
        *key matches Key::Layer(LayerCMD::TMP(l)) ==> r == (1u8, l),
        *key matches Key::Layer(LayerCMD::SET(l)) ==> r == (5u8, l),
{
    match key {
        Key::Code(code) => (0, *code),
        Key::Layer(lcmd) => match lcmd {
            LayerCMD::TMP(l) => (1, *l),
            LayerCMD::NEXT => (2, 0),
            LayerCMD::PREV => (3, 0),
            LayerCMD::FIRST => (4, 0),
            LayerCMD::LAST => (5, 0),
            LayerCMD::SET(l) => (5, *l),
        },
        Key::NoKey => (255, 0),
    }
}

/// Decodes the two bytes of a key.
pub fn deserialize_key(b1: u8, b2: u8) -> (r: Key)
    ensures
        r == spec_deserialize_key(b1, b2),
        key_wf(r),
        b1 == 0 && (b2 <= 0xA4 || (0xE0 <= b2 && b2 <= 0xE7)) ==> r == Key::Code(b2),
        b1 == 0 && !(b2 <= 0xA4 || (0xE0 <= b2 && b2 <= 0xE7)) ==> r == Key::Code(0),
        b1 == 1 ==> r == Key::Layer(LayerCMD::TMP(b2)),
        b1 == 2 ==> r == Key::Layer(LayerCMD::NEXT),
        b1 == 3 ==> r == Key::Layer(LayerCMD::PREV),
        b1 == 4 ==> r == Key::Layer(LayerCMD::FIRST),
        b1 == 5 ==> r == Key::Layer(LayerCMD::LAST),
        b1 == 6 ==> r == Key::Layer(LayerCMD::SET(b2)),
        b1 > 6 ==> r == Key::NoKey,
{
    match b1 {
        0 => Key::Code(keyboard_code_of(b2)),
        1 => Key::Layer(LayerCMD::TMP(b2)),
        2 => Key::Layer(LayerCMD::NEXT),
        3 => Key::Layer(LayerCMD::PREV),
        4 => Key::Layer(LayerCMD::FIRST),
        5 => Key::Layer(LayerCMD::LAST),
        6 => Key::Layer(LayerCMD::SET(b2)),
        255 => Key::NoKey,
        _ => Key::NoKey,
    }
}

/// The bytes of a code key are tag 0 and the code itself, and tag 0 with
/// a byte that the keyboard page names decodes to that very code.
pub proof fn lemma_code_bytes(code: u8, b: u8)
    ensures
        spec_serialize_key(Key::Code(code)) == (0u8, code),
        (b <= 0xA4 || (0xE0 <= b && b <= 0xE7)) ==> spec_deserialize_key(0, b) == Key::Code(b),
        !(b <= 0xA4 || (0xE0 <= b && b <= 0xE7)) ==> spec_deserialize_key(0, b) == Key::Code(0),
{
}

/// Decoding the bytes of a key gives the key back, for every key but
/// `SET`, whose tag is that of `LAST`, and codes that the keyboard page
/// does not name.
pub proof fn lemma_key_bytes_roundtrip(key: Key)
    requires
        key_survives_bytes(key),
    ensures
        spec_deserialize_key(spec_serialize_key(key).0, spec_serialize_key(key).1) == key,
{
}

/// Where the first byte of the key at `row`, `col` stands in a
/// configuration report.
pub open spec fn report_key_offset(row: int, col: int) -> int {
    REPORT_KEYS_START + CONF_KEY_BYTES * (row * NINJA_COLS + col)
}

/// The keys of a configuration report follow its four header bytes, two
/// bytes each, row by row, each in its own place before byte 52.
pub proof fn lemma_report_key_offset(r: int, c: int, r2: int, c2: int)
    requires
        0 <= r < NINJA_ROWS && 0 <= c < NINJA_COLS,
        0 <= r2 < NINJA_ROWS && 0 <= c2 < NINJA_COLS,
    ensures
        report_key_offset(r, c) == 4 + 2 * (6 * r + c),
        4 <= report_key_offset(r, c) && report_key_offset(r, c) + 1 < 52,
        report_key_offset(r, c) == report_key_offset(r2, c2) ==> r == r2 && c == c2,
        report_key_offset(r, c) != report_key_offset(r2, c2) + 1,
{
}

/// The key that a configuration report holds for `row`, `col`.
pub open spec fn report_key(bytes: [u8; 64], row: int, col: int) -> Key {
    spec_deserialize_key(
        bytes[report_key_offset(row, col)],
        bytes[report_key_offset(row, col) + 1],
    )
}

/// Whether a configuration report names a side and layer of the map.
pub open spec fn report_in_range(bytes: [u8; 64]) -> bool {
    bytes[2] < NINJA_SIDES && bytes[3] < NINJA_LAYERS
}

/// The map after a configuration report was applied to it.
pub open spec fn keys_after_report(keys: Keys, bytes: [u8; 64], s: int, l: int, r: int, c: int) -> Key {
    if report_in_range(bytes) && s == bytes[2] && l == bytes[3] {
        report_key(bytes, r, c)
    } else {
        keys[s][l][r][c]
    }
}

/// A configuration report that carries the keys of one side and layer:
/// the report's kind (1), a reserved byte, side, layer, then the two bytes
/// of each key, row by row.
pub open spec fn report_holds_side(bytes: [u8; 64], side: u8, layer: u8, side_data: Side) -> bool {
    &&& bytes[0] == 1
    &&& bytes[1] == 0
    &&& bytes[2] == side
    &&& bytes[3] == layer
    &&& forall|r: int, c: int|
        #![trigger side_data[r][c]]
        0 <= r < NINJA_ROWS && 0 <= c < NINJA_COLS ==> {
            &&& bytes[report_key_offset(r, c)] == spec_serialize_key(side_data[r][c]).0
            &&& bytes[report_key_offset(r, c) + 1] == spec_serialize_key(side_data[r][c]).1
        }
}

/// Writes the keys of one side and layer into a configuration report:
/// the report's kind (1), a reserved byte, side, layer, then the keys row
/// by row. Bytes after the keys are left as they were.
pub fn serialize_keys(side: u8, layer: u8, side_data: &Side, bytes: &mut [u8; 64])
    ensures
        report_holds_side(*final(bytes), side, layer, *side_data),
        forall|j: int|
            REPORT_KEYS_START + CONF_KEY_BYTES * NINJA_ROWS * NINJA_COLS <= j < 64
                ==> #[trigger] final(bytes)[j] == old(bytes)[j],
{
    let mut i: usize = 4;
    bytes[0] = 1;
    bytes[1] = 0;
    bytes[2] = side;
    bytes[3] = layer;
    let mut row: usize = 0;
    while row < NINJA_ROWS
        invariant
            row <= NINJA_ROWS,
            i == report_key_offset(row as int, 0),
            bytes[0] == 1,
            bytes[1] == 0,
            bytes[2] == side,
            bytes[3] == layer,
            forall|r: int, c: int|
                #![trigger side_data[r][c]]
                0 <= r < row && 0 <= c < NINJA_COLS ==> {
                    &&& bytes[report_key_offset(r, c)] == spec_serialize_key(side_data[r][c]).0
                    &&& bytes[report_key_offset(r, c) + 1] == spec_serialize_key(side_data[r][c]).1
                },
            forall|j: int| i <= j < 64 ==> #[trigger] bytes[j] == old(bytes)[j],
        decreases NINJA_ROWS - row,
    {
        let mut col: usize = 0;
        while col < NINJA_COLS
            invariant
                row < NINJA_ROWS,
                col <= NINJA_COLS,
                i == report_key_offset(row as int, col as int),
                bytes[0] == 1,
                bytes[1] == 0,
                bytes[2] == side,
                bytes[3] == layer,
                forall|r: int, c: int|
                    #![trigger side_data[r][c]]
                    0 <= r < NINJA_ROWS && 0 <= c < NINJA_COLS && (r < row || (r == row && c < col)) ==> {
                        &&& bytes[report_key_offset(r, c)] == spec_serialize_key(side_data[r][c]).0
                        &&& bytes[report_key_offset(r, c) + 1] == spec_serialize_key(side_data[r][c]).1
                    },
                forall|j: int| i <= j < 64 ==> #[trigger] bytes[j] == old(bytes)[j],
            decreases NINJA_COLS - col,
        {
            let k = serialize_key(&side_data[row][col]);
            if i + 1 < 64 {
                bytes[i] = k.0;
                bytes[i + 1] = k.1;
            }
            i += 2;
            col += 1;
        }
        row += 1;
    }
}

/// Applies a configuration report to the map: where its side and layer
/// name a part of the map, that part takes the report's keys; else the map
/// stays as it was.
pub fn deserialize_keys(bytes: &[u8; 64], keys: &mut Keys)
    ensures
        forall|s: int, l: int, r: int, c: int|
            0 <= s < NINJA_SIDES && 0 <= l < NINJA_LAYERS && 0 <= r < NINJA_ROWS && 0 <= c < NINJA_COLS
                ==> #[trigger] final(keys)[s][l][r][c] == keys_after_report(*old(keys), *bytes, s, l, r, c),
{
    let side = bytes[2] as usize;
    let layer = bytes[3] as usize;
    let mut k: usize = 4;
    let mut row: usize = 0;
    while row < NINJA_ROWS
        invariant
            side == bytes[2],
            layer == bytes[3],
            row <= NINJA_ROWS,
            k == report_key_offset(row as int, 0),
            forall|s: int, l: int, r: int, c: int|
                0 <= s < NINJA_SIDES && 0 <= l < NINJA_LAYERS && 0 <= r < NINJA_ROWS && 0 <= c < NINJA_COLS
                    ==> #[trigger] keys[s][l][r][c] == (if r < row {
                        keys_after_report(*old(keys), *bytes, s, l, r, c)
                    } else {
                        old(keys)[s][l][r][c]
                    }),
        decreases NINJA_ROWS - row,
    {
        let mut col: usize = 0;
        while col < NINJA_COLS
            invariant
                side == bytes[2],
                layer == bytes[3],
                row < NINJA_ROWS,
                col <= NINJA_COLS,
                k == report_key_offset(row as int, col as int),
                forall|s: int, l: int, r: int, c: int|
                    0 <= s < NINJA_SIDES && 0 <= l < NINJA_LAYERS && 0 <= r < NINJA_ROWS && 0 <= c < NINJA_COLS
                        ==> #[trigger] keys[s][l][r][c] == (if r < row || (r == row && c < col) {
                            keys_after_report(*old(keys), *bytes, s, l, r, c)
                        } else {
                            old(keys)[s][l][r][c]
                        }),
            decreases NINJA_COLS - col,
        {
            let key = deserialize_key(bytes[k], bytes[k + 1]);
            if side < NINJA_SIDES && layer < NINJA_LAYERS {
                keys[side][layer][row][col] = key;
            }
            if k + 1 < 64 {
                k += 2;
            }
            col += 1;
        }
        row += 1;
    }
}

/// Sending back what was asked for: a report written for a side and layer
/// of one map, applied to any map, gives it that side and layer's keys and
/// leaves the rest, as long as those keys come back unchanged from their
/// two bytes.
pub proof fn lemma_report_roundtrip(side: u8, layer: u8, src: Keys, bytes: [u8; 64], dst: Keys)
    requires
        side < NINJA_SIDES,
        layer < NINJA_LAYERS,
        report_holds_side(bytes, side, layer, src[side as int][layer as int]),
        forall|r: int, c: int|
            0 <= r < NINJA_ROWS && 0 <= c < NINJA_COLS ==> key_survives_bytes(
                #[trigger] src[side as int][layer as int][r][c],
            ),
    ensures
        forall|s: int, l: int, r: int, c: int|
            0 <= s < NINJA_SIDES && 0 <= l < NINJA_LAYERS && 0 <= r < NINJA_ROWS && 0 <= c < NINJA_COLS
                ==> #[trigger] keys_after_report(dst, bytes, s, l, r, c) == if s == side && l == layer {
                src[s][l][r][c]
            } else {
                dst[s][l][r][c]
            },
{
    assert forall|s: int, l: int, r: int, c: int|
        0 <= s < NINJA_SIDES && 0 <= l < NINJA_LAYERS && 0 <= r < NINJA_ROWS && 0 <= c < NINJA_COLS && s == side
            && l == layer implies #[trigger] keys_after_report(dst, bytes, s, l, r, c) == src[s][l][r][c] by {
        let k = src[side as int][layer as int][r][c];
        lemma_key_bytes_roundtrip(k);
    }
}

} // verus!
