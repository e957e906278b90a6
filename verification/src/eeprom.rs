//! The image of the key map kept in the configuration EEPROM.
//!
//! The image starts with a mark byte and a spare byte; the two bytes of each
//! key follow, side by side, layer by layer, column by column and row by
//! row; zeros fill the rest of the last page. It is written page by page
//! and read back in one piece.

use crate::keyboard::conf::{
    deserialize_key, key_survives_bytes, lemma_key_bytes_roundtrip, serialize_key, spec_deserialize_key,
    spec_serialize_key, CONF_SIZE,
};
use crate::keyboard::keyboard::{NINJA_COLS, NINJA_LAYERS, NINJA_ROWS, NINJA_SIDES};
use crate::keyboard::key::Key;
use crate::Keys;
use vstd::prelude::*;

verus! {

/// Bytes of an EEPROM page.
pub const PAGE_SIZE: usize = 32;
/// Pages that the image takes.
pub const CONF_PAGES: usize = CONF_SIZE / PAGE_SIZE + 1;
/// Bytes of the pages that the image takes.
pub const CONF_PAGES_SIZE: usize = PAGE_SIZE * CONF_PAGES;
/// First byte of an image: the EEPROM holds a key map.
pub const EEPROM_MARK: u8 = 0xAB;

/// The image, page by page.
pub type ConfPages = [[u8; PAGE_SIZE]; CONF_PAGES];

/// Rank of a key in the image.
pub open spec fn conf_slot(s: int, l: int, r: int, c: int) -> int {
    ((s * NINJA_LAYERS + l) * NINJA_COLS + c) * NINJA_ROWS + r
}

/// Where the first byte of a key stands in the image.
pub open spec fn conf_offset(s: int, l: int, r: int, c: int) -> int {
    2 + 2 * conf_slot(s, l, r, c)
}

/// The keys of the image follow the mark and spare byte, two bytes each,
/// in order of side, layer, column and row; each has its own place inside
/// the image's first `CONF_SIZE` bytes.
pub proof fn lemma_conf_offset(s: int, l: int, r: int, c: int, s2: int, l2: int, r2: int, c2: int)
    requires
        key_pos(s, l, r, c),
        key_pos(s2, l2, r2, c2),
    ensures
        conf_offset(s, l, r, c) == 2 + 2 * (96 * s + 24 * l + 4 * c + r),
        2 <= conf_offset(s, l, r, c) && conf_offset(s, l, r, c) + 1 < CONF_SIZE,
        conf_offset(s, l, r, c) == conf_offset(s2, l2, r2, c2) ==> s == s2 && l == l2 && r == r2 && c == c2,
        conf_offset(s, l, r, c) != conf_offset(s2, l2, r2, c2) + 1,
{
    if conf_offset(s, l, r, c) == conf_offset(s2, l2, r2, c2) {
        lemma_conf_slot_injective(s, l, r, c, s2, l2, r2, c2);
    }
}

/// A position of the key map.
pub open spec fn key_pos(s: int, l: int, r: int, c: int) -> bool {
    0 <= s < NINJA_SIDES && 0 <= l < NINJA_LAYERS && 0 <= r < NINJA_ROWS && 0 <= c < NINJA_COLS
}

/// The byte at `j` of the image that the pages make up.
pub open spec fn page_byte(pages: ConfPages, j: int) -> u8 {
    pages[j / (PAGE_SIZE as int)][j % (PAGE_SIZE as int)]
}

/// The pages hold the image of the key map: mark, spare byte, the keys,
/// zeros.
pub open spec fn pages_hold_keys(pages: ConfPages, keys: Keys) -> bool {
    &&& page_byte(pages, 0) == EEPROM_MARK
    &&& page_byte(pages, 1) == 0
    &&& forall|s: int, l: int, r: int, c: int|
        #![trigger keys[s][l][r][c]]
        key_pos(s, l, r, c) ==> {
            &&& page_byte(pages, conf_offset(s, l, r, c)) == spec_serialize_key(keys[s][l][r][c]).0
            &&& page_byte(pages, conf_offset(s, l, r, c) + 1) == spec_serialize_key(keys[s][l][r][c]).1
        }
    &&& forall|j: int| CONF_SIZE <= j < CONF_PAGES_SIZE ==> #[trigger] page_byte(pages, j) == 0
}

/// The key that an image read back holds for a position.
pub open spec fn image_key(bytes: [u8; CONF_PAGES_SIZE], s: int, l: int, r: int, c: int) -> Key {
    spec_deserialize_key(bytes[conf_offset(s, l, r, c)], bytes[conf_offset(s, l, r, c) + 1])
}

proof fn lemma_page_index(q: int, t: int)
    requires
        0 <= t < PAGE_SIZE,
        0 <= q,
    ensures
        (q * 32 + t) / 32 == q,
        (q * 32 + t) % 32 == t,
{
    vstd::arithmetic::div_mod::lemma_fundamental_div_mod_converse(q * 32 + t, 32, q, t);
}

proof fn lemma_index_split(j: int)
    requires
        0 <= j,
    ensures
        j == (j / 32) * 32 + j % 32,
        0 <= j % 32 < 32,
        0 <= j / 32,
{
    vstd::arithmetic::div_mod::lemma_fundamental_div_mod(j, 32);
    vstd::arithmetic::div_mod::lemma_mod_bound(j, 32);
    vstd::arithmetic::div_mod::lemma_div_pos_is_pos(j, 32);
}

/// The keys of rank below `done` stand in the image.
pub open spec fn image_written(img: Seq<u8>, keys: Keys, done: int) -> bool {
    forall|s: int, l: int, r: int, c: int|
        #![trigger keys[s][l][r][c]]
        key_pos(s, l, r, c) && conf_slot(s, l, r, c) < done ==> {
            &&& img[conf_offset(s, l, r, c)] == spec_serialize_key(keys[s][l][r][c]).0
            &&& img[conf_offset(s, l, r, c) + 1] == spec_serialize_key(keys[s][l][r][c]).1
        }
}

/// The pages, seen through `img`, hold the mark and the keys of rank
/// below `done`; the next key goes to page `p` at `i`, and zeros follow.
spec fn pages_progress(pages: ConfPages, img: Seq<u8>, keys: Keys, p: int, i: int, done: int) -> bool {
    &&& p * 32 + i == 2 + 2 * done
    &&& i <= 32
    &&& img.len() == CONF_PAGES_SIZE
    &&& forall|q: int, t: int| 0 <= q < 13 && 0 <= t < 32 ==> #[trigger] pages[q][t] == img[q * 32 + t]
    &&& img[0] == EEPROM_MARK
    &&& img[1] == 0
    &&& image_written(img, keys, done)
    &&& forall|j: int| p * 32 + i <= j < CONF_PAGES_SIZE ==> #[trigger] img[j] == 0
}

proof fn lemma_conf_slot_injective(s: int, l: int, r: int, c: int, s0: int, l0: int, r0: int, c0: int)
    requires
        key_pos(s, l, r, c),
        key_pos(s0, l0, r0, c0),
        conf_slot(s, l, r, c) == conf_slot(s0, l0, r0, c0),
    ensures
        s == s0 && l == l0 && r == r0 && c == c0,
{
    assert(r == r0);
    assert(c == c0);
    assert(l == l0);
}

proof fn lemma_slot_names_one_key(s0: int, l0: int, r0: int, c0: int)
    requires
        key_pos(s0, l0, r0, c0),
    ensures
        forall|s: int, l: int, r: int, c: int|
            key_pos(s, l, r, c) && #[trigger] conf_slot(s, l, r, c) == conf_slot(s0, l0, r0, c0) ==> s == s0 && l == l0
                && r == r0 && c == c0,
{
    assert forall|s: int, l: int, r: int, c: int|
        key_pos(s, l, r, c) && #[trigger] conf_slot(s, l, r, c) == conf_slot(s0, l0, r0, c0) implies s == s0 && l
            == l0 && r == r0 && c == c0 by {
        lemma_conf_slot_injective(s, l, r, c, s0, l0, r0, c0);
    }
}

proof fn lemma_written_step(img: Seq<u8>, keys: Keys, s0: int, l0: int, r0: int, c0: int)
    requires
        img.len() == CONF_PAGES_SIZE,
        key_pos(s0, l0, r0, c0),
        image_written(img, keys, conf_slot(s0, l0, r0, c0)),
    ensures
        image_written(
            img.update(conf_offset(s0, l0, r0, c0), spec_serialize_key(keys[s0][l0][r0][c0]).0).update(
                conf_offset(s0, l0, r0, c0) + 1,
                spec_serialize_key(keys[s0][l0][r0][c0]).1,
            ),
            keys,
            conf_slot(s0, l0, r0, c0) + 1,
        ),
{
    let n = conf_slot(s0, l0, r0, c0);
    let img2 = img.update(conf_offset(s0, l0, r0, c0), spec_serialize_key(keys[s0][l0][r0][c0]).0).update(
        conf_offset(s0, l0, r0, c0) + 1,
        spec_serialize_key(keys[s0][l0][r0][c0]).1,
    );
    assert forall|s: int, l: int, r: int, c: int|
        #![trigger keys[s][l][r][c]]
        key_pos(s, l, r, c) && conf_slot(s, l, r, c) < n + 1 implies {
            &&& img2[conf_offset(s, l, r, c)] == spec_serialize_key(keys[s][l][r][c]).0
            &&& img2[conf_offset(s, l, r, c) + 1] == spec_serialize_key(keys[s][l][r][c]).1
        } by {
        if conf_slot(s, l, r, c) == n {
            lemma_conf_slot_injective(s, l, r, c, s0, l0, r0, c0);
        }
    }
}

/// The pages to write: the image of the key map.
#[verifier::rlimit(40)]
pub fn conf_pages(keys: &Keys) -> (pages: ConfPages)
    ensures
        pages_hold_keys(pages, *keys),
{
    let mut bytes: ConfPages = [[0u8; PAGE_SIZE]; CONF_PAGES];
    let ghost mut img: Seq<u8> = Seq::new(CONF_PAGES_SIZE as nat, |j: int| 0u8);
    let mut i: usize = 2;
    let mut p: usize = 0;
    bytes[p][0] = EEPROM_MARK;
    proof {
        img = img.update(0, EEPROM_MARK);
    }
    assert(CONF_PAGES == 13);
    let mut side: usize = 0;
    while side < NINJA_SIDES
        invariant
            side <= NINJA_SIDES,
            pages_progress(bytes, img, *keys, p as int, i as int, conf_slot(side as int, 0, 0, 0)),
        decreases NINJA_SIDES - side,
    {
        let mut layer: usize = 0;
        while layer < NINJA_LAYERS
            invariant
                side < NINJA_SIDES,
                layer <= NINJA_LAYERS,
                pages_progress(bytes, img, *keys, p as int, i as int, conf_slot(side as int, layer as int, 0, 0)),
            decreases NINJA_LAYERS - layer,
        {
            let mut col: usize = 0;
            while col < NINJA_COLS
                invariant
                    side < NINJA_SIDES,
                    layer < NINJA_LAYERS,
                    col <= NINJA_COLS,
                    pages_progress(bytes, img, *keys, p as int, i as int, conf_slot(side as int, layer as int, 0, col as int)),
                decreases NINJA_COLS - col,
            {
                let mut row: usize = 0;
                while row < NINJA_ROWS
                    invariant
                        side < NINJA_SIDES,
                        layer < NINJA_LAYERS,
                        col < NINJA_COLS,
                        row <= NINJA_ROWS,
                        pages_progress(
                            bytes,
                            img,
                            *keys,
                            p as int,
                            i as int,
                            conf_slot(side as int, layer as int, row as int, col as int),
                        ),
                    decreases NINJA_ROWS - row,
                {
                    let k = serialize_key(&keys[side][layer][row][col]);
                    if i >= 32 {
                        i = 0;
                        p += 1;
                    }
                    assert(i + 1 < 32);
                    assert(p < 13);
                    bytes[p][i] = k.0;
                    bytes[p][i + 1] = k.1;
                    proof {
                        lemma_written_step(img, *keys, side as int, layer as int, row as int, col as int);
                        img = img.update(p * 32 + i, k.0).update(p * 32 + i + 1, k.1);
                    }
                    i += 2;
                    row += 1;
                }
                col += 1;
            }
            layer += 1;
        }
        side += 1;
    }
    proof {
        assert forall|j: int| 0 <= j < CONF_PAGES_SIZE implies #[trigger] page_byte(bytes, j) == img[j] by {
            lemma_index_split(j);
        }
    }
    bytes
}

/// The key map after an image read back from the EEPROM was applied to it:
/// with the mark, every key comes from the image; without, nothing changes.
pub open spec fn keys_after_image(keys: Keys, bytes: [u8; CONF_PAGES_SIZE], s: int, l: int, r: int, c: int) -> Key {
    if bytes[0] == EEPROM_MARK {
        image_key(bytes, s, l, r, c)
    } else {
        keys[s][l][r][c]
    }
}

/// The keys of rank below `done` come from the image; the others are as
/// they were.
pub open spec fn image_loaded(keys: Keys, before: Keys, bytes: [u8; CONF_PAGES_SIZE], done: int) -> bool {
    forall|s: int, l: int, r: int, c: int|
        key_pos(s, l, r, c) ==> #[trigger] keys[s][l][r][c] == if conf_slot(s, l, r, c) < done {
            image_key(bytes, s, l, r, c)
        } else {
            before[s][l][r][c]
        }
}

/// Loads the key map from an image read back from the EEPROM, where the
/// image starts with the mark.
#[verifier::rlimit(40)]
pub fn read_conf_from_bytes(keys: &mut Keys, bytes: &[u8; CONF_PAGES_SIZE])
    ensures
        forall|s: int, l: int, r: int, c: int|
            key_pos(s, l, r, c) ==> #[trigger] final(keys)[s][l][r][c] == keys_after_image(*old(keys), *bytes, s, l, r, c),
{
    let mut i: usize = 2;
    if bytes[0] == EEPROM_MARK {
        let mut side: usize = 0;
        while side < NINJA_SIDES
            invariant
                bytes[0] == EEPROM_MARK,
                side <= NINJA_SIDES,
                i == conf_offset(side as int, 0, 0, 0),
                image_loaded(*keys, *old(keys), *bytes, conf_slot(side as int, 0, 0, 0)),
            decreases NINJA_SIDES - side,
        {
            let mut layer: usize = 0;
            while layer < NINJA_LAYERS
                invariant
                    side < NINJA_SIDES,
                    layer <= NINJA_LAYERS,
                    i == conf_offset(side as int, layer as int, 0, 0),
                    image_loaded(*keys, *old(keys), *bytes, conf_slot(side as int, layer as int, 0, 0)),
                decreases NINJA_LAYERS - layer,
            {
                let mut col: usize = 0;
                while col < NINJA_COLS
                    invariant
                        side < NINJA_SIDES,
                        layer < NINJA_LAYERS,
                        col <= NINJA_COLS,
                        i == conf_offset(side as int, layer as int, 0, col as int),
                        image_loaded(*keys, *old(keys), *bytes, conf_slot(side as int, layer as int, 0, col as int)),
                    decreases NINJA_COLS - col,
                {
                    let mut row: usize = 0;
                    while row < NINJA_ROWS
                        invariant
                            side < NINJA_SIDES,
                            layer < NINJA_LAYERS,
                            col < NINJA_COLS,
                            row <= NINJA_ROWS,
                            i == conf_offset(side as int, layer as int, row as int, col as int),
                            image_loaded(
                                *keys,
                                *old(keys),
                                *bytes,
                                conf_slot(side as int, layer as int, row as int, col as int),
                            ),
                        decreases NINJA_ROWS - row,
                    {
                        proof {
                            lemma_slot_names_one_key(side as int, layer as int, row as int, col as int);
                        }
                        keys[side][layer][row][col] = deserialize_key(bytes[i], bytes[i + 1]);
                        i += 2;
                        row += 1;
                    }
                    col += 1;
                }
                layer += 1;
            }
            side += 1;
        }
    }
}

/// Whether the byte at the start of the EEPROM says that it holds a key
/// map; where it does not, the map in use is written there.
pub fn eeprom_holds_conf(mark: u8) -> (r: bool)
    ensures
        r == (mark == EEPROM_MARK),
{
    mark == EEPROM_MARK
}

/// Reading back what was written: loading the image that the pages of a
/// key map make up gives that key map back, whatever map was loaded before,
/// as long as every key comes back unchanged from its two bytes (`SET`
/// keys come back as `LAST`, and codes that the keyboard page does not name
/// as `NoEventIndicated`).
pub proof fn lemma_image_roundtrip(keys: Keys, pages: ConfPages, bytes: [u8; CONF_PAGES_SIZE], before: Keys)
    requires
        pages_hold_keys(pages, keys),
        forall|j: int| 0 <= j < CONF_PAGES_SIZE ==> #[trigger] bytes[j] == page_byte(pages, j),
        forall|s: int, l: int, r: int, c: int|
            key_pos(s, l, r, c) ==> key_survives_bytes(#[trigger] keys[s][l][r][c]),
    ensures
        forall|s: int, l: int, r: int, c: int|
            key_pos(s, l, r, c) ==> #[trigger] keys_after_image(before, bytes, s, l, r, c) == keys[s][l][r][c],
{
    assert(bytes[0] == EEPROM_MARK);
    assert forall|s: int, l: int, r: int, c: int|
        key_pos(s, l, r, c) implies #[trigger] keys_after_image(before, bytes, s, l, r, c) == keys[s][l][r][c] by {
        let o = conf_offset(s, l, r, c);
        assert(0 <= o && o + 1 < CONF_PAGES_SIZE);
        assert(bytes[o] == page_byte(pages, o));
        assert(bytes[o + 1] == page_byte(pages, o + 1));
        lemma_key_bytes_roundtrip(keys[s][l][r][c]);
    }
}

} // verus!
