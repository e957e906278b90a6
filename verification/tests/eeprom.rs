use ninja_keyboard::eeprom::{
    conf_pages, eeprom_holds_conf, read_conf_from_bytes, CONF_PAGES, CONF_PAGES_SIZE, EEPROM_MARK, PAGE_SIZE,
};
use ninja_keyboard::keyboard::conf::CONF_SIZE;
use ninja_keyboard::keyboard::key::{Key, LayerCMD};
use ninja_keyboard::keyboard::keyboard::{KeyboardTrait, Ninja};
use ninja_keyboard::Keys;

fn flatten(pages: &[[u8; PAGE_SIZE]; CONF_PAGES]) -> [u8; CONF_PAGES_SIZE] {
    let mut bytes = [0u8; CONF_PAGES_SIZE];
    for p in 0..CONF_PAGES {
        for i in 0..PAGE_SIZE {
            bytes[p * PAGE_SIZE + i] = pages[p][i];
        }
    }
    bytes
}

#[test]
fn image_sizes() {
    assert_eq!(CONF_SIZE, 386);
    assert_eq!(CONF_PAGES, 13);
    assert_eq!(CONF_PAGES_SIZE, 416);
}

#[test]
fn image_of_default_keys() {
    let keys = Ninja::get_default_keys();
    let pages = conf_pages(&keys);
    let bytes = flatten(&pages);
    assert_eq!(bytes[0], EEPROM_MARK);
    assert_eq!(bytes[1], 0);
    // side 0, layer 0, col 0: Escape, Tab, LeftShift, NoKey (row by row)
    assert_eq!(&bytes[2..10], &[0, 0x29, 0, 0x2B, 0, 0xE1, 255, 0]);
    // side 0, layer 0, col 5, row 3: the layer key
    let slot = 5 * 4 + 3;
    assert_eq!(&bytes[2 + 2 * slot..4 + 2 * slot], &[1, 1]);
    // the second page starts in the middle of the keys
    assert_eq!(pages[1][0], bytes[32]);
    for j in CONF_SIZE..CONF_PAGES_SIZE {
        assert_eq!(bytes[j], 0);
    }
}

#[test]
fn image_reads_back() {
    let keys = Ninja::get_default_keys();
    let bytes = flatten(&conf_pages(&keys));
    let mut loaded: Keys = [[[[Key::NoKey; 6]; 4]; 4]; 2];
    read_conf_from_bytes(&mut loaded, &bytes);
    assert_eq!(loaded, keys);
}

#[test]
fn image_loses_set_keys() {
    let mut keys = Ninja::get_default_keys();
    keys[1][2][0][0] = Key::Layer(LayerCMD::SET(3));
    let bytes = flatten(&conf_pages(&keys));
    let mut loaded: Keys = [[[[Key::NoKey; 6]; 4]; 4]; 2];
    read_conf_from_bytes(&mut loaded, &bytes);
    assert_eq!(loaded[1][2][0][0], Key::Layer(LayerCMD::LAST));
}

#[test]
fn image_without_mark_is_ignored() {
    let keys = Ninja::get_default_keys();
    let mut bytes = flatten(&conf_pages(&[[[[Key::NoKey; 6]; 4]; 4]; 2]));
    bytes[0] = 0;
    let mut loaded: Keys = keys;
    read_conf_from_bytes(&mut loaded, &bytes);
    assert_eq!(loaded, keys);
}

#[test]
fn mark_decides() {
    assert!(eeprom_holds_conf(0xAB));
    assert!(!eeprom_holds_conf(0));
    assert!(!eeprom_holds_conf(0xFF));
}
