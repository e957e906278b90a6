use ninja_keyboard::keyboard::key::{Key, LayerCMD, KC_F1, KC_NO_EVENT, KC_Q, KC_W, KC_Y};
use ninja_keyboard::keyboard::keyboard::{
    matrix_from_scan, scan_faults, update_kb_state, KeyboardTrait, Ninja, KB_N_BYTES,
};
use ninja_keyboard::{Matrix, NinjaKb};

fn scan_of(pressed: &[(usize, usize)]) -> Matrix {
    let mut p = [[false; 6]; 4];
    for &(r, c) in pressed {
        p[r][c] = true;
    }
    matrix_from_scan(&p)
}

#[test]
fn matrix_bits() {
    assert_eq!(KB_N_BYTES, 3);
    assert_eq!(scan_of(&[]), [0, 0, 0]);
    assert_eq!(scan_of(&[(0, 0)]), [1, 0, 0]);
    // row 2, col 3: bit 15
    assert_eq!(scan_of(&[(2, 3)]), [0, 0x80, 0]);
    // row 3, col 5: bit 23
    assert_eq!(scan_of(&[(3, 5), (1, 2)]), [0, 0x01, 0x80]);
}

#[test]
fn press_and_release_a_code() {
    let mut kb = NinjaKb::new(Ninja::get_default_keys());
    let r = update_kb_state(&mut kb, scan_of(&[(0, 1)]), Some([0; 3]));
    assert!(r.event);
    assert_eq!(r.led, Some(false));
    assert_eq!(kb.report_buff[0], KC_Q);
    assert_eq!(kb.events[1], (KC_Q, 0));
    // held: nothing changes
    let r = update_kb_state(&mut kb, scan_of(&[(0, 1)]), Some([0; 3]));
    assert!(!r.event);
    assert_eq!(r.led, None);
    assert_eq!(kb.report_buff[0], KC_Q);
    // released
    let r = update_kb_state(&mut kb, scan_of(&[]), Some([0; 3]));
    assert!(r.event);
    assert_eq!(r.led, Some(true));
    assert_eq!(kb.report_buff, [KC_NO_EVENT; 42]);
}

#[test]
fn two_codes_take_two_places() {
    let mut kb = NinjaKb::new(Ninja::get_default_keys());
    update_kb_state(&mut kb, scan_of(&[(0, 1), (0, 2)]), None);
    // columns are walked first: Q (col 1) then W (col 2)
    assert_eq!(kb.report_buff[0], KC_Q);
    assert_eq!(kb.report_buff[1], KC_W);
}

#[test]
fn secondary_side_keys() {
    let mut kb = NinjaKb::new(Ninja::get_default_keys());
    let r = update_kb_state(&mut kb, scan_of(&[]), Some([1, 0, 0]));
    assert!(r.event);
    assert_eq!(kb.report_buff[0], KC_Y);
    assert_eq!(kb.events[24], (KC_Y, 0));
    // a failed read keeps the secondary side as it was
    let r = update_kb_state(&mut kb, scan_of(&[]), None);
    assert!(!r.event);
    assert_eq!(kb.report_buff[0], KC_Y);
}

#[test]
fn held_layer_key() {
    let mut kb = NinjaKb::new(Ninja::get_default_keys());
    let r = update_kb_state(&mut kb, scan_of(&[(3, 5)]), None);
    assert!(!r.event);
    assert_eq!(kb.layer, 1);
    assert_eq!(kb.last_layer, 0);
    update_kb_state(&mut kb, scan_of(&[(3, 5), (0, 0)]), None);
    assert_eq!(kb.report_buff[0], KC_F1);
    update_kb_state(&mut kb, scan_of(&[(0, 0)]), None);
    assert_eq!(kb.layer, 0);
    update_kb_state(&mut kb, scan_of(&[]), None);
    assert_eq!(kb.report_buff[0], KC_NO_EVENT);
}

#[test]
fn same_code_twice_is_reported_once() {
    let mut keys = Ninja::get_default_keys();
    keys[0][0][0][2] = Key::Code(KC_Q);
    let mut kb = NinjaKb::new(keys);
    update_kb_state(&mut kb, scan_of(&[(0, 1), (0, 2)]), None);
    assert_eq!(kb.report_buff[0], KC_Q);
    assert_eq!(kb.report_buff[1], KC_NO_EVENT);
}

#[test]
fn full_report_takes_no_more_codes() {
    let mut kb = NinjaKb::new(Ninja::get_default_keys());
    for i in 0..42 {
        kb.report_buff[i] = 0x60 + i as u8;
    }
    let before = kb.report_buff;
    let r = update_kb_state(&mut kb, scan_of(&[(0, 1)]), None);
    assert!(!r.event);
    assert_eq!(kb.report_buff, before);
}

#[test]
fn layer_commands() {
    let mut keys = Ninja::get_default_keys();
    keys[0][0][0][0] = Key::Layer(LayerCMD::SET(2));
    keys[0][2][0][0] = Key::Layer(LayerCMD::PREV);
    keys[0][1][0][0] = Key::Layer(LayerCMD::LAST);
    keys[0][3][0][0] = Key::Layer(LayerCMD::FIRST);
    let mut kb = NinjaKb::new(keys);
    update_kb_state(&mut kb, scan_of(&[(0, 0)]), None);
    assert_eq!(kb.layer, 2);
    update_kb_state(&mut kb, scan_of(&[]), None);
    update_kb_state(&mut kb, scan_of(&[(0, 0)]), None);
    assert_eq!(kb.layer, 1);
    update_kb_state(&mut kb, scan_of(&[]), None);
    update_kb_state(&mut kb, scan_of(&[(0, 0)]), None);
    assert_eq!(kb.layer, 3);
    update_kb_state(&mut kb, scan_of(&[]), None);
    update_kb_state(&mut kb, scan_of(&[(0, 0)]), None);
    assert_eq!(kb.layer, 0);
}

#[test]
fn next_past_the_last_layer_faults_on_the_next_key() {
    let mut keys = Ninja::get_default_keys();
    keys[0][3][0][0] = Key::Layer(LayerCMD::NEXT);
    let mut kb = NinjaKb::new(keys);
    kb.layer = 3;
    assert!(!scan_faults(&kb, scan_of(&[(0, 0)]), None));
    assert!(scan_faults(&kb, scan_of(&[(0, 0), (0, 1)]), None));
    update_kb_state(&mut kb, scan_of(&[(0, 0)]), None);
    assert_eq!(kb.layer, 4);
    // any key that moves now is looked up on layer 4
    assert!(scan_faults(&kb, scan_of(&[]), None));
}
