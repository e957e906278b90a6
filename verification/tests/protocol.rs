use ninja_keyboard::keyboard::conf::serialize_keys;
use ninja_keyboard::keyboard::key::{Key, KC_ESCAPE};
use ninja_keyboard::keyboard::keyboard::{KeyboardTrait, Ninja};
use ninja_keyboard::protocol::{handle_conf_request, idle_step, next_tick_count, take_due_report, State};

#[test]
fn requests_set_the_state() {
    let mut state = None;
    let mut report = [0u8; 64];
    let mut packet = [0u8; 64];
    handle_conf_request(&packet, &mut state, &mut report);
    assert_eq!(state, Some(State::SendKbInfo));
    packet[0] = 2;
    packet[1] = 1;
    packet[2] = 3;
    handle_conf_request(&packet, &mut state, &mut report);
    assert_eq!(state, Some(State::RequestKeys(1, 3)));
    assert_eq!(report, [0u8; 64]);
    packet[0] = 1;
    handle_conf_request(&packet, &mut state, &mut report);
    assert_eq!(state, Some(State::ReceiveKeys(1, 3)));
    assert_eq!(report, packet);
    packet[0] = 3;
    handle_conf_request(&packet, &mut state, &mut report);
    assert_eq!(state, Some(State::ResetEeprom));
    packet[0] = 9;
    handle_conf_request(&packet, &mut state, &mut report);
    assert_eq!(state, Some(State::ResetEeprom));
}

#[test]
fn tick_counter_wraps() {
    assert_eq!(next_tick_count(0), 1);
    assert_eq!(next_tick_count(10), 11);
    assert_eq!(next_tick_count(11), 0);
    assert_eq!(next_tick_count(200), 0);
}

#[test]
fn answer_is_due_on_tenth_tick() {
    let mut state = Some(State::SendReport);
    assert!(!take_due_report(9, &mut state));
    assert_eq!(state, Some(State::SendReport));
    assert!(take_due_report(10, &mut state));
    assert_eq!(state, Some(State::Idle));
    let mut other = Some(State::SendKbInfo);
    assert!(!take_due_report(10, &mut other));
    assert_eq!(other, Some(State::SendKbInfo));
}

#[test]
fn idle_sends_kb_info() {
    let mut state = Some(State::SendKbInfo);
    let mut keys = Ninja::get_default_keys();
    let mut report = [7u8; 64];
    assert!(!idle_step(&mut state, &mut keys, &mut report));
    assert_eq!(&report[0..6], &[0, 2, 4, 4, 6, 7]);
    assert_eq!(state, Some(State::SendReport));
}

#[test]
fn idle_answers_key_request() {
    let mut state = Some(State::RequestKeys(0, 1));
    let mut keys = Ninja::get_default_keys();
    let mut report = [0u8; 64];
    assert!(!idle_step(&mut state, &mut keys, &mut report));
    let mut expected = [0u8; 64];
    serialize_keys(0, 1, &keys[0][1], &mut expected);
    assert_eq!(report, expected);
    assert_eq!(state, Some(State::SendReport));

    let mut state = Some(State::RequestKeys(2, 0));
    let mut report = [5u8; 64];
    assert!(!idle_step(&mut state, &mut keys, &mut report));
    assert_eq!(report, [5u8; 64]);
    assert_eq!(state, Some(State::Idle));
}

#[test]
fn idle_applies_received_keys() {
    let mut state = Some(State::ReceiveKeys(1, 3));
    let mut keys = Ninja::get_default_keys();
    let mut report = [0u8; 64];
    report[0] = 1;
    report[2] = 1;
    report[3] = 3;
    report[5] = KC_ESCAPE;
    assert!(!idle_step(&mut state, &mut keys, &mut report));
    assert_eq!(keys[1][3][0][0], Key::Code(KC_ESCAPE));
    assert_eq!(keys[1][3][0][1], Key::Code(0));
    assert_eq!(state, Some(State::Idle));
}

#[test]
fn idle_asks_for_eeprom_reset() {
    let mut state = Some(State::ResetEeprom);
    let mut keys = Ninja::get_default_keys();
    let mut report = [0u8; 64];
    assert!(idle_step(&mut state, &mut keys, &mut report));
    assert_eq!(state, Some(State::Idle));
    let mut none = None;
    assert!(!idle_step(&mut none, &mut keys, &mut report));
    assert_eq!(none, None);
}
