use ninja_keyboard::keyboard::key as k;
use usbd_human_interface_device::page::Keyboard as Kc;

#[test]
fn key_codes_match_the_keyboard_page() {
    let pairs: [(u8, Kc); 76] = [
        (k::KC_NO_EVENT, Kc::NoEventIndicated),
        (k::KC_A, Kc::A),
        (k::KC_B, Kc::B),
        (k::KC_C, Kc::C),
        (k::KC_D, Kc::D),
        (k::KC_E, Kc::E),
        (k::KC_F, Kc::F),
        (k::KC_G, Kc::G),
        (k::KC_H, Kc::H),
        (k::KC_I, Kc::I),
        (k::KC_J, Kc::J),
        (k::KC_K, Kc::K),
        (k::KC_L, Kc::L),
        (k::KC_M, Kc::M),
        (k::KC_N, Kc::N),
        (k::KC_O, Kc::O),
        (k::KC_P, Kc::P),
        (k::KC_Q, Kc::Q),
        (k::KC_R, Kc::R),
        (k::KC_S, Kc::S),
        (k::KC_T, Kc::T),
        (k::KC_U, Kc::U),
        (k::KC_V, Kc::V),
        (k::KC_W, Kc::W),
        (k::KC_X, Kc::X),
        (k::KC_Y, Kc::Y),
        (k::KC_Z, Kc::Z),
        (k::KC_KEYBOARD1, Kc::Keyboard1),
        (k::KC_KEYBOARD2, Kc::Keyboard2),
        (k::KC_KEYBOARD3, Kc::Keyboard3),
        (k::KC_KEYBOARD4, Kc::Keyboard4),
        (k::KC_KEYBOARD5, Kc::Keyboard5),
        (k::KC_KEYBOARD6, Kc::Keyboard6),
        (k::KC_KEYBOARD7, Kc::Keyboard7),
        (k::KC_KEYBOARD8, Kc::Keyboard8),
        (k::KC_KEYBOARD9, Kc::Keyboard9),
        (k::KC_KEYBOARD0, Kc::Keyboard0),
        (k::KC_RETURN_ENTER, Kc::ReturnEnter),
        (k::KC_ESCAPE, Kc::Escape),
        (k::KC_DELETE_BACKSPACE, Kc::DeleteBackspace),
        (k::KC_TAB, Kc::Tab),
        (k::KC_SPACE, Kc::Space),
        (k::KC_MINUS, Kc::Minus),
        (k::KC_LEFT_BRACE, Kc::LeftBrace),
        (k::KC_RIGHT_BRACE, Kc::RightBrace),
        (k::KC_BACKSLASH, Kc::Backslash),
        (k::KC_SEMICOLON, Kc::Semicolon),
        (k::KC_APOSTROPHE, Kc::Apostrophe),
        (k::KC_COMMA, Kc::Comma),
        (k::KC_DOT, Kc::Dot),
        (k::KC_F1, Kc::F1),
        (k::KC_F2, Kc::F2),
        (k::KC_F3, Kc::F3),
        (k::KC_F4, Kc::F4),
        (k::KC_F5, Kc::F5),
        (k::KC_F6, Kc::F6),
        (k::KC_F7, Kc::F7),
        (k::KC_F8, Kc::F8),
        (k::KC_F9, Kc::F9),
        (k::KC_F10, Kc::F10),
        (k::KC_F11, Kc::F11),
        (k::KC_F12, Kc::F12),
        (k::KC_HOME, Kc::Home),
        (k::KC_PAGE_UP, Kc::PageUp),
        (k::KC_DELETE_FORWARD, Kc::DeleteForward),
        (k::KC_END, Kc::End),
        (k::KC_PAGE_DOWN, Kc::PageDown),
        (k::KC_RIGHT_ARROW, Kc::RightArrow),
        (k::KC_LEFT_ARROW, Kc::LeftArrow),
        (k::KC_DOWN_ARROW, Kc::DownArrow),
        (k::KC_UP_ARROW, Kc::UpArrow),
        (k::KC_LEFT_CONTROL, Kc::LeftControl),
        (k::KC_LEFT_SHIFT, Kc::LeftShift),
        (k::KC_LEFT_ALT, Kc::LeftAlt),
        (k::KC_LEFT_GUI, Kc::LeftGUI),
        (k::KC_RIGHT_GUI, Kc::RightGUI),
    ];
    for (code, kc) in pairs.iter() {
        assert_eq!(*code, *kc as u8);
    }
}
