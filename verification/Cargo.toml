[package]
name = "ninja_keyboard"
version = "0.1.0"
edition = "2021"
publish = false

[dependencies]
usbd-human-interface-device = "0.3"
usb-device = "0.2"
frunk = { version = "0.4", default-features = false }
eeprom24x = "0.5"
embedded-hal = "0.2"
cortex-m = "0.7"
cortex-m-rtic = "1"
shared-bus = { version = "0.2", features = ["cortex-m"] }
stm32f1xx-hal = { version = "0.10", features = ["stm32f103", "rt", "medium"] }
defmt = "0.3"
defmt-rtt = "0.4"
panic-probe = { version = "0.3", features = ["print-defmt"] }
