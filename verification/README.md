# ninja_keyboard

Verified logic of the Ninja split keyboard firmware (STM32F103, USB HID).

- `src/` (Verus): the key map and its two-byte encoding, the 64-byte
  configuration reports, the EEPROM image of the key map, the per-scan state
  machine that turns key matrix changes into layer changes and HID report
  codes, and the configuration protocol states.
- `app/`: the firmware around it: pins, I2C (EEPROM and secondary half),
  USB HID interfaces and the RTIC tasks.
- `tests/`: scenarios on concrete key maps and reports.
