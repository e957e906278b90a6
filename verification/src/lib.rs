//! Logic of a split keyboard: the key map and its byte encodings, the
//! configuration image kept in the EEPROM, the per-scan state machine that
//! turns matrix changes into a HID key report, and the configuration protocol.

pub mod eeprom;
pub mod keyboard;
pub mod protocol;

use crate::keyboard::key::Key;
use crate::keyboard::keyboard::{EVENT_SLOTS, KB_N_BYTES, NINJA_COLS, NINJA_LAYERS, NINJA_ROWS, NINJA_SIDES};
use vstd::prelude::*;

verus! {

/// Number of key codes that the HID report can hold at once.
pub const REPORT_BUFF_MAX: usize = 42;

/// The pressed keys of one side, one bit per key.
pub type Matrix = [u8; KB_N_BYTES];
/// For each side, the matrix of this scan and of the scan before.
pub type Matrices = [[Matrix; 2]; NINJA_SIDES];
/// The key map of one side on one layer, by row and column.
pub type Side = [[Key; NINJA_COLS]; NINJA_ROWS];
/// The key map of one side, by layer.
pub type Layers = [Side; NINJA_LAYERS];
/// The whole key map, by side.
pub type Keys = [Layers; NINJA_SIDES];
/// The key codes of the HID report; 0 marks an empty place.
pub type ReportBuff = [u8; REPORT_BUFF_MAX];

/// For each key position (side, row, column), the code its last press put
/// into the report and the place it took there.
pub type Events = [(u8, u8); EVENT_SLOTS];

/// The state that the scans of the keyboard carry from one to the next.
#[derive(Clone, Copy)]
pub struct NinjaKb {
    /// Key bits of each side, this scan's and the one before.
    pub matrices: Matrices,
    /// The key map in use.
    pub keys: Keys,
    /// The active layer.
    pub layer: usize,
    /// The layer to go back to when a held layer key goes up.
    pub last_layer: usize,
    /// The codes of the HID report.
    pub report_buff: ReportBuff,
    /// For each key position, the code and place of its last press.
    pub events: Events,
}

} // verus!
