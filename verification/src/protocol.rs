//! The configuration protocol: requests that arrive as 64-byte reports,
//! the state they put the firmware in, and what the main loop does in each
//! state.

use crate::keyboard::conf::{deserialize_keys, keys_after_report, report_holds_side, serialize_keys};
use crate::keyboard::keyboard::{NINJA_COLS, NINJA_LAYERS, NINJA_ROWS, NINJA_SIDES};
use crate::Keys;
use vstd::prelude::*;

verus! {

/// What the firmware is doing for the configuration tool.
#[derive(Clone, Copy, Debug, PartialEq, Eq, Structural)]
pub enum State {
    Idle,
    /// Answer with the dimensions of the keyboard.
    SendKbInfo,
    /// Apply the keys of the stored report (side, layer).
    ReceiveKeys(u8, u8),
    /// Answer with the keys of a side and layer.
    RequestKeys(u8, u8),
    /// Clear the mark of the EEPROM, so that the next start writes the
    /// map in use there.
    ResetEeprom,
    /// An answer waits to be sent.
    SendReport,
}

/// The state that a request report asks for, by its first byte; `None`
/// for a request the firmware does not know.
pub open spec fn request_state(packet: [u8; 64]) -> Option<State> {
    if packet[0] == 0 {
        Some(State::SendKbInfo)
    } else if packet[0] == 1 {
        Some(State::ReceiveKeys(packet[1], packet[2]))
    } else if packet[0] == 2 {
        Some(State::RequestKeys(packet[1], packet[2]))
    } else if packet[0] == 3 {
        Some(State::ResetEeprom)
    } else {
        None
    }
}

/// A request names its kind in its first byte and, for keys, the side and
/// layer in the next two.
pub proof fn lemma_request_state(packet: [u8; 64])
    ensures
        packet[0] == 0 ==> request_state(packet) == Some(State::SendKbInfo),
        packet[0] == 1 ==> request_state(packet) == Some(State::ReceiveKeys(packet[1], packet[2])),
        packet[0] == 2 ==> request_state(packet) == Some(State::RequestKeys(packet[1], packet[2])),
        packet[0] == 3 ==> request_state(packet) == Some(State::ResetEeprom),
        packet[0] > 3 ==> request_state(packet) is None,
{
}

/// Takes a request report from the configuration tool: a known request
/// sets the state, and a report that carries keys is kept to be applied.
pub fn handle_conf_request(packet: &[u8; 64], state: &mut Option<State>, conf_report: &mut [u8; 64])
    ensures
        *final(state) == match request_state(*packet) {
            Some(s) => Some(s),
            None => *old(state),
        },
        packet[0] == 0 ==> *final(state) == Some(State::SendKbInfo),
        packet[0] == 1 ==> *final(state) == Some(State::ReceiveKeys(packet[1], packet[2])),
        packet[0] == 2 ==> *final(state) == Some(State::RequestKeys(packet[1], packet[2])),
        packet[0] == 3 ==> *final(state) == Some(State::ResetEeprom),
        packet[0] > 3 ==> *final(state) == *old(state),
        *final(conf_report) == if packet[0] == 1 {
            *packet
        } else {
            *old(conf_report)
        },
{
    match packet[0] {
        0 => {
            *state = Some(State::SendKbInfo);
        },
        1 => {
            *conf_report = *packet;
            *state = Some(State::ReceiveKeys(packet[1], packet[2]));
        },
        2 => {
            *state = Some(State::RequestKeys(packet[1], packet[2]));
        },
        3 => {
            *state = Some(State::ResetEeprom);
        },
        _ => {},
    }
}

/// The counter of timer ticks: it counts up and wraps to 0 after 11.
pub fn next_tick_count(count: u8) -> (r: u8)
    ensures
        r == if count > 10 {
            0
        } else {
            count + 1
        },
{
    if count > 10 {
        0
    } else {
        count + 1
    }
}

/// On the tenth tick, an answer that waits is due: the state goes back to
/// idle and `true` says that the stored report is to be sent.
pub fn take_due_report(count: u8, state: &mut Option<State>) -> (due: bool)
    ensures
        due == (count == 10 && *old(state) == Some(State::SendReport)),
        *final(state) == if due {
            Some(State::Idle)
        } else {
            *old(state)
        },
{
    if count == 10 {
        match state {
            Some(State::SendReport) => {
                *state = Some(State::Idle);
                return true;
            },
            _ => {},
        }
    }
    false
}

/// What the main loop does in a state; `true` asks to clear the mark of the
/// EEPROM.
///
/// - `SendKbInfo`: the report gets kind 0 and the sides, layers, rows and
///   columns; an answer waits.
/// - `ReceiveKeys`: the stored report is applied to the map; idle.
/// - `RequestKeys`: for a side and layer of the map, the report gets their
///   keys and an answer waits; otherwise idle.
/// - `ResetEeprom`: the mark is to be cleared; idle.
/// - `SendReport`, `Idle` and no state: nothing.
pub fn idle_step(state: &mut Option<State>, keys: &mut Keys, conf_report: &mut [u8; 64]) -> (reset: bool)
    ensures
        match *old(state) {
            Some(State::SendKbInfo) => {
                &&& final(conf_report)[0] == 0
                &&& final(conf_report)[1] == NINJA_SIDES
                &&& final(conf_report)[2] == NINJA_LAYERS
                &&& final(conf_report)[3] == NINJA_ROWS
                &&& final(conf_report)[4] == NINJA_COLS
                &&& forall|j: int| 5 <= j < 64 ==> #[trigger] final(conf_report)[j] == old(conf_report)[j]
                &&& *final(keys) == *old(keys)
                &&& *final(state) == Some(State::SendReport)
                &&& !reset
            },
            Some(State::ReceiveKeys(_, _)) => {
                &&& forall|s: int, l: int, r: int, c: int|
                    0 <= s < NINJA_SIDES && 0 <= l < NINJA_LAYERS && 0 <= r < NINJA_ROWS && 0 <= c < NINJA_COLS
                        ==> #[trigger] final(keys)[s][l][r][c] == keys_after_report(
                        *old(keys),
                        *old(conf_report),
                        s,
                        l,
                        r,
                        c,
                    )
                &&& *final(conf_report) == *old(conf_report)
                &&& *final(state) == Some(State::Idle)
                &&& !reset
            },
            Some(State::RequestKeys(side, layer)) => {
                &&& *final(keys) == *old(keys)
                &&& !reset
                &&& if side < NINJA_SIDES && layer < NINJA_LAYERS {
                    &&& report_holds_side(*final(conf_report), side, layer, old(keys)[side as int][layer as int])
                    &&& forall|j: int| 52 <= j < 64 ==> #[trigger] final(conf_report)[j] == old(conf_report)[j]
                    &&& *final(state) == Some(State::SendReport)
                } else {
                    &&& *final(conf_report) == *old(conf_report)
                    &&& *final(state) == Some(State::Idle)
                }
            },
            Some(State::ResetEeprom) => {
                &&& *final(keys) == *old(keys)
                &&& *final(conf_report) == *old(conf_report)
                &&& *final(state) == Some(State::Idle)
                &&& reset
            },
            _ => {
                &&& *final(keys) == *old(keys)
                &&& *final(conf_report) == *old(conf_report)
                &&& *final(state) == *old(state)
                &&& !reset
            },
        },
{
    match *state {
        Some(State::SendKbInfo) => {
            conf_report[0] = 0;
            conf_report[1] = NINJA_SIDES as u8;
            conf_report[2] = NINJA_LAYERS as u8;
            conf_report[3] = NINJA_ROWS as u8;
            conf_report[4] = NINJA_COLS as u8;
            *state = Some(State::SendReport);
            false
        },
        Some(State::ReceiveKeys(_side, _layer)) => {
            deserialize_keys(conf_report, keys);
            *state = Some(State::Idle);
            false
        },
        Some(State::RequestKeys(side, layer)) => {
            if (side as usize) < NINJA_SIDES && (layer as usize) < NINJA_LAYERS {
                serialize_keys(side, layer, &keys[side as usize][layer as usize], conf_report);
                *state = Some(State::SendReport);
            } else {
                *state = Some(State::Idle);
            }
            false
        },
        Some(State::ResetEeprom) => {
            *state = Some(State::Idle);
            true
        },
        _ => false,
    }
}

} // verus!
