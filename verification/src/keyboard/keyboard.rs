//! The keyboard model and the per-scan state machine.

use crate::keyboard::key::{Key, LayerCMD, KC_NO_EVENT};
use crate::{Keys, Matrices, Matrix, NinjaKb, REPORT_BUFF_MAX};
use vstd::prelude::*;

verus! {

/// Columns of the key matrix of one side.
pub const NINJA_COLS: usize = 6;
/// Rows of the key matrix of one side.
pub const NINJA_ROWS: usize = 4;
/// Layers of the key map.
pub const NINJA_LAYERS: usize = 4;
/// Halves of the keyboard.
pub const NINJA_SIDES: usize = 2;

/// The dimensions of a keyboard model.
pub trait KeyboardTrait {
    /// Number of the model.
    const MODEL: u8;
    /// Columns of each side's matrix.
    const COLS: usize;
    /// Rows of each side's matrix.
    const ROWS: usize;
    /// Index of the side scanned by this controller.
    const MAIN: usize;
    /// Index of the side read over I2C.
    const SECONDARY: usize;
    /// Layers of the key map.
    const LAYERS: usize = 4;
    /// Sides of the keyboard.
    const SIDES: usize = 2;
    /// The matrix of each side: main first.
    const SIDES_A: [usize; 2] = [Self::MAIN, Self::SECONDARY];

    /// The key map the keyboard starts with.
    fn get_default_keys() -> Keys;
}

/// The split keyboard this firmware drives.
pub struct Ninja;

/// Bytes of one side's matrix, one bit per key.
pub const KB_N_BYTES: usize = ((NINJA_COLS * NINJA_ROWS) + 7 & !7) / 8;

/// Key positions whose events are kept: sides, rows, columns.
pub const EVENT_SLOTS: usize = NINJA_SIDES * NINJA_ROWS * NINJA_COLS;

/// Where the bit of a key of one side stands in its matrix.
pub open spec fn matrix_index(row: int, col: int) -> int {
    row * NINJA_COLS + col
}

/// Where the event of a key position is kept.
pub open spec fn event_index(side: int, row: int, col: int) -> int {
    side * (NINJA_ROWS * NINJA_COLS) + row * NINJA_COLS + col
}

/// Whether the bit at `idx` of a matrix is set.
pub open spec fn matrix_bit(m: Matrix, idx: int) -> bool {
    (m[idx / 8] & (1u8 << ((idx % 8) as u8))) != 0
}

proof fn lemma_kb_n_bytes()
    ensures
        KB_N_BYTES == 3,
{
    assert(31usize & !7usize == 24usize) by (bit_vector);
}

proof fn lemma_bit_set(x: u8, b: u8, b2: u8)
    requires
        b < 8,
        b2 < 8,
    ensures
        ((x | (1u8 << b)) & (1u8 << b)) != 0,
        ((x & !(1u8 << b)) & (1u8 << b)) == 0,
        b2 != b ==> (((x | (1u8 << b)) & (1u8 << b2)) != 0) == ((x & (1u8 << b2)) != 0),
        b2 != b ==> (((x & !(1u8 << b)) & (1u8 << b2)) != 0) == ((x & (1u8 << b2)) != 0),
{
    assert(((x | (1u8 << b)) & (1u8 << b)) != 0) by (bit_vector)
        requires b < 8;
    assert(((x & !(1u8 << b)) & (1u8 << b)) == 0) by (bit_vector)
        requires b < 8;
    assert(b2 != b ==> (((x | (1u8 << b)) & (1u8 << b2)) != 0) == ((x & (1u8 << b2)) != 0)) by (bit_vector)
        requires b < 8, b2 < 8;
    assert(b2 != b ==> (((x & !(1u8 << b)) & (1u8 << b2)) != 0) == ((x & (1u8 << b2)) != 0)) by (bit_vector)
        requires b < 8, b2 < 8;
}

proof fn lemma_same_byte_other_bit(i: int, j: int)
    requires
        0 <= i,
        0 <= j,
        i != j,
        i / 8 == j / 8,
    ensures
        i % 8 != j % 8,
{
    vstd::arithmetic::div_mod::lemma_fundamental_div_mod(i, 8);
    vstd::arithmetic::div_mod::lemma_fundamental_div_mod(j, 8);
}

/// The matrix of one side from a scan of its keys: the bit of each key is
/// set when `pressed` says the key is down.
pub fn matrix_from_scan(pressed: &[[bool; NINJA_COLS]; NINJA_ROWS]) -> (m: Matrix)
    ensures
        forall|r: int, c: int|
            0 <= r < NINJA_ROWS && 0 <= c < NINJA_COLS ==> #[trigger] matrix_bit(m, matrix_index(r, c))
                == pressed[r][c],
{
    proof {
        lemma_kb_n_bytes();
    }
    let mut m: Matrix = [0u8; KB_N_BYTES];
    let mut col: usize = 0;
    while col < NINJA_COLS
        invariant
            KB_N_BYTES == 3,
            col <= NINJA_COLS,
            forall|r: int, c: int|
                0 <= r < NINJA_ROWS && 0 <= c < col ==> #[trigger] matrix_bit(m, matrix_index(r, c)) == pressed[r][c],
        decreases NINJA_COLS - col,
    {
        let mut row: usize = 0;
        while row < NINJA_ROWS
            invariant
                KB_N_BYTES == 3,
                col < NINJA_COLS,
                row <= NINJA_ROWS,
                forall|r: int, c: int|
                    0 <= r < NINJA_ROWS && 0 <= c < NINJA_COLS && (c < col || (c == col && r < row))
                        ==> #[trigger] matrix_bit(m, matrix_index(r, c)) == pressed[r][c],
            decreases NINJA_ROWS - row,
        {
            let index = row * NINJA_COLS + col;
            let byte = index >> 3;
            let bit = (index % 8) as u8;
            assert(index >> 3 == index / 8) by (bit_vector);
            let ghost old_m = m;
            if pressed[row][col] {
                m[byte] |= 1 << bit;
            } else {
                m[byte] &= !(1 << bit);
            }
            proof {
                assert forall|r: int, c: int|
                    0 <= r < NINJA_ROWS && 0 <= c < NINJA_COLS && (c < col || (c == col && r <= row))
                        implies #[trigger] matrix_bit(m, matrix_index(r, c)) == pressed[r][c] by {
                    let j = matrix_index(r, c);
                    assert(0 <= j < 24);
                    assert(0 <= j / 8 < 3);
                    lemma_bit_set(old_m[byte as int], bit, (j % 8) as u8);
                    if j == index as int {
                        assert(m[byte as int] == old_m[byte as int] | (1u8 << bit) || m[byte as int] == old_m[byte as int] & !(1u8 << bit));
                    } else if j / 8 == byte as int {
                        lemma_same_byte_other_bit(j, index as int);
                        assert(matrix_bit(old_m, j) == pressed[r][c]);
                    } else {
                        assert(m[j / 8] == old_m[j / 8]);
                        assert(matrix_bit(old_m, j) == pressed[r][c]);
                    }
                }
            }
            row += 1;
        }
        col += 1;
    }
    m
}

/// What one scan carries along while it walks the keys: the layers, the
/// report, the kept events, whether the report changed (`event`) and the
/// last state given to the activity LED (`led`, `Some(true)` for high).
#[verifier::ext_equal]
pub struct ScanState {
    pub layer: int,
    pub last_layer: int,
    pub report: Seq<u8>,
    pub events: Seq<(u8, u8)>,
    pub event: bool,
    pub led: Option<bool>,
}

/// The outcome of one key position within a scan: go on with the next
/// row, go on with the next column, or fail on a layer outside the map.
pub enum ScanStep {
    Next(ScanState),
    NextColumn(ScanState),
    Fault,
}

/// The first place at or after `i` where `v` stands in `s`, or the length
/// of `s` where it stands nowhere there.
pub open spec fn first_index_from(s: Seq<u8>, v: u8, i: int) -> int
    decreases s.len() - i,
{
    if i < 0 || i >= s.len() {
        s.len() as int
    } else if s[i] == v {
        i
    } else {
        first_index_from(s, v, i + 1)
    }
}

/// The first place where `v` stands in `s`, or its length.
pub open spec fn first_index(s: Seq<u8>, v: u8) -> int {
    first_index_from(s, v, 0)
}

/// The layers after a layer key went down.
pub open spec fn press_layer(st: ScanState, cmd: LayerCMD) -> ScanState {
    let st = ScanState { event: false, ..st };
    match cmd {
        LayerCMD::TMP(l) => if l < NINJA_LAYERS {
            ScanState { last_layer: st.layer, layer: l as int, ..st }
        } else {
            st
        },
        LayerCMD::NEXT => if st.layer < NINJA_LAYERS {
            ScanState { layer: st.layer + 1, ..st }
        } else {
            st
        },
        LayerCMD::PREV => if st.layer > 0 {
            ScanState { layer: st.layer - 1, ..st }
        } else {
            st
        },
        LayerCMD::FIRST => ScanState { layer: 0, ..st },
        LayerCMD::LAST => ScanState { layer: NINJA_LAYERS - 1, ..st },
        LayerCMD::SET(l) => if l < NINJA_LAYERS {
            ScanState { layer: l as int, ..st }
        } else {
            st
        },
    }
}

/// The layers after a layer key went up: a held layer ends.
pub open spec fn release_layer(st: ScanState, cmd: LayerCMD) -> ScanState {
    let st = ScanState { event: false, ..st };
    match cmd {
        LayerCMD::TMP(_) => ScanState { layer: st.last_layer, ..st },
        _ => st,
    }
}

/// The report after a code key went down: a code not yet in the report
/// takes its first empty place, and the position keeps code and place.
pub open spec fn press_code(st: ScanState, eidx: int, code: u8) -> ScanState {
    let k = first_index(st.report, KC_NO_EVENT);
    if first_index(st.report, code) >= REPORT_BUFF_MAX && k < REPORT_BUFF_MAX {
        ScanState {
            event: true,
            report: st.report.update(k, code),
            events: st.events.update(eidx, (code, k as u8)),
            ..st
        }
    } else {
        st
    }
}

/// The report after a code key went up: the first place that holds the
/// code is emptied.
pub open spec fn release_code(st: ScanState, code: u8) -> ScanState {
    let i = first_index(st.report, code);
    if i < REPORT_BUFF_MAX {
        ScanState { event: true, report: st.report.update(i, KC_NO_EVENT), ..st }
    } else {
        st
    }
}

/// One key position of a scan. A key whose bit is set now and was clear
/// before went down; one whose bit is clear now and was set before went
/// up. Which key it is depends on the active layer; a layer outside the map
/// makes the lookup fail. A key that goes up and whose position keeps an
/// event empties the kept place and ends the column.
pub open spec fn scan_step(keys: Keys, m: Matrices, st: ScanState, side: int, row: int, col: int) -> ScanStep {
    let idx = matrix_index(row, col);
    let now = matrix_bit(m[side][0], idx);
    let before = matrix_bit(m[side][1], idx);
    let eidx = event_index(side, row, col);
    if now && !before {
        let st = ScanState { led: Some(false), ..st };
        if !(0 <= st.layer < NINJA_LAYERS) {
            ScanStep::Fault
        } else {
            match keys[side][st.layer][row][col] {
                Key::Layer(cmd) => ScanStep::Next(press_layer(st, cmd)),
                Key::Code(code) => ScanStep::Next(press_code(st, eidx, code)),
                Key::NoKey => ScanStep::Next(st),
            }
        }
    } else if !now && before {
        let st = ScanState { led: Some(true), ..st };
        let ev = st.events[eidx];
        if ev.0 != KC_NO_EVENT && ev.1 < REPORT_BUFF_MAX {
            ScanStep::NextColumn(
                ScanState { event: true, report: st.report.update(ev.1 as int, KC_NO_EVENT), ..st },
            )
        } else if !(0 <= st.layer < NINJA_LAYERS) {
            ScanStep::Fault
        } else {
            match keys[side][st.layer][row][col] {
                Key::Layer(cmd) => ScanStep::Next(release_layer(st, cmd)),
                Key::Code(code) => ScanStep::Next(release_code(st, code)),
                Key::NoKey => ScanStep::Next(st),
            }
        }
    } else {
        ScanStep::Next(st)
    }
}

/// The rest of a scan from a position on: side by side, column by column,
/// row by row. `None` where a step fails.
pub open spec fn scan_from(keys: Keys, m: Matrices, st: ScanState, side: int, col: int, row: int) -> Option<ScanState>
    decreases NINJA_SIDES - side, NINJA_COLS - col, NINJA_ROWS - row,
{
    if side >= NINJA_SIDES {
        Some(st)
    } else if col >= NINJA_COLS {
        scan_from(keys, m, st, side + 1, 0, 0)
    } else if row >= NINJA_ROWS {
        scan_from(keys, m, st, side, col + 1, 0)
    } else {
        match scan_step(keys, m, st, side, row, col) {
            ScanStep::Next(next) => scan_from(keys, m, next, side, col, row + 1),
            ScanStep::NextColumn(next) => scan_from(keys, m, next, side, col + 1, 0),
            ScanStep::Fault => None,
        }
    }
}

/// The state at the start of a scan.
pub open spec fn scan_start(kb: NinjaKb) -> ScanState {
    ScanState {
        layer: kb.layer as int,
        last_layer: kb.last_layer as int,
        report: kb.report_buff@,
        events: kb.events@,
        event: false,
        led: None,
    }
}

/// The matrices of a scan: this scan's bits of each side become the bits
/// before; the main side's new bits come from its scan, the secondary
/// side's from its read where the read succeeded.
pub open spec fn shifted_matrices(m: Matrices, main_scan: Matrix, secondary: Option<Matrix>) -> Matrices {
    [
        [main_scan, m[0][0]],
        [
            match secondary {
                Some(b) => b,
                None => m[1][0],
            },
            m[1][0],
        ],
    ]
}

/// Each key position of the two sides keeps its own event: the places are
/// distinct and inside the table.
pub proof fn lemma_event_index_distinct(s: int, r: int, c: int, s2: int, r2: int, c2: int)
    requires
        0 <= s < NINJA_SIDES && 0 <= r < NINJA_ROWS && 0 <= c < NINJA_COLS,
        0 <= s2 < NINJA_SIDES && 0 <= r2 < NINJA_ROWS && 0 <= c2 < NINJA_COLS,
    ensures
        0 <= event_index(s, r, c) < EVENT_SLOTS,
        event_index(s, r, c) == event_index(s2, r2, c2) ==> s == s2 && r == r2 && c == c2,
{
}

/// Each key of a side has its own bit in the side's three matrix bytes,
/// row by row.
pub proof fn lemma_matrix_index_distinct(r: int, c: int, r2: int, c2: int)
    requires
        0 <= r < NINJA_ROWS && 0 <= c < NINJA_COLS,
        0 <= r2 < NINJA_ROWS && 0 <= c2 < NINJA_COLS,
    ensures
        0 <= matrix_index(r, c) < 8 * KB_N_BYTES,
        matrix_index(r, c) == 6 * r + c,
        matrix_index(r, c) == matrix_index(r2, c2) ==> r == r2 && c == c2,
{
    lemma_kb_n_bytes();
}

/// The bit of key `idx` is bit `idx % 8`, counted from the least
/// significant, of byte `idx / 8`.
pub proof fn lemma_matrix_bit(m: Matrix, idx: int)
    requires
        0 <= idx < 8 * KB_N_BYTES,
    ensures
        matrix_bit(m, idx) == (((m[idx / 8] >> ((idx % 8) as u8)) & 1u8) == 1u8),
{
    let x = m[idx / 8];
    let b = (idx % 8) as u8;
    assert(b < 8);
    assert(((x & (1u8 << b)) != 0) == (((x >> b) & 1u8) == 1u8)) by (bit_vector)
        requires
            b < 8,
    ;
}

/// In a scan, each side's bits before are its bits of the last scan; the
/// main side's bits now are the new scan's, the secondary side's are the
/// read ones, or the last ones where the read failed.
pub proof fn lemma_shifted_matrices(m: Matrices, main_scan: Matrix, secondary: Option<Matrix>)
    ensures
        shifted_matrices(m, main_scan, secondary)[0][0] == main_scan,
        shifted_matrices(m, main_scan, secondary)[0][1] == m[0][0],
        secondary is Some ==> shifted_matrices(m, main_scan, secondary)[1][0] == secondary->0,
        secondary is None ==> shifted_matrices(m, main_scan, secondary)[1][0] == m[1][0],
        shifted_matrices(m, main_scan, secondary)[1][1] == m[1][0],
{
}

/// The whole of a scan.
pub open spec fn scan(kb: NinjaKb, main_scan: Matrix, secondary: Option<Matrix>) -> Option<ScanState> {
    scan_from(kb.keys, shifted_matrices(kb.matrices, main_scan, secondary), scan_start(kb), 0, 0, 0)
}

/// What a scan gives back besides the new state.
pub struct KbUpdate {
    /// The report changed and should be sent.
    pub event: bool,
    /// The last state given to the activity LED, `Some(true)` for high.
    pub led: Option<bool>,
}

/// The state of a scan as carried by the exec state.
pub open spec fn scan_view(kb: NinjaKb, out: KbUpdate) -> ScanState {
    ScanState {
        layer: kb.layer as int,
        last_layer: kb.last_layer as int,
        report: kb.report_buff@,
        events: kb.events@,
        event: out.event,
        led: out.led,
    }
}

proof fn lemma_first_index_at(s: Seq<u8>, v: u8, i: int, k: int)
    requires
        0 <= i <= k < s.len(),
        s[k] == v,
        forall|j: int| i <= j < k ==> s[j] != v,
    ensures
        first_index_from(s, v, i) == k,
    decreases k - i,
{
    if i < k {
        lemma_first_index_at(s, v, i + 1, k);
    }
}

proof fn lemma_first_index_none(s: Seq<u8>, v: u8, i: int)
    requires
        0 <= i <= s.len(),
        forall|j: int| i <= j < s.len() ==> s[j] != v,
    ensures
        first_index_from(s, v, i) == s.len(),
    decreases s.len() - i,
{
    if i < s.len() {
        lemma_first_index_none(s, v, i + 1);
    }
}

/// How a scan goes on after a key position.
enum StepKind {
    Next,
    NextColumn,
    Fault,
}

/// A code key went down: put the code into the first empty place of the
/// report unless it is there already.
fn press_code_key(kb: &mut NinjaKb, out: &mut KbUpdate, eidx: usize, code: u8)
    requires
        eidx < EVENT_SLOTS,
    ensures
        final(kb).keys == old(kb).keys,
        final(kb).matrices == old(kb).matrices,
        scan_view(*final(kb), *final(out)) == press_code(scan_view(*old(kb), *old(out)), eidx as int, code),
{
    let mut k: usize = REPORT_BUFF_MAX;
    let mut duplicate = false;
    let mut i: usize = 0;
    while i < REPORT_BUFF_MAX
        invariant_except_break
            !duplicate,
        invariant
            i <= REPORT_BUFF_MAX,
            k <= REPORT_BUFF_MAX,
            duplicate ==> first_index(kb.report_buff@, code) < REPORT_BUFF_MAX,
            !duplicate ==> forall|j: int| 0 <= j < i ==> kb.report_buff[j] != code,
            !duplicate && k == REPORT_BUFF_MAX ==> forall|j: int| 0 <= j < i ==> kb.report_buff[j] != KC_NO_EVENT,
            !duplicate && k < REPORT_BUFF_MAX ==> k < i && kb.report_buff[k as int] == KC_NO_EVENT
                && forall|j: int| 0 <= j < k ==> kb.report_buff[j] != KC_NO_EVENT,
        ensures
            !duplicate ==> i == REPORT_BUFF_MAX,
        decreases REPORT_BUFF_MAX - i,
    {
        if k == REPORT_BUFF_MAX && kb.report_buff[i] == KC_NO_EVENT {
            k = i;
        }
        if kb.report_buff[i] == code {
            duplicate = true;
            proof {
                lemma_first_index_at(kb.report_buff@, code, 0, i as int);
            }
            break;
        }
        i += 1;
    }
    proof {
        if !duplicate {
            lemma_first_index_none(kb.report_buff@, code, 0);
            if k == REPORT_BUFF_MAX {
                lemma_first_index_none(kb.report_buff@, KC_NO_EVENT, 0);
            } else {
                lemma_first_index_at(kb.report_buff@, KC_NO_EVENT, 0, k as int);
            }
        }
    }
    if !duplicate && k < REPORT_BUFF_MAX {
        out.event = true;
        kb.report_buff[k] = code;
        kb.events[eidx] = (code, k as u8);
    }
}

/// A code key went up: empty the first place of the report that holds it.
fn release_code_key(kb: &mut NinjaKb, out: &mut KbUpdate, code: u8)
    ensures
        final(kb).keys == old(kb).keys,
        final(kb).matrices == old(kb).matrices,
        scan_view(*final(kb), *final(out)) == release_code(scan_view(*old(kb), *old(out)), code),
{
    let mut i: usize = 0;
    let mut found = false;
    while i < REPORT_BUFF_MAX
        invariant_except_break
            !found,
        invariant
            i <= REPORT_BUFF_MAX,
            kb.keys == old(kb).keys,
            kb.matrices == old(kb).matrices,
            found ==> scan_view(*kb, *out) == release_code(scan_view(*old(kb), *old(out)), code),
            !found ==> *kb == *old(kb) && *out == *old(out),
            !found ==> forall|j: int| 0 <= j < i ==> kb.report_buff[j] != code,
        ensures
            !found ==> i == REPORT_BUFF_MAX,
        decreases REPORT_BUFF_MAX - i,
    {
        if kb.report_buff[i] == code {
            proof {
                lemma_first_index_at(kb.report_buff@, code, 0, i as int);
            }
            out.event = true;
            kb.report_buff[i] = KC_NO_EVENT;
            found = true;
            break;
        }
        i += 1;
    }
    proof {
        if !found {
            lemma_first_index_none(kb.report_buff@, code, 0);
        }
    }
}

/// One key position of a scan, as `scan_step` says.
fn scan_key(kb: &mut NinjaKb, out: &mut KbUpdate, side: usize, row: usize, col: usize) -> (k: StepKind)
    requires
        side < NINJA_SIDES,
        row < NINJA_ROWS,
        col < NINJA_COLS,
    ensures
        final(kb).keys == old(kb).keys,
        final(kb).matrices == old(kb).matrices,
        match scan_step(old(kb).keys, old(kb).matrices, scan_view(*old(kb), *old(out)), side as int, row as int, col as int) {
            ScanStep::Next(st) => k is Next && scan_view(*final(kb), *final(out)) == st,
            ScanStep::NextColumn(st) => k is NextColumn && scan_view(*final(kb), *final(out)) == st,
            ScanStep::Fault => k is Fault,
        },
{
    proof {
        lemma_kb_n_bytes();
    }
    let index = row * NINJA_COLS + col;
    let byte = index >> 3;
    let bit = (index % 8) as u8;
    assert(index >> 3 == index / 8) by (bit_vector);
    let mat1 = kb.matrices[side][0][byte] & (1 << bit);
    let mat2 = kb.matrices[side][1][byte] & (1 << bit);
    let eidx = side * (NINJA_ROWS * NINJA_COLS) + row * NINJA_COLS + col;
    if mat1 != 0 && mat2 == 0 {
        out.led = Some(false);
        if kb.layer >= NINJA_LAYERS {
            return StepKind::Fault;
        }
        match kb.keys[side][kb.layer][row][col] {
            Key::Layer(lcmd) => {
                match lcmd {
                    LayerCMD::TMP(l) => {
                        let l = l as usize;
                        if l < NINJA_LAYERS {
                            kb.last_layer = kb.layer;
                            kb.layer = l;
                        }
                    },
                    LayerCMD::NEXT => {
                        if kb.layer < NINJA_LAYERS {
                            kb.layer += 1;
                        }
                    },
                    LayerCMD::PREV => {
                        if kb.layer > 0 {
                            kb.layer -= 1;
                        }
                    },
                    LayerCMD::FIRST => {
                        kb.layer = 0;
                    },
                    LayerCMD::LAST => {
                        kb.layer = NINJA_LAYERS - 1;
                    },
                    LayerCMD::SET(l) => {
                        let l = l as usize;
                        if l < NINJA_LAYERS {
                            kb.layer = l;
                        }
                    },
                }
                out.event = false;
                StepKind::Next
            },
            Key::Code(code) => {
                press_code_key(kb, out, eidx, code);
                StepKind::Next
            },
            Key::NoKey => StepKind::Next,
        }
    } else if mat1 == 0 && mat2 != 0 {
        out.led = Some(true);
        let code = kb.events[eidx];
        if code.0 != KC_NO_EVENT && (code.1 as usize) < REPORT_BUFF_MAX {
            out.event = true;
            kb.report_buff[code.1 as usize] = KC_NO_EVENT;
            return StepKind::NextColumn;
        }
        if kb.layer >= NINJA_LAYERS {
            return StepKind::Fault;
        }
        match kb.keys[side][kb.layer][row][col] {
            Key::Layer(lcmd) => {
                match lcmd {
                    LayerCMD::TMP(_l) => {
                        kb.layer = kb.last_layer;
                    },
                    _ => {},
                }
                out.event = false;
                StepKind::Next
            },
            Key::Code(code) => {
                release_code_key(kb, out, code);
                StepKind::Next
            },
            Key::NoKey => StepKind::Next,
        }
    } else {
        StepKind::Next
    }
}

/// Walks all key positions; `false` where a step fails.
fn run_scan(kb: &mut NinjaKb, out: &mut KbUpdate) -> (ok: bool)
    ensures
        final(kb).keys == old(kb).keys,
        final(kb).matrices == old(kb).matrices,
        ok == scan_from(old(kb).keys, old(kb).matrices, scan_view(*old(kb), *old(out)), 0, 0, 0) is Some,
        ok ==> scan_from(old(kb).keys, old(kb).matrices, scan_view(*old(kb), *old(out)), 0, 0, 0)
            == Some(scan_view(*final(kb), *final(out))),
{
    let ghost keys = kb.keys;
    let ghost m = kb.matrices;
    let ghost total = scan_from(keys, m, scan_view(*kb, *out), 0, 0, 0);
    assert(keys == old(kb).keys);
    let mut side: usize = 0;
    while side < NINJA_SIDES
        invariant
            side <= NINJA_SIDES,
            kb.keys == keys,
            kb.matrices == m,
            keys == old(kb).keys,
            m == old(kb).matrices,
            total == scan_from(old(kb).keys, old(kb).matrices, scan_view(*old(kb), *old(out)), 0, 0, 0),
            scan_from(keys, m, scan_view(*kb, *out), side as int, 0, 0) == total,
        decreases NINJA_SIDES - side,
    {
        let mut col: usize = 0;
        while col < NINJA_COLS
            invariant
                side < NINJA_SIDES,
                col <= NINJA_COLS,
                kb.keys == keys,
                kb.matrices == m,
                keys == old(kb).keys,
                m == old(kb).matrices,
                total == scan_from(old(kb).keys, old(kb).matrices, scan_view(*old(kb), *old(out)), 0, 0, 0),
                scan_from(keys, m, scan_view(*kb, *out), side as int, col as int, 0) == total,
            decreases NINJA_COLS - col,
        {
            let mut row: usize = 0;
            let mut next_col = false;
            while row < NINJA_ROWS && !next_col
                invariant
                    side < NINJA_SIDES,
                    col < NINJA_COLS,
                    row <= NINJA_ROWS,
                    kb.keys == keys,
                    kb.matrices == m,
                    keys == old(kb).keys,
                    m == old(kb).matrices,
                    total == scan_from(old(kb).keys, old(kb).matrices, scan_view(*old(kb), *old(out)), 0, 0, 0),
                    next_col ==> scan_from(keys, m, scan_view(*kb, *out), side as int, col + 1, 0) == total,
                    !next_col ==> scan_from(keys, m, scan_view(*kb, *out), side as int, col as int, row as int) == total,
                decreases NINJA_ROWS - row + (if next_col { 0int } else { 1int }),
            {
                match scan_key(kb, out, side, row, col) {
                    StepKind::Next => {
                        row += 1;
                    },
                    StepKind::NextColumn => {
                        next_col = true;
                    },
                    StepKind::Fault => {
                        return false;
                    },
                }
            }
            col += 1;
        }
        side += 1;
    }
    true
}

/// One scan of the keyboard, after the main side was scanned into
/// `main_scan` and the secondary side was read (`None` where the read
/// failed): each key that went down or up changes the layers or the
/// report, as `scan` says. A scan that would look a key up on a layer
/// outside the map halts the firmware; such scans are left out (see
/// `scan_faults`).
pub fn update_kb_state(ninja_kb: &mut NinjaKb, main_scan: Matrix, secondary: Option<Matrix>) -> (r: KbUpdate)
    requires
        scan(*old(ninja_kb), main_scan, secondary) is Some,
    ensures
        final(ninja_kb).keys == old(ninja_kb).keys,
        final(ninja_kb).matrices == shifted_matrices(old(ninja_kb).matrices, main_scan, secondary),
        final(ninja_kb).matrices[0][0] == main_scan,
        final(ninja_kb).matrices[0][1] == old(ninja_kb).matrices[0][0],
        final(ninja_kb).matrices[1][0] == match secondary {
            Some(b) => b,
            None => old(ninja_kb).matrices[1][0],
        },
        final(ninja_kb).matrices[1][1] == old(ninja_kb).matrices[1][0],
        scan(*old(ninja_kb), main_scan, secondary) == Some(scan_view(*final(ninja_kb), r)),
{
    let ghost before = *ninja_kb;
    shift_matrices(ninja_kb, main_scan, secondary);
    let mut out = KbUpdate { event: false, led: None };
    assert(scan_view(*ninja_kb, out) == scan_start(before));
    run_scan(ninja_kb, &mut out);
    out
}

/// Whether a scan would look a key up on a layer outside the map, where
/// the firmware halts.
pub fn scan_faults(ninja_kb: &NinjaKb, main_scan: Matrix, secondary: Option<Matrix>) -> (r: bool)
    ensures
        r == (scan(*ninja_kb, main_scan, secondary) is None),
{
    let mut copy = *ninja_kb;
    shift_matrices(&mut copy, main_scan, secondary);
    let mut out = KbUpdate { event: false, led: None };
    assert(scan_view(copy, out) == scan_start(*ninja_kb));
    let ok = run_scan(&mut copy, &mut out);
    !ok
}

fn shift_matrices(kb: &mut NinjaKb, main_scan: Matrix, secondary: Option<Matrix>)
    ensures
        final(kb).matrices == shifted_matrices(old(kb).matrices, main_scan, secondary),
        final(kb).keys == old(kb).keys,
        final(kb).layer == old(kb).layer,
        final(kb).last_layer == old(kb).last_layer,
        final(kb).report_buff == old(kb).report_buff,
        final(kb).events == old(kb).events,
{
    kb.matrices[0][1] = kb.matrices[0][0];
    kb.matrices[1][1] = kb.matrices[1][0];
    kb.matrices[0][0] = main_scan;
    match secondary {
        Some(buffer) => {
            kb.matrices[1][0] = buffer;
        },
        None => {},
    }
    assert(kb.matrices[0] =~= shifted_matrices(old(kb).matrices, main_scan, secondary)[0]);
    assert(kb.matrices[1] =~= shifted_matrices(old(kb).matrices, main_scan, secondary)[1]);
    assert(kb.matrices =~= shifted_matrices(old(kb).matrices, main_scan, secondary));
}

/// No code but `NoEventIndicated` stands twice in the report.
pub open spec fn report_distinct(report: Seq<u8>) -> bool {
    forall|i: int, j: int|
        0 <= i < j < report.len() && report[i] == report[j] ==> #[trigger] report[i] == KC_NO_EVENT
            && #[trigger] report[j] == KC_NO_EVENT
}

/// A report of the right size without repeated codes, with the kept
/// events beside it.
pub open spec fn scan_report_ok(st: ScanState) -> bool {
    &&& st.report.len() == REPORT_BUFF_MAX
    &&& st.events.len() == EVENT_SLOTS
    &&& report_distinct(st.report)
}

/// Active and held layers no further than one past the last.
pub open spec fn scan_layers_bounded(st: ScanState) -> bool {
    &&& 0 <= st.layer <= NINJA_LAYERS
    &&& 0 <= st.last_layer <= NINJA_LAYERS
}

/// What a scan may carry from one step to the next.
pub open spec fn scan_keeps(st: ScanState, next: ScanState) -> bool {
    &&& scan_report_ok(st) ==> scan_report_ok(next)
    &&& scan_layers_bounded(st) ==> scan_layers_bounded(next)
}

/// The search from `i` finds the first place at or after `i` that holds
/// `v`, or ends at the length where no such place exists.
pub proof fn lemma_first_index_bounds(s: Seq<u8>, v: u8, i: int)
    requires
        0 <= i <= s.len(),
    ensures
        i <= first_index_from(s, v, i) <= s.len(),
        first_index_from(s, v, i) < s.len() ==> s[first_index_from(s, v, i)] == v,
        forall|j: int| i <= j < first_index_from(s, v, i) ==> s[j] != v,
    decreases s.len() - i,
{
    if i < s.len() {
        lemma_first_index_bounds(s, v, i + 1);
    }
}

proof fn lemma_step_keeps_wf(keys: Keys, m: Matrices, st: ScanState, side: int, row: int, col: int)
    requires
        0 <= side < NINJA_SIDES,
        0 <= row < NINJA_ROWS,
        0 <= col < NINJA_COLS,
    ensures
        match scan_step(keys, m, st, side, row, col) {
            ScanStep::Next(next) => scan_keeps(st, next),
            ScanStep::NextColumn(next) => scan_keeps(st, next),
            ScanStep::Fault => true,
        },
{
    if !scan_report_ok(st) {
        return;
    }
    lemma_first_index_bounds(st.report, KC_NO_EVENT, 0);
    let eidx = event_index(side, row, col);
    let idx = matrix_index(row, col);
    let now = matrix_bit(m[side][0], idx);
    let before = matrix_bit(m[side][1], idx);
    if now && !before && 0 <= st.layer < NINJA_LAYERS {
        match keys[side][st.layer][row][col] {
            Key::Code(code) => {
                lemma_first_index_bounds(st.report, code, 0);
                let k = first_index(st.report, KC_NO_EVENT);
                if first_index(st.report, code) >= REPORT_BUFF_MAX && k < REPORT_BUFF_MAX {
                    let r2 = st.report.update(k, code);
                    assert forall|i: int, j: int|
                        0 <= i < j < r2.len() && r2[i] == r2[j] implies #[trigger] r2[i] == KC_NO_EVENT
                            && #[trigger] r2[j] == KC_NO_EVENT by {
                        if i == k || j == k {
                            assert(code != KC_NO_EVENT);
                        }
                    }
                }
            },
            _ => {},
        }
    } else if !now && before {
        let ev = st.events[eidx];
        if !(ev.0 != KC_NO_EVENT && ev.1 < REPORT_BUFF_MAX) && 0 <= st.layer < NINJA_LAYERS {
            match keys[side][st.layer][row][col] {
                Key::Code(code) => {
                    lemma_first_index_bounds(st.report, code, 0);
                },
                _ => {},
            }
        }
    }
}

proof fn lemma_scan_from_keeps_wf(keys: Keys, m: Matrices, st: ScanState, side: int, col: int, row: int)
    requires
        0 <= side,
        0 <= col,
        0 <= row,
    ensures
        scan_from(keys, m, st, side, col, row) matches Some(end) ==> scan_keeps(st, end),
    decreases NINJA_SIDES - side, NINJA_COLS - col, NINJA_ROWS - row,
{
    if side >= NINJA_SIDES {
    } else if col >= NINJA_COLS {
        lemma_scan_from_keeps_wf(keys, m, st, side + 1, 0, 0);
    } else if row >= NINJA_ROWS {
        lemma_scan_from_keeps_wf(keys, m, st, side, col + 1, 0);
    } else {
        lemma_step_keeps_wf(keys, m, st, side, row, col);
        match scan_step(keys, m, st, side, row, col) {
            ScanStep::Next(next) => lemma_scan_from_keeps_wf(keys, m, next, side, col, row + 1),
            ScanStep::NextColumn(next) => lemma_scan_from_keeps_wf(keys, m, next, side, col + 1, 0),
            ScanStep::Fault => {},
        }
    }
}

/// A scan keeps the report free of repeated codes.
pub proof fn lemma_scan_keeps_report_distinct(kb: NinjaKb, main_scan: Matrix, secondary: Option<Matrix>)
    requires
        report_distinct(kb.report_buff@),
    ensures
        scan(kb, main_scan, secondary) matches Some(end) ==> report_distinct(end.report),
{
    lemma_scan_from_keeps_wf(kb.keys, shifted_matrices(kb.matrices, main_scan, secondary), scan_start(kb), 0, 0, 0);
}

/// A scan keeps the active and the held layer at most one past the last
/// layer.
pub proof fn lemma_scan_keeps_layers_bounded(kb: NinjaKb, main_scan: Matrix, secondary: Option<Matrix>)
    requires
        kb.layer <= NINJA_LAYERS,
        kb.last_layer <= NINJA_LAYERS,
    ensures
        scan(kb, main_scan, secondary) matches Some(end) ==> end.layer <= NINJA_LAYERS && end.last_layer
            <= NINJA_LAYERS,
{
    lemma_scan_from_keeps_wf(kb.keys, shifted_matrices(kb.matrices, main_scan, secondary), scan_start(kb), 0, 0, 0);
}

/// No key of a side went down or up between two matrices.
pub open spec fn matrices_quiet(m: Matrices) -> bool {
    forall|side: int, row: int, col: int|
        0 <= side < NINJA_SIDES && 0 <= row < NINJA_ROWS && 0 <= col < NINJA_COLS ==> #[trigger] matrix_bit(
            m[side][0],
            matrix_index(row, col),
        ) == matrix_bit(m[side][1], matrix_index(row, col))
}

proof fn lemma_quiet_scan_from(keys: Keys, m: Matrices, st: ScanState, side: int, col: int, row: int)
    requires
        matrices_quiet(m),
        0 <= side,
        0 <= col,
        0 <= row,
    ensures
        scan_from(keys, m, st, side, col, row) == Some(st),
    decreases NINJA_SIDES - side, NINJA_COLS - col, NINJA_ROWS - row,
{
    if side >= NINJA_SIDES {
    } else if col >= NINJA_COLS {
        lemma_quiet_scan_from(keys, m, st, side + 1, 0, 0);
    } else if row >= NINJA_ROWS {
        lemma_quiet_scan_from(keys, m, st, side, col + 1, 0);
    } else {
        assert(matrix_bit(m[side][0], matrix_index(row, col)) == matrix_bit(m[side][1], matrix_index(row, col)));
        lemma_quiet_scan_from(keys, m, st, side, col, row + 1);
    }
}

/// A scan in which no key went down or up changes nothing and reports no
/// change.
pub proof fn lemma_quiet_scan_changes_nothing(kb: NinjaKb, main_scan: Matrix, secondary: Option<Matrix>)
    requires
        matrices_quiet(shifted_matrices(kb.matrices, main_scan, secondary)),
    ensures
        scan(kb, main_scan, secondary) == Some(scan_start(kb)),
{
    lemma_quiet_scan_from(kb.keys, shifted_matrices(kb.matrices, main_scan, secondary), scan_start(kb), 0, 0, 0);
}

/// The key at a position did not go down or up.
pub open spec fn quiet_at(m: Matrices, side: int, row: int, col: int) -> bool {
    matrix_bit(m[side][0], matrix_index(row, col)) == matrix_bit(m[side][1], matrix_index(row, col))
}

/// No key but the one at (`ps`, `pr`, `pc`) went down or up.
pub open spec fn only_change_at(m: Matrices, ps: int, pr: int, pc: int) -> bool {
    forall|side: int, row: int, col: int|
        0 <= side < NINJA_SIDES && 0 <= row < NINJA_ROWS && 0 <= col < NINJA_COLS && !(side == ps && row == pr
            && col == pc) ==> #[trigger] quiet_at(m, side, row, col)
}

/// Scan order: side, then column, then row.
pub open spec fn scan_pos_le(side: int, col: int, row: int, ps: int, pc: int, pr: int) -> bool {
    side < ps || (side == ps && (col < pc || (col == pc && row <= pr)))
}

/// What a scan step leaves, whichever way the scan goes on.
pub open spec fn step_outcome(step: ScanStep) -> Option<ScanState> {
    match step {
        ScanStep::Next(next) => Some(next),
        ScanStep::NextColumn(next) => Some(next),
        ScanStep::Fault => None,
    }
}

proof fn lemma_single_change(
    keys: Keys,
    m: Matrices,
    st: ScanState,
    side: int,
    col: int,
    row: int,
    ps: int,
    pr: int,
    pc: int,
)
    requires
        only_change_at(m, ps, pr, pc),
        0 <= ps < NINJA_SIDES,
        0 <= pr < NINJA_ROWS,
        0 <= pc < NINJA_COLS,
        0 <= side,
        0 <= col,
        0 <= row,
    ensures
        scan_from(keys, m, st, side, col, row) == if scan_pos_le(side, col, row, ps, pc, pr) {
            step_outcome(scan_step(keys, m, st, ps, pr, pc))
        } else {
            Some(st)
        },
    decreases NINJA_SIDES - side, NINJA_COLS - col, NINJA_ROWS - row,
{
    if side >= NINJA_SIDES {
    } else if col >= NINJA_COLS {
        lemma_single_change(keys, m, st, side + 1, 0, 0, ps, pr, pc);
    } else if row >= NINJA_ROWS {
        lemma_single_change(keys, m, st, side, col + 1, 0, ps, pr, pc);
    } else if side == ps && col == pc && row == pr {
        match scan_step(keys, m, st, side, row, col) {
            ScanStep::Next(next) => lemma_single_change(keys, m, next, side, col, row + 1, ps, pr, pc),
            ScanStep::NextColumn(next) => lemma_single_change(keys, m, next, side, col + 1, 0, ps, pr, pc),
            ScanStep::Fault => {},
        }
    } else {
        assert(quiet_at(m, side, row, col));
        lemma_single_change(keys, m, st, side, col, row + 1, ps, pr, pc);
    }
}

/// A code key that goes down in one scan and up in the next, while no
/// other key moves, puts its code into the first empty place of the report
/// and takes it out again: the report ends as it began, and both scans say
/// the report changed. The active layer must be a layer of the map, the
/// code a key's (not 0) and absent from the report, and the report must
/// have an empty place.
pub proof fn lemma_press_then_release(kb: NinjaKb, m1: Matrices, m2: Matrices, side: int, row: int, col: int)
    requires
        kb.layer < NINJA_LAYERS,
        0 <= side < NINJA_SIDES,
        0 <= row < NINJA_ROWS,
        0 <= col < NINJA_COLS,
        kb.keys[side][kb.layer as int][row][col] is Code,
        kb.keys[side][kb.layer as int][row][col]->Code_0 != KC_NO_EVENT,
        first_index(kb.report_buff@, kb.keys[side][kb.layer as int][row][col]->Code_0) >= REPORT_BUFF_MAX,
        first_index(kb.report_buff@, KC_NO_EVENT) < REPORT_BUFF_MAX,
        only_change_at(m1, side, row, col),
        matrix_bit(m1[side][0], matrix_index(row, col)),
        !matrix_bit(m1[side][1], matrix_index(row, col)),
        only_change_at(m2, side, row, col),
        !matrix_bit(m2[side][0], matrix_index(row, col)),
        matrix_bit(m2[side][1], matrix_index(row, col)),
    ensures
        scan_from(kb.keys, m1, scan_start(kb), 0, 0, 0) matches Some(pressed) && {
            &&& pressed.event
            &&& pressed.layer == kb.layer
            &&& pressed.report == kb.report_buff@.update(
                first_index(kb.report_buff@, KC_NO_EVENT),
                kb.keys[side][kb.layer as int][row][col]->Code_0,
            )
            &&& scan_from(kb.keys, m2, ScanState { event: false, led: None, ..pressed }, 0, 0, 0) matches Some(
                released,
            ) && {
                &&& released.event
                &&& released.layer == kb.layer
                &&& released.report == kb.report_buff@
            }
        },
{
    let st = scan_start(kb);
    let keys = kb.keys;
    lemma_first_index_bounds(st.report, KC_NO_EVENT, 0);
    let code = keys[side][st.layer][row][col]->Code_0;
    let k = first_index(st.report, KC_NO_EVENT);
    lemma_single_change(keys, m1, st, 0, 0, 0, side, row, col);
    let pressed = press_code(ScanState { led: Some(false), ..st }, event_index(side, row, col), code);
    assert(scan_from(keys, m1, st, 0, 0, 0) == Some(pressed));
    let mid = ScanState { event: false, led: None, ..pressed };
    lemma_single_change(keys, m2, mid, 0, 0, 0, side, row, col);
    assert(pressed.events[event_index(side, row, col)] == (code, k as u8));
    assert(mid.report.update(k, KC_NO_EVENT) =~= st.report);
}

/// A layer key that goes down while no other key moves changes only the
/// layers, and says the report did not change: `NEXT` moves one layer up,
/// `PREV` one down (not below the first), `FIRST` and `LAST` go to the
/// first and last layer, `SET` to its layer, and `TMP` to its layer while
/// keeping the layer it came from. `SET` and `TMP` with a layer outside the
/// map change nothing.
pub proof fn lemma_layer_key_press(kb: NinjaKb, m: Matrices, side: int, row: int, col: int)
    requires
        kb.layer < NINJA_LAYERS,
        0 <= side < NINJA_SIDES,
        0 <= row < NINJA_ROWS,
        0 <= col < NINJA_COLS,
        kb.keys[side][kb.layer as int][row][col] is Layer,
        only_change_at(m, side, row, col),
        matrix_bit(m[side][0], matrix_index(row, col)),
        !matrix_bit(m[side][1], matrix_index(row, col)),
    ensures
        scan_from(kb.keys, m, scan_start(kb), 0, 0, 0) matches Some(end) && {
            &&& !end.event
            &&& end.report == kb.report_buff@
            &&& end.events == kb.events@
            &&& match kb.keys[side][kb.layer as int][row][col]->Layer_0 {
                LayerCMD::NEXT => end.layer == kb.layer + 1 && end.last_layer == kb.last_layer,
                LayerCMD::PREV => end.layer == (if kb.layer > 0 { kb.layer - 1 } else { 0 })
                    && end.last_layer == kb.last_layer,
                LayerCMD::FIRST => end.layer == 0 && end.last_layer == kb.last_layer,
                LayerCMD::LAST => end.layer == NINJA_LAYERS - 1 && end.last_layer == kb.last_layer,
                LayerCMD::SET(l) => end.layer == (if l < NINJA_LAYERS { l as int } else { kb.layer as int })
                    && end.last_layer == kb.last_layer,
                LayerCMD::TMP(l) => if l < NINJA_LAYERS {
                    end.layer == l && end.last_layer == kb.layer
                } else {
                    end.layer == kb.layer && end.last_layer == kb.last_layer
                },
            }
        },
{
    lemma_single_change(kb.keys, m, scan_start(kb), 0, 0, 0, side, row, col);
}

/// A held-layer (`TMP`) key of the active layer that goes up while no
/// other key moves, and whose position keeps no event, goes back to the
/// layer it came from and leaves the report as it was.
pub proof fn lemma_layer_key_release(kb: NinjaKb, m: Matrices, side: int, row: int, col: int)
    requires
        kb.layer < NINJA_LAYERS,
        0 <= side < NINJA_SIDES,
        0 <= row < NINJA_ROWS,
        0 <= col < NINJA_COLS,
        kb.keys[side][kb.layer as int][row][col] matches Key::Layer(LayerCMD::TMP(_)),
        kb.events[event_index(side, row, col)].0 == KC_NO_EVENT,
        only_change_at(m, side, row, col),
        !matrix_bit(m[side][0], matrix_index(row, col)),
        matrix_bit(m[side][1], matrix_index(row, col)),
    ensures
        scan_from(kb.keys, m, scan_start(kb), 0, 0, 0) matches Some(end) && {
            &&& !end.event
            &&& end.layer == kb.last_layer
            &&& end.report == kb.report_buff@
        },
{
    lemma_single_change(kb.keys, m, scan_start(kb), 0, 0, 0, side, row, col);
}

impl NinjaKb {
    /// The state at start: no key down, the first layer, an empty report,
    /// no kept events.
    pub fn new(keys: Keys) -> (kb: NinjaKb)
        ensures
            kb.keys == keys,
            kb.layer == 0,
            kb.last_layer == 0,
            forall|side: int, i: int, j: int|
                0 <= side < NINJA_SIDES && 0 <= i < 2 && 0 <= j < KB_N_BYTES ==> #[trigger] kb.matrices[side][i][j] == 0,
            forall|i: int| 0 <= i < REPORT_BUFF_MAX ==> #[trigger] kb.report_buff[i] == KC_NO_EVENT,
            forall|i: int| 0 <= i < EVENT_SLOTS ==> #[trigger] kb.events[i] == (KC_NO_EVENT, 0u8),
    {
        proof {
            lemma_kb_n_bytes();
        }
        let row: Matrix = [0u8; KB_N_BYTES];
        let pair: [Matrix; 2] = [row; 2];
        let matrices: Matrices = [pair; NINJA_SIDES];
        assert forall|side: int, i: int, j: int|
            0 <= side < NINJA_SIDES && 0 <= i < 2 && 0 <= j < KB_N_BYTES implies #[trigger] matrices[side][i][j] == 0 by {
            assert(matrices[side] == pair);
            assert(pair[i] == row);
            assert(row[j] == 0);
        }
        let kb = NinjaKb {
            matrices,
            keys,
            layer: 0,
            last_layer: 0,
            report_buff: [KC_NO_EVENT; REPORT_BUFF_MAX],
            events: [(KC_NO_EVENT, 0u8); EVENT_SLOTS],
        };
        kb
    }
}

} // verus!
