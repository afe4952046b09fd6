//! The NEO keyboard matrix: which physical key sits at each row and column
//! of the scan matrix, what it types, and a scripted keyboard that answers
//! the firmware's matrix scans.

use vstd::prelude::*;
use crate::text::{push_char, push_hex};

verus! {

/// A key by its matrix code: the low nibble is the row, the high nibble
/// the column.
#[derive(Clone, Copy, Debug, PartialEq, Eq, Structural)]
pub struct MatrixKey(u8);

impl MatrixKey {
    /// The matrix code of the key.
    pub closed spec fn code_spec(self) -> u8 {
        self.0
    }

    /// The key with matrix code `code`.
    pub closed spec fn from_code(code: u8) -> MatrixKey {
        MatrixKey(code)
    }

    /// The key with a code has that code.
    pub proof fn lemma_from_code(code: u8)
        ensures
            MatrixKey::from_code(code).code_spec() == code,
    {
    }

    /// A key from its matrix code; the column must be on the matrix.
    pub fn new(code: u8) -> (r: Self)
        requires
            code < 0x80,
        ensures
            r.code_spec() == code,
    {
        MatrixKey(code)
    }

    /// The matrix code of the key.
    pub fn code(self) -> (r: u8)
        ensures
            r == self.code_spec(),
    {
        self.0
    }
}

/// The column bit of a matrix code on the input port.
pub open spec fn column_mask(code: u8) -> u8
    recommends
        code < 0x80,
{
    (1u8 << (code / 16)) as u8
}

/// Whether a key shows up when `rows` are selected; with no selection, every
/// key shows.
pub open spec fn visible_on(code: u8, rows: Option<u16>) -> bool {
    match rows {
        None => true,
        Some(r) => (r >> (code % 16) as u16) & 1u16 == 1u16,
    }
}

fn column_mask_exec(code: u8) -> (r: u8)
    requires
        code < 0x80,
    ensures
        r == column_mask(code),
{
    1u8 << (code / 16)
}

fn visible_on_exec(code: u8, rows: Option<u16>) -> (r: bool)
    ensures
        r == visible_on(code, rows),
{
    match rows {
        None => true,
        Some(r) => (r >> (code % 16) as u16) & 1u16 == 1u16,
    }
}

/// A key of the matrix with its position and the firmware's logical code.
#[derive(Clone, Copy, Debug, PartialEq, Eq, Structural)]
pub struct MatrixCell {
    pub raw: MatrixKey,
    pub row: u8,
    pub col: u8,
    pub logical: u8,
}

/// The firmware's logical key code at each matrix position, row by row,
/// eight columns a row; 0xFF where no key is wired.
pub open spec fn matrix_table() -> Seq<u8> {
    seq![
        0x00u8, 0x0a, 0x12, 0x1c, 0x25, 0x31, 0x3b, 0xff, 0xff, 0xff, 0xff, 0xff, 0x26, 0xff, 0x50, 0xff,
        0x01, 0xff, 0x13, 0x1d, 0x27, 0x32, 0x3d, 0xff, 0x02, 0x0b, 0x14, 0x1e, 0x28, 0x33, 0xff, 0x47,
        0xff, 0x0c, 0xff, 0x1f, 0xff, 0x34, 0xff, 0x48, 0xff, 0x0d, 0xff, 0xff, 0xff, 0xff, 0x3e, 0x49,
        0xff, 0xff, 0xff, 0xff, 0x29, 0xff, 0xff, 0x4a, 0xff, 0xff, 0xff, 0xff, 0x2a, 0xff, 0x3f, 0x4b,
        0xff, 0xff, 0xff, 0xff, 0xff, 0xff, 0xff, 0xff, 0x03, 0x0e, 0x15, 0xff, 0x2b, 0x35, 0x40, 0x4c,
        0x04, 0x0f, 0x16, 0x20, 0x2c, 0x36, 0x41, 0xff, 0x05, 0xff, 0x17, 0x21, 0x2d, 0x37, 0x42, 0xff,
        0x06, 0xff, 0x18, 0x22, 0x2e, 0x38, 0x43, 0x4d, 0x07, 0x10, 0x19, 0x23, 0x2f, 0x39, 0x44, 0x4e,
        0x08, 0xff, 0x1a, 0xff, 0xff, 0xff, 0x45, 0xff, 0x09, 0x11, 0x1b, 0x24, 0x30, 0x3a, 0x46, 0x4f,
    ]
}

/// The USB HID usage of each logical key code; 0xFF for none.
pub open spec fn hid_usage_table() -> Seq<u8> {
    seq![
        0x30u8, 0x40, 0x2f, 0x2a, 0x3c, 0x39, 0x2b, 0x17, 0xe1, 0x1c, 0x3f, 0x34, 0xe3, 0x51, 0x3e, 0x3d,
        0x0a, 0x0b, 0x0e, 0x0f, 0x33, 0x31, 0x07, 0x16, 0x04, 0x09, 0xff, 0x0d, 0x0c, 0x12, 0x13, 0x4a,
        0x08, 0x1a, 0x14, 0x15, 0x18, 0x2e, 0xe2, 0x41, 0x2d, 0x58, 0xff, 0x42, 0x3b, 0x3a, 0x35, 0x22,
        0x23, 0x25, 0x26, 0x27, 0x45, 0x43, 0x20, 0x1f, 0x1e, 0x21, 0x24, 0x36, 0xe6, 0x37, 0x4d, 0x44,
        0x28, 0x06, 0x1b, 0x1d, 0x19, 0xe5, 0x10, 0x38, 0x29, 0x50, 0x4f, 0x52, 0x2c, 0xe0, 0x05, 0x11,
        0x4c,
    ]
}

fn matrix_entry(index: usize) -> (r: u8)
    requires
        index < 128,
    ensures
        r == matrix_table()[index as int],
{
    let table: [u8; 128] = [
        0x00, 0x0a, 0x12, 0x1c, 0x25, 0x31, 0x3b, 0xff, 0xff, 0xff, 0xff, 0xff, 0x26, 0xff, 0x50, 0xff,
        0x01, 0xff, 0x13, 0x1d, 0x27, 0x32, 0x3d, 0xff, 0x02, 0x0b, 0x14, 0x1e, 0x28, 0x33, 0xff, 0x47,
        0xff, 0x0c, 0xff, 0x1f, 0xff, 0x34, 0xff, 0x48, 0xff, 0x0d, 0xff, 0xff, 0xff, 0xff, 0x3e, 0x49,
        0xff, 0xff, 0xff, 0xff, 0x29, 0xff, 0xff, 0x4a, 0xff, 0xff, 0xff, 0xff, 0x2a, 0xff, 0x3f, 0x4b,
        0xff, 0xff, 0xff, 0xff, 0xff, 0xff, 0xff, 0xff, 0x03, 0x0e, 0x15, 0xff, 0x2b, 0x35, 0x40, 0x4c,
        0x04, 0x0f, 0x16, 0x20, 0x2c, 0x36, 0x41, 0xff, 0x05, 0xff, 0x17, 0x21, 0x2d, 0x37, 0x42, 0xff,
        0x06, 0xff, 0x18, 0x22, 0x2e, 0x38, 0x43, 0x4d, 0x07, 0x10, 0x19, 0x23, 0x2f, 0x39, 0x44, 0x4e,
        0x08, 0xff, 0x1a, 0xff, 0xff, 0xff, 0x45, 0xff, 0x09, 0x11, 0x1b, 0x24, 0x30, 0x3a, 0x46, 0x4f,
    ];
    assert(table@ =~= matrix_table());
    table[index]
}

fn hid_usage_entry(index: usize) -> (r: u8)
    requires
        index < 81,
    ensures
        r == hid_usage_table()[index as int],
{
    let table: [u8; 81] = [
        0x30, 0x40, 0x2f, 0x2a, 0x3c, 0x39, 0x2b, 0x17, 0xe1, 0x1c, 0x3f, 0x34, 0xe3, 0x51, 0x3e, 0x3d,
        0x0a, 0x0b, 0x0e, 0x0f, 0x33, 0x31, 0x07, 0x16, 0x04, 0x09, 0xff, 0x0d, 0x0c, 0x12, 0x13, 0x4a,
        0x08, 0x1a, 0x14, 0x15, 0x18, 0x2e, 0xe2, 0x41, 0x2d, 0x58, 0xff, 0x42, 0x3b, 0x3a, 0x35, 0x22,
        0x23, 0x25, 0x26, 0x27, 0x45, 0x43, 0x20, 0x1f, 0x1e, 0x21, 0x24, 0x36, 0xe6, 0x37, 0x4d, 0x44,
        0x28, 0x06, 0x1b, 0x1d, 0x19, 0xe5, 0x10, 0x38, 0x29, 0x50, 0x4f, 0x52, 0x2c, 0xe0, 0x05, 0x11,
        0x4c,
    ];
    assert(table@ =~= hid_usage_table());
    table[index]
}

/// The logical key at a matrix code, if a key is wired there.
pub open spec fn code_logical(value: u8) -> Option<u8> {
    let row = value % 16;
    let col = value / 16;
    if col > 7 {
        None
    } else {
        let l = matrix_table()[row * 8 + col];
        if l == 0xff {
            None
        } else {
            Some(l)
        }
    }
}

/// The logical key at a matrix code, if a key is wired there.
pub fn matrix_code_to_logical(value: u8) -> (r: Option<u8>)
    ensures
        r == code_logical(value),
{
    let row = value % 16;
    let col = value / 16;
    if col > 7 {
        return None;
    }
    let logical = matrix_entry(row as usize * 8 + col as usize);
    if logical == 0xff {
        None
    } else {
        Some(logical)
    }
}

/// The key at a matrix code, if one is wired there.
pub fn matrix_key_for_code(value: u8) -> (r: Option<MatrixKey>)
    ensures
        code_logical(value) is Some ==> (r matches Some(k) && k.code_spec() == value),
        code_logical(value) is None ==> r is None,
{
    match matrix_code_to_logical(value) {
        Some(_) => Some(MatrixKey(value)),
        None => None,
    }
}

/// The cell of matrix position `i` (row `i / 8`, column `i % 8`).
pub open spec fn cell_at(i: int) -> MatrixCell {
    MatrixCell {
        raw: MatrixKey::from_code(((i % 8) * 16 + i / 8) as u8),
        row: (i / 8) as u8,
        col: (i % 8) as u8,
        logical: matrix_table()[i],
    }
}

/// The wired cells among the first `n` matrix positions, in order.
pub open spec fn cells_upto(n: int) -> Seq<MatrixCell>
    decreases n,
{
    if n <= 0 {
        Seq::empty()
    } else if matrix_table()[n - 1] != 0xff {
        cells_upto(n - 1).push(cell_at(n - 1))
    } else {
        cells_upto(n - 1)
    }
}

/// Every wired key of the matrix, row by row.
pub fn matrix_cells() -> (r: Vec<MatrixCell>)
    ensures
        r@ == cells_upto(128),
{
    let mut cells: Vec<MatrixCell> = Vec::new();
    let mut i: usize = 0;
    while i < 128
        invariant
            i <= 128,
            cells@ == cells_upto(i as int),
        decreases 128 - i,
    {
        let logical = matrix_entry(i);
        if logical != 0xff {
            let row = (i / 8) as u8;
            let col = (i % 8) as u8;
            cells.push(MatrixCell { raw: MatrixKey(col * 16 + row), row, col, logical });
        }
        i = i + 1;
    }
    cells
}

/// The HID usage a matrix code sends, if any.
pub open spec fn code_usage(value: u8) -> Option<u8> {
    match code_logical(value) {
        Some(l) => if l < 81 && hid_usage_table()[l as int] != 0xff {
            Some(hid_usage_table()[l as int])
        } else {
            None
        },
        None => None,
    }
}

fn matrix_code_to_hid_usage(value: u8) -> (r: Option<u8>)
    ensures
        r == code_usage(value),
{
    match matrix_code_to_logical(value) {
        Some(l) => {
            if l >= 81 {
                return None;
            }
            let usage = hid_usage_entry(l as usize);
            if usage == 0xff {
                None
            } else {
                Some(usage)
            }
        },
        None => None,
    }
}

/// The character a HID usage types, unshifted.
pub open spec fn usage_char(usage: u8) -> Option<char> {
    if 0x04 <= usage <= 0x1d {
        Some(((0x61 + (usage - 0x04)) as u8) as char)
    } else if 0x1e <= usage <= 0x26 {
        Some(((0x31 + (usage - 0x1e)) as u8) as char)
    } else if usage == 0x27 {
        Some('0')
    } else if usage == 0x2c {
        Some(' ')
    } else if usage == 0x2d {
        Some('-')
    } else if usage == 0x2e {
        Some('=')
    } else if usage == 0x2f {
        Some('[')
    } else if usage == 0x30 {
        Some(']')
    } else if usage == 0x31 {
        Some('\\')
    } else if usage == 0x33 {
        Some(';')
    } else if usage == 0x34 {
        Some('\'')
    } else if usage == 0x35 {
        Some('`')
    } else if usage == 0x36 {
        Some(',')
    } else if usage == 0x37 {
        Some('.')
    } else if usage == 0x38 {
        Some('/')
    } else {
        None
    }
}

fn hid_usage_to_char(usage: u8) -> (r: Option<char>)
    ensures
        r == usage_char(usage),
{
    if 0x04 <= usage && usage <= 0x1d {
        Some((0x61 + (usage - 0x04)) as char)
    } else if 0x1e <= usage && usage <= 0x26 {
        Some((0x31 + (usage - 0x1e)) as char)
    } else {
        match usage {
            0x27 => Some('0'),
            0x2c => Some(' '),
            0x2d => Some('-'),
            0x2e => Some('='),
            0x2f => Some('['),
            0x30 => Some(']'),
            0x31 => Some('\\'),
            0x33 => Some(';'),
            0x34 => Some('\''),
            0x35 => Some('`'),
            0x36 => Some(','),
            0x37 => Some('.'),
            0x38 => Some('/'),
            _ => None,
        }
    }
}

/// The character a matrix code types, if any.
pub open spec fn code_char(value: u8) -> Option<char> {
    match code_usage(value) {
        Some(u) => usage_char(u),
        None => None,
    }
}

/// The character a matrix code types, if any.
pub fn matrix_code_to_char(value: u8) -> (r: Option<char>)
    ensures
        r == code_char(value),
{
    match matrix_code_to_hid_usage(value) {
        Some(u) => hid_usage_to_char(u),
        None => None,
    }
}

/// Whether a matrix code types a character (the other keys are the
/// emulator's on-screen buttons).
pub fn matrix_key_is_character(value: u8) -> (r: bool)
    ensures
        r == code_char(value).is_some(),
{
    matrix_code_to_char(value).is_some()
}

/// The name of a key that types no character, by HID usage.
pub open spec fn usage_label(usage: u8) -> Option<Seq<char>> {
    if usage == 0x28 {
        Some("Enter"@)
    } else if usage == 0x29 {
        Some("Esc"@)
    } else if usage == 0x2a {
        Some("Backspace"@)
    } else if usage == 0x2b {
        Some("Tab"@)
    } else if usage == 0x39 {
        Some("Caps Lock"@)
    } else if usage == 0x4a {
        Some("Home"@)
    } else if usage == 0x4c {
        Some("Delete"@)
    } else if usage == 0x4d {
        Some("End"@)
    } else if usage == 0x4f {
        Some("Right"@)
    } else if usage == 0x50 {
        Some("Left"@)
    } else if usage == 0x51 {
        Some("Down"@)
    } else if usage == 0x52 {
        Some("Up"@)
    } else if usage == 0xe0 {
        Some("Ctrl"@)
    } else if usage == 0xe1 {
        Some("Shift"@)
    } else if usage == 0xe2 {
        Some("Alt/Option"@)
    } else if usage == 0xe3 {
        Some("Command"@)
    } else if usage == 0xe5 {
        Some("Right Shift"@)
    } else if usage == 0xe6 {
        Some("Right Alt"@)
    } else {
        None
    }
}

fn hid_usage_to_special_label(usage: u8) -> (r: Option<&'static str>)
    ensures
        match r {
            Some(s) => usage_label(usage) == Some(s@),
            None => usage_label(usage) is None,
        },
{
    match usage {
        0x28 => Some("Enter"),
        0x29 => Some("Esc"),
        0x2a => Some("Backspace"),
        0x2b => Some("Tab"),
        0x39 => Some("Caps Lock"),
        0x4a => Some("Home"),
        0x4c => Some("Delete"),
        0x4d => Some("End"),
        0x4f => Some("Right"),
        0x50 => Some("Left"),
        0x51 => Some("Down"),
        0x52 => Some("Up"),
        0xe0 => Some("Ctrl"),
        0xe1 => Some("Shift"),
        0xe2 => Some("Alt/Option"),
        0xe3 => Some("Command"),
        0xe5 => Some("Right Shift"),
        0xe6 => Some("Right Alt"),
        _ => None,
    }
}

/// The printed name of a key, by matrix code.
pub open spec fn code_label(value: u8) -> Option<Seq<char>> {
    if value == 0x4b {
        Some("File 1"@)
    } else if value == 0x4a {
        Some("File 2"@)
    } else if value == 0x0a {
        Some("File 3"@)
    } else if value == 0x1a {
        Some("File 4"@)
    } else if value == 0x19 {
        Some("File 5"@)
    } else if value == 0x10 {
        Some("File 6"@)
    } else if value == 0x02 {
        Some("File 7"@)
    } else if value == 0x42 {
        Some("File 8"@)
    } else if value == 0x49 {
        Some("Print"@)
    } else if value == 0x59 {
        Some("Spell Check"@)
    } else if value == 0x67 {
        Some("Find"@)
    } else if value == 0x54 {
        Some("Clear File"@)
    } else if value == 0x34 {
        Some("Home"@)
    } else if value == 0x65 {
        Some("End"@)
    } else if value == 0x46 {
        Some("Applets"@)
    } else if value == 0x47 {
        Some("Send"@)
    } else {
        match code_usage(value) { Some(u) => usage_label(u), None => None }
    }
}

fn physical_key_label(value: u8) -> (r: Option<&'static str>)
    ensures
        match r {
            Some(s) => code_label(value) == Some(s@),
            None => code_label(value) is None,
        },
{
    match value {
        0x4b => Some("File 1"),
        0x4a => Some("File 2"),
        0x0a => Some("File 3"),
        0x1a => Some("File 4"),
        0x19 => Some("File 5"),
        0x10 => Some("File 6"),
        0x02 => Some("File 7"),
        0x42 => Some("File 8"),
        0x49 => Some("Print"),
        0x59 => Some("Spell Check"),
        0x67 => Some("Find"),
        0x54 => Some("Clear File"),
        0x34 => Some("Home"),
        0x65 => Some("End"),
        0x46 => Some("Applets"),
        0x47 => Some("Send"),
        _ => match matrix_code_to_hid_usage(value) { Some(u) => hid_usage_to_special_label(u), None => None },
    }
}

/// The label of a key for the emulator's on-screen keyboard: its printed
/// name, else the character it types, else its code in hexadecimal (with
/// its logical code when it has one).
pub open spec fn key_label(value: u8) -> Seq<char> {
    match code_label(value) {
        Some(l) => l,
        None => match code_char(value) {
            Some(c) => seq![c],
            None => match code_logical(value) {
                Some(l) => "0x"@ + crate::text::hex_digits(value as nat, 2) + " (L0x"@
                    + crate::text::hex_digits(l as nat, 2) + ")"@,
                None => "0x"@ + crate::text::hex_digits(value as nat, 2),
            },
        },
    }
}

/// The label of a key for the emulator's on-screen keyboard.
pub fn matrix_key_label(value: u8) -> (r: String)
    ensures
        r@ == key_label(value),
{
    if let Some(label) = physical_key_label(value) {
        return String::from_str(label);
    }
    if let Some(ch) = matrix_code_to_char(value) {
        let mut s = String::new();
        push_char(&mut s, ch);
        assert(s@ =~= seq![ch]);
        return s;
    }
    let mut s = String::from_str("0x");
    push_hex(&mut s, value as u64, 2);
    if let Some(logical) = matrix_code_to_logical(value) {
        s.append(" (L0x");
        push_hex(&mut s, logical as u64, 2);
        s.append(")");
    }
    s
}

/// `c` with ASCII capitals made small.
pub open spec fn ascii_lower(c: char) -> char {
    if 'A' <= c <= 'Z' {
        ((c as u32) + 32) as char
    } else {
        c
    }
}

/// The first matrix code, scanning rows 0 to 15 and in each row columns 0
/// to 7, that types `c`, among the first `n` positions of that scan.
pub open spec fn first_code_for(c: char, n: int) -> Option<u8>
    decreases n,
{
    if n <= 0 {
        None
    } else {
        match first_code_for(c, n - 1) {
            Some(v) => Some(v),
            None => {
                let i = n - 1;
                let code = ((i % 8) * 16 + i / 8) as u8;
                if code_char(code) == Some(c) {
                    Some(code)
                } else {
                    None
                }
            },
        }
    }
}

/// The key that types `value`, ignoring case.
pub fn matrix_key_for_char(value: char) -> (r: Option<MatrixKey>)
    ensures
        match first_code_for(ascii_lower(value), 128) {
            Some(code) => r matches Some(k) && k.code_spec() == code,
            None => r is None,
        },
{
    let normalized = if 'A' <= value && value <= 'Z' { ((value as u32) + 32) as u8 as char } else { value };
    assert(normalized == ascii_lower(value));
    let mut i: usize = 0;
    while i < 128
        invariant
            i <= 128,
            normalized == ascii_lower(value),
            first_code_for(normalized, i as int) is None,
        decreases 128 - i,
    {
        let code = ((i % 8) * 16 + i / 8) as u8;
        if matrix_code_to_char(code) == Some(normalized) {
            assert(first_code_for(normalized, i + 1) == Some(code));
            proof {
                lemma_first_code_stays(normalized, i as int + 1, 128);
            }
            return Some(MatrixKey(code));
        }
        i = i + 1;
    }
    None
}

proof fn lemma_first_code_stays(c: char, n: int, m: int)
    requires
        0 <= n <= m,
        first_code_for(c, n) is Some,
    ensures
        first_code_for(c, m) == first_code_for(c, n),
    decreases m - n,
{
    if m > n {
        lemma_first_code_stays(c, n, m - 1);
    }
}

/// A step of a keyboard script: up to four keys held for a number of matrix
/// reads, visible on the selected rows only or on every row.
#[derive(Clone, Copy, Debug)]
pub struct KeyPhase {
    pub key_codes: [Option<MatrixKey>; 4],
    pub reads: usize,
    pub all_rows: bool,
}

/// Whether every key of a script step has a column on the matrix.
pub open spec fn phase_valid(p: KeyPhase) -> bool {
    forall|i: int| 0 <= i < 4 ==> (#[trigger] p.key_codes@[i] matches Some(k) ==> k.code_spec() < 0x80)
}

/// The columns that the keys among `slots` pull low when `rows` are
/// selected.
pub open spec fn slots_mask(slots: Seq<Option<MatrixKey>>, rows: Option<u16>) -> u8
    decreases slots.len(),
{
    if slots.len() == 0 {
        0
    } else {
        let m = match slots.last() {
            Some(k) => if visible_on(k.code_spec(), rows) { column_mask(k.code_spec()) } else { 0u8 },
            None => 0u8,
        };
        slots_mask(slots.drop_last(), rows) | m
    }
}

/// The columns that held keys pull low when `rows` are selected.
pub open spec fn held_mask(held: Seq<MatrixKey>, rows: Option<u16>) -> u8
    decreases held.len(),
{
    if held.len() == 0 {
        0
    } else {
        let k = held.last();
        held_mask(held.drop_last(), rows) | (if visible_on(k.code_spec(), rows) { column_mask(k.code_spec()) } else { 0u8 })
    }
}

/// `s` without the occurrences of `key`.
pub open spec fn without_key(s: Seq<MatrixKey>, key: MatrixKey) -> Seq<MatrixKey>
    decreases s.len(),
{
    if s.len() == 0 {
        s
    } else if s.last() == key {
        without_key(s.drop_last(), key)
    } else {
        without_key(s.drop_last(), key).push(s.last())
    }
}

/// The four key slots of a script step holding `keys` (the first four).
pub open spec fn slots_of(keys: Seq<MatrixKey>) -> Seq<Option<MatrixKey>> {
    Seq::new(4, |i: int| if i < keys.len() { Some(keys[i]) } else { None })
}

/// The four empty key slots of a release step.
pub open spec fn no_keys() -> Seq<Option<MatrixKey>> {
    seq![None::<MatrixKey>, None, None, None]
}

/// `after` is `before` with a press step (`down` held for `hold` reads)
/// and a release step (`rest` reads) added, both on every row when
/// `all_rows`, else on the selected rows.
pub open spec fn tapped(
    before: Seq<KeyPhase>,
    after: Seq<KeyPhase>,
    down: Seq<Option<MatrixKey>>,
    hold: usize,
    rest: usize,
    all_rows: bool,
) -> bool {
    &&& after.len() == before.len() + 2
    &&& after.subrange(0, before.len() as int) == before
    &&& after[before.len() as int].key_codes@ == down
    &&& after[before.len() as int].reads == hold
    &&& after[before.len() as int].all_rows == all_rows
    &&& after[before.len() + 1int].key_codes@ == no_keys()
    &&& after[before.len() + 1int].reads == rest
    &&& after[before.len() + 1int].all_rows == all_rows
}

/// A keyboard as the firmware's matrix scan sees it: keys held down, and a
/// script of timed key phases that advances with every read.
#[derive(Clone, Debug)]
pub struct Keyboard {
    held: Vec<MatrixKey>,
    script: Vec<KeyPhase>,
    phase: usize,
    reads_in_phase: usize,
    selected_rows: Option<u16>,
}

impl Keyboard {
    /// The keys held down.
    pub closed spec fn held_keys(&self) -> Seq<MatrixKey> {
        self.held@
    }

    /// The script steps.
    pub closed spec fn script_steps(&self) -> Seq<KeyPhase> {
        self.script@
    }

    /// The script step being played.
    pub closed spec fn current_phase(&self) -> usize {
        self.phase
    }

    /// The reads already spent in the current step.
    pub closed spec fn reads_done(&self) -> usize {
        self.reads_in_phase
    }

    /// The selected rows, if any were selected.
    pub closed spec fn rows(&self) -> Option<u16> {
        self.selected_rows
    }

    /// Every key has a column on the matrix.
    pub closed spec fn wf(&self) -> bool {
        &&& forall|i: int| 0 <= i < self.held@.len() ==> (#[trigger] self.held@[i]).0 < 0x80
        &&& forall|i: int| 0 <= i < self.script@.len() ==> phase_valid(#[trigger] self.script@[i])
    }

    /// A keyboard with nothing pressed, no script and no row selected.
    pub fn new() -> (r: Self)
        ensures
            r.wf(),
            r.held_keys().len() == 0,
            r.script_steps().len() == 0,
            r.current_phase() == 0,
            r.reads_done() == 0,
            r.rows() is None,
    {
        Keyboard { held: Vec::new(), script: Vec::new(), phase: 0, reads_in_phase: 0, selected_rows: None }
    }

    /// Holds `key` down (once).
    pub fn press(&mut self, key: MatrixKey)
        requires
            old(self).wf(),
            key.code_spec() < 0x80,
        ensures
            final(self).wf(),
            final(self).held_keys() == (if old(self).held_keys().contains(key) {
                old(self).held_keys()
            } else {
                old(self).held_keys().push(key)
            }),
            final(self).script_steps() == old(self).script_steps(),
            final(self).current_phase() == old(self).current_phase(),
            final(self).reads_done() == old(self).reads_done(),
            final(self).rows() == old(self).rows(),
    {
        let mut i: usize = 0;
        while i < self.held.len()
            invariant
                i <= self.held@.len(),
                *self == *old(self),
                self.wf(),
                forall|k: int| 0 <= k < i ==> self.held@[k] != key,
            decreases self.held@.len() - i,
        {
            if self.held[i] == key {
                return;
            }
            i = i + 1;
        }
        self.held.push(key);
    }

    /// Lets `key` go.
    pub fn release(&mut self, key: MatrixKey)
        requires
            old(self).wf(),
        ensures
            final(self).wf(),
            final(self).held_keys() == without_key(old(self).held_keys(), key),
            final(self).script_steps() == old(self).script_steps(),
            final(self).current_phase() == old(self).current_phase(),
            final(self).reads_done() == old(self).reads_done(),
            final(self).rows() == old(self).rows(),
    {
        let ghost h = self.held@;
        let mut kept: Vec<MatrixKey> = Vec::new();
        let mut i: usize = 0;
        while i < self.held.len()
            invariant
                h == self.held@,
                i <= h.len(),
                kept@ == without_key(h.subrange(0, i as int), key),
                forall|k: int| 0 <= k < kept@.len() ==> (#[trigger] kept@[k]).code_spec() < 0x80,
                forall|k: int| 0 <= k < h.len() ==> (#[trigger] h[k]).code_spec() < 0x80,
            decreases h.len() - i,
        {
            assert(h.subrange(0, i + 1).drop_last() =~= h.subrange(0, i as int));
            if self.held[i] != key {
                kept.push(self.held[i]);
            }
            i = i + 1;
        }
        assert(h.subrange(0, h.len() as int) =~= h);
        self.held = kept;
    }

    fn push_phase(&mut self, key_codes: [Option<MatrixKey>; 4], reads: usize, all_rows: bool)
        requires
            old(self).wf(),
            phase_valid(KeyPhase { key_codes, reads, all_rows }),
        ensures
            final(self).wf(),
            final(self).script_steps() == old(self).script_steps().push(KeyPhase { key_codes, reads, all_rows }),
            final(self).held_keys() == old(self).held_keys(),
            final(self).current_phase() == old(self).current_phase(),
            final(self).reads_done() == old(self).reads_done(),
            final(self).rows() == old(self).rows(),
    {
        self.script.push(KeyPhase { key_codes, reads, all_rows });
    }

    /// Taps `key`: held for eight reads on the selected rows, then released
    /// for sixty-four.
    pub fn tap(&mut self, key: MatrixKey)
        requires
            old(self).wf(),
            key.code_spec() < 0x80,
        ensures
            final(self).wf(),
            tapped(old(self).script_steps(), final(self).script_steps(), seq![Some(key), None, None, None], 8, 64, false),
            final(self).held_keys() == old(self).held_keys(),
            final(self).current_phase() == old(self).current_phase(),
            final(self).reads_done() == old(self).reads_done(),
            final(self).rows() == old(self).rows(),
    {
        self.push_key_then_release(key, 8, 64, false);
    }

    fn push_key_then_release(&mut self, key: MatrixKey, hold: usize, rest: usize, all_rows: bool)
        requires
            old(self).wf(),
            key.code_spec() < 0x80,
        ensures
            final(self).wf(),
            tapped(old(self).script_steps(), final(self).script_steps(), seq![Some(key), None, None, None], hold, rest, all_rows),
            final(self).held_keys() == old(self).held_keys(),
            final(self).current_phase() == old(self).current_phase(),
            final(self).reads_done() == old(self).reads_done(),
            final(self).rows() == old(self).rows(),
    {
        let down: [Option<MatrixKey>; 4] = [Some(key), None, None, None];
        let up: [Option<MatrixKey>; 4] = [None, None, None, None];
        assert(down@ =~= seq![Some(key), None, None, None]);
        assert(up@ =~= seq![None::<MatrixKey>, None, None, None]);
        self.push_phase(down, hold, all_rows);
        self.push_phase(up, rest, all_rows);
        assert(self.script@.subrange(0, old(self).script@.len() as int) =~= old(self).script@);
    }

    /// Taps up to four keys together: held for eight reads, then released
    /// for sixty-four.
    pub fn tap_chord(&mut self, keys: &[MatrixKey])
        requires
            old(self).wf(),
            forall|i: int| 0 <= i < keys@.len() ==> (#[trigger] keys@[i]).code_spec() < 0x80,
        ensures
            final(self).wf(),
            tapped(old(self).script_steps(), final(self).script_steps(), slots_of(keys@), 8, 64, false),
            final(self).held_keys() == old(self).held_keys(),
            final(self).current_phase() == old(self).current_phase(),
            final(self).reads_done() == old(self).reads_done(),
            final(self).rows() == old(self).rows(),
    {
        let slots = slots_from(keys);
        self.push_phase(slots, 8, false);
        let up: [Option<MatrixKey>; 4] = [None, None, None, None];
        assert(up@ =~= no_keys());
        self.push_phase(up, 64, false);
        assert(self.script@.subrange(0, old(self).script@.len() as int) =~= old(self).script@);
    }

    /// Holds `key` for fifty thousand reads on the selected rows, then
    /// releases it for five thousand.
    pub fn tap_long(&mut self, key: MatrixKey)
        requires
            old(self).wf(),
            key.code_spec() < 0x80,
        ensures
            final(self).wf(),
            tapped(old(self).script_steps(), final(self).script_steps(), seq![Some(key), None, None, None], 50_000, 5_000, false),
            final(self).held_keys() == old(self).held_keys(),
            final(self).current_phase() == old(self).current_phase(),
            final(self).reads_done() == old(self).reads_done(),
            final(self).rows() == old(self).rows(),
    {
        self.push_key_then_release(key, 50_000, 5_000, false);
    }

    /// Like `tap_long`, but the key shows on every row.
    pub fn tap_all_rows(&mut self, key: MatrixKey)
        requires
            old(self).wf(),
            key.code_spec() < 0x80,
        ensures
            final(self).wf(),
            tapped(old(self).script_steps(), final(self).script_steps(), seq![Some(key), None, None, None], 50_000, 5_000, true),
            final(self).held_keys() == old(self).held_keys(),
            final(self).current_phase() == old(self).current_phase(),
            final(self).reads_done() == old(self).reads_done(),
            final(self).rows() == old(self).rows(),
    {
        self.push_key_then_release(key, 50_000, 5_000, true);
    }

    /// Holds the small-ROM entry chord (keys 0x6E, 0x60, 0x62, 0x73) on
    /// every row for the first four reads.
    pub fn hold_small_rom_entry_chord(&mut self)
        requires
            old(self).wf(),
        ensures
            final(self).wf(),
            final(self).script_steps().len() == old(self).script_steps().len() + 1,
            final(self).script_steps().drop_last() == old(self).script_steps(),
            final(self).script_steps().last().reads == 4,
            final(self).script_steps().last().all_rows,
            final(self).script_steps().last().key_codes@ == seq![
                Some(MatrixKey::from_code(0x6e)),
                Some(MatrixKey::from_code(0x60)),
                Some(MatrixKey::from_code(0x62)),
                Some(MatrixKey::from_code(0x73)),
            ],
            final(self).held_keys() == old(self).held_keys(),
            final(self).current_phase() == old(self).current_phase(),
            final(self).reads_done() == old(self).reads_done(),
            final(self).rows() == old(self).rows(),
    {
        let keys: [MatrixKey; 4] = [MatrixKey(0x6e), MatrixKey(0x60), MatrixKey(0x62), MatrixKey(0x73)];
        self.hold_keys_all_rows(keys.as_slice(), 4);
        assert(slots_of(keys@) =~= seq![
            Some(MatrixKey::from_code(0x6e)),
            Some(MatrixKey::from_code(0x60)),
            Some(MatrixKey::from_code(0x62)),
            Some(MatrixKey::from_code(0x73)),
        ]);
    }

    /// Holds up to four keys on every row for `reads` reads.
    pub fn hold_keys_all_rows(&mut self, keys: &[MatrixKey], reads: usize)
        requires
            old(self).wf(),
            forall|i: int| 0 <= i < keys@.len() ==> (#[trigger] keys@[i]).code_spec() < 0x80,
        ensures
            final(self).wf(),
            final(self).script_steps().len() == old(self).script_steps().len() + 1,
            final(self).script_steps().drop_last() == old(self).script_steps(),
            final(self).script_steps().last().key_codes@ == slots_of(keys@),
            final(self).script_steps().last().reads == reads,
            final(self).script_steps().last().all_rows,
            final(self).held_keys() == old(self).held_keys(),
            final(self).current_phase() == old(self).current_phase(),
            final(self).reads_done() == old(self).reads_done(),
            final(self).rows() == old(self).rows(),
    {
        let slots = slots_from(keys);
        self.push_phase(slots, reads, true);
        assert(self.script@.drop_last() =~= old(self).script@);
    }

    /// Holds up to four keys on the selected rows for `reads` reads.
    pub fn hold_keys_exact_rows(&mut self, keys: &[MatrixKey], reads: usize)
        requires
            old(self).wf(),
            forall|i: int| 0 <= i < keys@.len() ==> (#[trigger] keys@[i]).code_spec() < 0x80,
        ensures
            final(self).wf(),
            final(self).script_steps().len() == old(self).script_steps().len() + 1,
            final(self).script_steps().drop_last() == old(self).script_steps(),
            final(self).script_steps().last().key_codes@ == slots_of(keys@),
            final(self).script_steps().last().reads == reads,
            !final(self).script_steps().last().all_rows,
            final(self).held_keys() == old(self).held_keys(),
            final(self).current_phase() == old(self).current_phase(),
            final(self).reads_done() == old(self).reads_done(),
            final(self).rows() == old(self).rows(),
    {
        let slots = slots_from(keys);
        self.push_phase(slots, reads, false);
        assert(self.script@.drop_last() =~= old(self).script@);
    }

    /// Selects one row (its low nibble) for the next reads.
    pub fn select_row(&mut self, row: u8)
        ensures
            old(self).wf() ==> final(self).wf(),
            final(self).rows() == Some(1u16 << (row % 16) as u16),
            final(self).held_keys() == old(self).held_keys(),
            final(self).script_steps() == old(self).script_steps(),
            final(self).current_phase() == old(self).current_phase(),
            final(self).reads_done() == old(self).reads_done(),
    {
        let r = (row % 16) as u16;
        self.select_rows(1u16 << r);
    }

    /// Selects a set of rows, one bit per row.
    pub fn select_rows(&mut self, rows: u16)
        ensures
            old(self).wf() ==> final(self).wf(),
            final(self).rows() == Some(rows),
            final(self).held_keys() == old(self).held_keys(),
            final(self).script_steps() == old(self).script_steps(),
            final(self).current_phase() == old(self).current_phase(),
            final(self).reads_done() == old(self).reads_done(),
    {
        self.selected_rows = Some(rows);
    }

    /// Reads the matrix input port: a 0 bit for each column with a key down
    /// on a selected row (script keys of an all-rows step on any row); the
    /// read also advances the script.
    pub fn read_matrix_input(&mut self) -> (r: u8)
        requires
            old(self).wf(),
        ensures
            final(self).wf(),
            final(self).held_keys() == old(self).held_keys(),
            final(self).script_steps() == old(self).script_steps(),
            final(self).rows() == old(self).rows(),
            r == !(script_mask(*old(self)) | held_mask(old(self).held_keys(), old(self).rows())),
            old(self).current_phase() < old(self).script_steps().len() ==> {
                let reads = if old(self).reads_done() < usize::MAX { old(self).reads_done() + 1 } else { usize::MAX as int };
                if reads >= old(self).script_steps()[old(self).current_phase() as int].reads {
                    final(self).current_phase() == old(self).current_phase() + 1 && final(self).reads_done() == 0
                } else {
                    final(self).current_phase() == old(self).current_phase() && final(self).reads_done() == reads
                }
            },
            old(self).current_phase() >= old(self).script_steps().len() ==> final(self).current_phase() == old(self).current_phase()
                && final(self).reads_done() == old(self).reads_done(),
            r == matrix_input(*old(self)),
            matrix_read_step(*old(self), *final(self)),
    {
        let mut active: u8 = 0;
        if self.phase < self.script.len() {
            let step = self.script[self.phase];
            let rows = if step.all_rows { None } else { self.selected_rows };
            assert(phase_valid(step));
            let mut i: usize = 0;
            while i < 4
                invariant
                    i <= 4,
                    phase_valid(step),
                    active == slots_mask(step.key_codes@.subrange(0, i as int), rows),
                decreases 4 - i,
            {
                let ghost sub = step.key_codes@.subrange(0, i + 1);
                assert(sub.drop_last() =~= step.key_codes@.subrange(0, i as int));
                let m = match step.key_codes[i] {
                    Some(k) => if visible_on_exec(k.0, rows) { column_mask_exec(k.0) } else { 0u8 },
                    None => 0u8,
                };
                active = active | m;
                i = i + 1;
            }
            assert(step.key_codes@.subrange(0, 4) =~= step.key_codes@);
            let reads = if self.reads_in_phase < usize::MAX { self.reads_in_phase + 1 } else { usize::MAX };
            if reads >= step.reads {
                self.phase = self.phase + 1;
                self.reads_in_phase = 0;
            } else {
                self.reads_in_phase = reads;
            }
        }
        let ghost script_part = active;
        let mut held_active: u8 = 0;
        let mut j: usize = 0;
        while j < self.held.len()
            invariant
                j <= self.held@.len(),
                forall|k: int| 0 <= k < self.held@.len() ==> (#[trigger] self.held@[k]).code_spec() < 0x80,
                held_active == held_mask(self.held@.subrange(0, j as int), self.selected_rows),
            decreases self.held@.len() - j,
        {
            let ghost sub = self.held@.subrange(0, j + 1);
            assert(sub.drop_last() =~= self.held@.subrange(0, j as int));
            let k = self.held[j];
            let m = if visible_on_exec(k.0, self.selected_rows) { column_mask_exec(k.0) } else { 0u8 };
            held_active = held_active | m;
            j = j + 1;
        }
        assert(self.held@.subrange(0, self.held@.len() as int) =~= self.held@);
        !(active | held_active)
    }
}

/// What the matrix input port reads: a 0 bit for each column pulled low.
pub open spec fn matrix_input(k: Keyboard) -> u8 {
    !(script_mask(k) | held_mask(k.held_keys(), k.rows()))
}

/// `after` is `before` after one read of the input port: the held keys, the
/// script and the rows stay, and the script moves on by one read.
pub open spec fn matrix_read_step(before: Keyboard, after: Keyboard) -> bool {
    &&& after.wf()
    &&& after.held_keys() == before.held_keys()
    &&& after.script_steps() == before.script_steps()
    &&& after.rows() == before.rows()
    &&& before.current_phase() < before.script_steps().len() ==> {
        let reads = if before.reads_done() < usize::MAX { before.reads_done() + 1 } else { usize::MAX as int };
        if reads >= before.script_steps()[before.current_phase() as int].reads {
            after.current_phase() == before.current_phase() + 1 && after.reads_done() == 0
        } else {
            after.current_phase() == before.current_phase() && after.reads_done() == reads
        }
    }
    &&& before.current_phase() >= before.script_steps().len() ==> after.current_phase() == before.current_phase()
        && after.reads_done() == before.reads_done()
}

/// `after` is `before` with `rows` selected and nothing else changed.
pub open spec fn rows_selected(before: Keyboard, after: Keyboard, rows: u16) -> bool {
    &&& after.rows() == Some(rows)
    &&& after.held_keys() == before.held_keys()
    &&& after.script_steps() == before.script_steps()
    &&& after.current_phase() == before.current_phase()
    &&& after.reads_done() == before.reads_done()
    &&& before.wf() ==> after.wf()
}

/// The columns the current script step pulls low.
pub open spec fn script_mask(k: Keyboard) -> u8 {
    if k.current_phase() < k.script_steps().len() {
        let step = k.script_steps()[k.current_phase() as int];
        slots_mask(step.key_codes@, if step.all_rows { None } else { k.rows() })
    } else {
        0
    }
}

impl Default for Keyboard {
    fn default() -> (r: Self)
        ensures
            r.wf(),
            r.held_keys().len() == 0,
            r.script_steps().len() == 0,
            r.current_phase() == 0,
            r.reads_done() == 0,
            r.rows() is None,
    {
        Keyboard::new()
    }
}

/// The four slots of a script step holding the first keys of `keys`.
fn slots_from(keys: &[MatrixKey]) -> (r: [Option<MatrixKey>; 4])
    requires
        forall|i: int| 0 <= i < keys@.len() ==> (#[trigger] keys@[i]).code_spec() < 0x80,
    ensures
        r@ == slots_of(keys@),
        forall|i: int| 0 <= i < 4 ==> (#[trigger] r@[i] matches Some(k) ==> k.code_spec() < 0x80),
{
    let mut slots: [Option<MatrixKey>; 4] = [None, None, None, None];
    let mut i: usize = 0;
    while i < 4 && i < keys.len()
        invariant
            i <= 4,
            i <= keys@.len(),
            forall|k: int| 0 <= k < i ==> slots@[k] == Some(keys@[k]),
            forall|k: int| i <= k < 4 ==> slots@[k] is None,
            forall|k: int| 0 <= k < keys@.len() ==> (#[trigger] keys@[k]).code_spec() < 0x80,
        decreases 4 - i,
    {
        slots[i] = Some(keys[i]);
        i = i + 1;
    }
    assert(slots@ =~= slots_of(keys@));
    slots
}

} // verus!
