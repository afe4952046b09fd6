//! The RAM state of the SmartApplets the emulator validates (Basic Writer,
//! WriteOrDie, Floppy Bird, Snake), read back from a memory image: each
//! applet keeps its state in a fixed layout from a base address, and a
//! field that lies outside the image reads as zero.

use vstd::prelude::*;
use crate::bytes::{be_u16_at, be_u32_at, read_be_u16, read_be_u32};

verus! {

/// The big-endian word at `at`, or 0 when it does not lie in `b`.
pub open spec fn word_or_zero(b: Seq<u8>, at: int) -> u32 {
    if 0 <= at && at + 4 <= b.len() {
        be_u32_at(b, at) as u32
    } else {
        0
    }
}

/// The byte at `at`, or 0 when it does not lie in `b`.
pub open spec fn byte_or_zero(b: Seq<u8>, at: int) -> u8 {
    if 0 <= at && at < b.len() {
        b[at]
    } else {
        0
    }
}

/// The signed big-endian half-word at `at`, or 0 when it does not lie in
/// `b`.
pub open spec fn half_or_zero(b: Seq<u8>, at: int) -> i16 {
    if 0 <= at && at + 2 <= b.len() {
        (be_u16_at(b, at) as u16) as i16
    } else {
        0
    }
}

/// How a text preview shows a byte: printable ASCII as itself, a line feed
/// as `n`, anything else as `.`.
pub open spec fn preview_char(b: u8) -> char {
    if 0x20 <= b <= 0x7e {
        b as char
    } else if b == 0x0a {
        'n'
    } else {
        '.'
    }
}

/// The preview of the `n` bytes at `at`, or nothing when they do not all
/// lie in `b`.
pub open spec fn preview_of(b: Seq<u8>, at: int, n: int) -> Seq<char> {
    if 0 <= at && 0 <= n && at + n <= b.len() {
        Seq::new(n as nat, |i: int| preview_char(b[at + i]))
    } else {
        Seq::empty()
    }
}

/// Reads a big-endian word, 0 when it does not lie in `bytes`.
pub fn read_word_or_zero(bytes: &[u8], at: u64) -> (r: u32)
    ensures
        r == word_or_zero(bytes@, at as int),
{
    if at > bytes.len() as u64 || bytes.len() as u64 - at < 4 {
        return 0;
    }
    let i = at as usize;
    read_be_u32(bytes[i], bytes[i + 1], bytes[i + 2], bytes[i + 3])
}

/// Reads a byte, 0 when it does not lie in `bytes`.
pub fn read_byte_or_zero(bytes: &[u8], at: u64) -> (r: u8)
    ensures
        r == byte_or_zero(bytes@, at as int),
{
    if at >= bytes.len() as u64 {
        return 0;
    }
    bytes[at as usize]
}

/// Reads a signed big-endian half-word, 0 when it does not lie in `bytes`.
pub fn read_half_or_zero(bytes: &[u8], at: u64) -> (r: i16)
    ensures
        r == half_or_zero(bytes@, at as int),
{
    if at > bytes.len() as u64 || bytes.len() as u64 - at < 2 {
        return 0;
    }
    let i = at as usize;
    let v = read_be_u16(bytes[i], bytes[i + 1]);
    v as i16
}

/// The preview of the `n` bytes at `at`.
pub fn preview_text(bytes: &[u8], at: u64, n: u64) -> (r: String)
    ensures
        r@ == preview_of(bytes@, at as int, n as int),
{
    let mut out = String::new();
    if at > bytes.len() as u64 || bytes.len() as u64 - at < n {
        return out;
    }
    let start = at as usize;
    let count = n as usize;
    let mut k: usize = 0;
    while k < count
        invariant
            start + count <= bytes@.len(),
            bytes@.len() == bytes.len(),
            k <= count,
            out@ == Seq::new(k as nat, |i: int| preview_char(bytes@[start + i])),
        decreases count - k,
    {
        let b = bytes[start + k];
        let c = if 0x20 <= b && b <= 0x7e {
            b as char
        } else if b == 0x0a {
            'n'
        } else {
            '.'
        };
        crate::text::push_char(&mut out, c);
        k = k + 1;
        assert(out@ =~= Seq::new(k as nat, |i: int| preview_char(bytes@[start + i])));
    }
    out
}

/// Basic Writer's state: the file slot in use, the slot a banner names and
/// until when it shows, and the text length, cursor, first visible byte and
/// the first eight bytes of the slot's text.
#[derive(Clone, Debug, Default, PartialEq, Eq)]
pub struct BasicWriterState {
    pub active_slot: u32,
    pub banner_slot: u32,
    pub preview: String,
    pub len: u32,
    pub cursor: u32,
    pub viewport: u32,
    pub banner_until_ms: u32,
}

/// Where Basic Writer's state starts: 0x300 past the applet globals (A5),
/// kept inside 32 bits.
pub open spec fn basic_writer_base(a5: u32) -> int {
    if a5 as int + 0x300 <= u32::MAX {
        a5 + 0x300
    } else {
        u32::MAX as int
    }
}

/// Where the record of file slot `slot` starts (slots below 1 read as 1,
/// above 8 as 8); each record is 268 bytes, the first 20 bytes after the
/// state base.
pub open spec fn basic_writer_slot_base(a5: u32, slot: u32) -> int {
    let index: int = if slot == 0 {
        0
    } else if slot - 1 > 7 {
        7
    } else {
        slot - 1
    };
    basic_writer_base(a5) + 20 + index * 268
}

/// Whether `s` is what the memory `b` holds for slot `slot` (with
/// `active_slot` set to `slot` and no banner).
pub open spec fn basic_writer_slot_read(b: Seq<u8>, a5: u32, slot: u32, s: BasicWriterState) -> bool {
    let at = basic_writer_slot_base(a5, slot);
    &&& s.active_slot == slot
    &&& s.banner_slot == 0
    &&& s.banner_until_ms == 0
    &&& s.len == word_or_zero(b, at)
    &&& s.cursor == word_or_zero(b, at + 4)
    &&& s.viewport == word_or_zero(b, at + 8)
    &&& s.preview@ == preview_of(b, at + 12, 8)
}

fn basic_writer_base_exec(a5: u32) -> (r: u64)
    ensures
        r == basic_writer_base(a5),
{
    a5.saturating_add(0x300) as u64
}

/// Basic Writer's record of file slot `slot`.
pub fn basic_writer_slot_state(bytes: &[u8], a5: u32, slot: u32) -> (r: BasicWriterState)
    ensures
        basic_writer_slot_read(bytes@, a5, slot, r),
{
    let base = basic_writer_base_exec(a5);
    let index: u64 = if slot == 0 {
        0
    } else if slot - 1 > 7 {
        7
    } else {
        (slot - 1) as u64
    };
    let at = base + 20 + index * 268;
    BasicWriterState {
        active_slot: slot,
        banner_slot: 0,
        preview: preview_text(bytes, at + 12, 8),
        len: read_word_or_zero(bytes, at),
        cursor: read_word_or_zero(bytes, at + 4),
        viewport: read_word_or_zero(bytes, at + 8),
        banner_until_ms: 0,
    }
}

/// Basic Writer's state: the active slot is the word at the state base,
/// the banner slot and its end time the next two words, and the rest comes
/// from the active slot's record.
pub fn basic_writer_state(bytes: &[u8], a5: u32) -> (r: BasicWriterState)
    ensures
        r.active_slot == word_or_zero(bytes@, basic_writer_base(a5)),
        r.banner_slot == word_or_zero(bytes@, basic_writer_base(a5) + 4),
        r.banner_until_ms == word_or_zero(bytes@, basic_writer_base(a5) + 8),
        ({
            let at = basic_writer_slot_base(a5, r.active_slot);
            &&& r.len == word_or_zero(bytes@, at)
            &&& r.cursor == word_or_zero(bytes@, at + 4)
            &&& r.viewport == word_or_zero(bytes@, at + 8)
            &&& r.preview@ == preview_of(bytes@, at + 12, 8)
        }),
{
    let base = basic_writer_base_exec(a5);
    let active_slot = read_word_or_zero(bytes, base);
    let mut state = basic_writer_slot_state(bytes, a5, active_slot);
    state.banner_slot = read_word_or_zero(bytes, base + 4);
    state.banner_until_ms = read_word_or_zero(bytes, base + 8);
    state
}

/// WriteOrDie's state.
#[derive(Clone, Debug, Default, PartialEq, Eq)]
pub struct WriteOrDieState {
    pub phase: u32,
    pub selected_setup_row: u32,
    pub goal_mode: u32,
    pub word_goal: u32,
    pub time_goal_seconds: u32,
    pub grace_seconds: u32,
    pub len: u32,
    pub cursor: u32,
    pub viewport: u32,
    pub preview: String,
    pub start_ms: u32,
    pub last_activity_ms: u32,
    pub final_word_count: u32,
    pub remaining_seconds_estimate: u32,
    pub export_slot: u32,
    pub export_status: u32,
    pub flash_on: u32,
}

/// WriteOrDie's state read from `base`: nine words of settings and text
/// position, 24 bytes of text preview at 36, and six words from 804 on.
pub fn write_or_die_state_at(bytes: &[u8], base: u32) -> (r: WriteOrDieState)
    ensures
        r.phase == word_or_zero(bytes@, base as int),
        r.selected_setup_row == word_or_zero(bytes@, base + 4),
        r.goal_mode == word_or_zero(bytes@, base + 8),
        r.word_goal == word_or_zero(bytes@, base + 12),
        r.time_goal_seconds == word_or_zero(bytes@, base + 16),
        r.grace_seconds == word_or_zero(bytes@, base + 20),
        r.len == word_or_zero(bytes@, base + 24),
        r.cursor == word_or_zero(bytes@, base + 28),
        r.viewport == word_or_zero(bytes@, base + 32),
        r.preview@ == preview_of(bytes@, base + 36, 24),
        r.start_ms == word_or_zero(bytes@, base + 804),
        r.last_activity_ms == word_or_zero(bytes@, base + 808),
        r.final_word_count == word_or_zero(bytes@, base + 816),
        r.remaining_seconds_estimate == word_or_zero(bytes@, base + 824),
        r.export_slot == word_or_zero(bytes@, base + 832),
        r.export_status == word_or_zero(bytes@, base + 836),
        r.flash_on == word_or_zero(bytes@, base + 840),
{
    let b = base as u64;
    WriteOrDieState {
        phase: read_word_or_zero(bytes, b),
        selected_setup_row: read_word_or_zero(bytes, b + 4),
        goal_mode: read_word_or_zero(bytes, b + 8),
        word_goal: read_word_or_zero(bytes, b + 12),
        time_goal_seconds: read_word_or_zero(bytes, b + 16),
        grace_seconds: read_word_or_zero(bytes, b + 20),
        len: read_word_or_zero(bytes, b + 24),
        cursor: read_word_or_zero(bytes, b + 28),
        viewport: read_word_or_zero(bytes, b + 32),
        preview: preview_text(bytes, b + 36, 24),
        start_ms: read_word_or_zero(bytes, b + 804),
        last_activity_ms: read_word_or_zero(bytes, b + 808),
        final_word_count: read_word_or_zero(bytes, b + 816),
        remaining_seconds_estimate: read_word_or_zero(bytes, b + 824),
        export_slot: read_word_or_zero(bytes, b + 832),
        export_status: read_word_or_zero(bytes, b + 836),
        flash_on: read_word_or_zero(bytes, b + 840),
    }
}

/// Floppy Bird's state.
#[derive(Clone, Copy, Debug, PartialEq, Eq)]
pub struct FloppyBirdState {
    pub bird_y_q8: i16,
    pub barrier_x: i16,
    pub gap_row: u8,
    pub score: u8,
    pub game_over: bool,
}

/// Floppy Bird's state read from `base`: the bird's height (8.8 fixed
/// point) at 0, the barrier column at 4, the gap row at 6, the score at 7
/// and the game-over flag at 10.
pub fn floppy_bird_state(bytes: &[u8], base: u32) -> (r: FloppyBirdState)
    ensures
        r.bird_y_q8 == half_or_zero(bytes@, base as int),
        r.barrier_x == half_or_zero(bytes@, base + 4),
        r.gap_row == byte_or_zero(bytes@, base + 6),
        r.score == byte_or_zero(bytes@, base + 7),
        r.game_over == (byte_or_zero(bytes@, base + 10) != 0),
{
    let b = base as u64;
    FloppyBirdState {
        bird_y_q8: read_half_or_zero(bytes, b),
        barrier_x: read_half_or_zero(bytes, b + 4),
        gap_row: read_byte_or_zero(bytes, b + 6),
        score: read_byte_or_zero(bytes, b + 7),
        game_over: read_byte_or_zero(bytes, b + 10) != 0,
    }
}

impl FloppyBirdState {
    /// Whether the game shows `score` and `game_over`, with the gap on one
    /// of the three rows and the barrier on the screen.
    pub fn is_consistent_with(&self, score: u8, game_over: bool) -> (r: bool)
        ensures
            r == (self.score == score && self.game_over == game_over && self.gap_row <= 2 && self.barrier_x <= 27),
    {
        self.score == score && self.game_over == game_over && self.gap_row <= 2 && self.barrier_x <= 27
    }
}

/// Snake's state.
#[derive(Clone, Copy, Debug, PartialEq, Eq)]
pub struct SnakeState {
    pub length: u8,
    pub head_x: u8,
    pub head_y: u8,
    pub score: u8,
    pub paused: bool,
    pub game_over: bool,
}

/// Snake's state read from `base`: length, head column and row at 384 to
/// 386, score at 389, and the paused and game-over flags at 393 and 394.
pub fn snake_state(bytes: &[u8], base: u32) -> (r: SnakeState)
    ensures
        r.length == byte_or_zero(bytes@, base + 384),
        r.head_x == byte_or_zero(bytes@, base + 385),
        r.head_y == byte_or_zero(bytes@, base + 386),
        r.score == byte_or_zero(bytes@, base + 389),
        r.paused == (byte_or_zero(bytes@, base + 393) != 0),
        r.game_over == (byte_or_zero(bytes@, base + 394) != 0),
{
    let b = base as u64;
    SnakeState {
        length: read_byte_or_zero(bytes, b + 384),
        head_x: read_byte_or_zero(bytes, b + 385),
        head_y: read_byte_or_zero(bytes, b + 386),
        score: read_byte_or_zero(bytes, b + 389),
        paused: read_byte_or_zero(bytes, b + 393) != 0,
        game_over: read_byte_or_zero(bytes, b + 394) != 0,
    }
}

impl SnakeState {
    /// Whether the game shows exactly `score`, `length`, `paused` and
    /// `game_over`.
    pub fn matches(&self, score: u8, length: u8, paused: bool, game_over: bool) -> (r: bool)
        ensures
            r == (self.score == score && self.length == length && self.paused == paused && self.game_over == game_over),
    {
        self.score == score && self.length == length && self.paused == paused && self.game_over == game_over
    }
}

} // verus!
