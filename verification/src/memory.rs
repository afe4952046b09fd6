//! The emulator's memory map: RAM holding the firmware image and the applet
//! area, and the memory-mapped registers behind it (keyboard matrix port,
//! GPIO row lines, timers, the two LCD controllers).

use vstd::prelude::*;
use vstd::utf8::valid_utf8;
use vstd::utf8::decode_utf8;
use std::collections::BTreeMap;
use crate::bytes::{be_u16, be_u32_at, be_u32_bytes, read_be_u16, read_be_u32, u32_to_be, u16_to_be};
use crate::firmware::{FirmwareRuntime, is_neo_system};
use crate::keyboard::{Keyboard, MatrixKey, matrix_input, matrix_read_step, rows_selected, without_key, slots_of, tapped};
use crate::lcd::{Lcd, LcdSnapshot, lcd_status, lcd_data, lcd_read_step, lcd_command_step, lcd_write_step};
use crate::lcd::reset_registers;
use crate::text::{trimmed, until_nul, trim_text, nul_position, text_eq, copy_range, has_prefix, has_suffix, starts_with_text, ends_with_text, text_le, text_le_exec, lemma_text_le_total, lemma_text_le_transitive};
use vstd::relations::sorted_by;

verus! {

/// Bytes of emulated memory.
pub const MEMORY_SIZE: usize = 0x0080_0000;
/// Where a small ROM image is mirrored.
pub const ROM_BASE: usize = 0x0040_0000;
/// Where the full NEO system image is loaded.
pub const NEO_SYSTEM_BASE: usize = 0x0041_0000;
/// Where the applet area starts.
pub const STOCK_APPLET_BASE: usize = 0x0047_0000;
/// CPU clock in Hz.
pub const CPU_HZ: u64 = 33_000_000;
/// Edges per second of the 32 kHz clock.
pub const PLL_CLK32_EDGE_HZ: u64 = 32_768;
/// CPU cycles per edge of the 32 kHz clock.
pub const PLL_CLK32_CYCLES_PER_EDGE: u64 = 1007;
/// Prescaler of the timer counter.
pub const TIMER_PRESCALER: u64 = 0x21;
/// One timer tick, in CPU cycles times 32768.
pub const TIMER_COUNTER_DENOMINATOR: u64 = 1_089_000_000;
/// Most entries the register access log keeps.
pub const MMIO_LOG_LIMIT: usize = 4096;
/// Most applets the firmware's applet area holds.
pub const APPLET_SLOTS: usize = 31;

/// Why memory could not be set up.
#[derive(Clone, Copy, Debug, PartialEq, Eq, Structural)]
pub enum MemoryError {
    ImageTooLarge,
}

impl MemoryError {
    /// The error's text.
    pub fn message(&self) -> (r: String)
        ensures
            r@ == "firmware image does not fit emulator memory"@,
    {
        String::from_str("firmware image does not fit emulator memory")
    }
}

/// One access to the register space, as the access log records it.
#[derive(Clone, Copy, Debug, PartialEq, Eq, Structural)]
pub enum MmioAccess {
    Read8 { address: u32, register: u32, value: u8 },
    Read16 { address: u32, register: u32, value: u16 },
    Write8 { address: u32, register: u32, value: u8 },
    Write16 { address: u32, register: u32, value: u16 },
    RamWrite8 { address: u32, value: u8 },
    RamWrite16 { address: u32, value: u16 },
    IgnoredStorageBoundWrite16 { address: u32, value: u16 },
    DeferredTimerCompleted { index: usize, address: usize },
    TimerOverflow { base: u32 },
}

/// What a walk of the applet area found.
#[derive(Clone, Copy, Debug, PartialEq, Eq, Structural)]
pub struct AppletMemoryValidation {
    pub count: usize,
    pub start: u32,
    pub end: u32,
    pub alpha_usb_native: Option<u32>,
    pub forth_mini: Option<u32>,
    pub basic_writer: Option<u32>,
    pub valid: bool,
}

/// Where an applet sits and where it is entered.
#[derive(Clone, Copy, Debug, PartialEq, Eq, Structural)]
pub struct AppletLaunchInfo {
    pub slot: u32,
    pub base: u32,
    pub entry: u32,
    pub entry_offset: u32,
    pub id: u16,
}

/// Whether an address is in the register space: the sign-extended high
/// page, the low register page, the two LCD controllers' ports and the
/// ASIC registers.
pub open spec fn is_mmio(addr: u32) -> bool {
    addr >= 0xffff_0000 || (0xf000 <= addr < 0x1_0000) || (0x0100_8000 <= addr < 0x0100_8002)
        || (0x0100_0000 <= addr < 0x0100_0002) || (0x0200_0000 <= addr < 0x0200_0008)
}

/// The register an address names: the sign-extended page folds onto its
/// low 16 bits.
pub open spec fn normalize_mmio(addr: u32) -> u32 {
    if addr >= 0xffff_0000 {
        (addr - 0xffff_0000) as u32
    } else {
        addr
    }
}

/// Whether `addr` is in the register space.
pub fn is_mmio_address(addr: u32) -> (r: bool)
    ensures
        r == is_mmio(addr),
{
    addr >= 0xffff_0000 || (0xf000 <= addr && addr < 0x1_0000) || (0x0100_8000 <= addr && addr < 0x0100_8002)
        || (0x0100_0000 <= addr && addr < 0x0100_0002) || (0x0200_0000 <= addr && addr < 0x0200_0008)
}

/// The register `addr` names.
pub fn normalize_mmio_address(addr: u32) -> (r: u32)
    ensures
        r == normalize_mmio(addr),
{
    if addr >= 0xffff_0000 {
        addr - 0xffff_0000
    } else {
        addr
    }
}

/// RAM addresses whose writes the access log records.
pub open spec fn is_watched_ram(addr: u32) -> bool {
    addr == 0x0414 || (0x0e00 <= addr <= 0x0eff) || (0x0f00 <= addr <= 0x1120) || (0x3550 <= addr <= 0x357f)
        || (0x35e0 <= addr <= 0x35ff) || (0x3e80 <= addr <= 0x3e9f)
}

fn is_watched_ram_address(addr: u32) -> (r: bool)
    ensures
        r == is_watched_ram(addr),
{
    addr == 0x0414 || (0x0e00 <= addr && addr <= 0x0eff) || (0x0f00 <= addr && addr <= 0x1120) || (0x3550
        <= addr && addr <= 0x357f) || (0x35e0 <= addr && addr <= 0x35ff) || (0x3e80 <= addr && addr
        <= 0x3e9f)
}

/// A timer deadline is due once the 16-bit counter has passed it by less
/// than half its range.
pub open spec fn timer_is_due(now: u16, deadline: u16) -> bool {
    (now - deadline) % 0x1_0000 < 0x8000
}

/// Whether the deadline is due at `now`.
pub fn timer_due(now: u16, deadline: u16) -> (r: bool)
    ensures
        r == timer_is_due(now, deadline),
{
    if now >= deadline {
        now - deadline < 0x8000
    } else {
        (now as u32 + 0x1_0000 - deadline as u32) < 0x8000
    }
}

/// The rows a GPIO port value selects, by a table of (bit, row) pairs.
pub open spec fn rows_from_bits(value: u8, table: Seq<(u8, u8)>) -> u16
    decreases table.len(),
{
    if table.len() == 0 {
        0
    } else {
        let prev = rows_from_bits(value, table.drop_last());
        if value & table.last().0 != 0 {
            prev | (1u16 << table.last().1)
        } else {
            prev
        }
    }
}

/// Port 0xF410 drives rows 0 to 7, its high bit row 0.
pub open spec fn port_f410_rows() -> Seq<(u8, u8)> {
    seq![(0x80u8, 0x00u8), (0x40, 0x01), (0x20, 0x02), (0x10, 0x03), (0x08, 0x04), (0x04, 0x05), (0x02, 0x06), (0x01, 0x07)]
}

/// Port 0xF440 drives rows 10 to 15, its high bit row 10.
pub open spec fn port_f440_rows() -> Seq<(u8, u8)> {
    seq![(0x80u8, 0x0au8), (0x40, 0x0b), (0x20, 0x0c), (0x10, 0x0d), (0x08, 0x0e), (0x04, 0x0f)]
}

/// The keyboard rows a write to a GPIO port selects, for the ports that
/// drive rows.
pub open spec fn gpio_row_select(addr: u32, value: u8) -> Option<u16> {
    if addr == 0xf410 {
        Some(rows_from_bits(value, port_f410_rows()))
    } else if addr == 0xf408 {
        Some(if value & 0x20 != 0 { 0x200u16 } else { 0u16 })
    } else if addr == 0xf440 {
        Some(rows_from_bits(value, port_f440_rows()))
    } else {
        None
    }
}

/// The rows a GPIO port drives.
pub open spec fn gpio_row_mask(addr: u32) -> u16 {
    if addr == 0xf410 {
        0x00ff
    } else if addr == 0xf408 {
        0x0200
    } else if addr == 0xf440 {
        0xfc00
    } else {
        0
    }
}

fn rows_from_table(value: u8, table: &[(u8, u8)]) -> (r: u16)
    requires
        forall|i: int| 0 <= i < table@.len() ==> (#[trigger] table@[i]).1 < 16,
    ensures
        r == rows_from_bits(value, table@),
{
    let mut selected: u16 = 0;
    let mut i: usize = 0;
    while i < table.len()
        invariant
            i <= table@.len(),
            forall|k: int| 0 <= k < table@.len() ==> (#[trigger] table@[k]).1 < 16,
            selected == rows_from_bits(value, table@.subrange(0, i as int)),
        decreases table@.len() - i,
    {
        let (bit, row) = table[i];
        assert(table@.subrange(0, i + 1).drop_last() =~= table@.subrange(0, i as int));
        if value & bit != 0 {
            selected = selected | (1u16 << row);
        }
        i = i + 1;
    }
    assert(table@.subrange(0, table@.len() as int) =~= table@);
    selected
}

/// The rows a write of `value` to GPIO port `addr` selects, if the port
/// drives rows.
pub fn gpio_keyboard_row_select(addr: u32, value: u8) -> (r: Option<u16>)
    ensures
        r == gpio_row_select(addr, value),
{
    if addr == 0xf410 {
        let rows: [(u8, u8); 8] = [(0x80, 0x00), (0x40, 0x01), (0x20, 0x02), (0x10, 0x03), (0x08, 0x04), (0x04, 0x05), (0x02, 0x06), (0x01, 0x07)];
        assert(rows@ =~= port_f410_rows());
        Some(rows_from_table(value, &rows))
    } else if addr == 0xf408 {
        Some(if value & 0x20 != 0 { 0x200u16 } else { 0u16 })
    } else if addr == 0xf440 {
        let rows: [(u8, u8); 6] = [(0x80, 0x0a), (0x40, 0x0b), (0x20, 0x0c), (0x10, 0x0d), (0x08, 0x0e), (0x04, 0x0f)];
        assert(rows@ =~= port_f440_rows());
        Some(rows_from_table(value, &rows))
    } else {
        None
    }
}

/// The rows GPIO port `addr` drives.
pub fn gpio_keyboard_row_mask(addr: u32) -> (r: u16)
    ensures
        r == gpio_row_mask(addr),
{
    if addr == 0xf410 {
        0x00ff
    } else if addr == 0xf408 {
        0x0200
    } else if addr == 0xf440 {
        0xfc00
    } else {
        0
    }
}

/// The real-time clock register: hours in the top byte, minutes in the
/// next, seconds in the low byte, from a count of seconds.
pub open spec fn packed_time(seconds: u32) -> u32 {
    let second = seconds % 60;
    let minute = (seconds / 60) % 60;
    let hour = (seconds / 3600) % 24;
    (hour * 0x100_0000 + minute * 0x1_0000 + second) as u32
}

/// The clock register for a count of seconds.
pub fn packed_timebase(seconds: u32) -> (r: u32)
    ensures
        r == packed_time(seconds),
{
    let second = seconds % 60;
    let minute = (seconds / 60) % 60;
    let hour = (seconds / 3600) % 24;
    assert(((hour << 24u32) | (minute << 16u32) | second) == hour * 0x100_0000 + minute * 0x1_0000 + second)
        by (bit_vector)
        requires
            hour < 24,
            minute < 60,
            second < 60,
    ;
    (hour << 24) | (minute << 16) | second
}

/// Decodes UTF-8 (`std::str::from_utf8`). Its documentation says that it
/// succeeds exactly on valid UTF-8, and then gives the characters the bytes
/// encode; `valid_utf8` and `decode_utf8` are vstd's statement of both.
#[verifier::external_body]
fn utf8_text(bytes: &[u8]) -> (r: Option<String>)
    ensures
        r is Some <==> valid_utf8(bytes@),
        r is Some ==> r->0@ == decode_utf8(bytes@),
{
    match std::str::from_utf8(bytes) {
        Ok(text) => Some(text.to_string()),
        Err(_) => None,
    }
}

/// The name in an applet header's name field: the text before the first
/// NUL, trimmed, if it is valid UTF-8 and not empty.
pub open spec fn applet_name_of(field: Seq<u8>) -> Option<Seq<char>> {
    let raw = until_nul(field);
    if valid_utf8(raw) && trimmed(decode_utf8(raw)).len() > 0 {
        Some(trimmed(decode_utf8(raw)))
    } else {
        None
    }
}

/// The name in an applet header's name field.
pub fn applet_name(field: &[u8]) -> (r: Option<String>)
    ensures
        match r {
            Some(s) => applet_name_of(field@) == Some(s@),
            None => applet_name_of(field@) is None,
        },
{
    let len = nul_position(field);
    let raw = copy_range(field, 0, len);
    assert(raw@ == until_nul(field@));
    match utf8_text(raw.as_slice()) {
        Some(text) => {
            let name = trim_text(text.as_str());
            if name.unicode_len() > 0 {
                Some(name)
            } else {
                None
            }
        },
        None => None,
    }
}

/// The applet header mark.
pub open spec fn magic_at(s: Seq<u8>, i: int) -> bool {
    0 <= i && i + 4 <= s.len() && s[i] == 0xc0 && s[i + 1] == 0xff && s[i + 2] == 0xee && s[i + 3] == 0xad
}

/// The last offset below `n` where the header mark starts.
pub open spec fn last_mark_below(s: Seq<u8>, n: int) -> Option<int>
    decreases n,
{
    if n <= 0 {
        None
    } else if magic_at(s, n - 1) {
        Some(n - 1)
    } else {
        last_mark_below(s, n - 1)
    }
}

/// The offset of the last package header in a system image.
pub open spec fn last_system_package(image: Seq<u8>) -> Option<int> {
    last_mark_below(image, image.len() as int)
}

fn has_mark(s: &[u8], i: usize) -> (r: bool)
    ensures
        r == magic_at(s@, i as int),
{
    i <= s.len() && s.len() - i >= 4 && s[i] == 0xc0 && s[i + 1] == 0xff && s[i + 2] == 0xee && s[i + 3] == 0xad
}

/// The offset of the last package header in a system image.
pub fn find_last_system_package(image: &[u8]) -> (r: Option<usize>)
    ensures
        match r {
            Some(o) => last_system_package(image@) == Some(o as int) && o < image@.len(),
            None => last_system_package(image@) is None,
        },
{
    let mut n: usize = image.len();
    while n > 0
        invariant
            n <= image@.len(),
            last_system_package(image@) == last_mark_below(image@, n as int),
        decreases n,
    {
        if has_mark(image, n - 1) {
            return Some(n - 1);
        }
        n = n - 1;
    }
    None
}

/// `s` with `b` written from `at` on.
pub open spec fn overlaid(s: Seq<u8>, at: int, b: Seq<u8>) -> Seq<u8> {
    Seq::new(s.len(), |i: int| if at <= i < at + b.len() { b[i - at] } else { s[i] })
}

/// `s` with the big-endian `v` written at `at`.
pub open spec fn with_be32(s: Seq<u8>, at: int, v: u32) -> Seq<u8> {
    overlaid(s, at, be_u32_bytes(v))
}

fn write_bytes(bytes: &mut Vec<u8>, at: usize, data: &[u8])
    requires
        at + data@.len() <= old(bytes)@.len(),
    ensures
        final(bytes)@ == overlaid(old(bytes)@, at as int, data@),
{
    let len = bytes.len();
    let mut i: usize = 0;
    while i < data.len()
        invariant
            len == bytes@.len(),
            at + data@.len() <= bytes@.len(),
            i <= data@.len(),
            bytes@ == overlaid(old(bytes)@, at as int, data@.subrange(0, i as int)),
        decreases data@.len() - i,
    {
        bytes.set(at + i, data[i]);
        i = i + 1;
        assert(bytes@ =~= overlaid(old(bytes)@, at as int, data@.subrange(0, i as int)));
    }
    assert(data@.subrange(0, data@.len() as int) =~= data@);
}

fn write_be32(bytes: &mut Vec<u8>, at: usize, value: u32)
    requires
        at + 4 <= old(bytes)@.len(),
    ensures
        final(bytes)@ == with_be32(old(bytes)@, at as int, value),
{
    let b = u32_to_be(value);
    write_bytes(bytes, at, &b);
}

fn read_be32(bytes: &Vec<u8>, at: usize) -> (r: Option<u32>)
    ensures
        r == (if at + 4 <= bytes@.len() { Some(be_u32_at(bytes@, at as int) as u32) } else { None }),
{
    if at <= bytes.len() && bytes.len() - at >= 4 {
        Some(read_be_u32(bytes[at], bytes[at + 1], bytes[at + 2], bytes[at + 3]))
    } else {
        None
    }
}

/// The name of the applet whose image is `img`.
pub open spec fn image_name(img: Seq<u8>) -> Option<Seq<char>> {
    if img.len() >= 0x40 {
        applet_name_of(img.subrange(0x18, 0x40))
    } else {
        None
    }
}

/// Whether one of the extra applets carries the name.
pub open spec fn extras_carry(extras: Seq<Option<Vec<u8>>>, name: Seq<char>) -> bool {
    exists|j: int| 0 <= j < extras.len() && extras[j] is Some && image_name(extras[j]->0@) == Some(name)
}

/// A stock applet stays unless an extra applet carries its name; one that
/// could not be read or has no name stays.
pub open spec fn stock_kept(o: Option<Vec<u8>>, extras: Seq<Option<Vec<u8>>>) -> bool {
    match o {
        Some(img) => match image_name(img@) {
            Some(name) => !extras_carry(extras, name),
            None => true,
        },
        None => true,
    }
}

/// The stock applets that stay, in order.
pub open spec fn kept_stock(stock: Seq<Option<Vec<u8>>>, extras: Seq<Option<Vec<u8>>>) -> Seq<Option<Vec<u8>>>
    decreases stock.len(),
{
    if stock.len() == 0 {
        stock
    } else if stock_kept(stock[0], extras) {
        seq![stock[0]] + kept_stock(stock.drop_first(), extras)
    } else {
        kept_stock(stock.drop_first(), extras)
    }
}

/// The first `n` items of `s` (all of them where there are fewer).
pub open spec fn prefix<T>(s: Seq<T>, n: int) -> Seq<T> {
    if n >= s.len() {
        s
    } else if n <= 0 {
        Seq::empty()
    } else {
        s.take(n)
    }
}

/// How many stock applets fit beside the extra ones.
pub open spec fn stock_limit(extras: Seq<Option<Vec<u8>>>) -> int {
    if extras.len() < APPLET_SLOTS {
        APPLET_SLOTS - extras.len()
    } else {
        0
    }
}

/// The applets in the order they are loaded: the stock ones that stay, as
/// many as fit, then the extra ones.
pub open spec fn load_order(stock: Seq<Option<Vec<u8>>>, extras: Seq<Option<Vec<u8>>>) -> Seq<Option<Vec<u8>>> {
    prefix(kept_stock(stock, extras), stock_limit(extras)) + extras
}

/// Memory after loading the applets of `list` from `cursor` on, and where
/// the next one would go: each readable image of at least 0x16 bytes that
/// fits is copied and the cursor moves past it.
pub open spec fn place_applets(ram: Seq<u8>, cursor: int, list: Seq<Option<Vec<u8>>>) -> (Seq<u8>, int)
    decreases list.len(),
{
    if list.len() == 0 {
        (ram, cursor)
    } else {
        match list[0] {
            Some(img) => if cursor + img@.len() <= ram.len() && img@.len() >= 0x16 {
                place_applets(overlaid(ram, cursor, img@), cursor + img@.len(), list.drop_first())
            } else {
                place_applets(ram, cursor, list.drop_first())
            },
            None => place_applets(ram, cursor, list.drop_first()),
        }
    }
}

/// Memory after the applet loader ran: the applets placed from the applet
/// base, and the area's bounds written where the firmware reads them when
/// any applet was placed.
pub open spec fn with_applets(ram: Seq<u8>, list: Seq<Option<Vec<u8>>>) -> Seq<u8> {
    let placed = place_applets(ram, STOCK_APPLET_BASE as int, list);
    if placed.1 > STOCK_APPLET_BASE {
        with_be32(with_be32(placed.0, 0x0e8a, STOCK_APPLET_BASE as u32), 0x0e8e, placed.1 as u32)
    } else {
        placed.0
    }
}

/// Whether an image is too large for emulated memory.
pub open spec fn image_too_large(image: Seq<u8>) -> bool {
    if is_neo_system(image) {
        image.len() > MEMORY_SIZE || NEO_SYSTEM_BASE + image.len() > MEMORY_SIZE
    } else {
        image.len() > MEMORY_SIZE || ROM_BASE + image.len() > MEMORY_SIZE
    }
}

/// Memory holding a small ROM: the image at 0 and mirrored at the ROM base.
pub open spec fn small_rom_ram(image: Seq<u8>) -> Seq<u8> {
    overlaid(overlaid(Seq::new(MEMORY_SIZE as nat, |i: int| 0u8), 0, image), ROM_BASE as int, image)
}

/// Memory holding the full system image: the image at its base, the pointer
/// to its last package, the applets, and the keyboard stack setting.
pub open spec fn neo_system_ram(image: Seq<u8>, list: Seq<Option<Vec<u8>>>) -> Seq<u8> {
    let base = overlaid(Seq::new(MEMORY_SIZE as nat, |i: int| 0u8), NEO_SYSTEM_BASE as int, image);
    let with_package = match last_system_package(image) {
        Some(p) => with_be32(base, 0x0e0a, (NEO_SYSTEM_BASE + p) as u32),
        None => base,
    };
    with_be32(with_applets(with_package, list), 0x7dd8, 0x0830)
}

/// The end of the chain of applet headers from `cursor`: each header's
/// length leads to the next, until a missing mark, a zero length or a
/// length past the end.
pub open spec fn storage_walk(ram: Seq<u8>, cursor: int) -> int
    decreases ram.len() - cursor,
{
    if cursor >= 0 && cursor + 8 <= ram.len() && magic_at(ram, cursor) {
        let length = be_u32_at(ram, cursor + 4);
        if length == 0 || cursor + length > ram.len() {
            cursor
        } else {
            storage_walk(ram, cursor + length)
        }
    } else {
        cursor
    }
}

/// The end of the applet area, if it holds any applet.
pub open spec fn storage_end_of(ram: Seq<u8>) -> Option<u32> {
    let end = storage_walk(ram, STOCK_APPLET_BASE as int);
    if end > STOCK_APPLET_BASE {
        Some(end as u32)
    } else {
        None
    }
}

proof fn lemma_storage_walk_bounds(ram: Seq<u8>, cursor: int)
    requires
        0 <= cursor <= ram.len(),
    ensures
        cursor <= storage_walk(ram, cursor) <= ram.len(),
    decreases ram.len() - cursor,
{
    if cursor + 8 <= ram.len() && magic_at(ram, cursor) {
        let length = be_u32_at(ram, cursor + 4);
        if !(length == 0 || cursor + length > ram.len()) {
            lemma_storage_walk_bounds(ram, cursor + length);
        }
    }
}

/// The end of the applet area, if it holds any applet.
pub fn find_applet_storage_end(bytes: &Vec<u8>) -> (r: Option<u32>)
    requires
        bytes@.len() <= MEMORY_SIZE,
    ensures
        r == storage_end_of(bytes@),
{
    let start = STOCK_APPLET_BASE;
    let mut cursor = start;
    if cursor > bytes.len() {
        return None;
    }
    let mut done = false;
    while !done && cursor + 8 <= bytes.len() && has_mark(bytes.as_slice(), cursor)
        invariant
            bytes@.len() <= MEMORY_SIZE,
            start <= cursor <= bytes@.len(),
            storage_walk(bytes@, start as int) == storage_walk(bytes@, cursor as int),
            done ==> storage_walk(bytes@, cursor as int) == cursor,
        decreases bytes@.len() - cursor, if done { 0int } else { 1int },
    {
        let length = read_be_u32(bytes[cursor + 4], bytes[cursor + 5], bytes[cursor + 6], bytes[cursor + 7]);
        if length == 0 || length as usize > bytes.len() - cursor {
            done = true;
        } else {
            cursor = cursor + length as usize;
        }
    }
    if cursor > start {
        Some(cursor as u32)
    } else {
        None
    }
}

/// The state of emulated memory as the contracts speak of it.
pub struct MemoryState {
    pub ram: Seq<u8>,
    pub registers: Map<u32, u8>,
    pub lcd: Lcd,
    pub keyboard: Keyboard,
    pub log: Seq<MmioAccess>,
    pub logging: bool,
    pub timebase: u32,
    pub timer: u32,
    pub pll_cycles: u64,
    pub timer_phase: u64,
    pub storage_end: Option<u32>,
    pub f411_row_select: bool,
    pub gpio_rows: u16,
}

/// Emulated memory: RAM, the register space and the devices behind it.
#[derive(Clone, Debug)]
pub struct EmuMemory {
    bytes: Vec<u8>,
    lcd: Lcd,
    keyboard: Keyboard,
    mmio_bytes: BTreeMap<u32, u8>,
    mmio_accesses: Vec<MmioAccess>,
    mmio_logging: bool,
    timebase_counter: u32,
    timer_counter: u32,
    pll_clk32_cycles: u64,
    timer_counter_phase: u64,
    applet_storage_end: Option<u32>,
    f411_row_select_enabled: bool,
    gpio_keyboard_rows: u16,
}

impl View for EmuMemory {
    type V = MemoryState;

    closed spec fn view(&self) -> MemoryState {
        MemoryState {
            ram: self.bytes@,
            registers: self.mmio_bytes@,
            lcd: self.lcd,
            keyboard: self.keyboard,
            log: self.mmio_accesses@,
            logging: self.mmio_logging,
            timebase: self.timebase_counter,
            timer: self.timer_counter,
            pll_cycles: self.pll_clk32_cycles,
            timer_phase: self.timer_counter_phase,
            storage_end: self.applet_storage_end,
            f411_row_select: self.f411_row_select_enabled,
            gpio_rows: self.gpio_keyboard_rows,
        }
    }
}

/// Whether `name` is one of `names`.
pub open spec fn listed(names: Seq<String>, name: Seq<char>) -> bool {
    exists|k: int| 0 <= k < names.len() && #[trigger] names[k]@ == name
}

/// Whether one of the first `j` extra applets carries `name`.
pub open spec fn carried_before(extras: Seq<Option<Vec<u8>>>, j: int, name: Seq<char>) -> bool {
    exists|i: int| 0 <= i < j && #[trigger] extras[i] is Some && image_name(extras[i]->0@) == Some(name)
}

/// The names the extra applets carry.
fn extra_names(extras: &Vec<Option<Vec<u8>>>) -> (r: Vec<String>)
    ensures
        forall|name: Seq<char>| #[trigger] listed(r@, name) <==> extras_carry(extras@, name),
{
    let mut names: Vec<String> = Vec::new();
    let mut j: usize = 0;
    while j < extras.len()
        invariant
            j <= extras@.len(),
            forall|name: Seq<char>| #[trigger] listed(names@, name) <==> carried_before(extras@, j as int, name),
        decreases extras@.len() - j,
    {
        let ghost names0 = names@;
        if let Some(img) = &extras[j] {
            if img.len() >= 0x40 {
                let field = copy_range(img.as_slice(), 0x18, 0x28);
                assert(field@ == img@.subrange(0x18, 0x40));
                if let Some(name) = applet_name(field.as_slice()) {
                    names.push(name);
                    assert forall|n: Seq<char>| #[trigger] listed(names@, n) <==> carried_before(extras@, j + 1, n) by {
                        if listed(names@, n) {
                            let k = choose|k: int| 0 <= k < names@.len() && #[trigger] names@[k]@ == n;
                            if k < names0.len() {
                                assert(names0[k]@ == n);
                                assert(listed(names0, n));
                            } else {
                                assert(extras@[j as int] is Some);
                            }
                        }
                        if carried_before(extras@, j + 1, n) {
                            let i = choose|i: int| 0 <= i < j + 1 && #[trigger] extras@[i] is Some && image_name(extras@[i]->0@) == Some(n);
                            if i < j {
                                assert(carried_before(extras@, j as int, n));
                                assert(listed(names0, n));
                                let k = choose|k: int| 0 <= k < names0.len() && #[trigger] names0[k]@ == n;
                                assert(names@[k] == names0[k]);
                                assert(listed(names@, n));
                            } else {
                                assert(names@[names0.len() as int]@ == n);
                            }
                        }
                    }
                } else {
                    assert forall|n: Seq<char>| #[trigger] listed(names@, n) <==> carried_before(extras@, j + 1, n) by {
                        if carried_before(extras@, j + 1, n) {
                            let i = choose|i: int| 0 <= i < j + 1 && #[trigger] extras@[i] is Some && image_name(extras@[i]->0@) == Some(n);
                            if i < j {
                                assert(carried_before(extras@, j as int, n));
                            }
                        }
                        if carried_before(extras@, j as int, n) {
                            let i = choose|i: int| 0 <= i < j && #[trigger] extras@[i] is Some && image_name(extras@[i]->0@) == Some(n);
                            assert(0 <= i < j + 1);
                        }
                    }
                }
            } else {
                assert forall|n: Seq<char>| #[trigger] listed(names@, n) <==> carried_before(extras@, j + 1, n) by {
                    if carried_before(extras@, j + 1, n) {
                        let i = choose|i: int| 0 <= i < j + 1 && #[trigger] extras@[i] is Some && image_name(extras@[i]->0@) == Some(n);
                        if i < j {
                            assert(carried_before(extras@, j as int, n));
                        }
                    }
                    if carried_before(extras@, j as int, n) {
                        let i = choose|i: int| 0 <= i < j && #[trigger] extras@[i] is Some && image_name(extras@[i]->0@) == Some(n);
                        assert(0 <= i < j + 1);
                    }
                }
            }
        } else {
            assert forall|n: Seq<char>| #[trigger] listed(names@, n) <==> carried_before(extras@, j + 1, n) by {
                if carried_before(extras@, j + 1, n) {
                    let i = choose|i: int| 0 <= i < j + 1 && #[trigger] extras@[i] is Some && image_name(extras@[i]->0@) == Some(n);
                    if i < j {
                        assert(carried_before(extras@, j as int, n));
                    }
                }
                if carried_before(extras@, j as int, n) {
                    let i = choose|i: int| 0 <= i < j && #[trigger] extras@[i] is Some && image_name(extras@[i]->0@) == Some(n);
                    assert(0 <= i < j + 1);
                }
            }
        }
        j = j + 1;
    }
    assert forall|n: Seq<char>| #[trigger] listed(names@, n) <==> extras_carry(extras@, n) by {
        if extras_carry(extras@, n) {
            let i = choose|i: int| 0 <= i < extras@.len() && extras@[i] is Some && image_name(extras@[i]->0@) == Some(n);
            assert(carried_before(extras@, j as int, n));
        }
        if carried_before(extras@, j as int, n) {
            let i = choose|i: int| 0 <= i < j && #[trigger] extras@[i] is Some && image_name(extras@[i]->0@) == Some(n);
            assert(extras@[i] is Some && image_name(extras@[i]->0@) == Some(n));
        }
    }
    names
}

fn name_listed(names: &Vec<String>, name: &String) -> (r: bool)
    ensures
        r == listed(names@, name@),
{
    let mut k: usize = 0;
    while k < names.len()
        invariant
            k <= names@.len(),
            forall|q: int| 0 <= q < k ==> (#[trigger] names@[q])@ != name@,
        decreases names@.len() - k,
    {
        if text_eq(names[k].as_str(), name.as_str()) {
            return true;
        }
        k = k + 1;
    }
    false
}

fn stock_image_kept(o: &Option<Vec<u8>>, names: &Vec<String>, Ghost(extras): Ghost<Seq<Option<Vec<u8>>>>) -> (r: bool)
    requires
        forall|name: Seq<char>| #[trigger] listed(names@, name) <==> extras_carry(extras, name),
    ensures
        r == stock_kept(*o, extras),
{
    match o {
        Some(img) => {
            if img.len() >= 0x40 {
                let field = copy_range(img.as_slice(), 0x18, 0x28);
                assert(field@ == img@.subrange(0x18, 0x40));
                match applet_name(field.as_slice()) {
                    Some(name) => !name_listed(names, &name),
                    None => true,
                }
            } else {
                true
            }
        },
        None => true,
    }
}

/// Copies one applet image at the cursor when it is readable, at least
/// 0x16 bytes long and fits.
fn place_one(bytes: &mut Vec<u8>, cursor: usize, o: &Option<Vec<u8>>) -> (next: usize)
    requires
        cursor <= old(bytes)@.len(),
    ensures
        next <= final(bytes)@.len(),
        final(bytes)@.len() == old(bytes)@.len(),
        place_applets(final(bytes)@, next as int, Seq::empty()) == place_applets(old(bytes)@, cursor as int, seq![*o]),
{
    let ghost b0 = bytes@;
    let ghost l = seq![*o];
    assert(l.drop_first() =~= Seq::<Option<Vec<u8>>>::empty());
    if let Some(img) = o {
        if img.len() >= 0x16 && img.len() <= bytes.len() - cursor {
            write_bytes(bytes, cursor, img.as_slice());
            return cursor + img.len();
        }
    }
    cursor
}

proof fn lemma_place_cons(ram: Seq<u8>, cursor: int, x: Option<Vec<u8>>, rest: Seq<Option<Vec<u8>>>)
    ensures
        place_applets(ram, cursor, seq![x] + rest) == {
            let one = place_applets(ram, cursor, seq![x]);
            place_applets(one.0, one.1, rest)
        },
{
    let l = seq![x] + rest;
    let e = Seq::<Option<Vec<u8>>>::empty();
    assert(l[0] == x);
    assert(l.drop_first() =~= rest);
    assert(seq![x].drop_first() =~= e);
    match x {
        Some(img) => {
            if cursor + img@.len() <= ram.len() && img@.len() >= 0x16 {
                assert(place_applets(overlaid(ram, cursor, img@), cursor + img@.len(), e) == (overlaid(ram, cursor, img@), cursor + img@.len()));
            } else {
                assert(place_applets(ram, cursor, e) == (ram, cursor));
            }
        },
        None => {
            assert(place_applets(ram, cursor, e) == (ram, cursor));
        },
    }
}

proof fn lemma_prefix_cons<T>(x: T, s: Seq<T>, n: int)
    requires
        n >= 1,
    ensures
        prefix(seq![x] + s, n) == seq![x] + prefix(s, n - 1),
{
    let l = seq![x] + s;
    if n >= l.len() {
        assert(prefix(s, n - 1) == s);
    } else {
        assert(l.take(n) =~= seq![x] + s.take(n - 1));
    }
}

/// Loads the applets in their order from the applet base and writes the
/// area's bounds where the firmware reads them.
fn load_applets(bytes: &mut Vec<u8>, stock: &Vec<Option<Vec<u8>>>, extras: &Vec<Option<Vec<u8>>>)
    requires
        old(bytes)@.len() == MEMORY_SIZE,
    ensures
        final(bytes)@ == with_applets(old(bytes)@, load_order(stock@, extras@)),
        final(bytes)@.len() == MEMORY_SIZE,
{
    let ghost b0 = bytes@;
    let ghost full = load_order(stock@, extras@);
    let names = extra_names(extras);
    let limit: usize = if extras.len() < APPLET_SLOTS { APPLET_SLOTS - extras.len() } else { 0 };
    let mut cursor: usize = STOCK_APPLET_BASE;
    let mut taken: usize = 0;
    let mut i: usize = 0;
    assert(stock@.skip(0) =~= stock@);
    while i < stock.len() && taken < limit
        invariant
            bytes@.len() == MEMORY_SIZE,
            cursor <= bytes@.len(),
            i <= stock@.len(),
            taken <= limit,
            limit == stock_limit(extras@),
            forall|name: Seq<char>| #[trigger] listed(names@, name) <==> extras_carry(extras@, name),
            place_applets(bytes@, cursor as int, prefix(kept_stock(stock@.skip(i as int), extras@), limit - taken) + extras@)
                == place_applets(b0, STOCK_APPLET_BASE as int, full),
        decreases stock@.len() - i,
    {
        let ghost rest = stock@.skip(i as int);
        let ghost rest1 = stock@.skip(i + 1);
        assert(rest.drop_first() =~= rest1);
        assert(rest[0] == stock@[i as int]);
        let kept = stock_image_kept(&stock[i], &names, Ghost(extras@));
        if kept {
            let ghost b1 = bytes@;
            let ghost c1 = cursor;
            proof {
                lemma_prefix_cons(stock@[i as int], kept_stock(rest1, extras@), limit - taken);
                assert(prefix(kept_stock(rest, extras@), limit - taken) + extras@ =~= seq![stock@[i as int]]
                    + (prefix(kept_stock(rest1, extras@), limit - taken - 1) + extras@));
                lemma_place_cons(b1, c1 as int, stock@[i as int], prefix(kept_stock(rest1, extras@), limit - taken - 1) + extras@);
            }
            cursor = place_one(bytes, cursor, &stock[i]);
            proof {
                assert(place_applets(bytes@, cursor as int, Seq::empty()) == (bytes@, cursor as int));
            }
            taken = taken + 1;
        }
        i = i + 1;
    }
    proof {
        if i >= stock.len() {
            assert(stock@.skip(i as int) =~= Seq::<Option<Vec<u8>>>::empty());
        }
        assert(prefix(kept_stock(stock@.skip(i as int), extras@), limit - taken) + extras@ =~= extras@);
    }
    let mut j: usize = 0;
    assert(extras@.skip(0) =~= extras@);
    while j < extras.len()
        invariant
            bytes@.len() == MEMORY_SIZE,
            cursor <= bytes@.len(),
            j <= extras@.len(),
            place_applets(bytes@, cursor as int, extras@.skip(j as int)) == place_applets(b0, STOCK_APPLET_BASE as int, full),
        decreases extras@.len() - j,
    {
        let ghost b1 = bytes@;
        let ghost c1 = cursor;
        proof {
            assert(extras@.skip(j as int) =~= seq![extras@[j as int]] + extras@.skip(j + 1));
            lemma_place_cons(b1, c1 as int, extras@[j as int], extras@.skip(j + 1));
        }
        cursor = place_one(bytes, cursor, &extras[j]);
        proof {
            assert(place_applets(bytes@, cursor as int, Seq::empty()) == (bytes@, cursor as int));
        }
        j = j + 1;
    }
    assert(extras@.skip(j as int) =~= Seq::<Option<Vec<u8>>>::empty());
    if cursor > STOCK_APPLET_BASE {
        write_be32(bytes, 0x0e8a, STOCK_APPLET_BASE as u32);
        write_be32(bytes, 0x0e8e, cursor as u32);
    }
}

impl EmuMemory {
    /// Memory of the right size, with working devices and a log within its
    /// limit.
    pub open spec fn wf(&self) -> bool {
        &&& self@.ram.len() == MEMORY_SIZE
        &&& self@.lcd.wf()
        &&& self@.keyboard.wf()
        &&& self@.log.len() <= MMIO_LOG_LIMIT
    }

    /// Memory holding a firmware image. A small ROM sits at 0 and is
    /// mirrored at the ROM base; the full system image sits at its base,
    /// with the pointer to its last package, the applets (the stock images
    /// that stay and the extra images, in load order) and the keyboard stack
    /// setting. Fails when the image does not fit.
    pub fn load_small_rom(firmware: &FirmwareRuntime, stock_applets: &Vec<Option<Vec<u8>>>, extra_applets: &Vec<Option<Vec<u8>>>) -> (r: Result<EmuMemory, MemoryError>)
        ensures
            r is Err <==> image_too_large(firmware.bytes()),
            r matches Ok(m) ==> {
                &&& m.wf()
                &&& m@.ram == (if is_neo_system(firmware.bytes()) {
                    neo_system_ram(firmware.bytes(), load_order(stock_applets@, extra_applets@))
                } else {
                    small_rom_ram(firmware.bytes())
                })
                &&& m@.registers == Map::<u32, u8>::empty()
                &&& m@.log.len() == 0
                &&& m@.logging
                &&& m@.timebase == 0 && m@.timer == 0 && m@.pll_cycles == 0 && m@.timer_phase == 0
                &&& m@.storage_end == storage_end_of(m@.ram)
                &&& m@.f411_row_select == !is_neo_system(firmware.bytes())
                &&& m@.gpio_rows == 0
                &&& m@.lcd.left.registers() == reset_registers()
                &&& m@.lcd.right.registers() == reset_registers()
                &&& m@.keyboard.held_keys().len() == 0
                &&& m@.keyboard.script_steps().len() == 0
                &&& m@.keyboard.rows() is None
            },
            r matches Err(e) ==> e == MemoryError::ImageTooLarge,
    {
        let image = firmware.image();
        if image.len() > MEMORY_SIZE {
            return Err(MemoryError::ImageTooLarge);
        }
        let neo = firmware.is_neo_system_image();
        let mut bytes: Vec<u8> = Vec::new();
        let mut k: usize = 0;
        while k < MEMORY_SIZE
            invariant
                k <= MEMORY_SIZE,
                bytes@ == Seq::new(k as nat, |i: int| 0u8),
            decreases MEMORY_SIZE - k,
        {
            bytes.push(0);
            k = k + 1;
            assert(bytes@ =~= Seq::new(k as nat, |i: int| 0u8));
        }
        if neo {
            if image.len() > MEMORY_SIZE - NEO_SYSTEM_BASE {
                return Err(MemoryError::ImageTooLarge);
            }
            write_bytes(&mut bytes, NEO_SYSTEM_BASE, image);
            if let Some(system_package) = find_last_system_package(image) {
                write_be32(&mut bytes, 0x0e0a, (NEO_SYSTEM_BASE + system_package) as u32);
            }
            load_applets(&mut bytes, stock_applets, extra_applets);
            write_be32(&mut bytes, 0x7dd8, 0x0830);
        } else {
            if image.len() > MEMORY_SIZE - ROM_BASE {
                return Err(MemoryError::ImageTooLarge);
            }
            write_bytes(&mut bytes, 0, image);
            write_bytes(&mut bytes, ROM_BASE, image);
        }
        let applet_storage_end = find_applet_storage_end(&bytes);
        let m = EmuMemory {
            bytes,
            lcd: Lcd::new(),
            keyboard: Keyboard::new(),
            mmio_bytes: BTreeMap::new(),
            mmio_accesses: Vec::new(),
            mmio_logging: true,
            timebase_counter: 0,
            timer_counter: 0,
            pll_clk32_cycles: 0,
            timer_counter_phase: 0,
            applet_storage_end,
            f411_row_select_enabled: !neo,
            gpio_keyboard_rows: 0,
        };
        Ok(m)
    }
}

/// What a register reads back from the store: the last byte written, 0
/// where none was.
pub open spec fn stored(regs: Map<u32, u8>, a: u32) -> u8 {
    if regs.contains_key(a) {
        regs[a]
    } else {
        0
    }
}

/// `s` with `entry` added to its access log when logging is on; the log
/// keeps its last entries up to its limit.
pub open spec fn logged(s: MemoryState, entry: MmioAccess) -> MemoryState {
    if s.logging {
        let l = s.log.push(entry);
        MemoryState { log: if l.len() > MMIO_LOG_LIMIT { l.drop_first() } else { l }, ..s }
    } else {
        s
    }
}

/// The byte register `a` (already folded) reads: the keyboard's input
/// port, the 32 kHz clock bit, the status register with its ready bit, the
/// LCD controllers' status and data ports, or the stored byte.
pub open spec fn mmio_read8(s: MemoryState, a: u32) -> u8 {
    if a == 0xf419 {
        matrix_input(s.keyboard)
    } else if a == 0xf202 {
        stored(s.registers, a)
    } else if a == 0xf449 {
        stored(s.registers, a) | 0x20
    } else if a == 0x0100_8000 {
        lcd_status(s.lcd, 0)
    } else if a == 0x0100_8001 {
        lcd_data(s.lcd, 0)
    } else if a == 0x0100_0000 {
        lcd_status(s.lcd, 1)
    } else if a == 0x0100_0001 {
        lcd_data(s.lcd, 1)
    } else {
        stored(s.registers, a)
    }
}

/// `s2` is `s` after a byte read of register `a` (already folded): a read
/// of the input port advances the keyboard, a read of an LCD data port
/// advances that controller, and nothing else changes.
pub open spec fn mmio_read8_step(s: MemoryState, s2: MemoryState, a: u32) -> bool {
    if a == 0xf419 {
        matrix_read_step(s.keyboard, s2.keyboard) && s2 == MemoryState { keyboard: s2.keyboard, ..s }
    } else if a == 0x0100_8001 {
        lcd_read_step(s.lcd, s2.lcd, 0) && s2 == MemoryState { lcd: s2.lcd, ..s }
    } else if a == 0x0100_0001 {
        lcd_read_step(s.lcd, s2.lcd, 1) && s2 == MemoryState { lcd: s2.lcd, ..s }
    } else {
        s2 == s
    }
}

/// The word register `addr` reads, and the state after: the clock's
/// hours-and-minutes and seconds halves, the clock's tick register (which
/// reads 0 and advances the clock by a second), the timer counter, or two
/// byte reads.
pub open spec fn mmio_read16(s: MemoryState, s2: MemoryState, addr: u32, r: u16) -> bool {
    let a = normalize_mmio(addr);
    if a == 0xfb00 {
        r == (packed_time(s.timebase) / 0x1_0000) as u16 && s2 == s
    } else if a == 0xfb02 {
        r == (packed_time(s.timebase) % 0x1_0000) as u16 && s2 == s
    } else if a == 0xfb1a {
        r == 0 && s2 == MemoryState { timebase: (if s.timebase == u32::MAX { 0 } else { s.timebase + 1 }) as u32, ..s }
    } else if a == 0xf608 {
        r == (s.timer % 0x1_0000) as u16 && s2 == s
    } else {
        exists|s1: MemoryState| #[trigger] mmio_read8_step(s, s1, a) && mmio_read8_step(s1, s2, normalize_mmio((addr + 1) as u32))
            && r == be_u16(mmio_read8(s, a), mmio_read8(s1, normalize_mmio((addr + 1) as u32)))
    }
}

/// `s2` is `s` after the byte `value` was written to register address
/// `addr`: the byte is stored under the folded register; a write to the
/// F411 row port (where the small ROM's scan uses it) or to a GPIO row port
/// selects keyboard rows; a write to an LCD port reaches that controller.
pub open spec fn mmio_write8_step(s: MemoryState, s2: MemoryState, addr: u32, value: u8) -> bool {
    let a = normalize_mmio(addr);
    &&& s2.registers == s.registers.insert(a, value)
    &&& if a == 0xf411 && s.f411_row_select {
        rows_selected(s.keyboard, s2.keyboard, 1u16 << (value % 16) as u16) && s2.gpio_rows == s.gpio_rows
    } else if gpio_row_select(a, value) is Some {
        let rows = (s.gpio_rows & !gpio_row_mask(a)) | gpio_row_select(a, value)->0;
        s2.gpio_rows == rows && rows_selected(s.keyboard, s2.keyboard, rows)
    } else {
        s2.keyboard == s.keyboard && s2.gpio_rows == s.gpio_rows
    }
    &&& if addr == 0x0100_8000 {
        lcd_command_step(s.lcd, s2.lcd, 0, value)
    } else if addr == 0x0100_8001 {
        lcd_write_step(s.lcd, s2.lcd, 0, value)
    } else if addr == 0x0100_0000 {
        lcd_command_step(s.lcd, s2.lcd, 1, value)
    } else if addr == 0x0100_0001 {
        lcd_write_step(s.lcd, s2.lcd, 1, value)
    } else {
        s2.lcd == s.lcd
    }
    &&& s2 == MemoryState { registers: s2.registers, keyboard: s2.keyboard, gpio_rows: s2.gpio_rows, lcd: s2.lcd, ..s }
}

/// `s2` is `s` after a logged word read of register address `addr` that
/// gave `v`.
pub open spec fn word_read_logged(s: MemoryState, s2: MemoryState, addr: u32, v: u16) -> bool {
    exists|s1: MemoryState| #[trigger] mmio_read16(s, s1, addr, v)
        && s2 == logged(s1, MmioAccess::Read16 { address: addr, register: normalize_mmio(addr), value: v })
}

/// The byte at `addr` of RAM, if there is one.
pub open spec fn ram_byte(ram: Seq<u8>, addr: u32) -> Option<u8> {
    if addr < ram.len() {
        Some(ram[addr as int])
    } else {
        None
    }
}

impl EmuMemory {
    fn record_mmio(&mut self, access: MmioAccess)
        requires
            old(self).wf(),
        ensures
            final(self).wf(),
            final(self)@ == logged(old(self)@, access),
    {
        if !self.mmio_logging {
            return;
        }
        self.mmio_accesses.push(access);
        if self.mmio_accesses.len() > MMIO_LOG_LIMIT {
            self.mmio_accesses.remove(0);
            assert(self.mmio_accesses@ =~= old(self).mmio_accesses@.push(access).drop_first());
        }
    }

    fn read_mmio_byte(&mut self, addr: u32) -> (r: u8)
        requires
            old(self).wf(),
        ensures
            final(self).wf(),
            r == mmio_read8(old(self)@, normalize_mmio(addr)),
            mmio_read8_step(old(self)@, final(self)@, normalize_mmio(addr)),
    {
        let addr = normalize_mmio_address(addr);
        if addr == 0xf419 {
            return self.keyboard.read_matrix_input();
        }
        if addr == 0xf202 {
            return match self.mmio_bytes.get(&addr) {
                Some(v) => *v,
                None => 0,
            };
        }
        if addr == 0xf449 {
            let v = match self.mmio_bytes.get(&addr) {
                Some(v) => *v,
                None => 0,
            };
            return v | 0x20;
        }
        if addr == 0x0100_8000 {
            return self.lcd.read_status(0);
        } else if addr == 0x0100_8001 {
            return self.lcd.read_data(0);
        } else if addr == 0x0100_0000 {
            return self.lcd.read_status(1);
        } else if addr == 0x0100_0001 {
            return self.lcd.read_data(1);
        }
        match self.mmio_bytes.get(&addr) {
            Some(v) => *v,
            None => 0,
        }
    }

    fn read_mmio_word(&mut self, addr: u32) -> (r: u16)
        requires
            old(self).wf(),
            addr < u32::MAX,
        ensures
            final(self).wf(),
            mmio_read16(old(self)@, final(self)@, addr, r),
    {
        let a = normalize_mmio_address(addr);
        if a == 0xfb00 {
            return (packed_timebase(self.timebase_counter) / 0x1_0000) as u16;
        } else if a == 0xfb02 {
            return (packed_timebase(self.timebase_counter) % 0x1_0000) as u16;
        } else if a == 0xfb1a {
            self.timebase_counter = if self.timebase_counter == u32::MAX { 0 } else { self.timebase_counter + 1 };
            return 0;
        } else if a == 0xf608 {
            return (self.timer_counter % 0x1_0000) as u16;
        }
        let hi = self.read_mmio_byte(addr);
        let ghost s1 = self@;
        let lo = self.read_mmio_byte(addr + 1);
        read_be_u16(hi, lo)
    }

    fn write_mmio_byte(&mut self, addr: u32, value: u8)
        requires
            old(self).wf(),
        ensures
            final(self).wf(),
            mmio_write8_step(old(self)@, final(self)@, addr, value),
    {
        let normalized = normalize_mmio_address(addr);
        if normalized == 0xf411 && self.f411_row_select_enabled {
            self.keyboard.select_row(value);
        } else {
            match gpio_keyboard_row_select(normalized, value) {
                Some(rows) => {
                    let mask = gpio_keyboard_row_mask(normalized);
                    self.gpio_keyboard_rows = (self.gpio_keyboard_rows & !mask) | rows;
                    self.keyboard.select_rows(self.gpio_keyboard_rows);
                },
                None => {},
            }
        }
        if addr == 0x0100_8000 {
            self.lcd.write_command(0, value);
        } else if addr == 0x0100_8001 {
            self.lcd.write_data(0, value);
        } else if addr == 0x0100_0000 {
            self.lcd.write_command(1, value);
        } else if addr == 0x0100_0001 {
            self.lcd.write_data(1, value);
        }
        self.mmio_bytes.insert(normalized, value);
    }

    fn write_mmio_word(&mut self, addr: u32, value: u16)
        requires
            old(self).wf(),
            addr < u32::MAX,
        ensures
            final(self).wf(),
            exists|s1: MemoryState| #[trigger] mmio_write8_step(old(self)@, s1, addr, (value / 0x100) as u8)
                && mmio_write8_step(s1, final(self)@, (addr + 1) as u32, (value % 0x100) as u8),
    {
        let bytes = u16_to_be(value);
        self.write_mmio_byte(addr, bytes[0]);
        let ghost s1 = self@;
        self.write_mmio_byte(addr + 1, bytes[1]);
    }

    /// Reads a byte: a register read (logged) in the register space, else
    /// the RAM byte, `None` past the end of memory.
    pub fn get_byte(&mut self, addr: u32) -> (r: Option<u8>)
        requires
            old(self).wf(),
        ensures
            final(self).wf(),
            !is_mmio(addr) ==> r == ram_byte(old(self)@.ram, addr) && final(self)@ == old(self)@,
            is_mmio(addr) ==> r == Some(mmio_read8(old(self)@, normalize_mmio(addr))) && exists|s1: MemoryState|
                #[trigger] mmio_read8_step(old(self)@, s1, normalize_mmio(addr)) && final(self)@ == logged(
                    s1,
                    MmioAccess::Read8 { address: addr, register: normalize_mmio(addr), value: r->0 },
                ),
    {
        if is_mmio_address(addr) {
            let value = self.read_mmio_byte(addr);
            let ghost s1 = self@;
            self.record_mmio(MmioAccess::Read8 { address: addr, register: normalize_mmio_address(addr), value });
            return Some(value);
        }
        if (addr as usize) < self.bytes.len() {
            Some(self.bytes[addr as usize])
        } else {
            None
        }
    }

    fn read_register_word(&mut self, addr: u32) -> (v: u16)
        requires
            old(self).wf(),
            addr < u32::MAX,
        ensures
            final(self).wf(),
            word_read_logged(old(self)@, final(self)@, addr, v),
    {
        let value = self.read_mmio_word(addr);
        let ghost s1 = self@;
        assert(mmio_read16(old(self)@, s1, addr, value));
        self.record_mmio(MmioAccess::Read16 { address: addr, register: normalize_mmio_address(addr), value });
        value
    }

    /// Reads a big-endian word: a register read (logged) in the register
    /// space, else two RAM bytes, `None` past the end of memory.
    pub fn get_word(&mut self, addr: u32) -> (r: Option<u16>)
        requires
            old(self).wf(),
            addr < u32::MAX,
        ensures
            final(self).wf(),
            !is_mmio(addr) ==> final(self)@ == old(self)@ && r == (if addr + 1 < old(self)@.ram.len() {
                Some(be_u16(old(self)@.ram[addr as int], old(self)@.ram[addr + 1]) as u16)
            } else {
                None
            }),
            is_mmio(addr) ==> r is Some && word_read_logged(old(self)@, final(self)@, addr, r->0),
    {
        if is_mmio_address(addr) {
            return Some(self.read_register_word(addr));
        }
        let a = addr as usize;
        if a < self.bytes.len() && self.bytes.len() - a >= 2 {
            Some(read_be_u16(self.bytes[a], self.bytes[a + 1]))
        } else {
            None
        }
    }

    /// Writes a byte: a register write (logged) in the register space, else
    /// the RAM byte (a write to a watched RAM address is logged first);
    /// `None` past the end of memory.
    pub fn set_byte(&mut self, addr: u32, value: u8) -> (r: Option<()>)
        requires
            old(self).wf(),
        ensures
            final(self).wf(),
            is_mmio(addr) ==> r is Some && exists|s1: MemoryState| #[trigger] mmio_write8_step(old(self)@, s1, addr, value)
                && final(self)@ == logged(s1, MmioAccess::Write8 { address: addr, register: normalize_mmio(addr), value }),
            !is_mmio(addr) ==> {
                let s1 = if is_watched_ram(addr) { logged(old(self)@, MmioAccess::RamWrite8 { address: addr, value }) } else { old(self)@ };
                &&& r is Some <==> addr < old(self)@.ram.len()
                &&& final(self)@ == (if addr < s1.ram.len() { MemoryState { ram: s1.ram.update(addr as int, value), ..s1 } } else { s1 })
            },
    {
        if is_mmio_address(addr) {
            self.write_mmio_byte(addr, value);
            let ghost s1 = self@;
            self.record_mmio(MmioAccess::Write8 { address: addr, register: normalize_mmio_address(addr), value });
            return Some(());
        }
        if is_watched_ram_address(addr) {
            self.record_mmio(MmioAccess::RamWrite8 { address: addr, value });
        }
        if (addr as usize) < self.bytes.len() {
            self.bytes.set(addr as usize, value);
            Some(())
        } else {
            None
        }
    }

    /// Writes a big-endian word. While an applet area is known, writes to
    /// its bound words are dropped (and logged); in the register space two
    /// register writes (logged); else two RAM bytes (a write to a watched
    /// RAM address logged first), the first kept where only it fits.
    pub fn set_word(&mut self, addr: u32, value: u16) -> (r: Option<()>)
        requires
            old(self).wf(),
            addr < u32::MAX,
        ensures
            final(self).wf(),
            old(self)@.storage_end is Some && (addr == 0x0e8e || addr == 0x0e90) ==> r is Some && final(self)@ == logged(
                old(self)@,
                MmioAccess::IgnoredStorageBoundWrite16 { address: addr, value },
            ),
            !(old(self)@.storage_end is Some && (addr == 0x0e8e || addr == 0x0e90)) && is_mmio(addr) ==> r is Some && exists|
                s1: MemoryState,
                s2: MemoryState,
            | #[trigger] mmio_write8_step(old(self)@, s1, addr, (value / 0x100) as u8) && #[trigger] mmio_write8_step(
                s1,
                s2,
                (addr + 1) as u32,
                (value % 0x100) as u8,
            ) && final(self)@ == logged(s2, MmioAccess::Write16 { address: addr, register: normalize_mmio(addr), value }),
            !(old(self)@.storage_end is Some && (addr == 0x0e8e || addr == 0x0e90)) && !is_mmio(addr) ==> {
                let s1 = if is_watched_ram(addr) { logged(old(self)@, MmioAccess::RamWrite16 { address: addr, value }) } else { old(self)@ };
                let hi = (value / 0x100) as u8;
                let lo = (value % 0x100) as u8;
                &&& r is Some <==> addr + 1 < old(self)@.ram.len()
                &&& final(self)@ == (if addr + 1 < s1.ram.len() {
                    MemoryState { ram: s1.ram.update(addr as int, hi).update(addr + 1, lo), ..s1 }
                } else if addr < s1.ram.len() {
                    MemoryState { ram: s1.ram.update(addr as int, hi), ..s1 }
                } else {
                    s1
                })
            },
    {
        if self.applet_storage_end.is_some() && (addr == 0x0e8e || addr == 0x0e90) {
            self.record_mmio(MmioAccess::IgnoredStorageBoundWrite16 { address: addr, value });
            return Some(());
        }
        if is_mmio_address(addr) {
            self.write_mmio_word(addr, value);
            let ghost s2 = self@;
            self.record_mmio(MmioAccess::Write16 { address: addr, register: normalize_mmio_address(addr), value });
            return Some(());
        }
        if is_watched_ram_address(addr) {
            self.record_mmio(MmioAccess::RamWrite16 { address: addr, value });
        }
        let bytes = u16_to_be(value);
        let a = addr as usize;
        if a < self.bytes.len() {
            self.bytes.set(a, bytes[0]);
        } else {
            return None;
        }
        if a + 1 < self.bytes.len() {
            self.bytes.set(a + 1, bytes[1]);
            Some(())
        } else {
            None
        }
    }
}

/// `s` after the applet area's end was found again: when it holds applets,
/// the end is recorded and the bounds are written where the firmware reads
/// them.
pub open spec fn storage_bounds_refreshed(s: MemoryState) -> MemoryState {
    match storage_end_of(s.ram) {
        Some(end) => MemoryState {
            storage_end: Some(end),
            ram: with_be32(with_be32(s.ram, 0x0e8a, STOCK_APPLET_BASE as u32), 0x0e8e, end),
            ..s
        },
        None => s,
    }
}

/// `s` with `bytes` copied over RAM from `start`, as far as RAM goes.
pub open spec fn range_overlaid(s: MemoryState, start: u32, bytes: Seq<u8>) -> MemoryState {
    MemoryState {
        ram: if start < s.ram.len() {
            overlaid(s.ram, start as int, prefix(bytes, s.ram.len() - start))
        } else {
            s.ram
        },
        ..s
    }
}

/// `s2` is `s` with only the keyboard changed, to one that keeps its held
/// keys and rows and whose script is `s`'s followed by `added` steps.
pub open spec fn keyboard_script_grown(s: MemoryState, s2: MemoryState, added: int) -> bool {
    &&& s2 == MemoryState { keyboard: s2.keyboard, ..s }
    &&& s2.keyboard.wf()
    &&& s2.keyboard.held_keys() == s.keyboard.held_keys()
    &&& s2.keyboard.rows() == s.keyboard.rows()
    &&& s2.keyboard.current_phase() == s.keyboard.current_phase()
    &&& s2.keyboard.reads_done() == s.keyboard.reads_done()
    &&& s2.keyboard.script_steps().len() == s.keyboard.script_steps().len() + added
    &&& s2.keyboard.script_steps().subrange(0, s.keyboard.script_steps().len() as int) == s.keyboard.script_steps()
}

/// What the validation walk of the applet area finds from `cursor` on,
/// given what it found before: each header with a sane length is counted
/// (and the three applets the emulator needs are located by name); a
/// header with a bad length makes the area invalid.
pub open spec fn validation_walk(ram: Seq<u8>, cursor: int, v: AppletMemoryValidation) -> AppletMemoryValidation
    decreases ram.len() - cursor,
{
    if 0 <= cursor && cursor + 0x84 <= ram.len() && magic_at(ram, cursor) {
        let length = be_u32_at(ram, cursor + 4);
        if length < 0x94 || cursor + length > ram.len() {
            AppletMemoryValidation { valid: false, end: cursor as u32, ..v }
        } else {
            let name = applet_name_of(ram.subrange(cursor + 0x18, cursor + 0x40));
            let v2 = AppletMemoryValidation {
                count: (if v.count < usize::MAX { v.count + 1 } else { v.count as int }) as usize,
                alpha_usb_native: if name == Some("Alpha USB"@) { Some(cursor as u32) } else { v.alpha_usb_native },
                forth_mini: if name == Some("Forth Mini"@) { Some(cursor as u32) } else { v.forth_mini },
                basic_writer: if name == Some("Basic Writer"@) { Some(cursor as u32) } else { v.basic_writer },
                ..v
            };
            validation_walk(ram, cursor + length, v2)
        }
    } else {
        AppletMemoryValidation { end: cursor as u32, ..v }
    }
}

/// The validation of the applet area: the walk from the applet base, valid
/// when no header was bad, at least one applet was found, the walk ended
/// where the area's recorded end is, and all three needed applets are there.
pub open spec fn applet_validation(s: MemoryState) -> AppletMemoryValidation {
    let w = validation_walk(
        s.ram,
        STOCK_APPLET_BASE as int,
        AppletMemoryValidation {
            count: 0,
            start: STOCK_APPLET_BASE as u32,
            end: STOCK_APPLET_BASE as u32,
            alpha_usb_native: None,
            forth_mini: None,
            basic_writer: None,
            valid: true,
        },
    );
    AppletMemoryValidation {
        valid: w.valid && w.count > 0 && s.storage_end == Some(w.end) && w.alpha_usb_native is Some
            && w.forth_mini is Some && w.basic_writer is Some,
        ..w
    }
}

/// Where the applet named `wanted` sits, walking the applet area from
/// `cursor` as slot `slot`; `None` at a bad header, a nameless applet, or
/// the end of the area.
pub open spec fn launch_walk(ram: Seq<u8>, cursor: int, slot: u32, wanted: Seq<char>) -> Option<AppletLaunchInfo>
    decreases ram.len() - cursor,
{
    if 0 <= cursor && cursor + 0x94 <= ram.len() && magic_at(ram, cursor) {
        let length = be_u32_at(ram, cursor + 4);
        if length < 0x94 || cursor + length > ram.len() {
            None
        } else {
            match applet_name_of(ram.subrange(cursor + 0x18, cursor + 0x40)) {
                None => None,
                Some(name) => if name == wanted {
                    let offset = be_u32_at(ram, cursor + 0x84) as u32;
                    Some(AppletLaunchInfo {
                        slot,
                        base: cursor as u32,
                        entry: ((cursor + offset) % 0x1_0000_0000) as u32,
                        entry_offset: offset,
                        id: be_u16(ram[cursor + 0x14], ram[cursor + 0x15]) as u16,
                    })
                } else {
                    launch_walk(ram, cursor + length, (if slot < u32::MAX { slot + 1 } else { slot as int }) as u32, wanted)
                },
            }
        }
    } else {
        None
    }
}

/// The RAM address of deferred timer record `index`.
pub open spec fn timer_record(index: int) -> int {
    0x5d3c + index * 14
}

/// `s` after the firmware's deferred timer record `index` was serviced: an
/// armed record whose deadline is due is disarmed and its completion byte
/// (where its pointer points into memory) set to 0xFF, which is logged.
pub open spec fn service_one(s: MemoryState, index: int) -> MemoryState {
    let record = timer_record(index);
    if s.ram[record] != 1 {
        s
    } else if !timer_is_due((s.timer % 0x1_0000) as u16, be_u16(s.ram[record + 2], s.ram[record + 3]) as u16) {
        s
    } else {
        let cleared = s.ram.update(record, 0u8);
        let ptr = be_u32_at(cleared, record + 6);
        if ptr < cleared.len() {
            logged(
                MemoryState { ram: cleared.update(ptr, 0xffu8), ..s },
                MmioAccess::DeferredTimerCompleted { index: index as usize, address: ptr as usize },
            )
        } else {
            MemoryState { ram: cleared, ..s }
        }
    }
}

/// `s` after the first `n` deferred timer records were serviced, in order.
pub open spec fn service_upto(s: MemoryState, n: int) -> MemoryState
    decreases n,
{
    if n <= 0 {
        s
    } else {
        service_one(service_upto(s, n - 1), n - 1)
    }
}

/// The registers after the 32 kHz clock bit (bit 7 of 0xF202) flipped on
/// `edges` edges.
pub open spec fn toggle_clock(regs: Map<u32, u8>, edges: nat) -> Map<u32, u8> {
    if edges == 0 {
        regs
    } else {
        regs.insert(0xf202, if edges % 2 == 1 { stored(regs, 0xf202) ^ 0x80 } else { stored(regs, 0xf202) })
    }
}

/// `s` after one tick of the timer counter: the counter advances (and
/// wraps); when its low 16 bits wrap, the firmware's high word at 0x5D94
/// advances by 0x10000, which is logged.
pub open spec fn tick(s: MemoryState) -> MemoryState {
    let t = (if s.timer == u32::MAX { 0 } else { s.timer + 1 }) as u32;
    let s1 = MemoryState { timer: t, ..s };
    if t % 0x1_0000 < s.timer % 0x1_0000 {
        let base = ((be_u32_at(s.ram, 0x5d94) + 0x1_0000) % 0x1_0000_0000) as u32;
        logged(MemoryState { ram: with_be32(s.ram, 0x5d94, base), ..s1 }, MmioAccess::TimerOverflow { base })
    } else {
        s1
    }
}

/// `s` after `n` timer ticks.
pub open spec fn ticks(s: MemoryState, n: nat) -> MemoryState
    decreases n,
{
    if n == 0 {
        s
    } else {
        tick(ticks(s, (n - 1) as nat))
    }
}

/// `a + b`, stopping at the largest `u64`.
pub open spec fn sat_add_u64(a: u64, b: int) -> int {
    if a + b > u64::MAX {
        u64::MAX as int
    } else {
        a + b
    }
}

/// `s` after `cycles` CPU cycles: the 32 kHz clock bit flips once per 1007
/// cycles, and the timer counter ticks once per 1089000000/32768 cycles,
/// each keeping the remainder for later.
pub open spec fn after_cycles(s: MemoryState, cycles: int) -> MemoryState {
    let pll = sat_add_u64(s.pll_cycles, cycles);
    let edges = (pll / PLL_CLK32_CYCLES_PER_EDGE as int) as nat;
    let clocked = MemoryState {
        pll_cycles: (pll % PLL_CLK32_CYCLES_PER_EDGE as int) as u64,
        registers: toggle_clock(s.registers, edges),
        ..s
    };
    let phase = sat_add_u64(s.timer_phase, cycles * PLL_CLK32_EDGE_HZ);
    let n = (phase / TIMER_COUNTER_DENOMINATOR as int) as nat;
    MemoryState { timer_phase: (phase % TIMER_COUNTER_DENOMINATOR as int) as u64, ..ticks(clocked, n) }
}

proof fn lemma_toggle_step(regs: Map<u32, u8>, k: nat)
    ensures
        toggle_clock(regs, k + 1) == ({
            let r = toggle_clock(regs, k);
            r.insert(0xf202, stored(r, 0xf202) ^ 0x80)
        }),
{
    let v = stored(regs, 0xf202);
    assert((v ^ 0x80u8) ^ 0x80u8 == v) by (bit_vector);
    assert(toggle_clock(regs, k + 1) =~= toggle_clock(regs, k).insert(0xf202, stored(toggle_clock(regs, k), 0xf202) ^ 0x80));
}

impl EmuMemory {
    /// Holds `key` down.
    pub fn press_key(&mut self, key: MatrixKey)
        requires
            old(self).wf(),
            key.code_spec() < 0x80,
        ensures
            final(self).wf(),
            final(self)@ == (MemoryState { keyboard: final(self)@.keyboard, ..old(self)@ }),
            final(self)@.keyboard.held_keys() == (if old(self)@.keyboard.held_keys().contains(key) {
                old(self)@.keyboard.held_keys()
            } else {
                old(self)@.keyboard.held_keys().push(key)
            }),
            final(self)@.keyboard.script_steps() == old(self)@.keyboard.script_steps(),
            final(self)@.keyboard.current_phase() == old(self)@.keyboard.current_phase(),
            final(self)@.keyboard.reads_done() == old(self)@.keyboard.reads_done(),
            final(self)@.keyboard.rows() == old(self)@.keyboard.rows(),
    {
        self.keyboard.press(key);
    }

    /// Lets `key` go.
    pub fn release_key(&mut self, key: MatrixKey)
        requires
            old(self).wf(),
        ensures
            final(self).wf(),
            final(self)@ == (MemoryState { keyboard: final(self)@.keyboard, ..old(self)@ }),
            final(self)@.keyboard.held_keys() == without_key(old(self)@.keyboard.held_keys(), key),
            final(self)@.keyboard.script_steps() == old(self)@.keyboard.script_steps(),
            final(self)@.keyboard.current_phase() == old(self)@.keyboard.current_phase(),
            final(self)@.keyboard.reads_done() == old(self)@.keyboard.reads_done(),
            final(self)@.keyboard.rows() == old(self)@.keyboard.rows(),
    {
        self.keyboard.release(key);
    }

    /// Taps `key` on the selected row: down for 8 reads, then up for 64.
    pub fn tap_key(&mut self, key: MatrixKey)
        requires
            old(self).wf(),
            key.code_spec() < 0x80,
        ensures
            final(self).wf(),
            keyboard_script_grown(old(self)@, final(self)@, 2),
            tapped(old(self)@.keyboard.script_steps(), final(self)@.keyboard.script_steps(), seq![Some(key), None, None, None], 8, 64, false),
    {
        self.keyboard.tap(key);
    }

    /// Taps several keys together: down for 8 reads, then up for 64.
    pub fn tap_key_chord(&mut self, keys: &[MatrixKey])
        requires
            old(self).wf(),
            forall|i: int| 0 <= i < keys@.len() ==> (#[trigger] keys@[i]).code_spec() < 0x80,
        ensures
            final(self).wf(),
            keyboard_script_grown(old(self)@, final(self)@, 2),
            tapped(old(self)@.keyboard.script_steps(), final(self)@.keyboard.script_steps(), slots_of(keys@), 8, 64, false),
    {
        self.keyboard.tap_chord(keys);
    }

    /// Holds `key` for a long press: down for 50000 reads, then up for 5000.
    pub fn tap_key_long(&mut self, key: MatrixKey)
        requires
            old(self).wf(),
            key.code_spec() < 0x80,
        ensures
            final(self).wf(),
            keyboard_script_grown(old(self)@, final(self)@, 2),
            tapped(old(self)@.keyboard.script_steps(), final(self)@.keyboard.script_steps(), seq![Some(key), None, None, None], 50_000, 5_000, false),
    {
        self.keyboard.tap_long(key);
    }

    /// Taps `key` on every row.
    pub fn tap_key_all_rows(&mut self, key: MatrixKey)
        requires
            old(self).wf(),
            key.code_spec() < 0x80,
        ensures
            final(self).wf(),
            keyboard_script_grown(old(self)@, final(self)@, 2),
            tapped(old(self)@.keyboard.script_steps(), final(self)@.keyboard.script_steps(), seq![Some(key), None, None, None], 50_000, 5_000, true),
    {
        self.keyboard.tap_all_rows(key);
    }

    /// Holds the small ROM's entry chord on every row for the boot check.
    pub fn hold_small_rom_entry_chord(&mut self)
        requires
            old(self).wf(),
        ensures
            final(self).wf(),
            keyboard_script_grown(old(self)@, final(self)@, 1),
            final(self)@.keyboard.script_steps().last().reads == 4,
            final(self)@.keyboard.script_steps().last().all_rows,
            final(self)@.keyboard.script_steps().last().key_codes@ == seq![
                Some(MatrixKey::from_code(0x6e)),
                Some(MatrixKey::from_code(0x60)),
                Some(MatrixKey::from_code(0x62)),
                Some(MatrixKey::from_code(0x73)),
            ],
    {
        self.keyboard.hold_small_rom_entry_chord();
        proof {
            assert(self@.keyboard.script_steps().drop_last() == old(self)@.keyboard.script_steps());
            assert(self@.keyboard.script_steps().subrange(0, old(self)@.keyboard.script_steps().len() as int)
                =~= self@.keyboard.script_steps().drop_last());
        }
    }

    /// Holds up to four keys on every row for `reads` reads while booting.
    pub fn hold_boot_keys_all_rows(&mut self, keys: &[MatrixKey], reads: usize)
        requires
            old(self).wf(),
            forall|i: int| 0 <= i < keys@.len() ==> (#[trigger] keys@[i]).code_spec() < 0x80,
        ensures
            final(self).wf(),
            keyboard_script_grown(old(self)@, final(self)@, 1),
            final(self)@.keyboard.script_steps().last().key_codes@ == slots_of(keys@),
            final(self)@.keyboard.script_steps().last().reads == reads,
            final(self)@.keyboard.script_steps().last().all_rows,
    {
        self.keyboard.hold_keys_all_rows(keys, reads);
        proof {
            assert(self@.keyboard.script_steps().subrange(0, old(self)@.keyboard.script_steps().len() as int)
                =~= self@.keyboard.script_steps().drop_last());
        }
    }

    /// Holds up to four keys on the selected rows for `reads` reads while
    /// booting.
    pub fn hold_boot_keys_exact_rows(&mut self, keys: &[MatrixKey], reads: usize)
        requires
            old(self).wf(),
            forall|i: int| 0 <= i < keys@.len() ==> (#[trigger] keys@[i]).code_spec() < 0x80,
        ensures
            final(self).wf(),
            keyboard_script_grown(old(self)@, final(self)@, 1),
            final(self)@.keyboard.script_steps().last().key_codes@ == slots_of(keys@),
            final(self)@.keyboard.script_steps().last().reads == reads,
            !final(self)@.keyboard.script_steps().last().all_rows,
    {
        self.keyboard.hold_keys_exact_rows(keys, reads);
        proof {
            assert(self@.keyboard.script_steps().subrange(0, old(self)@.keyboard.script_steps().len() as int)
                =~= self@.keyboard.script_steps().drop_last());
        }
    }

    /// Hands out the access log and empties it.
    pub fn drain_mmio_accesses(&mut self) -> (r: Vec<MmioAccess>)
        requires
            old(self).wf(),
        ensures
            final(self).wf(),
            r@ == old(self)@.log,
            final(self)@ == (MemoryState { log: Seq::empty(), ..old(self)@ }),
    {
        let mut taken: Vec<MmioAccess> = Vec::new();
        std::mem::swap(&mut taken, &mut self.mmio_accesses);
        taken
    }

    /// Turns the access log on or off; returns whether it was on.
    pub fn set_mmio_logging(&mut self, enabled: bool) -> (previous: bool)
        ensures
            previous == old(self)@.logging,
            final(self)@ == (MemoryState { logging: enabled, ..old(self)@ }),
    {
        let previous = self.mmio_logging;
        self.mmio_logging = enabled;
        previous
    }

    /// The picture on the LCD.
    pub fn lcd_snapshot(&self) -> (r: LcdSnapshot)
        requires
            self.wf(),
        ensures
            r.width == 320,
            r.height == 128,
            r.pixels@.len() == 320 * 128,
            forall|y: int, x: int| 0 <= y < 128 && 0 <= x < 320 ==> #[trigger] r.pixels@[y * 320 + x] == crate::lcd::lcd_pixel(self@.lcd, x, y),
    {
        self.lcd.snapshot()
    }

    /// The RAM byte at `addr`, without touching the registers.
    pub fn peek_byte(&self, addr: u32) -> (r: Option<u8>)
        ensures
            r == ram_byte(self@.ram, addr),
    {
        if (addr as usize) < self.bytes.len() {
            Some(self.bytes[addr as usize])
        } else {
            None
        }
    }

    /// The big-endian RAM word at `addr`, without touching the registers.
    pub fn peek_word(&self, addr: u32) -> (r: Option<u16>)
        ensures
            r == (if addr + 2 <= self@.ram.len() {
                Some(be_u16(self@.ram[addr as int], self@.ram[addr + 1]) as u16)
            } else {
                None
            }),
    {
        let a = addr as usize;
        if a < self.bytes.len() && self.bytes.len() - a >= 2 {
            Some(read_be_u16(self.bytes[a], self.bytes[a + 1]))
        } else {
            None
        }
    }

    /// The big-endian RAM long word at `addr`, without touching the
    /// registers.
    pub fn peek_long(&self, addr: u32) -> (r: Option<u32>)
        ensures
            r == (if addr + 4 <= self@.ram.len() { Some(be_u32_at(self@.ram, addr as int) as u32) } else { None }),
    {
        read_be32(&self.bytes, addr as usize)
    }

    /// All of RAM.
    pub fn bytes(&self) -> (r: &[u8])
        ensures
            r@ == self@.ram,
    {
        self.bytes.as_slice()
    }

    /// Copies `overlay` over RAM from address 0, as far as RAM goes.
    pub fn overlay_bytes(&mut self, overlay: &[u8])
        requires
            old(self).wf(),
        ensures
            final(self).wf(),
            final(self)@ == (MemoryState {
                ram: overlaid(old(self)@.ram, 0, prefix(overlay@, old(self)@.ram.len() as int)),
                ..old(self)@
            }),
    {
        let len = if overlay.len() < self.bytes.len() { overlay.len() } else { self.bytes.len() };
        let part = copy_range(overlay, 0, len);
        assert(part@ =~= prefix(overlay@, self@.ram.len() as int));
        write_bytes(&mut self.bytes, 0, part.as_slice());
    }

    /// Copies `overlay` over RAM from `start`, as far as RAM goes.
    pub fn overlay_range(&mut self, start: u32, overlay: &[u8])
        requires
            old(self).wf(),
        ensures
            final(self).wf(),
            final(self)@ == range_overlaid(old(self)@, start, overlay@),
    {
        let start = start as usize;
        if start >= self.bytes.len() {
            return;
        }
        let room = self.bytes.len() - start;
        let len = if overlay.len() < room { overlay.len() } else { room };
        let part = copy_range(overlay, 0, len);
        assert(part@ =~= prefix(overlay@, self@.ram.len() - start));
        write_bytes(&mut self.bytes, start, part.as_slice());
    }

    /// Finds the applet area's end again and, when it holds applets, records
    /// it and writes its bounds where the firmware reads them.
    pub fn refresh_applet_storage_bounds(&mut self)
        requires
            old(self).wf(),
        ensures
            final(self).wf(),
            final(self)@ == storage_bounds_refreshed(old(self)@),
    {
        match find_applet_storage_end(&self.bytes) {
            Some(end) => {
                self.applet_storage_end = Some(end);
                write_be32(&mut self.bytes, 0x0e8a, STOCK_APPLET_BASE as u32);
                write_be32(&mut self.bytes, 0x0e8e, end);
            },
            None => {},
        }
    }

    /// Walks the applet area and reports what it holds.
    pub fn applet_memory_validation(&self) -> (r: AppletMemoryValidation)
        requires
            self.wf(),
        ensures
            r == applet_validation(self@),
    {
        let ghost ram = self@.ram;
        let ghost init = AppletMemoryValidation {
            count: 0,
            start: STOCK_APPLET_BASE as u32,
            end: STOCK_APPLET_BASE as u32,
            alpha_usb_native: None,
            forth_mini: None,
            basic_writer: None,
            valid: true,
        };
        let mut cursor: usize = STOCK_APPLET_BASE;
        let mut count: usize = 0;
        let mut alpha_usb_native: Option<u32> = None;
        let mut forth_mini: Option<u32> = None;
        let mut basic_writer: Option<u32> = None;
        let mut valid = true;
        let mut done = false;
        while !done && cursor + 0x84 <= self.bytes.len() && has_mark(self.bytes.as_slice(), cursor)
            invariant
                self.wf(),
                ram == self@.ram,
                STOCK_APPLET_BASE <= cursor <= ram.len(),
                validation_walk(ram, STOCK_APPLET_BASE as int, init) == (if done {
                    AppletMemoryValidation { count, start: STOCK_APPLET_BASE as u32, end: cursor as u32, alpha_usb_native, forth_mini, basic_writer, valid }
                } else {
                    validation_walk(ram, cursor as int, AppletMemoryValidation { count, start: STOCK_APPLET_BASE as u32, end: STOCK_APPLET_BASE as u32, alpha_usb_native, forth_mini, basic_writer, valid })
                }),
            decreases ram.len() - cursor, if done { 0int } else { 1int },
        {
            let length = read_be_u32(self.bytes[cursor + 4], self.bytes[cursor + 5], self.bytes[cursor + 6], self.bytes[cursor + 7]);
            if length < 0x94 || length as usize > self.bytes.len() - cursor {
                valid = false;
                done = true;
            } else {
                let field = copy_range(self.bytes.as_slice(), cursor + 0x18, 0x28);
                assert(field@ =~= ram.subrange(cursor + 0x18, cursor + 0x40));
                match applet_name(field.as_slice()) {
                    Some(name) => {
                        if text_eq(name.as_str(), "Alpha USB") {
                            alpha_usb_native = Some(cursor as u32);
                        }
                        if text_eq(name.as_str(), "Forth Mini") {
                            forth_mini = Some(cursor as u32);
                        }
                        if text_eq(name.as_str(), "Basic Writer") {
                            basic_writer = Some(cursor as u32);
                        }
                    },
                    None => {},
                }
                count = if count < usize::MAX { count + 1 } else { count };
                cursor = cursor + length as usize;
            }
        }
        let end = cursor as u32;
        let found_all = alpha_usb_native.is_some() && forth_mini.is_some() && basic_writer.is_some();
        let at_recorded_end = match self.applet_storage_end {
            Some(expected) => expected == end,
            None => false,
        };
        valid = valid && count > 0 && at_recorded_end && found_all;
        AppletMemoryValidation {
            count,
            start: STOCK_APPLET_BASE as u32,
            end,
            alpha_usb_native,
            forth_mini,
            basic_writer,
            valid,
        }
    }
}

impl EmuMemory {
    /// Where the applet named `wanted_name` sits and where it is entered.
    pub fn find_applet_launch_info(&self, wanted_name: &str) -> (r: Option<AppletLaunchInfo>)
        requires
            self.wf(),
        ensures
            r == launch_walk(self@.ram, STOCK_APPLET_BASE as int, 1, wanted_name@),
    {
        let ghost ram = self@.ram;
        let mut cursor: usize = STOCK_APPLET_BASE;
        let mut slot: u32 = 1;
        while cursor + 0x94 <= self.bytes.len() && has_mark(self.bytes.as_slice(), cursor)
            invariant
                self.wf(),
                ram == self@.ram,
                STOCK_APPLET_BASE <= cursor <= ram.len(),
                launch_walk(ram, STOCK_APPLET_BASE as int, 1, wanted_name@) == launch_walk(ram, cursor as int, slot, wanted_name@),
            decreases ram.len() - cursor,
        {
            let length = read_be_u32(self.bytes[cursor + 4], self.bytes[cursor + 5], self.bytes[cursor + 6], self.bytes[cursor + 7]);
            if length < 0x94 || length as usize > self.bytes.len() - cursor {
                return None;
            }
            let field = copy_range(self.bytes.as_slice(), cursor + 0x18, 0x28);
            assert(field@ =~= ram.subrange(cursor + 0x18, cursor + 0x40));
            let name = match applet_name(field.as_slice()) {
                Some(name) => name,
                None => {
                    return None;
                },
            };
            if text_eq(name.as_str(), wanted_name) {
                let entry_offset = read_be_u32(
                    self.bytes[cursor + 0x84],
                    self.bytes[cursor + 0x85],
                    self.bytes[cursor + 0x86],
                    self.bytes[cursor + 0x87],
                );
                let id = read_be_u16(self.bytes[cursor + 0x14], self.bytes[cursor + 0x15]);
                let base = cursor as u32;
                let entry = if entry_offset <= u32::MAX - base {
                    base + entry_offset
                } else {
                    entry_offset - (u32::MAX - base) - 1
                };
                return Some(AppletLaunchInfo { slot, base, entry, entry_offset, id });
            }
            cursor = cursor + length as usize;
            slot = if slot < u32::MAX { slot + 1 } else { slot };
        }
        None
    }

    /// Where the applet named `wanted_name` is entered.
    pub fn find_applet_entry(&self, wanted_name: &str) -> (r: Option<u32>)
        requires
            self.wf(),
        ensures
            r == (match launch_walk(self@.ram, STOCK_APPLET_BASE as int, 1, wanted_name@) {
                Some(info) => Some(info.entry),
                None => None,
            }),
    {
        match self.find_applet_launch_info(wanted_name) {
            Some(info) => Some(info.entry),
            None => None,
        }
    }

    /// Services the firmware's five deferred timer records in order.
    pub fn service_deferred_timers(&mut self)
        requires
            old(self).wf(),
        ensures
            final(self).wf(),
            final(self)@ == service_upto(old(self)@, 5),
    {
        let mut index: usize = 0;
        while index < 5
            invariant
                index <= 5,
                self.wf(),
                self@ == service_upto(old(self)@, index as int),
            decreases 5 - index,
        {
            let record = 0x5d3c + index * 14;
            let ghost s0 = self@;
            if self.bytes[record] == 1 {
                let deadline = read_be_u16(self.bytes[record + 2], self.bytes[record + 3]);
                if timer_due((self.timer_counter % 0x1_0000) as u16, deadline) {
                    self.bytes.set(record, 0);
                    let ptr = read_be_u32(self.bytes[record + 6], self.bytes[record + 7], self.bytes[record + 8], self.bytes[record + 9]);
                    let completion = ptr as usize;
                    if completion < self.bytes.len() {
                        self.bytes.set(completion, 0xff);
                        self.record_mmio(MmioAccess::DeferredTimerCompleted { index, address: completion });
                    }
                }
            }
            assert(self@ == service_one(s0, index as int));
            index = index + 1;
        }
    }

    #[verifier::spinoff_prover]
    #[verifier::rlimit(40)]
    fn advance_timer_counter(&mut self)
        requires
            old(self).wf(),
        ensures
            final(self).wf(),
            final(self)@ == tick(old(self)@),
    {
        let ghost s0 = self@;
        let previous = self.timer_counter % 0x1_0000;
        self.timer_counter = if self.timer_counter == u32::MAX { 0 } else { self.timer_counter + 1 };
        let current = self.timer_counter % 0x1_0000;
        let ghost s1 = self@;
        assert(s1 == (MemoryState { timer: self.timer_counter, ..s0 }));
        if current < previous {
            let high = match read_be32(&self.bytes, 0x5d94) {
                Some(v) => v,
                None => 0,
            };
            let base = if high <= u32::MAX - 0x1_0000 { high + 0x1_0000 } else { high - (u32::MAX - 0x1_0000) - 1 };
            assert(base == ((be_u32_at(s0.ram, 0x5d94) + 0x1_0000) % 0x1_0000_0000) as u32);
            write_be32(&mut self.bytes, 0x5d94, base);
            assert(self@ == (MemoryState { ram: with_be32(s0.ram, 0x5d94, base), ..s1 }));
            self.record_mmio(MmioAccess::TimerOverflow { base });
        }
    }

    /// Lets `cycles` CPU cycles pass for the clocks: the 32 kHz clock bit
    /// flips once per 1007 cycles and the timer counter ticks once per
    /// 1089000000/32768 cycles.
    pub fn advance_cpu_cycles(&mut self, cycles: usize)
        requires
            old(self).wf(),
            cycles * PLL_CLK32_EDGE_HZ <= u64::MAX,
        ensures
            final(self).wf(),
            final(self)@ == after_cycles(old(self)@, cycles as int),
    {
        let c = cycles as u64;
        self.pll_clk32_cycles = if self.pll_clk32_cycles > u64::MAX - c { u64::MAX } else { self.pll_clk32_cycles + c };
        let ghost pll = self.pll_clk32_cycles as int;
        let ghost regs0 = self@.registers;
        let ghost mut edges: nat = 0;
        while self.pll_clk32_cycles >= PLL_CLK32_CYCLES_PER_EDGE
            invariant
                self.wf(),
                pll == edges * PLL_CLK32_CYCLES_PER_EDGE + self.pll_clk32_cycles,
                self@.registers == toggle_clock(regs0, edges),
                self@ == (MemoryState { registers: self@.registers, pll_cycles: self.pll_clk32_cycles, ..old(self)@ }),
            decreases self.pll_clk32_cycles,
        {
            self.pll_clk32_cycles = self.pll_clk32_cycles - PLL_CLK32_CYCLES_PER_EDGE;
            let current = match self.mmio_bytes.get(&0xf202) {
                Some(v) => *v,
                None => 0,
            };
            self.mmio_bytes.insert(0xf202, current ^ 0x80);
            proof {
                lemma_toggle_step(regs0, edges);
                edges = edges + 1;
            }
        }
        proof {
            vstd::arithmetic::div_mod::lemma_fundamental_div_mod_converse(
                pll,
                PLL_CLK32_CYCLES_PER_EDGE as int,
                edges as int,
                self.pll_clk32_cycles as int,
            );
        }
        let ghost clocked = self@;
        let step = c * PLL_CLK32_EDGE_HZ;
        self.timer_counter_phase = if self.timer_counter_phase > u64::MAX - step {
            u64::MAX
        } else {
            self.timer_counter_phase + step
        };
        let ghost phase = self.timer_counter_phase as int;
        let ghost mut n: nat = 0;
        while self.timer_counter_phase >= TIMER_COUNTER_DENOMINATOR
            invariant
                self.wf(),
                phase == n * TIMER_COUNTER_DENOMINATOR + self.timer_counter_phase,
                self@ == (MemoryState { timer_phase: self.timer_counter_phase, ..ticks(clocked, n) }),
            decreases self.timer_counter_phase,
        {
            self.timer_counter_phase = self.timer_counter_phase - TIMER_COUNTER_DENOMINATOR;
            self.advance_timer_counter();
            proof {
                n = n + 1;
            }
        }
        proof {
            vstd::arithmetic::div_mod::lemma_fundamental_div_mod_converse(
                phase,
                TIMER_COUNTER_DENOMINATOR as int,
                n as int,
                self.timer_counter_phase as int,
            );
        }
    }
}

/// Whether a file of the device's applet dump is a stock applet the
/// loader takes: an `.os3kapp` file whose name starts with `A` but not `AF`.
pub open spec fn stock_applet_file(name: Seq<char>) -> bool {
    has_prefix(name, "A"@) && !has_prefix(name, "AF"@) && has_suffix(name, ".os3kapp"@)
}

/// The files the loader takes, as a predicate.
pub open spec fn stock_applet_pred() -> spec_fn(String) -> bool {
    |n: String| stock_applet_file(n@)
}

/// Files ordered by name.
pub open spec fn by_file_name() -> spec_fn(String, String) -> bool {
    |a: String, b: String| text_le(a@, b@)
}

/// The stock applet files among `names`, in the order the loader takes
/// them: sorted by name.
pub fn stock_applet_files(names: &Vec<String>) -> (r: Vec<String>)
    ensures
        sorted_by(r@, by_file_name()),
        forall|i: int| 0 <= i < r@.len() ==> stock_applet_file(#[trigger] r@[i]@),
        r@.to_multiset() == names@.filter(stock_applet_pred()).to_multiset(),
{
    let ghost keep = stock_applet_pred();
    let mut picked: Vec<String> = Vec::new();
    let mut i: usize = 0;
    while i < names.len()
        invariant
            i <= names@.len(),
            keep == stock_applet_pred(),
            picked@ == names@.subrange(0, i as int).filter(keep),
        decreases names@.len() - i,
    {
        let name = &names[i];
        let wanted = starts_with_text(name.as_str(), "A") && !starts_with_text(name.as_str(), "AF")
            && ends_with_text(name.as_str(), ".os3kapp");
        proof {
            reveal(Seq::filter);
            assert(names@.subrange(0, i + 1).drop_last() =~= names@.subrange(0, i as int));
            assert(names@.subrange(0, i + 1).last() == names@[i as int]);
            assert(wanted == keep(names@[i as int]));
            assert(names@.subrange(0, i + 1).filter(keep) == (if keep(names@[i as int]) {
                names@.subrange(0, i as int).filter(keep).push(names@[i as int])
            } else {
                names@.subrange(0, i as int).filter(keep)
            }));
        }
        if wanted {
            picked.push(name.clone());
        }
        i = i + 1;
    }
    assert(names@.subrange(0, names@.len() as int) =~= names@);
    let sorted = sort_by_name(picked);
    proof {
        assert forall|k: int| 0 <= k < sorted@.len() implies stock_applet_file(#[trigger] sorted@[k]@) by {
            vstd::seq_lib::to_multiset_contains(sorted@, sorted@[k]);
            assert(names@.filter(keep).to_multiset().count(sorted@[k]) > 0);
            vstd::seq_lib::to_multiset_contains(names@.filter(keep), sorted@[k]);
            let j = choose|j: int| 0 <= j < names@.filter(keep).len() && names@.filter(keep)[j] == sorted@[k];
            names@.lemma_filter_pred(keep, j);
        }
    }
    sorted
}

fn sort_by_name(items: Vec<String>) -> (r: Vec<String>)
    ensures
        r@.to_multiset() == items@.to_multiset(),
        sorted_by(r@, by_file_name()),
{
    let ghost orig = items@;
    let mut rest = items;
    let mut out: Vec<String> = Vec::new();
    proof {
        vstd::seq_lib::to_multiset_len(out@);
        vstd::multiset::lemma_multiset_empty_len(out@.to_multiset());
        assert(rest@.to_multiset().add(out@.to_multiset()) =~= orig.to_multiset());
    }
    while rest.len() > 0
        invariant
            rest@.to_multiset().add(out@.to_multiset()) == orig.to_multiset(),
            sorted_by(out@, by_file_name()),
        decreases rest@.len(),
    {
        let ghost rest0 = rest@;
        let ghost out0 = out@;
        let x = rest.pop().unwrap();
        assert(rest0 =~= rest@.push(x));
        let mut p: usize = 0;
        while p < out.len() && !text_le_exec(x.as_str(), out[p].as_str())
            invariant
                p <= out@.len(),
                out@ == out0,
                forall|q: int| 0 <= q < p ==> !text_le(x@, (#[trigger] out@[q])@),
            decreases out@.len() - p,
        {
            p = p + 1;
        }
        proof {
            assert forall|q: int| 0 <= q < p implies text_le((#[trigger] out0[q])@, x@) by {
                lemma_text_le_total(x@, out0[q]@);
            }
            assert forall|q: int| p <= q < out0.len() implies text_le(x@, (#[trigger] out0[q])@) by {
                if q > p {
                    assert(by_file_name()(out0[p as int], out0[q]));
                    lemma_text_le_transitive(x@, out0[p as int]@, out0[q]@);
                }
            }
        }
        out.insert(p, x);
        proof {
            vstd::seq_lib::to_multiset_insert(out0, p as int, x);
            vstd::seq_lib::to_multiset_build(rest@, x);
            assert(rest@.to_multiset().add(out@.to_multiset()) =~= orig.to_multiset());
            let o = out@;
            assert forall|i: int, j: int| 0 <= i < j < o.len() implies #[trigger] by_file_name()(o[i], o[j]) by {
                if i < p && j < p {
                    assert(o[i] == out0[i] && o[j] == out0[j]);
                    assert(by_file_name()(out0[i], out0[j]));
                } else if i < p && j == p {
                    assert(o[i] == out0[i]);
                } else if i < p && j > p {
                    assert(o[i] == out0[i] && o[j] == out0[j - 1]);
                    assert(by_file_name()(out0[i], out0[j - 1]));
                } else if i == p {
                    assert(o[j] == out0[j - 1]);
                } else {
                    assert(o[i] == out0[i - 1] && o[j] == out0[j - 1]);
                    assert(by_file_name()(out0[i - 1], out0[j - 1]));
                }
            }
        }
    }
    proof {
        vstd::seq_lib::to_multiset_len(rest@);
        vstd::multiset::lemma_multiset_empty_len(rest@.to_multiset());
    }
    assert(out@.to_multiset() =~= orig.to_multiset());
    out
}

/// A byte written to a register through the sign-extended page reads back
/// through the low register page (for the registers whose reads give the
/// stored byte: all of the low page but the keyboard input port and the
/// status register with its ready bit).
pub proof fn lemma_mmio_alias(s: MemoryState, s1: MemoryState, a: u32, value: u8)
    requires
        0xf000 <= a < 0x1_0000,
        a != 0xf419,
        a != 0xf449,
        mmio_write8_step(s, s1, (0xffff_0000 + a) as u32, value),
    ensures
        is_mmio(a),
        mmio_read8(s1, normalize_mmio(a)) == value,
{
}

/// A byte written to RAM reads back.
pub proof fn lemma_ram_write_read(s: MemoryState, addr: u32, value: u8)
    requires
        addr < s.ram.len(),
    ensures
        ram_byte((MemoryState { ram: s.ram.update(addr as int, value), ..s }).ram, addr) == Some(value),
{
}

} // verus!
