//! AlphaWord's file records in emulator memory: where each of the eight
//! files' text lives, how long it is, and the checks that an export into a
//! file left the other records and the file's buffer intact.

use vstd::prelude::*;
use crate::bytes::{be_u32_at, read_be_u32};
use crate::text::{copy_range, decimal, hex_digits, push_decimal, push_hex};

verus! {

/// The key that selects each AlphaWord file, by file number.
pub open spec fn file_keys() -> Seq<u8> {
    seq![0x2du8, 0x2c, 0x04, 0x0f, 0x0e, 0x0a, 0x01, 0x27]
}

/// An AlphaWord file record found in memory.
#[derive(Clone, Debug, PartialEq, Eq)]
pub struct AlphaWordFileRecord {
    pub slot: u8,
    pub record: usize,
    pub pointer: usize,
    pub len_a: u32,
    pub len_b: u32,
    pub cap_a: u32,
    pub cap_b: u32,
    pub record_bytes: Vec<u8>,
    pub buffer_sample: Vec<u8>,
}

/// A record as the contracts see it.
pub struct RecordView {
    pub slot: u8,
    pub record: int,
    pub pointer: int,
    pub len_a: u32,
    pub len_b: u32,
    pub cap_a: u32,
    pub cap_b: u32,
    pub record_bytes: Seq<u8>,
    pub buffer_sample: Seq<u8>,
}

impl View for AlphaWordFileRecord {
    type V = RecordView;

    open spec fn view(&self) -> RecordView {
        RecordView {
            slot: self.slot,
            record: self.record as int,
            pointer: self.pointer as int,
            len_a: self.len_a,
            len_b: self.len_b,
            cap_a: self.cap_a,
            cap_b: self.cap_b,
            record_bytes: self.record_bytes@,
            buffer_sample: self.buffer_sample@,
        }
    }
}

/// Whether a length or capacity is a plausible buffer size.
pub open spec fn plausible_size(v: u32) -> bool {
    64 <= v <= 4096
}

/// The larger of a running maximum and `v`, counting only plausible sizes.
pub open spec fn max_plausible(m: Option<u32>, v: u32) -> Option<u32> {
    if plausible_size(v) {
        match m {
            Some(x) => Some(if v > x { v } else { x }),
            None => Some(v),
        }
    } else {
        m
    }
}

/// The buffer size a record stands for: the largest of its two capacities
/// and two used lengths that is a plausible size.
pub open spec fn effective_capacity(len_a: u32, len_b: u32, cap_a: u32, cap_b: u32) -> Option<u32> {
    max_plausible(max_plausible(max_plausible(max_plausible(None, cap_a), cap_b), len_a), len_b)
}

/// The buffer size a record stands for.
pub fn effective_alphaword_capacity(len_a: u32, len_b: u32, cap_a: u32, cap_b: u32) -> (r: Option<usize>)
    ensures
        r == (match effective_capacity(len_a, len_b, cap_a, cap_b) {
            Some(v) => Some(v as usize),
            None => None,
        }),
{
    let values: [u32; 4] = [cap_a, cap_b, len_a, len_b];
    let mut best: Option<u32> = None;
    let mut i: usize = 0;
    while i < 4
        invariant
            i <= 4,
            values@ == seq![cap_a, cap_b, len_a, len_b],
            best == (if i == 0 {
                None
            } else if i == 1 {
                max_plausible(None, cap_a)
            } else if i == 2 {
                max_plausible(max_plausible(None, cap_a), cap_b)
            } else if i == 3 {
                max_plausible(max_plausible(max_plausible(None, cap_a), cap_b), len_a)
            } else {
                effective_capacity(len_a, len_b, cap_a, cap_b)
            }),
        decreases 4 - i,
    {
        let v = values[i];
        if 64 <= v && v <= 4096 {
            best = match best {
                Some(x) => Some(if v > x { v } else { x }),
                None => Some(v),
            };
        }
        i = i + 1;
    }
    match best {
        Some(v) => Some(v as usize),
        None => None,
    }
}

/// The file AlphaWord keeps behind visible file `visible_slot`: file 1
/// is kept in record 8, each other file in the record before it.
pub fn backing_alphaword_slot(visible_slot: u8) -> (r: u8)
    requires
        visible_slot >= 1,
    ensures
        r == (if visible_slot == 1 { 8 } else { visible_slot - 1 }),
{
    if visible_slot == 1 { 8 } else { visible_slot - 1 }
}

/// The big-endian word at `at`, or 0 where it does not fit.
pub open spec fn word_or_zero(b: Seq<u8>, at: int) -> u32 {
    if 0 <= at && at + 4 <= b.len() { be_u32_at(b, at) as u32 } else { 0 }
}

/// The record whose name text starts at `name`, if there is one: the text
/// `File N` with N from 1 to 8, the file number and its key in the record
/// 0x16 bytes before, and a buffer pointer in the record.
pub open spec fn record_at(b: Seq<u8>, name: int) -> Option<RecordView> {
    if !(name >= 0x16 && name + 6 <= b.len() && b.subrange(name, name + 5) == "File "@.map_values(|c: char| c as u8)) {
        None
    } else if !(0x31 <= b[name + 5] <= 0x38) {
        None
    } else {
        let slot = (b[name + 5] - 0x30) as u8;
        let record = name - 0x16;
        if !(record + 0x29 < b.len() && b[record + 0x27] == slot && b[record + 0x29] == file_keys()[slot - 1]) {
            None
        } else if !(record + 0x2a + 4 <= b.len()) {
            None
        } else {
            let pointer = be_u32_at(b, record + 0x2a);
            let len_a = word_or_zero(b, record + 0x2e);
            let len_b = word_or_zero(b, record + 0x32);
            let cap_a = word_or_zero(b, record + 0x36);
            let cap_b = word_or_zero(b, record + 0x3a);
            let sample_len = match effective_capacity(len_a, len_b, cap_a, cap_b) {
                Some(v) => if v < 64 { v as int } else { 64int },
                None => 64int,
            };
            Some(RecordView {
                slot,
                record,
                pointer,
                len_a,
                len_b,
                cap_a,
                cap_b,
                record_bytes: if record + 0x40 <= b.len() { b.subrange(record, record + 0x40) } else { Seq::empty() },
                buffer_sample: if pointer < b.len() && pointer + sample_len <= b.len() {
                    b.subrange(pointer, pointer + sample_len)
                } else {
                    Seq::empty()
                },
            })
        }
    }
}

/// The records whose name text starts before `n`, scanning from 0x1000.
pub open spec fn records_before(b: Seq<u8>, n: int) -> Seq<RecordView>
    decreases n - 0x1000,
{
    if n <= 0x1000 {
        Seq::empty()
    } else {
        match record_at(b, n - 1) {
            Some(r) => records_before(b, n - 1).push(r),
            None => records_before(b, n - 1),
        }
    }
}

fn read_word_or_zero(b: &[u8], at: usize) -> (r: u32)
    ensures
        r == word_or_zero(b@, at as int),
{
    if at <= b.len() && b.len() - at >= 4 {
        read_be_u32(b[at], b[at + 1], b[at + 2], b[at + 3])
    } else {
        0
    }
}

fn record_at_exec(b: &[u8], name: usize) -> (r: Option<AlphaWordFileRecord>)
    requires
        name >= 0x1000,
        name < 0x2400,
    ensures
        match r {
            Some(rec) => record_at(b@, name as int) == Some(rec@),
            None => record_at(b@, name as int) is None,
        },
{
    proof {
        reveal_strlit("File ");
    }
    if !(name <= b.len() && b.len() - name >= 6) {
        return None;
    }
    if !(b[name] == 0x46 && b[name + 1] == 0x69 && b[name + 2] == 0x6c && b[name + 3] == 0x65 && b[name + 4] == 0x20) {
        assert(b@.subrange(name as int, name + 5) != "File "@.map_values(|c: char| c as u8)) by {
            let t = "File "@.map_values(|c: char| c as u8);
            assert(t[0] == 0x46 && t[1] == 0x69 && t[2] == 0x6c && t[3] == 0x65 && t[4] == 0x20);
            if b@.subrange(name as int, name + 5) == t {
                assert(b@.subrange(name as int, name + 5)[0] == b@[name as int]);
                assert(b@.subrange(name as int, name + 5)[1] == b@[name + 1]);
                assert(b@.subrange(name as int, name + 5)[2] == b@[name + 2]);
                assert(b@.subrange(name as int, name + 5)[3] == b@[name + 3]);
                assert(b@.subrange(name as int, name + 5)[4] == b@[name + 4]);
            }
        }
        return None;
    }
    assert(b@.subrange(name as int, name + 5) =~= "File "@.map_values(|c: char| c as u8));
    let digit = b[name + 5];
    if !(0x31 <= digit && digit <= 0x38) {
        return None;
    }
    let slot = digit - 0x30;
    let record = name - 0x16;
    let keys: [u8; 8] = [0x2d, 0x2c, 0x04, 0x0f, 0x0e, 0x0a, 0x01, 0x27];
    assert(keys@ =~= file_keys());
    if !(b.len() - record > 0x29 && b[record + 0x27] == slot && b[record + 0x29] == keys[(slot - 1) as usize]) {
        return None;
    }
    if !(b.len() - record >= 0x2a + 4) {
        return None;
    }
    let pointer = read_be_u32(b[record + 0x2a], b[record + 0x2b], b[record + 0x2c], b[record + 0x2d]) as usize;
    let len_a = read_word_or_zero(b, record + 0x2e);
    let len_b = read_word_or_zero(b, record + 0x32);
    let cap_a = read_word_or_zero(b, record + 0x36);
    let cap_b = read_word_or_zero(b, record + 0x3a);
    let sample_len: usize = match effective_alphaword_capacity(len_a, len_b, cap_a, cap_b) {
        Some(v) => if v < 64 { v } else { 64 },
        None => 64,
    };
    let record_bytes = if b.len() - record >= 0x40 { copy_range(b, record, 0x40) } else { Vec::new() };
    let buffer_sample = if pointer < b.len() && b.len() - pointer >= sample_len {
        copy_range(b, pointer, sample_len)
    } else {
        Vec::new()
    };
    Some(AlphaWordFileRecord { slot, record, pointer, len_a, len_b, cap_a, cap_b, record_bytes, buffer_sample })
}

/// The AlphaWord file records in a memory image, by where their name text
/// starts (scanned from 0x1000 to 0x2400).
pub fn alphaword_file_records(b: &[u8]) -> (r: Vec<AlphaWordFileRecord>)
    ensures
        r@.map_values(|x: AlphaWordFileRecord| x@) == records_before(b@, 0x2400),
{
    let mut out: Vec<AlphaWordFileRecord> = Vec::new();
    let mut name: usize = 0x1000;
    assert(out@.map_values(|x: AlphaWordFileRecord| x@) =~= records_before(b@, 0x1000));
    while name < 0x2400
        invariant
            0x1000 <= name <= 0x2400,
            out@.map_values(|x: AlphaWordFileRecord| x@) == records_before(b@, name as int),
        decreases 0x2400 - name,
    {
        let ghost before = out@;
        match record_at_exec(b, name) {
            Some(rec) => {
                out.push(rec);
                assert(out@.map_values(|x: AlphaWordFileRecord| x@) =~= before.map_values(|x: AlphaWordFileRecord| x@).push(rec@));
            },
            None => {},
        }
        name = name + 1;
    }
    out
}

/// The longest used length of file `slot` among its records whose two
/// used lengths agree, 0 if there is none.
pub open spec fn max_slot_used(rs: Seq<RecordView>, slot: u8) -> u32
    decreases rs.len(),
{
    if rs.len() == 0 {
        0
    } else {
        let prev = max_slot_used(rs.drop_last(), slot);
        let r = rs.last();
        if r.slot == slot && r.len_a == r.len_b && r.len_a > prev { r.len_a } else { prev }
    }
}

/// The longest used length of file `slot`.
pub fn max_alphaword_slot_used(records: &[AlphaWordFileRecord], slot: u8) -> (r: u32)
    ensures
        r == max_slot_used(records@.map_values(|x: AlphaWordFileRecord| x@), slot),
{
    let ghost views = records@.map_values(|x: AlphaWordFileRecord| x@);
    let mut best: u32 = 0;
    let mut i: usize = 0;
    while i < records.len()
        invariant
            i <= records@.len(),
            views == records@.map_values(|x: AlphaWordFileRecord| x@),
            best == max_slot_used(views.subrange(0, i as int), slot),
        decreases records@.len() - i,
    {
        assert(views.subrange(0, i + 1).drop_last() =~= views.subrange(0, i as int));
        let r = &records[i];
        if r.slot == slot && r.len_a == r.len_b && r.len_a > best {
            best = r.len_a;
        }
        i = i + 1;
    }
    assert(views.subrange(0, records@.len() as int) =~= views);
    best
}

/// Whether `m` occurs in `s`.
pub open spec fn bytes_contain(s: Seq<u8>, m: Seq<u8>) -> bool {
    exists|i: int| 0 <= i && i + m.len() <= s.len() && #[trigger] s.subrange(i, i + m.len()) == m
}

fn contains_bytes(s: &[u8], start: usize, len: usize, m: &[u8]) -> (r: bool)
    requires
        start + len <= s@.len(),
        m@.len() > 0,
    ensures
        r == bytes_contain(s@.subrange(start as int, start + len), m@),
{
    let ghost body = s@.subrange(start as int, start + len);
    if m.len() > len {
        return false;
    }
    let slen = s.len();
    let last = len - m.len();
    let mut i: usize = 0;
    while i <= last
        invariant
            slen == s@.len(),
            last == len - m@.len(),
            i <= last + 1,
            start + len <= s@.len(),
            m@.len() > 0,
            m@.len() <= len,
            body == s@.subrange(start as int, start + len),
            forall|j: int| 0 <= j < i ==> #[trigger] body.subrange(j, j + m@.len()) != m@,
        decreases len - i,
    {
        let mut k: usize = 0;
        let mut same = true;
        while k < m.len()
            invariant
                slen == s@.len(),
                start + len <= s@.len(),
                i + m@.len() <= len,
                k <= m@.len(),
                body == s@.subrange(start as int, start + len),
                same == forall|q: int| 0 <= q < k ==> body[i + q] == m@[q],
            decreases m@.len() - k,
        {
            same = same && s[start + i + k] == m[k];
            k = k + 1;
        }
        if same {
            assert(body.subrange(i as int, i + m@.len()) =~= m@);
            return true;
        }
        assert(body.subrange(i as int, i + m@.len()) != m@) by {
            let q = choose|q: int| 0 <= q < m@.len() && body[i + q] != m@[q];
            assert(body.subrange(i as int, i + m@.len())[q] == body[i + q]);
        }
        i = i + 1;
    }
    assert forall|j: int| 0 <= j && j + m@.len() <= body.len() implies #[trigger] body.subrange(j, j + m@.len()) != m@ by {
        assert(j < i);
    }
    false
}

/// The text of a buffer address, as the checks report it.
pub open spec fn address_text(p: int) -> Seq<char> {
    "0x"@ + hex_digits(p as nat, 8)
}

fn address_string(p: usize) -> (r: String)
    ensures
        r@ == address_text(p as int),
{
    let mut s = String::from_str("0x");
    push_hex(&mut s, p as u64, 8);
    s
}

/// Whether a record's buffer holds `m`: its buffer lies inside memory for
/// its whole plausible size and `m` occurs in it.
pub open spec fn buffer_holds(b: Seq<u8>, r: RecordView, m: Seq<u8>) -> bool {
    match effective_capacity(r.len_a, r.len_b, r.cap_a, r.cap_b) {
        Some(cap) => r.pointer < b.len() && r.pointer + cap <= b.len() && bytes_contain(b.subrange(r.pointer, r.pointer + cap), m),
        None => false,
    }
}

/// The buffer addresses of file `slot`'s records that hold `m`, in order.
pub open spec fn marker_offsets(b: Seq<u8>, rs: Seq<RecordView>, slot: u8, m: Seq<u8>) -> Seq<Seq<char>>
    decreases rs.len(),
{
    if rs.len() == 0 {
        Seq::empty()
    } else {
        let prev = marker_offsets(b, rs.drop_last(), slot, m);
        let r = rs.last();
        if r.slot == slot && buffer_holds(b, r, m) { prev.push(address_text(r.pointer)) } else { prev }
    }
}

fn holds_marker(b: &[u8], r: &AlphaWordFileRecord, m: &[u8]) -> (res: bool)
    requires
        m@.len() > 0,
    ensures
        res == buffer_holds(b@, r@, m@),
{
    match effective_alphaword_capacity(r.len_a, r.len_b, r.cap_a, r.cap_b) {
        Some(cap) => {
            if r.pointer < b.len() && b.len() - r.pointer >= cap {
                contains_bytes(b, r.pointer, cap, m)
            } else {
                false
            }
        },
        None => false,
    }
}

/// Where the buffers of file `slot` that hold `marker` are.
pub fn alphaword_marker_offsets(b: &[u8], slot: u8, marker: &[u8]) -> (r: Vec<String>)
    requires
        marker@.len() > 0,
    ensures
        r@.map_values(|s: String| s@) == marker_offsets(b@, records_before(b@, 0x2400), slot, marker@),
{
    let records = alphaword_file_records(b);
    let ghost views = records@.map_values(|x: AlphaWordFileRecord| x@);
    let mut out: Vec<String> = Vec::new();
    let mut i: usize = 0;
    while i < records.len()
        invariant
            marker@.len() > 0,
            i <= records@.len(),
            views == records@.map_values(|x: AlphaWordFileRecord| x@),
            views == records_before(b@, 0x2400),
            out@.map_values(|s: String| s@) == marker_offsets(b@, views.subrange(0, i as int), slot, marker@),
        decreases records@.len() - i,
    {
        let ghost before = out@;
        assert(views.subrange(0, i + 1).drop_last() =~= views.subrange(0, i as int));
        assert(views.subrange(0, i + 1).last() == records@[i as int]@);
        let r = &records[i];
        if r.slot == slot && holds_marker(b, r, marker) {
            let text = address_string(r.pointer);
            out.push(text);
            assert(out@.map_values(|s: String| s@) =~= before.map_values(|s: String| s@).push(address_text(r.pointer as int)));
        }
        i = i + 1;
    }
    assert(views.subrange(0, records@.len() as int) =~= views);
    out
}

/// Why an export into an AlphaWord file failed its check.
#[derive(Clone, Copy, Debug, PartialEq, Eq, Structural)]
pub enum ExportCheckError {
    DescriptorDisappeared { slot: u8, record: usize },
    DescriptorMoved {
        slot: u8,
        record: usize,
        before_pointer: usize,
        before_cap_a: u32,
        before_cap_b: u32,
        after_pointer: usize,
        after_cap_a: u32,
        after_cap_b: u32,
    },
    MismatchedUsedLengths { slot: u8, record: usize, len_a: u32, len_b: u32 },
    UsedLengthExceedsCapacity { slot: u8, record: usize, len_a: u32, cap_a: u32 },
}

impl ExportCheckError {
    /// The error as a sentence.
    pub fn message(&self) -> (r: String)
        ensures
            r@ == export_error_text(*self),
    {
        let mut s = String::from_str("AlphaWord File ");
        match *self {
            ExportCheckError::DescriptorDisappeared { slot, record } => {
                push_decimal(&mut s, slot as u64);
                s.append(" descriptor at 0x");
                push_hex(&mut s, record as u64, 4);
                s.append(" disappeared");
            },
            ExportCheckError::DescriptorMoved {
                slot,
                record,
                before_pointer,
                before_cap_a,
                before_cap_b,
                after_pointer,
                after_cap_a,
                after_cap_b,
            } => {
                push_decimal(&mut s, slot as u64);
                s.append(" descriptor at 0x");
                push_hex(&mut s, record as u64, 4);
                s.append(" changed pointer/capacity: before ptr=0x");
                push_hex(&mut s, before_pointer as u64, 8);
                s.append(" caps=");
                push_decimal(&mut s, before_cap_a as u64);
                s.append("/");
                push_decimal(&mut s, before_cap_b as u64);
                s.append(" after ptr=0x");
                push_hex(&mut s, after_pointer as u64, 8);
                s.append(" caps=");
                push_decimal(&mut s, after_cap_a as u64);
                s.append("/");
                push_decimal(&mut s, after_cap_b as u64);
            },
            ExportCheckError::MismatchedUsedLengths { slot, record, len_a, len_b } => {
                push_decimal(&mut s, slot as u64);
                s.append(" descriptor at 0x");
                push_hex(&mut s, record as u64, 4);
                s.append(" has mismatched used lengths ");
                push_decimal(&mut s, len_a as u64);
                s.append("/");
                push_decimal(&mut s, len_b as u64);
            },
            ExportCheckError::UsedLengthExceedsCapacity { slot, record, len_a, cap_a } => {
                push_decimal(&mut s, slot as u64);
                s.append(" descriptor at 0x");
                push_hex(&mut s, record as u64, 4);
                s.append(" used length ");
                push_decimal(&mut s, len_a as u64);
                s.append(" exceeds capacity ");
                push_decimal(&mut s, cap_a as u64);
            },
        }
        s
    }
}

/// The text of an export check error.
pub open spec fn export_error_text(e: ExportCheckError) -> Seq<char> {
    "AlphaWord File "@ + match e {
        ExportCheckError::DescriptorDisappeared { slot, record } => decimal(slot as nat) + " descriptor at 0x"@
            + hex_digits(record as nat, 4) + " disappeared"@,
        ExportCheckError::DescriptorMoved {
            slot,
            record,
            before_pointer,
            before_cap_a,
            before_cap_b,
            after_pointer,
            after_cap_a,
            after_cap_b,
        } => decimal(slot as nat) + " descriptor at 0x"@ + hex_digits(record as nat, 4)
            + " changed pointer/capacity: before ptr=0x"@ + hex_digits(before_pointer as nat, 8) + " caps="@
            + decimal(before_cap_a as nat) + "/"@ + decimal(before_cap_b as nat) + " after ptr=0x"@
            + hex_digits(after_pointer as nat, 8) + " caps="@ + decimal(after_cap_a as nat) + "/"@
            + decimal(after_cap_b as nat),
        ExportCheckError::MismatchedUsedLengths { slot, record, len_a, len_b } => decimal(slot as nat)
            + " descriptor at 0x"@ + hex_digits(record as nat, 4) + " has mismatched used lengths "@
            + decimal(len_a as nat) + "/"@ + decimal(len_b as nat),
        ExportCheckError::UsedLengthExceedsCapacity { slot, record, len_a, cap_a } => decimal(slot as nat)
            + " descriptor at 0x"@ + hex_digits(record as nat, 4) + " used length "@ + decimal(len_a as nat)
            + " exceeds capacity "@ + decimal(cap_a as nat),
    }
}

/// The first record of `rs` at memory offset `record`.
pub open spec fn first_with_record(rs: Seq<RecordView>, record: int) -> Option<RecordView>
    decreases rs.len(),
{
    if rs.len() == 0 {
        None
    } else if rs[0].record == record {
        Some(rs[0])
    } else {
        first_with_record(rs.drop_first(), record)
    }
}

/// `r` with `prefix` put in front of its offsets.
pub open spec fn with_offsets_before(prefix: Seq<Seq<char>>, r: Result<Seq<Seq<char>>, ExportCheckError>) -> Result<Seq<Seq<char>>, ExportCheckError> {
    match r {
        Ok(v) => Ok(prefix + v),
        Err(e) => Err(e),
    }
}

/// The check of an export into file `target` over the records found
/// before it (`before`) and after it (`after`, in memory `b`): every record
/// must still be there; the target file's records must keep their buffer
/// and capacities, have agreeing used lengths, and, where their buffer
/// holds the marker `m`, not use more than their capacity. It gives the
/// addresses of the target's buffers that hold the marker.
pub open spec fn export_check(before: Seq<RecordView>, after: Seq<RecordView>, b: Seq<u8>, target: u8, m: Seq<u8>) -> Result<Seq<Seq<char>>, ExportCheckError>
    decreases before.len(),
{
    if before.len() == 0 {
        Ok(Seq::empty())
    } else {
        let o = before[0];
        let rest = export_check(before.drop_first(), after, b, target, m);
        match first_with_record(after, o.record) {
            None => Err(ExportCheckError::DescriptorDisappeared { slot: o.slot, record: o.record as usize }),
            Some(c) => if o.slot != target {
                rest
            } else if c.pointer != o.pointer || c.cap_a != o.cap_a || c.cap_b != o.cap_b {
                Err(ExportCheckError::DescriptorMoved {
                    slot: target,
                    record: o.record as usize,
                    before_pointer: o.pointer as usize,
                    before_cap_a: o.cap_a,
                    before_cap_b: o.cap_b,
                    after_pointer: c.pointer as usize,
                    after_cap_a: c.cap_a,
                    after_cap_b: c.cap_b,
                })
            } else if c.len_a != c.len_b {
                Err(ExportCheckError::MismatchedUsedLengths { slot: target, record: o.record as usize, len_a: c.len_a, len_b: c.len_b })
            } else if buffer_holds(b, c, m) {
                if c.len_a > c.cap_a && c.cap_a >= 64 {
                    Err(ExportCheckError::UsedLengthExceedsCapacity { slot: target, record: o.record as usize, len_a: c.len_a, cap_a: c.cap_a })
                } else {
                    with_offsets_before(seq![address_text(c.pointer)], rest)
                }
            } else {
                rest
            },
        }
    }
}

fn find_record(rs: &Vec<AlphaWordFileRecord>, record: usize) -> (r: Option<usize>)
    ensures
        match r {
            Some(k) => k < rs@.len() && first_with_record(rs@.map_values(|x: AlphaWordFileRecord| x@), record as int) == Some(rs@[k as int]@),
            None => first_with_record(rs@.map_values(|x: AlphaWordFileRecord| x@), record as int) is None,
        },
{
    let ghost views = rs@.map_values(|x: AlphaWordFileRecord| x@);
    let mut k: usize = 0;
    assert(views.skip(0) =~= views);
    while k < rs.len()
        invariant
            k <= rs@.len(),
            views == rs@.map_values(|x: AlphaWordFileRecord| x@),
            first_with_record(views, record as int) == first_with_record(views.skip(k as int), record as int),
        decreases rs@.len() - k,
    {
        let ghost rest = views.skip(k as int);
        assert(rest[0] == rs@[k as int]@);
        if rs[k].record == record {
            return Some(k);
        }
        assert(rest.drop_first() =~= views.skip(k + 1));
        k = k + 1;
    }
    assert(views.skip(k as int) =~= Seq::<RecordView>::empty());
    None
}

/// Checks an export into file `target_slot`: the records found before it
/// against memory `after_bytes` after it, with `marker` the text written.
pub fn validate_alphaword_export_records(
    before: &[AlphaWordFileRecord],
    after_bytes: &[u8],
    target_slot: u8,
    marker: &[u8],
) -> (r: Result<Vec<String>, ExportCheckError>)
    requires
        marker@.len() > 0,
    ensures
        match r {
            Ok(v) => export_check(before@.map_values(|x: AlphaWordFileRecord| x@), records_before(after_bytes@, 0x2400), after_bytes@, target_slot, marker@)
                == Ok::<Seq<Seq<char>>, ExportCheckError>(v@.map_values(|s: String| s@)),
            Err(e) => export_check(before@.map_values(|x: AlphaWordFileRecord| x@), records_before(after_bytes@, 0x2400), after_bytes@, target_slot, marker@)
                == Err::<Seq<Seq<char>>, ExportCheckError>(e),
        },
{
    let after = alphaword_file_records(after_bytes);
    let ghost bv = before@.map_values(|x: AlphaWordFileRecord| x@);
    let ghost av = after@.map_values(|x: AlphaWordFileRecord| x@);
    let ghost whole = export_check(bv, av, after_bytes@, target_slot, marker@);
    let mut offsets: Vec<String> = Vec::new();
    let mut i: usize = 0;
    assert(bv.skip(0) =~= bv);
    while i < before.len()
        invariant
            marker@.len() > 0,
            i <= before@.len(),
            bv == before@.map_values(|x: AlphaWordFileRecord| x@),
            av == after@.map_values(|x: AlphaWordFileRecord| x@),
            av == records_before(after_bytes@, 0x2400),
            whole == export_check(bv, av, after_bytes@, target_slot, marker@),
            whole == with_offsets_before(offsets@.map_values(|s: String| s@), export_check(bv.skip(i as int), av, after_bytes@, target_slot, marker@)),
        decreases before@.len() - i,
    {
        let ghost rest = bv.skip(i as int);
        let ghost acc = offsets@.map_values(|s: String| s@);
        assert(rest[0] == before@[i as int]@);
        assert(rest.drop_first() =~= bv.skip(i + 1));
        let original = &before[i];
        let found = find_record(&after, original.record);
        let k = match found {
            Some(k) => k,
            None => {
                return Err(ExportCheckError::DescriptorDisappeared { slot: original.slot, record: original.record });
            },
        };
        let current = &after[k];
        if original.slot == target_slot {
            if current.pointer != original.pointer || current.cap_a != original.cap_a || current.cap_b != original.cap_b {
                return Err(ExportCheckError::DescriptorMoved {
                    slot: target_slot,
                    record: original.record,
                    before_pointer: original.pointer,
                    before_cap_a: original.cap_a,
                    before_cap_b: original.cap_b,
                    after_pointer: current.pointer,
                    after_cap_a: current.cap_a,
                    after_cap_b: current.cap_b,
                });
            }
            if current.len_a != current.len_b {
                return Err(ExportCheckError::MismatchedUsedLengths {
                    slot: target_slot,
                    record: original.record,
                    len_a: current.len_a,
                    len_b: current.len_b,
                });
            }
            if holds_marker(after_bytes, current, marker) {
                if current.len_a > current.cap_a && current.cap_a >= 64 {
                    return Err(ExportCheckError::UsedLengthExceedsCapacity {
                        slot: target_slot,
                        record: original.record,
                        len_a: current.len_a,
                        cap_a: current.cap_a,
                    });
                }
                let text = address_string(current.pointer);
                offsets.push(text);
                assert(offsets@.map_values(|s: String| s@) =~= acc.push(address_text(current.pointer as int)));
                assert(acc.push(address_text(current.pointer as int)) =~= acc + seq![address_text(current.pointer as int)]);
                assert forall|v: Seq<Seq<char>>| #![auto] (acc + seq![address_text(current.pointer as int)]) + v
                    == acc + (seq![address_text(current.pointer as int)] + v) by {
                    assert((acc + seq![address_text(current.pointer as int)]) + v =~= acc + (seq![address_text(current.pointer as int)] + v));
                }
            }
        }
        i = i + 1;
    }
    assert(bv.skip(i as int) =~= Seq::<RecordView>::empty());
    assert(offsets@.map_values(|s: String| s@) + Seq::<Seq<char>>::empty() =~= offsets@.map_values(|s: String| s@));
    Ok(offsets)
}

} // verus!
