//! Recovery seeds: the low-memory ranges a full firmware recovery leaves
//! behind, saved so that later emulator sessions can start from a
//! recovered system without running the recovery again.
//!
//! A seed file is the magic `NEOSEED1` padded to twelve bytes, a big-endian
//! count of ranges, and for each range its start, its length and its bytes.

use vstd::prelude::*;
use crate::bytes::{be_u32_at, be_u32_bytes, read_be_u32, u32_to_be};
use crate::memory::{EmuMemory, MemoryState, range_overlaid, storage_bounds_refreshed};

verus! {

/// The twelve bytes every seed file starts with.
pub open spec fn seed_magic() -> Seq<u8> {
    seq![0x4Eu8, 0x45, 0x4F, 0x53, 0x45, 0x45, 0x44, 0x31, 0, 0, 0, 0]
}

/// A range of emulator memory: where it starts and how long it is.
#[derive(Clone, Copy, Debug, PartialEq, Eq, Structural)]
pub struct RecoverySeedRange {
    pub start: u32,
    pub len: u32,
}

/// Saved memory ranges.
#[derive(Clone, Debug, PartialEq, Eq)]
pub struct RecoverySeed {
    pub ranges: Vec<(RecoverySeedRange, Vec<u8>)>,
}

/// Why a seed could not be made or read.
#[derive(Clone, Debug, PartialEq, Eq)]
pub enum RecoverySeedError {
    Firmware(String),
    Session(String),
    Io(String),
    NotFullSystemImage,
    InvalidSeed,
    RecoveryException(String),
    RecoveryDidNotComplete { expected: u32, actual: u32 },
}

/// The step at which the recovery prompt is answered with `Y`.
pub const RECOVERY_Y_STEP: usize = 9_000_000;
/// The step at which the recovery restart is confirmed with Enter.
pub const RECOVERY_ENTER_STEP: usize = 18_000_000;
/// How long the recovery may run after Enter before it counts as stuck.
pub const RECOVERY_MAX_STEPS_AFTER_ENTER: usize = 250_000_000;
/// Where the firmware is once the recovery has rebooted the system.
pub const RECOVERY_READY_PC: u32 = 0x0043_5a26;
/// The matrix code of Enter.
pub const ENTER_CODE: u8 = 0x69;

/// What a recovery run came to: an exception fails it, as does not
/// reaching the post-recovery boot point (reported with the program counter
/// it stopped at); otherwise the seed can be taken.
pub fn recovery_outcome(last_exception: Option<String>, reached_ready_pc: bool, pc: u32) -> (r: Result<(), RecoverySeedError>)
    ensures
        match last_exception {
            Some(e) => r == Err::<(), RecoverySeedError>(RecoverySeedError::RecoveryException(e)),
            None => if reached_ready_pc {
                r is Ok
            } else {
                r == Err::<(), RecoverySeedError>(
                    RecoverySeedError::RecoveryDidNotComplete { expected: RECOVERY_READY_PC, actual: pc },
                )
            },
        },
{
    match last_exception {
        Some(e) => Err(RecoverySeedError::RecoveryException(e)),
        None => if reached_ready_pc {
            Ok(())
        } else {
            Err(RecoverySeedError::RecoveryDidNotComplete { expected: RECOVERY_READY_PC, actual: pc })
        },
    }
}

/// One saved range: start, length field, bytes.
pub type SeedEntry = (u32, u32, Seq<u8>);

impl RecoverySeed {
    /// The saved ranges.
    pub open spec fn entries(&self) -> Seq<SeedEntry> {
        Seq::new(self.ranges@.len(), |i: int| (self.ranges@[i].0.start, self.ranges@[i].0.len, self.ranges@[i].1@))
    }

    /// Every range holds as many bytes as its length says, and the count
    /// fits the file's count field.
    pub open spec fn consistent(&self) -> bool {
        entries_consistent(self.entries())
    }
}

/// Every entry holds as many bytes as its length says, and there are fewer
/// than 2^32 of them.
pub open spec fn entries_consistent(es: Seq<SeedEntry>) -> bool {
    &&& es.len() <= u32::MAX
    &&& forall|i: int| 0 <= i < es.len() ==> (#[trigger] es[i]).1 == es[i].2.len()
}

/// The bytes of a list of ranges in a seed file.
pub open spec fn encode_entries(es: Seq<SeedEntry>) -> Seq<u8>
    decreases es.len(),
{
    if es.len() == 0 {
        Seq::empty()
    } else {
        encode_entries(es.drop_last()) + be_u32_bytes(es.last().0) + be_u32_bytes(es.last().1) + es.last().2
    }
}

/// The bytes of a seed file.
pub open spec fn encode_seed(es: Seq<SeedEntry>) -> Seq<u8> {
    seed_magic() + be_u32_bytes(es.len() as u32) + encode_entries(es)
}

/// Reads `n` ranges from the front of `b`; the ranges must use up `b`.
pub open spec fn parse_entries(b: Seq<u8>, n: nat) -> Option<Seq<SeedEntry>>
    decreases n,
{
    if n == 0 {
        if b.len() == 0 {
            Some(Seq::empty())
        } else {
            None
        }
    } else if b.len() < 8 {
        None
    } else {
        let start = be_u32_at(b, 0) as u32;
        let len = be_u32_at(b, 4) as u32;
        if 8 + len > b.len() {
            None
        } else {
            match parse_entries(b.subrange(8 + len, b.len() as int), (n - 1) as nat) {
                Some(rest) => Some(seq![(start, len, b.subrange(8, 8 + len))] + rest),
                None => None,
            }
        }
    }
}

/// What a seed file holds, if it is one.
pub open spec fn parse_seed(b: Seq<u8>) -> Option<Seq<SeedEntry>> {
    if b.len() < 16 || b.subrange(0, 12) != seed_magic() {
        None
    } else {
        parse_entries(b.subrange(16, b.len() as int), be_u32_at(b, 12) as nat)
    }
}

/// `s` with the saved ranges copied over RAM in order.
pub open spec fn ranges_overlaid(s: MemoryState, entries: Seq<SeedEntry>) -> MemoryState
    decreases entries.len(),
{
    if entries.len() == 0 {
        s
    } else {
        range_overlaid(ranges_overlaid(s, entries.drop_last()), entries.last().0, entries.last().2)
    }
}

impl RecoverySeed {
    /// Puts the saved ranges back into emulator memory, in order, and finds
    /// the applet area again.
    pub fn apply(&self, memory: &mut EmuMemory)
        requires
            old(memory).wf(),
        ensures
            final(memory).wf(),
            final(memory)@ == storage_bounds_refreshed(ranges_overlaid(old(memory)@, self.entries())),
    {
        let mut i: usize = 0;
        while i < self.ranges.len()
            invariant
                i <= self.ranges@.len(),
                memory.wf(),
                memory@ == ranges_overlaid(old(memory)@, self.entries().subrange(0, i as int)),
            decreases self.ranges@.len() - i,
        {
            let (range, bytes) = &self.ranges[i];
            memory.overlay_range(range.start, bytes.as_slice());
            proof {
                let sub = self.entries().subrange(0, i + 1);
                assert(sub.drop_last() =~= self.entries().subrange(0, i as int));
                assert(sub.last() == self.entries()[i as int]);
            }
            i = i + 1;
        }
        assert(self.entries().subrange(0, self.ranges@.len() as int) =~= self.entries());
        memory.refresh_applet_storage_bounds();
    }

    /// The seed of an emulator memory image.
    pub fn from_memory(memory: &[u8]) -> (r: Self)
        requires
            memory@.len() >= 0x1B00,
        ensures
            r.consistent(),
            r.entries() == seq![
                (0x400u32, 0x400u32, memory@.subrange(0x400, 0x800)),
                (0xE00u32, 0xD00u32, memory@.subrange(0xE00, 0x1B00)),
            ],
    {
        let mut ranges: Vec<(RecoverySeedRange, Vec<u8>)> = Vec::new();
        let first = crate::text::copy_range(memory, 0x400, 0x400);
        ranges.push((RecoverySeedRange { start: 0x400, len: 0x400 }, first));
        let second = crate::text::copy_range(memory, 0xE00, 0xD00);
        ranges.push((RecoverySeedRange { start: 0xE00, len: 0xD00 }, second));
        let r = RecoverySeed { ranges };
        assert(r.entries() =~= seq![
            (0x400u32, 0x400u32, memory@.subrange(0x400, 0x800)),
            (0xE00u32, 0xD00u32, memory@.subrange(0xE00, 0x1B00)),
        ]);
        r
    }

    /// The seed file of this seed.
    pub fn encode(&self) -> (r: Vec<u8>)
        requires
            self.ranges@.len() <= u32::MAX,
        ensures
            r@ == encode_seed(self.entries()),
    {
        let mut out: Vec<u8> = Vec::new();
        let magic: [u8; 12] = [0x4E, 0x45, 0x4F, 0x53, 0x45, 0x45, 0x44, 0x31, 0, 0, 0, 0];
        assert(magic@ =~= seed_magic());
        append(&mut out, magic.as_slice());
        let count = u32_to_be(self.ranges.len() as u32);
        append(&mut out, count.as_slice());
        let ghost head = out@;
        let ghost es = self.entries();
        let mut i: usize = 0;
        while i < self.ranges.len()
            invariant
                i <= self.ranges@.len(),
                es == self.entries(),
                head == seed_magic() + be_u32_bytes(es.len() as u32),
                out@ == head + encode_entries(es.subrange(0, i as int)),
            decreases self.ranges@.len() - i,
        {
            let (range, data) = (&self.ranges[i].0, &self.ranges[i].1);
            let s = u32_to_be(range.start);
            append(&mut out, s.as_slice());
            let l = u32_to_be(range.len);
            append(&mut out, l.as_slice());
            append(&mut out, data.as_slice());
            let ghost sub = es.subrange(0, i + 1);
            assert(sub.drop_last() =~= es.subrange(0, i as int));
            assert(sub.last() == es[i as int]);
            i = i + 1;
            assert(out@ =~= head + encode_entries(es.subrange(0, i as int)));
        }
        assert(es.subrange(0, es.len() as int) =~= es);
        out
    }

    /// Reads a seed file.
    pub fn decode(bytes: &[u8]) -> (r: Result<Self, RecoverySeedError>)
        ensures
            match parse_seed(bytes@) {
                Some(es) => r matches Ok(seed) && seed.entries() == es,
                None => r == Err::<RecoverySeed, RecoverySeedError>(RecoverySeedError::InvalidSeed),
            },
    {
        if bytes.len() < 16 {
            return Err(RecoverySeedError::InvalidSeed);
        }
        let magic: [u8; 12] = [0x4E, 0x45, 0x4F, 0x53, 0x45, 0x45, 0x44, 0x31, 0, 0, 0, 0];
        assert(magic@ =~= seed_magic());
        let mut m: usize = 0;
        while m < 12
            invariant
                m <= 12,
                bytes@.len() >= 16,
                magic@ == seed_magic(),
                forall|k: int| 0 <= k < m ==> bytes@[k] == magic@[k],
            decreases 12 - m,
        {
            if bytes[m] != magic[m] {
                assert(bytes@.subrange(0, 12)[m as int] != seed_magic()[m as int]);
                return Err(RecoverySeedError::InvalidSeed);
            }
            m = m + 1;
        }
        assert(bytes@.subrange(0, 12) =~= seed_magic());
        let count = read_be_u32(bytes[12], bytes[13], bytes[14], bytes[15]);
        let ghost target = parse_seed(bytes@);
        let mut ranges: Vec<(RecoverySeedRange, Vec<u8>)> = Vec::new();
        let mut cursor: usize = 16;
        let mut i: u32 = 0;
        while i < count
            invariant
                16 <= cursor <= bytes@.len(),
                i <= count,
                count as int == be_u32_at(bytes@, 12),
                target == parse_seed(bytes@),
                target == (match parse_entries(bytes@.subrange(cursor as int, bytes@.len() as int), (count - i) as nat) {
                    Some(rest) => Some(seq_of(ranges@) + rest),
                    None => None::<Seq<SeedEntry>>,
                }),
            decreases count - i,
        {
            let ghost rest = bytes@.subrange(cursor as int, bytes@.len() as int);
            if bytes.len() - cursor < 8 {
                return Err(RecoverySeedError::InvalidSeed);
            }
            let start = read_be_u32(bytes[cursor], bytes[cursor + 1], bytes[cursor + 2], bytes[cursor + 3]);
            let len = read_be_u32(bytes[cursor + 4], bytes[cursor + 5], bytes[cursor + 6], bytes[cursor + 7]);
            assert(start == be_u32_at(rest, 0) && len == be_u32_at(rest, 4));
            if (len as usize) > bytes.len() - cursor - 8 {
                return Err(RecoverySeedError::InvalidSeed);
            }
            let data = crate::text::copy_range(bytes, cursor + 8, len as usize);
            let ghost before = ranges@;
            ranges.push((RecoverySeedRange { start, len }, data));
            proof {
                assert(rest.subrange(8, 8 + len) =~= bytes@.subrange(cursor + 8, cursor + 8 + len));
                assert(rest.subrange(8 + len, rest.len() as int) =~= bytes@.subrange(cursor + 8 + len, bytes@.len() as int));
                assert(seq_of(ranges@) =~= seq_of(before).push((start, len, data@)));
                match parse_entries(bytes@.subrange(cursor + 8 + len, bytes@.len() as int), (count - i - 1) as nat) {
                    Some(r2) => {
                        assert(seq_of(before) + (seq![(start, len, rest.subrange(8, 8 + len))] + r2) =~= seq_of(ranges@) + r2);
                    },
                    None => {},
                }
            }
            cursor = cursor + 8 + len as usize;
            i = i + 1;
        }
        if cursor != bytes.len() {
            return Err(RecoverySeedError::InvalidSeed);
        }
        let seed = RecoverySeed { ranges };
        assert(bytes@.subrange(cursor as int, bytes@.len() as int) =~= Seq::<u8>::empty());
        assert(seq_of(seed.ranges@) =~= seed.entries());
        assert(seq_of(seed.ranges@) + Seq::<SeedEntry>::empty() =~= seq_of(seed.ranges@));
        Ok(seed)
    }
}

/// The entries of a list of saved ranges.
pub open spec fn seq_of(v: Seq<(RecoverySeedRange, Vec<u8>)>) -> Seq<SeedEntry> {
    Seq::new(v.len(), |i: int| (v[i].0.start, v[i].0.len, v[i].1@))
}

fn append(out: &mut Vec<u8>, bytes: &[u8])
    ensures
        final(out)@ == old(out)@ + bytes@,
{
    let ghost o = out@;
    let mut i: usize = 0;
    while i < bytes.len()
        invariant
            i <= bytes@.len(),
            out@ == o + bytes@.subrange(0, i as int),
        decreases bytes@.len() - i,
    {
        out.push(bytes[i]);
        i = i + 1;
        assert(out@ =~= o + bytes@.subrange(0, i as int));
    }
    assert(bytes@.subrange(0, bytes@.len() as int) =~= bytes@);
}

/// Reading what was written gives back the ranges: for any list of ranges
/// whose lengths match their bytes, the seed file of the list reads back as
/// the same list.
pub proof fn lemma_seed_roundtrip(es: Seq<SeedEntry>)
    requires
        entries_consistent(es),
    ensures
        parse_seed(encode_seed(es)) == Some(es),
{
    let b = encode_seed(es);
    assert(b.subrange(0, 12) =~= seed_magic());
    assert(b.subrange(16, b.len() as int) =~= encode_entries(es));
    crate::bytes::lemma_be_u32_bytes_roundtrip(es.len() as u32);
    assert(b.subrange(12, 16) =~= be_u32_bytes(es.len() as u32));
    assert(be_u32_at(b, 12) == be_u32_at(be_u32_bytes(es.len() as u32), 0));
    lemma_entries_roundtrip(es);
}

proof fn lemma_entries_roundtrip(es: Seq<SeedEntry>)
    requires
        entries_consistent(es),
    ensures
        parse_entries(encode_entries(es), es.len()) == Some(es),
    decreases es.len(),
{
    if es.len() > 0 {
        let first = es[0];
        let rest = es.drop_first();
        assert(entries_consistent(rest)) by {
            assert forall|i: int| 0 <= i < rest.len() implies (#[trigger] rest[i]).1 == rest[i].2.len() by {
                assert(rest[i] == es[i + 1]);
            }
        }
        lemma_entries_roundtrip(rest);
        lemma_encode_front(es);
        assert(first.1 == first.2.len());
        lemma_entry_head(first.0, first.1, first.2, encode_entries(rest));
        assert(seq![(first.0, first.1, first.2)] + rest =~= es);
    }
}

/// One range at the front of a byte string reads back as its start, its
/// length, its bytes and what follows.
proof fn lemma_entry_head(start: u32, len: u32, data: Seq<u8>, tail: Seq<u8>)
    requires
        data.len() == len,
    ensures
        ({
            let b = be_u32_bytes(start) + be_u32_bytes(len) + data + tail;
            &&& b.len() >= 8 + len
            &&& be_u32_at(b, 0) == start
            &&& be_u32_at(b, 4) == len
            &&& b.subrange(8, 8 + len) == data
            &&& b.subrange(8 + len, b.len() as int) == tail
        }),
{
    let b = be_u32_bytes(start) + be_u32_bytes(len) + data + tail;
    crate::bytes::lemma_be_u32_bytes_roundtrip(start);
    crate::bytes::lemma_be_u32_bytes_roundtrip(len);
    assert(be_u32_at(b, 0) == be_u32_at(be_u32_bytes(start), 0));
    assert(be_u32_at(b, 4) == be_u32_at(be_u32_bytes(len), 0));
    assert(b.subrange(8, 8 + len) =~= data);
    assert(b.subrange(8 + len, b.len() as int) =~= tail);
}

proof fn lemma_encode_front(es: Seq<SeedEntry>)
    requires
        es.len() > 0,
    ensures
        encode_entries(es) == be_u32_bytes(es[0].0) + be_u32_bytes(es[0].1) + es[0].2 + encode_entries(es.drop_first()),
    decreases es.len(),
{
    if es.len() == 1 {
        assert(es.drop_last() =~= Seq::<SeedEntry>::empty());
        assert(es.drop_first() =~= Seq::<SeedEntry>::empty());
        assert(encode_entries(es) =~= be_u32_bytes(es[0].0) + be_u32_bytes(es[0].1) + es[0].2 + encode_entries(es.drop_first()));
    } else {
        lemma_encode_front(es.drop_last());
        assert(es.drop_last().drop_first() =~= es.drop_first().drop_last());
        assert(es.drop_first().last() == es.last());
        assert(encode_entries(es) =~= be_u32_bytes(es[0].0) + be_u32_bytes(es[0].1) + es[0].2 + encode_entries(es.drop_first()));
    }
}

} // verus!
