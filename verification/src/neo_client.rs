//! The updater client shared by the desktop and Android front ends: it drives
//! a direct-USB transport through the NEO updater protocol.
//!
//! Every payload handed to the transport and every payload it returns is
//! recorded in ghost logs (`sent` and `received`), so that the contracts can
//! say exactly which packets an operation writes and how its result follows
//! from what the device answered.

use vstd::prelude::*;
use std::time::Duration;
use crate::bytes::{checksum16, sum16};
use crate::bytes::{be_u16_at, be_u32_at};
use crate::text::{decimal, field_text, push_char, push_decimal, push_hex, hex_digits};
use crate::protocol::{
    add_applet_start_fields, derive_add_applet_start_fields, parse_smartapplet_header,
    parse_smartapplet_record, record_matches, FileEntry, parse_file_entry, os_segments_of, parse_neo_os_segments, OsFlashSegment, SmartAppletRecord, SMARTAPPLET_HEADER_SIZE,
    command, command_packet, reset_bytes, response_of, switch_bytes, switched_bytes, ProtocolError,
    Response, parse_response, reset_packet, switch_packet, bcd_value, protocol_error_text, version_text,
};

verus! {

/// A failure reported by a transport implementation.
#[derive(Clone, Debug, PartialEq, Eq)]
pub struct TransportError {
    pub message: String,
}

/// The bulk endpoints of a NEO in direct USB mode.
pub trait DirectTransport {
    /// Writes one payload to the bulk-out endpoint.
    fn write(&mut self, payload: &[u8]) -> Result<(), TransportError>;

    /// Reads `len` bytes from the bulk-in endpoint within `timeout`.
    fn read_exact(&mut self, len: usize, timeout: Duration) -> Result<Vec<u8>, TransportError>;
}

/// Why a client operation failed.
#[derive(Clone, Debug, PartialEq, Eq)]
pub enum ClientError {
    Transport(TransportError),
    Protocol(ProtocolError),
    UnexpectedSwitchResponse { response: Vec<u8> },
    AttributeStatus { slot: u32, status: u8 },
    RetrieveStartStatus { status: u8 },
    ChunkStatus { status: u8 },
    ChecksumMismatch { actual: u16, expected: u16 },
    AppletListStatus { status: u8 },
    AppletListLength { length: u32 },
    ImageShorterThanHeader,
    ImageSizeMismatch { declared: u32, actual: usize },
    UnexpectedStatus { expected: u8, got: u8 },
    PageOffsetOverflow,
    TooManyEmptyChunks,
}

/// Progress of a long-running install.
#[derive(Clone, Copy, Debug, PartialEq, Eq)]
pub enum NeoClientProgress {
    OsSegmentErased { completed: usize, total: usize, address: u32 },
    ChunkProgrammed { label: &'static str, completed: usize, total: usize },
}

/// The 1 s timeout of ordinary replies.
fn default_timeout() -> Duration {
    millis(1_000)
}

/// A duration of `ms` milliseconds (`Duration::from_millis`).
#[verifier::external_body]
fn millis(ms: u64) -> Duration {
    Duration::from_millis(ms)
}

/// Whether `raw` is a well-formed response carrying `status`.
pub open spec fn reply_with(raw: Seq<u8>, status: u8) -> bool {
    response_of(raw) matches Ok(r) && r.status == status
}

/// Whether log `new` continues log `old`.
pub open spec fn extends(new: Seq<Seq<u8>>, old: Seq<Seq<u8>>) -> bool {
    new.len() >= old.len() && forall|i: int| 0 <= i < old.len() ==> new[i] == old[i]
}

/// What log `new` holds after log `old`.
pub open spec fn since(new: Seq<Seq<u8>>, old: Seq<Seq<u8>>) -> Seq<Seq<u8>> {
    new.subrange(old.len() as int, new.len() as int)
}

/// Whether log `new` holds, after log `old`, the packet `p` and then only
/// retrieve-chunk commands.
pub open spec fn retrieval_requests(new: Seq<Seq<u8>>, old: Seq<Seq<u8>>, p: Seq<u8>) -> bool {
    new.len() > old.len() && new == old.push(p) + chunk_requests((new.len() - old.len() - 1) as nat)
}

/// Whether the first packet that log `new` holds after log `old` is `p`.
pub open spec fn sends_first(new: Seq<Seq<u8>>, old: Seq<Seq<u8>>, p: Seq<u8>) -> bool {
    new.len() > old.len() && new[old.len() as int] == p
}

/// `n` copies of the retrieve-chunk command.
pub open spec fn chunk_requests(n: nat) -> Seq<Seq<u8>> {
    Seq::new(n, |i: int| command_packet(0x10, 0, 0))
}

/// Folds the (reply, data) pairs of a retrieval over the bytes still owed:
/// each pair needs bytes still owed, fewer than `u64::MAX` empty blocks so
/// far, and a well-formed reply with status 0x4D whose trailing word is the
/// 16-bit sum of the data block; the result is the data so far, the bytes
/// still owed (never below zero) and the number of empty blocks.
pub open spec fn chunks_fold(reads: Seq<Seq<u8>>, total: nat) -> Option<(Seq<u8>, nat, nat)>
    decreases reads.len(),
{
    if reads.len() == 0 {
        Some((Seq::empty(), total, 0nat))
    } else if reads.len() < 2 {
        None
    } else {
        let reply = reads[reads.len() - 2];
        let data = reads[reads.len() - 1];
        match chunks_fold(reads.subrange(0, reads.len() - 2), total) {
            Some((payload, owed, empties)) => match response_of(reply) {
                Ok(r) => if owed > 0 && empties < u64::MAX && r.status == 0x4D && sum16(data) == r.trailing {
                    if data.len() == 0 {
                        Some((payload, owed, empties + 1))
                    } else {
                        Some((payload + data, if owed >= data.len() { (owed - data.len()) as nat } else { 0nat }, empties))
                    }
                } else {
                    None
                },
                Err(_) => None,
            },
            None => None,
        }
    }
}

/// The payload of a complete retrieval whose replies are `reads`: a start
/// reply with status 0x53 announcing the size, then chunk pairs that bring
/// the bytes owed to zero.
pub open spec fn retrieval_payload(reads: Seq<Seq<u8>>) -> Option<Seq<u8>> {
    if reads.len() >= 1 && reply_with(reads[0], 0x53) {
        match chunks_fold(reads.subrange(1, reads.len() as int), response_of(reads[0])->Ok_0.argument as nat) {
            Some((payload, owed, _)) => if owed == 0 { Some(payload) } else { None },
            None => None,
        }
    } else {
        None
    }
}

/// Whether result `r` is the outcome `o` that the replies give.
pub open spec fn unit_outcome(r: Result<(), ClientError>, o: Option<Result<(), ClientError>>) -> bool {
    match r {
        Ok(()) => o == Some(Ok::<(), ClientError>(())),
        Err(e) => o == Some(Err::<(), ClientError>(e)),
    }
}

/// Whether result `r` is the outcome `o` that the replies give.
pub open spec fn bytes_outcome(r: Result<Vec<u8>, ClientError>, o: Option<Result<Seq<u8>, ClientError>>) -> bool {
    match r {
        Ok(p) => o == Some(Ok::<Seq<u8>, ClientError>(p@)),
        Err(e) => o == Some(Err::<Seq<u8>, ClientError>(e)),
    }
}

/// What the replies `reads` to commands that each expect a status from
/// `expected`, in order, give: `Ok` when every reply is well formed and
/// carries its status, else the error of the first that is not, which ends
/// the exchange; `None` for replies such an exchange cannot have read.
pub open spec fn status_outcome(reads: Seq<Seq<u8>>, expected: Seq<u8>) -> Option<Result<(), ClientError>>
    decreases reads.len(),
{
    if reads.len() == 0 {
        if expected.len() == 0 { Some(Ok(())) } else { None }
    } else if expected.len() == 0 {
        None
    } else {
        match response_of(reads[0]) {
            Err(pe) => if reads.len() == 1 { Some(Err(ClientError::Protocol(pe))) } else { None },
            Ok(r) => if r.status != expected[0] {
                if reads.len() == 1 {
                    Some(Err(ClientError::UnexpectedStatus { expected: expected[0], got: r.status }))
                } else {
                    None
                }
            } else {
                status_outcome(reads.drop_first(), expected.drop_first())
            },
        }
    }
}

proof fn lemma_status_outcome_ok_append(a: Seq<Seq<u8>>, ea: Seq<u8>, b: Seq<Seq<u8>>, eb: Seq<u8>)
    requires
        status_outcome(a, ea) == Some(Ok::<(), ClientError>(())),
    ensures
        status_outcome(a + b, ea + eb) == status_outcome(b, eb),
    decreases a.len(),
{
    if a.len() == 0 {
        assert(a + b =~= b);
        assert(ea + eb =~= eb);
    } else {
        lemma_status_outcome_ok_append(a.drop_first(), ea.drop_first(), b, eb);
        assert((a + b).drop_first() =~= a.drop_first() + b);
        assert((ea + eb).drop_first() =~= ea.drop_first() + eb);
        assert((a + b)[0] == a[0]);
        assert((ea + eb)[0] == ea[0]);
    }
}

proof fn lemma_status_outcome_err_extend(a: Seq<Seq<u8>>, ea: Seq<u8>, eb: Seq<u8>)
    requires
        status_outcome(a, ea) matches Some(Err(_)),
    ensures
        status_outcome(a, ea + eb) == status_outcome(a, ea),
    decreases a.len(),
{
    if a.len() > 0 && ea.len() > 0 {
        assert((ea + eb)[0] == ea[0]);
        if a.len() > 1 {
            lemma_status_outcome_err_extend(a.drop_first(), ea.drop_first(), eb);
            assert((ea + eb).drop_first() =~= ea.drop_first() + eb);
        }
    }
}

/// The error of a chunk reply that broke off a retrieval still owed bytes
/// after `before`.
pub open spec fn chunk_reply_error(before: Option<(Seq<u8>, nat, nat)>, reply: Seq<u8>) -> Option<Result<Seq<u8>, ClientError>> {
    match before {
        Some((_, owed, empties)) => if owed > 0 && empties < u64::MAX {
            match response_of(reply) {
                Err(pe) => Some(Err(ClientError::Protocol(pe))),
                Ok(r) => if r.status != 0x4D { Some(Err(ClientError::ChunkStatus { status: r.status })) } else { None },
            }
        } else {
            None
        },
        None => None,
    }
}

/// The error of a chunk reply and data block that broke off a retrieval
/// still owed bytes after `before`.
pub open spec fn chunk_data_error(before: Option<(Seq<u8>, nat, nat)>, reply: Seq<u8>, data: Seq<u8>) -> Option<Result<Seq<u8>, ClientError>> {
    match before {
        Some((_, owed, empties)) => if owed > 0 && empties < u64::MAX && reply_with(reply, 0x4D) {
            let r = response_of(reply)->Ok_0;
            if sum16(data) != r.trailing {
                Some(Err(ClientError::ChecksumMismatch { actual: sum16(data), expected: r.trailing }))
            } else {
                None
            }
        } else {
            None
        },
        None => None,
    }
}

/// What the chunk replies and data blocks `reads` of a retrieval owed
/// `total` bytes give: the data once nothing is owed, else the error of the
/// reply or block that broke it off; `None` for reads a retrieval cannot
/// have made.
pub open spec fn chunks_outcome(reads: Seq<Seq<u8>>, total: nat) -> Option<Result<Seq<u8>, ClientError>> {
    let n = reads.len() as int;
    if n % 2 == 0 {
        match chunks_fold(reads, total) {
            Some((p, owed, empties)) => if owed == 0 {
                Some(Ok(p))
            } else if empties == u64::MAX {
                Some(Err(ClientError::TooManyEmptyChunks))
            } else {
                None
            },
            None => if n >= 2 {
                chunk_data_error(chunks_fold(reads.subrange(0, n - 2), total), reads[n - 2], reads[n - 1])
            } else {
                None
            },
        }
    } else {
        chunk_reply_error(chunks_fold(reads.subrange(0, n - 1), total), reads[n - 1])
    }
}

/// What the reads `reads` of a retrieval give: the start reply must carry
/// status 0x53 and announce the size, then the chunks follow.
pub open spec fn retrieval_outcome(reads: Seq<Seq<u8>>) -> Option<Result<Seq<u8>, ClientError>> {
    if reads.len() == 0 {
        None
    } else {
        match response_of(reads[0]) {
            Err(pe) => if reads.len() == 1 { Some(Err(ClientError::Protocol(pe))) } else { None },
            Ok(r) => if r.status != 0x53 {
                if reads.len() == 1 { Some(Err(ClientError::RetrieveStartStatus { status: r.status })) } else { None }
            } else {
                chunks_outcome(reads.subrange(1, reads.len() as int), r.argument as nat)
            },
        }
    }
}

/// The statuses that acknowledge programming `k` chunks: size, data and
/// program command of each.
pub open spec fn program_statuses(k: nat) -> Seq<u8>
    decreases k,
{
    if k == 0 {
        Seq::empty()
    } else {
        program_statuses((k - 1) as nat) + seq![0x42u8, 0x43, 0x47]
    }
}

/// The statuses that acknowledge installing a SmartApplet of `k` chunks.
pub open spec fn applet_statuses(k: nat) -> Seq<u8> {
    seq![0x46u8] + program_statuses(k) + seq![0x48u8]
}

/// The statuses that acknowledge flashing an OS image of `segments`
/// segments and `k` chunks.
pub open spec fn os_statuses(segments: nat, k: nat) -> Seq<u8> {
    seq![0x56u8, 0x54] + Seq::new(segments, |i: int| 0x55u8) + program_statuses(k) + seq![0x48u8]
}

/// The progress events of the first `done` of `total` chunks programmed
/// under `label`.
pub open spec fn chunk_events(label: &'static str, total: nat, done: nat) -> Seq<NeoClientProgress> {
    Seq::new(done, |i: int| NeoClientProgress::ChunkProgrammed { label, completed: (i + 1) as usize, total: total as usize })
}

/// The progress events of the first `done` segments of `segments` erased.
pub open spec fn erase_events(segments: Seq<OsFlashSegment>, done: nat) -> Seq<NeoClientProgress> {
    Seq::new(done, |i: int| NeoClientProgress::OsSegmentErased {
        completed: (i + 1) as usize,
        total: segments.len() as usize,
        address: segments[i].address,
    })
}

proof fn lemma_program_statuses_prefix(m: nat, n: nat)
    requires
        m <= n,
    ensures
        program_statuses(n).len() == 3 * n,
        program_statuses(n).subrange(0, 3 * m as int) == program_statuses(m),
    decreases n,
{
    if n > 0 {
        lemma_program_statuses_prefix(if m == n { (m - 1) as nat } else { m }, (n - 1) as nat);
        lemma_program_statuses_prefix((n - 1) as nat, (n - 1) as nat);
        if m < n {
            assert(program_statuses(n).subrange(0, 3 * m as int) =~= program_statuses((n - 1) as nat).subrange(0, 3 * m as int));
        } else {
            assert(program_statuses(n).subrange(0, 3 * m as int) =~= program_statuses(n));
        }
    } else {
        assert(program_statuses(n).subrange(0, 0) =~= program_statuses(0));
    }
}

/// One more exchange after exchanges that all went through: it goes
/// through, or its error is the error of the whole.
proof fn lemma_status_step(a: Seq<Seq<u8>>, ea: Seq<u8>, x: Seq<u8>, ex: u8, eb: Seq<u8>)
    requires
        status_outcome(a, ea) == Some(Ok::<(), ClientError>(())),
    ensures
        status_outcome(seq![x], seq![ex]) == Some(Ok::<(), ClientError>(())) ==> status_outcome(a.push(x), ea.push(ex))
            == Some(Ok::<(), ClientError>(())),
        status_outcome(seq![x], seq![ex]) matches Some(Err(_)) ==> status_outcome(a.push(x), ea.push(ex) + eb)
            == status_outcome(seq![x], seq![ex]),
{
    lemma_status_outcome_ok_append(a, ea, seq![x], seq![ex]);
    assert(a + seq![x] =~= a.push(x));
    assert(ea + seq![ex] =~= ea.push(ex));
    lemma_status_outcome_ok_append(a, ea, seq![x], seq![ex] + eb);
    assert(ea + (seq![ex] + eb) =~= ea.push(ex) + eb);
    if status_outcome(seq![x], seq![ex]) matches Some(Err(_)) {
        lemma_status_outcome_err_extend(seq![x], seq![ex], eb);
    }
}

/// An exchange that fails after exchanges that went through, against the
/// statuses `full` expected in all: its error is the outcome.
proof fn lemma_exchange_err(a: Seq<Seq<u8>>, full: Seq<u8>, k: int, x: Seq<u8>)
    requires
        0 <= k < full.len(),
        status_outcome(a, full.subrange(0, k)) == Some(Ok::<(), ClientError>(())),
        status_outcome(seq![x], seq![full[k]]) matches Some(Err(_)),
    ensures
        status_outcome(a.push(x), full) == status_outcome(seq![x], seq![full[k]]),
{
    lemma_status_step(a, full.subrange(0, k), x, full[k], full.subrange(k + 1, full.len() as int));
    assert(full.subrange(0, k).push(full[k]) + full.subrange(k + 1, full.len() as int) =~= full);
}

/// An exchange that goes through after exchanges that went through.
proof fn lemma_exchange_ok(a: Seq<Seq<u8>>, full: Seq<u8>, k: int, x: Seq<u8>)
    requires
        0 <= k < full.len(),
        status_outcome(a, full.subrange(0, k)) == Some(Ok::<(), ClientError>(())),
        status_outcome(seq![x], seq![full[k]]) == Some(Ok::<(), ClientError>(())),
    ensures
        status_outcome(a.push(x), full.subrange(0, k + 1)) == Some(Ok::<(), ClientError>(())),
{
    lemma_status_step(a, full.subrange(0, k), x, full[k], Seq::empty());
    assert(full.subrange(0, k).push(full[k]) =~= full.subrange(0, k + 1));
}

/// What the attribute replies and records `reads` for slots `slot` to 8
/// give: the slot and record of each slot that answered 0x5A, in slot
/// order, or the error that ended the listing; `None` for reads a listing
/// cannot have made.
pub open spec fn files_outcome(reads: Seq<Seq<u8>>, slot: nat) -> Option<Result<Seq<(nat, Seq<u8>)>, ClientError>>
    decreases 9 - slot,
{
    if slot > 8 {
        if reads.len() == 0 { Some(Ok(Seq::empty())) } else { None }
    } else if reads.len() == 0 {
        None
    } else {
        match response_of(reads[0]) {
            Err(pe) => if reads.len() == 1 { Some(Err(ClientError::Protocol(pe))) } else { None },
            Ok(r) => if r.status == 0x90 {
                files_outcome(reads.drop_first(), slot + 1)
            } else if r.status != 0x5A {
                if reads.len() == 1 {
                    Some(Err(ClientError::AttributeStatus { slot: slot as u32, status: r.status }))
                } else {
                    None
                }
            } else if reads.len() < 2 {
                None
            } else if sum16(reads[1]) != r.trailing {
                if reads.len() == 2 {
                    Some(Err(ClientError::ChecksumMismatch { actual: sum16(reads[1]), expected: r.trailing }))
                } else {
                    None
                }
            } else if reads[1].len() != 0x28 {
                if reads.len() == 2 {
                    Some(Err(ClientError::Protocol(ProtocolError::AttributeRecordLength { record_got: reads[1].len() as usize })))
                } else {
                    None
                }
            } else {
                match files_outcome(reads.subrange(2, reads.len() as int), slot + 1) {
                    Some(Ok(rest)) => Some(Ok(seq![(slot, reads[1])] + rest)),
                    other => other,
                }
            },
        }
    }
}

/// Whether listing result `r` is outcome `o`: each entry the one its slot's
/// record describes, in order, or the same error.
pub open spec fn files_result(r: Result<Vec<FileEntry>, ClientError>, o: Option<Result<Seq<(nat, Seq<u8>)>, ClientError>>) -> bool {
    match r {
        Ok(v) => o matches Some(Ok(recs)) && v@.len() == recs.len() && forall|i: int|
            0 <= i < recs.len() ==> entry_from(#[trigger] v@[i], recs[i].0 as int, recs[i].1),
        Err(e) => o == Some(Err::<Seq<(nat, Seq<u8>)>, ClientError>(e)),
    }
}

/// The 0x84-byte records a SmartApplet list payload holds, in order.
pub open spec fn record_windows(p: Seq<u8>) -> Seq<Seq<u8>> {
    Seq::new(p.len() / 0x84, |i: int| p.subrange(0x84 * i, 0x84 * i + 0x84))
}

/// Whether a page reply and payload, read for offset `offset`, ask for the
/// next page: a well-formed 0x44 reply announcing whole records, a payload
/// matching its sum, a full page of seven or more records and room for the
/// next offset.
pub open spec fn page_continues(reply: Seq<u8>, payload: Seq<u8>, offset: nat) -> bool {
    &&& response_of(reply) matches Ok(r)
    &&& r.status == 0x44 && r.argument != 0 && r.argument % 0x84 == 0
    &&& sum16(payload) == r.trailing
    &&& record_windows(payload).len() >= 7
    &&& record_windows(payload).len() <= u32::MAX - offset
}

/// What the page replies and payloads `reads` of a SmartApplet listing from
/// offset `offset` give: every record of every page, in order, or the error
/// that ended the listing; `None` for reads a listing cannot have made.
pub open spec fn pages_outcome(reads: Seq<Seq<u8>>, offset: nat) -> Option<Result<Seq<Seq<u8>>, ClientError>>
    decreases reads.len(),
{
    if reads.len() == 0 {
        None
    } else {
        match response_of(reads[0]) {
            Err(pe) => if reads.len() == 1 { Some(Err(ClientError::Protocol(pe))) } else { None },
            Ok(r) => if r.status == 0x90 || r.argument == 0 {
                if reads.len() == 1 { Some(Ok(Seq::empty())) } else { None }
            } else if r.status != 0x44 {
                if reads.len() == 1 { Some(Err(ClientError::AppletListStatus { status: r.status })) } else { None }
            } else if r.argument % 0x84 != 0 {
                if reads.len() == 1 { Some(Err(ClientError::AppletListLength { length: r.argument })) } else { None }
            } else if reads.len() < 2 {
                None
            } else if sum16(reads[1]) != r.trailing {
                if reads.len() == 2 {
                    Some(Err(ClientError::ChecksumMismatch { actual: sum16(reads[1]), expected: r.trailing }))
                } else {
                    None
                }
            } else if record_windows(reads[1]).len() < 7 {
                if reads.len() == 2 { Some(Ok(record_windows(reads[1]))) } else { None }
            } else if record_windows(reads[1]).len() > u32::MAX - offset {
                if reads.len() == 2 { Some(Err(ClientError::PageOffsetOverflow)) } else { None }
            } else {
                match pages_outcome(reads.subrange(2, reads.len() as int), offset + record_windows(reads[1]).len()) {
                    Some(Ok(rest)) => Some(Ok(record_windows(reads[1]) + rest)),
                    other => other,
                }
            },
        }
    }
}

/// The list requests a SmartApplet listing from offset `offset` sends when
/// the device answers `reads`: one per page, each at the number of records
/// before it.
pub open spec fn pages_requests(reads: Seq<Seq<u8>>, offset: nat) -> Seq<Seq<u8>>
    decreases reads.len(),
{
    if reads.len() >= 2 && page_continues(reads[0], reads[1], offset) {
        seq![command_packet(0x04, offset as u32, 7)] + pages_requests(
            reads.subrange(2, reads.len() as int),
            offset + record_windows(reads[1]).len(),
        )
    } else {
        seq![command_packet(0x04, offset as u32, 7)]
    }
}

/// Whether listing result `r` is outcome `o`: each record the one its
/// 0x84-byte window describes, in order, or the same error.
pub open spec fn records_result(r: Result<Vec<SmartAppletRecord>, ClientError>, o: Option<Result<Seq<Seq<u8>>, ClientError>>) -> bool {
    match r {
        Ok(v) => o matches Some(Ok(ws)) && v@.len() == ws.len() && forall|i: int|
            0 <= i < ws.len() ==> record_matches(#[trigger] v@[i], ws[i]),
        Err(e) => o == Some(Err::<Seq<Seq<u8>>, ClientError>(e)),
    }
}

/// Size of one programming chunk.
pub open spec fn chunk_len(image_len: int, offset: int) -> int {
    if image_len - offset < 0x400 { image_len - offset } else { 0x400 }
}

/// The packets that program `image` from `offset` on: for each chunk of at
/// most 0x400 bytes, its size and 16-bit sum, the chunk itself, and the
/// program command.
pub open spec fn program_writes_from(image: Seq<u8>, offset: int) -> Seq<Seq<u8>>
    decreases image.len() - offset,
{
    if offset < 0 || offset >= image.len() {
        Seq::empty()
    } else {
        let n = chunk_len(image.len() as int, offset);
        let c = image.subrange(offset, offset + n);
        seq![command_packet(0x02, n as u32, sum16(c)), c, command_packet(0x0B, 0, 0)]
            + program_writes_from(image, offset + n)
    }
}

/// The packets that install a SmartApplet image: the add-applet command
/// with the fields of its header, the programmed chunks, and the finalize
/// command.
pub open spec fn applet_install_writes(image: Seq<u8>) -> Seq<Seq<u8>> {
    let fields = add_applet_start_fields(
        be_u32_at(image, 4) as u32,
        be_u32_at(image, 8) as u32,
        be_u32_at(image, 0x80) as u32,
    );
    seq![command_packet(0x06, fields.0, fields.1)] + program_writes_from(image, 0) + seq![command_packet(0x07, 0, 0)]
}

/// The packets that flash a NEO System image whose segment table lists
/// `segs`: enter the Small ROM, clear the segment map, erase each segment,
/// program the chunks, and finalize.
pub open spec fn os_install_writes(segs: Seq<OsFlashSegment>, image: Seq<u8>, reformat_rest_of_rom: bool) -> Seq<
    Seq<u8>,
> {
    seq![command_packet(0x18, 0, 0), command_packet(0x16, 0, 0)] + erase_writes(segs, reformat_rest_of_rom)
        + program_writes_from(image, 0) + seq![command_packet(0x07, 0, 0)]
}

/// A prefix of the middle of a sequence, after its head, is a prefix of the
/// whole.
proof fn lemma_prefix_within(head: Seq<Seq<u8>>, w: Seq<Seq<u8>>, middle: Seq<Seq<u8>>, tail: Seq<Seq<u8>>)
    requires
        w.is_prefix_of(middle),
    ensures
        (head + w).is_prefix_of(head + middle + tail),
{
    assert(head + w =~= (head + middle + tail).subrange(0, (head.len() + w.len()) as int));
}

/// What was sent before, followed by the first `i` packets of a step, is a
/// prefix of what was sent before followed by the whole step and the rest.
proof fn lemma_prefix_step(before: Seq<Seq<u8>>, step: Seq<Seq<u8>>, rest: Seq<Seq<u8>>, i: int)
    requires
        0 <= i <= step.len(),
    ensures
        (before + step.subrange(0, i)).is_prefix_of(before + step + rest),
{
    assert(before + step.subrange(0, i) =~= (before + step + rest).subrange(0, before.len() + i));
}

/// Whether `reads` are the replies of programmed chunks: 0x42, 0x43 and 0x47
/// for each chunk.
pub open spec fn program_replies(reads: Seq<Seq<u8>>) -> bool
    decreases reads.len(),
{
    if reads.len() == 0 {
        true
    } else if reads.len() < 3 {
        false
    } else {
        let n = reads.len() as int;
        program_replies(reads.subrange(0, n - 3)) && reply_with(reads[n - 3], 0x42) && reply_with(
            reads[n - 2],
            0x43,
        ) && reply_with(reads[n - 1], 0x47)
    }
}

/// Number of 0x400-byte chunks of an image of `len` bytes.
pub open spec fn chunk_count(len: int) -> int {
    if len % 0x400 == 0 { len / 0x400 } else { len / 0x400 + 1 }
}

/// Kilobytes to erase for a segment: its length rounded up to whole
/// kilobytes (kept to 16 bits), or nothing for the last segment at 0x5FFC00
/// when the rest of the ROM is being reformatted.
pub open spec fn erase_kb(seg: OsFlashSegment, reformat_rest_of_rom: bool) -> u16 {
    if reformat_rest_of_rom && seg.address == 0x005F_FC00 {
        0
    } else {
        ((seg.length as int + 0x3FF) / 1024 % 0x1_0000) as u16
    }
}

/// The erase commands for a segment table.
pub open spec fn erase_writes(segs: Seq<OsFlashSegment>, reformat_rest_of_rom: bool) -> Seq<Seq<u8>> {
    Seq::new(segs.len(), |i: int| command_packet(0x17, segs[i].address, erase_kb(segs[i], reformat_rest_of_rom)))
}

/// The attribute requests for AlphaWord slots 1 through `n`.
pub open spec fn attribute_requests(n: nat) -> Seq<Seq<u8>> {
    Seq::new(n, |i: int| command_packet(0x13, (i + 1) as u32, 0xA000))
}

/// Whether `e` is the file entry that attribute record `p` of slot `slot`
/// describes.
pub open spec fn entry_from(e: FileEntry, slot: int, p: Seq<u8>) -> bool {
    &&& e.slot == slot
    &&& p.len() == 0x28
    &&& e.name@ == field_text(p.subrange(0, 0x18))
    &&& e.attribute_bytes as int == be_u32_at(p, 0x1c)
}

/// Whether every packet of `sent` lists a page of seven applets, the first
/// from offset zero.
pub open spec fn applet_list_requests(sent: Seq<Seq<u8>>) -> bool {
    &&& sent.len() >= 1
    &&& sent[0] == command_packet(0x04, 0, 7)
    &&& forall|i: int| 0 <= i < sent.len() ==> exists|off: u32| #[trigger] sent[i] == command_packet(0x04, off, 7)
}

/// A client of the updater protocol over transport `T`.
pub struct SharedNeoClient<T: DirectTransport> {
    transport: T,
    sent_log: Ghost<Seq<Seq<u8>>>,
    received_log: Ghost<Seq<Seq<u8>>>,
    failure_log: Ghost<nat>,
    progress_log: Ghost<Seq<NeoClientProgress>>,
}

impl<T: DirectTransport> SharedNeoClient<T> {
    /// Every payload written to the transport so far, in order.
    pub closed spec fn sent(&self) -> Seq<Seq<u8>> {
        self.sent_log@
    }

    /// Every payload read from the transport so far, in order.
    pub closed spec fn received(&self) -> Seq<Seq<u8>> {
        self.received_log@
    }

    /// Every progress event handed to a progress callback so far, in order.
    pub closed spec fn reported(&self) -> Seq<NeoClientProgress> {
        self.progress_log@
    }

    /// How many transport calls have failed so far.
    pub closed spec fn failures(&self) -> nat {
        self.failure_log@
    }

    fn write(&mut self, payload: &[u8]) -> (r: Result<(), ClientError>)
        ensures
            final(self).reported() == old(self).reported(),
            final(self).sent() == old(self).sent().push(payload@),
            final(self).received() == old(self).received(),
            r is Ok ==> final(self).failures() == old(self).failures(),
            r matches Err(e) ==> e is Transport && final(self).failures() == old(self).failures() + 1,
    {
        proof {
            self.sent_log@ = self.sent_log@.push(payload@);
        }
        match self.transport.write(payload) {
            Ok(()) => Ok(()),
            Err(e) => {
                proof {
                    self.failure_log@ = self.failure_log@ + 1;
                }
                Err(ClientError::Transport(e))
            },
        }
    }

    fn read_exact_timeout(&mut self, len: usize, timeout: Duration) -> (r: Result<Vec<u8>, ClientError>)
        ensures
            final(self).reported() == old(self).reported(),
            final(self).sent() == old(self).sent(),
            match r {
                Ok(v) => final(self).received() == old(self).received().push(v@)
                    && final(self).failures() == old(self).failures(),
                Err(e) => final(self).received() == old(self).received() && e is Transport
                    && final(self).failures() == old(self).failures() + 1,
            },
    {
        match self.transport.read_exact(len, timeout) {
            Ok(v) => {
                proof {
                    self.received_log@ = self.received_log@.push(v@);
                }
                Ok(v)
            },
            Err(e) => {
                proof {
                    self.failure_log@ = self.failure_log@ + 1;
                }
                Err(ClientError::Transport(e))
            },
        }
    }

    fn read_response_timeout(&mut self, timeout: Duration) -> (r: Result<Response, ClientError>)
        ensures
            final(self).reported() == old(self).reported(),
            final(self).sent() == old(self).sent(),
            extends(final(self).received(), old(self).received()),
            r is Ok ==> final(self).received().len() == old(self).received().len() + 1
                && final(self).received().drop_last() == old(self).received()
                && response_of(final(self).received().last()) == Ok::<Response, ProtocolError>(r->Ok_0),
            final(self).failures() != old(self).failures() ==> final(self).failures() == old(self).failures() + 1
                && final(self).received() == old(self).received() && r matches Err(ClientError::Transport(_)),
            final(self).failures() == old(self).failures() ==> final(self).received().len() == old(self).received().len() + 1
                && final(self).received().drop_last() == old(self).received()
                && match response_of(final(self).received().last()) {
                    Ok(resp) => r == Ok::<Response, ClientError>(resp),
                    Err(e) => r matches Err(ClientError::Protocol(pe)) && pe == e,
                },
    {
        let raw = self.read_exact_timeout(8, timeout)?;
        assert(final(self).received().subrange(0, old(self).received().len() as int) =~= old(self).received());
        match parse_response(raw.as_slice()) {
            Ok(resp) => {
                assert(final(self).received().drop_last() =~= old(self).received());
                Ok(resp)
            },
            Err(e) => Err(ClientError::Protocol(e)),
        }
    }

    fn require_status_timeout(&mut self, expected: u8, timeout: Duration) -> (r: Result<(), ClientError>)
        ensures
            final(self).reported() == old(self).reported(),
            final(self).sent() == old(self).sent(),
            extends(final(self).received(), old(self).received()),
            r is Ok ==> final(self).received().len() == old(self).received().len() + 1
                && final(self).received().drop_last() == old(self).received()
                && reply_with(final(self).received().last(), expected),
            final(self).failures() != old(self).failures() ==> final(self).failures() == old(self).failures() + 1
                && final(self).received() == old(self).received() && r matches Err(ClientError::Transport(_)),
            final(self).failures() == old(self).failures() ==> final(self).received().len() == old(self).received().len() + 1
                && final(self).received().drop_last() == old(self).received()
                && match response_of(final(self).received().last()) {
                    Ok(resp) => if resp.status == expected {
                        r is Ok
                    } else {
                        r matches Err(ClientError::UnexpectedStatus { expected: x, got: g }) && x == expected
                            && g == resp.status
                    },
                    Err(e) => r matches Err(ClientError::Protocol(pe)) && pe == e,
                },
    {
        let response = self.read_response_timeout(timeout)?;
        if response.status != expected {
            return Err(ClientError::UnexpectedStatus { expected, got: response.status });
        }
        Ok(())
    }

    /// Sends one command and waits for the reply that acknowledges it.
    fn command_with_reply(&mut self, packet: &[u8], expected: u8, timeout: Duration) -> (r: Result<(), ClientError>)
        ensures
            final(self).reported() == old(self).reported(),
            final(self).sent() == old(self).sent().push(packet@),
            extends(final(self).received(), old(self).received()),
            r is Ok ==> final(self).received().len() == old(self).received().len() + 1
                && final(self).received().drop_last() == old(self).received()
                && reply_with(final(self).received().last(), expected),
            final(self).failures() != old(self).failures() ==> final(self).failures() == old(self).failures() + 1
                && final(self).received() == old(self).received() && r matches Err(ClientError::Transport(_)),
            final(self).failures() == old(self).failures() ==> final(self).received().len() == old(self).received().len() + 1
                && final(self).received().drop_last() == old(self).received()
                && unit_outcome(r, status_outcome(seq![final(self).received().last()], seq![expected])),
    {
        self.write(packet)?;
        let r = self.require_status_timeout(expected, timeout);
        proof {
            let x = self.received().last();
            assert(seq![x].drop_first() =~= Seq::<Seq<u8>>::empty());
            assert(seq![expected].drop_first() =~= Seq::<u8>::empty());
            assert(status_outcome(Seq::<Seq<u8>>::empty(), Seq::<u8>::empty()) == Some(Ok::<(), ClientError>(())));
        }
        r
    }

    /// Resets the device's updater, switches it into updater mode, and checks
    /// that it answers "Switched".
    pub fn new(transport: T) -> (r: Result<Self, ClientError>)
        ensures
            r matches Ok(c) ==> c.sent() == seq![reset_bytes(), switch_bytes()]
                && c.received() == seq![switched_bytes()],
            r matches Err(e) ==> e is Transport || (e matches ClientError::UnexpectedSwitchResponse { response }
                && response@ != switched_bytes()),
    {
        let mut client = SharedNeoClient {
            transport,
            sent_log: Ghost(Seq::empty()),
            received_log: Ghost(Seq::empty()),
            failure_log: Ghost(0),
            progress_log: Ghost(Seq::empty()),
        };
        client.enter_updater_mode()?;
        assert(client.sent() =~= seq![reset_bytes(), switch_bytes()]);
        assert(client.received() =~= seq![switched_bytes()]);
        Ok(client)
    }

    /// Sends the reset and switch packets and reads the 8-byte answer: `Ok`
    /// exactly when the transport did not fail and the answer is "Switched".
    pub fn enter_updater_mode(&mut self) -> (r: Result<(), ClientError>)
        ensures
            final(self).reported() == old(self).reported(),
            since(final(self).sent(), old(self).sent()).is_prefix_of(seq![reset_bytes(), switch_bytes()]),
            extends(final(self).sent(), old(self).sent()),
            final(self).failures() != old(self).failures() ==> final(self).failures() == old(self).failures() + 1
                && final(self).received() == old(self).received() && r matches Err(ClientError::Transport(_)),
            final(self).failures() == old(self).failures() ==> {
                &&& final(self).sent() == old(self).sent() + seq![reset_bytes(), switch_bytes()]
                &&& final(self).received().len() == old(self).received().len() + 1
                &&& final(self).received().drop_last() == old(self).received()
                &&& (r is Ok <==> final(self).received().last() == switched_bytes())
                &&& (r matches Err(e) ==> e matches ClientError::UnexpectedSwitchResponse { response }
                    && response@ == final(self).received().last())
            },
    {
        let reset = reset_packet();
        match self.write(reset.as_slice()) {
            Ok(()) => {},
            Err(e) => {
                assert(since(self.sent(), old(self).sent()) =~= seq![reset_bytes(), switch_bytes()].subrange(0, 1));
                return Err(e);
            },
        }
        let switch = switch_packet();
        match self.write(switch.as_slice()) {
            Ok(()) => {},
            Err(e) => {
                assert(since(self.sent(), old(self).sent()) =~= seq![reset_bytes(), switch_bytes()]);
                return Err(e);
            },
        }
        assert(since(self.sent(), old(self).sent()) =~= seq![reset_bytes(), switch_bytes()]);
        assert(self.sent() =~= old(self).sent() + seq![reset_bytes(), switch_bytes()]);
        let response = self.read_exact_timeout(8, default_timeout())?;
        assert(self.received().drop_last() =~= old(self).received());
        if !is_switched(response.as_slice()) {
            return Err(ClientError::UnexpectedSwitchResponse { response });
        }
        Ok(())
    }

    /// The transport the client talks through.
    pub closed spec fn transport_spec(&self) -> T {
        self.transport
    }

    /// The transport the client talks through.
    pub fn transport(&self) -> (r: &T)
        ensures
            *r == self.transport_spec(),
    {
        &self.transport
    }

    /// Reads chunks until `total` bytes have arrived; an empty chunk is
    /// followed by another request, until `u64::MAX` empty chunks have come.
    fn read_chunks(&mut self, total: u32) -> (r: Result<Vec<u8>, ClientError>)
        ensures
            extends(final(self).received(), old(self).received()),
            extends(final(self).sent(), old(self).sent()),
            total > 0 ==> sends_first(final(self).sent(), old(self).sent(), command_packet(0x10, 0, 0)),
            total == 0 ==> (r matches Ok(p) && p@.len() == 0 && final(self).sent() == old(self).sent()
                && final(self).received() == old(self).received()),
            final(self).sent() == old(self).sent() + chunk_requests(
                (final(self).sent().len() - old(self).sent().len()) as nat,
            ),
            final(self).failures() != old(self).failures() ==> final(self).failures() == old(self).failures() + 1
                && r matches Err(ClientError::Transport(_)),
            final(self).failures() == old(self).failures() ==> bytes_outcome(
                r,
                chunks_outcome(
                    final(self).received().subrange(old(self).received().len() as int, final(self).received().len() as int),
                    total as nat,
                ),
            ),
            r matches Ok(p) ==> ({
                let got = final(self).received().subrange(
                    old(self).received().len() as int,
                    final(self).received().len() as int,
                );
                &&& got.len() % 2 == 0
                &&& chunks_fold(got, total as nat) matches Some((q, owed, _))
                &&& q == p@ && owed == 0
                &&& final(self).sent() == old(self).sent() + chunk_requests(got.len() / 2)
            }),
    {
        let ghost start_received = self.received();
        let ghost start_sent = self.sent();
        let mut remaining: u32 = total;
        let mut empties: u64 = 0;
        let mut payload: Vec<u8> = Vec::new();
        proof {
            assert(self.received().subrange(0, start_received.len() as int) =~= start_received);
            assert(self.received().subrange(start_received.len() as int, self.received().len() as int) =~= Seq::<Seq<u8>>::empty());
            assert(self.sent() =~= start_sent + chunk_requests(0));
        }
        while remaining > 0
            invariant
                start_received == old(self).received(),
                start_sent == old(self).sent(),
                remaining <= total,
                self.failures() == old(self).failures(),
                total == 0 ==> payload@.len() == 0 && self.sent() == start_sent
                    && self.received() == start_received,
                self.received().len() >= start_received.len(),
                self.received().subrange(0, start_received.len() as int) == start_received,
                ({
                    let got = self.received().subrange(start_received.len() as int, self.received().len() as int);
                    &&& got.len() % 2 == 0
                    &&& chunks_fold(got, total as nat) == Some((payload@, remaining as nat, empties as nat))
                    &&& self.sent() == start_sent + chunk_requests(got.len() / 2)
                }),
            decreases remaining, u64::MAX - empties,
        {
            if empties == u64::MAX {
                return Err(ClientError::TooManyEmptyChunks);
            }
            let ghost got0 = self.received().subrange(start_received.len() as int, self.received().len() as int);
            let request = crate::protocol::retrieve_chunk_command();
            let ghost sw = self.sent();
            self.write(request.as_slice())?;
            proof {
                if got0.len() > 0 {
                    assert(sw[start_sent.len() as int] == chunk_requests(got0.len() / 2)[0]);
                }
                assert(sends_first(self.sent(), start_sent, command_packet(0x10, 0, 0)));
            }
            proof {
                assert(self.sent() =~= start_sent + chunk_requests((got0.len() / 2 + 1) as nat));
            }
            let chunk = match self.read_response_timeout(default_timeout()) {
                Ok(c) => c,
                Err(e) => {
                    proof {
                        if self.failures() == old(self).failures() {
                            let got = self.received().subrange(start_received.len() as int, self.received().len() as int);
                            assert(got.subrange(0, got.len() - 1) =~= got0);
                            assert(got[got.len() - 1] == self.received().last());
                        }
                    }
                    return Err(e);
                },
            };
            if chunk.status != 0x4D {
                proof {
                    let got = self.received().subrange(start_received.len() as int, self.received().len() as int);
                    assert(got.subrange(0, got.len() - 1) =~= got0);
                    assert(got[got.len() - 1] == self.received().last());
                }
                return Err(ClientError::ChunkStatus { status: chunk.status });
            }
            let ghost reply = self.received().last();
            let bytes = self.read_exact_timeout(chunk.argument as usize, default_timeout())?;
            assert(self.received().subrange(0, start_received.len() as int) =~= start_received);
            proof {
                let got = self.received().subrange(start_received.len() as int, self.received().len() as int);
                assert(got.subrange(0, got.len() - 2) =~= got0);
                assert(got[got.len() - 1] == bytes@);
                assert(got[got.len() - 2] == reply);
            }
            match validate_payload_sum(bytes.as_slice(), chunk.trailing) {
                Ok(()) => {},
                Err(e) => {
                    return Err(e);
                },
            }
            let ghost before = payload@;
            if bytes.len() == 0 {
                empties = empties + 1;
            } else {
                remaining = if (bytes.len() as u64) >= (remaining as u64) { 0 } else { remaining - bytes.len() as u32 };
                let mut i: usize = 0;
                while i < bytes.len()
                    invariant
                        i <= bytes@.len(),
                        payload@ == before + bytes@.subrange(0, i as int),
                    decreases bytes@.len() - i,
                {
                    payload.push(bytes[i]);
                    i = i + 1;
                    assert(payload@ =~= before + bytes@.subrange(0, i as int));
                }
            }
            proof {
                assert(bytes@.subrange(0, bytes@.len() as int) =~= bytes@);
                let got = self.received().subrange(start_received.len() as int, self.received().len() as int);
                assert(self.received().subrange(0, start_received.len() as int) =~= start_received);
                assert(got.subrange(0, got.len() - 2) =~= got0);
                assert(got[got.len() - 1] == bytes@);
                assert(self.sent() =~= start_sent + chunk_requests(got.len() / 2));
            }
        }
        Ok(payload)
    }

    /// Sends a retrieval start command and reads the announced data.
    fn retrieve(&mut self, packet: &[u8; 8]) -> (r: Result<Vec<u8>, ClientError>)
        ensures
            extends(final(self).received(), old(self).received()),
            extends(final(self).sent(), old(self).sent()),
            sends_first(final(self).sent(), old(self).sent(), packet@),
            retrieval_requests(final(self).sent(), old(self).sent(), packet@),
            final(self).failures() != old(self).failures() ==> final(self).failures() == old(self).failures() + 1
                && r matches Err(ClientError::Transport(_)),
            final(self).failures() == old(self).failures() ==> bytes_outcome(
                r,
                retrieval_outcome(since(final(self).received(), old(self).received())),
            ),
            r matches Ok(p) ==> ({
                let got = final(self).received().subrange(
                    old(self).received().len() as int,
                    final(self).received().len() as int,
                );
                &&& retrieval_payload(got) == Some(p@)
                &&& final(self).sent() == old(self).sent().push(packet@) + chunk_requests(
                    ((got.len() - 1) / 2) as nat,
                )
            }),
    {
        self.write(packet.as_slice())?;
        let ghost mid_sent = self.sent();
        proof {
            assert(self.sent() =~= old(self).sent().push(packet@) + chunk_requests(0));
        }
        let start = match self.read_response_timeout(default_timeout()) {
            Ok(s) => s,
            Err(e) => {
                proof {
                    let got = since(self.received(), old(self).received());
                    if self.failures() == old(self).failures() {
                        assert(got[0] == self.received().last());
                    }
                }
                return Err(e);
            },
        };
        let ghost mid = self.received();
        proof {
            let got = since(self.received(), old(self).received());
            assert(got[0] == mid.last());
        }
        if start.status != 0x53 {
            return Err(ClientError::RetrieveStartStatus { status: start.status });
        }
        let r = self.read_chunks(start.argument);
        proof {
            let got = since(self.received(), old(self).received());
            let chunks = since(self.received(), mid);
            assert(got[0] == mid.last());
            assert(got.subrange(1, got.len() as int) =~= chunks);
            assert(self.sent() =~= old(self).sent().push(packet@) + chunk_requests(
                (self.sent().len() - old(self).sent().len() - 1) as nat,
            ));
        }
        let payload = match r {
            Ok(p) => p,
            Err(e) => {
                return Err(e);
            },
        };
        proof {
            let got = self.received().subrange(old(self).received().len() as int, self.received().len() as int);
            let chunks = self.received().subrange(mid.len() as int, self.received().len() as int);
            assert(got[0] == mid.last());
            assert(got.subrange(1, got.len() as int) =~= chunks);
            assert((got.len() - 1) / 2 == chunks.len() / 2);
        }
        Ok(payload)
    }

    /// Downloads the raw contents of AlphaWord file `slot`.
    pub fn download_file(&mut self, slot: u8) -> (r: Result<Vec<u8>, ClientError>)
        ensures
            extends(final(self).received(), old(self).received()),
            extends(final(self).sent(), old(self).sent()),
            sends_first(final(self).sent(), old(self).sent(), command_packet(0x12, 0x0800_0000u32 | slot as u32, 0xA000)),
            retrieval_requests(final(self).sent(), old(self).sent(), command_packet(0x12, 0x0800_0000u32 | slot as u32, 0xA000)),
            final(self).failures() != old(self).failures() ==> final(self).failures() == old(self).failures() + 1
                && r matches Err(ClientError::Transport(_)),
            final(self).failures() == old(self).failures() ==> bytes_outcome(
                r,
                retrieval_outcome(since(final(self).received(), old(self).received())),
            ),
            r matches Ok(p) ==> ({
                let got = final(self).received().subrange(
                    old(self).received().len() as int,
                    final(self).received().len() as int,
                );
                &&& retrieval_payload(got) == Some(p@)
                &&& final(self).sent() == old(self).sent().push(
                    command_packet(0x12, 0x0800_0000u32 | slot as u32, 0xA000),
                ) + chunk_requests(((got.len() - 1) / 2) as nat)
            }),
    {
        let argument = 0x0800_0000u32 | slot as u32;
        let packet = command(0x12, argument, crate::protocol::ALPHAWORD_APPLET_ID);
        self.retrieve(&packet)
    }

    /// Downloads the image of the SmartApplet `applet_id`.
    pub fn download_smart_applet(&mut self, applet_id: u16) -> (r: Result<Vec<u8>, ClientError>)
        ensures
            extends(final(self).received(), old(self).received()),
            extends(final(self).sent(), old(self).sent()),
            sends_first(final(self).sent(), old(self).sent(), command_packet(0x0F, 0, applet_id)),
            retrieval_requests(final(self).sent(), old(self).sent(), command_packet(0x0F, 0, applet_id)),
            final(self).failures() != old(self).failures() ==> final(self).failures() == old(self).failures() + 1
                && r matches Err(ClientError::Transport(_)),
            final(self).failures() == old(self).failures() ==> bytes_outcome(
                r,
                retrieval_outcome(since(final(self).received(), old(self).received())),
            ),
            r matches Ok(p) ==> ({
                let got = final(self).received().subrange(
                    old(self).received().len() as int,
                    final(self).received().len() as int,
                );
                &&& retrieval_payload(got) == Some(p@)
                &&& final(self).sent() == old(self).sent().push(command_packet(0x0F, 0, applet_id))
                    + chunk_requests(((got.len() - 1) / 2) as nat)
            }),
    {
        let packet = crate::protocol::retrieve_applet_command(applet_id);
        self.retrieve(&packet)
    }

    /// Sends `image` in chunks of 0x400 bytes, programming each one.
    #[verifier::spinoff_prover]
    #[verifier::rlimit(50)]
    fn write_chunks_and_program<F: FnMut(NeoClientProgress)>(
        &mut self,
        image: &[u8],
        label: &'static str,
        on_progress: &mut F,
    ) -> (r: Result<usize, ClientError>)
        requires
            forall|e: NeoClientProgress| call_requires(*old(on_progress), (e,)),
        ensures
            extends(final(self).sent(), old(self).sent()),
            extends(final(self).received(), old(self).received()),
            image@.len() > 0 ==> sends_first(final(self).sent(), old(self).sent(), program_writes_from(image@, 0)[0]),
            image@.len() == 0 ==> r == Ok::<usize, ClientError>(0) && final(self).sent() == old(self).sent()
                && final(self).received() == old(self).received(),
            since(final(self).sent(), old(self).sent()).is_prefix_of(program_writes_from(image@, 0)),
            final(self).failures() != old(self).failures() ==> final(self).failures() == old(self).failures() + 1
                && r matches Err(ClientError::Transport(_)),
            final(self).failures() == old(self).failures() ==> match r {
                Ok(_) => status_outcome(since(final(self).received(), old(self).received()), program_statuses(
                    chunk_count(image@.len() as int) as nat,
                )) == Some(Ok::<(), ClientError>(())),
                Err(e) => status_outcome(since(final(self).received(), old(self).received()), program_statuses(
                    chunk_count(image@.len() as int) as nat,
                )) == Some(Err::<(), ClientError>(e)),
            },
            final(self).reported().len() - old(self).reported().len() <= chunk_count(image@.len() as int),
            final(self).reported() == old(self).reported() + chunk_events(
                label,
                chunk_count(image@.len() as int) as nat,
                (final(self).reported().len() - old(self).reported().len()) as nat,
            ),
            r is Ok ==> final(self).reported().len() - old(self).reported().len() == chunk_count(image@.len() as int),
            r matches Ok(n) ==> ({
                let got = final(self).received().subrange(
                    old(self).received().len() as int,
                    final(self).received().len() as int,
                );
                &&& n == chunk_count(image@.len() as int)
                &&& program_replies(got)
                &&& final(self).sent() == old(self).sent() + program_writes_from(image@, 0)
            }),
    {
        let ghost start_sent = self.sent();
        let ghost start_received = self.received();
        let total = if image.len() % 0x400 == 0 { image.len() / 0x400 } else { image.len() / 0x400 + 1 };
        let mut chunks: usize = 0;
        let mut offset: usize = 0;
        proof {
            assert(self.sent() =~= start_sent + Seq::<Seq<u8>>::empty());
            assert(self.received().subrange(start_received.len() as int, self.received().len() as int) =~= Seq::<Seq<u8>>::empty());
        }
        while offset < image.len()
            invariant
                start_sent == old(self).sent(),
                start_received == old(self).received(),
                offset <= image@.len(),
                offset == 0 ==> self.sent() == start_sent && self.received() == start_received,
                offset > 0 ==> sends_first(self.sent(), start_sent, program_writes_from(image@, 0)[0]),
                self.failures() == old(self).failures(),
                since(self.received(), start_received).len() == 3 * chunks,
                status_outcome(since(self.received(), start_received), program_statuses(total as nat).subrange(
                    0,
                    3 * chunks,
                )) == Some(Ok::<(), ClientError>(())),
                self.reported() == old(self).reported() + chunk_events(label, total as nat, chunks as nat),
                offset % 0x400 == 0 || offset == image@.len(),
                chunks == chunk_count(offset as int),
                total == chunk_count(image@.len() as int),
                forall|e: NeoClientProgress| call_requires(*on_progress, (e,)),
                extends(self.received(), start_received),
                program_replies(self.received().subrange(start_received.len() as int, self.received().len() as int)),
                ({
                    let written = self.sent().subrange(start_sent.len() as int, self.sent().len() as int);
                    &&& extends(self.sent(), start_sent)
                    &&& program_writes_from(image@, 0) == written + program_writes_from(image@, offset as int)
                }),
            decreases image@.len() - offset,
        {
            let ghost sent0 = self.sent();
            let ghost received0 = self.received();
            let n: usize = if image.len() - offset < 0x400 { image.len() - offset } else { 0x400 };
            let chunk = crate::text::copy_range(image, offset, n);
            let checksum = checksum16(chunk.as_slice());
            let size_packet = command(0x02, n as u32, checksum);
            let ghost step = seq![command_packet(0x02, n as u32, sum16(chunk@)), chunk@, command_packet(0x0B, 0, 0)];
            let ghost w0 = since(self.sent(), start_sent);
            proof {
                assert(program_writes_from(image@, offset as int)[0] == size_packet@);
                assert(program_writes_from(image@, offset as int) == step + program_writes_from(image@, offset + n));
                assert(program_writes_from(image@, 0) =~= w0 + step + program_writes_from(image@, offset + n));
            }
            let ghost full = program_statuses(total as nat);
            proof {
                assert(chunks < total) by (nonlinear_arith)
                    requires offset < image@.len(), offset % 0x400 == 0, chunks == chunk_count(offset as int),
                        total == chunk_count(image@.len() as int);
                lemma_program_statuses_prefix((chunks + 1) as nat, total as nat);
                lemma_program_statuses_prefix(chunks as nat, (chunks + 1) as nat);
                assert(full.subrange(0, 3 * chunks + 3) == program_statuses(chunks as nat) + seq![0x42u8, 0x43, 0x47]);
                assert(full[3 * chunks] == 0x42 && full[3 * chunks + 1] == 0x43 && full[3 * chunks + 2] == 0x47) by {
                    assert(full[3 * chunks] == full.subrange(0, 3 * chunks + 3)[3 * chunks]);
                    assert(full[3 * chunks + 1] == full.subrange(0, 3 * chunks + 3)[3 * chunks + 1]);
                    assert(full[3 * chunks + 2] == full.subrange(0, 3 * chunks + 3)[3 * chunks + 2]);
                }
            }
            let ghost g0 = since(self.received(), start_received);
            match self.command_with_reply(size_packet.as_slice(), 0x42, millis(5_000)) {
                Ok(()) => {},
                Err(e) => {
                    proof {
                        if self.failures() == old(self).failures() {
                            assert(since(self.received(), start_received) =~= g0.push(self.received().last()));
                            lemma_exchange_err(g0, full, 3 * chunks, self.received().last());
                        }
                        assert(since(self.sent(), start_sent) =~= w0 + step.subrange(0, 1));
                        lemma_prefix_step(w0, step, program_writes_from(image@, offset + n), 1);
                    }
                    return Err(e);
                },
            }
            proof {
                assert(since(self.received(), start_received) =~= g0.push(self.received().last()));
                lemma_exchange_ok(g0, full, 3 * chunks, self.received().last());
            }
            let ghost g1 = since(self.received(), start_received);
            match self.command_with_reply(chunk.as_slice(), 0x43, millis(10_000)) {
                Ok(()) => {},
                Err(e) => {
                    proof {
                        if self.failures() == old(self).failures() {
                            assert(since(self.received(), start_received) =~= g1.push(self.received().last()));
                            lemma_exchange_err(g1, full, 3 * chunks + 1, self.received().last());
                        }
                        assert(since(self.sent(), start_sent) =~= w0 + step.subrange(0, 2));
                        lemma_prefix_step(w0, step, program_writes_from(image@, offset + n), 2);
                    }
                    return Err(e);
                },
            }
            proof {
                assert(since(self.received(), start_received) =~= g1.push(self.received().last()));
                lemma_exchange_ok(g1, full, 3 * chunks + 1, self.received().last());
            }
            let ghost g2 = since(self.received(), start_received);
            let program = crate::protocol::program_applet_command();
            match self.command_with_reply(program.as_slice(), 0x47, millis(120_000)) {
                Ok(()) => {},
                Err(e) => {
                    proof {
                        if self.failures() == old(self).failures() {
                            assert(since(self.received(), start_received) =~= g2.push(self.received().last()));
                            lemma_exchange_err(g2, full, 3 * chunks + 2, self.received().last());
                        }
                        assert(since(self.sent(), start_sent) =~= w0 + step.subrange(0, 3));
                        lemma_prefix_step(w0, step, program_writes_from(image@, offset + n), 3);
                    }
                    return Err(e);
                },
            }
            proof {
                assert(since(self.received(), start_received) =~= g2.push(self.received().last()));
                lemma_exchange_ok(g2, full, 3 * chunks + 2, self.received().last());
            }
            chunks = chunks + 1;
            proof {
                let got0 = received0.subrange(start_received.len() as int, received0.len() as int);
                let got = self.received().subrange(start_received.len() as int, self.received().len() as int);
                assert(got.subrange(0, got.len() - 3) =~= got0);
                let w0 = sent0.subrange(start_sent.len() as int, sent0.len() as int);
                let w = self.sent().subrange(start_sent.len() as int, self.sent().len() as int);
                let step = seq![command_packet(0x02, n as u32, sum16(chunk@)), chunk@, command_packet(0x0B, 0, 0)];
                assert(w =~= w0 + step);
                assert(program_writes_from(image@, offset as int) == step + program_writes_from(image@, offset + n));
                assert(w0 + (step + program_writes_from(image@, offset + n)) =~= w + program_writes_from(image@, offset + n));
            }
            on_progress(NeoClientProgress::ChunkProgrammed { label, completed: chunks, total });
            proof {
                let ev = NeoClientProgress::ChunkProgrammed { label, completed: chunks, total };
                self.progress_log@ = self.progress_log@.push(ev);
                assert(chunk_events(label, total as nat, chunks as nat) =~= chunk_events(
                    label,
                    total as nat,
                    (chunks - 1) as nat,
                ).push(ev));
            }
            offset = offset + n;
        }
        proof {
            let w = self.sent().subrange(start_sent.len() as int, self.sent().len() as int);
            assert(w + Seq::<Seq<u8>>::empty() =~= w);
            assert(self.sent() =~= start_sent + w);
            lemma_program_statuses_prefix(total as nat, total as nat);
            assert(program_statuses(total as nat).subrange(0, 3 * chunks) =~= program_statuses(total as nat));
            assert(program_writes_from(image@, offset as int) =~= Seq::<Seq<u8>>::empty());
            assert(since(self.sent(), start_sent) =~= program_writes_from(image@, 0));
        }
        Ok(chunks)
    }

    /// Installs a SmartApplet image, reporting each programmed chunk.
    pub fn install_smart_applet_with_progress<F: FnMut(NeoClientProgress)>(
        &mut self,
        image: &[u8],
        mut on_progress: F,
    ) -> (r: Result<SmartAppletRecord, ClientError>)
        requires
            forall|e: NeoClientProgress| call_requires(on_progress, (e,)),
        ensures
            extends(final(self).sent(), old(self).sent()),
            extends(final(self).received(), old(self).received()),
            image@.len() < SMARTAPPLET_HEADER_SIZE ==> r == Err::<SmartAppletRecord, ClientError>(
                ClientError::ImageShorterThanHeader,
            ) && final(self).sent() == old(self).sent() && final(self).received() == old(self).received(),
            image@.len() >= SMARTAPPLET_HEADER_SIZE && be_u32_at(image@, 4) != image@.len()
                ==> r == Err::<SmartAppletRecord, ClientError>(
                ClientError::ImageSizeMismatch { declared: be_u32_at(image@, 4) as u32, actual: image@.len() as usize },
            ) && final(self).sent() == old(self).sent() && final(self).received() == old(self).received(),
            since(final(self).sent(), old(self).sent()).is_prefix_of(applet_install_writes(image@)),
            final(self).failures() != old(self).failures() ==> final(self).failures() == old(self).failures() + 1
                && r matches Err(ClientError::Transport(_)),
            image@.len() >= SMARTAPPLET_HEADER_SIZE && be_u32_at(image@, 4) == image@.len()
                && final(self).failures() == old(self).failures() ==> match r {
                Ok(_) => status_outcome(since(final(self).received(), old(self).received()), applet_statuses(
                    chunk_count(image@.len() as int) as nat,
                )) == Some(Ok::<(), ClientError>(())),
                Err(e) => status_outcome(since(final(self).received(), old(self).received()), applet_statuses(
                    chunk_count(image@.len() as int) as nat,
                )) == Some(Err::<(), ClientError>(e)),
            },
            final(self).reported().len() - old(self).reported().len() <= chunk_count(image@.len() as int),
            final(self).reported() == old(self).reported() + chunk_events(
                "add-applet",
                chunk_count(image@.len() as int) as nat,
                (final(self).reported().len() - old(self).reported().len()) as nat,
            ),
            r is Ok ==> final(self).reported().len() - old(self).reported().len() == chunk_count(image@.len() as int),
            r matches Ok(rec) ==> ({
                let header = image@.subrange(0, 0x84);
                let fields = add_applet_start_fields(
                    be_u32_at(image@, 4) as u32,
                    be_u32_at(image@, 8) as u32,
                    be_u32_at(image@, 0x80) as u32,
                );
                let got = final(self).received().subrange(
                    old(self).received().len() as int,
                    final(self).received().len() as int,
                );
                &&& record_matches(rec, header)
                &&& be_u32_at(image@, 4) == image@.len()
                &&& final(self).sent() == old(self).sent() + seq![
                    command_packet(0x06, fields.0, fields.1),
                ] + program_writes_from(image@, 0) + seq![command_packet(0x07, 0, 0)]
                &&& got.len() >= 2 && reply_with(got[0], 0x46) && reply_with(got.last(), 0x48)
                    && program_replies(got.subrange(1, got.len() - 1))
            }),
    {
        if image.len() < SMARTAPPLET_HEADER_SIZE {
            return Err(ClientError::ImageShorterThanHeader);
        }
        let header_bytes = crate::text::copy_range(image, 0, SMARTAPPLET_HEADER_SIZE);
        let header = match parse_smartapplet_header(header_bytes.as_slice()) {
            Ok(h) => h,
            Err(e) => return Err(ClientError::Protocol(e)),
        };
        if header.file_size as usize != image.len() {
            return Err(ClientError::ImageSizeMismatch { declared: header.file_size, actual: image.len() });
        }
        let (argument, trailing) = derive_add_applet_start_fields(&header);
        let begin = crate::protocol::add_applet_begin_command(argument, trailing);
        proof {
            assert(header_bytes@ =~= image@.subrange(0, 0x84));
            assert(be_u32_at(image@, 4) == be_u32_at(header_bytes@, 4));
            assert(be_u32_at(image@, 8) == be_u32_at(header_bytes@, 8));
            assert(be_u32_at(image@, 0x80) == be_u32_at(header_bytes@, 0x80));
            assert(applet_install_writes(image@)[0] == begin@);
        }
        let ghost s0 = self.sent();
        let ghost r0 = self.received();
        let ghost n = chunk_count(image@.len() as int) as nat;
        let ghost full = applet_statuses(n);
        proof {
            lemma_program_statuses_prefix(n, n);
            assert(full.subrange(0, 0) =~= Seq::<u8>::empty());
            assert(since(self.received(), r0) =~= Seq::<Seq<u8>>::empty());
            assert(status_outcome(Seq::<Seq<u8>>::empty(), Seq::<u8>::empty()) == Some(Ok::<(), ClientError>(())));
            assert(full[0] == 0x46);
            assert(full[1 + 3 * n as int] == 0x48);
            assert(full.subrange(0, 1) =~= seq![0x46u8]);
            assert(full.subrange(1, full.len() as int) =~= program_statuses(n) + seq![0x48u8]);
            assert(full.subrange(0, 1 + 3 * n as int) =~= seq![0x46u8] + program_statuses(n));
            assert(self.reported() =~= self.reported() + chunk_events("add-applet", n, 0));
        }
        match self.command_with_reply(begin.as_slice(), 0x46, default_timeout()) {
            Ok(()) => {},
            Err(e) => {
                proof {
                    if self.failures() == old(self).failures() {
                        assert(since(self.received(), r0) =~= Seq::<Seq<u8>>::empty().push(self.received().last()));
                        lemma_exchange_err(Seq::empty(), full, 0, self.received().last());
                    }
                    assert(since(self.sent(), s0) =~= applet_install_writes(image@).subrange(0, 1));
                }
                return Err(e);
            },
        }
        let ghost s1 = self.sent();
        let ghost r1 = self.received();
        let ghost g1 = since(self.received(), r0);
        proof {
            assert(g1 =~= Seq::<Seq<u8>>::empty().push(self.received().last()));
            lemma_exchange_ok(Seq::empty(), full, 0, self.received().last());
        }
        let w = self.write_chunks_and_program(image, "add-applet", &mut on_progress);
        proof {
            let mid = since(self.received(), r1);
            assert(since(self.received(), r0) =~= g1 + mid);
            if self.failures() == old(self).failures() {
                if w is Ok {
                    lemma_status_outcome_ok_append(g1, full.subrange(0, 1), mid, program_statuses(n));
                } else {
                    lemma_status_outcome_ok_append(g1, full.subrange(0, 1), mid, program_statuses(n) + seq![0x48u8]);
                    lemma_status_outcome_err_extend(mid, program_statuses(n), seq![0x48u8]);
                    assert(full.subrange(0, 1) + (program_statuses(n) + seq![0x48u8]) =~= full);
                }
            }
        }
        proof {
            let pw = since(self.sent(), s1);
            assert(since(self.sent(), s0) =~= seq![begin@] + pw);
            lemma_prefix_within(seq![begin@], pw, program_writes_from(image@, 0), seq![command_packet(0x07, 0, 0)]);
            assert(applet_install_writes(image@) =~= seq![begin@] + program_writes_from(image@, 0) + seq![
                command_packet(0x07, 0, 0),
            ]);
        }
        match w {
            Ok(_) => {},
            Err(e) => {
                return Err(e);
            },
        }
        let ghost s2 = self.sent();
        let ghost r2 = self.received();
        let ghost g2 = since(self.received(), r0);
        let finalize = crate::protocol::finalize_applet_update_command();
        match self.command_with_reply(finalize.as_slice(), 0x48, default_timeout()) {
            Ok(()) => {},
            Err(e) => {
                proof {
                    if self.failures() == old(self).failures() {
                        assert(since(self.received(), r0) =~= g2.push(self.received().last()));
                        lemma_exchange_err(g2, full, 1 + 3 * n as int, self.received().last());
                    }
                    assert(since(self.sent(), s0) =~= applet_install_writes(image@));
                }
                return Err(e);
            },
        }
        proof {
            assert(since(self.received(), r0) =~= g2.push(self.received().last()));
            lemma_exchange_ok(g2, full, 1 + 3 * n as int, self.received().last());
            assert(full.subrange(0, 2 + 3 * n as int) =~= full);
            assert(since(self.sent(), s0) =~= applet_install_writes(image@));
        }
        let record = match parse_smartapplet_record(header_bytes.as_slice()) {
            Ok(rec) => rec,
            Err(e) => return Err(ClientError::Protocol(e)),
        };
        proof {
            assert(header_bytes@ =~= image@.subrange(0, 0x84));
            assert(be_u32_at(image@, 4) == be_u32_at(header_bytes@, 4));
            assert(be_u32_at(image@, 8) == be_u32_at(header_bytes@, 8));
            assert(be_u32_at(image@, 0x80) == be_u32_at(header_bytes@, 0x80));
            let got = self.received().subrange(r0.len() as int, self.received().len() as int);
            let mid = r2.subrange(r1.len() as int, r2.len() as int);
            assert(got.subrange(1, got.len() - 1) =~= mid);
            assert(got[0] == r1.last());
            assert(self.sent() =~= s0 + seq![begin@] + program_writes_from(image@, 0) + seq![finalize@]);
        }
        Ok(record)
    }

    /// Installs a SmartApplet image.
    pub fn install_smart_applet(&mut self, image: &[u8]) -> (r: Result<SmartAppletRecord, ClientError>)
        ensures
            extends(final(self).sent(), old(self).sent()),
            extends(final(self).received(), old(self).received()),
            image@.len() < SMARTAPPLET_HEADER_SIZE ==> r == Err::<SmartAppletRecord, ClientError>(
                ClientError::ImageShorterThanHeader,
            ) && final(self).sent() == old(self).sent() && final(self).received() == old(self).received(),
            image@.len() >= SMARTAPPLET_HEADER_SIZE && be_u32_at(image@, 4) != image@.len()
                ==> r == Err::<SmartAppletRecord, ClientError>(
                ClientError::ImageSizeMismatch { declared: be_u32_at(image@, 4) as u32, actual: image@.len() as usize },
            ) && final(self).sent() == old(self).sent() && final(self).received() == old(self).received(),
            since(final(self).sent(), old(self).sent()).is_prefix_of(applet_install_writes(image@)),
            final(self).failures() != old(self).failures() ==> final(self).failures() == old(self).failures() + 1
                && r matches Err(ClientError::Transport(_)),
            image@.len() >= SMARTAPPLET_HEADER_SIZE && be_u32_at(image@, 4) == image@.len()
                && final(self).failures() == old(self).failures() ==> match r {
                Ok(_) => status_outcome(since(final(self).received(), old(self).received()), applet_statuses(
                    chunk_count(image@.len() as int) as nat,
                )) == Some(Ok::<(), ClientError>(())),
                Err(e) => status_outcome(since(final(self).received(), old(self).received()), applet_statuses(
                    chunk_count(image@.len() as int) as nat,
                )) == Some(Err::<(), ClientError>(e)),
            },
            r matches Ok(rec) ==> record_matches(rec, image@.subrange(0, 0x84))
                && final(self).sent() == old(self).sent() + seq![
                    command_packet(
                        0x06,
                        add_applet_start_fields(
                            be_u32_at(image@, 4) as u32,
                            be_u32_at(image@, 8) as u32,
                            be_u32_at(image@, 0x80) as u32,
                        ).0,
                        add_applet_start_fields(
                            be_u32_at(image@, 4) as u32,
                            be_u32_at(image@, 8) as u32,
                            be_u32_at(image@, 0x80) as u32,
                        ).1,
                    ),
                ] + program_writes_from(image@, 0) + seq![command_packet(0x07, 0, 0)],
    {
        self.install_smart_applet_with_progress(image, |_event: NeoClientProgress| {})
    }

    /// Flashes a NEO System image: enters the Small ROM, clears the segment
    /// map, erases each segment, programs the image, and finalizes. Returns
    /// the number of chunks programmed.
    pub fn install_neo_os_image_with_progress<F: FnMut(NeoClientProgress)>(
        &mut self,
        image: &[u8],
        reformat_rest_of_rom: bool,
        mut on_progress: F,
    ) -> (r: Result<usize, ClientError>)
        requires
            forall|e: NeoClientProgress| call_requires(on_progress, (e,)),
        ensures
            extends(final(self).sent(), old(self).sent()),
            extends(final(self).received(), old(self).received()),
            os_segments_of(image@) matches Err(e) ==> r == Err::<usize, ClientError>(ClientError::Protocol(e))
                && final(self).sent() == old(self).sent() && final(self).received() == old(self).received(),
            os_segments_of(image@) matches Ok(segs) ==> since(final(self).sent(), old(self).sent()).is_prefix_of(
                os_install_writes(segs, image@, reformat_rest_of_rom),
            ),
            final(self).failures() != old(self).failures() ==> final(self).failures() == old(self).failures() + 1
                && r matches Err(ClientError::Transport(_)),
            os_segments_of(image@) is Ok && final(self).failures() == old(self).failures() ==> match r {
                Ok(_) => status_outcome(since(final(self).received(), old(self).received()), os_statuses(
                    os_segments_of(image@)->Ok_0.len(),
                    chunk_count(image@.len() as int) as nat,
                )) == Some(Ok::<(), ClientError>(())),
                Err(e) => status_outcome(since(final(self).received(), old(self).received()), os_statuses(
                    os_segments_of(image@)->Ok_0.len(),
                    chunk_count(image@.len() as int) as nat,
                )) == Some(Err::<(), ClientError>(e)),
            },
            r is Ok ==> final(self).reported() == old(self).reported() + erase_events(os_segments_of(image@)->Ok_0, os_segments_of(image@)->Ok_0.len())
                + chunk_events("OS image", chunk_count(image@.len() as int) as nat, chunk_count(image@.len() as int) as nat),
            r matches Ok(n) ==> ({
                let segs = os_segments_of(image@)->Ok_0;
                &&& os_segments_of(image@) is Ok
                &&& n == chunk_count(image@.len() as int)
                &&& final(self).sent() == old(self).sent() + seq![
                    command_packet(0x18, 0, 0),
                    command_packet(0x16, 0, 0),
                ] + erase_writes(segs, reformat_rest_of_rom) + program_writes_from(image@, 0)
                    + seq![command_packet(0x07, 0, 0)]
            }),
    {
        let segments = match parse_neo_os_segments(image) {
            Ok(s) => s,
            Err(e) => return Err(ClientError::Protocol(e)),
        };
        let ghost s0 = self.sent();
        let ghost r0 = self.received();
        let ghost m = segments@.len();
        let ghost n = chunk_count(image@.len() as int) as nat;
        let ghost full = os_statuses(m, n);
        proof {
            lemma_program_statuses_prefix(n, n);
            assert(full[0] == 0x56 && full[1] == 0x54);
            assert forall|i: int| 0 <= i < m implies #[trigger] full[2 + i] == 0x55 by {}
            assert(full[2 + m + 3 * n as int] == 0x48);
            assert(full.subrange(0, 0) =~= Seq::<u8>::empty());
            assert(since(self.received(), r0) =~= Seq::<Seq<u8>>::empty());
            assert(status_outcome(Seq::<Seq<u8>>::empty(), Seq::<u8>::empty()) == Some(Ok::<(), ClientError>(())));
        }
        let enter = crate::protocol::enter_small_rom_command();
        match self.command_with_reply(enter.as_slice(), 0x56, millis(5_000)) {
            Ok(()) => {},
            Err(e) => {
                proof {
                    if self.failures() == old(self).failures() {
                        assert(since(self.received(), r0) =~= Seq::<Seq<u8>>::empty().push(self.received().last()));
                        lemma_exchange_err(Seq::empty(), full, 0, self.received().last());
                    }
                    assert(since(self.sent(), s0) =~= os_install_writes(segments@, image@, reformat_rest_of_rom).subrange(0, 1));
                }
                return Err(e);
            },
        }
        let ghost g0 = since(self.received(), r0);
        proof {
            assert(g0 =~= Seq::<Seq<u8>>::empty().push(self.received().last()));
            lemma_exchange_ok(Seq::empty(), full, 0, self.received().last());
        }
        let clear = crate::protocol::clear_os_segment_map_command();
        match self.command_with_reply(clear.as_slice(), 0x54, millis(5_000)) {
            Ok(()) => {},
            Err(e) => {
                proof {
                    if self.failures() == old(self).failures() {
                        assert(since(self.received(), r0) =~= g0.push(self.received().last()));
                        lemma_exchange_err(g0, full, 1, self.received().last());
                    }
                    assert(since(self.sent(), s0) =~= os_install_writes(segments@, image@, reformat_rest_of_rom).subrange(0, 2));
                }
                return Err(e);
            },
        }
        proof {
            assert(since(self.received(), r0) =~= g0.push(self.received().last()));
            lemma_exchange_ok(g0, full, 1, self.received().last());
            assert(self.reported() =~= old(self).reported() + erase_events(segments@, 0));
        }
        let ghost s1 = self.sent();
        let segment_total = segments.len();
        let mut index: usize = 0;
        while index < segments.len()
            invariant
                s1 == s0 + seq![enter@, clear@],
                enter@ == command_packet(0x18, 0, 0),
                clear@ == command_packet(0x16, 0, 0),
                os_segments_of(image@) == Ok::<Seq<OsFlashSegment>, ProtocolError>(segments@),
                extends(self.sent(), old(self).sent()),
                extends(self.received(), old(self).received()),
                s0 == old(self).sent(),
                segment_total == segments@.len(),
                index <= segments@.len(),
                self.sent() == s1 + erase_writes(segments@.subrange(0, index as int), reformat_rest_of_rom),
                forall|e: NeoClientProgress| call_requires(on_progress, (e,)),
                r0 == old(self).received(),
                m == segments@.len(),
                n == chunk_count(image@.len() as int) as nat,
                full == os_statuses(m, n),
                full.len() == 3 + m + 3 * n,
                forall|i: int| 0 <= i < m ==> #[trigger] full[2 + i] == 0x55,
                self.failures() == old(self).failures(),
                since(self.received(), r0).len() == 2 + index,
                status_outcome(since(self.received(), r0), full.subrange(0, 2 + index)) == Some(Ok::<(), ClientError>(())),
                self.reported() == old(self).reported() + erase_events(segments@, index as nat),
            decreases segments@.len() - index,
        {
            let segment = segments[index];
            let mut erase: u16 = (((segment.length as u64 + 0x3FF) / 1024) % 0x1_0000) as u16;
            if reformat_rest_of_rom && segment.address == 0x005F_FC00 {
                erase = 0;
            }
            let packet = crate::protocol::erase_os_segment_command(segment.address, erase);
            let ghost before = self.sent();
            let ghost gi = since(self.received(), r0);
            proof {
                assert(full[2 + index] == 0x55);
                assert(erase == erase_kb(segment, reformat_rest_of_rom));
                assert(erase_writes(segments@.subrange(0, index + 1), reformat_rest_of_rom) =~= erase_writes(
                    segments@.subrange(0, index as int),
                    reformat_rest_of_rom,
                ).push(packet@));
            }
            match self.command_with_reply(packet.as_slice(), 0x55, millis(120_000)) {
                Ok(()) => {},
                Err(e) => {
                    proof {
                        if self.failures() == old(self).failures() {
                            assert(since(self.received(), r0) =~= gi.push(self.received().last()));
                            lemma_exchange_err(gi, full, 2 + index, self.received().last());
                        }
                        assert(since(self.sent(), s0) =~= seq![enter@, clear@] + erase_writes(
                            segments@.subrange(0, index + 1),
                            reformat_rest_of_rom,
                        ));
                        assert(erase_writes(segments@.subrange(0, index + 1), reformat_rest_of_rom) =~= erase_writes(
                            segments@,
                            reformat_rest_of_rom,
                        ).subrange(0, index + 1));
                        assert(since(self.sent(), s0) =~= os_install_writes(segments@, image@, reformat_rest_of_rom).subrange(
                            0,
                            3 + index,
                        ));
                    }
                    return Err(e);
                },
            }
            proof {
                assert(since(self.received(), r0) =~= gi.push(self.received().last()));
                lemma_exchange_ok(gi, full, 2 + index, self.received().last());
                assert(erase == erase_kb(segment, reformat_rest_of_rom));
                assert(erase_writes(segments@.subrange(0, index + 1), reformat_rest_of_rom) =~= erase_writes(
                    segments@.subrange(0, index as int),
                    reformat_rest_of_rom,
                ).push(packet@));
            }
            on_progress(NeoClientProgress::OsSegmentErased { completed: index + 1, total: segment_total, address: segment.address });
            proof {
                let ev = NeoClientProgress::OsSegmentErased { completed: (index + 1) as usize, total: segment_total, address: segment.address };
                self.progress_log@ = self.progress_log@.push(ev);
                assert(erase_events(segments@, (index + 1) as nat) =~= erase_events(segments@, index as nat).push(ev));
            }
            index = index + 1;
        }
        assert(segments@.subrange(0, segments@.len() as int) =~= segments@);
        let ghost s2 = self.sent();
        let ghost r2 = self.received();
        let ghost g2 = since(self.received(), r0);
        let ghost rep2 = self.reported();
        let w = self.write_chunks_and_program(image, "OS image", &mut on_progress);
        proof {
            let mid = since(self.received(), r2);
            let head = full.subrange(0, 2 + m as int);
            assert(since(self.received(), r0) =~= g2 + mid);
            assert(head + (program_statuses(n) + seq![0x48u8]) =~= full);
            assert(full.subrange(0, 2 + m + 3 * n as int) =~= head + program_statuses(n));
            if self.failures() == old(self).failures() {
                if w is Ok {
                    lemma_status_outcome_ok_append(g2, head, mid, program_statuses(n));
                } else {
                    lemma_status_outcome_ok_append(g2, head, mid, program_statuses(n) + seq![0x48u8]);
                    lemma_status_outcome_err_extend(mid, program_statuses(n), seq![0x48u8]);
                }
            }
        }
        proof {
            let head = seq![enter@, clear@] + erase_writes(segments@, reformat_rest_of_rom);
            let pw = since(self.sent(), s2);
            assert(since(self.sent(), s0) =~= head + pw);
            lemma_prefix_within(head, pw, program_writes_from(image@, 0), seq![command_packet(0x07, 0, 0)]);
            assert(os_install_writes(segments@, image@, reformat_rest_of_rom) =~= head + program_writes_from(image@, 0)
                + seq![command_packet(0x07, 0, 0)]);
        }
        let chunks = match w {
            Ok(c) => c,
            Err(e) => {
                return Err(e);
            },
        };
        let ghost g3 = since(self.received(), r0);
        let finalize = crate::protocol::finalize_applet_update_command();
        match self.command_with_reply(finalize.as_slice(), 0x48, millis(120_000)) {
            Ok(()) => {},
            Err(e) => {
                proof {
                    if self.failures() == old(self).failures() {
                        assert(since(self.received(), r0) =~= g3.push(self.received().last()));
                        lemma_exchange_err(g3, full, 2 + m + 3 * n as int, self.received().last());
                    }
                    assert(since(self.sent(), s0) =~= os_install_writes(segments@, image@, reformat_rest_of_rom));
                }
                return Err(e);
            },
        }
        proof {
            assert(since(self.received(), r0) =~= g3.push(self.received().last()));
            lemma_exchange_ok(g3, full, 2 + m + 3 * n as int, self.received().last());
            assert(full.subrange(0, 3 + m + 3 * n as int) =~= full);
        }
        assert(self.sent() =~= s0 + seq![enter@, clear@] + erase_writes(segments@, reformat_rest_of_rom)
            + program_writes_from(image@, 0) + seq![finalize@]);
        assert(since(self.sent(), s0) =~= os_install_writes(segments@, image@, reformat_rest_of_rom));
        Ok(chunks)
    }

    /// Flashes a NEO System image without progress reports.
    pub fn install_neo_os_image(&mut self, image: &[u8], reformat_rest_of_rom: bool) -> (r: Result<usize, ClientError>)
        ensures
            extends(final(self).sent(), old(self).sent()),
            extends(final(self).received(), old(self).received()),
            os_segments_of(image@) matches Err(e) ==> r == Err::<usize, ClientError>(ClientError::Protocol(e))
                && final(self).sent() == old(self).sent() && final(self).received() == old(self).received(),
            os_segments_of(image@) matches Ok(segs) ==> since(final(self).sent(), old(self).sent()).is_prefix_of(
                os_install_writes(segs, image@, reformat_rest_of_rom),
            ),
            final(self).failures() != old(self).failures() ==> final(self).failures() == old(self).failures() + 1
                && r matches Err(ClientError::Transport(_)),
            os_segments_of(image@) is Ok && final(self).failures() == old(self).failures() ==> match r {
                Ok(_) => status_outcome(since(final(self).received(), old(self).received()), os_statuses(
                    os_segments_of(image@)->Ok_0.len(),
                    chunk_count(image@.len() as int) as nat,
                )) == Some(Ok::<(), ClientError>(())),
                Err(e) => status_outcome(since(final(self).received(), old(self).received()), os_statuses(
                    os_segments_of(image@)->Ok_0.len(),
                    chunk_count(image@.len() as int) as nat,
                )) == Some(Err::<(), ClientError>(e)),
            },
            r matches Ok(n) ==> os_segments_of(image@) is Ok && n == chunk_count(image@.len() as int)
                && final(self).sent() == old(self).sent() + seq![
                    command_packet(0x18, 0, 0),
                    command_packet(0x16, 0, 0),
                ] + erase_writes(os_segments_of(image@)->Ok_0, reformat_rest_of_rom)
                    + program_writes_from(image@, 0) + seq![command_packet(0x07, 0, 0)],
    {
        self.install_neo_os_image_with_progress(image, reformat_rest_of_rom, |_event: NeoClientProgress| {})
    }

    /// Lists the AlphaWord files: asks for the attributes of slots 1..=8,
    /// skipping empty slots (status 0x90).  Only attribute requests are
    /// sent, whatever the device answers.
    pub fn list_files(&mut self) -> (r: Result<Vec<FileEntry>, ClientError>)
        ensures
            extends(final(self).sent(), old(self).sent()),
            extends(final(self).received(), old(self).received()),
            sends_first(final(self).sent(), old(self).sent(), command_packet(0x13, 1, 0xA000)),
            final(self).sent().len() - old(self).sent().len() <= 8,
            final(self).sent() == old(self).sent() + attribute_requests(
                (final(self).sent().len() - old(self).sent().len()) as nat,
            ),
            final(self).reported() == old(self).reported(),
            final(self).failures() != old(self).failures() ==> final(self).failures() == old(self).failures() + 1
                && r matches Err(ClientError::Transport(_)),
            final(self).failures() == old(self).failures() ==> files_result(
                r,
                files_outcome(since(final(self).received(), old(self).received()), 1),
            ),
            r matches Ok(entries) ==> ({
                &&& final(self).sent() == old(self).sent() + attribute_requests(8)
                &&& entries@.len() <= 8
                &&& forall|i: int, j: int| 0 <= i < j < entries@.len() ==> entries@[i].slot < entries@[j].slot
                &&& forall|i: int| 0 <= i < entries@.len() ==> 1 <= #[trigger] entries@[i].slot <= 8
            }),
    {
        let r = self.list_files_from(1);
        proof {
            assert(attribute_requests_from(1) =~= attribute_requests(8));
            let k = (self.sent().len() - old(self).sent().len()) as nat;
            assert(attribute_requests_from(1).subrange(0, k as int) =~= attribute_requests(k));
        }
        r
    }

    /// Asks for the attributes of slots `slot` to 8 in turn.
    fn list_files_from(&mut self, slot: u32) -> (r: Result<Vec<FileEntry>, ClientError>)
        requires
            1 <= slot <= 9,
        ensures
            extends(final(self).sent(), old(self).sent()),
            extends(final(self).received(), old(self).received()),
            final(self).reported() == old(self).reported(),
            final(self).sent().len() - old(self).sent().len() <= 9 - slot,
            slot <= 8 ==> final(self).sent().len() > old(self).sent().len(),
            final(self).sent() == old(self).sent() + attribute_requests_from(slot as nat).subrange(
                0,
                final(self).sent().len() - old(self).sent().len(),
            ),
            r is Ok ==> final(self).sent().len() - old(self).sent().len() == 9 - slot,
            final(self).failures() != old(self).failures() ==> final(self).failures() == old(self).failures() + 1
                && r matches Err(ClientError::Transport(_)),
            final(self).failures() == old(self).failures() ==> files_result(
                r,
                files_outcome(since(final(self).received(), old(self).received()), slot as nat),
            ),
            r matches Ok(entries) ==> entries@.len() <= 9 - slot
                && (forall|i: int, j: int| 0 <= i < j < entries@.len() ==> entries@[i].slot < entries@[j].slot)
                && forall|i: int| 0 <= i < entries@.len() ==> slot <= #[trigger] entries@[i].slot <= 8,
        decreases 9 - slot,
    {
        let ghost s0 = self.sent();
        let ghost r0 = self.received();
        if slot > 8 {
            proof {
                assert(since(self.received(), r0) =~= Seq::<Seq<u8>>::empty());
                assert(self.sent() =~= s0 + attribute_requests_from(slot as nat).subrange(0, 0));
            }
            return Ok(Vec::new());
        }
        let packet = command(0x13, slot, crate::protocol::ALPHAWORD_APPLET_ID);
        self.write(packet.as_slice())?;
        proof {
            assert(self.sent() =~= s0 + attribute_requests_from(slot as nat).subrange(0, 1));
        }
        let response = match self.read_response_timeout(default_timeout()) {
            Ok(resp) => resp,
            Err(e) => {
                proof {
                    if self.failures() == old(self).failures() {
                        assert(since(self.received(), r0) =~= seq![self.received().last()]);
                    }
                }
                return Err(e);
            },
        };
        let ghost x0 = self.received().last();
        proof {
            assert(since(self.received(), r0) =~= seq![x0]);
        }
        if response.status == 0x90 {
            let ghost r1 = self.received();
            let ghost s1 = self.sent();
            let rest = self.list_files_from(slot + 1);
            proof {
                let got = since(self.received(), r0);
                let tail = since(self.received(), r1);
                assert(got =~= seq![x0] + tail);
                assert(got.drop_first() =~= tail);
                assert(got[0] == x0);
                let k = (self.sent().len() - s1.len()) as int;
                assert(self.sent() =~= s0 + attribute_requests_from(slot as nat).subrange(0, k + 1));
            }
            return rest;
        }
        if response.status != 0x5A {
            return Err(ClientError::AttributeStatus { slot, status: response.status });
        }
        let payload = match self.read_exact_timeout(response.argument as usize, default_timeout()) {
            Ok(p) => p,
            Err(e) => {
                return Err(e);
            },
        };
        proof {
            assert(since(self.received(), r0) =~= seq![x0, payload@]);
        }
        match validate_payload_sum(payload.as_slice(), response.trailing) {
            Ok(()) => {},
            Err(e) => {
                return Err(e);
            },
        }
        let entry = match parse_file_entry(slot as u8, payload.as_slice()) {
            Ok(e) => e,
            Err(e) => {
                return Err(ClientError::Protocol(e));
            },
        };
        let ghost r1 = self.received();
        let ghost s1 = self.sent();
        let rest = self.list_files_from(slot + 1);
        proof {
            let got = since(self.received(), r0);
            let tail = since(self.received(), r1);
            assert(got =~= seq![x0, payload@] + tail);
            assert(got.subrange(2, got.len() as int) =~= tail);
            assert(got[0] == x0 && got[1] == payload@);
            let k = (self.sent().len() - s1.len()) as int;
            assert(self.sent() =~= s0 + attribute_requests_from(slot as nat).subrange(0, k + 1));
        }
        match rest {
            Ok(mut entries) => {
                let ghost tail_entries = entries@;
                entries.insert(0, entry);
                proof {
                    assert(entries@ =~= seq![entry] + tail_entries);
                }
                Ok(entries)
            },
            Err(e) => Err(e),
        }
    }

    /// Lists the installed SmartApplets, seven per page: each page is asked
    /// for at the number of records read so far, until a page is empty or
    /// short.  Only list requests are sent, whatever the device answers.
    pub fn list_smart_applets(&mut self) -> (r: Result<Vec<SmartAppletRecord>, ClientError>)
        ensures
            extends(final(self).sent(), old(self).sent()),
            extends(final(self).received(), old(self).received()),
            sends_first(final(self).sent(), old(self).sent(), command_packet(0x04, 0, 7)),
            applet_list_requests(since(final(self).sent(), old(self).sent())),
            final(self).reported() == old(self).reported(),
            final(self).failures() != old(self).failures() ==> final(self).failures() == old(self).failures() + 1
                && r matches Err(ClientError::Transport(_)),
            final(self).failures() == old(self).failures() ==> since(final(self).sent(), old(self).sent()) == pages_requests(
                since(final(self).received(), old(self).received()),
                0,
            ) && records_result(r, pages_outcome(since(final(self).received(), old(self).received()), 0)),
    {
        let r = self.list_pages_from(0);
        proof {
            assert(since(self.sent(), old(self).sent())[0] == self.sent()[old(self).sent().len() as int]);
        }
        r
    }

    /// Lists the SmartApplet pages from `page_offset` on.
    fn list_pages_from(&mut self, page_offset: u32) -> (r: Result<Vec<SmartAppletRecord>, ClientError>)
        ensures
            extends(final(self).sent(), old(self).sent()),
            extends(final(self).received(), old(self).received()),
            final(self).reported() == old(self).reported(),
            sends_first(final(self).sent(), old(self).sent(), command_packet(0x04, page_offset, 7)),
            forall|i: int| 0 <= i < since(final(self).sent(), old(self).sent()).len() ==> exists|off: u32|
                #[trigger] since(final(self).sent(), old(self).sent())[i] == command_packet(0x04, off, 7),
            final(self).failures() != old(self).failures() ==> final(self).failures() == old(self).failures() + 1
                && r matches Err(ClientError::Transport(_)),
            final(self).failures() == old(self).failures() ==> since(final(self).sent(), old(self).sent()) == pages_requests(
                since(final(self).received(), old(self).received()),
                page_offset as nat,
            ) && records_result(r, pages_outcome(since(final(self).received(), old(self).received()), page_offset as nat)),
        decreases u32::MAX - page_offset,
    {
        let ghost s0 = self.sent();
        let ghost r0 = self.received();
        let packet = crate::protocol::list_applets_command(page_offset, 7);
        let w = self.write(packet.as_slice());
        proof {
            assert(since(self.sent(), s0) =~= seq![packet@]);
            assert(since(self.sent(), s0)[0] == command_packet(0x04, page_offset, 7));
        }
        match w {
            Ok(()) => {},
            Err(e) => {
                return Err(e);
            },
        }
        let response = match self.read_response_timeout(default_timeout()) {
            Ok(resp) => resp,
            Err(e) => {
                proof {
                    if self.failures() == old(self).failures() {
                        assert(since(self.received(), r0) =~= seq![self.received().last()]);
                    }
                }
                return Err(e);
            },
        };
        let ghost x0 = self.received().last();
        proof {
            assert(since(self.received(), r0) =~= seq![x0]);
        }
        if response.status == 0x90 || response.argument == 0 {
            return Ok(Vec::new());
        }
        if response.status != 0x44 {
            return Err(ClientError::AppletListStatus { status: response.status });
        }
        if response.argument % 0x84 != 0 {
            return Err(ClientError::AppletListLength { length: response.argument });
        }
        let payload = match self.read_exact_timeout(response.argument as usize, default_timeout()) {
            Ok(p) => p,
            Err(e) => {
                return Err(e);
            },
        };
        proof {
            assert(since(self.received(), r0) =~= seq![x0, payload@]);
        }
        match validate_payload_sum(payload.as_slice(), response.trailing) {
            Ok(()) => {},
            Err(e) => {
                return Err(e);
            },
        }
        let count = payload.len() / 0x84;
        let mut entries: Vec<SmartAppletRecord> = Vec::new();
        let mut index: usize = 0;
        while index < count
            invariant
                count == payload@.len() / 0x84,
                index <= count,
                entries@.len() == index,
                forall|i: int| 0 <= i < index ==> record_matches(#[trigger] entries@[i], record_windows(payload@)[i]),
            decreases count - index,
        {
            assert(index * 0x84 + 0x84 <= payload@.len()) by (nonlinear_arith)
                requires index < count, count == payload@.len() / 0x84;
            assert(payload@.len() == payload.len());
            let at = index * 0x84;
            let raw = crate::text::copy_range(payload.as_slice(), at, 0x84);
            let record = match parse_smartapplet_record(raw.as_slice()) {
                Ok(rec) => rec,
                Err(e) => return Err(ClientError::Protocol(e)),
            };
            assert(raw@ == record_windows(payload@)[index as int]);
            entries.push(record);
            index = index + 1;
        }
        assert(record_windows(payload@).len() == count);
        if count < 7 {
            return Ok(entries);
        }
        if count > (u32::MAX - page_offset) as usize {
            return Err(ClientError::PageOffsetOverflow);
        }
        let ghost s1 = self.sent();
        let ghost r1 = self.received();
        let ghost head = entries@;
        let rest = self.list_pages_from(page_offset + count as u32);
        proof {
            let got = since(self.received(), r0);
            let tail = since(self.received(), r1);
            assert(got =~= seq![x0, payload@] + tail);
            assert(got.subrange(2, got.len() as int) =~= tail);
            assert(got[0] == x0 && got[1] == payload@);
            assert(since(self.sent(), s0) =~= seq![packet@] + since(self.sent(), s1));
            assert forall|i: int| 0 <= i < since(self.sent(), s0).len() implies exists|off: u32|
                #[trigger] since(self.sent(), s0)[i] == command_packet(0x04, off, 7) by {
                if i > 0 {
                    assert(since(self.sent(), s0)[i] == since(self.sent(), s1)[i - 1]);
                } else {
                    assert(since(self.sent(), s0)[i] == command_packet(0x04, page_offset, 7));
                }
            }
            assert(self.sent()[s0.len() as int] == since(self.sent(), s0)[0]);
        }
        match rest {
            Ok(mut more) => {
                let ghost tail_entries = more@;
                entries.append(&mut more);
                proof {
                    assert(entries@ =~= head + tail_entries);
                    let recs = record_windows(payload@);
                    let got = since(self.received(), r0);
                    let o = pages_outcome(since(self.received(), r1), (page_offset + count) as nat);
                    if self.failures() == old(self).failures() {
                        let ws = o->Some_0->Ok_0;
                        assert forall|i: int| 0 <= i < (recs + ws).len() implies record_matches(
                            #[trigger] entries@[i],
                            (recs + ws)[i],
                        ) by {
                            if i >= head.len() {
                                assert(entries@[i] == tail_entries[i - head.len()]);
                            }
                        }
                    }
                }
                Ok(entries)
            },
            Err(e) => Err(e),
        }
    }

    /// Reads a recovery report: the heading "SmartApplet records", a line
    /// for each page of the SmartApplet list and each record on it, then
    /// "AlphaWord file attributes" and the lines of AlphaWord slots 1 to 8
    /// (`recovery_report` gives the text for every sequence of replies).
    /// Problems with a reply end that part of the report with a "stop:"
    /// line instead of failing the whole read.
    #[verifier::spinoff_prover]
    #[verifier::rlimit(80)]
    pub fn read_recovery_diagnostics(&mut self) -> (r: Result<String, ClientError>)
        ensures
            extends(final(self).sent(), old(self).sent()),
            extends(final(self).received(), old(self).received()),
            sends_first(final(self).sent(), old(self).sent(), command_packet(0x04, 0, 7)),
            final(self).reported() == old(self).reported(),
            final(self).failures() != old(self).failures() ==> final(self).failures() == old(self).failures() + 1
                && r matches Err(ClientError::Transport(_)),
            final(self).failures() == old(self).failures() && r is Err ==> recovery_error(
                since(final(self).received(), old(self).received()),
            ) == Some(r->Err_0),
            r matches Ok(report) ==> ({
                let asked = final(self).sent().subrange(
                    old(self).sent().len() as int,
                    final(self).sent().len() as int,
                );
                let got = final(self).received().subrange(
                    old(self).received().len() as int,
                    final(self).received().len() as int,
                );
                &&& asked.len() > 8
                &&& applet_list_requests(asked.subrange(0, asked.len() - 8))
                &&& asked.subrange(asked.len() - 8, asked.len() as int) == attribute_requests(8)
                &&& recovery_report(got) == Some(report@)
            }),
    {
        let ghost s0 = self.sent();
        let ghost r0 = self.received();
        let mut report = String::from_str("SmartApplet records");
        proof {
            reveal_strlit("SmartApplet records");
        }
        let ghost rep0 = report@;
        match self.append_smartapplet_diagnostics(&mut report, 0, 0) {
            Ok(()) => {},
            Err(e) => {
                proof {
                    if self.failures() == old(self).failures() {
                        lemma_pages_error_no_text(since(self.received(), r0), 0, 0);
                    }
                }
                return Err(e);
            },
        }
        let ghost s1 = self.sent();
        let ghost r1 = self.received();
        let ghost rep1 = report@;
        new_line(&mut report, "AlphaWord file attributes");
        let ghost rep2 = report@;
        match self.append_alpha_word_attribute_diagnostics(&mut report, 1) {
            Ok(()) => {},
            Err(e) => {
                proof {
                    if self.failures() == old(self).failures() {
                        let g1 = r1.subrange(r0.len() as int, r1.len() as int);
                        let g2 = since(self.received(), r1);
                        let got = since(self.received(), r0);
                        assert(got =~= g1 + g2);
                        lemma_applet_pages_prefix(g1, g2, 0, 0);
                        assert(got.subrange(g1.len() as int, got.len() as int) =~= g2);
                    }
                }
                return Err(e);
            },
        }
        proof {
            let asked = self.sent().subrange(s0.len() as int, self.sent().len() as int);
            let a1 = s1.subrange(s0.len() as int, s1.len() as int);
            let a2 = self.sent().subrange(s1.len() as int, self.sent().len() as int);
            assert(asked =~= a1 + a2);
            assert(a2.len() == 8);
            assert(asked.subrange(0, asked.len() - 8) =~= a1);
            assert(asked.subrange(asked.len() - 8, asked.len() as int) =~= attribute_requests_from(1));
            assert(attribute_requests_from(1) =~= attribute_requests(8));
            let got = self.received().subrange(r0.len() as int, self.received().len() as int);
            let g1 = r1.subrange(r0.len() as int, r1.len() as int);
            let g2 = self.received().subrange(r1.len() as int, self.received().len() as int);
            assert(got =~= g1 + g2);
            let t1 = rep1.subrange(rep0.len() as int, rep1.len() as int);
            let t2 = report@.subrange(rep2.len() as int, report@.len() as int);
            assert(rep1 =~= rep0 + t1);
            assert(report@ =~= rep2 + t2);
            lemma_applet_pages_prefix(g1, g2, 0, 0);
            assert((g1 + g2).subrange(g1.len() as int, (g1 + g2).len() as int) =~= g2);
            assert(report@ =~= "SmartApplet records"@ + t1 + nl("AlphaWord file attributes"@) + t2);
        }
        Ok(report)
    }

    /// Lists the SmartApplets page by page from `page_offset`, numbering
    /// the records from `row`, and reports each reply and record.
    #[verifier::spinoff_prover]
    #[verifier::rlimit(80)]
    fn append_smartapplet_diagnostics(&mut self, report: &mut String, page_offset: u32, row: u64) -> (r: Result<(), ClientError>)
        ensures
            extends(final(self).sent(), old(self).sent()),
            extends(final(self).received(), old(self).received()),
            sends_first(final(self).sent(), old(self).sent(), command_packet(0x04, page_offset, 7)),
            final(self).reported() == old(self).reported(),
            final(self).failures() != old(self).failures() ==> final(self).failures() == old(self).failures() + 1
                && r matches Err(ClientError::Transport(_)),
            final(self).failures() == old(self).failures() ==> since(final(self).sent(), old(self).sent()) == pages_requests(
                since(final(self).received(), old(self).received()),
                page_offset as nat,
            ),
            final(self).failures() == old(self).failures() && r is Err ==> pages_error(
                since(final(self).received(), old(self).received()),
                page_offset as nat,
            ) == Some(r->Err_0),
            r is Ok ==> ({
                let asked = final(self).sent().subrange(
                    old(self).sent().len() as int,
                    final(self).sent().len() as int,
                );
                let got = final(self).received().subrange(
                    old(self).received().len() as int,
                    final(self).received().len() as int,
                );
                &&& asked.len() >= 1
                &&& asked[0] == command_packet(0x04, page_offset, 7)
                &&& forall|i: int| 0 <= i < asked.len() ==> exists|off: u32| #[trigger] asked[i] == command_packet(0x04, off, 7)
                &&& applet_pages(got, page_offset as nat, row as nat) matches Some((t, n))
                &&& n == got.len()
                &&& final(report)@ == old(report)@ + t
            }),
        decreases u32::MAX - page_offset,
    {
        let ghost s0 = self.sent();
        let ghost r0 = self.received();
        let ghost rep0 = report@;
        let packet = crate::protocol::list_applets_command(page_offset, 7);
        self.write(packet.as_slice())?;
        let response = match self.read_response_timeout(default_timeout()) {
            Ok(resp) => resp,
            Err(e) => {
                proof {
                    assert(since(self.sent(), s0) =~= seq![packet@]);
                    if self.failures() == old(self).failures() {
                        assert(since(self.received(), r0) =~= seq![self.received().last()]);
                    }
                }
                return Err(e);
            },
        };
        let ghost reply = self.received().last();
        let ghost got1 = seq![reply];
        proof {
            assert(since(self.sent(), s0) =~= seq![packet@]);
            let got = self.received().subrange(r0.len() as int, self.received().len() as int);
            assert(got =~= got1);
            let asked = self.sent().subrange(s0.len() as int, self.sent().len() as int);
            assert(asked =~= seq![packet@]);
        }
        let mut line = String::from_str("page_offset=");
        push_decimal(&mut line, page_offset as u64);
        append_reply_fields(&mut line, &response);
        proof {
            reveal_strlit("page_offset=");
        }
        let ghost head = nl("page_offset="@ + decimal(page_offset as nat) + reply_fields_text(response));
        new_line(report, line.as_str());
        assert(report@ =~= rep0 + head);
        if response.status == 0x90 || response.argument == 0 {
            return Ok(());
        }
        if response.status != 0x44 {
            let mut stop = String::from_str("stop: unexpected applet list status 0x");
            push_hex(&mut stop, response.status as u64, 2);
            new_line(report, stop.as_str());
            proof {
                reveal_strlit("stop: unexpected applet list status 0x");
            }
            assert(report@ =~= rep0 + (head + nl("stop: unexpected applet list status 0x"@ + hex_digits(response.status as nat, 2))));
            return Ok(());
        }
        if response.argument % 0x84 != 0 {
            let mut stop = String::from_str("stop: applet list payload length ");
            push_decimal(&mut stop, response.argument as u64);
            stop.append(" is not a multiple of 0x84");
            new_line(report, stop.as_str());
            proof {
                reveal_strlit("stop: applet list payload length ");
                reveal_strlit(" is not a multiple of 0x84");
            }
            assert(report@ =~= rep0 + (head + nl("stop: applet list payload length "@ + decimal(response.argument as nat)
                + " is not a multiple of 0x84"@)));
            return Ok(());
        }
        let payload = match self.read_exact_timeout(response.argument as usize, default_timeout()) {
            Ok(p) => p,
            Err(e) => {
                return Err(e);
            },
        };
        let ghost got2 = seq![reply, payload@];
        proof {
            let got = self.received().subrange(r0.len() as int, self.received().len() as int);
            assert(got =~= got2);
        }
        let actual = checksum16(payload.as_slice());
        let mut sums = String::from_str("payload_sum16=0x");
        push_hex(&mut sums, actual as u64, 4);
        sums.append(" expected=0x");
        push_hex(&mut sums, response.trailing as u64, 4);
        new_line(report, sums.as_str());
        proof {
            reveal_strlit("payload_sum16=0x");
            reveal_strlit(" expected=0x");
        }
        let ghost sums_text = nl("payload_sum16=0x"@ + hex_digits(sum16(payload@) as nat, 4) + " expected=0x"@ + hex_digits(
            response.trailing as nat,
            4,
        ));
        assert(report@ =~= rep0 + (head + sums_text));
        if actual != response.trailing {
            new_line(report, "stop: applet list payload checksum mismatch");
            proof {
                reveal_strlit("stop: applet list payload checksum mismatch");
            }
            assert(report@ =~= rep0 + (head + sums_text + nl("stop: applet list payload checksum mismatch"@)));
            return Ok(());
        }
        let count = payload.len() / 0x84;
        let ghost rep1 = report@;
        let mut next_row = row;
        let mut index: usize = 0;
        while index < count
            invariant
                count == payload@.len() / 0x84,
                index <= count,
                row <= next_row,
                next_row as nat == sat_u64((row + index) as nat),
                report@ == rep1 + record_lines(payload@, row as nat, index as nat),
            decreases count - index,
        {
            assert(index * 0x84 + 0x84 <= payload@.len()) by (nonlinear_arith)
                requires
                    index < count,
                    count == payload@.len() / 0x84,
            ;
            assert(payload@.len() == payload.len());
            let raw = crate::text::copy_range(payload.as_slice(), index * 0x84, 0x84);
            let line = record_text(next_row, raw.as_slice());
            new_line(report, line.as_str());
            proof {
                assert((index + 1) * 0x84 == index * 0x84 + 0x84) by (nonlinear_arith);
                assert(raw@ == payload@.subrange(index * 0x84, (index + 1) * 0x84));
            }
            assert(report@ =~= rep1 + record_lines(payload@, row as nat, (index + 1) as nat));
            if next_row < u64::MAX {
                next_row = next_row + 1;
            }
            index = index + 1;
        }
        let ghost page = head + sums_text + record_lines(payload@, row as nat, count as nat);
        assert(report@ =~= rep0 + page);
        assert(record_windows(payload@).len() == count);
        if count < 7 {
            return Ok(());
        }
        if count > (u32::MAX - page_offset) as usize {
            return Err(ClientError::PageOffsetOverflow);
        }
        let ghost s1 = self.sent();
        let ghost r1 = self.received();
        let ghost rep2 = report@;
        let more = self.append_smartapplet_diagnostics(report, page_offset + count as u32, next_row);
        proof {
            let got = self.received().subrange(r0.len() as int, self.received().len() as int);
            let rest = self.received().subrange(r1.len() as int, self.received().len() as int);
            assert(got =~= got2 + rest);
            assert(got.subrange(2, got.len() as int) =~= rest);
            assert(got[0] == reply);
            assert(got[1] == payload@);
            assert(since(self.sent(), s0) =~= seq![packet@] + since(self.sent(), s1));
        }
        match more {
            Ok(()) => {},
            Err(e) => {
                return Err(e);
            },
        }
        proof {
            let got = self.received().subrange(r0.len() as int, self.received().len() as int);
            let rest = self.received().subrange(r1.len() as int, self.received().len() as int);
            assert(got =~= got2 + rest);
            assert(got.subrange(2, got.len() as int) =~= rest);
            assert(got[0] == reply);
            assert(got[1] == payload@);
            let asked = self.sent().subrange(s0.len() as int, self.sent().len() as int);
            let asked_rest = self.sent().subrange(s1.len() as int, self.sent().len() as int);
            assert(asked =~= seq![packet@] + asked_rest);
            assert forall|i: int| 0 <= i < asked.len() implies exists|off: u32| #[trigger] asked[i] == command_packet(0x04, off, 7) by {
                if i == 0 {
                    assert(asked[0] == command_packet(0x04, page_offset, 7));
                } else {
                    assert(asked[i] == asked_rest[i - 1]);
                }
            }
        }
        Ok(())
    }

    /// Reads the attribute record of AlphaWord slots `slot` through 8 and
    /// reports each reply and record.
    #[verifier::spinoff_prover]
    #[verifier::rlimit(80)]
    fn append_alpha_word_attribute_diagnostics(&mut self, report: &mut String, slot: u8) -> (r: Result<(), ClientError>)
        requires
            1 <= slot <= 9,
        ensures
            extends(final(self).sent(), old(self).sent()),
            extends(final(self).received(), old(self).received()),
            final(self).reported() == old(self).reported(),
            final(self).failures() != old(self).failures() ==> final(self).failures() == old(self).failures() + 1
                && r matches Err(ClientError::Transport(_)),
            final(self).failures() == old(self).failures() && r is Err ==> attr_error(
                since(final(self).received(), old(self).received()),
                slot as nat,
            ) == Some(r->Err_0),
            slot <= 8 ==> sends_first(final(self).sent(), old(self).sent(), command_packet(0x13, slot as u32, 0xA000)),
            slot == 9 ==> r is Ok && final(self).sent() == old(self).sent() && final(self).received()
                == old(self).received() && final(report)@ == old(report)@,
            r is Ok ==> ({
                let asked = final(self).sent().subrange(
                    old(self).sent().len() as int,
                    final(self).sent().len() as int,
                );
                let got = final(self).received().subrange(
                    old(self).received().len() as int,
                    final(self).received().len() as int,
                );
                &&& asked == attribute_requests_from(slot as nat)
                &&& attr_slots(got, slot as nat) matches Some((t, n))
                &&& n == got.len()
                &&& final(report)@ == old(report)@ + t
            }),
        decreases 9 - slot,
    {
        let ghost s0 = self.sent();
        let ghost r0 = self.received();
        let ghost rep0 = report@;
        if slot > 8 {
            proof {
                assert(self.sent().subrange(s0.len() as int, s0.len() as int) =~= attribute_requests_from(slot as nat));
                assert(report@ =~= rep0 + Seq::<char>::empty());
            }
            return Ok(());
        }
        let packet = command(0x13, slot as u32, crate::protocol::ALPHAWORD_APPLET_ID);
        self.write(packet.as_slice())?;
        let response = match self.read_response_timeout(default_timeout()) {
            Ok(resp) => resp,
            Err(e) => {
                proof {
                    if self.failures() == old(self).failures() {
                        assert(since(self.received(), r0) =~= seq![self.received().last()]);
                    }
                }
                return Err(e);
            },
        };
        let ghost reply = self.received().last();
        let mut line = String::from_str("slot ");
        push_decimal(&mut line, slot as u64);
        append_reply_fields(&mut line, &response);
        new_line(report, line.as_str());
        proof {
            reveal_strlit("slot ");
        }
        let ghost head = nl(slot_word(slot as nat) + reply_fields_text(response));
        assert(report@ =~= rep0 + head);
        let ghost mut mid: Seq<Seq<u8>> = seq![reply];
        let ghost mut text: Seq<char> = head;
        if response.status == 0x5A {
            let payload = match self.read_exact_timeout(response.argument as usize, default_timeout()) {
                Ok(p) => p,
                Err(e) => {
                    return Err(e);
                },
            };
            let actual = checksum16(payload.as_slice());
            let mut sums = String::from_str("slot ");
            push_decimal(&mut sums, slot as u64);
            sums.append(" payload_sum16=0x");
            push_hex(&mut sums, actual as u64, 4);
            sums.append(" expected=0x");
            push_hex(&mut sums, response.trailing as u64, 4);
            new_line(report, sums.as_str());
            proof {
                reveal_strlit(" payload_sum16=0x");
                reveal_strlit(" expected=0x");
            }
            let ghost sums_text = nl(slot_word(slot as nat) + " payload_sum16=0x"@ + hex_digits(sum16(payload@) as nat, 4)
                + " expected=0x"@ + hex_digits(response.trailing as nat, 4));
            assert(report@ =~= rep0 + head + sums_text);
            let mut verdict = String::from_str("slot ");
            push_decimal(&mut verdict, slot as u64);
            if actual != response.trailing {
                verdict.append(" checksum_mismatch");
                proof {
                    reveal_strlit(" checksum_mismatch");
                }
            } else {
                match parse_file_entry(slot, payload.as_slice()) {
                    Ok(entry) => {
                        verdict.append(" name=");
                        verdict.append(entry.name.as_str());
                        verdict.append(" attribute_bytes=");
                        push_decimal(&mut verdict, entry.attribute_bytes as u64);
                        proof {
                            reveal_strlit(" name=");
                            reveal_strlit(" attribute_bytes=");
                        }
                    },
                    Err(error) => {
                        verdict.append(" parse_error=");
                        let message = error.message();
                        verdict.append(message.as_str());
                        proof {
                            reveal_strlit(" parse_error=");
                        }
                    },
                }
            }
            assert(verdict@ =~= slot_verdict(slot as nat, response, payload@));
            new_line(report, verdict.as_str());
            assert(report@ =~= rep0 + (head + sums_text + nl(slot_verdict(slot as nat, response, payload@))));
            proof {
                mid = seq![reply, payload@];
                text = head + sums_text + nl(slot_verdict(slot as nat, response, payload@));
            }
        }
        proof {
            let got = self.received().subrange(r0.len() as int, self.received().len() as int);
            assert(got =~= mid);
            let asked = self.sent().subrange(s0.len() as int, self.sent().len() as int);
            assert(asked =~= seq![packet@]);
        }
        let ghost s1 = self.sent();
        let ghost r1 = self.received();
        let ghost rep1 = report@;
        let more = self.append_alpha_word_attribute_diagnostics(report, slot + 1);
        proof {
            let got = self.received().subrange(r0.len() as int, self.received().len() as int);
            let rest = self.received().subrange(r1.len() as int, self.received().len() as int);
            assert(got =~= mid + rest);
            assert(got[0] == reply);
            assert(got.subrange(mid.len() as int, got.len() as int) =~= rest);
        }
        match more {
            Ok(()) => {},
            Err(e) => {
                return Err(e);
            },
        }
        proof {
            let got = self.received().subrange(r0.len() as int, self.received().len() as int);
            let rest = self.received().subrange(r1.len() as int, self.received().len() as int);
            assert(got =~= mid + rest);
            assert(got[0] == reply);
            assert(got.subrange(mid.len() as int, got.len() as int) =~= rest);
            let asked = self.sent().subrange(s0.len() as int, self.sent().len() as int);
            let asked_rest = self.sent().subrange(s1.len() as int, self.sent().len() as int);
            assert(asked =~= seq![packet@] + asked_rest);
            assert(asked =~= attribute_requests_from(slot as nat));
        }
        Ok(())
    }

    /// Erases the SmartApplet area (status 0x4F, up to two minutes).
    pub fn clear_smart_applet_area(&mut self) -> (r: Result<(), ClientError>)
        ensures
            final(self).sent() == old(self).sent().push(command_packet(0x11, 0, 0)),
            r is Ok ==> final(self).received().drop_last() == old(self).received()
                && final(self).received().len() == old(self).received().len() + 1
                && reply_with(final(self).received().last(), 0x4F),
    {
        let packet = crate::protocol::clear_applet_area_command();
        self.command_with_reply(packet.as_slice(), 0x4F, millis(120_000))
    }

    /// Restarts the device (status 0x52).
    pub fn restart_device(&mut self) -> (r: Result<(), ClientError>)
        ensures
            final(self).sent() == old(self).sent().push(command_packet(0x08, 0, 0)),
            r is Ok ==> final(self).received().drop_last() == old(self).received()
                && final(self).received().len() == old(self).received().len() + 1
                && reply_with(final(self).received().last(), 0x52),
    {
        let packet = crate::protocol::restart_device_command();
        self.command_with_reply(packet.as_slice(), 0x52, default_timeout())
    }
}

/// Whether `s` begins with `prefix`.
pub open spec fn starts_with(s: Seq<char>, prefix: Seq<char>) -> bool {
    prefix.len() <= s.len() && forall|i: int| 0 <= i < prefix.len() ==> s[i] == prefix[i]
}

/// Starts a new report line holding `text`.
fn new_line(report: &mut String, text: &str)
    ensures
        final(report)@ == old(report)@.push('\n') + text@,
{
    push_char(report, '\n');
    report.append(text);
}

/// Appends the status, argument and trailing fields of a reply.
fn append_reply_fields(report: &mut String, response: &Response)
    ensures
        final(report)@ == old(report)@ + reply_fields_text(*response),
{
    let ghost r0 = report@;
    report.append(" status=0x");
    push_hex(report, response.status as u64, 2);
    report.append(" argument=");
    push_decimal(report, response.argument as u64);
    report.append(" trailing=0x");
    push_hex(report, response.trailing as u64, 4);
    proof {
        reveal_strlit(" status=0x");
        reveal_strlit(" argument=");
        reveal_strlit(" trailing=0x");
    }
    assert(report@ =~= r0 + reply_fields_text(*response));
}

/// Appends each byte as two hexadecimal digits, separated by spaces.
fn push_hex_bytes(report: &mut String, bytes: &[u8])
    ensures
        final(report)@ == old(report)@ + hex_list(bytes@),
{
    let ghost r0 = report@;
    let mut i: usize = 0;
    while i < bytes.len()
        invariant
            i <= bytes@.len(),
            report@ == r0 + hex_list(bytes@.subrange(0, i as int)),
        decreases bytes.len() - i,
    {
        if i > 0 {
            push_char(report, ' ');
        }
        push_hex(report, bytes[i] as u64, 2);
        assert(bytes@.subrange(0, i + 1).drop_last() =~= bytes@.subrange(0, i as int));
        i = i + 1;
    }
    assert(bytes@.subrange(0, bytes@.len() as int) =~= bytes@);
}

/// Space-separated two-digit hexadecimal rendering of `bytes`.
pub open spec fn hex_list(bytes: Seq<u8>) -> Seq<char>
    decreases bytes.len(),
{
    if bytes.len() == 0 {
        Seq::empty()
    } else if bytes.len() == 1 {
        hex_digits(bytes[0] as nat, 2)
    } else {
        hex_list(bytes.drop_last()).push(' ') + hex_digits(bytes.last() as nat, 2)
    }
}

/// A report line: a line break, then `t`.
pub open spec fn nl(t: Seq<char>) -> Seq<char> {
    seq!['\n'] + t
}

/// The status, argument and trailing fields of a reply as a report shows
/// them.
pub open spec fn reply_fields_text(r: Response) -> Seq<char> {
    " status=0x"@ + hex_digits(r.status as nat, 2) + " argument="@ + decimal(r.argument as nat) + " trailing=0x"@
        + hex_digits(r.trailing as nat, 4)
}

/// `n`, or the largest `u64` when `n` is beyond it.
pub open spec fn sat_u64(n: nat) -> nat {
    if n < u64::MAX {
        n
    } else {
        u64::MAX as nat
    }
}

/// The report line of SmartApplet record `raw` (0x84 bytes) numbered `row`.
pub open spec fn record_line(row: nat, raw: Seq<u8>) -> Seq<char> {
    "row="@ + decimal(row) + " applet_id=0x"@ + hex_digits(be_u16_at(raw, 0x14) as nat, 4) + " version="@
        + version_text(bcd_value(raw[0x3C]), bcd_value(raw[0x3D])) + " name="@ + field_text(raw.subrange(0x18, 0x40))
        + " file_size="@ + decimal(be_u32_at(raw, 0x04) as nat) + " applet_class=0x"@ + hex_digits(raw[0x3F] as nat, 2)
        + " record="@ + hex_list(raw)
}

/// The lines of the first `n` records of page `p`, numbered from `row`.
pub open spec fn record_lines(p: Seq<u8>, row: nat, n: nat) -> Seq<char>
    decreases n,
{
    if n == 0 {
        Seq::empty()
    } else {
        record_lines(p, row, (n - 1) as nat) + nl(
            record_line(sat_u64((row + n - 1) as nat), p.subrange((n - 1) * 0x84, (n * 0x84) as int)),
        )
    }
}

/// The report of the SmartApplet list read from `page_offset` on, with
/// records numbered from `row`, when the replies begin with `rs`: the text
/// and how many replies it used.  Each page gives its reply line; a final
/// reply (status 0x90 or an empty page) ends the list; another status or a
/// length that is not a whole number of records gives a "stop:" line; a
/// payload with the wrong sum gives its sum line and a "stop:" line;
/// otherwise the page gives its sum line and a line per record, and a page
/// of seven records is followed by the next page.
pub open spec fn applet_pages(rs: Seq<Seq<u8>>, page_offset: nat, row: nat) -> Option<(Seq<char>, nat)>
    decreases rs.len(),
{
    if rs.len() == 0 {
        None
    } else {
        match response_of(rs[0]) {
            Err(_) => None,
            Ok(r) => {
                let head = nl("page_offset="@ + decimal(page_offset) + reply_fields_text(r));
                if r.status == 0x90 || r.argument == 0 {
                    Some((head, 1))
                } else if r.status != 0x44 {
                    Some((head + nl("stop: unexpected applet list status 0x"@ + hex_digits(r.status as nat, 2)), 1))
                } else if r.argument % 0x84 != 0 {
                    Some(
                        (
                            head + nl(
                                "stop: applet list payload length "@ + decimal(r.argument as nat)
                                    + " is not a multiple of 0x84"@,
                            ),
                            1,
                        ),
                    )
                } else if rs.len() < 2 {
                    None
                } else {
                    let p = rs[1];
                    let sums = nl("payload_sum16=0x"@ + hex_digits(sum16(p) as nat, 4) + " expected=0x"@ + hex_digits(
                        r.trailing as nat,
                        4,
                    ));
                    if sum16(p) != r.trailing {
                        Some((head + sums + nl("stop: applet list payload checksum mismatch"@), 2))
                    } else {
                        let count = p.len() / 0x84;
                        let page = head + sums + record_lines(p, row, count);
                        if count < 7 {
                            Some((page, 2))
                        } else {
                            match applet_pages(rs.subrange(2, rs.len() as int), page_offset + count, sat_u64(row + count)) {
                                Some((rest, n)) => Some((page + rest, n + 2)),
                                None => None,
                            }
                        }
                    }
                }
            },
        }
    }
}

/// Replies after the ones the list report used do not change it.
pub proof fn lemma_applet_pages_prefix(a: Seq<Seq<u8>>, b: Seq<Seq<u8>>, page_offset: nat, row: nat)
    requires
        applet_pages(a, page_offset, row) matches Some((t, n)) && n == a.len(),
    ensures
        applet_pages(a + b, page_offset, row) == applet_pages(a, page_offset, row),
    decreases a.len(),
{
    let ab = a + b;
    assert(ab[0] == a[0]);
    if a.len() >= 2 {
        assert(ab[1] == a[1]);
        let r = response_of(a[0])->Ok_0;
        let p = a[1];
        let count = p.len() / 0x84;
        if r.status == 0x44 && r.argument != 0 && r.argument % 0x84 == 0 && sum16(p) == r.trailing && count >= 7 {
            let a2 = a.subrange(2, a.len() as int);
            assert(ab.subrange(2, ab.len() as int) =~= a2 + b);
            lemma_applet_pages_prefix(a2, b, page_offset + count, sat_u64(row + count));
        }
    }
}

/// "slot " and the slot number.
pub open spec fn slot_word(slot: nat) -> Seq<char> {
    "slot "@ + decimal(slot)
}

/// What the report says of an attribute record `p` of `slot` after a 0x5A
/// reply `r`: a checksum mismatch, the file's name and length, or why the
/// record does not parse.
pub open spec fn slot_verdict(slot: nat, r: Response, p: Seq<u8>) -> Seq<char> {
    if sum16(p) != r.trailing {
        slot_word(slot) + " checksum_mismatch"@
    } else if p.len() == 0x28 {
        slot_word(slot) + " name="@ + field_text(p.subrange(0, 0x18)) + " attribute_bytes="@ + decimal(
            be_u32_at(p, 0x1c) as nat,
        )
    } else {
        slot_word(slot) + " parse_error="@ + protocol_error_text(
            ProtocolError::AttributeRecordLength { record_got: p.len() as usize },
        )
    }
}

/// The attribute requests for AlphaWord slots `slot` through 8.
pub open spec fn attribute_requests_from(slot: nat) -> Seq<Seq<u8>> {
    Seq::new((9 - slot) as nat, |i: int| command_packet(0x13, (slot + i) as u32, 0xA000))
}

/// The report of AlphaWord slots `slot` through 8 when the replies begin
/// with `rs`: the text and how many replies it used.  Each slot gives its
/// reply line; after a 0x5A reply, the record's sum line and verdict.
pub open spec fn attr_slots(rs: Seq<Seq<u8>>, slot: nat) -> Option<(Seq<char>, nat)>
    decreases 9 - slot,
{
    if slot > 8 {
        Some((Seq::empty(), 0))
    } else if rs.len() == 0 {
        None
    } else {
        match response_of(rs[0]) {
            Err(_) => None,
            Ok(r) => {
                let head = nl(slot_word(slot) + reply_fields_text(r));
                if r.status != 0x5A {
                    match attr_slots(rs.subrange(1, rs.len() as int), slot + 1) {
                        Some((t, n)) => Some((head + t, n + 1)),
                        None => None,
                    }
                } else if rs.len() < 2 {
                    None
                } else {
                    let p = rs[1];
                    let sums = nl(slot_word(slot) + " payload_sum16=0x"@ + hex_digits(sum16(p) as nat, 4) + " expected=0x"@
                        + hex_digits(r.trailing as nat, 4));
                    match attr_slots(rs.subrange(2, rs.len() as int), slot + 1) {
                        Some((t, n)) => Some((head + sums + nl(slot_verdict(slot, r, p)) + t, n + 2)),
                        None => None,
                    }
                }
            },
        }
    }
}

/// The error that ends the SmartApplet part of a recovery report when the
/// device's replies are `rs`, from page offset `page_offset`: a malformed
/// reply, or a next page offset past `u32::MAX`; `None` when nothing ends it
/// with an error.
pub open spec fn pages_error(rs: Seq<Seq<u8>>, page_offset: nat) -> Option<ClientError>
    decreases rs.len(),
{
    if rs.len() == 0 {
        None
    } else {
        match response_of(rs[0]) {
            Err(pe) => if rs.len() == 1 { Some(ClientError::Protocol(pe)) } else { None },
            Ok(r) => if rs.len() >= 2 && r.status == 0x44 && r.argument != 0 && r.argument % 0x84 == 0 && sum16(rs[1])
                == r.trailing && record_windows(rs[1]).len() >= 7 {
                if record_windows(rs[1]).len() > u32::MAX - page_offset {
                    if rs.len() == 2 { Some(ClientError::PageOffsetOverflow) } else { None }
                } else {
                    pages_error(rs.subrange(2, rs.len() as int), page_offset + record_windows(rs[1]).len())
                }
            } else {
                None
            },
        }
    }
}

/// The error that ends the AlphaWord part of a recovery report when the
/// device's replies are `rs`, from slot `slot`: a malformed reply; `None`
/// when nothing ends it with an error.
pub open spec fn attr_error(rs: Seq<Seq<u8>>, slot: nat) -> Option<ClientError>
    decreases 9 - slot,
{
    if slot > 8 || rs.len() == 0 {
        None
    } else {
        match response_of(rs[0]) {
            Err(pe) => if rs.len() == 1 { Some(ClientError::Protocol(pe)) } else { None },
            Ok(r) => if r.status != 0x5A {
                attr_error(rs.subrange(1, rs.len() as int), slot + 1)
            } else if rs.len() < 2 {
                None
            } else {
                attr_error(rs.subrange(2, rs.len() as int), slot + 1)
            },
        }
    }
}

/// The error that ends a recovery report when the device's replies are
/// `rs`: that of the SmartApplet part, or of the AlphaWord part after it.
pub open spec fn recovery_error(rs: Seq<Seq<u8>>) -> Option<ClientError> {
    match applet_pages(rs, 0, 0) {
        Some((_, k)) => attr_error(rs.subrange(k as int, rs.len() as int), 1),
        None => pages_error(rs, 0),
    }
}

/// A SmartApplet part that ends with an error gives no report text.
proof fn lemma_pages_error_no_text(rs: Seq<Seq<u8>>, page_offset: nat, row: nat)
    requires
        pages_error(rs, page_offset) is Some,
    ensures
        applet_pages(rs, page_offset, row) is None,
    decreases rs.len(),
{
    if rs.len() >= 2 {
        let r = response_of(rs[0]);
        if r is Ok && r->Ok_0.status == 0x44 && r->Ok_0.argument != 0 && r->Ok_0.argument % 0x84 == 0 && sum16(rs[1])
            == r->Ok_0.trailing && record_windows(rs[1]).len() >= 7 {
            let count = rs[1].len() / 0x84;
            assert(record_windows(rs[1]).len() == count);
            if record_windows(rs[1]).len() > u32::MAX - page_offset {
                assert(rs.len() == 2);
                assert(rs.subrange(2, rs.len() as int).len() == 0);
            } else {
                lemma_pages_error_no_text(rs.subrange(2, rs.len() as int), page_offset + count, sat_u64(row + count));
            }
        }
    }
}

/// The recovery report when the device's replies are `rs`: the list
/// section, then the attribute section, using every reply.
pub open spec fn recovery_report(rs: Seq<Seq<u8>>) -> Option<Seq<char>> {
    match applet_pages(rs, 0, 0) {
        Some((t1, k)) => match attr_slots(rs.subrange(k as int, rs.len() as int), 1) {
            Some((t2, m)) => if k + m == rs.len() {
                Some("SmartApplet records"@ + t1 + nl("AlphaWord file attributes"@) + t2)
            } else {
                None
            },
            None => None,
        },
        None => None,
    }
}

/// The report line of record `raw` numbered `row`.
fn record_text(row: u64, raw: &[u8]) -> (r: String)
    requires
        raw@.len() == SMARTAPPLET_HEADER_SIZE,
    ensures
        r@ == record_line(row as nat, raw@),
{
    let mut line = String::from_str("row=");
    push_decimal(&mut line, row);
    let metadata = match parse_smartapplet_record(raw) {
        Ok(m) => m,
        Err(_) => {
            proof {
                assert(false);
            }
            return line;
        },
    };
    line.append(" applet_id=0x");
    push_hex(&mut line, metadata.applet_id as u64, 4);
    line.append(" version=");
    line.append(metadata.version.as_str());
    line.append(" name=");
    line.append(metadata.name.as_str());
    line.append(" file_size=");
    push_decimal(&mut line, metadata.file_size as u64);
    line.append(" applet_class=0x");
    push_hex(&mut line, metadata.applet_class as u64, 2);
    line.append(" record=");
    push_hex_bytes(&mut line, raw);
    proof {
        reveal_strlit("row=");
        reveal_strlit(" applet_id=0x");
        reveal_strlit(" version=");
        reveal_strlit(" name=");
        reveal_strlit(" file_size=");
        reveal_strlit(" applet_class=0x");
        reveal_strlit(" record=");
    }
    assert(line@ =~= record_line(row as nat, raw@));
    line
}

/// Whether eight bytes read "Switched".
fn is_switched(response: &[u8]) -> (r: bool)
    ensures
        r == (response@ == switched_bytes()),
{
    let expected: [u8; 8] = [0x53, 0x77, 0x69, 0x74, 0x63, 0x68, 0x65, 0x64];
    assert(expected@ =~= switched_bytes());
    if response.len() != 8 {
        return false;
    }
    let mut i: usize = 0;
    while i < 8
        invariant
            response@.len() == 8,
            expected@ == switched_bytes(),
            i <= 8,
            forall|k: int| 0 <= k < i ==> response@[k] == expected@[k],
        decreases 8 - i,
    {
        if response[i] != expected[i] {
            return false;
        }
        i = i + 1;
    }
    assert(response@ =~= switched_bytes());
    true
}

/// Checks a payload against the 16-bit sum the device announced.
pub fn validate_payload_sum(payload: &[u8], expected: u16) -> (r: Result<(), ClientError>)
    ensures
        r is Ok <==> sum16(payload@) == expected,
        r matches Err(e) ==> e == (ClientError::ChecksumMismatch { actual: sum16(payload@), expected }),
{
    let actual = checksum16(payload);
    if actual != expected {
        return Err(ClientError::ChecksumMismatch { actual, expected });
    }
    Ok(())
}

} // verus!
