//! The decisions of a firmware run between CPU steps: when the firmware is
//! woken from STOP, when periodic hardware is serviced, how a line-A trap
//! enters the firmware's handler, what a stopped run reports, and which
//! memory words a snapshot shows.

use vstd::prelude::*;
use crate::memory::AppletMemoryValidation;
use crate::text::{decimal, hex_digits, push_decimal, push_hex};

verus! {

/// Exception vector of a bus error.
pub const VECTOR_ACCESS_ERROR: u8 = 2;
/// Exception vector of an address error.
pub const VECTOR_ADDRESS_ERROR: u8 = 3;
/// Exception vector of an illegal instruction.
pub const VECTOR_ILLEGAL_INSTRUCTION: u8 = 4;
/// Exception vector of a line-A (0xAxxx) instruction.
pub const VECTOR_LINE_A: u8 = 10;
/// Exception vector of a line-F (0xFxxx) instruction.
pub const VECTOR_LINE_F: u8 = 11;
/// Where the firmware's idle loop stops the CPU to wait for an interrupt.
pub const FIRMWARE_STOP_PC: u32 = 0x0042_6756;
/// Steps between two services of the deferred timers.
pub const PERIODIC_SERVICE_STEPS: usize = 512;
/// Most lines the register access log of a run keeps.
pub const MMIO_TRACE_LIMIT: usize = 4096;
/// Stack of a validation call into an applet.
pub const VALIDATION_STACK: u32 = 0x0007_fb00;
/// Status word of a validation call.
pub const VALIDATION_STATUS: u32 = 0x0000_1200;
/// Applet memory of a validation call.
pub const VALIDATION_APPLET_MEMORY: u32 = 0x0007_f000;
/// Return address of a validation call: the firmware's STOP loop.
pub const VALIDATION_RETURN: u32 = 0x0042_6752;

/// Whether a run stopped at the firmware's idle STOP is woken again (no
/// interrupts are emulated, so the run goes on as if one came).
pub fn wakes_after_firmware_stop(stopped: bool, pc: u32) -> (r: bool)
    ensures
        r == (stopped && pc == FIRMWARE_STOP_PC),
{
    stopped && pc == FIRMWARE_STOP_PC
}

/// Whether the deferred timers are serviced after step number `steps`.
pub fn periodic_service_due(steps: usize) -> (r: bool)
    ensures
        r == (steps % PERIODIC_SERVICE_STEPS == 0),
{
    steps % PERIODIC_SERVICE_STEPS == 0
}

/// The handler a trap enters: only line-A traps are handed to the
/// firmware, through a vector that is set.
pub fn exception_handler(vector: u8, handler: Option<u32>) -> (r: Option<u32>)
    ensures
        r == (if vector == VECTOR_LINE_A && handler is Some && handler->0 != 0 { handler } else { None }),
{
    if vector != VECTOR_LINE_A {
        return None;
    }
    match handler {
        Some(h) => if h != 0 { Some(h) } else { None },
        None => None,
    }
}

/// The name of an exception vector as a report shows it.
pub open spec fn exception_name_of(vector: u8) -> Seq<char> {
    if vector == VECTOR_ACCESS_ERROR {
        "bus error"@
    } else if vector == VECTOR_ADDRESS_ERROR {
        "address error"@
    } else if vector == VECTOR_ILLEGAL_INSTRUCTION {
        "illegal instruction"@
    } else if vector == VECTOR_LINE_A {
        "line-a emulator"@
    } else if vector == VECTOR_LINE_F {
        "line-f emulator"@
    } else {
        "exception"@
    }
}

/// A run's report of an exception it could not handle: the vector's name,
/// its number and the address of the instruction.
pub fn format_exception(vector: u8, pc: u32) -> (r: String)
    ensures
        r@ == exception_name_of(vector) + " vector="@ + decimal(vector as nat) + " at 0x"@ + hex_digits(pc as nat, 8),
{
    let mut s = if vector == VECTOR_ACCESS_ERROR {
        String::from_str("bus error")
    } else if vector == VECTOR_ADDRESS_ERROR {
        String::from_str("address error")
    } else if vector == VECTOR_ILLEGAL_INSTRUCTION {
        String::from_str("illegal instruction")
    } else if vector == VECTOR_LINE_A {
        String::from_str("line-a emulator")
    } else if vector == VECTOR_LINE_F {
        String::from_str("line-f emulator")
    } else {
        String::from_str("exception")
    };
    s.append(" vector=");
    push_decimal(&mut s, vector as u64);
    s.append(" at 0x");
    push_hex(&mut s, pc as u64, 8);
    s
}

/// What a run shows as its state: its exception, else stopped or running.
pub fn status_text(last_exception: &Option<String>, stopped: bool) -> (r: String)
    ensures
        r@ == (match last_exception {
            Some(e) => e@,
            None => if stopped { "stopped"@ } else { "running"@ },
        }),
{
    match last_exception {
        Some(e) => e.clone(),
        None => if stopped { String::from_str("stopped") } else { String::from_str("running") },
    }
}

/// The applet area's state as a status line shows it.
pub fn applet_memory_status(validation: &AppletMemoryValidation) -> (r: String)
    ensures
        r@ == (if validation.valid { "OK - "@ } else { "Check - "@ }) + decimal(validation.count as nat) + " applets"@,
{
    let mut s = if validation.valid { String::from_str("OK - ") } else { String::from_str("Check - ") };
    push_decimal(&mut s, validation.count as u64);
    s.append(" applets");
    s
}

/// The stack of a validation call into an applet: return address, message,
/// parameter and status pointer, each with where it goes.
pub fn validation_entry_stack(message: u32, param: u32) -> (r: [(u32, u32); 4])
    ensures
        r@ == seq![
            (VALIDATION_STACK, VALIDATION_RETURN),
            ((VALIDATION_STACK + 4) as u32, message),
            ((VALIDATION_STACK + 8) as u32, param),
            ((VALIDATION_STACK + 12) as u32, VALIDATION_STATUS),
        ],
{
    let r = [
        (VALIDATION_STACK, VALIDATION_RETURN),
        (VALIDATION_STACK + 4, message),
        (VALIDATION_STACK + 8, param),
        (VALIDATION_STACK + 12, VALIDATION_STATUS),
    ];
    assert(r@ =~= seq![
        (VALIDATION_STACK, VALIDATION_RETURN),
        ((VALIDATION_STACK + 4) as u32, message),
        ((VALIDATION_STACK + 8) as u32, param),
        ((VALIDATION_STACK + 12) as u32, VALIDATION_STATUS),
    ]);
    r
}

/// The fixed firmware words a snapshot shows.
pub open spec fn fixed_debug_addresses() -> Seq<u32> {
    seq![
        0x0000_03e8u32, 0x0000_03ee, 0x0000_0400, 0x0000_0028, 0x0000_0070, 0x0000_0074, 0x0000_0078,
        0x0000_007c, 0x0000_00e4, 0x0000_00e8, 0x0000_00ec, 0x0000_00f0, 0x0000_0e0a, 0x0000_0e0e,
        0x0000_0e8a, 0x0000_0e8e, 0x0000_0e92, 0x0000_0e94, 0x0000_0fda, 0x0000_0fde, 0x0006_0034,
        0x0006_0044, 0x0000_355e, 0x0000_3562, 0x0000_35e2, 0x0000_35e6, 0x0000_35ec, 0x0000_3e8a,
    ]
}

/// The offsets from an address register that a snapshot shows.
pub open spec fn register_offsets() -> Seq<u32> {
    seq![0u32, 4, 8, 0x0c, 0x10, 0x34, 0x44]
}

/// The memory words a snapshot shows: the fixed firmware words, twelve
/// stack words (stopping at the top of memory), and seven words around
/// each of A2, A3, A4 and A6 (wrapping).
pub open spec fn debug_addresses(sp: u32, a: Seq<u32>) -> Seq<u32> {
    fixed_debug_addresses()
        + Seq::new(12, |i: int| (if sp + 4 * i > u32::MAX { u32::MAX as int } else { sp + 4 * i }) as u32)
        + Seq::new(28, |i: int| {
            let reg = if i < 7 { 2int } else if i < 14 { 3int } else if i < 21 { 4int } else { 6int };
            ((a[reg] + register_offsets()[i % 7]) % 0x1_0000_0000) as u32
        })
}

/// The memory words a snapshot shows, for stack pointer `sp` and address
/// registers `a`.
pub fn debug_word_addresses(sp: u32, a: [u32; 7]) -> (r: Vec<u32>)
    ensures
        r@ == debug_addresses(sp, a@),
{
    let fixed: [u32; 28] = [
        0x0000_03e8, 0x0000_03ee, 0x0000_0400, 0x0000_0028, 0x0000_0070, 0x0000_0074, 0x0000_0078,
        0x0000_007c, 0x0000_00e4, 0x0000_00e8, 0x0000_00ec, 0x0000_00f0, 0x0000_0e0a, 0x0000_0e0e,
        0x0000_0e8a, 0x0000_0e8e, 0x0000_0e92, 0x0000_0e94, 0x0000_0fda, 0x0000_0fde, 0x0006_0034,
        0x0006_0044, 0x0000_355e, 0x0000_3562, 0x0000_35e2, 0x0000_35e6, 0x0000_35ec, 0x0000_3e8a,
    ];
    assert(fixed@ =~= fixed_debug_addresses());
    let mut out: Vec<u32> = Vec::new();
    let mut i: usize = 0;
    while i < 28
        invariant
            i <= 28,
            fixed@ == fixed_debug_addresses(),
            out@ == fixed@.subrange(0, i as int),
        decreases 28 - i,
    {
        out.push(fixed[i]);
        i = i + 1;
        assert(out@ =~= fixed@.subrange(0, i as int));
    }
    let ghost stack = Seq::new(12, |k: int| (if sp + 4 * k > u32::MAX { u32::MAX as int } else { sp + 4 * k }) as u32);
    let mut k: u32 = 0;
    while k < 12
        invariant
            k <= 12,
            stack == Seq::new(12, |k: int| (if sp + 4 * k > u32::MAX { u32::MAX as int } else { sp + 4 * k }) as u32),
            out@ == fixed_debug_addresses() + stack.subrange(0, k as int),
        decreases 12 - k,
    {
        let step = k * 4;
        let addr = if sp > u32::MAX - step { u32::MAX } else { sp + step };
        out.push(addr);
        k = k + 1;
        assert(out@ =~= fixed_debug_addresses() + stack.subrange(0, k as int));
    }
    let offsets: [u32; 7] = [0, 4, 8, 0x0c, 0x10, 0x34, 0x44];
    assert(offsets@ =~= register_offsets());
    let regs: [usize; 4] = [2, 3, 4, 6];
    let ghost around = Seq::new(28, |i: int| {
        let reg = if i < 7 { 2int } else if i < 14 { 3int } else if i < 21 { 4int } else { 6int };
        ((a@[reg] + register_offsets()[i % 7]) % 0x1_0000_0000) as u32
    });
    let mut r: usize = 0;
    while r < 4
        invariant
            r <= 4,
            offsets@ == register_offsets(),
            regs@ == seq![2usize, 3, 4, 6],
            around == Seq::new(28, |i: int| {
                let reg = if i < 7 { 2int } else if i < 14 { 3int } else if i < 21 { 4int } else { 6int };
                ((a@[reg] + register_offsets()[i % 7]) % 0x1_0000_0000) as u32
            }),
            out@ == fixed_debug_addresses() + stack + around.subrange(0, 7 * r as int),
        decreases 4 - r,
    {
        let base = a[regs[r]];
        let mut o: usize = 0;
        while o < 7
            invariant
                o <= 7,
                r < 4,
                offsets@ == register_offsets(),
                regs@ == seq![2usize, 3, 4, 6],
                base == a@[regs@[r as int] as int],
                around == Seq::new(28, |i: int| {
                    let reg = if i < 7 { 2int } else if i < 14 { 3int } else if i < 21 { 4int } else { 6int };
                    ((a@[reg] + register_offsets()[i % 7]) % 0x1_0000_0000) as u32
                }),
                out@ == fixed_debug_addresses() + stack + around.subrange(0, 7 * r + o),
            decreases 7 - o,
        {
            let off = offsets[o];
            let addr = if base > u32::MAX - off { off - (u32::MAX - base) - 1 } else { base + off };
            proof {
                let i = 7 * r + o;
                assert(i % 7 == o && (i < 7 <==> r == 0) && (i < 14 <==> r <= 1) && (i < 21 <==> r <= 2)) by (nonlinear_arith)
                    requires
                        i == 7 * r + o,
                        0 <= o < 7,
                        0 <= r < 4,
                ;
                assert(around[i as int] == addr);
            }
            out.push(addr);
            o = o + 1;
            assert(out@ =~= fixed_debug_addresses() + stack + around.subrange(0, 7 * r + o));
        }
        r = r + 1;
    }
    assert(around.subrange(0, 28) =~= around);
    out
}

/// Adds a line to a run's register access log, which keeps its last
/// entries up to its limit.
pub fn push_access_line(log: &mut Vec<String>, line: String)
    ensures
        final(log)@ == (if old(log)@.len() + 1 > MMIO_TRACE_LIMIT {
            old(log)@.push(line).drop_first()
        } else {
            old(log)@.push(line)
        }),
{
    let ghost full = old(log)@.push(line);
    log.push(line);
    if log.len() > MMIO_TRACE_LIMIT {
        log.remove(0);
        assert(log@ =~= full.drop_first());
    }
}

} // verus!
