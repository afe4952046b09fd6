//! Compiles an applet definition to 68000 machine code: a dispatcher on the
//! message number, one block of code per handler, and trap stubs that the
//! handlers call for the system's display services.
//!
//! Branches are emitted with a zero displacement and patched once their
//! target is known; the assembler keeps, as ghost state, every branch site
//! and the target it was patched to, and proves that each patched branch
//! still lands on its target when the code is finished.

use vstd::prelude::*;
use vstd::string::StringSliceAdditionalSpecFns;
use crate::bytes::{be_u16_at, be_u16_bytes, be_u32_bytes, u32_to_be};
use crate::sdk::{Action, AppletDefinition, AppletManifest, Message, MessageHandler, key_code};
use crate::text::{decimal, push_decimal};

verus! {

/// Why an applet could not be compiled.
#[derive(Clone, Copy, Debug, PartialEq, Eq, Structural)]
pub enum CompileError {
    BranchOutOfRange,
    MissingHandler(Message),
    UnsupportedAction,
}

/// A message as `{:?}` prints it.
pub open spec fn message_debug(m: Message) -> Seq<char> {
    match m {
        Message::Init => "Init"@,
        Message::SetFocus => "SetFocus"@,
        Message::Char => "Char"@,
        Message::Key => "Key"@,
        Message::Identity => "Identity"@,
        Message::UsbMacInit => "UsbMacInit"@,
        Message::UsbPlug => "UsbPlug"@,
        Message::UsbPcInit => "UsbPcInit"@,
        Message::OtherUsb(v) => "OtherUsb("@ + decimal(v as nat) + ")"@,
    }
}

/// The name of a message as `{:?}` prints it.
pub fn message_name(message: Message) -> (r: String)
    ensures
        r@ == message_debug(message),
{
    match message {
        Message::Init => String::from_str("Init"),
        Message::SetFocus => String::from_str("SetFocus"),
        Message::Char => String::from_str("Char"),
        Message::Key => String::from_str("Key"),
        Message::Identity => String::from_str("Identity"),
        Message::UsbMacInit => String::from_str("UsbMacInit"),
        Message::UsbPlug => String::from_str("UsbPlug"),
        Message::UsbPcInit => String::from_str("UsbPcInit"),
        Message::OtherUsb(value) => {
            let mut s = String::from_str("OtherUsb(");
            push_decimal(&mut s, value as u64);
            s.append(")");
            s
        },
    }
}

impl CompileError {
    /// The error as a sentence.
    pub fn message(&self) -> (r: String)
        ensures
            r@ == match *self {
                CompileError::BranchOutOfRange => "generated branch target is out of range"@,
                CompileError::MissingHandler(m) => "missing handler for "@ + message_debug(m),
                CompileError::UnsupportedAction => "unsupported action sequence"@,
            },
    {
        match self {
            CompileError::BranchOutOfRange => String::from_str("generated branch target is out of range"),
            CompileError::MissingHandler(message) => {
                let mut s = String::from_str("missing handler for ");
                let name = message_name(*message);
                s.append(name.as_str());
                s
            },
            CompileError::UnsupportedAction => String::from_str("unsupported action sequence"),
        }
    }
}

/// A display service the handlers call through a stub.
#[derive(Clone, Copy, Debug, PartialEq, Eq, Structural)]
pub enum Trap {
    ClearScreen,
    SetTextRow,
    DrawChar,
    FlushText,
    Yield,
}

impl Trap {
    fn opcode(self) -> (r: u16)
        ensures
            r == trap_opcode(self),
    {
        match self {
            Trap::ClearScreen => 0xA000,
            Trap::SetTextRow => 0xA004,
            Trap::DrawChar => 0xA010,
            Trap::FlushText => 0xA098,
            Trap::Yield => 0xA25C,
        }
    }
}

spec fn trap_opcode(t: Trap) -> u16 {
    match t {
        Trap::ClearScreen => 0xA000,
        Trap::SetTextRow => 0xA004,
        Trap::DrawChar => 0xA010,
        Trap::FlushText => 0xA098,
        Trap::Yield => 0xA25C,
    }
}

/// The code offset a 16-bit branch at `site` jumps to: the displacement in
/// the two bytes after the opcode word, signed, counted from `site + 2`.
pub open spec fn branch_target(code: Seq<u8>, site: int) -> int {
    let v = be_u16_at(code, site + 2);
    site + 2 + (if v >= 0x8000 { v - 0x1_0000 } else { v })
}

/// The first bytes of every compiled applet: load the status pointer, clear
/// the status, load the message number.
pub open spec fn prologue() -> Seq<u8> {
    seq![0x20u8, 0x6F, 0x00, 0x0C, 0x42, 0x90, 0x20, 0x2F, 0x00, 0x04]
}

/// The last bytes of every compiled applet: the five trap stubs.
pub open spec fn trap_stubs() -> Seq<u8> {
    seq![0xA0u8, 0x00, 0xA0, 0x04, 0xA0, 0x10, 0xA0, 0x98, 0xA2, 0x5C]
}

struct Assembler {
    code: Vec<u8>,
    trap_calls: Vec<(usize, Trap)>,
    trap_stubs: Vec<(Trap, usize)>,
    sites: Ghost<Set<int>>,
    targets: Ghost<Map<int, int>>,
}

impl Assembler {
    /// Every branch site lies in the code, after the dispatcher's first
    /// compare, apart from every other; every patched site lands on its
    /// target; every trap call is a branch site.
    spec fn wf(&self) -> bool {
        &&& forall|s: int| #[trigger] self.sites@.contains(s) ==> 16 <= s && s + 4 <= self.code@.len()
        &&& forall|s: int, t: int|
            #[trigger] self.sites@.contains(s) && #[trigger] self.sites@.contains(t) && s < t ==> s + 4 <= t
        &&& forall|s: int| #[trigger] self.targets@.contains_key(s) ==> self.sites@.contains(s)
            && branch_target(self.code@, s) == self.targets@[s]
        &&& forall|k: int| 0 <= k < self.trap_calls@.len() ==> self.sites@.contains(#[trigger] self.trap_calls@[k].0 as int)
        &&& forall|k: int, m: int|
            0 <= k < m < self.trap_calls@.len() ==> (#[trigger] self.trap_calls@[k]).0 < (#[trigger] self.trap_calls@[m]).0
    }

    /// Appending keeps what the assembler knows.
    spec fn grows(&self, old: &Assembler) -> bool {
        &&& self.wf()
        &&& old.code@.len() <= self.code@.len()
        &&& self.code@.subrange(0, old.code@.len() as int) == old.code@
        &&& old.trap_calls@.len() <= self.trap_calls@.len()
        &&& forall|k: int| 0 <= k < old.trap_calls@.len() ==> #[trigger] self.trap_calls@[k] == old.trap_calls@[k]
        &&& forall|k: int| old.trap_calls@.len() <= k < self.trap_calls@.len() ==> (#[trigger] self.trap_calls@[k]).0 >= old.code@.len()
        &&& old.sites@.subset_of(self.sites@)
        &&& forall|s: int| #[trigger] self.sites@.contains(s) && !old.sites@.contains(s) ==> s >= old.code@.len()
        &&& forall|s: int| #[trigger] old.targets@.contains_key(s) ==> self.targets@.contains_key(s)
            && self.targets@[s] == old.targets@[s]
        &&& self.trap_stubs@ == old.trap_stubs@
    }

    fn new() -> (r: Self)
        ensures
            r.wf(),
            r.code@.len() == 0,
            r.sites@.is_empty(),
            r.targets@.dom().is_empty(),
            r.trap_calls@.len() == 0,
            r.trap_stubs@.len() == 0,
    {
        Assembler {
            code: Vec::new(),
            trap_calls: Vec::new(),
            trap_stubs: Vec::new(),
            sites: Ghost(Set::empty()),
            targets: Ghost(Map::empty()),
        }
    }

    fn offset(&self) -> (r: usize)
        ensures
            r == self.code@.len(),
    {
        self.code.len()
    }

    fn bytes(&mut self, bytes: &[u8])
        requires
            old(self).wf(),
        ensures
            final(self).code@ == old(self).code@ + bytes@,
            final(self).sites == old(self).sites,
            final(self).targets == old(self).targets,
            final(self).trap_calls == old(self).trap_calls,
            final(self).trap_stubs == old(self).trap_stubs,
            final(self).wf(),
            final(self).grows(old(self)),
    {
        let ghost c0 = self.code@;
        let mut i: usize = 0;
        while i < bytes.len()
            invariant
                i <= bytes@.len(),
                self.code@ == c0 + bytes@.subrange(0, i as int),
                self.sites == old(self).sites,
                self.targets == old(self).targets,
                self.trap_calls == old(self).trap_calls,
                self.trap_stubs == old(self).trap_stubs,
                c0 == old(self).code@,
                old(self).wf(),
            decreases bytes@.len() - i,
        {
            self.code.push(bytes[i]);
            i = i + 1;
            assert(self.code@ =~= c0 + bytes@.subrange(0, i as int));
        }
        assert(bytes@.subrange(0, bytes@.len() as int) =~= bytes@);
        proof {
            assert forall|s: int| #[trigger] self.targets@.contains_key(s) implies branch_target(self.code@, s) == self.targets@[s] by {
                assert(self.code@[s + 2] == c0[s + 2]);
                assert(self.code@[s + 3] == c0[s + 3]);
            }
            assert(self.code@.subrange(0, c0.len() as int) =~= c0);
        }
    }

    fn u32(&mut self, value: u32)
        requires
            old(self).wf(),
        ensures
            final(self).code@ == old(self).code@ + be_u32_bytes(value),
            final(self).sites == old(self).sites,
            final(self).targets == old(self).targets,
            final(self).trap_calls == old(self).trap_calls,
            final(self).trap_stubs == old(self).trap_stubs,
            final(self).grows(old(self)),
    {
        let b = u32_to_be(value);
        self.bytes(b.as_slice());
    }

    fn rts(&mut self)
        requires
            old(self).wf(),
        ensures
            final(self).code@ == old(self).code@ + seq![0x4Eu8, 0x75],
            final(self).sites == old(self).sites,
            final(self).targets == old(self).targets,
            final(self).trap_calls == old(self).trap_calls,
            final(self).grows(old(self)),
    {
        let b: [u8; 2] = [0x4E, 0x75];
        assert(b@ =~= seq![0x4Eu8, 0x75]);
        self.bytes(b.as_slice());
    }

    /// Emits a 16-bit branch with opcode `opcode` and a zero displacement;
    /// returns its site.
    fn branch(&mut self, opcode: u8) -> (site: usize)
        requires
            old(self).wf(),
            old(self).code@.len() >= 16,
        ensures
            site == old(self).code@.len(),
            final(self).code@ == old(self).code@ + seq![opcode, 0u8, 0u8, 0u8],
            final(self).sites@ == old(self).sites@.insert(site as int),
            final(self).targets == old(self).targets,
            final(self).trap_calls == old(self).trap_calls,
            final(self).grows(old(self)),
    {
        let site = self.code.len();
        let b: [u8; 4] = [opcode, 0, 0, 0];
        assert(b@ =~= seq![opcode, 0u8, 0u8, 0u8]);
        let ghost s0 = *self;
        self.bytes(b.as_slice());
        proof {
            self.sites@ = self.sites@.insert(site as int);
            assert(self.code@.subrange(0, old(self).code@.len() as int) =~= old(self).code@);
            assert forall|s: int, t: int|
                #[trigger] self.sites@.contains(s) && #[trigger] self.sites@.contains(t) && s < t implies s + 4 <= t by {
                if t == site {
                    assert(s0.sites@.contains(s));
                } else {
                    assert(s0.sites@.contains(t));
                    assert(s0.sites@.contains(s));
                }
            }
            assert forall|s: int| #[trigger] self.sites@.contains(s) && !old(self).sites@.contains(s) implies s >= old(self).code@.len() by {}
        }
        site
    }

    fn branch_if_equal(&mut self, value: u32) -> (site: usize)
        requires
            old(self).wf(),
            old(self).code@.len() >= 10,
        ensures
            site == old(self).code@.len() + 6,
            final(self).code@ == old(self).code@ + (seq![0x0Cu8, 0x80] + be_u32_bytes(value) + seq![0x67u8, 0, 0, 0]),
            final(self).sites@ == old(self).sites@.insert(site as int),
            final(self).targets == old(self).targets,
            final(self).trap_calls == old(self).trap_calls,
            final(self).grows(old(self)),
    {
        let ghost c0 = self.code@;
        let ghost s0 = *self;
        let b: [u8; 2] = [0x0C, 0x80];
        self.bytes(b.as_slice());
        let ghost s1 = *self;
        self.u32(value);
        proof { lemma_grows_trans(&s0, &s1, self); }
        let ghost s2 = *self;
        let site = self.branch(0x67);
        proof { lemma_grows_trans(&s0, &s2, self); }
        assert(self.code@ =~= c0 + (seq![0x0Cu8, 0x80] + be_u32_bytes(value) + seq![0x67u8, 0, 0, 0]));
        site
    }

    fn branch_always(&mut self) -> (site: usize)
        requires
            old(self).wf(),
            old(self).code@.len() >= 16,
        ensures
            site == old(self).code@.len(),
            final(self).code@ == old(self).code@ + seq![0x60u8, 0u8, 0u8, 0u8],
            final(self).sites@ == old(self).sites@.insert(site as int),
            final(self).targets == old(self).targets,
            final(self).trap_calls == old(self).trap_calls,
            final(self).grows(old(self)),
    {
        self.branch(0x60)
    }

    /// Makes the branch at `site` jump to `target`: its displacement is
    /// `target - (site + 2)`, which must fit in 16 signed bits.
    fn patch_branch(&mut self, site: usize, target: usize) -> (r: Result<(), CompileError>)
        requires
            old(self).wf(),
            old(self).sites@.contains(site as int),
        ensures
            final(self).wf(),
            final(self).sites == old(self).sites,
            final(self).trap_calls == old(self).trap_calls,
            final(self).trap_stubs == old(self).trap_stubs,
            final(self).code@.len() == old(self).code@.len(),
            r is Ok <==> -0x8000 <= target - (site + 2) < 0x8000,
            r is Ok ==> final(self).code@ == old(self).code@.update(site + 2, final(self).code@[site + 2]).update(
                site + 3,
                final(self).code@[site + 3],
            ) && branch_target(final(self).code@, site as int) == target
                && final(self).targets@ == old(self).targets@.insert(site as int, target as int),
            r is Ok && site + 2 <= target ==> final(self).code@[site + 2] == ((target - (site + 2)) / 0x100) as u8
                && final(self).code@[site + 3] == ((target - (site + 2)) % 0x100) as u8,
            r is Err ==> *final(self) == *old(self) && r == Err::<(), CompileError>(CompileError::BranchOutOfRange),
    {
        let n = self.code.len();
        assert(site + 4 <= n);
        let d: i128 = target as i128 - (site as i128 + 2);
        if d < -0x8000 || d >= 0x8000 {
            return Err(CompileError::BranchOutOfRange);
        }
        let v: u16 = if d < 0 { (d + 0x1_0000) as u16 } else { d as u16 };
        let hi = (v / 0x100) as u8;
        let lo = (v % 0x100) as u8;
        let ghost c0 = self.code@;
        self.code.set(site + 2, hi);
        self.code.set(site + 3, lo);
        proof {
            self.targets@ = self.targets@.insert(site as int, target as int);
            assert(be_u16_at(self.code@, site + 2) == v);
            assert forall|s: int| #[trigger] self.targets@.contains_key(s) implies self.sites@.contains(s)
                && branch_target(self.code@, s) == self.targets@[s] by {
                if s != site {
                    assert(old(self).sites@.contains(s));
                    assert(s + 4 <= site || site + 4 <= s);
                    assert(self.code@[s + 2] == c0[s + 2]);
                    assert(self.code@[s + 3] == c0[s + 3]);
                }
            }
        }
        Ok(())
    }

    fn call_trap(&mut self, trap: Trap)
        requires
            old(self).wf(),
            old(self).code@.len() >= 16,
        ensures
            final(self).code@ == old(self).code@ + trap_call_raw(),
            final(self).trap_calls@ == old(self).trap_calls@.push((old(self).code@.len() as usize, trap)),
            call_sites(final(self).trap_calls@) == call_sites(old(self).trap_calls@).push((old(self).code@.len() as int, trap)),
            final(self).grows(old(self)),
    {
        let ghost c0 = self.trap_calls@;
        let site = self.branch(0x61);
        self.trap_calls.push((site, trap));
        assert(self.sites@.contains(site as int));
        proof {
            assert forall|k: int| 0 <= k < c0.len() implies (#[trigger] c0[k]).0 < site by {
                assert(old(self).sites@.contains(c0[k].0 as int));
            }
            assert(call_sites(self.trap_calls@) =~= call_sites(c0).push((site as int, trap)));
        }
    }

    fn emit_trap_stubs(&mut self)
        requires
            old(self).wf(),
            old(self).trap_stubs@.len() == 0,
        ensures
            final(self).wf(),
            final(self).code@ == old(self).code@ + trap_stubs(),
            final(self).sites == old(self).sites,
            final(self).targets == old(self).targets,
            final(self).trap_calls == old(self).trap_calls,
            final(self).trap_stubs@.len() == 5,
            final(self).trap_stubs@ == seq![
                (Trap::ClearScreen, old(self).code@.len() as usize),
                (Trap::SetTextRow, (old(self).code@.len() + 2) as usize),
                (Trap::DrawChar, (old(self).code@.len() + 4) as usize),
                (Trap::FlushText, (old(self).code@.len() + 6) as usize),
                (Trap::Yield, (old(self).code@.len() + 8) as usize),
            ],
    {
        let ghost c0 = self.code@;
        let traps: [Trap; 5] = [Trap::ClearScreen, Trap::SetTextRow, Trap::DrawChar, Trap::FlushText, Trap::Yield];
        assert(traps@ =~= seq![Trap::ClearScreen, Trap::SetTextRow, Trap::DrawChar, Trap::FlushText, Trap::Yield]);
        assert(c0 + trap_stubs().subrange(0, 0) =~= c0);
        let mut i: usize = 0;
        while i < 5
            invariant
                i <= 5,
                traps@ == seq![Trap::ClearScreen, Trap::SetTextRow, Trap::DrawChar, Trap::FlushText, Trap::Yield],
                self.wf(),
                self.code@ == c0 + trap_stubs().subrange(0, 2 * i),
                self.sites == old(self).sites,
                self.targets == old(self).targets,
                self.trap_calls == old(self).trap_calls,
                self.trap_stubs@.len() == i,
                forall|k: int| 0 <= k < i ==> (#[trigger] self.trap_stubs@[k]).0 == traps@[k],
                forall|k: int| 0 <= k < i ==> (#[trigger] self.trap_stubs@[k]).1 == c0.len() + 2 * k,
            decreases 5 - i,
        {
            let offset = self.offset();
            self.trap_stubs.push((traps[i], offset));
            let op = traps[i].opcode();
            let b: [u8; 2] = [(op / 0x100) as u8, (op % 0x100) as u8];
            self.bytes(b.as_slice());
            i = i + 1;
            assert(self.code@ =~= c0 + trap_stubs().subrange(0, 2 * i));
        }
        assert(trap_stubs().subrange(0, 10) =~= trap_stubs());
        assert(self.trap_stubs@ =~= seq![
            (Trap::ClearScreen, c0.len() as usize),
            (Trap::SetTextRow, (c0.len() + 2) as usize),
            (Trap::DrawChar, (c0.len() + 4) as usize),
            (Trap::FlushText, (c0.len() + 6) as usize),
            (Trap::Yield, (c0.len() + 8) as usize),
        ]);
    }

    fn set_text_row(&mut self, row: u8)
        requires
            old(self).wf(),
            old(self).code@.len() >= 16,
        ensures
            final(self).code@ == old(self).code@ + row_raw(row),
            call_sites(final(self).trap_calls@) == call_sites(old(self).trap_calls@).push(
                (old(self).code@.len() as int + 18, Trap::SetTextRow),
            ),
            final(self).code@.len() == old(self).code@.len() + 26,
            final(self).grows(old(self)),
    {
        let ghost s0 = *self;
        let a: [u8; 6] = [0x2F, 0x3C, 0x00, 0x00, 0x00, 0x1C];
        self.bytes(a.as_slice());
        let ghost s1 = *self;
        let b: [u8; 6] = [0x2F, 0x3C, 0x00, 0x00, 0x00, 0x01];
        self.bytes(b.as_slice());
        proof { lemma_grows_trans(&s0, &s1, self); }
        let ghost s2 = *self;
        let c: [u8; 6] = [0x2F, 0x3C, 0x00, 0x00, 0x00, row];
        self.bytes(c.as_slice());
        proof { lemma_grows_trans(&s0, &s2, self); }
        let ghost s3 = *self;
        self.call_trap(Trap::SetTextRow);
        proof { lemma_grows_trans(&s0, &s3, self); }
        let ghost s4 = *self;
        let d: [u8; 4] = [0x4F, 0xEF, 0x00, 0x0C];
        self.bytes(d.as_slice());
        proof { lemma_grows_trans(&s0, &s4, self); }
        assert(self.code@ =~= s0.code@ + row_raw(row));
    }

    fn draw_char(&mut self, byte: u8)
        requires
            old(self).wf(),
            old(self).code@.len() >= 16,
        ensures
            final(self).code@ == old(self).code@ + char_raw(byte),
            call_sites(final(self).trap_calls@) == call_sites(old(self).trap_calls@).push(
                (old(self).code@.len() as int + 4, Trap::DrawChar),
            ),
            final(self).code@.len() == old(self).code@.len() + 10,
            final(self).grows(old(self)),
    {
        let ghost s0 = *self;
        let a: [u8; 4] = [0x70, byte, 0x2F, 0x00];
        self.bytes(a.as_slice());
        let ghost s1 = *self;
        self.call_trap(Trap::DrawChar);
        proof { lemma_grows_trans(&s0, &s1, self); }
        let ghost s2 = *self;
        let b: [u8; 2] = [0x58, 0x8F];
        self.bytes(b.as_slice());
        proof { lemma_grows_trans(&s0, &s2, self); }
        assert(self.code@ =~= s0.code@ + char_raw(byte));
    }

    fn status_return(&mut self, status: u8)
        requires
            old(self).wf(),
        ensures
            final(self).code@ == old(self).code@ + seq![0x72u8, status, 0x20, 0x81, 0x4E, 0x75],
            final(self).trap_calls == old(self).trap_calls,
            final(self).code@.len() == old(self).code@.len() + 6,
            final(self).grows(old(self)),
    {
        let ghost s0 = *self;
        let a: [u8; 4] = [0x72, status, 0x20, 0x81];
        self.bytes(a.as_slice());
        let ghost s1 = *self;
        self.rts();
        proof { lemma_grows_trans(&s0, &s1, self); }
        assert(self.code@ =~= s0.code@ + seq![0x72u8, status, 0x20, 0x81, 0x4E, 0x75]);
    }

    fn jsr_absolute(&mut self, address: u32)
        requires
            old(self).wf(),
        ensures
            final(self).code@ == old(self).code@ + jsr_raw(address),
            final(self).trap_calls == old(self).trap_calls,
            final(self).code@.len() == old(self).code@.len() + 6,
            final(self).grows(old(self)),
    {
        let ghost s0 = *self;
        let a: [u8; 2] = [0x4E, 0xB9];
        self.bytes(a.as_slice());
        let ghost s1 = *self;
        self.u32(address);
        proof { lemma_grows_trans(&s0, &s1, self); }
        assert(self.code@ =~= s0.code@ + jsr_raw(address));
    }
}

proof fn lemma_grows_refl(a: &Assembler)
    requires
        a.wf(),
    ensures
        a.grows(a),
{
    assert(a.code@.subrange(0, a.code@.len() as int) =~= a.code@);
}

proof fn lemma_grows_trans(a: &Assembler, b: &Assembler, c: &Assembler)
    requires
        b.grows(a),
        c.grows(b),
    ensures
        c.grows(a),
{
    assert(c.code@.subrange(0, a.code@.len() as int) =~= a.code@) by {
        assert forall|i: int| 0 <= i < a.code@.len() implies c.code@[i] == a.code@[i] by {
            assert(c.code@.subrange(0, b.code@.len() as int)[i] == b.code@[i]);
            assert(b.code@.subrange(0, a.code@.len() as int)[i] == a.code@[i]);
        }
    }
    assert forall|k: int| 0 <= k < a.trap_calls@.len() implies #[trigger] c.trap_calls@[k] == a.trap_calls@[k] by {
        assert(c.trap_calls@[k] == b.trap_calls@[k]);
    }
    assert forall|k: int| a.trap_calls@.len() <= k < c.trap_calls@.len() implies (#[trigger] c.trap_calls@[k]).0 >= a.code@.len() by {
        if k < b.trap_calls@.len() {
            assert(c.trap_calls@[k] == b.trap_calls@[k]);
        }
    }
}

/// Whether handler `i` is the first of `hs` for message `m`.
pub open spec fn is_first(hs: Seq<MessageHandler>, m: Message, i: int) -> bool {
    &&& 0 <= i < hs.len()
    &&& hs[i].message == m
    &&& forall|k: int| 0 <= k < i ==> (#[trigger] hs[k]).message != m
}

/// The actions of the first handler of `d` for message `m`.
pub open spec fn first_actions(d: AppletDefinition, m: Message) -> Seq<Action> {
    d.handlers@[choose|i: int| is_first(d.handlers@, m, i)].actions@
}

proof fn lemma_first_unique(hs: Seq<MessageHandler>, m: Message, i: int, j: int)
    requires
        is_first(hs, m, i),
        is_first(hs, m, j),
    ensures
        i == j,
{
    if i < j {
        assert(hs[i].message != m);
    } else if j < i {
        assert(hs[j].message != m);
    }
}

/// The actions of the first handler for `message`.
fn actions_for(definition: &AppletDefinition, message: Message) -> (r: Result<&Vec<Action>, CompileError>)
    ensures
        match r {
            Ok(actions) => (exists|i: int| 0 <= i < definition.handlers@.len()
                && (#[trigger] definition.handlers@[i]).message == message
                && definition.handlers@[i].actions == *actions) && actions@ == first_actions(*definition, message),
            Err(e) => e == CompileError::MissingHandler(message)
                && forall|i: int| 0 <= i < definition.handlers@.len() ==> (#[trigger] definition.handlers@[i]).message != message,
        },
{
    let mut i: usize = 0;
    while i < definition.handlers.len()
        invariant
            i <= definition.handlers@.len(),
            forall|k: int| 0 <= k < i ==> (#[trigger] definition.handlers@[k]).message != message,
        decreases definition.handlers@.len() - i,
    {
        if definition.handlers[i].message == message {
            proof {
                assert(is_first(definition.handlers@, message, i as int));
                let j = choose|j: int| is_first(definition.handlers@, message, j);
                lemma_first_unique(definition.handlers@, message, i as int, j);
            }
            return Ok(&definition.handlers[i].actions);
        }
        i = i + 1;
    }
    Err(CompileError::MissingHandler(message))
}

/// Whether two actions are the same: the same variant with the same
/// fields, texts compared by their characters and nested actions in turn.
pub open spec fn action_eq(x: Action, y: Action) -> bool
    decreases x,
{
    match x {
        Action::ClearScreen => y is ClearScreen,
        Action::WriteLines { start_row: r1, lines: l1 } => match y {
            Action::WriteLines { start_row: r2, lines: l2 } => r1 == r2 && l1@.len() == l2@.len()
                && forall|i: int| 0 <= i < l1@.len() ==> (#[trigger] l1@[i])@ == l2@[i]@,
            _ => false,
        },
        Action::IdleForever => y is IdleForever,
        Action::ReturnStatus(a) => y matches Action::ReturnStatus(b) && a == b,
        Action::CompleteHidToDirect => y is CompleteHidToDirect,
        Action::MarkDirectConnected => y is MarkDirectConnected,
        Action::ReturnAppletId => y is ReturnAppletId,
        Action::IfKey { key: k1, actions: a1 } => match y {
            Action::IfKey { key: k2, actions: a2 } => k1 == k2 && actions_eq(a1@, a2@),
            _ => false,
        },
    }
}

/// Whether two action lists are the same, action for action.
pub open spec fn actions_eq(a: Seq<Action>, b: Seq<Action>) -> bool
    decreases a,
{
    a.len() == b.len() && forall|i: int| 0 <= i < a.len() ==> action_eq(#[trigger] a[i], b[i])
}

/// Whether two action lists are the same, action for action.
fn same_actions(a: &Vec<Action>, b: &Vec<Action>) -> (r: bool)
    ensures
        r == actions_eq(a@, b@),
    decreases a,
{
    if a.len() != b.len() {
        return false;
    }
    let mut i: usize = 0;
    while i < a.len()
        invariant
            i <= a@.len(),
            a@.len() == b@.len(),
            forall|k: int| 0 <= k < i ==> action_eq(#[trigger] a@[k], b@[k]),
        decreases a@.len() - i,
    {
        if !same_action(&a[i], &b[i]) {
            return false;
        }
        i = i + 1;
    }
    true
}

/// Whether two actions are the same.
fn same_action(x: &Action, y: &Action) -> (r: bool)
    ensures
        r == action_eq(*x, *y),
    decreases x,
{
    match x {
        Action::ClearScreen => matches!(y, Action::ClearScreen),
        Action::WriteLines { start_row: r1, lines: l1 } => match y {
            Action::WriteLines { start_row: r2, lines: l2 } => {
                if *r1 != *r2 || l1.len() != l2.len() {
                    return false;
                }
                let mut i: usize = 0;
                while i < l1.len()
                    invariant
                        i <= l1@.len(),
                        l1@.len() == l2@.len(),
                        *x matches Action::WriteLines { start_row: s, lines: l } && s == *r1 && l == *l1,
                        *y matches Action::WriteLines { start_row: s, lines: l } && s == *r1 && l == *l2,
                        forall|k: int| 0 <= k < i ==> (#[trigger] l1@[k])@ == l2@[k]@,
                    decreases l1@.len() - i,
                {
                    if !crate::text::text_eq(l1[i], l2[i]) {
                        assert(l1@[i as int]@ != l2@[i as int]@);
                        return false;
                    }
                    i = i + 1;
                }
                true
            },
            _ => false,
        },
        Action::IdleForever => matches!(y, Action::IdleForever),
        Action::ReturnStatus(a) => match y {
            Action::ReturnStatus(b) => *a == *b,
            _ => false,
        },
        Action::CompleteHidToDirect => matches!(y, Action::CompleteHidToDirect),
        Action::MarkDirectConnected => matches!(y, Action::MarkDirectConnected),
        Action::ReturnAppletId => matches!(y, Action::ReturnAppletId),
        Action::IfKey { key: k1, actions: a1 } => match y {
            Action::IfKey { key: k2, actions: a2 } => *k1 == *k2 && same_actions(a1, a2),
            _ => false,
        },
    }
}

/// The code bytes of a line of text drawn on a row: the row set-up, then
/// ten bytes a byte of the line.
pub open spec fn lines_size(lines: Seq<&'static str>) -> int
    decreases lines.len(),
{
    if lines.len() == 0 {
        0
    } else {
        lines_size(lines.drop_last()) + 26 + 10 * lines.last().spec_bytes().len()
    }
}

/// The number of code bytes an action compiles to.
pub open spec fn action_size(a: Action) -> int
    decreases a,
{
    match a {
        Action::ClearScreen => 4,
        Action::WriteLines { start_row: _, lines } => lines_size(lines@),
        Action::IdleForever => 10,
        Action::ReturnStatus(_) => 6,
        Action::CompleteHidToDirect => 58,
        Action::MarkDirectConnected => 6,
        Action::ReturnAppletId => 10,
        Action::IfKey { key: _, actions } => 14 + actions_size(actions@),
    }
}

/// The number of code bytes a list of actions compiles to.
pub open spec fn actions_size(s: Seq<Action>) -> int
    decreases s,
{
    if s.len() == 0 {
        0
    } else {
        actions_size(s.drop_last()) + action_size(s.last())
    }
}

/// Whether an action can be compiled: its text rows stay within 255, and
/// the code a key test skips is within reach of its branch.
pub open spec fn action_ok(a: Action) -> bool
    decreases a,
{
    match a {
        Action::WriteLines { start_row, lines } => start_row + lines@.len() <= 256,
        Action::IfKey { key: _, actions } => actions_ok(actions@) && actions_size(actions@) + 2 < 0x8000,
        _ => true,
    }
}

/// Whether every action of a list can be compiled.
pub open spec fn actions_ok(s: Seq<Action>) -> bool
    decreases s,
{
    if s.len() == 0 {
        true
    } else {
        actions_ok(s.drop_last()) && action_ok(s.last())
    }
}

proof fn lemma_actions_size_nonneg(s: Seq<Action>)
    ensures
        actions_size(s) >= 0,
    decreases s,
{
    if s.len() > 0 {
        lemma_actions_size_nonneg(s.drop_last());
        lemma_action_size_nonneg(s.last());
    }
}

proof fn lemma_action_size_nonneg(a: Action)
    ensures
        action_size(a) >= 0,
    decreases a,
{
    match a {
        Action::WriteLines { start_row: _, lines } => lemma_lines_size_nonneg(lines@),
        Action::IfKey { key: _, actions } => {
            assert(decreases_to!(a => actions));
            lemma_actions_size_nonneg(actions@);
        },
        _ => {},
    }
}

proof fn lemma_lines_size_nonneg(lines: Seq<&'static str>)
    ensures
        lines_size(lines) >= 0,
    decreases lines.len(),
{
    if lines.len() > 0 {
        lemma_lines_size_nonneg(lines.drop_last());
    }
}

/// The trap calls of an assembler as code offsets.
spec fn call_sites(calls: Seq<(usize, Trap)>) -> Seq<(int, Trap)> {
    calls.map_values(|c: (usize, Trap)| (c.0 as int, c.1))
}

/// A trap call as emitted: a `bsr` whose displacement is filled in once the
/// stubs are placed.
pub open spec fn trap_call_raw() -> Seq<u8> {
    seq![0x61u8, 0x00, 0x00, 0x00]
}

/// A `jsr` to an absolute address.
pub open spec fn jsr_raw(address: u32) -> Seq<u8> {
    seq![0x4Eu8, 0xB9] + be_u32_bytes(address)
}

/// Moves the text cursor to the start of `row`.
pub open spec fn row_raw(row: u8) -> Seq<u8> {
    seq![0x2Fu8, 0x3C, 0x00, 0x00, 0x00, 0x1C, 0x2F, 0x3C, 0x00, 0x00, 0x00, 0x01, 0x2F, 0x3C, 0x00, 0x00, 0x00, row]
        + trap_call_raw() + seq![0x4Fu8, 0xEF, 0x00, 0x0C]
}

/// Draws the character `byte` at the cursor.
pub open spec fn char_raw(byte: u8) -> Seq<u8> {
    seq![0x70u8, byte, 0x2F, 0x00] + trap_call_raw() + seq![0x58u8, 0x8F]
}

/// Draws the characters of `text`, one after the other.
pub open spec fn chars_raw(text: Seq<u8>) -> Seq<u8>
    decreases text.len(),
{
    if text.len() == 0 {
        Seq::empty()
    } else {
        chars_raw(text.drop_last()) + char_raw(text.last())
    }
}

/// Draws each line on its row, the first on `start_row`.
pub open spec fn lines_raw(lines: Seq<&'static str>, start_row: u8) -> Seq<u8>
    decreases lines.len(),
{
    if lines.len() == 0 {
        Seq::empty()
    } else {
        lines_raw(lines.drop_last(), start_row) + row_raw((start_row + lines.len() - 1) as u8) + chars_raw(
            lines.last().spec_bytes(),
        )
    }
}

/// Hands the USB link over from HID to direct mode.
pub open spec fn hid_to_direct_raw() -> Seq<u8> {
    seq![0x42u8, 0xA7, 0x42, 0xA7, 0x48, 0x78, 0x00, 0x01] + jsr_raw(0x0041_F9A0) + seq![0x48u8, 0x78, 0x00, 0x64]
        + jsr_raw(0x0042_4780) + seq![0x13u8, 0xFC, 0x00, 0x01, 0x00, 0x01, 0x3C, 0xF9] + jsr_raw(0x0044_044E)
        + seq![0x48u8, 0x78, 0x00, 0x64] + jsr_raw(0x0042_4780) + seq![0x4Fu8, 0xEF, 0x00, 0x14] + jsr_raw(0x0044_047C)
}

/// The code an action of an applet with id `id` compiles to, its trap
/// calls not yet pointed at their stubs.
pub open spec fn action_raw(a: Action, id: u16) -> Seq<u8>
    decreases a,
{
    match a {
        Action::ClearScreen => trap_call_raw(),
        Action::WriteLines { start_row, lines } => lines_raw(lines@, start_row),
        Action::IdleForever => trap_call_raw() + trap_call_raw() + seq![0x60u8, 0xFA],
        Action::ReturnStatus(status) => seq![0x72u8, status, 0x20, 0x81, 0x4E, 0x75],
        Action::CompleteHidToDirect => hid_to_direct_raw(),
        Action::MarkDirectConnected => jsr_raw(0x0041_0B26),
        Action::ReturnAppletId => seq![0x22u8, 0x3C] + be_u32_bytes(id as u32) + seq![0x20u8, 0x81, 0x4E, 0x75],
        Action::IfKey { key, actions } => seq![0x22u8, 0x2F, 0x00, 0x08, 0x0C, 0x81] + be_u32_bytes(key_code(key))
            + seq![0x66u8, 0x00] + be_u16_bytes((2 + actions_size(actions@)) as u16) + actions_raw(actions@, id),
    }
}

/// The code a list of actions compiles to, action after action.
pub open spec fn actions_raw(s: Seq<Action>, id: u16) -> Seq<u8>
    decreases s,
{
    if s.len() == 0 {
        Seq::empty()
    } else {
        actions_raw(s.drop_last(), id) + action_raw(s.last(), id)
    }
}

/// The trap calls of `n` drawn characters whose code starts at `at`.
pub open spec fn chars_traps(n: nat, at: int) -> Seq<(int, Trap)> {
    Seq::new(n, |k: int| (at + 10 * k + 4, Trap::DrawChar))
}

/// The trap calls of lines drawn by code that starts at `at`.
pub open spec fn lines_traps(lines: Seq<&'static str>, at: int) -> Seq<(int, Trap)>
    decreases lines.len(),
{
    if lines.len() == 0 {
        Seq::empty()
    } else {
        let row_at = at + lines_size(lines.drop_last());
        lines_traps(lines.drop_last(), at) + seq![(row_at + 18, Trap::SetTextRow)] + chars_traps(
            lines.last().spec_bytes().len(),
            row_at + 26,
        )
    }
}

/// The trap calls, offset and trap, of the code of `a` placed at `at`.
pub open spec fn action_traps(a: Action, at: int) -> Seq<(int, Trap)>
    decreases a,
{
    match a {
        Action::ClearScreen => seq![(at, Trap::ClearScreen)],
        Action::WriteLines { start_row: _, lines } => lines_traps(lines@, at),
        Action::IdleForever => seq![(at, Trap::FlushText), (at + 4, Trap::Yield)],
        Action::IfKey { key: _, actions } => actions_traps(actions@, at + 14),
        _ => Seq::empty(),
    }
}

/// The trap calls of the code of a list of actions placed at `at`.
pub open spec fn actions_traps(s: Seq<Action>, at: int) -> Seq<(int, Trap)>
    decreases s,
{
    if s.len() == 0 {
        Seq::empty()
    } else {
        actions_traps(s.drop_last(), at) + action_traps(s.last(), at + actions_size(s.drop_last()))
    }
}

/// Emits the code of a handler.
fn emit_actions(out: &mut Assembler, actions: &Vec<Action>, manifest: &AppletManifest) -> (r: Result<(), CompileError>)
    requires
        old(out).wf(),
        old(out).code@.len() >= 16,
        old(out).trap_stubs@.len() == 0,
    ensures
        final(out).grows(old(out)),
        final(out).trap_stubs@.len() == 0,
        !(r matches Err(CompileError::MissingHandler(_))),
        r is Ok <==> actions_ok(actions@),
        r is Ok ==> final(out).code@.len() == old(out).code@.len() + actions_size(actions@),
        r is Ok ==> final(out).code@ == old(out).code@ + actions_raw(actions@, manifest.id.0),
        r is Ok ==> call_sites(final(out).trap_calls@) == call_sites(old(out).trap_calls@) + actions_traps(
            actions@,
            old(out).code@.len() as int,
        ),
        r is Err ==> r == Err::<(), CompileError>(CompileError::UnsupportedAction) || r == Err::<(), CompileError>(
            CompileError::BranchOutOfRange,
        ),
    decreases actions,
{
    let mut i: usize = 0;
    let ghost a0 = *out;
    proof {
        lemma_grows_refl(&a0);
        assert(actions@.subrange(0, 0) =~= Seq::<Action>::empty());
    }
    while i < actions.len()
        invariant
            i <= actions@.len(),
            out.grows(&a0),
            a0 == *old(out),
            a0.wf(),
            a0.code@.len() >= 16,
            out.trap_stubs@.len() == 0,
            actions_ok(actions@.subrange(0, i as int)),
            out.code@.len() == a0.code@.len() + actions_size(actions@.subrange(0, i as int)),
            out.code@ == a0.code@ + actions_raw(actions@.subrange(0, i as int), manifest.id.0),
            call_sites(out.trap_calls@) == call_sites(a0.trap_calls@) + actions_traps(
                actions@.subrange(0, i as int),
                a0.code@.len() as int,
            ),
        decreases actions@.len() - i,
    {
        let ghost before = *out;
        let step = emit_action(out, &actions[i], manifest);
        proof {
            lemma_grows_trans(&a0, &before, out);
            assert(actions@.subrange(0, i + 1).drop_last() =~= actions@.subrange(0, i as int));
            assert(actions@.subrange(0, i + 1).last() == actions@[i as int]);
            if step is Ok {
                let pre = actions@.subrange(0, i as int);
                assert(out.code@ =~= a0.code@ + actions_raw(actions@.subrange(0, i + 1), manifest.id.0));
                assert(call_sites(out.trap_calls@) =~= call_sites(a0.trap_calls@) + actions_traps(
                    actions@.subrange(0, i + 1),
                    a0.code@.len() as int,
                ));
            }
        }
        if step.is_err() {
            proof {
                if actions_ok(actions@) {
                    lemma_actions_ok_each(actions@, i as int);
                }
            }
            return step;
        }
        i = i + 1;
    }
    assert(actions@.subrange(0, actions@.len() as int) =~= actions@);
    Ok(())
}

proof fn lemma_actions_ok_each(s: Seq<Action>, i: int)
    requires
        actions_ok(s),
        0 <= i < s.len(),
    ensures
        action_ok(s[i]),
    decreases s.len(),
{
    if i < s.len() - 1 {
        lemma_actions_ok_each(s.drop_last(), i);
    }
}

#[verifier::spinoff_prover]
#[verifier::rlimit(50)]
fn emit_action(out: &mut Assembler, action: &Action, manifest: &AppletManifest) -> (r: Result<(), CompileError>)
    requires
        old(out).wf(),
        old(out).code@.len() >= 16,
        old(out).trap_stubs@.len() == 0,
    ensures
        final(out).grows(old(out)),
        final(out).trap_stubs@.len() == 0,
        !(r matches Err(CompileError::MissingHandler(_))),
        r is Ok <==> action_ok(*action),
        r is Ok ==> final(out).code@.len() == old(out).code@.len() + action_size(*action),
        r is Ok ==> final(out).code@ == old(out).code@ + action_raw(*action, manifest.id.0),
        r is Ok ==> call_sites(final(out).trap_calls@) == call_sites(old(out).trap_calls@) + action_traps(
            *action,
            old(out).code@.len() as int,
        ),
        r is Err ==> r == Err::<(), CompileError>(CompileError::UnsupportedAction) || r == Err::<(), CompileError>(
            CompileError::BranchOutOfRange,
        ),
    decreases action,
{
    let ghost a0 = *out;
    proof { lemma_grows_refl(&a0); }
    match action {
        Action::ClearScreen => {
            out.call_trap(Trap::ClearScreen);
            assert(call_sites(out.trap_calls@) =~= call_sites(a0.trap_calls@) + seq![(a0.code@.len() as int, Trap::ClearScreen)]);
        },
        Action::WriteLines { start_row, lines } => {
            let mut index: usize = 0;
            assert(lines@.subrange(0, 0) =~= Seq::<&'static str>::empty());
            assert(a0.code@ + lines_raw(Seq::<&'static str>::empty(), *start_row) =~= a0.code@);
            assert(call_sites(a0.trap_calls@) + lines_traps(Seq::<&'static str>::empty(), a0.code@.len() as int)
                =~= call_sites(a0.trap_calls@));
            while index < lines.len()
                invariant
                    index <= lines@.len(),
                    a0 == *old(out),
                    out.grows(&a0),
                    a0.wf(),
                    a0.code@.len() >= 16,
                    out.trap_stubs@.len() == 0,
                    *action == (Action::WriteLines { start_row: *start_row, lines: *lines }),
                    *start_row + index <= 256,
                    out.code@.len() == a0.code@.len() + lines_size(lines@.subrange(0, index as int)),
                    out.code@ == a0.code@ + lines_raw(lines@.subrange(0, index as int), *start_row),
                    call_sites(out.trap_calls@) == call_sites(a0.trap_calls@) + lines_traps(
                        lines@.subrange(0, index as int),
                        a0.code@.len() as int,
                    ),
                decreases lines@.len() - index,
            {
                if index > 255 || *start_row as usize + index > 255 {
                    return Err(CompileError::UnsupportedAction);
                }
                let row = *start_row + index as u8;
                let ghost b0 = *out;
                out.set_text_row(row);
                proof {
                    lemma_grows_trans(&a0, &b0, out);
                }
                let ghost r0 = *out;
                let line = lines[index].as_bytes();
                let mut k: usize = 0;
                assert(line@.subrange(0, 0) =~= Seq::<u8>::empty());
                assert(r0.code@ + chars_raw(Seq::<u8>::empty()) =~= r0.code@);
                assert(call_sites(r0.trap_calls@) + chars_traps(0, r0.code@.len() as int) =~= call_sites(r0.trap_calls@));
                while k < line.len()
                    invariant
                        k <= line@.len(),
                        out.grows(&a0),
                        a0.wf(),
                        a0.code@.len() >= 16,
                        out.trap_stubs@.len() == 0,
                        out.code@.len() == b0.code@.len() + 26 + 10 * k,
                        r0.code@.len() == b0.code@.len() + 26,
                        out.code@ == r0.code@ + chars_raw(line@.subrange(0, k as int)),
                        call_sites(out.trap_calls@) == call_sites(r0.trap_calls@) + chars_traps(
                            k as nat,
                            r0.code@.len() as int,
                        ),
                    decreases line@.len() - k,
                {
                    let ghost b1 = *out;
                    out.draw_char(line[k]);
                    proof {
                        lemma_grows_trans(&a0, &b1, out);
                        let sub = line@.subrange(0, k + 1);
                        assert(sub.drop_last() =~= line@.subrange(0, k as int));
                        assert(sub.last() == line@[k as int]);
                        assert(out.code@ =~= r0.code@ + chars_raw(sub));
                        assert(call_sites(out.trap_calls@) =~= call_sites(r0.trap_calls@) + chars_traps(
                            (k + 1) as nat,
                            r0.code@.len() as int,
                        ));
                    }
                    k = k + 1;
                }
                proof {
                    let sub = lines@.subrange(0, index + 1);
                    assert(sub.drop_last() =~= lines@.subrange(0, index as int));
                    assert(sub.last() == lines@[index as int]);
                    assert(line@ == lines@[index as int].spec_bytes());
                    assert(line@.subrange(0, line@.len() as int) =~= line@);
                    assert(row as int == (*start_row + sub.len() - 1) as u8);
                    assert(out.code@ =~= a0.code@ + lines_raw(sub, *start_row));
                    assert(call_sites(out.trap_calls@) =~= call_sites(a0.trap_calls@) + lines_traps(sub, a0.code@.len() as int));
                }
                index = index + 1;
            }
            assert(lines@.subrange(0, lines@.len() as int) =~= lines@);
        },
        Action::IdleForever => {
            out.call_trap(Trap::FlushText);
            let ghost b0 = *out;
            out.call_trap(Trap::Yield);
            proof {
                lemma_grows_trans(&a0, &b0, out);
            }
            let ghost b1 = *out;
            let loop_back: [u8; 2] = [0x60, 0xFA];
            out.bytes(loop_back.as_slice());
            proof {
                lemma_grows_trans(&a0, &b1, out);
            }
            assert(out.code@ =~= a0.code@ + action_raw(*action, manifest.id.0));
            assert(call_sites(out.trap_calls@) =~= call_sites(a0.trap_calls@) + action_traps(*action, a0.code@.len() as int));
        },
        Action::ReturnStatus(status) => {
            out.status_return(*status);
            assert(call_sites(out.trap_calls@) =~= call_sites(a0.trap_calls@) + Seq::<(int, Trap)>::empty());
        },
        Action::CompleteHidToDirect => {
            let a: [u8; 8] = [0x42, 0xA7, 0x42, 0xA7, 0x48, 0x78, 0x00, 0x01];
            out.bytes(a.as_slice());
            let ghost b0 = *out;
            out.jsr_absolute(0x0041_F9A0);
            proof { lemma_grows_trans(&a0, &b0, out); }
            let ghost b1 = *out;
            let b: [u8; 4] = [0x48, 0x78, 0x00, 0x64];
            out.bytes(b.as_slice());
            proof { lemma_grows_trans(&a0, &b1, out); }
            let ghost b2 = *out;
            out.jsr_absolute(0x0042_4780);
            proof { lemma_grows_trans(&a0, &b2, out); }
            let ghost b3 = *out;
            let c: [u8; 8] = [0x13, 0xFC, 0x00, 0x01, 0x00, 0x01, 0x3C, 0xF9];
            out.bytes(c.as_slice());
            proof { lemma_grows_trans(&a0, &b3, out); }
            let ghost b4 = *out;
            out.jsr_absolute(0x0044_044E);
            proof { lemma_grows_trans(&a0, &b4, out); }
            let ghost b5 = *out;
            out.bytes(b.as_slice());
            proof { lemma_grows_trans(&a0, &b5, out); }
            let ghost b6 = *out;
            out.jsr_absolute(0x0042_4780);
            proof { lemma_grows_trans(&a0, &b6, out); }
            let ghost b7 = *out;
            let d: [u8; 4] = [0x4F, 0xEF, 0x00, 0x14];
            out.bytes(d.as_slice());
            proof { lemma_grows_trans(&a0, &b7, out); }
            let ghost b8 = *out;
            out.jsr_absolute(0x0044_047C);
            proof { lemma_grows_trans(&a0, &b8, out); }
            assert(out.code@ =~= a0.code@ + hid_to_direct_raw());
            assert(call_sites(out.trap_calls@) =~= call_sites(a0.trap_calls@) + Seq::<(int, Trap)>::empty());
        },
        Action::MarkDirectConnected => {
            out.jsr_absolute(0x0041_0B26);
            assert(call_sites(out.trap_calls@) =~= call_sites(a0.trap_calls@) + Seq::<(int, Trap)>::empty());
        },
        Action::ReturnAppletId => {
            let a: [u8; 2] = [0x22, 0x3C];
            out.bytes(a.as_slice());
            let ghost b0 = *out;
            out.u32(manifest.id.0 as u32);
            proof { lemma_grows_trans(&a0, &b0, out); }
            let ghost b1 = *out;
            let b: [u8; 2] = [0x20, 0x81];
            out.bytes(b.as_slice());
            proof { lemma_grows_trans(&a0, &b1, out); }
            let ghost b2 = *out;
            out.rts();
            proof { lemma_grows_trans(&a0, &b2, out); }
            assert(out.code@ =~= a0.code@ + action_raw(*action, manifest.id.0));
            assert(call_sites(out.trap_calls@) =~= call_sites(a0.trap_calls@) + Seq::<(int, Trap)>::empty());
        },
        Action::IfKey { key, actions } => {
            let a: [u8; 6] = [0x22, 0x2F, 0x00, 0x08, 0x0C, 0x81];
            out.bytes(a.as_slice());
            let ghost b0 = *out;
            out.u32(key.raw_value());
            proof { lemma_grows_trans(&a0, &b0, out); }
            let ghost b1 = *out;
            let skip = out.branch(0x66);
            proof { lemma_grows_trans(&a0, &b1, out); }
            let ghost b2 = *out;
            let nested = emit_actions(out, actions, manifest);
            proof { lemma_grows_trans(&a0, &b2, out); }
            if nested.is_err() {
                return nested;
            }
            let after = out.offset();
            assert(out.sites@.contains(skip as int));
            let ghost b3 = *out;
            proof {
                lemma_actions_size_nonneg(actions@);
                assert(after == skip + 4 + actions_size(actions@));
            }
            let patched = out.patch_branch(skip, after);
            if patched.is_err() {
                return patched;
            }
            proof {
                let v: int = 2 + actions_size(actions@);
                assert((v as u16) as int == v);
                assert(out.code@ =~= a0.code@ + action_raw(*action, manifest.id.0)) by {
                    assert(b3.code@ =~= b2.code@ + actions_raw(actions@, manifest.id.0));
                    assert(b2.code@ =~= a0.code@ + (seq![0x22u8, 0x2F, 0x00, 0x08, 0x0C, 0x81] + be_u32_bytes(key_code(*key))
                        + seq![0x66u8, 0x00, 0x00, 0x00]));
                }
                assert(call_sites(out.trap_calls@) =~= call_sites(a0.trap_calls@) + action_traps(*action, a0.code@.len() as int));
                assert forall|s: int| #[trigger] a0.targets@.contains_key(s) implies s != skip by {
                    assert(a0.sites@.contains(s));
                }
                assert(out.code@.subrange(0, a0.code@.len() as int) =~= a0.code@) by {
                    assert forall|i: int| 0 <= i < a0.code@.len() implies out.code@[i] == a0.code@[i] by {
                        assert(b3.code@.subrange(0, a0.code@.len() as int)[i] == a0.code@[i]);
                    }
                }
                assert(out.code@.len() == b3.code@.len());
                assert forall|s: int| #[trigger] a0.targets@.contains_key(s) implies out.targets@.contains_key(s)
                    && out.targets@[s] == a0.targets@[s] by {
                    assert(b3.targets@.contains_key(s) && b3.targets@[s] == a0.targets@[s]);
                }
            }
        },
    }
    Ok(())
}

/// Whether entry `j` of `stubs` is the first stub of `trap`.
spec fn first_stub_at(stubs: Seq<(Trap, usize)>, trap: Trap, j: int) -> bool {
    &&& 0 <= j < stubs.len()
    &&& stubs[j].0 == trap
    &&& forall|i: int| 0 <= i < j ==> (#[trigger] stubs[i]).0 != trap
}

/// Whether a 16-bit branch at `site` reaches `target`.
spec fn branch_reaches(site: int, target: int) -> bool {
    -0x8000 <= target - (site + 2) < 0x8000
}

/// Whether `call` has a stub, the first stub of its trap within reach of
/// the call's branch.
spec fn call_reaches(stubs: Seq<(Trap, usize)>, call: (usize, Trap)) -> bool {
    exists|j: int| #[trigger] first_stub_at(stubs, call.1, j) && branch_reaches(call.0 as int, stubs[j].1 as int)
}

/// Whether no other of the first `n` trap calls shares the site of call `k`.
spec fn site_unshared(calls: Seq<(usize, Trap)>, k: int, n: int) -> bool {
    forall|m: int| 0 <= m < n && m != k ==> (#[trigger] calls[m]).0 != calls[k].0
}

/// Whether `targets` sends the site of `call` to the first stub of its trap.
spec fn call_targeted(stubs: Seq<(Trap, usize)>, call: (usize, Trap), targets: Map<int, int>) -> bool {
    exists|j: int| #[trigger] first_stub_at(stubs, call.1, j) && targets.contains_key(call.0 as int)
        && targets[call.0 as int] == stubs[j].1
}

/// Whether the branch of `call` in `code` lands on the first stub of its
/// trap.
spec fn call_lands(stubs: Seq<(Trap, usize)>, call: (usize, Trap), code: Seq<u8>) -> bool {
    exists|j: int| #[trigger] first_stub_at(stubs, call.1, j) && branch_target(code, call.0 as int) == stubs[j].1
}

/// The first `n` trap calls have a stub each, the first stub of the trap
/// within reach of the call's branch.
#[verifier::opaque]
spec fn reached_upto(calls: Seq<(usize, Trap)>, stubs: Seq<(Trap, usize)>, n: int) -> bool {
    forall|k: int| 0 <= k < n ==> call_reaches(stubs, #[trigger] calls[k])
}

/// Every trap call has a stub, and the first stub of its trap is within
/// reach of its branch.
spec fn calls_reach_stubs(calls: Seq<(usize, Trap)>, stubs: Seq<(Trap, usize)>) -> bool {
    reached_upto(calls, stubs, calls.len() as int)
}

/// Among the first `n` trap calls, each whose site no other of them shares
/// has `targets` send it to the first stub of its trap.
#[verifier::opaque]
spec fn patched_upto(calls: Seq<(usize, Trap)>, stubs: Seq<(Trap, usize)>, targets: Map<int, int>, n: int) -> bool {
    forall|k: int| 0 <= k < n && #[trigger] site_unshared(calls, k, n) ==> call_targeted(stubs, calls[k], targets)
}

/// Every trap call whose site no other call shares branches, in `code`, to
/// the first stub of its trap.
#[verifier::opaque]
spec fn calls_patched(calls: Seq<(usize, Trap)>, stubs: Seq<(Trap, usize)>, code: Seq<u8>) -> bool {
    forall|k: int| 0 <= k < calls.len() && #[trigger] site_unshared(calls, k, calls.len() as int) ==> call_lands(
        stubs,
        calls[k],
        code,
    )
}

proof fn lemma_first_stub_unique(stubs: Seq<(Trap, usize)>, trap: Trap, j: int, jj: int)
    requires
        first_stub_at(stubs, trap, j),
        first_stub_at(stubs, trap, jj),
    ensures
        j == jj,
{
    if jj < j {
        assert(stubs[jj].0 != trap);
    } else if jj > j {
        assert(stubs[j].0 != trap);
    }
}

proof fn lemma_reached_step(calls: Seq<(usize, Trap)>, stubs: Seq<(Trap, usize)>, k: int, j: int)
    requires
        0 <= k < calls.len(),
        reached_upto(calls, stubs, k),
        first_stub_at(stubs, calls[k].1, j),
        branch_reaches(calls[k].0 as int, stubs[j].1 as int),
    ensures
        reached_upto(calls, stubs, k + 1),
{
    reveal(reached_upto);
    assert(call_reaches(stubs, calls[k]));
}

proof fn lemma_reached_stops(calls: Seq<(usize, Trap)>, stubs: Seq<(Trap, usize)>, k: int, j: int)
    requires
        0 <= k < calls.len(),
        first_stub_at(stubs, calls[k].1, j),
        !branch_reaches(calls[k].0 as int, stubs[j].1 as int),
    ensures
        !calls_reach_stubs(calls, stubs),
{
    reveal(reached_upto);
    if calls_reach_stubs(calls, stubs) {
        assert(call_reaches(stubs, calls[k]));
        let jj = choose|jj: int| #[trigger] first_stub_at(stubs, calls[k].1, jj)
            && branch_reaches(calls[k].0 as int, stubs[jj].1 as int);
        lemma_first_stub_unique(stubs, calls[k].1, j, jj);
    }
}

proof fn lemma_reached_no_stub(calls: Seq<(usize, Trap)>, stubs: Seq<(Trap, usize)>, k: int)
    requires
        0 <= k < calls.len(),
        forall|j: int| 0 <= j < stubs.len() ==> (#[trigger] stubs[j]).0 != calls[k].1,
    ensures
        !calls_reach_stubs(calls, stubs),
{
    reveal(reached_upto);
    if calls_reach_stubs(calls, stubs) {
        assert(call_reaches(stubs, calls[k]));
        let jj = choose|jj: int| #[trigger] first_stub_at(stubs, calls[k].1, jj)
            && branch_reaches(calls[k].0 as int, stubs[jj].1 as int);
        assert(stubs[jj].0 == calls[k].1);
    }
}

proof fn lemma_patched_step(
    calls: Seq<(usize, Trap)>,
    stubs: Seq<(Trap, usize)>,
    t0: Map<int, int>,
    t1: Map<int, int>,
    k: int,
    j: int,
)
    requires
        0 <= k < calls.len(),
        patched_upto(calls, stubs, t0, k),
        first_stub_at(stubs, calls[k].1, j),
        t1 == t0.insert(calls[k].0 as int, stubs[j].1 as int),
    ensures
        patched_upto(calls, stubs, t1, k + 1),
{
    reveal(patched_upto);
    assert forall|m: int| 0 <= m < k + 1 && #[trigger] site_unshared(calls, m, k + 1) implies call_targeted(
        stubs,
        calls[m],
        t1,
    ) by {
        if m == k {
            assert(first_stub_at(stubs, calls[m].1, j));
        } else {
            assert(calls[k].0 != calls[m].0);
            assert forall|n: int| 0 <= n < k && n != m implies (#[trigger] calls[n]).0 != calls[m].0 by {
                assert(0 <= n < k + 1);
            }
            assert(site_unshared(calls, m, k));
            let jj = choose|jj: int| #[trigger] first_stub_at(stubs, calls[m].1, jj) && t0.contains_key(calls[m].0 as int)
                && t0[calls[m].0 as int] == stubs[jj].1;
            assert(first_stub_at(stubs, calls[m].1, jj));
        }
    }
}

proof fn lemma_patched_code(calls: Seq<(usize, Trap)>, stubs: Seq<(Trap, usize)>, targets: Map<int, int>, code: Seq<u8>)
    requires
        patched_upto(calls, stubs, targets, calls.len() as int),
        forall|s: int| #[trigger] targets.contains_key(s) ==> branch_target(code, s) == targets[s],
    ensures
        calls_patched(calls, stubs, code),
{
    reveal(patched_upto);
    reveal(calls_patched);
    assert forall|k: int| 0 <= k < calls.len() && #[trigger] site_unshared(calls, k, calls.len() as int) implies call_lands(
        stubs,
        calls[k],
        code,
    ) by {
        assert(call_targeted(stubs, calls[k], targets));
        let j = choose|j: int| #[trigger] first_stub_at(stubs, calls[k].1, j) && targets.contains_key(calls[k].0 as int)
            && targets[calls[k].0 as int] == stubs[j].1;
        assert(first_stub_at(stubs, calls[k].1, j));
    }
}

/// Points every trap call at the first stub of its trap, call by call; the
/// first call whose trap has no stub, or whose stub is out of its branch's
/// reach, stops it with an error.
fn patch_trap_calls(out: &mut Assembler) -> (r: Result<(), CompileError>)
    requires
        old(out).wf(),
    ensures
        final(out).wf(),
        final(out).sites == old(out).sites,
        final(out).trap_calls == old(out).trap_calls,
        final(out).trap_stubs == old(out).trap_stubs,
        final(out).code@.len() == old(out).code@.len(),
        forall|i: int| 0 <= i < old(out).code@.len()
            && (forall|k: int| 0 <= k < old(out).trap_calls@.len() ==> i != (#[trigger] old(out).trap_calls@[k]).0 + 2
                && i != old(out).trap_calls@[k].0 + 3)
            ==> #[trigger] final(out).code@[i] == old(out).code@[i],
        forall|s: int| #[trigger] old(out).targets@.contains_key(s)
            && (forall|k: int| 0 <= k < old(out).trap_calls@.len() ==> (#[trigger] old(out).trap_calls@[k]).0 != s)
            ==> final(out).targets@.contains_key(s) && final(out).targets@[s] == old(out).targets@[s],
        r is Ok <==> calls_reach_stubs(old(out).trap_calls@, old(out).trap_stubs@),
        r is Ok ==> calls_patched(old(out).trap_calls@, old(out).trap_stubs@, final(out).code@),
        r is Err ==> r == Err::<(), CompileError>(CompileError::UnsupportedAction) || r == Err::<(), CompileError>(
            CompileError::BranchOutOfRange,
        ),
        r == Err::<(), CompileError>(CompileError::UnsupportedAction) ==> exists|k: int|
            #![trigger old(out).trap_calls@[k]]
            0 <= k < old(out).trap_calls@.len()
            && forall|j: int| 0 <= j < old(out).trap_stubs@.len() ==> (#[trigger] old(out).trap_stubs@[j]).0
                != old(out).trap_calls@[k].1,
{
    let ghost o = *out;
    proof {
        reveal(reached_upto);
        reveal(patched_upto);
    }
    let mut k: usize = 0;
    while k < out.trap_calls.len()
        invariant
            o == *old(out),
            k <= out.trap_calls@.len(),
            out.wf(),
            out.sites == o.sites,
            out.trap_calls == o.trap_calls,
            out.trap_stubs == o.trap_stubs,
            out.code@.len() == o.code@.len(),
            forall|i: int| 0 <= i < o.code@.len()
                && (forall|m: int| 0 <= m < k ==> i != (#[trigger] o.trap_calls@[m]).0 + 2 && i != o.trap_calls@[m].0 + 3)
                ==> #[trigger] out.code@[i] == o.code@[i],
            forall|s: int| #[trigger] o.targets@.contains_key(s)
                && (forall|m: int| 0 <= m < k ==> (#[trigger] o.trap_calls@[m]).0 != s)
                ==> out.targets@.contains_key(s) && out.targets@[s] == o.targets@[s],
            reached_upto(o.trap_calls@, o.trap_stubs@, k as int),
            patched_upto(o.trap_calls@, o.trap_stubs@, out.targets@, k as int),
        decreases o.trap_calls@.len() - k,
    {
        let (site, trap) = out.trap_calls[k];
        let mut j: usize = 0;
        let mut found = false;
        while j < out.trap_stubs.len() && !found
            invariant
                j <= out.trap_stubs@.len(),
                found ==> j < out.trap_stubs@.len() && out.trap_stubs@[j as int].0 == trap,
                forall|i: int| 0 <= i < j ==> (#[trigger] out.trap_stubs@[i]).0 != trap,
            decreases out.trap_stubs@.len() - j + (if found { 0int } else { 1int }),
        {
            if out.trap_stubs[j].0 == trap {
                found = true;
            } else {
                j = j + 1;
            }
        }
        if !found {
            proof {
                lemma_reached_no_stub(o.trap_calls@, o.trap_stubs@, k as int);
            }
            return Err(CompileError::UnsupportedAction);
        }
        let target = out.trap_stubs[j].1;
        assert(first_stub_at(o.trap_stubs@, trap, j as int));
        assert(out.sites@.contains(site as int));
        let ghost before = *out;
        match out.patch_branch(site, target) {
            Ok(()) => {},
            Err(e) => {
                proof {
                    lemma_reached_stops(o.trap_calls@, o.trap_stubs@, k as int, j as int);
                }
                return Err(e);
            },
        }
        proof {
            lemma_reached_step(o.trap_calls@, o.trap_stubs@, k as int, j as int);
            lemma_patched_step(o.trap_calls@, o.trap_stubs@, before.targets@, out.targets@, k as int, j as int);
            assert forall|i: int| 0 <= i < o.code@.len()
                && (forall|m: int| 0 <= m < k + 1 ==> i != (#[trigger] o.trap_calls@[m]).0 + 2 && i != o.trap_calls@[m].0 + 3)
                implies #[trigger] out.code@[i] == o.code@[i] by {
                assert(i != o.trap_calls@[k as int].0 + 2 && i != o.trap_calls@[k as int].0 + 3);
                assert(out.code@[i] == before.code@[i]);
                assert forall|m: int| 0 <= m < k implies i != (#[trigger] o.trap_calls@[m]).0 + 2 && i != o.trap_calls@[m].0 + 3 by {
                    assert(0 <= m < k + 1);
                }
            }
            assert forall|s: int| #[trigger] o.targets@.contains_key(s)
                && (forall|m: int| 0 <= m < k + 1 ==> (#[trigger] o.trap_calls@[m]).0 != s)
                implies out.targets@.contains_key(s) && out.targets@[s] == o.targets@[s] by {
                assert(o.trap_calls@[k as int].0 != s);
                assert forall|m: int| 0 <= m < k implies (#[trigger] o.trap_calls@[m]).0 != s by {
                    assert(0 <= m < k + 1);
                }
            }
        }
        k = k + 1;
    }
    proof {
        lemma_patched_code(o.trap_calls@, o.trap_stubs@, out.targets@, out.code@);
    }
    Ok(())
}

/// The message numbers the dispatcher compares against, in order.
pub open spec fn dispatch_messages() -> Seq<u32> {
    seq![0x18u32, 0x19, 0x20, 0x21, 0x26, 0x10001, 0x30001, 0x20001, 0x10003, 0x10006, 0x20002, 0x20006, 0x2011F]
}

/// The handlers the code is made of, in the order their code is emitted.
pub open spec fn needed_messages() -> Seq<Message> {
    seq![
        Message::SetFocus,
        Message::Char,
        Message::Key,
        Message::UsbMacInit,
        Message::UsbPlug,
        Message::UsbPcInit,
        Message::Identity,
    ]
}

/// Whether the definition has a handler for `m`.
pub open spec fn has_handler(d: AppletDefinition, m: Message) -> bool {
    exists|i: int| 0 <= i < d.handlers@.len() && (#[trigger] d.handlers@[i]).message == m
}

/// Entry `i` of the dispatcher: compare the message number with the `i`-th
/// of `dispatch_messages` (`cmpi.l`), then branch if equal (`beq.w`).
pub open spec fn dispatch_entry(code: Seq<u8>, i: int) -> bool {
    &&& code.subrange(10 + 10 * i, 16 + 10 * i) == seq![0x0Cu8, 0x80] + be_u32_bytes(dispatch_messages()[i])
    &&& code[16 + 10 * i] == 0x67
    &&& code[17 + 10 * i] == 0
}

/// The code opens with the dispatcher: the prologue, the thirteen compares
/// and branches, a branch-always (`bra.w`) at 140 and an `rts` at 144.
pub open spec fn dispatcher_intact(code: Seq<u8>) -> bool {
    &&& code.len() >= 146
    &&& code.subrange(0, 10) == prologue()
    &&& forall|i: int| 0 <= i < 13 ==> #[trigger] dispatch_entry(code, i)
    &&& code[140] == 0x60 && code[141] == 0
    &&& code[144] == 0x4E && code[145] == 0x75
}

/// The branch site of the `m`-th of the other USB messages.
/// Whether `t` sends the first `g` of the other USB message branches to
/// `target`.
#[verifier::opaque]
spec fn usb_patched(t: Map<int, int>, g: int, target: int) -> bool {
    forall|m: int| 0 <= m < g ==> usb_patched_at(t, m, target)
}

/// Whether `t` sends USB message branch `m` to `target`.
spec fn usb_patched_at(t: Map<int, int>, m: int, target: int) -> bool {
    t.contains_key(usb_site(m)) && t[usb_site(m)] == target
}

proof fn lemma_usb_patched_step(t0: Map<int, int>, t1: Map<int, int>, g: int, target: int)
    requires
        0 <= g,
        usb_patched(t0, g, target),
        t1 == t0.insert(usb_site(g), target),
    ensures
        usb_patched(t1, g + 1, target),
{
    reveal(usb_patched);
    assert forall|m: int| 0 <= m < g + 1 implies usb_patched_at(t1, m, target) by {
        if m < g {
            assert(usb_patched_at(t0, m, target));
            reveal(usb_site);
        }
    }
}

proof fn lemma_usb_patched_at(t: Map<int, int>, g: int, target: int, m: int)
    requires
        usb_patched(t, g, target),
        0 <= m < g,
    ensures
        t.contains_key(usb_site(m)) && t[usb_site(m)] == target,
{
    reveal(usb_patched);
    assert(usb_patched_at(t, m, target));
}

#[verifier::opaque]
spec fn usb_site(m: int) -> int {
    96 + 10 * m
}

/// Where dispatcher entry `i` branches to.
pub open spec fn dispatch_target(code: Seq<u8>, i: int) -> int {
    branch_target(code, 16 + 10 * i)
}

proof fn lemma_dispatcher_same_head(c: Seq<u8>, c2: Seq<u8>)
    requires
        dispatcher_intact(c),
        c2.len() >= 146,
        forall|j: int| 0 <= j < 146 ==> c2[j] == c[j],
    ensures
        dispatcher_intact(c2),
{
    assert(c2.subrange(0, 10) =~= c.subrange(0, 10));
    assert forall|i: int| 0 <= i < 13 implies #[trigger] dispatch_entry(c2, i) by {
        assert(dispatch_entry(c, i));
        assert(c2.subrange(10 + 10 * i, 16 + 10 * i) =~= c.subrange(10 + 10 * i, 16 + 10 * i));
        assert(c2[16 + 10 * i] == c[16 + 10 * i]);
        assert(c2[17 + 10 * i] == c[17 + 10 * i]);
    }
    assert(c2[140] == c[140] && c2[141] == c[141] && c2[144] == c[144] && c2[145] == c[145]);
}

proof fn lemma_entry_kept(c: Seq<u8>, c2: Seq<u8>, i: int)
    requires
        0 <= i < 13,
        dispatch_entry(c, i),
        c.len() >= 18 + 10 * i,
        c2.len() >= c.len(),
        c2.subrange(0, c.len() as int) == c,
    ensures
        dispatch_entry(c2, i),
{
    assert(c2.subrange(10 + 10 * i, 16 + 10 * i) =~= c.subrange(10 + 10 * i, 16 + 10 * i));
    assert(c2[16 + 10 * i] == c2.subrange(0, c.len() as int)[16 + 10 * i]);
    assert(c2[17 + 10 * i] == c2.subrange(0, c.len() as int)[17 + 10 * i]);
}

proof fn lemma_entries_extend(c: Seq<u8>, c2: Seq<u8>, n: int, value: u32)
    requires
        0 <= n < 13,
        c.len() == 10 + 10 * n,
        forall|i: int| 0 <= i < n ==> #[trigger] dispatch_entry(c, i),
        c2 == c + (seq![0x0Cu8, 0x80] + be_u32_bytes(value) + seq![0x67u8, 0, 0, 0]),
        value == dispatch_messages()[n],
    ensures
        forall|i: int| 0 <= i <= n ==> #[trigger] dispatch_entry(c2, i),
        c2.subrange(0, c.len() as int) == c,
{
    assert(c2.subrange(0, c.len() as int) =~= c);
    assert forall|i: int| 0 <= i <= n implies #[trigger] dispatch_entry(c2, i) by {
        if i < n {
            lemma_entry_kept(c, c2, i);
        } else {
            assert(c2.subrange(10 + 10 * i, 16 + 10 * i) =~= seq![0x0Cu8, 0x80] + be_u32_bytes(value));
        }
    }
}

proof fn lemma_dispatcher_patch(c: Seq<u8>, c2: Seq<u8>, site: int)
    requires
        dispatcher_intact(c),
        c2.len() == c.len(),
        site + 4 <= c.len(),
        site >= 146 || site == 140 || (16 <= site <= 136 && (site - 16) % 10 == 0),
        forall|j: int| 0 <= j < c.len() && j != site + 2 && j != site + 3 ==> c2[j] == c[j],
    ensures
        dispatcher_intact(c2),
{
    assert(c2.subrange(0, 10) =~= c.subrange(0, 10));
    assert forall|i: int| 0 <= i < 13 implies #[trigger] dispatch_entry(c2, i) by {
        assert(dispatch_entry(c, i));
        assert(c2.subrange(10 + 10 * i, 16 + 10 * i) =~= c.subrange(10 + 10 * i, 16 + 10 * i));
        assert(c2[16 + 10 * i] == c[16 + 10 * i]);
        assert(c2[17 + 10 * i] == c[17 + 10 * i]);
    }
}

/// Whether every handler the code is made of can be compiled (a Key
/// handler that shares the Char handler's code is not compiled again).
pub open spec fn handlers_ok(d: AppletDefinition) -> bool {
    &&& actions_ok(first_actions(d, Message::SetFocus))
    &&& actions_ok(first_actions(d, Message::Char))
    &&& (actions_eq(first_actions(d, Message::Key), first_actions(d, Message::Char)) || actions_ok(
        first_actions(d, Message::Key),
    ))
    &&& actions_ok(first_actions(d, Message::UsbMacInit))
    &&& actions_ok(first_actions(d, Message::UsbPlug))
    &&& actions_ok(first_actions(d, Message::UsbPcInit))
    &&& actions_ok(first_actions(d, Message::Identity))
}

/// The length of the compiled code: the dispatcher and its return, the
/// handler blocks in the order they are emitted, and the five trap stubs.
pub open spec fn compiled_size(d: AppletDefinition) -> int {
    146 + actions_size(first_actions(d, Message::SetFocus)) + actions_size(first_actions(d, Message::Char)) + (if actions_eq(
        first_actions(d, Message::Key),
        first_actions(d, Message::Char),
    ) {
        0
    } else {
        actions_size(first_actions(d, Message::Key))
    }) + actions_size(first_actions(d, Message::UsbMacInit)) + actions_size(first_actions(d, Message::UsbPlug))
        + actions_size(first_actions(d, Message::UsbPcInit)) + actions_size(first_actions(d, Message::Identity)) + 10
}

/// Trap calls that lie before the five stubs at `start`, in a code no
/// longer than 0x8000 bytes, all reach the stubs of their traps.
proof fn lemma_calls_reach(calls: Seq<(usize, Trap)>, stubs: Seq<(Trap, usize)>, start: usize)
    requires
        stubs == seq![
            (Trap::ClearScreen, start),
            (Trap::SetTextRow, (start + 2) as usize),
            (Trap::DrawChar, (start + 4) as usize),
            (Trap::FlushText, (start + 6) as usize),
            (Trap::Yield, (start + 8) as usize),
        ],
        forall|k: int| 0 <= k < calls.len() ==> (#[trigger] calls[k]).0 + 4 <= start,
        start + 10 <= 0x8000,
    ensures
        calls_reach_stubs(calls, stubs),
{
    reveal(reached_upto);
    assert forall|k: int| 0 <= k < calls.len() implies call_reaches(stubs, #[trigger] calls[k]) by {
        let j: int = match calls[k].1 {
            Trap::ClearScreen => 0,
            Trap::SetTextRow => 1,
            Trap::DrawChar => 2,
            Trap::FlushText => 3,
            Trap::Yield => 4,
        };
        assert(first_stub_at(stubs, calls[k].1, j));
    }
}

/// Every trap has a stub among the five.
proof fn lemma_trap_has_stub(stubs: Seq<(Trap, usize)>, start: usize, t: Trap)
    requires
        stubs == seq![
            (Trap::ClearScreen, start),
            (Trap::SetTextRow, (start + 2) as usize),
            (Trap::DrawChar, (start + 4) as usize),
            (Trap::FlushText, (start + 6) as usize),
            (Trap::Yield, (start + 8) as usize),
        ],
    ensures
        exists|j: int| 0 <= j < stubs.len() && (#[trigger] stubs[j]).0 == t,
{
    match t {
        Trap::ClearScreen => assert(stubs[0].0 == t),
        Trap::SetTextRow => assert(stubs[1].0 == t),
        Trap::DrawChar => assert(stubs[2].0 == t),
        Trap::FlushText => assert(stubs[3].0 == t),
        Trap::Yield => assert(stubs[4].0 == t),
    }
}

/// Whether byte `j` is one of the two displacement bytes of a trap call of
/// `traps`.
pub open spec fn displaced(traps: Seq<(int, Trap)>, j: int) -> bool {
    exists|k: int| 0 <= k < traps.len() && (j == (#[trigger] traps[k]).0 + 2 || j == traps[k].0 + 3)
}

/// Where the stub of a trap lies among the five that end the code.
pub open spec fn stub_slot(t: Trap) -> int {
    match t {
        Trap::ClearScreen => 0,
        Trap::SetTextRow => 2,
        Trap::DrawChar => 4,
        Trap::FlushText => 6,
        Trap::Yield => 8,
    }
}

/// Whether `code` holds, at `at`, the code of `actions`: the bytes of
/// `actions_raw` but for the displacements of its trap calls, and each trap
/// call branching to the stub of its trap among the five at `stubs`.
#[verifier::opaque]
pub open spec fn block_is(code: Seq<u8>, at: int, actions: Seq<Action>, id: u16, stubs: int) -> bool {
    let raw = actions_raw(actions, id);
    let traps = actions_traps(actions, at);
    &&& 0 <= at && at + raw.len() <= code.len()
    &&& forall|j: int| at <= j < at + raw.len() && !displaced(traps, j) ==> #[trigger] code[j] == raw[j - at]
    &&& forall|k: int| 0 <= k < traps.len() ==> branch_target(code, (#[trigger] traps[k]).0) == stubs + stub_slot(
        traps[k].1,
    )
}

/// A handler block emitted between `o` and `e`, kept through the rest of
/// the emission (`h`), the stubs and the dispatcher's patches (`t0`), is the
/// code of its actions once the trap calls are patched (`fin`).
proof fn lemma_block_patched(
    o: Assembler,
    e: Assembler,
    h: Assembler,
    t0: Assembler,
    fin: Seq<u8>,
    actions: Seq<Action>,
    id: u16,
    stubs: usize,
)
    requires
        o.wf(),
        o.code@.len() >= 146,
        e.grows(&o),
        h.grows(&e),
        e.code@ == o.code@ + actions_raw(actions, id),
        call_sites(e.trap_calls@) == call_sites(o.trap_calls@) + actions_traps(actions, o.code@.len() as int),
        t0.wf(),
        t0.trap_calls == h.trap_calls,
        t0.code@.len() == h.code@.len() + 10,
        stubs == h.code@.len(),
        stubs + 10 <= usize::MAX,
        forall|j: int| 146 <= j < h.code@.len() ==> #[trigger] t0.code@[j] == h.code@[j],
        t0.trap_stubs@ == seq![
            (Trap::ClearScreen, stubs),
            (Trap::SetTextRow, (stubs + 2) as usize),
            (Trap::DrawChar, (stubs + 4) as usize),
            (Trap::FlushText, (stubs + 6) as usize),
            (Trap::Yield, (stubs + 8) as usize),
        ],
        fin.len() == t0.code@.len(),
        forall|i: int| 0 <= i < t0.code@.len()
            && (forall|k: int| 0 <= k < t0.trap_calls@.len() ==> i != (#[trigger] t0.trap_calls@[k]).0 + 2
                && i != t0.trap_calls@[k].0 + 3)
            ==> #[trigger] fin[i] == t0.code@[i],
        calls_patched(t0.trap_calls@, t0.trap_stubs@, fin),
    ensures
        block_is(fin, o.code@.len() as int, actions, id, stubs as int),
{
    reveal(block_is);
    let p = o.code@.len() as int;
    let raw = actions_raw(actions, id);
    let traps = actions_traps(actions, p);
    let n = o.trap_calls@.len() as int;
    let calls = t0.trap_calls@;
    assert(call_sites(e.trap_calls@).len() == e.trap_calls@.len());
    assert(call_sites(o.trap_calls@).len() == o.trap_calls@.len());
    assert forall|k: int| 0 <= k < traps.len() implies calls[n + k].0 as int == (#[trigger] traps[k]).0
        && calls[n + k].1 == traps[k].1 by {
        assert(call_sites(e.trap_calls@)[n + k] == traps[k]);
        assert(h.trap_calls@[n + k] == e.trap_calls@[n + k]);
    }
    assert forall|j: int| p <= j < p + raw.len() && !displaced(traps, j) implies #[trigger] fin[j] == raw[j - p] by {
        assert forall|m: int| 0 <= m < calls.len() implies j != (#[trigger] calls[m]).0 + 2 && j != calls[m].0 + 3 by {
            if m < n {
                assert(e.trap_calls@[m] == o.trap_calls@[m]);
                assert(h.trap_calls@[m] == e.trap_calls@[m]);
                assert(o.sites@.contains(o.trap_calls@[m].0 as int));
            } else if m < n + traps.len() {
                assert(calls[m].0 as int == traps[m - n].0);
                if j == calls[m].0 + 2 || j == calls[m].0 + 3 {
                    assert(displaced(traps, j));
                }
            } else {
                assert(h.trap_calls@[m].0 >= e.code@.len());
            }
        }
        assert(t0.code@[j] == h.code@[j]);
        assert(h.code@.subrange(0, e.code@.len() as int)[j] == e.code@[j]);
    }
    reveal(calls_patched);
    assert forall|k: int| 0 <= k < traps.len() implies branch_target(fin, (#[trigger] traps[k]).0) == stubs + stub_slot(
        traps[k].1,
    ) by {
        let m = n + k;
        assert(calls[m].0 as int == traps[k].0 && calls[m].1 == traps[k].1);
        assert(site_unshared(calls, m, calls.len() as int)) by {
            assert forall|q: int| 0 <= q < calls.len() && q != m implies (#[trigger] calls[q]).0 != calls[m].0 by {
                if q < m {
                    assert(calls[q].0 < calls[m].0);
                } else {
                    assert(calls[m].0 < calls[q].0);
                }
            }
        }
        assert(call_lands(t0.trap_stubs@, calls[m], fin));
        let j = choose|j: int| #[trigger] first_stub_at(t0.trap_stubs@, calls[m].1, j)
            && branch_target(fin, calls[m].0 as int) == t0.trap_stubs@[j].1;
        assert(first_stub_at(t0.trap_stubs@, calls[m].1, j));
        match calls[m].1 {
            Trap::ClearScreen => assert(j == 0),
            Trap::SetTextRow => {
                assert(t0.trap_stubs@[0].0 != calls[m].1);
                assert(j == 1);
            },
            Trap::DrawChar => {
                assert(t0.trap_stubs@[0].0 != calls[m].1);
                assert(t0.trap_stubs@[1].0 != calls[m].1);
                assert(j == 2);
            },
            Trap::FlushText => {
                assert(t0.trap_stubs@[0].0 != calls[m].1);
                assert(t0.trap_stubs@[1].0 != calls[m].1);
                assert(t0.trap_stubs@[2].0 != calls[m].1);
                assert(j == 3);
            },
            Trap::Yield => {
                assert(t0.trap_stubs@[0].0 != calls[m].1);
                assert(t0.trap_stubs@[1].0 != calls[m].1);
                assert(t0.trap_stubs@[2].0 != calls[m].1);
                assert(t0.trap_stubs@[3].0 != calls[m].1);
                assert(j == 4);
            },
        }
    }
}

/// Compiles an applet definition to the machine code of its entry point.
///
/// The code opens with the dispatcher (`dispatcher_intact`): the Init
/// message and every message it does not list branch to the `rts` at 144;
/// SetFocus branches to the code right after it; Char and the other USB
/// messages share one block; every handler block lies between the
/// dispatcher and the five trap stubs that end the code, and holds the code
/// of its handler's actions (`block_is`).  The handlers the code is made of
/// must all be defined; the first one missing is reported.
#[verifier::spinoff_prover]
#[verifier::rlimit(100)]
pub fn compile_applet(definition: &AppletDefinition) -> (r: Result<Vec<u8>, CompileError>)
    ensures
        r matches Ok(code) ==> {
            &&& dispatcher_intact(code@)
            &&& code@.len() >= 156
            &&& code@.subrange(code@.len() - 10, code@.len() as int) == trap_stubs()
            &&& dispatch_target(code@, 0) == 144
            &&& branch_target(code@, 140) == 144
            &&& dispatch_target(code@, 1) == 146
            &&& forall|i: int| 1 <= i < 13 ==> 146 <= #[trigger] dispatch_target(code@, i) <= code@.len() - 10
            &&& forall|i: int| 8 <= i < 13 ==> #[trigger] dispatch_target(code@, i) == dispatch_target(code@, 2)
            &&& forall|k: int| 0 <= k < 7 ==> has_handler(*definition, #[trigger] needed_messages()[k])
        },
        (forall|k: int| 0 <= k < 7 ==> has_handler(*definition, #[trigger] needed_messages()[k])) ==> !(r matches Err(
            CompileError::MissingHandler(_),
        )),
        r matches Err(CompileError::MissingHandler(m)) ==> !has_handler(*definition, m) && needed_messages().contains(m),
        r == Err::<Vec<u8>, CompileError>(CompileError::UnsupportedAction) ==> !handlers_ok(*definition),
        r == Err::<Vec<u8>, CompileError>(CompileError::BranchOutOfRange) ==> !handlers_ok(*definition)
            || compiled_size(*definition) > 0x8000,
        (forall|k: int| 0 <= k < 7 ==> has_handler(*definition, #[trigger] needed_messages()[k])) && handlers_ok(
            *definition,
        ) && compiled_size(*definition) <= 0x8000 ==> r is Ok,
        r matches Ok(code) ==> code@.len() == compiled_size(*definition),
        r matches Ok(code) ==> {
            let id = definition.manifest.id.0;
            let stubs = code@.len() - 10;
            &&& block_is(code@, dispatch_target(code@, 1), first_actions(*definition, Message::SetFocus), id, stubs)
            &&& block_is(code@, dispatch_target(code@, 2), first_actions(*definition, Message::Char), id, stubs)
            &&& if actions_eq(first_actions(*definition, Message::Key), first_actions(*definition, Message::Char)) {
                dispatch_target(code@, 3) == dispatch_target(code@, 2)
            } else {
                block_is(code@, dispatch_target(code@, 3), first_actions(*definition, Message::Key), id, stubs)
            }
            &&& block_is(code@, dispatch_target(code@, 4), first_actions(*definition, Message::Identity), id, stubs)
            &&& block_is(code@, dispatch_target(code@, 5), first_actions(*definition, Message::UsbMacInit), id, stubs)
            &&& block_is(code@, dispatch_target(code@, 6), first_actions(*definition, Message::UsbPlug), id, stubs)
            &&& block_is(code@, dispatch_target(code@, 7), first_actions(*definition, Message::UsbPcInit), id, stubs)
        },
{
    let mut out = Assembler::new();
    let head: [u8; 10] = [0x20, 0x6F, 0x00, 0x0C, 0x42, 0x90, 0x20, 0x2F, 0x00, 0x04];
    out.bytes(head.as_slice());
    assert(out.code@ =~= prologue());

    let values: [u32; 13] = [
        0x18, 0x19, 0x20, 0x21, 0x26, 0x10001, 0x30001, 0x20001, 0x10003, 0x10006, 0x20002, 0x20006, 0x2011F,
    ];
    assert(values@ =~= dispatch_messages());
    let mut k: usize = 0;
    while k < 13
        invariant
            k <= 13,
            values@ == dispatch_messages(),
            out.wf(),
            out.code@.len() == 10 + 10 * k,
            out.code@.subrange(0, 10) == prologue(),
            out.trap_calls@.len() == 0,
            out.trap_stubs@.len() == 0,
            out.targets@.dom().is_empty(),
            forall|i: int| 0 <= i < k ==> #[trigger] dispatch_entry(out.code@, i),
            forall|i: int| 0 <= i < k ==> out.sites@.contains(#[trigger] (16 + 10 * i)),
            forall|s: int| #[trigger] out.sites@.contains(s) ==> s < 10 + 10 * k && 16 <= s && (s - 16) % 10 == 0,
        decreases 13 - k,
    {
        let ghost c = out.code@;
        let site = out.branch_if_equal(values[k]);
        proof {
            lemma_entries_extend(c, out.code@, k as int, values[k as int]);
            assert(out.code@.subrange(0, 10) =~= c.subrange(0, 10));
        }
        k = k + 1;
    }
    let ghost c_loop = out.code@;
    let default_return = out.branch_always();
    let return_offset = out.offset();
    out.rts();
    assert(return_offset == 144 && default_return == 140);
    proof {
        let c = out.code@;
        assert(c.subrange(0, 140) =~= c_loop);
        assert(c.subrange(0, 10) =~= prologue());
        assert forall|i: int| 0 <= i < 13 implies #[trigger] dispatch_entry(c, i) by {
            lemma_entry_kept(c_loop, c, i);
        }
        assert(dispatcher_intact(c));
    }
    let init_return: usize = 16;
    let focus: usize = 26;
    let char_branch: usize = 36;
    let key: usize = 46;
    let identity: usize = 56;
    let mac_init: usize = 66;
    let usb_plug: usize = 76;
    let pc_init: usize = 86;
    assert(out.sites@.contains(16 + 10 * 0int) && out.sites@.contains(16 + 10 * 1int) && out.sites@.contains(16 + 10 * 2int));
    assert(out.sites@.contains(16 + 10 * 3int) && out.sites@.contains(16 + 10 * 4int) && out.sites@.contains(16 + 10 * 5int));
    assert(out.sites@.contains(16 + 10 * 6int) && out.sites@.contains(16 + 10 * 7int));

    let ghost before_handlers = out;
    let focus_actions = match actions_for(definition, Message::SetFocus) {
        Ok(a) => a,
        Err(e) => {
            assert(needed_messages()[0] == Message::SetFocus);
            return Err(e);
        },
    };
    let focus_offset = out.offset();
    let ghost f0 = out;
    match emit_actions(&mut out, focus_actions, &definition.manifest) {
        Ok(()) => {},
        Err(e) => {
            assert(!handlers_ok(*definition));
            return Err(e);
        },
    }
    let ghost f1 = out;
    let char_actions = match actions_for(definition, Message::Char) {
        Ok(a) => a,
        Err(e) => {
            assert(needed_messages()[1] == Message::Char);
            return Err(e);
        },
    };
    let ghost o1 = out;
    let generic_usb_offset = out.offset();
    match emit_actions(&mut out, char_actions, &definition.manifest) {
        Ok(()) => {},
        Err(e) => {
            assert(!handlers_ok(*definition));
            return Err(e);
        },
    }
    proof { lemma_grows_trans(&before_handlers, &o1, &out); }
    let ghost c1 = out;
    let key_actions = match actions_for(definition, Message::Key) {
        Ok(a) => a,
        Err(e) => {
            assert(needed_messages()[2] == Message::Key);
            return Err(e);
        },
    };
    let shared_key = same_actions(key_actions, char_actions);
    let ghost o2 = out;
    let key_offset = if shared_key {
        generic_usb_offset
    } else {
        let offset = out.offset();
        match emit_actions(&mut out, key_actions, &definition.manifest) {
            Ok(()) => {},
            Err(e) => {
                assert(!handlers_ok(*definition));
                return Err(e);
            },
        }
        proof { lemma_grows_trans(&before_handlers, &o2, &out); }
        offset
    };
    let ghost k1 = out;
    let mac_actions = match actions_for(definition, Message::UsbMacInit) {
        Ok(a) => a,
        Err(e) => {
            assert(needed_messages()[3] == Message::UsbMacInit);
            return Err(e);
        },
    };
    let init_status_offset = out.offset();
    let ghost o3 = out;
    match emit_actions(&mut out, mac_actions, &definition.manifest) {
        Ok(()) => {},
        Err(e) => {
            assert(!handlers_ok(*definition));
            return Err(e);
        },
    }
    proof { lemma_grows_trans(&before_handlers, &o3, &out); }
    let ghost m1 = out;
    let plug_actions = match actions_for(definition, Message::UsbPlug) {
        Ok(a) => a,
        Err(e) => {
            assert(needed_messages()[4] == Message::UsbPlug);
            return Err(e);
        },
    };
    let usb_plug_offset = out.offset();
    let ghost o4 = out;
    match emit_actions(&mut out, plug_actions, &definition.manifest) {
        Ok(()) => {},
        Err(e) => {
            assert(!handlers_ok(*definition));
            return Err(e);
        },
    }
    proof { lemma_grows_trans(&before_handlers, &o4, &out); }
    let ghost u1 = out;
    let pc_actions = match actions_for(definition, Message::UsbPcInit) {
        Ok(a) => a,
        Err(e) => {
            assert(needed_messages()[5] == Message::UsbPcInit);
            return Err(e);
        },
    };
    let pc_init_offset = out.offset();
    let ghost o5 = out;
    match emit_actions(&mut out, pc_actions, &definition.manifest) {
        Ok(()) => {},
        Err(e) => {
            assert(!handlers_ok(*definition));
            return Err(e);
        },
    }
    proof { lemma_grows_trans(&before_handlers, &o5, &out); }
    let ghost q1 = out;
    let identity_actions = match actions_for(definition, Message::Identity) {
        Ok(a) => a,
        Err(e) => {
            assert(needed_messages()[6] == Message::Identity);
            return Err(e);
        },
    };
    let identity_offset = out.offset();
    let ghost o6 = out;
    match emit_actions(&mut out, identity_actions, &definition.manifest) {
        Ok(()) => {},
        Err(e) => {
            assert(!handlers_ok(*definition));
            return Err(e);
        },
    }
    proof { lemma_grows_trans(&before_handlers, &o6, &out); }
    let ghost i1 = out;
    proof {
        assert forall|m: int| 0 <= m < 7 implies has_handler(*definition, #[trigger] needed_messages()[m]) by {
            if m == 0 { assert(needed_messages()[0] == Message::SetFocus); }
            else if m == 1 { assert(needed_messages()[1] == Message::Char); }
            else if m == 2 { assert(needed_messages()[2] == Message::Key); }
            else if m == 3 { assert(needed_messages()[3] == Message::UsbMacInit); }
            else if m == 4 { assert(needed_messages()[4] == Message::UsbPlug); }
            else if m == 5 { assert(needed_messages()[5] == Message::UsbPcInit); }
            else { assert(needed_messages()[6] == Message::Identity); }
        }
        lemma_dispatcher_same_head(before_handlers.code@, out.code@);
    }

    proof {
        lemma_grows_refl(&i1);
        lemma_grows_trans(&q1, &i1, &i1);
        lemma_grows_trans(&u1, &q1, &i1);
        lemma_grows_trans(&m1, &u1, &i1);
        lemma_grows_trans(&k1, &m1, &i1);
        if shared_key {
            lemma_grows_refl(&c1);
        }
        lemma_grows_trans(&c1, &k1, &i1);
        lemma_grows_trans(&f1, &c1, &i1);
    }
    let stub_start = out.offset();
    assert(stub_start + 10 == compiled_size(*definition));
    let ghost before_stubs = out.code@;
    assert(forall|m: int| 0 <= m < out.trap_calls@.len() ==> out.sites@.contains(#[trigger] out.trap_calls@[m].0 as int));
    assert(forall|m: int| 0 <= m < out.trap_calls@.len() ==> (#[trigger] out.trap_calls@[m]).0 + 4 <= stub_start);
    out.emit_trap_stubs();
    let code_end = out.offset();
    assert(code_end == stub_start + 10);
    let ghost sc = out.code@;
    let ghost stubs0 = out.trap_stubs@;
    assert(stubs0 == seq![
        (Trap::ClearScreen, stub_start),
        (Trap::SetTextRow, (stub_start + 2) as usize),
        (Trap::DrawChar, (stub_start + 4) as usize),
        (Trap::FlushText, (stub_start + 6) as usize),
        (Trap::Yield, (stub_start + 8) as usize),
    ]);
    proof {
        assert(out.code@.subrange(0, before_stubs.len() as int) =~= before_stubs);
        lemma_dispatcher_same_head(before_stubs, out.code@);
    }
    assert(forall|m: int| 0 <= m < out.trap_calls@.len() ==> (#[trigger] out.trap_calls@[m]).0 >= 146);
    assert(146 <= focus_offset <= generic_usb_offset <= stub_start);
    assert(146 <= key_offset <= stub_start);
    assert(146 <= init_status_offset <= stub_start);
    assert(146 <= usb_plug_offset <= stub_start);
    assert(146 <= pc_init_offset <= stub_start);
    assert(146 <= identity_offset <= stub_start);

    patch_kept(&mut out, init_return, return_offset)?;
    patch_kept(&mut out, focus, focus_offset)?;
    patch_kept(&mut out, char_branch, generic_usb_offset)?;
    proof {
        reveal(usb_patched);
        assert(out.code@.subrange(146, stub_start + 10) =~= sc.subrange(146, stub_start + 10));
    }
    let mut g: usize = 0;
    while g < 5
        invariant
            g <= 5,
            stub_start >= 146,
            stub_start + 10 == compiled_size(*definition),
            generic_usb_offset <= stub_start,
            out.trap_stubs@ == stubs0,
            out.wf(),
            dispatcher_intact(out.code@),
            forall|i: int| 0 <= i < 13 ==> out.sites@.contains(#[trigger] (16 + 10 * i)),
            out.sites@.contains(140),
            forall|s: int| #[trigger] out.sites@.contains(s) ==> s == 140 || s <= 136 || s >= 146,
            out.targets@.contains_key(16) && out.targets@[16] == 144,
            out.targets@.contains_key(26) && out.targets@[26] == focus_offset,
            out.targets@.contains_key(36) && out.targets@[36] == generic_usb_offset,
            usb_patched(out.targets@, g as int, generic_usb_offset as int),
            out.code@.len() == stub_start + 10,
            out.code@.subrange(stub_start as int, stub_start + 10) == trap_stubs(),
            out.code@.subrange(146, stub_start + 10) == sc.subrange(146, stub_start + 10),
            out.trap_calls == i1.trap_calls,
            forall|m: int| 0 <= m < out.trap_calls@.len() ==> (#[trigger] out.trap_calls@[m]).0 >= 146
                && out.trap_calls@[m].0 + 4 <= stub_start,
        decreases 5 - g,
    {
        assert(out.sites@.contains(16 + 10 * (8 + g as int)));
        let ghost before = out.code@;
        let ghost tb = out.targets@;
        patch_kept(&mut out, 96 + 10 * g, generic_usb_offset)?;
        proof {
            reveal(usb_site);
            lemma_usb_patched_step(tb, out.targets@, g as int, generic_usb_offset as int);
            assert(out.code@.subrange(stub_start as int, stub_start + 10) =~= before.subrange(stub_start as int, stub_start + 10));
            assert(out.code@.subrange(146, stub_start + 10) =~= before.subrange(146, stub_start + 10));
        }
        g = g + 1;
    }
    proof {
        lemma_usb_patched_at(out.targets@, g as int, generic_usb_offset as int, 0);
        lemma_usb_patched_at(out.targets@, g as int, generic_usb_offset as int, 1);
        lemma_usb_patched_at(out.targets@, g as int, generic_usb_offset as int, 2);
        lemma_usb_patched_at(out.targets@, g as int, generic_usb_offset as int, 3);
        lemma_usb_patched_at(out.targets@, g as int, generic_usb_offset as int, 4);
    }
    let ghost p0 = out.code@;
    patch_kept(&mut out, key, key_offset)?;
    patch_kept(&mut out, identity, identity_offset)?;
    patch_kept(&mut out, mac_init, init_status_offset)?;
    patch_kept(&mut out, usb_plug, usb_plug_offset)?;
    patch_kept(&mut out, pc_init, pc_init_offset)?;
    patch_kept(&mut out, default_return, return_offset)?;
    proof {
        assert(out.code@.subrange(stub_start as int, stub_start + 10) =~= p0.subrange(stub_start as int, stub_start + 10));
        assert(out.code@.subrange(146, stub_start + 10) =~= p0.subrange(146, stub_start + 10));
    }
    assert(out.targets@.contains_key(16) && out.targets@[16] == 144);
    assert(out.targets@.contains_key(26) && out.targets@[26] == focus_offset);
    assert(out.targets@.contains_key(36) && out.targets@[36] == generic_usb_offset);
    assert(out.targets@.contains_key(46) && out.targets@[46] == key_offset);
    assert(out.targets@.contains_key(56) && out.targets@[56] == identity_offset);
    assert(out.targets@.contains_key(66) && out.targets@[66] == init_status_offset);
    assert(out.targets@.contains_key(76) && out.targets@[76] == usb_plug_offset);
    assert(out.targets@.contains_key(86) && out.targets@[86] == pc_init_offset);
    assert(out.targets@.contains_key(140) && out.targets@[140] == 144);
    assert forall|m: int| 0 <= m < 5 implies #[trigger] out.targets@.contains_key(usb_site(m))
        && out.targets@[usb_site(m)] == generic_usb_offset by {
        reveal(usb_site);
        if m == 0 {
        } else if m == 1 {
        } else if m == 2 {
        } else if m == 3 {
        } else {
            assert(m == 4);
        }
    }
    let ghost t0 = out;
    match patch_trap_calls(&mut out) {
        Ok(()) => {},
        Err(e) => {
            proof {
                if e == CompileError::UnsupportedAction {
                    let k = choose|k: int|
                        #![trigger t0.trap_calls@[k]]
                        0 <= k < t0.trap_calls@.len() && forall|j: int| 0 <= j < t0.trap_stubs@.len()
                            ==> (#[trigger] t0.trap_stubs@[j]).0 != t0.trap_calls@[k].1;
                    lemma_trap_has_stub(t0.trap_stubs@, stub_start, t0.trap_calls@[k].1);
                }
                if stub_start + 10 <= 0x8000 {
                    lemma_calls_reach(t0.trap_calls@, t0.trap_stubs@, stub_start);
                }
            }
            return Err(e);
        },
    }
    proof {
        assert forall|j: int| 0 <= j < 146 implies out.code@[j] == t0.code@[j] by {
            assert forall|m: int| 0 <= m < t0.trap_calls@.len() implies j != (#[trigger] t0.trap_calls@[m]).0 + 2
                && j != t0.trap_calls@[m].0 + 3 by {}
        }
        lemma_dispatcher_same_head(t0.code@, out.code@);
        assert forall|j: int| stub_start <= j < stub_start + 10 implies out.code@[j] == t0.code@[j] by {
            assert forall|m: int| 0 <= m < t0.trap_calls@.len() implies j != (#[trigger] t0.trap_calls@[m]).0 + 2
                && j != t0.trap_calls@[m].0 + 3 by {}
        }
        assert(out.code@.subrange(stub_start as int, stub_start + 10) =~= t0.code@.subrange(stub_start as int, stub_start + 10));
        assert forall|s: int| (s == 140 || (16 <= s <= 136 && (s - 16) % 10 == 0)) && #[trigger] t0.targets@.contains_key(s)
            implies out.targets@.contains_key(s) && out.targets@[s] == t0.targets@[s] by {
            assert forall|m: int| 0 <= m < t0.trap_calls@.len() implies (#[trigger] t0.trap_calls@[m]).0 != s by {}
        }
        assert(dispatch_target(out.code@, 0) == 144);
        assert(dispatch_target(out.code@, 1) == focus_offset);
        assert(dispatch_target(out.code@, 2) == generic_usb_offset);
        assert(dispatch_target(out.code@, 3) == key_offset);
        assert(dispatch_target(out.code@, 4) == identity_offset);
        assert(dispatch_target(out.code@, 5) == init_status_offset);
        assert(dispatch_target(out.code@, 6) == usb_plug_offset);
        assert(dispatch_target(out.code@, 7) == pc_init_offset);
        assert forall|i: int| 8 <= i < 13 implies #[trigger] dispatch_target(out.code@, i) == generic_usb_offset by {
            assert(t0.targets@.contains_key(usb_site(i - 8)) && t0.targets@[usb_site(i - 8)] == generic_usb_offset);
            reveal(usb_site);
        }
        assert(branch_target(out.code@, 140) == 144);
        assert forall|i: int| 1 <= i < 13 implies 146 <= #[trigger] dispatch_target(out.code@, i) <= out.code@.len() - 10 by {
            if i >= 8 {
                assert(dispatch_target(out.code@, i) == generic_usb_offset);
            }
        }
    }
    proof {
        assert forall|j: int| 146 <= j < i1.code@.len() implies #[trigger] t0.code@[j] == i1.code@[j] by {
            assert(t0.code@.subrange(146, stub_start + 10)[j - 146] == sc.subrange(146, stub_start + 10)[j - 146]);
            assert(sc[j] == i1.code@[j]);
        }
        let id = definition.manifest.id.0;
        lemma_block_patched(f0, f1, i1, t0, out.code@, focus_actions@, id, stub_start);
        lemma_block_patched(o1, c1, i1, t0, out.code@, char_actions@, id, stub_start);
        if !shared_key {
            lemma_block_patched(o2, k1, i1, t0, out.code@, key_actions@, id, stub_start);
        }
        lemma_block_patched(o3, m1, i1, t0, out.code@, mac_actions@, id, stub_start);
        lemma_block_patched(o4, u1, i1, t0, out.code@, plug_actions@, id, stub_start);
        lemma_block_patched(o5, q1, i1, t0, out.code@, pc_actions@, id, stub_start);
        lemma_block_patched(o6, i1, i1, t0, out.code@, identity_actions@, id, stub_start);
    }
    Ok(out.code)
}

/// Patches a branch of a code whose dispatcher is in place, leaving it in
/// place.
fn patch_kept(out: &mut Assembler, site: usize, target: usize) -> (r: Result<(), CompileError>)
    requires
        old(out).wf(),
        old(out).sites@.contains(site as int),
        dispatcher_intact(old(out).code@),
        site >= 146 || site == 140 || (16 <= site <= 136 && (site - 16) % 10 == 0),
    ensures
        final(out).wf(),
        final(out).sites == old(out).sites,
        final(out).trap_calls == old(out).trap_calls,
        final(out).trap_stubs == old(out).trap_stubs,
        final(out).code@.len() == old(out).code@.len(),
        r is Ok ==> dispatcher_intact(final(out).code@)
            && final(out).targets@ == old(out).targets@.insert(site as int, target as int)
            && forall|j: int| 0 <= j < old(out).code@.len() && j != site + 2 && j != site + 3 ==> final(out).code@[j]
                == old(out).code@[j],
        r is Err ==> r == Err::<(), CompileError>(CompileError::BranchOutOfRange),
        r is Ok <==> -0x8000 <= target - (site + 2) < 0x8000,
{
    let ghost c = out.code@;
    let r = out.patch_branch(site, target);
    proof {
        if r is Ok {
            assert forall|j: int| 0 <= j < c.len() && j != site + 2 && j != site + 3 implies out.code@[j] == c[j] by {}
            lemma_dispatcher_patch(c, out.code@, site as int);
        }
    }
    r
}
} // verus!
