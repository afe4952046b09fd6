//! The emulator window's keyboard: which matrix key each key of the host
//! keyboard stands for, and when a held host key presses or releases one.

use vstd::prelude::*;
use crate::keyboard::{ascii_lower, first_code_for, matrix_key_for_char};

verus! {

/// The keys of the host keyboard that the emulator window reads.
#[derive(Clone, Copy, Debug, PartialEq, Eq, Structural)]
pub enum GuiKey {
    A, B, C, D, E, F, G, H, I, J, K, L, M, N, O, P, Q, R, S, T, U, V, W, X, Y, Z,
    Num0, Num1, Num2, Num3, Num4, Num5, Num6, Num7, Num8, Num9,
    Exclamationmark,
    OpenBracket,
    OpenCurlyBracket,
    CloseBracket,
    CloseCurlyBracket,
    Backslash,
    Pipe,
    Semicolon,
    Colon,
    Quote,
    Backtick,
    Comma,
    Period,
    Slash,
    Questionmark,
    Minus,
    Equals,
    Plus,
    Backspace,
    Delete,
    Enter,
    Escape,
    Space,
    Tab,
    ArrowUp,
    ArrowDown,
    ArrowLeft,
    ArrowRight,
    /// Any other key.
    Other,
}

/// The character a host key types on the NEO, for the keys that map to a
/// character key of its matrix (a shifted symbol maps to its key).
pub open spec fn gui_key_char(k: GuiKey) -> Option<char> {
    match k {
        GuiKey::A => Some('a'), GuiKey::B => Some('b'), GuiKey::C => Some('c'), GuiKey::D => Some('d'),
        GuiKey::E => Some('e'), GuiKey::F => Some('f'), GuiKey::G => Some('g'), GuiKey::H => Some('h'),
        GuiKey::I => Some('i'), GuiKey::J => Some('j'), GuiKey::K => Some('k'), GuiKey::L => Some('l'),
        GuiKey::M => Some('m'), GuiKey::N => Some('n'), GuiKey::O => Some('o'), GuiKey::P => Some('p'),
        GuiKey::Q => Some('q'), GuiKey::R => Some('r'), GuiKey::S => Some('s'), GuiKey::T => Some('t'),
        GuiKey::U => Some('u'), GuiKey::V => Some('v'), GuiKey::W => Some('w'), GuiKey::X => Some('x'),
        GuiKey::Y => Some('y'), GuiKey::Z => Some('z'),
        GuiKey::Num0 => Some('0'), GuiKey::Num1 => Some('1'), GuiKey::Num2 => Some('2'), GuiKey::Num3 => Some('3'),
        GuiKey::Num4 => Some('4'), GuiKey::Num5 => Some('5'), GuiKey::Num6 => Some('6'), GuiKey::Num7 => Some('7'),
        GuiKey::Num8 => Some('8'), GuiKey::Num9 => Some('9'),
        GuiKey::Exclamationmark => Some('1'),
        GuiKey::OpenBracket | GuiKey::OpenCurlyBracket => Some('['),
        GuiKey::CloseBracket | GuiKey::CloseCurlyBracket => Some(']'),
        GuiKey::Backslash | GuiKey::Pipe => Some('\\'),
        GuiKey::Semicolon | GuiKey::Colon => Some(';'),
        GuiKey::Quote => Some('\''),
        GuiKey::Backtick => Some('`'),
        GuiKey::Comma => Some(','),
        GuiKey::Period => Some('.'),
        GuiKey::Slash | GuiKey::Questionmark => Some('/'),
        GuiKey::Minus => Some('-'),
        GuiKey::Equals => Some('='),
        _ => None,
    }
}

/// The matrix code of a host key that maps to a non-character key.
pub open spec fn gui_key_special(k: GuiKey) -> Option<u8> {
    match k {
        GuiKey::Backspace => Some(0x09u8),
        GuiKey::Delete => Some(0x61u8),
        GuiKey::Enter => Some(0x69u8),
        GuiKey::Escape => Some(0x74u8),
        GuiKey::Space => Some(0x79u8),
        GuiKey::Tab => Some(0x0cu8),
        GuiKey::ArrowUp => Some(0x77u8),
        GuiKey::ArrowDown => Some(0x15u8),
        GuiKey::ArrowLeft => Some(0x75u8),
        GuiKey::ArrowRight => Some(0x76u8),
        _ => None,
    }
}

/// The matrix code a host key presses: the key that types its character,
/// or its non-character key.
pub open spec fn gui_key_code(k: GuiKey) -> Option<u8> {
    match gui_key_char(k) {
        Some(c) => first_code_for(ascii_lower(c), 128),
        None => gui_key_special(k),
    }
}

fn gui_key_char_exec(k: GuiKey) -> (r: Option<char>)
    ensures
        r == gui_key_char(k),
{
    match k {
        GuiKey::A => Some('a'), GuiKey::B => Some('b'), GuiKey::C => Some('c'), GuiKey::D => Some('d'),
        GuiKey::E => Some('e'), GuiKey::F => Some('f'), GuiKey::G => Some('g'), GuiKey::H => Some('h'),
        GuiKey::I => Some('i'), GuiKey::J => Some('j'), GuiKey::K => Some('k'), GuiKey::L => Some('l'),
        GuiKey::M => Some('m'), GuiKey::N => Some('n'), GuiKey::O => Some('o'), GuiKey::P => Some('p'),
        GuiKey::Q => Some('q'), GuiKey::R => Some('r'), GuiKey::S => Some('s'), GuiKey::T => Some('t'),
        GuiKey::U => Some('u'), GuiKey::V => Some('v'), GuiKey::W => Some('w'), GuiKey::X => Some('x'),
        GuiKey::Y => Some('y'), GuiKey::Z => Some('z'),
        GuiKey::Num0 => Some('0'), GuiKey::Num1 => Some('1'), GuiKey::Num2 => Some('2'), GuiKey::Num3 => Some('3'),
        GuiKey::Num4 => Some('4'), GuiKey::Num5 => Some('5'), GuiKey::Num6 => Some('6'), GuiKey::Num7 => Some('7'),
        GuiKey::Num8 => Some('8'), GuiKey::Num9 => Some('9'),
        GuiKey::Exclamationmark => Some('1'),
        GuiKey::OpenBracket | GuiKey::OpenCurlyBracket => Some('['),
        GuiKey::CloseBracket | GuiKey::CloseCurlyBracket => Some(']'),
        GuiKey::Backslash | GuiKey::Pipe => Some('\\'),
        GuiKey::Semicolon | GuiKey::Colon => Some(';'),
        GuiKey::Quote => Some('\''),
        GuiKey::Backtick => Some('`'),
        GuiKey::Comma => Some(','),
        GuiKey::Period => Some('.'),
        GuiKey::Slash | GuiKey::Questionmark => Some('/'),
        GuiKey::Minus => Some('-'),
        GuiKey::Equals => Some('='),
        _ => None,
    }
}

/// The matrix code a host key presses.
pub fn matrix_code_for_key(k: GuiKey) -> (r: Option<u8>)
    ensures
        r == gui_key_code(k),
{
    match gui_key_char_exec(k) {
        Some(c) => match matrix_key_for_char(c) {
            Some(key) => Some(key.code()),
            None => None,
        },
        None => match k {
            GuiKey::Backspace => Some(0x09),
            GuiKey::Delete => Some(0x61),
            GuiKey::Enter => Some(0x69),
            GuiKey::Escape => Some(0x74),
            GuiKey::Space => Some(0x79),
            GuiKey::Tab => Some(0x0c),
            GuiKey::ArrowUp => Some(0x77),
            GuiKey::ArrowDown => Some(0x15),
            GuiKey::ArrowLeft => Some(0x75),
            GuiKey::ArrowRight => Some(0x76),
            _ => None,
        },
    }
}

/// What a host key does on the NEO's matrix: one key, or a chord.
#[derive(Clone, Copy, Debug, PartialEq, Eq)]
pub enum MatrixTap {
    Key(u8),
    Chord([u8; 2]),
}

/// The chord that types `+`: Shift and the `=` key.
pub fn plus_chord() -> (r: [u8; 2])
    ensures
        r@ == seq![0x6eu8, 0x40],
{
    let r: [u8; 2] = [0x6e, 0x40];
    assert(r@ =~= seq![0x6eu8, 0x40]);
    r
}

/// What a host key does on the matrix: its key, or for `+` the Shift
/// chord.
pub fn matrix_tap_for_key(k: GuiKey) -> (r: Option<MatrixTap>)
    ensures
        match gui_key_code(k) {
            Some(c) => r == Some(MatrixTap::Key(c)),
            None => if k == GuiKey::Plus {
                r matches Some(MatrixTap::Chord(codes)) && codes@ == seq![0x6eu8, 0x40]
            } else {
                r is None
            },
        },
{
    match matrix_code_for_key(k) {
        Some(c) => Some(MatrixTap::Key(c)),
        None => match k {
            GuiKey::Plus => Some(MatrixTap::Chord(plus_chord())),
            _ => None,
        },
    }
}

/// What a change of a held host key does to its matrix key.
#[derive(Clone, Copy, Debug, PartialEq, Eq, Structural)]
pub enum KeyChange {
    Press,
    Release,
    Unchanged,
}

/// The change to a matrix key when its host key goes from held `old` to
/// held `new`.
pub fn key_change(old: bool, new: bool) -> (r: KeyChange)
    ensures
        r == (if !old && new { KeyChange::Press } else if old && !new { KeyChange::Release } else { KeyChange::Unchanged }),
{
    if !old && new {
        KeyChange::Press
    } else if old && !new {
        KeyChange::Release
    } else {
        KeyChange::Unchanged
    }
}

/// The matrix key of the Shift modifier.
pub const SHIFT_CODE: u8 = 0x6e;
/// The matrix key of the Command modifier.
pub const COMMAND_CODE: u8 = 0x14;
/// The matrix key of the Option modifier.
pub const OPTION_CODE: u8 = 0x41;
/// The matrix key of the Ctrl modifier.
pub const CTRL_CODE: u8 = 0x7c;

/// Which modifier keys are held on the host, in the order the emulator
/// mirrors them: Shift, Ctrl, Command, Option.
#[derive(Clone, Copy, Debug, Default, PartialEq, Eq, Structural)]
pub struct ModifierMatrixState {
    pub shift: bool,
    pub ctrl: bool,
    pub command: bool,
    pub option: bool,
}

/// The matrix key changes that take the held modifiers from `a` to `b`:
/// one entry per modifier whose state changed, in the order Shift, Ctrl,
/// Command, Option.
pub open spec fn modifier_changes(a: ModifierMatrixState, b: ModifierMatrixState) -> Seq<(u8, KeyChange)> {
    let one = |old: bool, new: bool, code: u8|
        if old == new {
            Seq::<(u8, KeyChange)>::empty()
        } else {
            seq![(code, if new { KeyChange::Press } else { KeyChange::Release })]
        };
    one(a.shift, b.shift, SHIFT_CODE) + one(a.ctrl, b.ctrl, CTRL_CODE) + one(a.command, b.command, COMMAND_CODE) + one(
        a.option,
        b.option,
        OPTION_CODE,
    )
}

impl ModifierMatrixState {
    /// Takes the modifiers now held: returns the matrix keys to press or
    /// release so that the emulated keyboard follows, and remembers the
    /// new state.
    pub fn sync(&mut self, next: ModifierMatrixState) -> (r: Vec<(u8, KeyChange)>)
        ensures
            *final(self) == next,
            r@ == modifier_changes(*old(self), next),
    {
        let mut out: Vec<(u8, KeyChange)> = Vec::new();
        let pairs: [(bool, bool, u8); 4] = [
            (self.shift, next.shift, SHIFT_CODE),
            (self.ctrl, next.ctrl, CTRL_CODE),
            (self.command, next.command, COMMAND_CODE),
            (self.option, next.option, OPTION_CODE),
        ];
        let mut i: usize = 0;
        let ghost parts: Seq<Seq<(u8, KeyChange)>> = pairs@.map_values(|p: (bool, bool, u8)|
            if p.0 == p.1 {
                Seq::<(u8, KeyChange)>::empty()
            } else {
                seq![(p.2, if p.1 { KeyChange::Press } else { KeyChange::Release })]
            });
        while i < 4
            invariant
                i <= 4,
                parts.len() == 4,
                parts == pairs@.map_values(|p: (bool, bool, u8)|
                    if p.0 == p.1 {
                        Seq::<(u8, KeyChange)>::empty()
                    } else {
                        seq![(p.2, if p.1 { KeyChange::Press } else { KeyChange::Release })]
                    }),
                out@ == parts.subrange(0, i as int).fold_left(Seq::<(u8, KeyChange)>::empty(), |acc: Seq<(u8, KeyChange)>, x: Seq<(u8, KeyChange)>| acc + x),
            decreases 4 - i,
        {
            let (old, new, code) = pairs[i];
            let change = key_change(old, new);
            let ghost before = out@;
            if change != KeyChange::Unchanged {
                out.push((code, change));
            }
            proof {
                let s = parts.subrange(0, i + 1);
                assert(s.drop_last() =~= parts.subrange(0, i as int));
                assert(out@ =~= before + parts[i as int]);
            }
            i = i + 1;
        }
        proof {
            let f = |acc: Seq<(u8, KeyChange)>, x: Seq<(u8, KeyChange)>| acc + x;
            assert(parts.subrange(0, 4) =~= parts);
            let e = Seq::<(u8, KeyChange)>::empty();
            assert(parts.subrange(0, 0).fold_left(e, f) == e);
            assert(parts.subrange(0, 1).drop_last() =~= parts.subrange(0, 0));
            assert(parts.subrange(0, 2).drop_last() =~= parts.subrange(0, 1));
            assert(parts.subrange(0, 3).drop_last() =~= parts.subrange(0, 2));
            assert(parts.subrange(0, 4).drop_last() =~= parts.subrange(0, 3));
            assert(out@ =~= modifier_changes(*old(self), next));
        }
        *self = next;
        out
    }
}

} // verus!
