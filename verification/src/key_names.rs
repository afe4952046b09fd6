//! Names for the NEO's non-character keys, as the emulator's command line
//! takes them, and `0x..` matrix codes.

use vstd::prelude::*;
use crate::text::{text_chars, text_from_chars};

verus! {

/// Why a key name was refused.
#[derive(Clone, Debug, PartialEq, Eq)]
pub enum KeyNameError {
    /// A `0x` code that is not one to two-digit hexadecimal byte.
    InvalidCode(String),
    /// A name no key has.
    Unknown(String),
}

/// ASCII letters in lower case, other characters unchanged.
pub open spec fn ascii_lowercase(s: Seq<char>) -> Seq<char> {
    Seq::new(s.len(), |i: int| if 'A' <= s[i] <= 'Z' { ((s[i] as u32) + 32) as char } else { s[i] })
}

/// The value of a hexadecimal digit.
pub open spec fn hex_value(c: char) -> Option<nat> {
    if '0' <= c <= '9' {
        Some((c as u32 - 0x30) as nat)
    } else if 'a' <= c <= 'f' {
        Some((c as u32 - 0x61 + 10) as nat)
    } else if 'A' <= c <= 'F' {
        Some((c as u32 - 0x41 + 10) as nat)
    } else {
        None
    }
}

/// The value of a string of hexadecimal digits, if every character is one.
pub open spec fn hex_number(s: Seq<char>) -> Option<nat>
    decreases s.len(),
{
    if s.len() == 0 {
        Some(0)
    } else {
        match (hex_number(s.drop_last()), hex_value(s.last())) {
            (Some(v), Some(d)) => Some(v * 16 + d),
            _ => None,
        }
    }
}

/// A byte written in hexadecimal as `u8::from_str_radix` reads it: an
/// optional `+` and at least one digit, with a value that fits a byte.
pub open spec fn hex_byte(s: Seq<char>) -> Option<u8> {
    let digits = if s.len() > 0 && s[0] == '+' { s.drop_first() } else { s };
    if digits.len() == 0 {
        None
    } else {
        match hex_number(digits) {
            Some(v) => if v <= 255 { Some(v as u8) } else { None },
            None => None,
        }
    }
}

/// The names the command line gives non-character keys, with their codes.
pub open spec fn key_name_table() -> Seq<(Seq<char>, u8)> {
    seq![
        ("enter"@, 0x69u8), ("return"@, 0x69), ("up"@, 0x77), ("down"@, 0x15), ("left"@, 0x75),
        ("right"@, 0x76), ("esc"@, 0x74), ("escape"@, 0x74), ("tab"@, 0x0c), ("backspace"@, 0x09),
        ("applets"@, 0x46), ("send"@, 0x47), ("find"@, 0x67), ("print"@, 0x49), ("spell-check"@, 0x59),
        ("spellcheck"@, 0x59), ("clear-file"@, 0x54), ("clearfile"@, 0x54), ("file1"@, 0x4b),
        ("file-1"@, 0x4b), ("file2"@, 0x4a), ("file-2"@, 0x4a), ("file3"@, 0x0a), ("file-3"@, 0x0a),
        ("file4"@, 0x1a), ("file-4"@, 0x1a), ("file5"@, 0x19), ("file-5"@, 0x19), ("file6"@, 0x10),
        ("file-6"@, 0x10), ("file7"@, 0x02), ("file-7"@, 0x02), ("file8"@, 0x42), ("file-8"@, 0x42),
    ]
}

/// The code of the first table entry named `name`, if any.
pub open spec fn named_key(name: Seq<char>, n: int) -> Option<u8>
    decreases n,
{
    if n <= 0 {
        None
    } else {
        match named_key(name, n - 1) {
            Some(c) => Some(c),
            None => if key_name_table()[n - 1].0 == name { Some(key_name_table()[n - 1].1) } else { None },
        }
    }
}

/// Whether a key name is written as a code, `0x` and digits.
pub open spec fn code_form(name: Seq<char>) -> bool {
    name.len() >= 2 && name[0] == '0' && name[1] == 'x'
}

/// What a key name means: a named key (letters in any case), or `0x` and a
/// hexadecimal code.
pub open spec fn key_name_code(value: Seq<char>) -> Option<u8> {
    let name = ascii_lowercase(value);
    match named_key(name, key_name_table().len() as int) {
        Some(c) => Some(c),
        None => if code_form(name) { hex_byte(name.subrange(2, name.len() as int)) } else { None },
    }
}

fn lowercase_chars(cs: &Vec<char>) -> (r: Vec<char>)
    ensures
        r@ == ascii_lowercase(cs@),
{
    let mut out: Vec<char> = Vec::new();
    let mut i: usize = 0;
    while i < cs.len()
        invariant
            i <= cs@.len(),
            out@ == ascii_lowercase(cs@.subrange(0, i as int)),
        decreases cs@.len() - i,
    {
        let c = cs[i];
        let l = if 'A' <= c && c <= 'Z' { ((c as u32) + 32) as u8 as char } else { c };
        out.push(l);
        i = i + 1;
        assert(out@ =~= ascii_lowercase(cs@.subrange(0, i as int)));
    }
    assert(cs@.subrange(0, cs@.len() as int) =~= cs@);
    out
}

fn hex_digit_value(c: char) -> (r: Option<u32>)
    ensures
        match r {
            Some(v) => hex_value(c) == Some(v as nat) && v < 16,
            None => hex_value(c) is None,
        },
{
    if '0' <= c && c <= '9' {
        Some(c as u32 - 0x30)
    } else if 'a' <= c && c <= 'f' {
        Some(c as u32 - 0x61 + 10)
    } else if 'A' <= c && c <= 'F' {
        Some(c as u32 - 0x41 + 10)
    } else {
        None
    }
}

proof fn lemma_hex_prefix(t: Seq<char>, k: int)
    requires
        0 <= k <= t.len(),
        hex_number(t) is Some,
    ensures
        hex_number(t.subrange(0, k)) is Some,
        hex_number(t.subrange(0, k))->0 <= hex_number(t)->0,
    decreases t.len() - k,
{
    if k < t.len() {
        let u = t.drop_last();
        lemma_hex_prefix(u, k);
        assert(u.subrange(0, k) =~= t.subrange(0, k));
    } else {
        assert(t.subrange(0, k) =~= t);
    }
}

/// Reads a byte written in hexadecimal from `cs[from..]`.
fn parse_hex_byte(cs: &Vec<char>, from: usize) -> (r: Option<u8>)
    requires
        from <= cs@.len(),
    ensures
        r == hex_byte(cs@.subrange(from as int, cs@.len() as int)),
{
    let ghost s = cs@.subrange(from as int, cs@.len() as int);
    let mut start = from;
    if start < cs.len() && cs[start] == '+' {
        start = start + 1;
    }
    let ghost digits = cs@.subrange(start as int, cs@.len() as int);
    assert(digits == (if s.len() > 0 && s[0] == '+' { s.drop_first() } else { s })) by {
        if s.len() > 0 && s[0] == '+' {
            assert(digits =~= s.drop_first());
        } else {
            assert(digits =~= s);
        }
    }
    if start >= cs.len() {
        return None;
    }
    let mut value: u32 = 0;
    let mut i = start;
    while i < cs.len()
        invariant
            start <= i <= cs@.len(),
            start < cs@.len(),
            s == cs@.subrange(from as int, cs@.len() as int),
            digits == (if s.len() > 0 && s[0] == '+' { s.drop_first() } else { s }),
            digits == cs@.subrange(start as int, cs@.len() as int),
            hex_number(cs@.subrange(start as int, i as int)) == Some(value as nat),
            value <= 255,
        decreases cs@.len() - i,
    {
        let ghost prefix = cs@.subrange(start as int, i + 1);
        assert(prefix.drop_last() =~= cs@.subrange(start as int, i as int));
        match hex_digit_value(cs[i]) {
            Some(d) => {
                let next = value * 16 + d;
                if next > 255 {
                    proof {
                        assert(hex_number(prefix) == Some(next as nat));
                        if hex_number(digits) is Some {
                            lemma_hex_prefix(digits, (i + 1 - start) as int);
                            assert(digits.subrange(0, (i + 1 - start) as int) =~= prefix);
                        }
                    }
                    return None;
                }
                value = next;
            },
            None => {
                proof {
                    assert(hex_number(prefix) is None);
                    if hex_number(digits) is Some {
                        lemma_hex_prefix(digits, (i + 1 - start) as int);
                        assert(digits.subrange(0, (i + 1 - start) as int) =~= prefix);
                    }
                }
                return None;
            },
        }
        i = i + 1;
    }
    assert(cs@.subrange(start as int, i as int) =~= digits);
    Some(value as u8)
}

fn table_code(name: &Vec<char>) -> (r: Option<u8>)
    ensures
        r == named_key(name@, key_name_table().len() as int),
{
    let table: [(&str, u8); 34] = [
        ("enter", 0x69), ("return", 0x69), ("up", 0x77), ("down", 0x15), ("left", 0x75),
        ("right", 0x76), ("esc", 0x74), ("escape", 0x74), ("tab", 0x0c), ("backspace", 0x09),
        ("applets", 0x46), ("send", 0x47), ("find", 0x67), ("print", 0x49), ("spell-check", 0x59),
        ("spellcheck", 0x59), ("clear-file", 0x54), ("clearfile", 0x54), ("file1", 0x4b),
        ("file-1", 0x4b), ("file2", 0x4a), ("file-2", 0x4a), ("file3", 0x0a), ("file-3", 0x0a),
        ("file4", 0x1a), ("file-4", 0x1a), ("file5", 0x19), ("file-5", 0x19), ("file6", 0x10),
        ("file-6", 0x10), ("file7", 0x02), ("file-7", 0x02), ("file8", 0x42), ("file-8", 0x42),
    ];
    assert(table@.len() == key_name_table().len());
    assert(forall|k: int| 0 <= k < 34 ==> (#[trigger] table@[k]).0@ == key_name_table()[k].0 && table@[k].1 == key_name_table()[k].1);
    let text = text_from_chars(name);
    let mut k: usize = 0;
    while k < 34
        invariant
            k <= 34,
            text@ == name@,
            table@.len() == 34,
            forall|j: int| 0 <= j < 34 ==> (#[trigger] table@[j]).0@ == key_name_table()[j].0 && table@[j].1 == key_name_table()[j].1,
            named_key(name@, k as int) is None,
        decreases 34 - k,
    {
        if crate::text::text_eq(table[k].0, text.as_str()) {
            assert(named_key(name@, k + 1) == Some(table@[k as int].1));
            proof {
                lemma_named_key_stays(name@, k + 1, 34);
            }
            return Some(table[k].1);
        }
        k = k + 1;
    }
    None
}

proof fn lemma_named_key_stays(name: Seq<char>, a: int, b: int)
    requires
        0 <= a <= b,
        named_key(name, a) is Some,
    ensures
        named_key(name, b) == named_key(name, a),
    decreases b - a,
{
    if a < b {
        lemma_named_key_stays(name, a, b - 1);
    }
}

/// The matrix code a key name stands for.
pub fn matrix_code_for_key_name(value: &str) -> (r: Result<u8, KeyNameError>)
    ensures
        match r {
            Ok(c) => key_name_code(value@) == Some(c),
            Err(KeyNameError::InvalidCode(s)) => key_name_code(value@) is None && s@ == ascii_lowercase(value@)
                && code_form(ascii_lowercase(value@)),
            Err(KeyNameError::Unknown(s)) => key_name_code(value@) is None && s@ == ascii_lowercase(value@)
                && !code_form(ascii_lowercase(value@)),
        },
{
    let chars = text_chars(value);
    let name = lowercase_chars(&chars);
    match table_code(&name) {
        Some(c) => Ok(c),
        None => {
            if name.len() >= 2 && name[0] == '0' && name[1] == 'x' {
                match parse_hex_byte(&name, 2) {
                    Some(b) => Ok(b),
                    None => Err(KeyNameError::InvalidCode(text_from_chars(&name))),
                }
            } else {
                Err(KeyNameError::Unknown(text_from_chars(&name)))
            }
        },
    }
}

} // verus!
