//! The emulator's headless command line: the values its options take, and
//! the order in which scheduled text, key and hold events are played while
//! the firmware runs.  The caller runs the firmware between events; here it
//! learns which event comes next.

use vstd::prelude::*;
use crate::key_names::{hex_value, matrix_code_for_key_name, key_name_code, KeyNameError};
use crate::text::{text_chars, text_from_chars};

verus! {

/// Why an option value was refused.
#[derive(Clone, Debug, PartialEq, Eq)]
pub enum ArgError {
    /// The value does not have the option's shape; the text says which.
    Usage(String),
    /// A part that should be a number is not one that fits.
    Number(String),
    /// A key name no key has.
    Key(KeyNameError),
}

/// The value of a decimal digit, or of a hexadecimal one when `hex`.
pub open spec fn digit_of(c: char, hex: bool) -> Option<nat> {
    if hex {
        hex_value(c)
    } else if '0' <= c <= '9' {
        Some((c as u32 - 0x30) as nat)
    } else {
        None
    }
}

/// The value of a string of digits, if every character is one.
pub open spec fn digits_value(s: Seq<char>, hex: bool) -> Option<nat>
    decreases s.len(),
{
    if s.len() == 0 {
        Some(0)
    } else {
        match (digits_value(s.drop_last(), hex), digit_of(s.last(), hex)) {
            (Some(v), Some(d)) => Some(if hex { v * 16 + d } else { v * 10 + d }),
            _ => None,
        }
    }
}

/// An unsigned number as Rust's integer parsing reads it for a type whose
/// largest value is `max`: an optional `+`, then at least one digit, and a
/// value that fits.
pub open spec fn unsigned_value(s: Seq<char>, hex: bool, max: nat) -> Option<nat> {
    let digits = if s.len() > 0 && s[0] == '+' { s.drop_first() } else { s };
    if digits.len() == 0 {
        None
    } else {
        match digits_value(digits, hex) {
            Some(v) => if v <= max { Some(v) } else { None },
            None => None,
        }
    }
}

proof fn lemma_digits_prefix(t: Seq<char>, k: int, hex: bool)
    requires
        0 <= k <= t.len(),
        digits_value(t, hex) is Some,
    ensures
        digits_value(t.subrange(0, k), hex) is Some,
        digits_value(t.subrange(0, k), hex)->0 <= digits_value(t, hex)->0,
    decreases t.len() - k,
{
    if k < t.len() {
        let u = t.drop_last();
        lemma_digits_prefix(u, k, hex);
        assert(u.subrange(0, k) =~= t.subrange(0, k));
    } else {
        assert(t.subrange(0, k) =~= t);
    }
}

fn digit_value_exec(c: char, hex: bool) -> (r: Option<u32>)
    ensures
        match r {
            Some(v) => digit_of(c, hex) == Some(v as nat) && v < 16,
            None => digit_of(c, hex) is None,
        },
{
    if '0' <= c && c <= '9' {
        Some(c as u32 - 0x30)
    } else if hex && 'a' <= c && c <= 'f' {
        Some(c as u32 - 0x61 + 10)
    } else if hex && 'A' <= c && c <= 'F' {
        Some(c as u32 - 0x41 + 10)
    } else {
        None
    }
}

/// Reads the number written in `cs[from..to]`.
fn parse_unsigned(cs: &Vec<char>, from: usize, to: usize, hex: bool, max: u64) -> (r: Option<u64>)
    requires
        from <= to <= cs@.len(),
    ensures
        match unsigned_value(cs@.subrange(from as int, to as int), hex, max as nat) {
            Some(v) => r == Some(v as u64),
            None => r is None,
        },
{
    let ghost s = cs@.subrange(from as int, to as int);
    let mut start = from;
    if start < to && cs[start] == '+' {
        start = start + 1;
    }
    let ghost digits = cs@.subrange(start as int, to as int);
    assert(digits == (if s.len() > 0 && s[0] == '+' { s.drop_first() } else { s })) by {
        if s.len() > 0 && s[0] == '+' {
            assert(digits =~= s.drop_first());
        } else {
            assert(digits =~= s);
        }
    }
    if start >= to {
        return None;
    }
    let mut value: u64 = 0;
    let mut i = start;
    while i < to
        invariant
            start <= i <= to <= cs@.len(),
            start < to,
            s == cs@.subrange(from as int, to as int),
            digits == (if s.len() > 0 && s[0] == '+' { s.drop_first() } else { s }),
            digits == cs@.subrange(start as int, to as int),
            digits_value(cs@.subrange(start as int, i as int), hex) == Some(value as nat),
            value <= max,
        decreases to - i,
    {
        let ghost prefix = cs@.subrange(start as int, i + 1);
        assert(prefix.drop_last() =~= cs@.subrange(start as int, i as int));
        match digit_value_exec(cs[i], hex) {
            Some(d) => {
                let base: u128 = if hex { 16 } else { 10 };
                let next: u128 = value as u128 * base + d as u128;
                assert(next == (if hex { value * 16 + d } else { value * 10 + d })) by (nonlinear_arith)
                    requires
                        base == (if hex { 16u128 } else { 10u128 }),
                        next == value as u128 * base + d as u128,
                ;
                if next > max as u128 {
                    proof {
                        assert(digits_value(prefix, hex) == Some(next as nat));
                        if digits_value(digits, hex) is Some {
                            lemma_digits_prefix(digits, (i + 1 - start) as int, hex);
                            assert(digits.subrange(0, (i + 1 - start) as int) =~= prefix);
                        }
                    }
                    return None;
                }
                value = next as u64;
            },
            None => {
                proof {
                    assert(digits_value(prefix, hex) is None);
                    if digits_value(digits, hex) is Some {
                        lemma_digits_prefix(digits, (i + 1 - start) as int, hex);
                        assert(digits.subrange(0, (i + 1 - start) as int) =~= prefix);
                    }
                }
                return None;
            },
        }
        i = i + 1;
    }
    assert(cs@.subrange(start as int, i as int) =~= digits);
    Some(value)
}

/// The position of the first `c` in `s`, if any.
pub open spec fn first_at(s: Seq<char>, c: char) -> Option<int>
    decreases s.len(),
{
    if s.len() == 0 {
        None
    } else if s[0] == c {
        Some(0)
    } else {
        match first_at(s.drop_first(), c) {
            Some(i) => Some(i + 1),
            None => None,
        }
    }
}

/// The first `c` is at the position `first_at` gives, with none before
/// it; when it gives none, `s` has no `c`.
pub proof fn lemma_first_at_bounds(s: Seq<char>, c: char)
    ensures
        first_at(s, c) matches Some(i) ==> 0 <= i < s.len() && s[i] == c && forall|j: int| 0 <= j < i ==> s[j] != c,
        first_at(s, c) is None ==> forall|j: int| 0 <= j < s.len() ==> s[j] != c,
    decreases s.len(),
{
    if s.len() > 0 {
        lemma_first_at_bounds(s.drop_first(), c);
        if s[0] != c {
            assert forall|j: int| 1 <= j < s.len() implies s[j] == s.drop_first()[j - 1] by {}
        }
    }
}

fn find_char(cs: &Vec<char>, from: usize, to: usize, c: char) -> (r: Option<usize>)
    requires
        from <= to <= cs@.len(),
    ensures
        match first_at(cs@.subrange(from as int, to as int), c) {
            Some(i) => 0 <= i < to - from && r == Some((from + i) as usize),
            None => r is None,
        },
        r matches Some(p) ==> from <= p < to,
{
    let ghost s = cs@.subrange(from as int, to as int);
    proof {
        lemma_first_at_bounds(s, c);
    }
    let mut i = from;
    while i < to
        invariant
            from <= i <= to <= cs@.len(),
            s == cs@.subrange(from as int, to as int),
            forall|j: int| from <= j < i ==> cs@[j] != c,
        decreases to - i,
    {
        if cs[i] == c {
            proof {
                lemma_first_at_bounds(s, c);
                assert(s[i - from] == c);
                assert forall|j: int| 0 <= j < i - from implies s[j] != c by {
                    assert(s[j] == cs@[from + j]);
                }
                match first_at(s, c) {
                    Some(k) => {
                        if k < i - from {
                            assert(s[k] == cs@[from + k]);
                        }
                    },
                    None => {},
                }
            }
            return Some(i);
        }
        i = i + 1;
    }
    proof {
        match first_at(s, c) {
            Some(k) => {
                assert(s[k] == cs@[from + k]);
            },
            None => {},
        }
    }
    None
}

/// `text`, split at its first `sep`: the parts before and after it.
pub open spec fn split_once(text: Seq<char>, sep: char) -> Option<(Seq<char>, Seq<char>)> {
    match first_at(text, sep) {
        Some(i) => Some((text.subrange(0, i), text.subrange(i + 1, text.len() as int))),
        None => None,
    }
}

/// What `--sample-lcd-after=INTERVAL_STEPS:COUNT` means.
pub open spec fn sample_lcd_after_of(value: Seq<char>) -> Option<(usize, usize)> {
    match split_once(value, ':') {
        Some((a, b)) => match (unsigned_value(a, false, usize::MAX as nat), unsigned_value(b, false, usize::MAX as nat)) {
            (Some(x), Some(y)) => Some((x as usize, y as usize)),
            _ => None,
        },
        None => None,
    }
}

fn usage(text: &str) -> (r: ArgError)
    ensures
        r matches ArgError::Usage(m) && m@ == text@,
{
    ArgError::Usage(String::from_str(text))
}

fn number_error(cs: &Vec<char>, from: usize, to: usize) -> (r: ArgError)
    requires
        from <= to <= cs@.len(),
    ensures
        r matches ArgError::Number(m) && m@ == cs@.subrange(from as int, to as int),
{
    let mut part: Vec<char> = Vec::new();
    let mut i = from;
    while i < to
        invariant
            from <= i <= to <= cs@.len(),
            part@ == cs@.subrange(from as int, i as int),
        decreases to - i,
    {
        part.push(cs[i]);
        i = i + 1;
        assert(part@ =~= cs@.subrange(from as int, i as int));
    }
    ArgError::Number(text_from_chars(&part))
}

/// Reads `--sample-lcd-after=INTERVAL_STEPS:COUNT`.
pub fn parse_sample_lcd_after(value: &str) -> (r: Result<(usize, usize), ArgError>)
    ensures
        split_once(value@, ':') is None ==> (r matches Err(ArgError::Usage(m))
            && m@ == "--sample-lcd-after expects INTERVAL_STEPS:COUNT"@),
        split_once(value@, ':') is Some ==> match sample_lcd_after_of(value@) {
            Some(v) => r == Ok::<(usize, usize), ArgError>(v),
            None => r matches Err(ArgError::Number(_)),
        },
{
    let cs = text_chars(value);
    let n = cs.len();
    let colon = match find_char(&cs, 0, n, ':') {
        Some(i) => i,
        None => {
            assert(cs@.subrange(0, n as int) =~= value@);
            return Err(usage("--sample-lcd-after expects INTERVAL_STEPS:COUNT"));
        },
    };
    assert(cs@.subrange(0, n as int) =~= value@);
    let first = parse_unsigned(&cs, 0, colon, false, usize::MAX as u64);
    let second = parse_unsigned(&cs, colon + 1, n, false, usize::MAX as u64);
    proof {
        assert(cs@.subrange(0, colon as int) =~= value@.subrange(0, colon as int));
        assert(cs@.subrange(colon + 1, n as int) =~= value@.subrange(colon + 1, value@.len() as int));
    }
    match (first, second) {
        (Some(a), Some(b)) => Ok((a as usize, b as usize)),
        (None, _) => Err(number_error(&cs, 0, colon)),
        (_, None) => Err(number_error(&cs, colon + 1, n)),
    }
}

/// What `--type-at=STEP:TEXT` means.
pub open spec fn type_event_of(value: Seq<char>) -> Option<(usize, Seq<char>)> {
    match split_once(value, ':') {
        Some((a, b)) => match unsigned_value(a, false, usize::MAX as nat) {
            Some(x) => Some((x as usize, b)),
            None => None,
        },
        None => None,
    }
}

/// Reads `--type-at=STEP:TEXT`: the text after the first colon is typed
/// as it is.
pub fn parse_type_event(value: &str) -> (r: Result<(usize, String), ArgError>)
    ensures
        split_once(value@, ':') is None ==> (r matches Err(ArgError::Usage(m)) && m@ == "--type-at expects STEP:TEXT"@),
        split_once(value@, ':') is Some ==> match type_event_of(value@) {
            Some((step, text)) => r matches Ok((s, t)) && s == step && t@ == text,
            None => r matches Err(ArgError::Number(_)),
        },
{
    let cs = text_chars(value);
    let n = cs.len();
    assert(cs@.subrange(0, n as int) =~= value@);
    let colon = match find_char(&cs, 0, n, ':') {
        Some(i) => i,
        None => {
            return Err(usage("--type-at expects STEP:TEXT"));
        },
    };
    proof {
        assert(cs@.subrange(0, colon as int) =~= value@.subrange(0, colon as int));
    }
    match parse_unsigned(&cs, 0, colon, false, usize::MAX as u64) {
        Some(step) => {
            let mut rest: Vec<char> = Vec::new();
            let mut i = colon + 1;
            while i < n
                invariant
                    colon + 1 <= i <= n,
                    n == cs@.len(),
                    rest@ == cs@.subrange(colon + 1, i as int),
                decreases n - i,
            {
                rest.push(cs[i]);
                i = i + 1;
                assert(rest@ =~= cs@.subrange(colon + 1, i as int));
            }
            assert(rest@ =~= value@.subrange(colon + 1, value@.len() as int));
            Ok((step as usize, text_from_chars(&rest)))
        },
        None => Err(number_error(&cs, 0, colon)),
    }
}

/// What a numeric option value means: `0x` and hexadecimal digits, or
/// decimal digits, fitting 32 bits.
pub open spec fn u32_arg_of(value: Seq<char>) -> Option<u32> {
    let v = if value.len() >= 2 && value[0] == '0' && value[1] == 'x' {
        unsigned_value(value.subrange(2, value.len() as int), true, u32::MAX as nat)
    } else {
        unsigned_value(value, false, u32::MAX as nat)
    };
    match v {
        Some(x) => Some(x as u32),
        None => None,
    }
}

fn parse_u32_chars(cs: &Vec<char>, from: usize, to: usize) -> (r: Option<u32>)
    requires
        from <= to <= cs@.len(),
    ensures
        r == u32_arg_of(cs@.subrange(from as int, to as int)),
{
    let ghost s = cs@.subrange(from as int, to as int);
    if to - from >= 2 && cs[from] == '0' && cs[from + 1] == 'x' {
        assert(s.subrange(2, s.len() as int) =~= cs@.subrange(from + 2, to as int));
        match parse_unsigned(cs, from + 2, to, true, u32::MAX as u64) {
            Some(v) => Some(v as u32),
            None => None,
        }
    } else {
        match parse_unsigned(cs, from, to, false, u32::MAX as u64) {
            Some(v) => Some(v as u32),
            None => None,
        }
    }
}

/// Reads a numeric option value: `0x` and hexadecimal digits, or decimal.
pub fn parse_u32_arg(value: &str) -> (r: Result<u32, ArgError>)
    ensures
        match u32_arg_of(value@) {
            Some(v) => r == Ok::<u32, ArgError>(v),
            None => r matches Err(ArgError::Number(m)) && m@ == value@,
        },
{
    let cs = text_chars(value);
    let n = cs.len();
    assert(cs@.subrange(0, n as int) =~= value@);
    match parse_u32_chars(&cs, 0, n) {
        Some(v) => Ok(v),
        None => Err(number_error(&cs, 0, n)),
    }
}

/// The parts of `s` between the separators `sep`.
pub open spec fn split_all(s: Seq<char>, sep: char) -> Seq<Seq<char>>
    decreases s.len(),
{
    match first_at(s, sep) {
        Some(i) => {
            proof {
                lemma_first_at_bounds(s, sep);
            }
            seq![s.subrange(0, i)] + split_all(s.subrange(i + 1, s.len() as int), sep)
        },
        None => seq![s],
    }
}

/// Whether every part of a comma-separated list is a numeric value.
pub open spec fn key_list_of(parts: Seq<Seq<char>>) -> Option<Seq<u8>>
    decreases parts.len(),
{
    if parts.len() == 0 {
        Some(Seq::empty())
    } else {
        match (u32_arg_of(parts[0]), key_list_of(parts.drop_first())) {
            (Some(v), Some(rest)) => Some(seq![v as u8] + rest),
            _ => None,
        }
    }
}

/// Whether every part of a comma-separated list is a key name.
pub open spec fn key_names_of(parts: Seq<Seq<char>>) -> Option<Seq<u8>>
    decreases parts.len(),
{
    if parts.len() == 0 {
        Some(Seq::empty())
    } else {
        match (key_name_code(parts[0]), key_names_of(parts.drop_first())) {
            (Some(v), Some(rest)) => Some(seq![v] + rest),
            _ => None,
        }
    }
}

/// Reads a comma-separated list of matrix codes (each as a numeric value,
/// kept to its low byte).
pub fn parse_key_list(value: &str) -> (r: Result<Vec<u8>, ArgError>)
    ensures
        match key_list_of(split_all(value@, ',')) {
            Some(codes) => r matches Ok(v) && v@ == codes,
            None => r matches Err(ArgError::Number(_)),
        },
{
    let cs = text_chars(value);
    let n = cs.len();
    assert(cs@.subrange(0, n as int) =~= value@);
    let mut out: Vec<u8> = Vec::new();
    let mut start: usize = 0;
    loop
        invariant
            start <= n,
            n == cs@.len(),
            cs@ == value@,
            key_list_of(split_all(value@, ',')) == match key_list_of(split_all(cs@.subrange(start as int, n as int), ',')) {
                Some(rest) => Some(out@ + rest),
                None => None::<Seq<u8>>,
            },
        decreases n - start,
    {
        let ghost s = cs@.subrange(start as int, n as int);
        proof {
            lemma_first_at_bounds(s, ',');
        }
        match find_char(&cs, start, n, ',') {
            Some(comma) => {
                let code = parse_u32_chars(&cs, start, comma);
                proof {
                    let i = comma - start;
                    assert(s.subrange(0, i) =~= cs@.subrange(start as int, comma as int));
                    assert(s.subrange(i + 1, s.len() as int) =~= cs@.subrange(comma + 1, n as int));
                    let parts = split_all(s, ',');
                    assert(parts[0] == cs@.subrange(start as int, comma as int));
                    assert(parts.drop_first() =~= split_all(cs@.subrange(comma + 1, n as int), ','));
                }
                match code {
                    Some(v) => {
                        let ghost before = out@;
                        out.push(v as u8);
                        proof {
                            match key_list_of(split_all(cs@.subrange(comma + 1, n as int), ',')) {
                                Some(rest) => {
                                    assert(out@ + rest =~= before + (seq![v as u8] + rest));
                                },
                                None => {},
                            }
                        }
                        start = comma + 1;
                    },
                    None => {
                        return Err(number_error(&cs, start, comma));
                    },
                }
            },
            None => {
                let code = parse_u32_chars(&cs, start, n);
                proof {
                    let parts = split_all(s, ',');
                    assert(parts =~= seq![s]);
                    assert(parts.drop_first() =~= Seq::<Seq<char>>::empty());
                }
                match code {
                    Some(v) => {
                        let ghost before = out@;
                        out.push(v as u8);
                        assert(key_list_of(Seq::<Seq<char>>::empty()) == Some(Seq::<u8>::empty()));
                        assert(out@ =~= before + (seq![v as u8] + Seq::<u8>::empty()));
                        return Ok(out);
                    },
                    None => {
                        return Err(number_error(&cs, start, n));
                    },
                }
            },
        }
    }
}

fn key_code_of(cs: &Vec<char>, from: usize, to: usize) -> (r: Result<u8, ArgError>)
    requires
        from <= to <= cs@.len(),
    ensures
        match key_name_code(cs@.subrange(from as int, to as int)) {
            Some(c) => r == Ok::<u8, ArgError>(c),
            None => r matches Err(ArgError::Key(_)),
        },
{
    let mut part: Vec<char> = Vec::new();
    let mut i = from;
    while i < to
        invariant
            from <= i <= to <= cs@.len(),
            part@ == cs@.subrange(from as int, i as int),
        decreases to - i,
    {
        part.push(cs[i]);
        i = i + 1;
        assert(part@ =~= cs@.subrange(from as int, i as int));
    }
    let name = text_from_chars(&part);
    match matrix_code_for_key_name(name.as_str()) {
        Ok(c) => Ok(c),
        Err(e) => Err(ArgError::Key(e)),
    }
}

/// What `--key-at=STEP:KEY` means.
pub open spec fn key_event_of(value: Seq<char>) -> Option<(usize, u8)> {
    match split_once(value, ':') {
        Some((a, b)) => match (unsigned_value(a, false, usize::MAX as nat), key_name_code(b)) {
            (Some(x), Some(k)) => Some((x as usize, k)),
            _ => None,
        },
        None => None,
    }
}

/// Reads `--key-at=STEP:KEY`.
pub fn parse_key_event(value: &str) -> (r: Result<(usize, u8), ArgError>)
    ensures
        split_once(value@, ':') is None ==> (r matches Err(ArgError::Usage(m)) && m@ == "--key-at expects STEP:KEY"@),
        split_once(value@, ':') is Some ==> match key_event_of(value@) {
            Some(v) => r == Ok::<(usize, u8), ArgError>(v),
            None => r is Err,
        },
{
    let cs = text_chars(value);
    let n = cs.len();
    assert(cs@.subrange(0, n as int) =~= value@);
    let colon = match find_char(&cs, 0, n, ':') {
        Some(i) => i,
        None => {
            return Err(usage("--key-at expects STEP:KEY"));
        },
    };
    proof {
        assert(cs@.subrange(0, colon as int) =~= value@.subrange(0, colon as int));
        assert(cs@.subrange(colon + 1, n as int) =~= value@.subrange(colon + 1, value@.len() as int));
        assert(first_at(value@, ':') == Some(colon as int));
        assert(split_once(value@, ':') == Some((value@.subrange(0, colon as int), value@.subrange(colon + 1, value@.len() as int))));
    }
    let step = match parse_unsigned(&cs, 0, colon, false, usize::MAX as u64) {
        Some(s) => s,
        None => {
            return Err(number_error(&cs, 0, colon));
        },
    };
    let key = key_code_of(&cs, colon + 1, n)?;
    Ok((step as usize, key))
}

/// Reads a comma-separated list of key names.
pub fn parse_key_name_list(value: &str) -> (r: Result<Vec<u8>, ArgError>)
    ensures
        match key_names_of(split_all(value@, ',')) {
            Some(codes) => r matches Ok(v) && v@ == codes,
            None => r matches Err(ArgError::Key(_)),
        },
{
    let cs = text_chars(value);
    let n = cs.len();
    assert(cs@.subrange(0, n as int) =~= value@);
    let mut out: Vec<u8> = Vec::new();
    let mut start: usize = 0;
    loop
        invariant
            start <= n,
            n == cs@.len(),
            cs@ == value@,
            key_names_of(split_all(value@, ',')) == match key_names_of(split_all(cs@.subrange(start as int, n as int), ',')) {
                Some(rest) => Some(out@ + rest),
                None => None::<Seq<u8>>,
            },
        decreases n - start,
    {
        let ghost s = cs@.subrange(start as int, n as int);
        proof {
            lemma_first_at_bounds(s, ',');
        }
        match find_char(&cs, start, n, ',') {
            Some(comma) => {
                let code = key_code_of(&cs, start, comma);
                proof {
                    let i = comma - start;
                    assert(s.subrange(0, i) =~= cs@.subrange(start as int, comma as int));
                    assert(s.subrange(i + 1, s.len() as int) =~= cs@.subrange(comma + 1, n as int));
                    let parts = split_all(s, ',');
                    assert(parts[0] == cs@.subrange(start as int, comma as int));
                    assert(parts.drop_first() =~= split_all(cs@.subrange(comma + 1, n as int), ','));
                }
                match code {
                    Ok(v) => {
                        let ghost before = out@;
                        out.push(v);
                        proof {
                            match key_names_of(split_all(cs@.subrange(comma + 1, n as int), ',')) {
                                Some(rest) => {
                                    assert(out@ + rest =~= before + (seq![v] + rest));
                                },
                                None => {},
                            }
                        }
                        start = comma + 1;
                    },
                    Err(e) => {
                        return Err(e);
                    },
                }
            },
            None => {
                let code = key_code_of(&cs, start, n);
                proof {
                    let parts = split_all(s, ',');
                    assert(parts =~= seq![s]);
                    assert(parts.drop_first() =~= Seq::<Seq<char>>::empty());
                }
                match code {
                    Ok(v) => {
                        let ghost before = out@;
                        out.push(v);
                        assert(key_names_of(Seq::<Seq<char>>::empty()) == Some(Seq::<u8>::empty()));
                        assert(out@ =~= before + (seq![v] + Seq::<u8>::empty()));
                        return Ok(out);
                    },
                    Err(e) => {
                        return Err(e);
                    },
                }
            },
        }
    }
}

/// What `--hold-key=START-END:KEY` means.
pub open spec fn hold_event_of(value: Seq<char>) -> Option<(usize, usize, u8)> {
    match split_once(value, ':') {
        Some((range, key)) => match split_once(range, '-') {
            Some((a, b)) => match (
                unsigned_value(a, false, usize::MAX as nat),
                unsigned_value(b, false, usize::MAX as nat),
                key_name_code(key),
            ) {
                (Some(x), Some(y), Some(k)) => Some((x as usize, y as usize, k)),
                _ => None,
            },
            None => None,
        },
        None => None,
    }
}

/// Whether a value has the shape `START-END:KEY`: a colon, and a dash
/// before it.
pub open spec fn hold_shaped(value: Seq<char>) -> bool {
    match split_once(value, ':') {
        Some((range, _)) => split_once(range, '-') is Some,
        None => false,
    }
}

/// Reads `--hold-key=START-END:KEY`.
pub fn parse_hold_event(value: &str) -> (r: Result<(usize, usize, u8), ArgError>)
    ensures
        !hold_shaped(value@) ==> (r matches Err(ArgError::Usage(m)) && m@ == "--hold-key expects START-END:KEY"@),
        match hold_event_of(value@) {
            Some(v) => r == Ok::<(usize, usize, u8), ArgError>(v),
            None => r is Err,
        },
{
    let cs = text_chars(value);
    let n = cs.len();
    assert(cs@.subrange(0, n as int) =~= value@);
    let colon = match find_char(&cs, 0, n, ':') {
        Some(i) => i,
        None => {
            return Err(usage("--hold-key expects START-END:KEY"));
        },
    };
    proof {
        assert(cs@.subrange(0, colon as int) =~= value@.subrange(0, colon as int));
        assert(cs@.subrange(colon + 1, n as int) =~= value@.subrange(colon + 1, value@.len() as int));
    }
    let dash = match find_char(&cs, 0, colon, '-') {
        Some(i) => i,
        None => {
            return Err(usage("--hold-key expects START-END:KEY"));
        },
    };
    proof {
        let range = value@.subrange(0, colon as int);
        assert(cs@.subrange(0, dash as int) =~= range.subrange(0, dash as int));
        assert(cs@.subrange(dash + 1, colon as int) =~= range.subrange(dash + 1, range.len() as int));
    }
    let start = match parse_unsigned(&cs, 0, dash, false, usize::MAX as u64) {
        Some(s) => s,
        None => {
            return Err(number_error(&cs, 0, dash));
        },
    };
    let end = match parse_unsigned(&cs, dash + 1, colon, false, usize::MAX as u64) {
        Some(s) => s,
        None => {
            return Err(number_error(&cs, dash + 1, colon));
        },
    };
    let key = key_code_of(&cs, colon + 1, n)?;
    Ok((start as usize, end as usize, key))
}

/// A step of the headless run.
#[derive(Clone, Debug, PartialEq, Eq)]
pub enum HeadlessAction {
    /// Type `text` once the firmware has run `step` steps.
    TypeText { step: usize, text: String },
    /// Tap the matrix key `code` at `step`.
    TapKey { step: usize, code: u8 },
    /// Tap the matrix key `code`, visible on every row, at `step`.
    TapKeyAllRows { step: usize, code: u8 },
    /// Press (or release) the matrix key `code` at `step`.
    HoldKey { step: usize, pressed: bool, code: u8 },
}

/// How long a held key stays down: until `end`.
#[derive(Clone, Copy, Debug, PartialEq, Eq)]
pub struct HoldSpan {
    pub end: usize,
    pub code: u8,
}

/// A press or a release of a held key.
#[derive(Clone, Copy, Debug, PartialEq, Eq)]
pub struct HoldEdge {
    pub pressed: bool,
    pub code: u8,
}

/// Where an item of step `step` goes in `s`: before the first item with a
/// larger step, so after every item with the same step.
pub open spec fn insert_at<T>(s: Seq<(usize, T)>, step: usize) -> int
    decreases s.len(),
{
    if s.len() == 0 {
        0
    } else if s[0].0 > step {
        0
    } else {
        1 + insert_at(s.drop_first(), step)
    }
}

proof fn lemma_insert_at_bounds<T>(s: Seq<(usize, T)>, step: usize)
    ensures
        0 <= insert_at(s, step) <= s.len(),
    decreases s.len(),
{
    if s.len() > 0 {
        lemma_insert_at_bounds(s.drop_first(), step);
    }
}

/// `s` ordered by step, items with the same step kept in their order (a
/// stable sort, as `sort_by_key` does).
pub open spec fn sorted_by_step<T>(s: Seq<(usize, T)>) -> Seq<(usize, T)>
    decreases s.len(),
{
    if s.len() == 0 {
        s
    } else {
        let r = sorted_by_step(s.drop_last());
        r.insert(insert_at(r, s.last().0), s.last())
    }
}

/// Sorts items by step, keeping items with the same step in their order.
fn sort_by_step<T>(v: Vec<(usize, T)>) -> (r: Vec<(usize, T)>)
    ensures
        r@ == sorted_by_step(v@),
{
    let ghost orig = v@;
    let mut rest = v;
    let mut out: Vec<(usize, T)> = Vec::new();
    let ghost mut k: int = 0;
    assert(orig.subrange(0, 0) =~= Seq::<(usize, T)>::empty());
    assert(orig.subrange(0, orig.len() as int) =~= orig);
    while rest.len() > 0
        invariant
            0 <= k <= orig.len(),
            out@ == sorted_by_step(orig.subrange(0, k)),
            rest@ == orig.subrange(k, orig.len() as int),
        decreases rest@.len(),
    {
        let x = rest.remove(0);
        let mut p: usize = 0;
        assert(out@.subrange(0, out@.len() as int) =~= out@);
        while p < out.len() && out[p].0 <= x.0
            invariant
                p <= out@.len(),
                insert_at(out@, x.0) == p + insert_at(out@.subrange(p as int, out@.len() as int), x.0),
            decreases out@.len() - p,
        {
            let ghost sub = out@.subrange(p as int, out@.len() as int);
            assert(sub.drop_first() =~= out@.subrange(p + 1, out@.len() as int));
            p = p + 1;
        }
        proof {
            let sub = out@.subrange(p as int, out@.len() as int);
            assert(insert_at(sub, x.0) == 0);
            let s1 = orig.subrange(0, k + 1);
            assert(s1.drop_last() =~= orig.subrange(0, k));
            assert(s1.last() == x);
        }
        out.insert(p, x);
        proof {
            k = k + 1;
            assert(rest@ =~= orig.subrange(k, orig.len() as int));
        }
    }
    out
}

/// The step of the first item of `s`, or the largest step when it is
/// empty.
pub open spec fn head_step<T>(s: Seq<(usize, T)>) -> usize {
    if s.len() > 0 {
        s[0].0
    } else {
        usize::MAX
    }
}

/// The events of four step-ordered lists played in order: each time, the
/// list whose next event comes first (text before keys before all-row keys
/// before holds on a tie, an empty list counting as coming last) gives the
/// next action.  `None` when the pick falls on an empty list, which can
/// only happen when an event is due at the largest step.
pub open spec fn merged(
    a: Seq<(usize, String)>,
    b: Seq<(usize, u8)>,
    c: Seq<(usize, u8)>,
    d: Seq<(usize, HoldEdge)>,
) -> Option<Seq<HeadlessAction>>
    decreases a.len() + b.len() + c.len() + d.len(),
{
    if a.len() == 0 && b.len() == 0 && c.len() == 0 && d.len() == 0 {
        Some(Seq::empty())
    } else {
        let sa = head_step(a);
        let sb = head_step(b);
        let sc = head_step(c);
        let sd = head_step(d);
        if sa <= sb && sa <= sc && sa <= sd {
            if a.len() == 0 {
                None
            } else {
                match merged(a.drop_first(), b, c, d) {
                    Some(rest) => Some(seq![HeadlessAction::TypeText { step: a[0].0, text: a[0].1 }] + rest),
                    None => None,
                }
            }
        } else if sb <= sc && sb <= sd {
            if b.len() == 0 {
                None
            } else {
                match merged(a, b.drop_first(), c, d) {
                    Some(rest) => Some(seq![HeadlessAction::TapKey { step: b[0].0, code: b[0].1 }] + rest),
                    None => None,
                }
            }
        } else if sc <= sd {
            if c.len() == 0 {
                None
            } else {
                match merged(a, b, c.drop_first(), d) {
                    Some(rest) => Some(seq![HeadlessAction::TapKeyAllRows { step: c[0].0, code: c[0].1 }] + rest),
                    None => None,
                }
            }
        } else {
            if d.len() == 0 {
                None
            } else {
                match merged(a, b, c, d.drop_first()) {
                    Some(rest) => Some(
                        seq![HeadlessAction::HoldKey { step: d[0].0, pressed: d[0].1.pressed, code: d[0].1.code }]
                            + rest,
                    ),
                    None => None,
                }
            }
        }
    }
}

/// Each held key as a press at its start and a release at its end.
pub open spec fn hold_edges(h: Seq<(usize, HoldSpan)>) -> Seq<(usize, HoldEdge)> {
    Seq::new(
        2 * h.len(),
        |i: int|
            if i % 2 == 0 {
                (h[i / 2].0, HoldEdge { pressed: true, code: h[i / 2].1.code })
            } else {
                (h[i / 2].1.end, HoldEdge { pressed: false, code: h[i / 2].1.code })
            },
    )
}

/// Hold events `(start, end, code)` as spans from their start.
pub open spec fn hold_spans(h: Seq<(usize, usize, u8)>) -> Seq<(usize, HoldSpan)> {
    h.map_values(|e: (usize, usize, u8)| (e.0, HoldSpan { end: e.1, code: e.2 }))
}

/// The actions of a headless run: each list of events ordered by step
/// (holds by their start, then their presses and releases by step), then
/// played in order.
pub open spec fn schedule_of(
    type_events: Seq<(usize, String)>,
    key_events: Seq<(usize, u8)>,
    all_row_key_events: Seq<(usize, u8)>,
    hold_events: Seq<(usize, usize, u8)>,
) -> Option<Seq<HeadlessAction>> {
    merged(
        sorted_by_step(type_events),
        sorted_by_step(key_events),
        sorted_by_step(all_row_key_events),
        sorted_by_step(hold_edges(sorted_by_step(hold_spans(hold_events)))),
    )
}

fn to_spans(h: Vec<(usize, usize, u8)>) -> (r: Vec<(usize, HoldSpan)>)
    ensures
        r@ == hold_spans(h@),
{
    let mut out: Vec<(usize, HoldSpan)> = Vec::new();
    let mut i: usize = 0;
    while i < h.len()
        invariant
            i <= h@.len(),
            out@ == hold_spans(h@.subrange(0, i as int)),
        decreases h@.len() - i,
    {
        let (start, end, code) = h[i];
        out.push((start, HoldSpan { end, code }));
        i = i + 1;
        assert(out@ =~= hold_spans(h@.subrange(0, i as int)));
    }
    assert(h@.subrange(0, h@.len() as int) =~= h@);
    out
}

fn to_edges(h: &Vec<(usize, HoldSpan)>) -> (r: Vec<(usize, HoldEdge)>)
    ensures
        r@ == hold_edges(h@),
{
    let mut out: Vec<(usize, HoldEdge)> = Vec::new();
    let mut i: usize = 0;
    while i < h.len()
        invariant
            i <= h@.len(),
            out@ == hold_edges(h@.subrange(0, i as int)),
        decreases h@.len() - i,
    {
        let (start, span) = h[i];
        let ghost before = out@;
        out.push((start, HoldEdge { pressed: true, code: span.code }));
        out.push((span.end, HoldEdge { pressed: false, code: span.code }));
        i = i + 1;
        assert(out@ =~= hold_edges(h@.subrange(0, i as int))) by {
            let hs = h@.subrange(0, i as int);
            assert forall|j: int| 0 <= j < 2 * i implies #[trigger] out@[j] == hold_edges(hs)[j] by {
                if j < 2 * (i - 1) {
                    assert(hold_edges(h@.subrange(0, i - 1))[j] == before[j]);
                    assert(j / 2 < i - 1);
                }
            }
        }
    }
    assert(h@.subrange(0, h@.len() as int) =~= h@);
    out
}

/// The actions of a headless run, in the order they are played: the caller
/// runs the firmware up to each action's step, performs it, and lets the
/// firmware settle.
pub fn headless_schedule(
    type_events: Vec<(usize, String)>,
    key_events: Vec<(usize, u8)>,
    all_row_key_events: Vec<(usize, u8)>,
    hold_events: Vec<(usize, usize, u8)>,
) -> (r: Vec<HeadlessAction>)
    requires
        schedule_of(type_events@, key_events@, all_row_key_events@, hold_events@) is Some,
    ensures
        Some(r@) == schedule_of(type_events@, key_events@, all_row_key_events@, hold_events@),
{
    let ghost t0 = type_events@;
    let ghost k0 = key_events@;
    let ghost r0 = all_row_key_events@;
    let ghost h0 = hold_events@;
    let mut a = sort_by_step(type_events);
    let mut b = sort_by_step(key_events);
    let mut c = sort_by_step(all_row_key_events);
    let spans = sort_by_step(to_spans(hold_events));
    let edges = to_edges(&spans);
    let mut d = sort_by_step(edges);
    let mut out: Vec<HeadlessAction> = Vec::new();
    while a.len() > 0 || b.len() > 0 || c.len() > 0 || d.len() > 0
        invariant
            schedule_of(t0, k0, r0, h0) == match merged(a@, b@, c@, d@) {
                Some(rest) => Some(out@ + rest),
                None => None::<Seq<HeadlessAction>>,
            },
            merged(a@, b@, c@, d@) is Some,
        decreases a@.len() + b@.len() + c@.len() + d@.len(),
    {
        let sa = if a.len() > 0 { a[0].0 } else { usize::MAX };
        let sb = if b.len() > 0 { b[0].0 } else { usize::MAX };
        let sc = if c.len() > 0 { c[0].0 } else { usize::MAX };
        let sd = if d.len() > 0 { d[0].0 } else { usize::MAX };
        let ghost before = out@;
        if sa <= sb && sa <= sc && sa <= sd {
            let ghost a_old = a@;
            let (step, text) = a.remove(0);
            out.push(HeadlessAction::TypeText { step, text });
            proof {
                assert(a@ =~= a_old.drop_first());
            }
        } else if sb <= sc && sb <= sd {
            let ghost b_old = b@;
            let (step, code) = b.remove(0);
            out.push(HeadlessAction::TapKey { step, code });
            proof {
                assert(b@ =~= b_old.drop_first());
            }
        } else if sc <= sd {
            let ghost c_old = c@;
            let (step, code) = c.remove(0);
            out.push(HeadlessAction::TapKeyAllRows { step, code });
            proof {
                assert(c@ =~= c_old.drop_first());
            }
        } else {
            let ghost d_old = d@;
            let (step, edge) = d.remove(0);
            out.push(HeadlessAction::HoldKey { step, pressed: edge.pressed, code: edge.code });
            proof {
                assert(d@ =~= d_old.drop_first());
            }
        }
        proof {
            match merged(a@, b@, c@, d@) {
                Some(rest) => {
                    assert(out@ + rest =~= before + (seq![out@.last()] + rest));
                },
                None => {},
            }
        }
    }
    proof {
        assert(out@ + Seq::<HeadlessAction>::empty() =~= out@);
    }
    out
}

/// Whether the items of `s` come in order of step.
pub open spec fn steps_sorted<T>(s: Seq<(usize, T)>) -> bool {
    forall|i: int, j: int| 0 <= i <= j < s.len() ==> s[i].0 <= s[j].0
}

/// Whether every item of `s` is due before step `bound`.
pub open spec fn steps_below<T>(s: Seq<(usize, T)>, bound: int) -> bool {
    forall|i: int| 0 <= i < s.len() ==> s[i].0 < bound
}

/// The step at which an action is played.
pub open spec fn action_step(a: HeadlessAction) -> usize {
    match a {
        HeadlessAction::TypeText { step, .. } => step,
        HeadlessAction::TapKey { step, .. } => step,
        HeadlessAction::TapKeyAllRows { step, .. } => step,
        HeadlessAction::HoldKey { step, .. } => step,
    }
}

proof fn lemma_insert_at_split<T>(s: Seq<(usize, T)>, step: usize)
    ensures
        forall|i: int| 0 <= i < insert_at(s, step) ==> s[i].0 <= step,
        insert_at(s, step) < s.len() ==> s[insert_at(s, step)].0 > step,
        0 <= insert_at(s, step) <= s.len(),
    decreases s.len(),
{
    lemma_insert_at_bounds(s, step);
    if s.len() > 0 && s[0].0 <= step {
        let t = s.drop_first();
        lemma_insert_at_split(t, step);
        assert forall|i: int| 0 <= i < insert_at(s, step) implies s[i].0 <= step by {
            if i > 0 {
                assert(s[i] == t[i - 1]);
            }
        }
    }
}

/// Ordering by step leaves the same number of items, each from the input,
/// in order of step.
pub proof fn lemma_sorted_by_step<T>(s: Seq<(usize, T)>)
    ensures
        sorted_by_step(s).len() == s.len(),
        steps_sorted(sorted_by_step(s)),
        forall|i: int| 0 <= i < s.len() ==> exists|j: int| 0 <= j < s.len() && #[trigger] sorted_by_step(s)[i] == s[j],
    decreases s.len(),
{
    if s.len() > 0 {
        let p = s.drop_last();
        lemma_sorted_by_step(p);
        let r = sorted_by_step(p);
        let x = s.last();
        lemma_insert_at_split(r, x.0);
        let k = insert_at(r, x.0);
        let q = r.insert(k, x);
        assert forall|i: int, j: int| 0 <= i <= j < q.len() implies q[i].0 <= q[j].0 by {
            if i < k && j >= k {
                if j == k {
                } else {
                    assert(r[k].0 > x.0);
                    assert(r[j - 1].0 >= r[k].0);
                }
            } else if i == k && j > k {
                assert(r[k].0 > x.0);
                assert(r[j - 1].0 >= r[k].0);
            }
        }
        assert forall|i: int| 0 <= i < s.len() implies exists|j: int| 0 <= j < s.len() && #[trigger] q[i] == s[j] by {
            if i == k {
                assert(q[i] == s[s.len() - 1]);
            } else {
                let i2 = if i < k { i } else { i - 1 };
                assert(q[i] == r[i2]);
                let j = choose|j: int| 0 <= j < p.len() && #[trigger] r[i2] == p[j];
                assert(p[j] == s[j]);
            }
        }
    }
}

proof fn lemma_sorted_below<T>(s: Seq<(usize, T)>, bound: int)
    requires
        steps_below(s, bound),
    ensures
        steps_below(sorted_by_step(s), bound),
{
    lemma_sorted_by_step(s);
    assert forall|i: int| 0 <= i < sorted_by_step(s).len() implies sorted_by_step(s)[i].0 < bound by {
        let j = choose|j: int| 0 <= j < s.len() && #[trigger] sorted_by_step(s)[i] == s[j];
    }
}

proof fn lemma_merged_defined(a: Seq<(usize, String)>, b: Seq<(usize, u8)>, c: Seq<(usize, u8)>, d: Seq<(usize, HoldEdge)>)
    requires
        steps_below(a, usize::MAX as int),
        steps_below(b, usize::MAX as int),
        steps_below(c, usize::MAX as int),
        steps_below(d, usize::MAX as int),
    ensures
        merged(a, b, c, d) is Some,
    decreases a.len() + b.len() + c.len() + d.len(),
{
    if !(a.len() == 0 && b.len() == 0 && c.len() == 0 && d.len() == 0) {
        if a.len() > 0 {
            assert(a[0].0 < usize::MAX);
        }
        if b.len() > 0 {
            assert(b[0].0 < usize::MAX);
        }
        if c.len() > 0 {
            assert(c[0].0 < usize::MAX);
        }
        if d.len() > 0 {
            assert(d[0].0 < usize::MAX);
        }
        if a.len() > 0 {
            assert forall|i: int| 0 <= i < a.drop_first().len() implies a.drop_first()[i].0 < usize::MAX by {
                assert(a.drop_first()[i] == a[i + 1]);
            }
            lemma_merged_defined(a.drop_first(), b, c, d);
        }
        if b.len() > 0 {
            assert forall|i: int| 0 <= i < b.drop_first().len() implies b.drop_first()[i].0 < usize::MAX by {
                assert(b.drop_first()[i] == b[i + 1]);
            }
            lemma_merged_defined(a, b.drop_first(), c, d);
        }
        if c.len() > 0 {
            assert forall|i: int| 0 <= i < c.drop_first().len() implies c.drop_first()[i].0 < usize::MAX by {
                assert(c.drop_first()[i] == c[i + 1]);
            }
            lemma_merged_defined(a, b, c.drop_first(), d);
        }
        if d.len() > 0 {
            assert forall|i: int| 0 <= i < d.drop_first().len() implies d.drop_first()[i].0 < usize::MAX by {
                assert(d.drop_first()[i] == d[i + 1]);
            }
            lemma_merged_defined(a, b, c, d.drop_first());
        }
    }
}

/// A headless run is well defined whenever no event is due at the largest
/// step: the next event is then always on a list that has one.
pub proof fn lemma_schedule_defined(
    type_events: Seq<(usize, String)>,
    key_events: Seq<(usize, u8)>,
    all_row_key_events: Seq<(usize, u8)>,
    hold_events: Seq<(usize, usize, u8)>,
)
    requires
        steps_below(type_events, usize::MAX as int),
        steps_below(key_events, usize::MAX as int),
        steps_below(all_row_key_events, usize::MAX as int),
        forall|i: int| 0 <= i < hold_events.len() ==> hold_events[i].0 < usize::MAX && hold_events[i].1 < usize::MAX,
    ensures
        schedule_of(type_events, key_events, all_row_key_events, hold_events) is Some,
{
    lemma_sorted_below(type_events, usize::MAX as int);
    lemma_sorted_below(key_events, usize::MAX as int);
    lemma_sorted_below(all_row_key_events, usize::MAX as int);
    let spans = hold_spans(hold_events);
    let sorted = sorted_by_step(spans);
    lemma_sorted_by_step(spans);
    assert forall|i: int| 0 <= i < sorted.len() implies sorted[i].0 < usize::MAX && sorted[i].1.end < usize::MAX by {
        let j = choose|j: int| 0 <= j < spans.len() && #[trigger] sorted[i] == spans[j];
    }
    let edges = hold_edges(sorted);
    assert forall|i: int| 0 <= i < edges.len() implies edges[i].0 < usize::MAX by {
        assert(0 <= i / 2 < sorted.len());
    }
    lemma_sorted_below(edges, usize::MAX as int);
    lemma_merged_defined(
        sorted_by_step(type_events),
        sorted_by_step(key_events),
        sorted_by_step(all_row_key_events),
        sorted_by_step(edges),
    );
}

proof fn lemma_merged_in_order(
    a: Seq<(usize, String)>,
    b: Seq<(usize, u8)>,
    c: Seq<(usize, u8)>,
    d: Seq<(usize, HoldEdge)>,
    low: int,
)
    requires
        steps_sorted(a),
        steps_sorted(b),
        steps_sorted(c),
        steps_sorted(d),
        forall|i: int| 0 <= i < a.len() ==> low <= a[i].0,
        forall|i: int| 0 <= i < b.len() ==> low <= b[i].0,
        forall|i: int| 0 <= i < c.len() ==> low <= c[i].0,
        forall|i: int| 0 <= i < d.len() ==> low <= d[i].0,
        merged(a, b, c, d) is Some,
    ensures
        ({
            let m = merged(a, b, c, d)->0;
            &&& forall|i: int| 0 <= i < m.len() ==> low <= action_step(#[trigger] m[i])
            &&& forall|i: int, j: int| 0 <= i <= j < m.len() ==> action_step(m[i]) <= action_step(m[j])
        }),
    decreases a.len() + b.len() + c.len() + d.len(),
{
    if !(a.len() == 0 && b.len() == 0 && c.len() == 0 && d.len() == 0) {
        let sa = head_step(a);
        let sb = head_step(b);
        let sc = head_step(c);
        let sd = head_step(d);
        let m = merged(a, b, c, d)->0;
        if sa <= sb && sa <= sc && sa <= sd {
            let a2 = a.drop_first();
            assert forall|i: int| 0 <= i < a2.len() implies sa <= a2[i].0 by { assert(a2[i] == a[i + 1]); }
            assert forall|i: int, j: int| 0 <= i <= j < a2.len() implies a2[i].0 <= a2[j].0 by {
                assert(a2[i] == a[i + 1] && a2[j] == a[j + 1]);
            }
            assert forall|i: int| 0 <= i < b.len() implies sa <= b[i].0 by { assert(b[0].0 <= b[i].0); }
            assert forall|i: int| 0 <= i < c.len() implies sa <= c[i].0 by { assert(c[0].0 <= c[i].0); }
            assert forall|i: int| 0 <= i < d.len() implies sa <= d[i].0 by { assert(d[0].0 <= d[i].0); }
            lemma_merged_in_order(a2, b, c, d, sa as int);
            let rest = merged(a2, b, c, d)->0;
            assert(m == seq![HeadlessAction::TypeText { step: a[0].0, text: a[0].1 }] + rest);
            assert forall|i: int| 0 <= i < m.len() implies low <= action_step(#[trigger] m[i]) by {
                if i > 0 { assert(m[i] == rest[i - 1]); }
            }
            assert forall|i: int, j: int| 0 <= i <= j < m.len() implies action_step(m[i]) <= action_step(m[j]) by {
                if i > 0 { assert(m[i] == rest[i - 1]); }
                if j > 0 { assert(m[j] == rest[j - 1]); }
            }
        } else if sb <= sc && sb <= sd {
            let b2 = b.drop_first();
            assert forall|i: int| 0 <= i < b2.len() implies sb <= b2[i].0 by { assert(b2[i] == b[i + 1]); }
            assert forall|i: int, j: int| 0 <= i <= j < b2.len() implies b2[i].0 <= b2[j].0 by {
                assert(b2[i] == b[i + 1] && b2[j] == b[j + 1]);
            }
            assert forall|i: int| 0 <= i < a.len() implies sb <= a[i].0 by { assert(a[0].0 <= a[i].0); }
            assert forall|i: int| 0 <= i < c.len() implies sb <= c[i].0 by { assert(c[0].0 <= c[i].0); }
            assert forall|i: int| 0 <= i < d.len() implies sb <= d[i].0 by { assert(d[0].0 <= d[i].0); }
            lemma_merged_in_order(a, b2, c, d, sb as int);
            let rest = merged(a, b2, c, d)->0;
            assert(m == seq![HeadlessAction::TapKey { step: b[0].0, code: b[0].1 }] + rest);
            assert forall|i: int| 0 <= i < m.len() implies low <= action_step(#[trigger] m[i]) by {
                if i > 0 { assert(m[i] == rest[i - 1]); }
            }
            assert forall|i: int, j: int| 0 <= i <= j < m.len() implies action_step(m[i]) <= action_step(m[j]) by {
                if i > 0 { assert(m[i] == rest[i - 1]); }
                if j > 0 { assert(m[j] == rest[j - 1]); }
            }
        } else if sc <= sd {
            let c2 = c.drop_first();
            assert forall|i: int| 0 <= i < c2.len() implies sc <= c2[i].0 by { assert(c2[i] == c[i + 1]); }
            assert forall|i: int, j: int| 0 <= i <= j < c2.len() implies c2[i].0 <= c2[j].0 by {
                assert(c2[i] == c[i + 1] && c2[j] == c[j + 1]);
            }
            assert forall|i: int| 0 <= i < a.len() implies sc <= a[i].0 by { assert(a[0].0 <= a[i].0); }
            assert forall|i: int| 0 <= i < b.len() implies sc <= b[i].0 by { assert(b[0].0 <= b[i].0); }
            assert forall|i: int| 0 <= i < d.len() implies sc <= d[i].0 by { assert(d[0].0 <= d[i].0); }
            lemma_merged_in_order(a, b, c2, d, sc as int);
            let rest = merged(a, b, c2, d)->0;
            assert(m == seq![HeadlessAction::TapKeyAllRows { step: c[0].0, code: c[0].1 }] + rest);
            assert forall|i: int| 0 <= i < m.len() implies low <= action_step(#[trigger] m[i]) by {
                if i > 0 { assert(m[i] == rest[i - 1]); }
            }
            assert forall|i: int, j: int| 0 <= i <= j < m.len() implies action_step(m[i]) <= action_step(m[j]) by {
                if i > 0 { assert(m[i] == rest[i - 1]); }
                if j > 0 { assert(m[j] == rest[j - 1]); }
            }
        } else {
            let d2 = d.drop_first();
            assert forall|i: int| 0 <= i < d2.len() implies sd <= d2[i].0 by { assert(d2[i] == d[i + 1]); }
            assert forall|i: int, j: int| 0 <= i <= j < d2.len() implies d2[i].0 <= d2[j].0 by {
                assert(d2[i] == d[i + 1] && d2[j] == d[j + 1]);
            }
            assert forall|i: int| 0 <= i < a.len() implies sd <= a[i].0 by { assert(a[0].0 <= a[i].0); }
            assert forall|i: int| 0 <= i < b.len() implies sd <= b[i].0 by { assert(b[0].0 <= b[i].0); }
            assert forall|i: int| 0 <= i < c.len() implies sd <= c[i].0 by { assert(c[0].0 <= c[i].0); }
            lemma_merged_in_order(a, b, c, d2, sd as int);
            let rest = merged(a, b, c, d2)->0;
            assert(m == seq![HeadlessAction::HoldKey { step: d[0].0, pressed: d[0].1.pressed, code: d[0].1.code }] + rest);
            assert forall|i: int| 0 <= i < m.len() implies low <= action_step(#[trigger] m[i]) by {
                if i > 0 { assert(m[i] == rest[i - 1]); }
            }
            assert forall|i: int, j: int| 0 <= i <= j < m.len() implies action_step(m[i]) <= action_step(m[j]) by {
                if i > 0 { assert(m[i] == rest[i - 1]); }
                if j > 0 { assert(m[j] == rest[j - 1]); }
            }
        }
    }
}

/// A headless run plays its events in order of step: whatever lists it is
/// given, the actions come with steps that never go down.
pub proof fn lemma_schedule_in_step_order(
    type_events: Seq<(usize, String)>,
    key_events: Seq<(usize, u8)>,
    all_row_key_events: Seq<(usize, u8)>,
    hold_events: Seq<(usize, usize, u8)>,
)
    requires
        schedule_of(type_events, key_events, all_row_key_events, hold_events) is Some,
    ensures
        ({
            let m = schedule_of(type_events, key_events, all_row_key_events, hold_events)->0;
            forall|i: int, j: int| 0 <= i <= j < m.len() ==> action_step(m[i]) <= action_step(m[j])
        }),
{
    let edges = hold_edges(sorted_by_step(hold_spans(hold_events)));
    lemma_sorted_by_step(type_events);
    lemma_sorted_by_step(key_events);
    lemma_sorted_by_step(all_row_key_events);
    lemma_sorted_by_step(edges);
    lemma_merged_in_order(
        sorted_by_step(type_events),
        sorted_by_step(key_events),
        sorted_by_step(all_row_key_events),
        sorted_by_step(edges),
        0,
    );
}

} // verus!
