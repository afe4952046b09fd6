//! Text helpers: NUL-terminated fields, lossy UTF-8 decoding, Unicode
//! whitespace trimming, and building strings one character at a time.

use vstd::prelude::*;
use vstd::utf8::valid_utf8;
use vstd::utf8::decode_utf8;

verus! {

broadcast use vstd::string::group_string_axioms;

/// The characters of a string, in order.
pub fn text_chars(s: &str) -> (r: Vec<char>)
    ensures
        r@ == s@,
{
    let mut it = s.chars();
    let mut out: Vec<char> = Vec::new();
    loop
        invariant
            out@ + vstd::std_specs::iter::IteratorSpec::remaining(&it) == s@,
            vstd::std_specs::iter::IteratorSpec::decrease(&it) is Some,
        decreases vstd::std_specs::iter::IteratorSpec::decrease(&it)->0,
    {
        let ghost before = vstd::std_specs::iter::IteratorSpec::remaining(&it);
        match it.next() {
            Some(c) => {
                out.push(c);
                assert(out@ + vstd::std_specs::iter::IteratorSpec::remaining(&it) =~= s@) by {
                    assert(before =~= seq![c] + before.drop_first());
                }
            },
            None => {
                assert(out@ =~= s@);
                return out;
            },
        }
    }
}

/// Builds a string from characters.
pub fn text_from_chars(cs: &Vec<char>) -> (r: String)
    ensures
        r@ == cs@,
{
    let mut s = String::new();
    let mut i: usize = 0;
    while i < cs.len()
        invariant
            i <= cs@.len(),
            s@ == cs@.subrange(0, i as int),
        decreases cs@.len() - i,
    {
        push_char(&mut s, cs[i]);
        i = i + 1;
        assert(s@ =~= cs@.subrange(0, i as int));
    }
    assert(cs@.subrange(0, cs@.len() as int) =~= cs@);
    s
}

/// Lexicographic order on texts by Unicode scalar value, the order in which
/// Rust compares `String`s (UTF-8 byte order agrees with it).
pub open spec fn text_le(a: Seq<char>, b: Seq<char>) -> bool
    decreases a.len(),
{
    if a.len() == 0 {
        true
    } else if b.len() == 0 {
        false
    } else if (a[0] as u32) != (b[0] as u32) {
        (a[0] as u32) < (b[0] as u32)
    } else {
        text_le(a.drop_first(), b.drop_first())
    }
}

/// Any two texts are ordered one way or the other.
pub proof fn lemma_text_le_total(a: Seq<char>, b: Seq<char>)
    ensures
        text_le(a, b) || text_le(b, a),
    decreases a.len(),
{
    if a.len() > 0 && b.len() > 0 && (a[0] as u32) == (b[0] as u32) {
        lemma_text_le_total(a.drop_first(), b.drop_first());
    }
}

/// The order is transitive.
pub proof fn lemma_text_le_transitive(a: Seq<char>, b: Seq<char>, c: Seq<char>)
    requires
        text_le(a, b),
        text_le(b, c),
    ensures
        text_le(a, c),
    decreases a.len(),
{
    if a.len() > 0 && b.len() > 0 && c.len() > 0 && (a[0] as u32) == (b[0] as u32) && (b[0] as u32) == (c[0] as u32) {
        lemma_text_le_transitive(a.drop_first(), b.drop_first(), c.drop_first());
    }
}

/// Compares two texts in `text_le` order.
pub fn text_le_exec(a: &str, b: &str) -> (r: bool)
    ensures
        r == text_le(a@, b@),
{
    let ac = text_chars(a);
    let bc = text_chars(b);
    let mut i: usize = 0;
    assert(a@.subrange(0, a@.len() as int) =~= a@);
    assert(b@.subrange(0, b@.len() as int) =~= b@);
    while i < ac.len()
        invariant
            ac@ == a@,
            bc@ == b@,
            i <= ac@.len(),
            i <= bc@.len(),
            text_le(a@, b@) == text_le(a@.subrange(i as int, a@.len() as int), b@.subrange(i as int, b@.len() as int)),
        decreases ac@.len() - i,
    {
        let ghost sa = a@.subrange(i as int, a@.len() as int);
        let ghost sb = b@.subrange(i as int, b@.len() as int);
        if i >= bc.len() {
            return false;
        }
        if (ac[i] as u32) != (bc[i] as u32) {
            return (ac[i] as u32) < (bc[i] as u32);
        }
        assert(sa.drop_first() =~= a@.subrange(i + 1, a@.len() as int));
        assert(sb.drop_first() =~= b@.subrange(i + 1, b@.len() as int));
        i = i + 1;
    }
    true
}

/// The bytes of `s` before its first NUL byte (all of `s` if it has none).
pub open spec fn until_nul(s: Seq<u8>) -> Seq<u8>
    decreases s.len(),
{
    if s.len() == 0 {
        s
    } else if s[0] == 0 {
        Seq::empty()
    } else {
        seq![s[0]] + until_nul(s.drop_first())
    }
}

/// What `String::from_utf8_lossy` makes of a byte sequence.
pub uninterp spec fn lossy_text(bytes: Seq<u8>) -> Seq<char>;

/// Decodes bytes as UTF-8, replacing each invalid sequence by U+FFFD
/// (`String::from_utf8_lossy`). Its documentation promises that valid UTF-8
/// comes out as the characters it encodes; nothing is stated here about how
/// invalid sequences are replaced beyond the name `lossy_text`.
#[verifier::external_body]
pub fn bytes_to_text(bytes: &[u8]) -> (r: String)
    ensures
        r@ == lossy_text(bytes@),
        valid_utf8(bytes@) ==> r@ == decode_utf8(bytes@),
{
    String::from_utf8_lossy(bytes).into_owned()
}

/// Appends one character to a string (`String::push`).
#[verifier::external_body]
pub fn push_char(s: &mut String, c: char)
    ensures
        final(s)@ == old(s)@.push(c),
{
    s.push(c)
}

/// The characters Unicode marks `White_Space`, which `char::is_whitespace`
/// and `str::trim` use.
pub open spec fn white_space(c: char) -> bool {
    let v = c as u32;
    (0x09 <= v <= 0x0d) || v == 0x20 || v == 0x85 || v == 0xa0 || v == 0x1680
        || (0x2000 <= v <= 0x200a) || v == 0x2028 || v == 0x2029 || v == 0x202f || v == 0x205f
        || v == 0x3000
}

/// Whether a character is Unicode whitespace.
pub fn is_white_space(c: char) -> (r: bool)
    ensures
        r == white_space(c),
{
    let v = c as u32;
    (0x09 <= v && v <= 0x0d) || v == 0x20 || v == 0x85 || v == 0xa0 || v == 0x1680 || (0x2000
        <= v && v <= 0x200a) || v == 0x2028 || v == 0x2029 || v == 0x202f || v == 0x205f || v
        == 0x3000
}

/// Number of whitespace characters at the start of `s`.
pub open spec fn lead_ws(s: Seq<char>) -> nat
    decreases s.len(),
{
    if s.len() > 0 && white_space(s[0]) {
        1 + lead_ws(s.drop_first())
    } else {
        0
    }
}

/// Number of whitespace characters at the end of `s`.
pub open spec fn trail_ws(s: Seq<char>) -> nat
    decreases s.len(),
{
    if s.len() > 0 && white_space(s.last()) {
        1 + trail_ws(s.drop_last())
    } else {
        0
    }
}

/// `s` with leading and trailing whitespace removed (`str::trim`).
pub open spec fn trimmed(s: Seq<char>) -> Seq<char> {
    if lead_ws(s) == s.len() {
        Seq::empty()
    } else {
        s.subrange(lead_ws(s) as int, s.len() - trail_ws(s))
    }
}

proof fn lemma_lead_ws(s: Seq<char>, i: int)
    requires
        0 <= i <= s.len(),
        forall|k: int| 0 <= k < i ==> white_space(#[trigger] s[k]),
        i == s.len() || !white_space(s[i]),
    ensures
        lead_ws(s) == i,
    decreases i,
{
    if i > 0 {
        let t = s.drop_first();
        assert forall|k: int| 0 <= k < i - 1 implies white_space(#[trigger] t[k]) by {
            assert(t[k] == s[k + 1]);
        }
        lemma_lead_ws(t, i - 1);
    }
}

proof fn lemma_trail_ws(s: Seq<char>, j: int)
    requires
        0 <= j <= s.len(),
        forall|k: int| j <= k < s.len() ==> white_space(#[trigger] s[k]),
        j == 0 || !white_space(s[j - 1]),
    ensures
        trail_ws(s) == s.len() - j,
    decreases s.len() - j,
{
    if j < s.len() {
        let t = s.drop_last();
        assert forall|k: int| j <= k < t.len() implies white_space(#[trigger] t[k]) by {
            assert(t[k] == s[k]);
        }
        lemma_trail_ws(t, j);
    }
}

/// `str::trim`: removes leading and trailing Unicode whitespace.
pub fn trim_text(s: &str) -> (r: String)
    ensures
        r@ == trimmed(s@),
{
    let n = s.unicode_len();
    let mut i: usize = 0;
    while i < n && is_white_space(s.get_char(i))
        invariant
            n == s@.len(),
            i <= n,
            forall|k: int| 0 <= k < i ==> white_space(#[trigger] s@[k]),
        decreases n - i,
    {
        i = i + 1;
    }
    proof {
        lemma_lead_ws(s@, i as int);
    }
    if i == n {
        return String::new();
    }
    let mut j: usize = n;
    while j > i && is_white_space(s.get_char(j - 1))
        invariant
            n == s@.len(),
            i < n,
            !white_space(s@[i as int]),
            i <= j <= n,
            forall|k: int| j <= k < n ==> white_space(#[trigger] s@[k]),
        decreases j,
    {
        j = j - 1;
    }
    proof {
        lemma_trail_ws(s@, j as int);
    }
    let sub = s.substring_char(i, j);
    String::from_str(sub)
}

/// Decodes a fixed-size text field: the bytes before the first NUL, decoded
/// lossily as UTF-8 and trimmed.
pub open spec fn field_text(raw: Seq<u8>) -> Seq<char> {
    trimmed(lossy_text(until_nul(raw)))
}

/// Length of the NUL-free prefix of `s`.
pub fn nul_position(s: &[u8]) -> (r: usize)
    ensures
        r <= s@.len(),
        s@.subrange(0, r as int) == until_nul(s@),
{
    let mut i: usize = 0;
    while i < s.len() && s[i] != 0
        invariant
            i <= s@.len(),
            forall|k: int| 0 <= k < i ==> s@[k] != 0,
        decreases s@.len() - i,
    {
        i = i + 1;
    }
    proof {
        lemma_until_nul(s@, i as int);
    }
    i
}

pub proof fn lemma_until_nul(s: Seq<u8>, i: int)
    requires
        0 <= i <= s.len(),
        forall|k: int| 0 <= k < i ==> s[k] != 0,
        i == s.len() || s[i] == 0,
    ensures
        s.subrange(0, i) == until_nul(s),
    decreases i,
{
    if i == 0 {
        assert(s.subrange(0, 0) =~= until_nul(s));
    } else {
        let t = s.drop_first();
        assert forall|k: int| 0 <= k < i - 1 implies t[k] != 0 by {
            assert(t[k] == s[k + 1]);
        }
        lemma_until_nul(t, i - 1);
        assert(s.subrange(0, i) =~= seq![s[0]] + t.subrange(0, i - 1));
    }
}

/// Copies `len` bytes of `raw` starting at `offset`.
pub fn copy_range(raw: &[u8], offset: usize, len: usize) -> (r: Vec<u8>)
    requires
        offset + len <= raw@.len(),
    ensures
        r@ == raw@.subrange(offset as int, offset + len),
{
    let mut out: Vec<u8> = Vec::new();
    let mut i: usize = 0;
    while i < len
        invariant
            offset + len <= raw@.len(),
            i <= len,
            out@ == raw@.subrange(offset as int, offset + i),
        decreases len - i,
    {
        assert(raw@.len() == raw.len());
        out.push(raw[offset + i]);
        i = i + 1;
        assert(out@ =~= raw@.subrange(offset as int, offset + i));
    }
    out
}

/// Reads a NUL-terminated text field of `size` bytes at `offset`.
pub fn read_c_string(raw: &[u8], offset: usize, size: usize) -> (r: String)
    requires
        offset + size <= raw@.len(),
    ensures
        r@ == field_text(raw@.subrange(offset as int, offset + size)),
{
    let field = copy_range(raw, offset, size);
    let end = nul_position(field.as_slice());
    let prefix = copy_range(field.as_slice(), 0, end);
    let decoded = bytes_to_text(prefix.as_slice());
    trim_text(decoded.as_str())
}

/// The ASCII digit for a value below ten.
pub open spec fn digit_char(d: nat) -> char {
    ((d + 0x30) as u8) as char
}

/// Decimal representation of a natural number, without leading zeros.
pub open spec fn decimal(n: nat) -> Seq<char>
    decreases n,
{
    if n < 10 {
        seq![digit_char(n)]
    } else {
        decimal(n / 10).push(digit_char(n % 10))
    }
}

/// Appends the decimal representation of `n`.
pub fn push_decimal(s: &mut String, n: u64)
    ensures
        final(s)@ == old(s)@ + decimal(n as nat),
    decreases n,
{
    if n >= 10 {
        push_decimal(s, n / 10);
    }
    let d = (n % 10) as u8;
    push_char(s, (d + 0x30) as char);
    assert(final(s)@ =~= old(s)@ + decimal(n as nat));
}

/// The lower-case hexadecimal digit for a value below sixteen.
pub open spec fn hex_char(d: nat) -> char {
    if d < 10 {
        ((d + 0x30) as u8) as char
    } else {
        ((d - 10 + 0x61) as u8) as char
    }
}

/// The `width` lowest hexadecimal digits of `n`, most significant first.
pub open spec fn hex_digits(n: nat, width: nat) -> Seq<char>
    decreases width,
{
    if width == 0 {
        Seq::empty()
    } else {
        hex_digits(n / 16, (width - 1) as nat).push(hex_char(n % 16))
    }
}

/// Lower-case hexadecimal representation of `n`, without leading zeros.
pub open spec fn hex_min(n: nat) -> Seq<char>
    decreases n,
{
    if n < 16 {
        seq![hex_char(n)]
    } else {
        hex_min(n / 16).push(hex_char(n % 16))
    }
}

/// Appends the hexadecimal representation of `n` without leading zeros.
pub fn push_hex_min(s: &mut String, n: u64)
    ensures
        final(s)@ == old(s)@ + hex_min(n as nat),
    decreases n,
{
    if n >= 16 {
        push_hex_min(s, n / 16);
    }
    let d = (n % 16) as u8;
    let c = if d < 10 { (d + 0x30) as char } else { (d - 10 + 0x61) as char };
    push_char(s, c);
    assert(final(s)@ =~= old(s)@ + hex_min(n as nat));
}

/// Appends exactly `width` lower-case hexadecimal digits of `n`.
pub fn push_hex(s: &mut String, n: u64, width: u32)
    ensures
        final(s)@ == old(s)@ + hex_digits(n as nat, width as nat),
    decreases width,
{
    if width == 0 {
        assert(final(s)@ =~= old(s)@ + hex_digits(n as nat, width as nat));
        return;
    }
    push_hex(s, n / 16, width - 1);
    let d = (n % 16) as u8;
    let c = if d < 10 { (d + 0x30) as char } else { (d - 10 + 0x61) as char };
    push_char(s, c);
    assert(final(s)@ =~= old(s)@ + hex_digits(n as nat, width as nat));
}

/// The upper-case hexadecimal digit for a value below sixteen.
pub open spec fn hex_char_upper(d: nat) -> char {
    if d < 10 {
        ((d + 0x30) as u8) as char
    } else {
        ((d - 10 + 0x41) as u8) as char
    }
}

/// The `width` lowest upper-case hexadecimal digits of `n`.
pub open spec fn hex_digits_upper(n: nat, width: nat) -> Seq<char>
    decreases width,
{
    if width == 0 {
        Seq::empty()
    } else {
        hex_digits_upper(n / 16, (width - 1) as nat).push(hex_char_upper(n % 16))
    }
}

/// Appends exactly `width` upper-case hexadecimal digits of `n`.
pub fn push_hex_upper(s: &mut String, n: u64, width: u32)
    ensures
        final(s)@ == old(s)@ + hex_digits_upper(n as nat, width as nat),
    decreases width,
{
    if width == 0 {
        assert(final(s)@ =~= old(s)@ + hex_digits_upper(n as nat, width as nat));
        return;
    }
    push_hex_upper(s, n / 16, width - 1);
    let d = (n % 16) as u8;
    let c = if d < 10 { (d + 0x30) as char } else { (d - 10 + 0x41) as char };
    push_char(s, c);
    assert(final(s)@ =~= old(s)@ + hex_digits_upper(n as nat, width as nat));
}

/// Whether two texts are equal.
pub fn text_eq(a: &str, b: &str) -> (r: bool)
    ensures
        r == (a@ == b@),
{
    let ac = text_chars(a);
    let bc = text_chars(b);
    if ac.len() != bc.len() {
        return false;
    }
    let mut i: usize = 0;
    while i < ac.len()
        invariant
            ac@ == a@,
            bc@ == b@,
            ac@.len() == bc@.len(),
            i <= ac@.len(),
            forall|k: int| 0 <= k < i ==> ac@[k] == bc@[k],
        decreases ac@.len() - i,
    {
        if ac[i] != bc[i] {
            return false;
        }
        i = i + 1;
    }
    assert(a@ =~= b@);
    true
}

/// Whether `s` begins with `p`.
pub open spec fn has_prefix(s: Seq<char>, p: Seq<char>) -> bool {
    p.len() <= s.len() && s.subrange(0, p.len() as int) == p
}

/// Whether `p` occurs in `s`.
pub open spec fn has_infix(s: Seq<char>, p: Seq<char>) -> bool {
    exists|i: int| 0 <= i && i + p.len() <= s.len() && #[trigger] s.subrange(i, i + p.len()) == p
}

/// Whether `p` occurs in `s` at `at`.
fn occurs_at(s: &Vec<char>, p: &Vec<char>, at: usize) -> (r: bool)
    requires
        at + p@.len() <= s@.len(),
    ensures
        r == (s@.subrange(at as int, at + p@.len()) == p@),
{
    let sl = s.len();
    let mut k: usize = 0;
    while k < p.len()
        invariant
            k <= p@.len(),
            sl == s@.len(),
            at + p@.len() <= s@.len(),
            forall|m: int| 0 <= m < k ==> s@[at + m] == p@[m],
        decreases p@.len() - k,
    {
        if s[at + k] != p[k] {
            assert(s@.subrange(at as int, at + p@.len())[k as int] != p@[k as int]);
            return false;
        }
        k = k + 1;
    }
    assert(s@.subrange(at as int, at + p@.len()) =~= p@);
    true
}

/// `str::starts_with`.
pub fn starts_with_text(s: &str, p: &str) -> (r: bool)
    ensures
        r == has_prefix(s@, p@),
{
    let sc = text_chars(s);
    let pc = text_chars(p);
    if pc.len() > sc.len() {
        return false;
    }
    occurs_at(&sc, &pc, 0)
}

/// Whether `s` ends with `p`.
pub open spec fn has_suffix(s: Seq<char>, p: Seq<char>) -> bool {
    p.len() <= s.len() && s.subrange(s.len() - p.len(), s.len() as int) == p
}

/// `str::ends_with`.
pub fn ends_with_text(s: &str, p: &str) -> (r: bool)
    ensures
        r == has_suffix(s@, p@),
{
    let sc = text_chars(s);
    let pc = text_chars(p);
    if pc.len() > sc.len() {
        return false;
    }
    occurs_at(&sc, &pc, sc.len() - pc.len())
}

/// `str::contains` for a text needle.
pub fn contains_text(s: &str, p: &str) -> (r: bool)
    ensures
        r == has_infix(s@, p@),
{
    let sc = text_chars(s);
    let pc = text_chars(p);
    if pc.len() > sc.len() {
        assert(!has_infix(s@, p@));
        return false;
    }
    let count = sc.len() - pc.len();
    let mut i: usize = 0;
    loop
        invariant
            sc@ == s@,
            pc@ == p@,
            count == sc@.len() - pc@.len(),
            i <= count,
            forall|j: int| 0 <= j < i ==> #[trigger] s@.subrange(j, j + p@.len()) != p@,
        decreases count - i,
    {
        if occurs_at(&sc, &pc, i) {
            return true;
        }
        if i == count {
            assert forall|j: int| 0 <= j && j + p@.len() <= s@.len() implies #[trigger] s@.subrange(j, j + p@.len()) != p@ by {
                assert(j <= i);
            }
            return false;
        }
        i = i + 1;
    }
}

/// Number of copies of `c` at the start of `s`.
pub open spec fn lead_count(s: Seq<char>, c: char) -> nat
    decreases s.len(),
{
    if s.len() > 0 && s[0] == c {
        1 + lead_count(s.drop_first(), c)
    } else {
        0
    }
}

/// Number of copies of `c` at the end of `s`.
pub open spec fn trail_count(s: Seq<char>, c: char) -> nat
    decreases s.len(),
{
    if s.len() > 0 && s.last() == c {
        1 + trail_count(s.drop_last(), c)
    } else {
        0
    }
}

/// `s` without leading and trailing copies of `c` (`str::trim_matches`).
pub open spec fn trim_char(s: Seq<char>, c: char) -> Seq<char> {
    if lead_count(s, c) == s.len() {
        Seq::empty()
    } else {
        s.subrange(lead_count(s, c) as int, s.len() - trail_count(s, c))
    }
}

proof fn lemma_lead_count(s: Seq<char>, c: char, i: int)
    requires
        0 <= i <= s.len(),
        forall|k: int| 0 <= k < i ==> #[trigger] s[k] == c,
        i == s.len() || s[i] != c,
    ensures
        lead_count(s, c) == i,
    decreases i,
{
    if i > 0 {
        let t = s.drop_first();
        assert forall|k: int| 0 <= k < i - 1 implies #[trigger] t[k] == c by {
            assert(t[k] == s[k + 1]);
        }
        lemma_lead_count(t, c, i - 1);
    }
}

proof fn lemma_trail_count(s: Seq<char>, c: char, j: int)
    requires
        0 <= j <= s.len(),
        forall|k: int| j <= k < s.len() ==> #[trigger] s[k] == c,
        j == 0 || s[j - 1] != c,
    ensures
        trail_count(s, c) == s.len() - j,
    decreases s.len() - j,
{
    if j < s.len() {
        let t = s.drop_last();
        assert forall|k: int| j <= k < t.len() implies #[trigger] t[k] == c by {
            assert(t[k] == s[k]);
        }
        lemma_trail_count(t, c, j);
    }
}

/// `str::trim_matches` for one character.
pub fn trim_char_text(s: &str, c: char) -> (r: String)
    ensures
        r@ == trim_char(s@, c),
{
    let n = s.unicode_len();
    let mut i: usize = 0;
    while i < n && s.get_char(i) == c
        invariant
            n == s@.len(),
            i <= n,
            forall|k: int| 0 <= k < i ==> #[trigger] s@[k] == c,
        decreases n - i,
    {
        i = i + 1;
    }
    proof {
        lemma_lead_count(s@, c, i as int);
    }
    if i == n {
        return String::new();
    }
    let mut j: usize = n;
    while j > i && s.get_char(j - 1) == c
        invariant
            n == s@.len(),
            i < n,
            s@[i as int] != c,
            i <= j <= n,
            forall|k: int| j <= k < n ==> #[trigger] s@[k] == c,
        decreases j,
    {
        j = j - 1;
    }
    proof {
        lemma_trail_count(s@, c, j as int);
    }
    let sub = s.substring_char(i, j);
    String::from_str(sub)
}

} // verus!
