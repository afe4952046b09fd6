//! What the emulator shows: the text LCD of the firmware's own screens, the
//! USB mode, and the snapshot a front end draws from.

use vstd::prelude::*;
use crate::text::{push_char, text_chars, text_from_chars};

verus! {

broadcast use vstd::string::group_string_axioms;

/// Rows of the text LCD.
pub const LCD_ROWS: usize = 6;
/// Columns of the text LCD, in UTF-8 bytes.
pub const LCD_COLS: usize = 40;

/// The number of bytes UTF-8 uses for a character.
pub open spec fn char_width(c: char) -> nat {
    let v = c as u32;
    if v < 0x80 {
        1
    } else if v < 0x800 {
        2
    } else if v < 0x10000 {
        3
    } else {
        4
    }
}

/// The number of leading characters of `s` that fit in `limit` bytes.
pub open spec fn fit_count(s: Seq<char>, limit: nat) -> nat
    decreases s.len(),
{
    if s.len() == 0 || char_width(s[0]) > limit {
        0
    } else {
        1 + fit_count(s.drop_first(), (limit - char_width(s[0])) as nat)
    }
}

/// The bytes those characters take.
pub open spec fn fit_width(s: Seq<char>, limit: nat) -> nat
    decreases s.len(),
{
    if s.len() == 0 || char_width(s[0]) > limit {
        0
    } else {
        char_width(s[0]) + fit_width(s.drop_first(), (limit - char_width(s[0])) as nat)
    }
}

/// Whether `String::truncate(limit)` accepts `s`: either all of it fits, or
/// byte `limit` falls between two characters.
pub open spec fn truncatable(s: Seq<char>, limit: nat) -> bool {
    fit_count(s, limit) == s.len() || fit_width(s, limit) == limit
}

/// `s` cut to its first `limit` bytes.
pub open spec fn truncated(s: Seq<char>, limit: nat) -> Seq<char> {
    s.subrange(0, fit_count(s, limit) as int)
}

fn char_width_exec(c: char) -> (r: u32)
    ensures
        r == char_width(c),
{
    let v = c as u32;
    if v < 0x80 {
        1
    } else if v < 0x800 {
        2
    } else if v < 0x10000 {
        3
    } else {
        4
    }
}

/// Cuts `text` to its first `limit` bytes, as `String::truncate` does.
pub fn truncate_text(text: &str, limit: usize) -> (r: String)
    requires
        truncatable(text@, limit as nat),
    ensures
        r@ == truncated(text@, limit as nat),
{
    let cs = text_chars(text);
    let mut kept: Vec<char> = Vec::new();
    let mut left: usize = limit;
    let mut i: usize = 0;
    assert(cs@.subrange(0, cs@.len() as int) =~= text@);
    while i < cs.len() && char_width_exec(cs[i]) as usize <= left
        invariant
            cs@ == text@,
            i <= cs@.len(),
            left <= limit,
            kept@ == cs@.subrange(0, i as int),
            fit_count(text@, limit as nat) == i + fit_count(cs@.subrange(i as int, cs@.len() as int), left as nat),
        decreases cs@.len() - i,
    {
        let ghost rest = cs@.subrange(i as int, cs@.len() as int);
        assert(rest.drop_first() =~= cs@.subrange(i + 1, cs@.len() as int));
        kept.push(cs[i]);
        left = left - char_width_exec(cs[i]) as usize;
        i = i + 1;
        assert(kept@ =~= cs@.subrange(0, i as int));
    }
    proof {
        let rest = cs@.subrange(i as int, cs@.len() as int);
        if i < cs@.len() {
            assert(rest[0] == cs@[i as int]);
        }
        assert(fit_count(rest, left as nat) == 0);
    }
    text_from_chars(&kept)
}

proof fn lemma_fit_count_bound(s: Seq<char>, limit: nat)
    ensures
        fit_count(s, limit) <= s.len(),
        fit_count(s, limit) <= limit,
    decreases s.len(),
{
    if s.len() > 0 && char_width(s[0]) <= limit {
        lemma_fit_count_bound(s.drop_first(), (limit - char_width(s[0])) as nat);
    }
}

/// Text that fits in `limit` bytes is kept whole.
proof fn lemma_ascii_fits(s: Seq<char>, limit: nat)
    requires
        s.len() <= limit,
        forall|i: int| 0 <= i < s.len() ==> (#[trigger] s[i] as u32) < 0x80,
    ensures
        fit_count(s, limit) == s.len(),
    decreases s.len(),
{
    if s.len() > 0 {
        let t = s.drop_first();
        assert forall|i: int| 0 <= i < t.len() implies (#[trigger] t[i] as u32) < 0x80 by {
            assert(t[i] == s[i + 1]);
        }
        lemma_ascii_fits(t, (limit - 1) as nat);
    }
}

/// The firmware's text screen: six rows of text.
#[derive(Clone, Debug, PartialEq, Eq)]
pub struct Lcd {
    rows: Vec<String>,
}

/// `n` spaces.
pub open spec fn spaces(n: nat) -> Seq<char> {
    Seq::new(n, |i: int| ' ')
}

/// Row text with `ch` written at character column `col` (padding with
/// spaces), on the visible columns only.
pub open spec fn put_at(s: Seq<char>, col: int, ch: char) -> Seq<char> {
    if col >= 40 {
        s
    } else if col < s.len() {
        s.update(col, ch)
    } else {
        s + spaces((col - s.len()) as nat) + seq![ch]
    }
}

/// Row text with `width` character columns from `col` blanked, on the
/// visible columns only.
pub open spec fn blank_span(s: Seq<char>, col: int, width: int) -> Seq<char> {
    Seq::new(s.len(), |k: int| if col <= k < col + width && k < 40 { ' ' } else { s[k] })
}

impl Lcd {
    /// The text of each row.
    pub closed spec fn texts(&self) -> Seq<Seq<char>> {
        Seq::new(self.rows@.len(), |i: int| self.rows@[i]@)
    }

    /// The screen has its six rows.
    pub open spec fn wf(&self) -> bool {
        self.texts().len() == 6
    }

    /// A blank screen.
    pub fn new() -> (r: Self)
        ensures
            r.wf(),
            r.texts() == Seq::new(6, |i: int| Seq::<char>::empty()),
    {
        let mut rows: Vec<String> = Vec::new();
        let mut i: usize = 0;
        while i < 6
            invariant
                i <= 6,
                rows@.len() == i,
                forall|k: int| 0 <= k < i ==> (#[trigger] rows@[k])@ == Seq::<char>::empty(),
            decreases 6 - i,
        {
            rows.push(String::new());
            i = i + 1;
        }
        let r = Lcd { rows };
        assert(r.texts() =~= Seq::new(6, |i: int| Seq::<char>::empty()));
        r
    }

    /// A copy of the screen.
    pub fn duplicate(&self) -> (r: Self)
        ensures
            r.texts() == self.texts(),
    {
        let mut rows: Vec<String> = Vec::new();
        let mut i: usize = 0;
        while i < self.rows.len()
            invariant
                i <= self.rows@.len(),
                rows@.len() == i,
                forall|k: int| 0 <= k < i ==> (#[trigger] rows@[k])@ == self.rows@[k]@,
            decreases self.rows@.len() - i,
        {
            rows.push(self.rows[i].clone());
            i = i + 1;
        }
        let r = Lcd { rows };
        assert(r.texts() =~= self.texts());
        r
    }

    /// The rows.
    pub fn rows(&self) -> (r: &Vec<String>)
        ensures
            r@.len() == self.texts().len(),
            forall|i: int| 0 <= i < r@.len() ==> (#[trigger] r@[i])@ == self.texts()[i],
    {
        &self.rows
    }

    /// Blanks every row.
    pub fn clear(&mut self)
        ensures
            final(self).wf(),
            final(self).texts() == Seq::new(6, |i: int| Seq::<char>::empty()),
    {
        *self = Lcd::new();
    }

    /// Sets row `index` to `text` cut to forty bytes; rows past the last are
    /// ignored.
    pub fn set_row(&mut self, index: usize, text: &str)
        requires
            old(self).wf(),
            truncatable(text@, 40),
        ensures
            final(self).wf(),
            index < 6 ==> final(self).texts() == old(self).texts().update(index as int, truncated(text@, 40)),
            index >= 6 ==> final(self).texts() == old(self).texts(),
    {
        if index < 6 {
            let t = truncate_text(text, 40);
            self.rows.set(index, t);
            assert(self.texts() =~= old(self).texts().update(index as int, truncated(text@, 40)));
        }
    }

    /// Writes `ch` at column `col` of row `row`, padding the row with spaces.
    pub fn put_char(&mut self, row: usize, col: usize, ch: char)
        requires
            old(self).wf(),
        ensures
            final(self).wf(),
            row < 6 ==> final(self).texts() == old(self).texts().update(row as int, put_at(old(self).texts()[row as int], col as int, ch)),
            row >= 6 ==> final(self).texts() == old(self).texts(),
    {
        if row >= 6 || col >= 40 {
            return;
        }
        let cs = text_chars(self.rows[row].as_str());
        let mut out: Vec<char> = Vec::new();
        let mut k: usize = 0;
        let n = if cs.len() > col + 1 { cs.len() } else { col + 1 };
        let ghost target = put_at(cs@, col as int, ch);
        while k < n
            invariant
                k <= n,
                n == (if cs@.len() > col + 1 { cs@.len() as int } else { col + 1 }),
                col < 40,
                target == put_at(cs@, col as int, ch),
                target.len() == n,
                out@ == target.subrange(0, k as int),
            decreases n - k,
        {
            let c = if k == col { ch } else if k < cs.len() { cs[k] } else { ' ' };
            out.push(c);
            k = k + 1;
            assert(out@ =~= target.subrange(0, k as int));
        }
        assert(target.subrange(0, n as int) =~= target);
        let t = text_from_chars(&out);
        self.rows.set(row, t);
        assert(self.texts() =~= old(self).texts().update(row as int, put_at(old(self).texts()[row as int], col as int, ch)));
    }

    /// Blanks `width` columns of row `row` from column `col`.
    pub fn clear_span(&mut self, row: usize, col: usize, width: usize)
        requires
            old(self).wf(),
        ensures
            final(self).wf(),
            row < 6 ==> final(self).texts() == old(self).texts().update(row as int, blank_span(old(self).texts()[row as int], col as int, width as int)),
            row >= 6 ==> final(self).texts() == old(self).texts(),
    {
        if row >= 6 {
            return;
        }
        let cs = text_chars(self.rows[row].as_str());
        let ghost target = blank_span(cs@, col as int, width as int);
        let mut out: Vec<char> = Vec::new();
        let mut k: usize = 0;
        while k < cs.len()
            invariant
                k <= cs@.len(),
                target == blank_span(cs@, col as int, width as int),
                out@ == target.subrange(0, k as int),
            decreases cs@.len() - k,
        {
            let blank = col <= k && (k - col) < width && k < 40;
            out.push(if blank { ' ' } else { cs[k] });
            k = k + 1;
            assert(out@ =~= target.subrange(0, k as int));
        }
        assert(target.subrange(0, cs@.len() as int) =~= target);
        let t = text_from_chars(&out);
        self.rows.set(row, t);
        assert(self.texts() =~= old(self).texts().update(row as int, blank_span(old(self).texts()[row as int], col as int, width as int)));
    }
}

impl Default for Lcd {
    fn default() -> (r: Self)
        ensures
            r.wf(),
            r.texts() == Seq::new(6, |i: int| Seq::<char>::empty()),
    {
        Lcd::new()
    }
}

/// How the emulated NEO presents itself on USB.
#[derive(Clone, Copy, Debug, PartialEq, Eq, Structural)]
pub enum UsbMode {
    HidKeyboard,
    Direct,
}

/// The name of a USB mode.
pub open spec fn usb_mode_label(m: UsbMode) -> Seq<char> {
    match m {
        UsbMode::HidKeyboard => "HID keyboard"@,
        UsbMode::Direct => "Direct USB"@,
    }
}

impl UsbMode {
    /// The name of the mode.
    pub fn label(self) -> (r: &'static str)
        ensures
            r@ == usb_mode_label(self),
    {
        match self {
            UsbMode::HidKeyboard => "HID keyboard",
            UsbMode::Direct => "Direct USB",
        }
    }
}

/// The identity of a loaded applet.
#[derive(Clone, Debug, PartialEq, Eq)]
pub struct AppletMetadata {
    pub applet_id: u16,
    pub name: String,
    pub version_major: u8,
    pub version_minor_bcd: u8,
}

/// What the emulator is showing.
#[derive(Clone, Copy, Debug, PartialEq, Eq, Structural)]
pub enum Screen {
    AppletsMenu,
    AppletRunning,
    UsbAttach,
}

/// Everything a front end needs to draw the emulator.
#[derive(Clone, Debug, PartialEq, Eq)]
pub struct EmulatorSnapshot {
    pub metadata: Option<AppletMetadata>,
    pub screen: Screen,
    pub lcd: Lcd,
    pub usb_mode: UsbMode,
    pub last_status: Option<u32>,
    pub last_trace: Vec<String>,
    pub error: Option<String>,
}

/// ASCII text of at most forty characters fits a row whole.
pub proof fn lemma_short_ascii_row_fits(s: Seq<char>)
    requires
        s.len() <= 40,
        forall|i: int| 0 <= i < s.len() ==> (#[trigger] s[i] as u32) < 0x80,
    ensures
        truncatable(s, 40),
        truncated(s, 40) == s,
{
    lemma_ascii_fits(s, 40);
    assert(s.subrange(0, s.len() as int) =~= s);
}

} // verus!
