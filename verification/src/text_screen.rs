//! The NEO's text screen as applets draw on it: eight rows of sixty-four
//! character cells, a cursor, and a rendering of what is on it.

use vstd::prelude::*;
use crate::text::{push_char, until_nul};

verus! {

/// Rows of the text screen.
pub const TEXT_ROWS: usize = 8;
/// Columns of the text screen.
pub const TEXT_COLS: usize = 64;

/// The text screen.
#[derive(Clone, Debug, PartialEq, Eq)]
pub struct TextScreen {
    rows: Vec<u8>,
    row: usize,
    col: usize,
    active: bool,
    cursor_visible: bool,
}

/// The character a cell shows: printable ASCII as itself, anything else as
/// a space.
pub open spec fn shown(b: u8) -> char {
    if 0x20 <= b <= 0x7e {
        b as char
    } else {
        ' '
    }
}

/// `s` without its trailing spaces.
pub open spec fn trim_end_spaces(s: Seq<char>) -> Seq<char>
    decreases s.len(),
{
    if s.len() > 0 && s.last() == ' ' {
        trim_end_spaces(s.drop_last())
    } else {
        s
    }
}

/// The text of row `r` of `cells`, without trailing spaces.
pub open spec fn row_text(cells: Seq<u8>, r: int) -> Seq<char> {
    trim_end_spaces(Seq::new(64, |c: int| shown(cells[r * 64 + c])))
}

/// The index of the last of the first `n` rows that has text, or 0.
pub open spec fn last_text_row(cells: Seq<u8>, n: int) -> int
    decreases n,
{
    if n <= 0 {
        0
    } else if row_text(cells, n - 1).len() > 0 {
        n - 1
    } else {
        last_text_row(cells, n - 1)
    }
}

/// Rows `0..n` joined by line feeds.
pub open spec fn joined_rows(cells: Seq<u8>, n: int) -> Seq<char>
    decreases n,
{
    if n <= 1 {
        row_text(cells, 0)
    } else {
        joined_rows(cells, n - 1).push('\n') + row_text(cells, n - 1)
    }
}

/// What the screen shows: its rows up to the last one with text.
pub open spec fn screen_text(cells: Seq<u8>) -> Seq<char> {
    joined_rows(cells, last_text_row(cells, 8) + 1)
}

impl TextScreen {
    /// The screen has all its cells.
    pub closed spec fn wf(&self) -> bool {
        self.rows@.len() == 512
    }

    /// The cells, row by row.
    pub closed spec fn cells(&self) -> Seq<u8> {
        self.rows@
    }

    /// The cursor row.
    pub closed spec fn row_spec(&self) -> usize {
        self.row
    }

    /// The cursor column.
    pub closed spec fn col_spec(&self) -> usize {
        self.col
    }

    /// Whether an applet has used the screen.
    pub closed spec fn active_spec(&self) -> bool {
        self.active
    }

    /// Whether the cursor is shown.
    pub closed spec fn cursor_visible_spec(&self) -> bool {
        self.cursor_visible
    }

    /// A blank, unused screen.
    pub fn new() -> (r: Self)
        ensures
            r.wf(),
            r.cells() == Seq::new(512, |i: int| 0x20u8),
            r.row_spec() == 0,
            r.col_spec() == 0,
            !r.active_spec(),
            !r.cursor_visible_spec(),
    {
        let rows = blank_rows();
        TextScreen { rows, row: 0, col: 0, active: false, cursor_visible: false }
    }

    /// Blanks the screen and homes the cursor; the screen is then in use and
    /// the cursor hidden.
    pub fn clear(&mut self)
        requires
            old(self).wf(),
        ensures
            final(self).wf(),
            final(self).cells() == Seq::new(512, |i: int| 0x20u8),
            final(self).row_spec() == 0,
            final(self).col_spec() == 0,
            final(self).active_spec(),
            !final(self).cursor_visible_spec(),
    {
        *self = TextScreen { rows: blank_rows(), row: 0, col: 0, active: true, cursor_visible: false };
    }

    /// Moves the cursor to the one-based `row` and `col`.
    pub fn set_cursor(&mut self, row: u32, col: u32, width: u32)
        requires
            old(self).wf(),
        ensures
            final(self).wf(),
            final(self).cells() == old(self).cells(),
            final(self).row_spec() == (if row >= 1 { row - 1 } else { 0 }),
            final(self).col_spec() == (if col >= 1 { col - 1 } else { 0 }),
            final(self).active_spec(),
            final(self).cursor_visible_spec() == old(self).cursor_visible_spec(),
    {
        let r = if row >= 1 { row - 1 } else { 0 };
        let c = if col >= 1 { col - 1 } else { 0 };
        self.row = r as usize;
        self.col = c as usize;
        self.active = true;
    }

    /// Sets the cursor mode; mode 0x0F shows the cursor.
    pub fn set_cursor_mode(&mut self, mode: u32)
        requires
            old(self).wf(),
        ensures
            final(self).wf(),
            final(self).cells() == old(self).cells(),
            final(self).row_spec() == old(self).row_spec(),
            final(self).col_spec() == old(self).col_spec(),
            final(self).active_spec(),
            final(self).cursor_visible_spec() == (mode == 0x0f),
    {
        self.active = true;
        self.cursor_visible = mode == 0x0f;
    }

    /// Draws a character at the cursor, if the cursor is on the screen, and
    /// moves the cursor right.
    pub fn draw_char(&mut self, byte: u8)
        requires
            old(self).wf(),
        ensures
            final(self).wf(),
            final(self).row_spec() == old(self).row_spec(),
            final(self).col_spec() == (if old(self).col_spec() < usize::MAX { old(self).col_spec() + 1 } else { usize::MAX as int }),
            final(self).cursor_visible_spec() == old(self).cursor_visible_spec(),
            old(self).row_spec() < 8 && old(self).col_spec() < 64 ==> final(self).cells() == old(self).cells().update(
                old(self).row_spec() * 64 + old(self).col_spec(),
                byte,
            ) && final(self).active_spec(),
            !(old(self).row_spec() < 8 && old(self).col_spec() < 64) ==> final(self).cells() == old(self).cells()
                && final(self).active_spec() == old(self).active_spec(),
    {
        if self.row < 8 && self.col < 64 {
            let at = self.row * 64 + self.col;
            self.rows.set(at, byte);
            self.active = true;
        }
        if self.col < usize::MAX {
            self.col = self.col + 1;
        }
    }

    /// Draws the characters of `bytes` before its first NUL.
    pub fn draw_c_string(&mut self, bytes: &[u8])
        requires
            old(self).wf(),
        ensures
            final(self).wf(),
            final(self).row_spec() == old(self).row_spec(),
            final(self).cursor_visible_spec() == old(self).cursor_visible_spec(),
            final(self).active_spec() == (old(self).active_spec() || (old(self).row_spec() < 8 && old(self).col_spec() < 64
                && until_nul(bytes@).len() > 0)),
            final(self).col_spec() == (if old(self).col_spec() + until_nul(bytes@).len() <= usize::MAX {
                old(self).col_spec() + until_nul(bytes@).len()
            } else {
                usize::MAX as int
            }),
            forall|i: int| 0 <= i < 512 ==> #[trigger] final(self).cells()[i] == (if old(self).row_spec() < 8
                && old(self).row_spec() * 64 + old(self).col_spec() <= i < old(self).row_spec() * 64 + 64
                && i < old(self).row_spec() * 64 + old(self).col_spec() + until_nul(bytes@).len() {
                bytes@[i - old(self).row_spec() * 64 - old(self).col_spec()]
            } else {
                old(self).cells()[i]
            }),
    {
        let ghost r0 = self.row as int;
        let ghost c0 = self.col as int;
        let ghost cells0 = self.rows@;
        let mut i: usize = 0;
        while i < bytes.len() && bytes[i] != 0
            invariant
                i <= bytes@.len(),
                forall|k: int| 0 <= k < i ==> bytes@[k] != 0,
                self.row == r0,
                self.rows@.len() == 512,
                self.cursor_visible == old(self).cursor_visible,
                self.active == (old(self).active || (r0 < 8 && c0 < 64 && i > 0)),
                r0 == old(self).row,
                c0 == old(self).col,
                cells0 == old(self).rows@,
                self.col == (if c0 + i <= usize::MAX { c0 + i } else { usize::MAX as int }),
                forall|j: int| 0 <= j < 512 ==> #[trigger] self.rows@[j] == (if r0 < 8 && r0 * 64 + c0 <= j < r0 * 64 + 64
                    && j < r0 * 64 + c0 + i {
                    bytes@[j - r0 * 64 - c0]
                } else {
                    cells0[j]
                }),
            decreases bytes@.len() - i,
        {
            self.draw_char(bytes[i]);
            i = i + 1;
        }
        proof {
            crate::text::lemma_until_nul(bytes@, i as int);
        }
    }

    /// What the screen shows, or nothing while no applet has used it.
    pub fn render(&self) -> (r: Option<String>)
        requires
            self.wf(),
        ensures
            !self.active_spec() ==> r is None,
            self.active_spec() ==> (r matches Some(s) && s@ == screen_text(self.cells())),
    {
        if !self.active {
            return None;
        }
        let mut lines: Vec<Vec<char>> = Vec::new();
        let mut r: usize = 0;
        while r < 8
            invariant
                r <= 8,
                self.rows@.len() == 512,
                lines@.len() == r,
                forall|k: int| 0 <= k < r ==> (#[trigger] lines@[k])@ == row_text(self.rows@, k),
            decreases 8 - r,
        {
            let line = self.row_line(r);
            lines.push(line);
            r = r + 1;
        }
        let mut last: usize = 0;
        let mut k: usize = 0;
        while k < 8
            invariant
                k <= 8,
                lines@.len() == 8,
                forall|m: int| 0 <= m < 8 ==> (#[trigger] lines@[m])@ == row_text(self.rows@, m),
                last == last_text_row(self.rows@, k as int),
                last == 0 || last < k,
            decreases 8 - k,
        {
            if lines[k].len() > 0 {
                last = k;
            }
            k = k + 1;
        }
        let mut out = String::new();
        let mut m: usize = 0;
        while m <= last
            invariant
                m <= last + 1,
                last < 8,
                lines@.len() == 8,
                forall|q: int| 0 <= q < 8 ==> (#[trigger] lines@[q])@ == row_text(self.rows@, q),
                m == 0 ==> out@.len() == 0,
                m > 0 ==> out@ == joined_rows(self.rows@, m as int),
            decreases last + 1 - m,
        {
            let ghost before = out@;
            if m > 0 {
                push_char(&mut out, '\n');
            }
            let ghost mid = out@;
            let mut c: usize = 0;
            while c < lines[m].len()
                invariant
                    m < 8,
                    lines@.len() == 8,
                    c <= lines@[m as int]@.len(),
                    out@ == mid + lines@[m as int]@.subrange(0, c as int),
                decreases lines@[m as int]@.len() - c,
            {
                push_char(&mut out, lines[m][c]);
                c = c + 1;
                assert(out@ =~= mid + lines@[m as int]@.subrange(0, c as int));
            }
            assert(lines@[m as int]@.subrange(0, lines@[m as int]@.len() as int) =~= lines@[m as int]@);
            if m == 0 {
                assert(out@ =~= joined_rows(self.rows@, 1));
            } else {
                assert(out@ =~= joined_rows(self.rows@, m + 1));
            }
            m = m + 1;
        }
        Some(out)
    }

    fn row_line(&self, r: usize) -> (line: Vec<char>)
        requires
            r < 8,
            self.wf(),
        ensures
            line@ == row_text(self.cells(), r as int),
    {
        let ghost full = Seq::new(64, |c: int| shown(self.rows@[r * 64 + c]));
        let mut line: Vec<char> = Vec::new();
        let mut c: usize = 0;
        while c < 64
            invariant
                r < 8,
                self.rows@.len() == 512,
                c <= 64,
                full == Seq::new(64, |c: int| shown(self.rows@[r * 64 + c])),
                line@ == full.subrange(0, c as int),
            decreases 64 - c,
        {
            let b = self.rows[r * 64 + c];
            let ch = if 0x20 <= b && b <= 0x7e { b as char } else { ' ' };
            line.push(ch);
            c = c + 1;
            assert(line@ =~= full.subrange(0, c as int));
        }
        assert(full.subrange(0, 64) =~= full);
        while line.len() > 0 && line[line.len() - 1] == ' '
            invariant
                trim_end_spaces(line@) == trim_end_spaces(full),
            decreases line@.len(),
        {
            let ghost before = line@;
            line.pop();
            assert(line@ =~= before.drop_last());
        }
        line
    }

    /// Whether the cursor is shown.
    pub fn cursor_visible(&self) -> (r: bool)
        ensures
            r == self.cursor_visible_spec(),
    {
        self.cursor_visible
    }

    /// The cursor row, counted from zero.
    pub fn cursor_row(&self) -> (r: usize)
        ensures
            r == self.row_spec(),
    {
        self.row
    }

    /// The cursor column, counted from zero.
    pub fn cursor_col(&self) -> (r: usize)
        ensures
            r == self.col_spec(),
    {
        self.col
    }
}

impl Default for TextScreen {
    fn default() -> (r: Self)
        ensures
            r.wf(),
            r.cells() == Seq::new(512, |i: int| 0x20u8),
            r.row_spec() == 0,
            r.col_spec() == 0,
            !r.active_spec(),
            !r.cursor_visible_spec(),
    {
        TextScreen::new()
    }
}

/// Eight blank rows.
fn blank_rows() -> (r: Vec<u8>)
    ensures
        r@ == Seq::new(512, |i: int| 0x20u8),
{
    let mut v: Vec<u8> = Vec::new();
    let mut i: usize = 0;
    while i < 512
        invariant
            i <= 512,
            v@ == Seq::new(i as nat, |k: int| 0x20u8),
        decreases 512 - i,
    {
        v.push(0x20);
        i = i + 1;
        assert(v@ =~= Seq::new(i as nat, |k: int| 0x20u8));
    }
    v
}

} // verus!
