//! The firmware services the emulator provides to an applet: the system's
//! own screens, the display traps applets call, the USB mode switch, and a
//! key queue.

use vstd::prelude::*;
use vstd::string::StringSliceAdditionalSpecFns;
use std::collections::VecDeque;
use crate::domain::{Lcd, UsbMode, truncatable, truncated, put_at, blank_span, lemma_short_ascii_row_fits};

verus! {

broadcast use vstd::string::group_string_axioms;

/// ASCII text of at most forty characters.
pub open spec fn short_ascii(s: Seq<char>) -> bool {
    s.len() <= 40 && forall|i: int| 0 <= i < s.len() ==> (#[trigger] s[i] as u32) < 0x80
}

/// Six empty rows with some rows set.
pub open spec fn rows_with(r0: Seq<char>, r1: Seq<char>, r2: Seq<char>, r4: Seq<char>, r5: Seq<char>) -> Seq<Seq<char>> {
    seq![r0, r1, r2, Seq::<char>::empty(), r4, r5]
}

/// The menu shown when no applet is loaded.
pub open spec fn empty_menu_rows() -> Seq<Seq<char>> {
    rows_with("SmartApplets"@, Seq::empty(), "No applet loaded."@, "Use Open applet."@, Seq::empty())
}

/// The applet menu with one applet, selected or not.
pub open spec fn applets_menu_rows(name: Seq<char>, selected: bool) -> Seq<Seq<char>> {
    rows_with(
        "SmartApplets"@,
        Seq::empty(),
        truncated((if selected { "> "@ } else { "  "@ }) + name, 40),
        "Up/Down select"@,
        "Enter opens"@,
    )
}

/// The screen while the USB connection is being made.
pub open spec fn usb_attach_start_rows() -> Seq<Seq<char>> {
    rows_with(Seq::empty(), "Making USB"@, "connection..."@, Seq::empty(), Seq::empty())
}

/// The screen while attached as a USB keyboard.
pub open spec fn usb_keyboard_rows() -> Seq<Seq<char>> {
    rows_with(Seq::empty(), "Connected to computer,"@, "emulating keyboard."@, Seq::empty(), Seq::empty())
}

/// The screen while attached to NEO Manager over direct USB.
pub open spec fn direct_attached_rows() -> Seq<Seq<char>> {
    rows_with(Seq::empty(), "Connected to"@, "NEO Manager."@, Seq::empty(), Seq::empty())
}

/// Whether the applet menu's row for `name` can be shown.
pub open spec fn menu_name_fits(name: Seq<char>) -> bool {
    truncatable("> "@ + name, 40) && truncatable("  "@ + name, 40)
}

/// Draws one of the firmware's fixed screens.
fn draw_rows(lcd: &mut Lcd, r0: &str, r1: &str, r2: &str, r4: &str, r5: &str)
    requires
        short_ascii(r0@),
        short_ascii(r1@),
        short_ascii(r2@),
        short_ascii(r4@),
        short_ascii(r5@),
    ensures
        final(lcd).wf(),
        final(lcd).texts() == rows_with(r0@, r1@, r2@, r4@, r5@),
{
    proof {
        lemma_short_ascii_row_fits(r0@);
        lemma_short_ascii_row_fits(r1@);
        lemma_short_ascii_row_fits(r2@);
        lemma_short_ascii_row_fits(r4@);
        lemma_short_ascii_row_fits(r5@);
    }
    lcd.clear();
    lcd.set_row(0, r0);
    lcd.set_row(1, r1);
    lcd.set_row(2, r2);
    lcd.set_row(4, r4);
    lcd.set_row(5, r5);
    assert(lcd.texts() =~= rows_with(r0@, r1@, r2@, r4@, r5@));
}

proof fn lemma_literals_short()
    ensures
        short_ascii("SmartApplets"@),
        short_ascii(""@),
        short_ascii("No applet loaded."@),
        short_ascii("Use Open applet."@),
        short_ascii("Up/Down select"@),
        short_ascii("Enter opens"@),
        short_ascii("Making USB"@),
        short_ascii("connection..."@),
        short_ascii("Connected to computer,"@),
        short_ascii("emulating keyboard."@),
        short_ascii("Connected to"@),
        short_ascii("NEO Manager."@),
        ""@ == Seq::<char>::empty(),
{
    reveal_strlit("SmartApplets");
    reveal_strlit("");
    reveal_strlit("No applet loaded.");
    reveal_strlit("Use Open applet.");
    reveal_strlit("Up/Down select");
    reveal_strlit("Enter opens");
    reveal_strlit("Making USB");
    reveal_strlit("connection...");
    reveal_strlit("Connected to computer,");
    reveal_strlit("emulating keyboard.");
    reveal_strlit("Connected to");
    reveal_strlit("NEO Manager.");
}

fn draw_applets_menu_rows(lcd: &mut Lcd, applet_name: &str, selected: bool)
    requires
        menu_name_fits(applet_name@),
    ensures
        final(lcd).wf(),
        final(lcd).texts() == applets_menu_rows(applet_name@, selected),
{
    proof {
        lemma_literals_short();
        lemma_short_ascii_row_fits("SmartApplets"@);
        lemma_short_ascii_row_fits(""@);
        lemma_short_ascii_row_fits("Up/Down select"@);
        lemma_short_ascii_row_fits("Enter opens"@);
    }
    let mut line = String::from_str(if selected { "> " } else { "  " });
    line.append(applet_name);
    lcd.clear();
    lcd.set_row(0, "SmartApplets");
    lcd.set_row(1, "");
    lcd.set_row(2, line.as_str());
    lcd.set_row(4, "Up/Down select");
    lcd.set_row(5, "Enter opens");
    assert(lcd.texts() =~= applets_menu_rows(applet_name@, selected));
}

/// The firmware screens of the simple host.
#[derive(Clone, Debug)]
pub struct NeoOs {
    pub lcd: Lcd,
    pub usb_mode: UsbMode,
    current_row: usize,
}

impl NeoOs {
    /// The screen.
    pub closed spec fn screen(&self) -> Lcd {
        self.lcd
    }

    /// The USB mode.
    pub closed spec fn mode(&self) -> UsbMode {
        self.usb_mode
    }

    /// The screen.
    pub fn lcd_ref(&self) -> (r: &Lcd)
        ensures
            *r == self.screen(),
    {
        &self.lcd
    }

    /// The USB mode.
    pub fn current_usb_mode(&self) -> (r: UsbMode)
        ensures
            r == self.mode(),
    {
        self.usb_mode
    }

    /// The row that `append_char` writes to.
    pub closed spec fn row(&self) -> usize {
        self.current_row
    }

    /// A host showing the empty menu in keyboard mode.
    pub fn new() -> (r: Self)
        ensures
            r.screen().wf(),
            r.screen().texts() == empty_menu_rows(),
            r.mode() == UsbMode::HidKeyboard,
            r.row() == 0,
    {
        let mut os = NeoOs { lcd: Lcd::new(), usb_mode: UsbMode::HidKeyboard, current_row: 0 };
        os.draw_empty_menu();
        os
    }

    /// Shows the menu with no applet loaded.
    pub fn draw_empty_menu(&mut self)
        ensures
            final(self).screen().wf(),
            final(self).screen().texts() == empty_menu_rows(),
            final(self).mode() == old(self).mode(),
            final(self).row() == 0,
    {
        proof { lemma_literals_short(); }
        draw_rows(&mut self.lcd, "SmartApplets", "", "No applet loaded.", "Use Open applet.", "");
        self.current_row = 0;
    }

    /// Shows the applet menu with `applet_name`.
    pub fn draw_applets_menu(&mut self, applet_name: &str, selected: bool)
        requires
            menu_name_fits(applet_name@),
        ensures
            final(self).screen().wf(),
            final(self).screen().texts() == applets_menu_rows(applet_name@, selected),
            final(self).mode() == old(self).mode(),
            final(self).row() == 0,
    {
        draw_applets_menu_rows(&mut self.lcd, applet_name, selected);
        self.current_row = 0;
    }

    /// Shows that the USB connection is being made.
    pub fn draw_usb_attach_start(&mut self)
        ensures
            final(self).screen().wf(),
            final(self).screen().texts() == usb_attach_start_rows(),
            final(self).mode() == old(self).mode(),
            final(self).row() == 0,
    {
        proof { lemma_literals_short(); }
        draw_rows(&mut self.lcd, "", "Making USB", "connection...", "", "");
        self.current_row = 0;
    }

    /// Shows that the NEO is attached as a keyboard.
    pub fn draw_usb_keyboard_attached(&mut self)
        ensures
            final(self).screen().wf(),
            final(self).screen().texts() == usb_keyboard_rows(),
            final(self).mode() == old(self).mode(),
            final(self).row() == 0,
    {
        proof { lemma_literals_short(); }
        draw_rows(&mut self.lcd, "", "Connected to computer,", "emulating keyboard.", "", "");
        self.current_row = 0;
    }

    /// Shows that NEO Manager is attached.
    pub fn draw_direct_attached(&mut self)
        ensures
            final(self).screen().wf(),
            final(self).screen().texts() == direct_attached_rows(),
            final(self).mode() == old(self).mode(),
            final(self).row() == 0,
    {
        proof { lemma_literals_short(); }
        draw_rows(&mut self.lcd, "", "Connected to", "NEO Manager.", "", "");
        self.current_row = 0;
    }

    /// Blanks the screen.
    pub fn clear_screen(&mut self)
        ensures
            final(self).screen().wf(),
            final(self).screen().texts() == Seq::new(6, |i: int| Seq::<char>::empty()),
            final(self).mode() == old(self).mode(),
            final(self).row() == old(self).row(),
    {
        self.lcd.clear();
    }

    /// Sets the one-based row `row` to `text` and makes it the current row.
    pub fn set_row_text(&mut self, row: u32, text: String)
        requires
            old(self).screen().wf(),
            truncatable(text@, 40),
        ensures
            final(self).screen().wf(),
            final(self).row() == (if row >= 1 { row - 1 } else { 0 }),
            final(self).row() < 6 ==> final(self).screen().texts() == old(self).screen().texts().update(final(self).row() as int, truncated(text@, 40)),
            final(self).row() >= 6 ==> final(self).screen().texts() == old(self).screen().texts(),
            final(self).mode() == old(self).mode(),
    {
        let index = if row >= 1 { (row - 1) as usize } else { 0 };
        self.lcd.set_row(index, text.as_str());
        self.current_row = index;
    }

    /// The text of the current row (empty past the last row).
    pub open spec fn current_text(&self) -> Seq<char> {
        if self.row() < 6 {
            self.screen().texts()[self.row() as int]
        } else {
            Seq::empty()
        }
    }

    /// Appends a character to the current row.
    pub fn append_char(&mut self, ch: u8)
        requires
            old(self).screen().wf(),
            truncatable(old(self).current_text().push(ch as char), 40),
        ensures
            final(self).screen().wf(),
            final(self).row() == old(self).row(),
            final(self).mode() == old(self).mode(),
            old(self).row() < 6 ==> final(self).screen().texts() == old(self).screen().texts().update(
                old(self).row() as int,
                truncated(old(self).current_text().push(ch as char), 40),
            ),
            old(self).row() >= 6 ==> final(self).screen().texts() == old(self).screen().texts(),
    {
        let mut text = if self.current_row < 6 {
            self.lcd.rows()[self.current_row].clone()
        } else {
            String::new()
        };
        crate::text::push_char(&mut text, ch as char);
        self.lcd.set_row(self.current_row, text.as_str());
    }

    /// Switches to direct USB mode.
    pub fn switch_to_direct(&mut self)
        ensures
            final(self).screen() == old(self).screen(),
            final(self).mode() == UsbMode::Direct,
            final(self).row() == old(self).row(),
    {
        self.usb_mode = UsbMode::Direct;
    }
}

impl Default for NeoOs {
    fn default() -> (r: Self)
        ensures
            r.screen().wf(),
            r.screen().texts() == empty_menu_rows(),
            r.mode() == UsbMode::HidKeyboard,
            r.row() == 0,
    {
        NeoOs::new()
    }
}

/// The character a display trap shows for a byte: control characters and
/// DEL as spaces.
pub open spec fn printable_char(ch: u8) -> char {
    if ch <= 0x1f || ch == 0x7f {
        ' '
    } else {
        ch as char
    }
}

/// A cursor column kept within `usize`.
pub open spec fn sat_col(c: int) -> int {
    if c < usize::MAX {
        c
    } else {
        usize::MAX as int
    }
}

/// `line` after the bytes of `bytes` are written from column `col` on,
/// each as `append_char` writes it, the cursor stopping at the largest
/// column.
pub open spec fn put_bytes(line: Seq<char>, col: int, bytes: Seq<u8>) -> Seq<char>
    decreases bytes.len(),
{
    if bytes.len() == 0 {
        line
    } else {
        put_at(put_bytes(line, col, bytes.drop_last()), sat_col(col + bytes.len() - 1), printable_char(bytes.last()))
    }
}

/// The firmware services of the applet runner.
#[derive(Clone, Debug)]
pub struct NeoOsShims {
    pub lcd: Lcd,
    pub usb_mode: UsbMode,
    current_row: usize,
    current_col: usize,
    key_queue: VecDeque<u8>,
}

impl NeoOsShims {
    /// The screen.
    pub closed spec fn screen(&self) -> Lcd {
        self.lcd
    }

    /// The USB mode.
    pub closed spec fn mode(&self) -> UsbMode {
        self.usb_mode
    }

    /// The screen.
    pub fn lcd_ref(&self) -> (r: &Lcd)
        ensures
            *r == self.screen(),
    {
        &self.lcd
    }

    /// The USB mode.
    pub fn current_usb_mode(&self) -> (r: UsbMode)
        ensures
            r == self.mode(),
    {
        self.usb_mode
    }

    /// The cursor row.
    pub closed spec fn row(&self) -> usize {
        self.current_row
    }

    /// The cursor column.
    pub closed spec fn col(&self) -> usize {
        self.current_col
    }

    /// The keys waiting to be read, oldest first.
    pub closed spec fn keys(&self) -> Seq<u8> {
        self.key_queue@
    }

    /// Services showing the empty menu in keyboard mode.
    pub fn new() -> (r: Self)
        ensures
            r.screen().wf(),
            r.screen().texts() == empty_menu_rows(),
            r.mode() == UsbMode::HidKeyboard,
            r.row() == 0,
            r.col() == 0,
            r.keys().len() == 0,
    {
        let mut os = NeoOsShims {
            lcd: Lcd::new(),
            usb_mode: UsbMode::HidKeyboard,
            current_row: 0,
            current_col: 0,
            key_queue: VecDeque::new(),
        };
        os.draw_empty_menu();
        os
    }

    /// Shows the menu with no applet loaded.
    pub fn draw_empty_menu(&mut self)
        ensures
            final(self).screen().wf(),
            final(self).screen().texts() == empty_menu_rows(),
            final(self).mode() == old(self).mode(),
            final(self).row() == 0 && final(self).col() == 0,
            final(self).keys() == old(self).keys(),
    {
        proof { lemma_literals_short(); }
        draw_rows(&mut self.lcd, "SmartApplets", "", "No applet loaded.", "Use Open applet.", "");
        self.current_row = 0;
        self.current_col = 0;
    }

    /// Shows the applet menu with `applet_name`.
    pub fn draw_applets_menu(&mut self, applet_name: &str, selected: bool)
        requires
            menu_name_fits(applet_name@),
        ensures
            final(self).screen().wf(),
            final(self).screen().texts() == applets_menu_rows(applet_name@, selected),
            final(self).mode() == old(self).mode(),
            final(self).row() == 0 && final(self).col() == 0,
            final(self).keys() == old(self).keys(),
    {
        draw_applets_menu_rows(&mut self.lcd, applet_name, selected);
        self.current_row = 0;
        self.current_col = 0;
    }

    /// Shows that the USB connection is being made.
    pub fn draw_usb_attach_start(&mut self)
        ensures
            final(self).screen().wf(),
            final(self).screen().texts() == usb_attach_start_rows(),
            final(self).mode() == old(self).mode(),
            final(self).row() == 0 && final(self).col() == 0,
            final(self).keys() == old(self).keys(),
    {
        proof { lemma_literals_short(); }
        draw_rows(&mut self.lcd, "", "Making USB", "connection...", "", "");
        self.current_row = 0;
        self.current_col = 0;
    }

    /// Shows that the NEO is attached as a keyboard.
    pub fn draw_usb_keyboard_attached(&mut self)
        ensures
            final(self).screen().wf(),
            final(self).screen().texts() == usb_keyboard_rows(),
            final(self).mode() == old(self).mode(),
            final(self).row() == 0 && final(self).col() == 0,
            final(self).keys() == old(self).keys(),
    {
        proof { lemma_literals_short(); }
        draw_rows(&mut self.lcd, "", "Connected to computer,", "emulating keyboard.", "", "");
        self.current_row = 0;
        self.current_col = 0;
    }

    /// Shows that NEO Manager is attached.
    pub fn draw_direct_attached(&mut self)
        ensures
            final(self).screen().wf(),
            final(self).screen().texts() == direct_attached_rows(),
            final(self).mode() == old(self).mode(),
            final(self).row() == 0 && final(self).col() == 0,
            final(self).keys() == old(self).keys(),
    {
        proof { lemma_literals_short(); }
        draw_rows(&mut self.lcd, "", "Connected to", "NEO Manager.", "", "");
        self.current_row = 0;
        self.current_col = 0;
    }

    /// Trap: blanks the screen and homes the cursor.
    pub fn clear_screen(&mut self)
        ensures
            final(self).screen().wf(),
            final(self).screen().texts() == Seq::new(6, |i: int| Seq::<char>::empty()),
            final(self).mode() == old(self).mode(),
            final(self).row() == 0 && final(self).col() == 0,
            final(self).keys() == old(self).keys(),
    {
        self.lcd.clear();
        self.current_row = 0;
        self.current_col = 0;
    }

    /// Trap: moves the cursor to the one-based `row` and `col` and blanks
    /// `width` columns there.
    pub fn set_text_region(&mut self, row: u32, col: u32, width: u32)
        requires
            old(self).screen().wf(),
        ensures
            final(self).screen().wf(),
            final(self).row() == (if row >= 1 { row - 1 } else { 0 }),
            final(self).col() == (if col >= 1 { col - 1 } else { 0 }),
            final(self).row() < 6 ==> final(self).screen().texts() == old(self).screen().texts().update(
                final(self).row() as int,
                blank_span(old(self).screen().texts()[final(self).row() as int], final(self).col() as int, width as int),
            ),
            final(self).row() >= 6 ==> final(self).screen().texts() == old(self).screen().texts(),
            final(self).mode() == old(self).mode(),
            final(self).keys() == old(self).keys(),
    {
        let index = if row >= 1 { (row - 1) as usize } else { 0 };
        self.current_row = index;
        self.current_col = if col >= 1 { (col - 1) as usize } else { 0 };
        self.lcd.clear_span(index, self.current_col, width as usize);
    }

    /// Trap: writes a character at the cursor and moves the cursor right.
    pub fn append_char(&mut self, ch: u8)
        requires
            old(self).screen().wf(),
        ensures
            final(self).screen().wf(),
            final(self).row() == old(self).row(),
            final(self).col() == (if old(self).col() < usize::MAX { old(self).col() + 1 } else { usize::MAX as int }),
            old(self).row() < 6 ==> final(self).screen().texts() == old(self).screen().texts().update(
                old(self).row() as int,
                put_at(old(self).screen().texts()[old(self).row() as int], old(self).col() as int, printable_char(ch)),
            ),
            old(self).row() >= 6 ==> final(self).screen().texts() == old(self).screen().texts(),
            final(self).mode() == old(self).mode(),
            final(self).keys() == old(self).keys(),
    {
        let printable: u8 = if ch <= 0x1f || ch == 0x7f { 0x20 } else { ch };
        self.lcd.put_char(self.current_row, self.current_col, printable as char);
        if self.current_col < usize::MAX {
            self.current_col = self.current_col + 1;
        }
    }

    /// Trap: writes each byte of `value` as `append_char` does.
    pub fn append_text(&mut self, value: &str)
        requires
            old(self).screen().wf(),
        ensures
            final(self).screen().wf(),
            final(self).row() == old(self).row(),
            final(self).col() == sat_col(old(self).col() + value.spec_bytes().len()),
            old(self).row() < 6 ==> final(self).screen().texts() == old(self).screen().texts().update(
                old(self).row() as int,
                put_bytes(old(self).screen().texts()[old(self).row() as int], old(self).col() as int, value.spec_bytes()),
            ),
            old(self).row() >= 6 ==> final(self).screen().texts() == old(self).screen().texts(),
            final(self).mode() == old(self).mode(),
            final(self).keys() == old(self).keys(),
    {
        let bytes = value.as_bytes();
        let ghost t0 = self.screen().texts();
        let ghost r0 = old(self).row() as int;
        let ghost c0 = old(self).col() as int;
        let mut i: usize = 0;
        assert(bytes@.subrange(0, 0) =~= Seq::<u8>::empty());
        while i < bytes.len()
            invariant
                i <= bytes@.len(),
                self.screen().wf(),
                self.row() == old(self).row(),
                r0 == old(self).row(),
                c0 == old(self).col(),
                t0 == old(self).screen().texts(),
                t0.len() == 6,
                self.col() == sat_col(c0 + i),
                r0 < 6 ==> self.screen().texts() == t0.update(r0, put_bytes(t0[r0], c0, bytes@.subrange(0, i as int))),
                r0 >= 6 ==> self.screen().texts() == t0,
                self.mode() == old(self).mode(),
                self.keys() == old(self).keys(),
            decreases bytes@.len() - i,
        {
            let ghost before = self.screen().texts();
            let ghost col_before = self.col();
            self.append_char(bytes[i]);
            proof {
                let sub = bytes@.subrange(0, i + 1);
                assert(sub.drop_last() =~= bytes@.subrange(0, i as int));
                assert(sub.last() == bytes@[i as int]);
                if r0 < 6 {
                    let prev = put_bytes(t0[r0], c0, bytes@.subrange(0, i as int));
                    assert(before[r0] == prev);
                    assert(col_before == sat_col(c0 + sub.len() - 1));
                    assert(put_bytes(t0[r0], c0, sub) == put_at(prev, col_before as int, printable_char(bytes@[i as int])));
                    assert(self.screen().texts() =~= t0.update(r0, put_bytes(t0[r0], c0, sub)));
                }
            }
            i = i + 1;
        }
        assert(bytes@.subrange(0, bytes@.len() as int) =~= bytes@);
    }

    /// Switches to direct USB mode.
    pub fn switch_to_direct(&mut self)
        ensures
            final(self).screen() == old(self).screen(),
            final(self).mode() == UsbMode::Direct,
            final(self).row() == old(self).row(),
            final(self).col() == old(self).col(),
            final(self).keys() == old(self).keys(),
    {
        self.usb_mode = UsbMode::Direct;
    }

    /// Queues a key for the applet.
    pub fn push_key(&mut self, key: u8)
        ensures
            final(self).keys() == old(self).keys().push(key),
            final(self).screen() == old(self).screen(),
            final(self).mode() == old(self).mode(),
            final(self).row() == old(self).row(),
            final(self).col() == old(self).col(),
    {
        self.key_queue.push_back(key);
    }

    /// Whether a key is waiting.
    pub fn is_key_ready(&self) -> (r: bool)
        ensures
            r == (self.keys().len() > 0),
    {
        self.key_queue.len() > 0
    }

    /// Takes the oldest waiting key; 0 when none is waiting.
    pub fn read_key(&mut self) -> (r: u8)
        ensures
            old(self).keys().len() > 0 ==> r == old(self).keys()[0] && final(self).keys() == old(self).keys().drop_first(),
            old(self).keys().len() == 0 ==> r == 0 && final(self).keys() == old(self).keys(),
            final(self).screen() == old(self).screen(),
            final(self).mode() == old(self).mode(),
            final(self).row() == old(self).row(),
            final(self).col() == old(self).col(),
    {
        match self.key_queue.pop_front() {
            Some(k) => k,
            None => 0,
        }
    }
}

impl Default for NeoOsShims {
    fn default() -> (r: Self)
        ensures
            r.screen().wf(),
            r.screen().texts() == empty_menu_rows(),
            r.mode() == UsbMode::HidKeyboard,
            r.row() == 0,
            r.col() == 0,
            r.keys().len() == 0,
    {
        NeoOsShims::new()
    }
}

} // verus!
