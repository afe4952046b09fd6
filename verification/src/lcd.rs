//! The NEO's 320x128 pixel LCD: two column-addressed controllers, each
//! driving a 160-column half in sixteen pages of eight pixel rows.

use vstd::prelude::*;

verus! {

/// Width of the LCD in pixels.
pub const LCD_WIDTH: usize = 320;
/// Height of the LCD in pixels.
pub const LCD_HEIGHT: usize = 128;
/// Columns of one controller.
pub const CONTROLLER_WIDTH: usize = 160;
/// Pixel column where the right controller's first column shows.
pub const RIGHT_CONTROLLER_X_BASE: usize = 132;
/// Pages of one controller.
pub const PAGES: usize = 16;
/// Rows of the LCD that the NEO's window shows.
pub const NEO_VISIBLE_LCD_HEIGHT: usize = 64;
/// Columns of the LCD that the NEO's window shows.
pub const NEO_VISIBLE_LCD_WIDTH: usize = 264;

/// The part of a picture of the given size that the emulator draws: the
/// NEO's window, cut down to the picture where the picture is smaller.
pub fn visible_viewport(width: usize, height: usize) -> (r: (usize, usize))
    ensures
        r.0 == (if width < NEO_VISIBLE_LCD_WIDTH { width } else { NEO_VISIBLE_LCD_WIDTH }),
        r.1 == (if height < NEO_VISIBLE_LCD_HEIGHT { height } else { NEO_VISIBLE_LCD_HEIGHT }),
{
    let w = if width < NEO_VISIBLE_LCD_WIDTH { width } else { NEO_VISIBLE_LCD_WIDTH };
    let h = if height < NEO_VISIBLE_LCD_HEIGHT { height } else { NEO_VISIBLE_LCD_HEIGHT };
    (w, h)
}

/// A picture of the LCD: `pixels[y * width + x]` is lit or not.
#[derive(Clone, Debug, PartialEq, Eq)]
pub struct LcdSnapshot {
    pub width: usize,
    pub height: usize,
    pub pixels: Vec<bool>,
}

/// The registers of one controller.
#[derive(Clone, Copy, Debug, PartialEq, Eq, Structural)]
pub struct Registers {
    pub page: usize,
    pub column: usize,
    pub display_start_line: usize,
    pub read_modify_write: Option<usize>,
    pub display_on: bool,
    pub reverse_display: bool,
}

/// The registers after a command byte.
pub open spec fn command_registers(r: Registers, command: u8) -> Registers {
    let s = if command == 0xae {
        Registers { display_on: false, ..r }
    } else if command == 0xaf {
        Registers { display_on: true, ..r }
    } else if 0xb0 <= command <= 0xbf {
        let p = (command & 0x0f) as usize;
        Registers { page: if p < 15 { p } else { 15 }, ..r }
    } else if command <= 0x0f {
        Registers { column: (r.column & 0xf0) | (command as usize), ..r }
    } else if 0x10 <= command <= 0x1f {
        Registers { column: (r.column & 0x0f) | (((command & 0x0f) as usize) << 4usize), ..r }
    } else if 0x40 <= command <= 0x7f {
        Registers { display_start_line: (command & 0x3f) as usize, ..r }
    } else if command == 0xa6 {
        Registers { reverse_display: false, ..r }
    } else if command == 0xa7 {
        Registers { reverse_display: true, ..r }
    } else if command == 0xe0 {
        Registers { read_modify_write: Some(r.column), ..r }
    } else if command == 0xee {
        match r.read_modify_write {
            Some(c) => Registers { column: c, read_modify_write: None, ..r },
            None => r,
        }
    } else {
        r
    };
    Registers { column: if s.column < 159 { s.column } else { 159 }, ..s }
}

/// The registers after a data byte is written: the column moves right,
/// stopping at the last column.
pub open spec fn data_registers(r: Registers) -> Registers {
    Registers { column: if r.column + 1 < 159 { (r.column + 1) as usize } else { 159 }, ..r }
}

/// The registers after a data byte is read: the column moves right unless a
/// read-modify-write is in progress.
pub open spec fn read_registers(r: Registers) -> Registers {
    if r.read_modify_write is None {
        data_registers(r)
    } else {
        r
    }
}

/// The registers of a freshly reset controller.
pub open spec fn reset_registers() -> Registers {
    Registers {
        page: 0,
        column: 0,
        display_start_line: 0,
        read_modify_write: None,
        display_on: true,
        reverse_display: false,
    }
}

/// One controller: its registers and its display memory, page by page.
#[derive(Clone, Debug)]
pub struct Controller {
    regs: Registers,
    memory: Vec<u8>,
}

impl Controller {
    /// The controller's registers.
    pub closed spec fn registers(&self) -> Registers {
        self.regs
    }

    /// The controller's display memory: byte `page * 160 + column`.
    pub closed spec fn display_memory(&self) -> Seq<u8> {
        self.memory@
    }

    /// The page and column are on the controller and it has all its memory.
    pub open spec fn wf(&self) -> bool {
        &&& self.registers().page < 16
        &&& self.registers().column < 160
        &&& self.display_memory().len() == 2560
    }

    /// A reset controller with blank memory.
    pub fn new() -> (r: Self)
        ensures
            r.wf(),
            r.registers() == reset_registers(),
            r.display_memory() == Seq::new(2560, |i: int| 0u8),
    {
        let mut memory: Vec<u8> = Vec::new();
        let mut i: usize = 0;
        while i < 2560
            invariant
                i <= 2560,
                memory@ == Seq::new(i as nat, |k: int| 0u8),
            decreases 2560 - i,
        {
            memory.push(0);
            i = i + 1;
            assert(memory@ =~= Seq::new(i as nat, |k: int| 0u8));
        }
        Controller {
            regs: Registers {
                page: 0,
                column: 0,
                display_start_line: 0,
                read_modify_write: None,
                display_on: true,
                reverse_display: false,
            },
            memory,
        }
    }

    /// Executes a command byte.
    pub fn write_command(&mut self, command: u8)
        requires
            old(self).wf(),
        ensures
            final(self).wf(),
            final(self).registers() == command_registers(old(self).registers(), command),
            final(self).display_memory() == old(self).display_memory(),
    {
        let r = self.regs;
        let s = if command == 0xae {
            Registers { display_on: false, ..r }
        } else if command == 0xaf {
            Registers { display_on: true, ..r }
        } else if 0xb0 <= command && command <= 0xbf {
            let p = (command & 0x0f) as usize;
            Registers { page: if p < 15 { p } else { 15 }, ..r }
        } else if command <= 0x0f {
            Registers { column: (r.column & 0xf0) | (command as usize), ..r }
        } else if 0x10 <= command && command <= 0x1f {
            Registers { column: (r.column & 0x0f) | (((command & 0x0f) as usize) << 4usize), ..r }
        } else if 0x40 <= command && command <= 0x7f {
            Registers { display_start_line: (command & 0x3f) as usize, ..r }
        } else if command == 0xa6 {
            Registers { reverse_display: false, ..r }
        } else if command == 0xa7 {
            Registers { reverse_display: true, ..r }
        } else if command == 0xe0 {
            Registers { read_modify_write: Some(r.column), ..r }
        } else if command == 0xee {
            match r.read_modify_write {
                Some(c) => Registers { column: c, read_modify_write: None, ..r },
                None => r,
            }
        } else {
            r
        };
        self.regs = Registers { column: if s.column < 159 { s.column } else { 159 }, ..s };
    }

    /// Writes a data byte at the current page and column.
    pub fn write_data(&mut self, value: u8)
        requires
            old(self).wf(),
        ensures
            final(self).wf(),
            final(self).registers() == data_registers(old(self).registers()),
            final(self).display_memory() == old(self).display_memory().update(
                old(self).registers().page * 160 + old(self).registers().column,
                value,
            ),
    {
        let at = self.regs.page * 160 + self.regs.column;
        self.memory.set(at, value);
        let next = self.regs.column + 1;
        self.regs.column = if next < 159 { next } else { 159 };
    }

    /// The status byte: bit 5 is set while the display is off.
    pub fn read_status(&self) -> (r: u8)
        ensures
            r == (if self.registers().display_on { 0u8 } else { 0x20u8 }),
    {
        if self.regs.display_on {
            0x00
        } else {
            0x20
        }
    }

    /// Reads the data byte at the current page and column.
    pub fn read_data(&mut self) -> (r: u8)
        requires
            old(self).wf(),
        ensures
            final(self).wf(),
            r == old(self).display_memory()[old(self).registers().page * 160 + old(self).registers().column],
            final(self).registers() == read_registers(old(self).registers()),
            final(self).display_memory() == old(self).display_memory(),
    {
        let value = self.memory[self.regs.page * 160 + self.regs.column];
        if self.regs.read_modify_write.is_none() {
            let next = self.regs.column + 1;
            self.regs.column = if next < 159 { next } else { 159 };
        }
        value
    }

    /// Whether the pixel in `column`, pixel row `y`, is lit on the glass.
    pub open spec fn lit(&self, column: int, y: int) -> bool {
        let value = self.display_memory()[(y / 8) * 160 + column];
        self.registers().display_on && ((((value >> ((y % 8) as u8)) & 1u8) == 1u8) != self.registers().reverse_display)
    }

    fn lit_exec(&self, column: usize, y: usize) -> (r: bool)
        requires
            self.wf(),
            column < 160,
            y < 128,
        ensures
            r == self.lit(column as int, y as int),
    {
        let value = self.memory[(y / 8) * 160 + column];
        let bit = (y % 8) as u8;
        self.regs.display_on && ((((value >> bit) & 1u8) == 1u8) != self.regs.reverse_display)
    }
}

/// The two controllers of the LCD.
#[derive(Clone, Debug)]
pub struct Lcd {
    pub left: Controller,
    pub right: Controller,
}

/// Whether pixel (`x`, `y`) of the LCD is lit: the left controller shows
/// columns 0 to 131, the right one from column 132 on, and the last
/// columns show nothing.
pub open spec fn lcd_pixel(lcd: Lcd, x: int, y: int) -> bool {
    if x < 132 {
        lcd.left.lit(x, y)
    } else if x < 292 {
        lcd.right.lit(x - 132, y)
    } else {
        false
    }
}

/// The display byte that controller `c` (0 left, 1 right) reads next.
pub open spec fn controller_byte(c: Controller) -> u8 {
    c.display_memory()[c.registers().page * 160 + c.registers().column]
}

/// The status byte that controller index `c` reports: bit 5 set while the
/// display is off; 0 for an index that names no controller.
pub open spec fn lcd_status(lcd: Lcd, c: int) -> u8 {
    if c == 0 {
        if lcd.left.registers().display_on { 0 } else { 0x20 }
    } else if c == 1 {
        if lcd.right.registers().display_on { 0 } else { 0x20 }
    } else {
        0
    }
}

/// The data byte that a read of controller index `c` returns.
pub open spec fn lcd_data(lcd: Lcd, c: int) -> u8 {
    if c == 0 {
        controller_byte(lcd.left)
    } else if c == 1 {
        controller_byte(lcd.right)
    } else {
        0
    }
}

/// `after` is `before` after a data read from controller index `c`.
pub open spec fn lcd_read_step(before: Lcd, after: Lcd, c: int) -> bool {
    &&& after.wf()
    &&& c == 0 ==> after.left.registers() == read_registers(before.left.registers())
        && after.left.display_memory() == before.left.display_memory() && after.right == before.right
    &&& c == 1 ==> after.right.registers() == read_registers(before.right.registers())
        && after.right.display_memory() == before.right.display_memory() && after.left == before.left
    &&& (c != 0 && c != 1) ==> after == before
}

/// `after` is `before` after `command` was sent to controller index `c`.
pub open spec fn lcd_command_step(before: Lcd, after: Lcd, c: int, command: u8) -> bool {
    &&& after.wf()
    &&& c == 0 ==> after.left.registers() == command_registers(before.left.registers(), command)
        && after.left.display_memory() == before.left.display_memory() && after.right == before.right
    &&& c == 1 ==> after.right.registers() == command_registers(before.right.registers(), command)
        && after.right.display_memory() == before.right.display_memory() && after.left == before.left
    &&& (c != 0 && c != 1) ==> after == before
}

/// `after` is `before` after the data byte `value` was written to
/// controller index `c`.
pub open spec fn lcd_write_step(before: Lcd, after: Lcd, c: int, value: u8) -> bool {
    &&& after.wf()
    &&& c == 0 ==> after.left.registers() == data_registers(before.left.registers())
        && after.left.display_memory() == before.left.display_memory().update(
            before.left.registers().page * 160 + before.left.registers().column, value)
        && after.right == before.right
    &&& c == 1 ==> after.right.registers() == data_registers(before.right.registers())
        && after.right.display_memory() == before.right.display_memory().update(
            before.right.registers().page * 160 + before.right.registers().column, value)
        && after.left == before.left
    &&& (c != 0 && c != 1) ==> after == before
}

impl Lcd {
    /// Both controllers well formed.
    pub open spec fn wf(&self) -> bool {
        self.left.wf() && self.right.wf()
    }

    /// A reset LCD with blank memory.
    pub fn new() -> (r: Self)
        ensures
            r.wf(),
            r.left.registers() == reset_registers(),
            r.right.registers() == reset_registers(),
    {
        Lcd { left: Controller::new(), right: Controller::new() }
    }

    /// Sends a command to controller 0 (left) or 1 (right); other indices
    /// are ignored.
    pub fn write_command(&mut self, controller: usize, command: u8)
        requires
            old(self).wf(),
        ensures
            final(self).wf(),
            controller == 0 ==> final(self).left.registers() == command_registers(old(self).left.registers(), command)
                && final(self).left.display_memory() == old(self).left.display_memory()
                && final(self).right == old(self).right,
            controller == 1 ==> final(self).right.registers() == command_registers(old(self).right.registers(), command)
                && final(self).right.display_memory() == old(self).right.display_memory()
                && final(self).left == old(self).left,
            controller > 1 ==> *final(self) == *old(self),
            lcd_command_step(*old(self), *final(self), controller as int, command),
    {
        if controller == 0 {
            self.left.write_command(command);
        } else if controller == 1 {
            self.right.write_command(command);
        }
    }

    /// Writes a data byte to controller 0 or 1.
    pub fn write_data(&mut self, controller: usize, value: u8)
        requires
            old(self).wf(),
        ensures
            final(self).wf(),
            controller == 0 ==> final(self).left.registers() == data_registers(old(self).left.registers())
                && final(self).left.display_memory() == old(self).left.display_memory().update(
                    old(self).left.registers().page * 160 + old(self).left.registers().column,
                    value,
                ) && final(self).right == old(self).right,
            controller == 1 ==> final(self).right.registers() == data_registers(old(self).right.registers())
                && final(self).right.display_memory() == old(self).right.display_memory().update(
                    old(self).right.registers().page * 160 + old(self).right.registers().column,
                    value,
                ) && final(self).left == old(self).left,
            controller > 1 ==> *final(self) == *old(self),
            lcd_write_step(*old(self), *final(self), controller as int, value),
    {
        if controller == 0 {
            self.left.write_data(value);
        } else if controller == 1 {
            self.right.write_data(value);
        }
    }

    /// The status byte of controller 0 or 1; 0 for other indices.
    pub fn read_status(&self, controller: usize) -> (r: u8)
        ensures
            controller == 0 ==> r == (if self.left.registers().display_on { 0u8 } else { 0x20u8 }),
            controller == 1 ==> r == (if self.right.registers().display_on { 0u8 } else { 0x20u8 }),
            controller > 1 ==> r == 0,
            r == lcd_status(*self, controller as int),
    {
        if controller == 0 {
            self.left.read_status()
        } else if controller == 1 {
            self.right.read_status()
        } else {
            0
        }
    }

    /// Reads a data byte from controller 0 or 1; 0 for other indices.
    pub fn read_data(&mut self, controller: usize) -> (r: u8)
        requires
            old(self).wf(),
        ensures
            final(self).wf(),
            controller == 0 ==> r == old(self).left.display_memory()[old(self).left.registers().page * 160
                + old(self).left.registers().column]
                && final(self).left.registers() == read_registers(old(self).left.registers())
                && final(self).left.display_memory() == old(self).left.display_memory()
                && final(self).right == old(self).right,
            controller == 1 ==> r == old(self).right.display_memory()[old(self).right.registers().page * 160
                + old(self).right.registers().column]
                && final(self).right.registers() == read_registers(old(self).right.registers())
                && final(self).right.display_memory() == old(self).right.display_memory()
                && final(self).left == old(self).left,
            controller > 1 ==> r == 0 && *final(self) == *old(self),
            r == lcd_data(*old(self), controller as int),
            lcd_read_step(*old(self), *final(self), controller as int),
    {
        if controller == 0 {
            self.left.read_data()
        } else if controller == 1 {
            self.right.read_data()
        } else {
            0
        }
    }

    /// The picture on the glass.
    pub fn snapshot(&self) -> (r: LcdSnapshot)
        requires
            self.wf(),
        ensures
            r.width == 320,
            r.height == 128,
            r.pixels@.len() == 320 * 128,
            forall|y: int, x: int| 0 <= y < 128 && 0 <= x < 320 ==> #[trigger] r.pixels@[y * 320 + x] == lcd_pixel(*self, x, y),
    {
        let mut pixels: Vec<bool> = Vec::new();
        let mut k: usize = 0;
        while k < 40960
            invariant
                k <= 40960,
                self.wf(),
                pixels@.len() == k,
                forall|i: int| 0 <= i < k ==> #[trigger] pixels@[i] == lcd_pixel(*self, i % 320, i / 320),
            decreases 40960 - k,
        {
            let x = k % 320;
            let y = k / 320;
            let lit = if x < 132 {
                self.left.lit_exec(x, y)
            } else if x < 292 {
                self.right.lit_exec(x - 132, y)
            } else {
                false
            };
            pixels.push(lit);
            k = k + 1;
        }
        proof {
            assert forall|y: int, x: int| 0 <= y < 128 && 0 <= x < 320 implies #[trigger] pixels@[y * 320 + x] == lcd_pixel(*self, x, y) by {
                let i = y * 320 + x;
                assert(0 <= i < 40960) by (nonlinear_arith)
                    requires 0 <= y < 128, 0 <= x < 320, i == y * 320 + x;
                assert(i % 320 == x && i / 320 == y) by (nonlinear_arith)
                    requires 0 <= y < 128, 0 <= x < 320, i == y * 320 + x;
            }
        }
        LcdSnapshot { width: 320, height: 128, pixels }
    }
}

/// The column registers after `n` data writes.
pub open spec fn after_writes(r: Registers, n: nat) -> Registers
    decreases n,
{
    if n == 0 {
        r
    } else {
        data_registers(after_writes(r, (n - 1) as nat))
    }
}

/// Read-modify-write: after command 0xE0, any number of data writes, and
/// command 0xEE, the column is back where it was at 0xE0.
pub proof fn lemma_read_modify_write_restores_column(r: Registers, n: nat)
    requires
        r.column < 160,
    ensures
        command_registers(after_writes(command_registers(r, 0xe0), n), 0xee).column == r.column,
    decreases n,
{
    lemma_writes_keep_saved_column(command_registers(r, 0xe0), n);
}

proof fn lemma_writes_keep_saved_column(r: Registers, n: nat)
    ensures
        after_writes(r, n).read_modify_write == r.read_modify_write,
    decreases n,
{
    if n > 0 {
        lemma_writes_keep_saved_column(r, (n - 1) as nat);
    }
}

/// While a read-modify-write is in progress, reading does not move the
/// column, so the next write lands on the byte just read.
pub proof fn lemma_read_in_read_modify_write_keeps_column(r: Registers)
    requires
        r.read_modify_write is Some,
    ensures
        read_registers(r) == r,
{
}

} // verus!
