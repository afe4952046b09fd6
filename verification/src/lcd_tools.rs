//! Measures of LCD pictures that the emulator's checks use: lit pixels in
//! a rectangle, pixels that differ between two pictures, a fingerprint of a
//! picture, and a coarse text rendering of it.

use vstd::prelude::*;
use crate::lcd::{LcdSnapshot, NEO_VISIBLE_LCD_HEIGHT, NEO_VISIBLE_LCD_WIDTH};
use crate::text::{decimal, push_char, push_decimal};

verus! {

/// A picture whose pixel list has one entry per pixel.
pub open spec fn picture_ok(s: LcdSnapshot) -> bool {
    s.pixels@.len() == s.width * s.height
}

/// Whether pixel number `i` of a picture `w` wide lies in the rectangle of
/// columns `x0..x1` and rows `y0..y1`.
pub open spec fn in_rect(i: int, w: int, x0: int, x1: int, y0: int, y1: int) -> bool {
    x0 <= i % w < x1 && y0 <= i / w < y1
}

/// The number of lit pixels among the first `n` of a picture `w` wide that
/// lie in the rectangle.
pub open spec fn lit_in_rect(p: Seq<bool>, w: int, x0: int, x1: int, y0: int, y1: int, n: int) -> nat
    decreases n,
{
    if n <= 0 {
        0
    } else {
        lit_in_rect(p, w, x0, x1, y0, y1, n - 1) + (if p[n - 1] && in_rect(n - 1, w, x0, x1, y0, y1) { 1nat } else { 0nat })
    }
}

proof fn lemma_lit_in_rect_bound(p: Seq<bool>, w: int, x0: int, x1: int, y0: int, y1: int, n: int)
    requires
        n >= 0,
    ensures
        lit_in_rect(p, w, x0, x1, y0, y1, n) <= n,
    decreases n,
{
    if n > 0 {
        lemma_lit_in_rect_bound(p, w, x0, x1, y0, y1, n - 1);
    }
}

fn count_lit(s: &LcdSnapshot, x0: usize, x1: usize, y0: usize, y1: usize) -> (r: usize)
    requires
        s.width > 0,
    ensures
        r == lit_in_rect(s.pixels@, s.width as int, x0 as int, x1 as int, y0 as int, y1 as int, s.pixels@.len() as int),
{
    let mut count: usize = 0;
    let mut i: usize = 0;
    while i < s.pixels.len()
        invariant
            s.width > 0,
            i <= s.pixels@.len(),
            count == lit_in_rect(s.pixels@, s.width as int, x0 as int, x1 as int, y0 as int, y1 as int, i as int),
        decreases s.pixels@.len() - i,
    {
        proof {
            lemma_lit_in_rect_bound(s.pixels@, s.width as int, x0 as int, x1 as int, y0 as int, y1 as int, i as int);
        }
        let x = i % s.width;
        let y = i / s.width;
        if s.pixels[i] && x0 <= x && x < x1 && y0 <= y && y < y1 {
            count = count + 1;
        }
        i = i + 1;
    }
    count
}

/// The number of lit pixels in the part of the picture the NEO's window
/// shows.
pub fn lcd_visible_lit_pixels(s: &LcdSnapshot) -> (r: usize)
    requires
        picture_ok(*s),
    ensures
        s.width > 0 ==> r == lit_in_rect(
            s.pixels@,
            s.width as int,
            0,
            if s.width < NEO_VISIBLE_LCD_WIDTH { s.width as int } else { NEO_VISIBLE_LCD_WIDTH as int },
            0,
            if s.height < NEO_VISIBLE_LCD_HEIGHT { s.height as int } else { NEO_VISIBLE_LCD_HEIGHT as int },
            s.pixels@.len() as int,
        ),
        s.width == 0 ==> r == 0,
{
    if s.width == 0 {
        return 0;
    }
    let width = if s.width < NEO_VISIBLE_LCD_WIDTH { s.width } else { NEO_VISIBLE_LCD_WIDTH };
    let height = if s.height < NEO_VISIBLE_LCD_HEIGHT { s.height } else { NEO_VISIBLE_LCD_HEIGHT };
    count_lit(s, 0, width, 0, height)
}

/// The number of lit pixels in the rectangle `width` by `height` from
/// (`x`, `y`), cut to the picture.
pub fn lcd_lit_pixels_in_rect(s: &LcdSnapshot, x: usize, y: usize, width: usize, height: usize) -> (r: usize)
    requires
        picture_ok(*s),
        x + width <= usize::MAX,
        y + height <= usize::MAX,
    ensures
        s.width > 0 ==> r == lit_in_rect(
            s.pixels@,
            s.width as int,
            x as int,
            if x + width < s.width { x + width } else { s.width as int },
            y as int,
            if y + height < s.height { y + height } else { s.height as int },
            s.pixels@.len() as int,
        ),
        s.width == 0 ==> r == 0,
{
    if s.width == 0 {
        return 0;
    }
    let max_y = if y + height < s.height { y + height } else { s.height };
    let max_x = if x + width < s.width { x + width } else { s.width };
    count_lit(s, x, max_x, y, max_y)
}

/// The number of the first `n` pixels of `before` (`bw` wide) inside the
/// rectangle that differ from the pixel at the same place of `after` (`aw`
/// wide).
pub open spec fn diff_in_rect(before: Seq<bool>, bw: int, after: Seq<bool>, aw: int, x0: int, x1: int, y0: int, y1: int, n: int) -> nat
    decreases n,
{
    if n <= 0 {
        0
    } else {
        let i = n - 1;
        diff_in_rect(before, bw, after, aw, x0, x1, y0, y1, n - 1) + (if in_rect(i, bw, x0, x1, y0, y1)
            && before[i] != after[(i / bw) * aw + i % bw] { 1nat } else { 0nat })
    }
}

proof fn lemma_diff_bound(before: Seq<bool>, bw: int, after: Seq<bool>, aw: int, x0: int, x1: int, y0: int, y1: int, n: int)
    requires
        n >= 0,
    ensures
        diff_in_rect(before, bw, after, aw, x0, x1, y0, y1, n) <= n,
    decreases n,
{
    if n > 0 {
        lemma_diff_bound(before, bw, after, aw, x0, x1, y0, y1, n - 1);
    }
}

proof fn lemma_index_inside(x: int, y: int, w: int, h: int)
    requires
        0 <= x < w,
        0 <= y < h,
    ensures
        y * w + x < w * h,
        0 <= y * w + x,
{
    assert(y * w + x < w * h) by (nonlinear_arith)
        requires
            0 <= x < w,
            0 <= y < h,
    ;
    assert(0 <= y * w) by (nonlinear_arith)
        requires
            0 <= y,
            0 <= w,
    ;
}

/// The number of pixels in the rectangle `width` by `height` from (`x`,
/// `y`), cut to both pictures, that differ between them.
pub fn lcd_diff_pixels_in_rect(
    before: &LcdSnapshot,
    after: &LcdSnapshot,
    x: usize,
    y: usize,
    width: usize,
    height: usize,
) -> (r: usize)
    requires
        picture_ok(*before),
        picture_ok(*after),
        x + width <= usize::MAX,
        y + height <= usize::MAX,
    ensures
        before.width > 0 ==> r == diff_in_rect(
            before.pixels@,
            before.width as int,
            after.pixels@,
            after.width as int,
            x as int,
            if x + width < before.width && x + width < after.width {
                x + width
            } else if before.width < after.width {
                before.width as int
            } else {
                after.width as int
            },
            y as int,
            if y + height < before.height && y + height < after.height {
                y + height
            } else if before.height < after.height {
                before.height as int
            } else {
                after.height as int
            },
            before.pixels@.len() as int,
        ),
        before.width == 0 ==> r == 0,
{
    if before.width == 0 {
        return 0;
    }
    let mut max_y = y + height;
    if before.height < max_y {
        max_y = before.height;
    }
    if after.height < max_y {
        max_y = after.height;
    }
    let mut max_x = x + width;
    if before.width < max_x {
        max_x = before.width;
    }
    if after.width < max_x {
        max_x = after.width;
    }
    let ghost bw = before.width as int;
    let ghost aw = after.width as int;
    let mut count: usize = 0;
    let mut i: usize = 0;
    while i < before.pixels.len()
        invariant
            picture_ok(*before),
            picture_ok(*after),
            before.width > 0,
            bw == before.width,
            aw == after.width,
            max_x <= before.width,
            max_x <= after.width,
            max_y <= before.height,
            max_y <= after.height,
            i <= before.pixels@.len(),
            count == diff_in_rect(before.pixels@, bw, after.pixels@, aw, x as int, max_x as int, y as int, max_y as int, i as int),
        decreases before.pixels@.len() - i,
    {
        proof {
            lemma_diff_bound(before.pixels@, bw, after.pixels@, aw, x as int, max_x as int, y as int, max_y as int, i as int);
        }
        let px = i % before.width;
        let py = i / before.width;
        if x <= px && px < max_x && y <= py && py < max_y {
            let after_len = after.pixels.len();
            proof {
                lemma_index_inside(px as int, py as int, aw, after.height as int);
            }
            let other = py * after.width + px;
            if before.pixels[i] != after.pixels[other] {
                count = count + 1;
            }
        }
        i = i + 1;
    }
    count
}

/// The fingerprint of a list of pixels: from the FNV offset basis, each
/// pixel is mixed in and the value multiplied by the FNV prime.
pub open spec fn pixel_hash(p: Seq<bool>) -> u64
    decreases p.len(),
{
    if p.len() == 0 {
        0xcbf2_9ce4_8422_2325u64
    } else {
        let h = pixel_hash(p.drop_last()) ^ (if p.last() { 1u64 } else { 0u64 });
        ((h as int * 0x0000_0100_0000_01b3) % 0x1_0000_0000_0000_0000) as u64
    }
}

/// The fingerprint of a picture.
pub fn lcd_hash(s: &LcdSnapshot) -> (r: u64)
    ensures
        r == pixel_hash(s.pixels@),
{
    let mut hash: u64 = 0xcbf2_9ce4_8422_2325;
    let mut i: usize = 0;
    while i < s.pixels.len()
        invariant
            i <= s.pixels@.len(),
            hash == pixel_hash(s.pixels@.subrange(0, i as int)),
        decreases s.pixels@.len() - i,
    {
        assert(s.pixels@.subrange(0, i + 1).drop_last() =~= s.pixels@.subrange(0, i as int));
        hash = hash ^ (if s.pixels[i] { 1u64 } else { 0u64 });
        hash = hash.wrapping_mul(0x0000_0100_0000_01b3);
        i = i + 1;
    }
    assert(s.pixels@.subrange(0, s.pixels@.len() as int) =~= s.pixels@);
    hash
}

/// Whether any pixel of the block of columns `x..x+xs` and rows `y..y+ys`
/// (cut to the picture) is lit.
pub open spec fn block_lit(s: LcdSnapshot, x: int, y: int, xs: int, ys: int) -> bool {
    exists|px: int, py: int|
        #![trigger s.pixels@[py * s.width + px]]
        x <= px < x + xs && px < s.width && y <= py < y + ys && py < s.height && s.pixels@[py * s.width + px]
}

/// The number of blocks of `step` along a side of `len`.
pub open spec fn blocks(len: int, step: int) -> int {
    if len <= 0 { 0 } else { (len + step - 1) / step }
}

/// One text row of the picture: a `#` for each lit block and a space for
/// each dark one, then a line feed.
pub open spec fn ascii_row(s: LcdSnapshot, y: int, xs: int, ys: int) -> Seq<char> {
    Seq::new(blocks(s.width as int, xs) as nat, |c: int| if block_lit(s, c * xs, y, xs, ys) { '#' } else { ' ' }).push('\n')
}

/// The first `rows` text rows of the picture.
pub open spec fn ascii_rows(s: LcdSnapshot, xs: int, ys: int, rows: int) -> Seq<char>
    decreases rows,
{
    if rows <= 0 {
        Seq::empty()
    } else {
        ascii_rows(s, xs, ys, rows - 1) + ascii_row(s, (rows - 1) * ys, xs, ys)
    }
}

fn block_is_lit(s: &LcdSnapshot, x: usize, y: usize, xs: usize, ys: usize) -> (r: bool)
    requires
        picture_ok(*s),
        x < s.width,
        y < s.height,
        xs > 0,
        ys > 0,
    ensures
        r == block_lit(*s, x as int, y as int, xs as int, ys as int),
{
    let max_y = if ys < s.height - y { y + ys } else { s.height };
    let max_x = if xs < s.width - x { x + xs } else { s.width };
    let len = s.pixels.len();
    let mut py = y;
    while py < max_y
        invariant
            len == s.pixels@.len(),
            picture_ok(*s),
            y <= py <= max_y <= s.height,
            max_y == (if ys < s.height - y { y + ys } else { s.height as int }),
            max_x == (if xs < s.width - x { x + xs } else { s.width as int }),
            x < max_x <= s.width,
            forall|qx: int, qy: int| x <= qx < max_x && y <= qy < py ==> !s.pixels@[#[trigger] (qy * s.width + qx)],
        decreases max_y - py,
    {
        let mut px = x;
        while px < max_x
            invariant
                len == s.pixels@.len(),
                picture_ok(*s),
                y <= py < max_y <= s.height,
                x <= px <= max_x <= s.width,
                max_x == (if xs < s.width - x { x + xs } else { s.width as int }),
                max_y == (if ys < s.height - y { y + ys } else { s.height as int }),
                forall|qx: int, qy: int| x <= qx < max_x && y <= qy < py ==> !s.pixels@[#[trigger] (qy * s.width + qx)],
                forall|qx: int| x <= qx < px ==> !s.pixels@[#[trigger] (py * s.width + qx)],
            decreases max_x - px,
        {
            proof {
                lemma_index_inside(px as int, py as int, s.width as int, s.height as int);
            }
            if s.pixels[py * s.width + px] {
                assert(s.pixels@[py as int * s.width + px as int]);
                assert(block_lit(*s, x as int, y as int, xs as int, ys as int));
                return true;
            }
            px = px + 1;
        }
        py = py + 1;
    }
    false
}

proof fn lemma_last_block(w: int, step: int, c: int)
    requires
        step > 0,
        c >= 0,
        c * step < w,
        w <= (c + 1) * step,
    ensures
        blocks(w, step) == c + 1,
{
    assert((c + 1) * step == c * step + step) by (nonlinear_arith);
    let r = w - 1 - c * step;
    assert(w + step - 1 == (c + 1) * step + r);
    vstd::arithmetic::div_mod::lemma_fundamental_div_mod_converse(w + step - 1, step, c + 1, r);
}

proof fn lemma_next_block(step: int, c: int)
    requires
        step > 0,
        c >= 0,
    ensures
        (c + 1) * step == c * step + step,
{
    assert((c + 1) * step == c * step + step) by (nonlinear_arith);
}

/// A coarse text picture of the LCD: one character per block of `x_scale`
/// by `y_scale` pixels, `#` where any pixel of the block is lit.
pub fn render_lcd_ascii(s: &LcdSnapshot, x_scale: usize, y_scale: usize) -> (r: String)
    requires
        picture_ok(*s),
        x_scale > 0,
        y_scale > 0,
    ensures
        r@ == ascii_rows(*s, x_scale as int, y_scale as int, blocks(s.height as int, y_scale as int)),
{
    let mut out = String::new();
    let mut row: usize = 0;
    let mut y: usize = 0;
    while y < s.height
        invariant
            picture_ok(*s),
            x_scale > 0,
            y_scale > 0,
            y <= s.height,
            row <= y,
            y < s.height ==> y == row * y_scale,
            y == s.height ==> row == blocks(s.height as int, y_scale as int),
            s.height == 0 ==> row == 0,
            out@ == ascii_rows(*s, x_scale as int, y_scale as int, row as int),
        decreases s.height - y,
    {
        let ghost before = out@;
        let mut col: usize = 0;
        let mut x: usize = 0;
        while x < s.width
            invariant
                picture_ok(*s),
                x_scale > 0,
                y_scale > 0,
                y < s.height,
                x <= s.width,
                col <= x,
                x < s.width ==> x == col * x_scale,
                x == s.width ==> col == blocks(s.width as int, x_scale as int),
                s.width == 0 ==> col == 0,
                out@ == before + Seq::new(col as nat, |c: int| if block_lit(*s, c * x_scale, y as int, x_scale as int, y_scale as int) { '#' } else { ' ' }),
            decreases s.width - x,
        {
            let lit = block_is_lit(s, x, y, x_scale, y_scale);
            push_char(&mut out, if lit { '#' } else { ' ' });
            assert(out@ =~= before + Seq::new((col + 1) as nat, |c: int| if block_lit(*s, c * x_scale, y as int, x_scale as int, y_scale as int) { '#' } else { ' ' }));
            proof {
                lemma_next_block(x_scale as int, col as int);
                if x_scale >= s.width - x {
                    lemma_last_block(s.width as int, x_scale as int, col as int);
                }
            }
            col = col + 1;
            x = if x_scale < s.width - x { x + x_scale } else { s.width };
        }
        proof {
            if s.width == 0 {
                assert(blocks(s.width as int, x_scale as int) == 0);
            }
        }
        push_char(&mut out, '\n');
        assert(out@ =~= ascii_rows(*s, x_scale as int, y_scale as int, row + 1));
        proof {
            lemma_next_block(y_scale as int, row as int);
            if y_scale >= s.height - y {
                lemma_last_block(s.height as int, y_scale as int, row as int);
            }
        }
        row = row + 1;
        y = if y_scale < s.height - y { y + y_scale } else { s.height };
    }
    proof {
        if s.height == 0 {
            assert(blocks(s.height as int, y_scale as int) == 0);
        }
    }
    out
}

/// Character `i` of the plain-PBM text of row `y`: each pixel as `1` (lit)
/// or `0`, followed by a space, or by a line feed after the last pixel.
pub open spec fn pbm_char(s: LcdSnapshot, y: int, i: int) -> char {
    if i % 2 == 0 {
        if s.pixels@[y * s.width + i / 2] {
            '1'
        } else {
            '0'
        }
    } else if i / 2 + 1 == s.width {
        '\n'
    } else {
        ' '
    }
}

/// The plain-PBM text of the first `rows` rows of a picture.
pub open spec fn pbm_rows(s: LcdSnapshot, rows: int) -> Seq<char>
    decreases rows,
{
    if rows <= 0 {
        Seq::empty()
    } else {
        pbm_rows(s, rows - 1) + Seq::new((2 * s.width) as nat, |i: int| pbm_char(s, rows - 1, i))
    }
}

/// The picture as a plain PBM file: `P1`, the width and height, then the
/// pixels row by row.
pub open spec fn pbm_text(s: LcdSnapshot) -> Seq<char> {
    "P1\n"@ + decimal(s.width as nat) + " "@ + decimal(s.height as nat) + "\n"@ + pbm_rows(s, s.height as int)
}

/// The picture as a plain PBM file.
pub fn lcd_pbm_text(s: &LcdSnapshot) -> (r: String)
    requires
        s.width * s.height <= s.pixels@.len(),
    ensures
        r@ == pbm_text(*s),
{
    let mut out = String::from_str("P1\n");
    push_decimal(&mut out, s.width as u64);
    out.append(" ");
    push_decimal(&mut out, s.height as u64);
    out.append("\n");
    proof {
        reveal_strlit("P1\n");
        reveal_strlit(" ");
        reveal_strlit("\n");
    }
    let ghost head = "P1\n"@ + decimal(s.width as nat) + " "@ + decimal(s.height as nat) + "\n"@;
    assert(out@ =~= head + pbm_rows(*s, 0));
    let w = s.width;
    let h = s.height;
    let mut y: usize = 0;
    while y < h
        invariant
            w == s.width,
            h == s.height,
            w * h <= s.pixels@.len(),
            y <= h,
            out@ == head + pbm_rows(*s, y as int),
        decreases h - y,
    {
        let ghost start = out@;
        let mut x: usize = 0;
        while x < w
            invariant
                w == s.width,
                h == s.height,
                w * h <= s.pixels@.len(),
                s.pixels@.len() == s.pixels.len(),
                y < h,
                x <= w,
                out@ == start + Seq::new((2 * x) as nat, |i: int| pbm_char(*s, y as int, i)),
            decreases w - x,
        {
            assert(y * w + x < w * h) by (nonlinear_arith)
                requires
                    y < h,
                    x < w,
            ;
            let lit = s.pixels[y * w + x];
            push_char(&mut out, if lit { '1' } else { '0' });
            push_char(&mut out, if x + 1 == w { '\n' } else { ' ' });
            proof {
                assert(((2 * x) as int) / 2 == x && ((2 * x) as int) % 2 == 0);
                assert(((2 * x + 1) as int) / 2 == x && ((2 * x + 1) as int) % 2 == 1);
            }
            x = x + 1;
            assert(out@ =~= start + Seq::new((2 * x) as nat, |i: int| pbm_char(*s, y as int, i)));
        }
        y = y + 1;
        assert(out@ =~= head + pbm_rows(*s, y as int));
    }
    out
}

} // verus!
