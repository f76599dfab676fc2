//! The integer steps of sampling a camera frame into cells: which source
//! column a screen column reads (mirroring), the average color over a
//! cell's pixel window, and which glyph a cell shows in each render mode.
//!
//! The window bounds and the ramp positions come from floating-point crop
//! and tone curves computed by the caller.

use vstd::prelude::*;
use crate::ascii::{RAMP, SHADES};
use crate::render::RenderMode;

verus! {

/// Screen column `c` reads source column `cols - 1 - c` when mirrored.
pub open spec fn source_column_spec(c: int, cols: int, mirror: bool) -> int {
    if mirror {
        cols - 1 - c
    } else {
        c
    }
}

pub fn source_column(c: u16, cols: u16, mirror: bool) -> (x: u16)
    requires
        c < cols,
    ensures
        x as int == source_column_spec(c as int, cols as int, mirror),
{
    if mirror {
        cols - 1 - c
    } else {
        c
    }
}

/// Byte of channel `ch` of pixel `(x, y)` in a row-major RGB frame `fw`
/// pixels wide.
pub open spec fn pixel_byte(rgb: Seq<u8>, fw: int, x: int, y: int, ch: int) -> int {
    rgb[y * fw * 3 + x * 3 + ch] as int
}

/// Sum of channel `ch` over pixels `x0..x` of row `y`.
pub open spec fn row_sum(rgb: Seq<u8>, fw: int, y: int, x0: int, x: int, ch: int) -> int
    decreases x - x0,
{
    if x <= x0 {
        0
    } else {
        row_sum(rgb, fw, y, x0, x - 1, ch) + pixel_byte(rgb, fw, x - 1, y, ch)
    }
}

/// Sum of channel `ch` over the window `x0..x1` by `y0..y`.
pub open spec fn block_sum(rgb: Seq<u8>, fw: int, x0: int, x1: int, y0: int, y: int, ch: int) -> int
    decreases y - y0,
{
    if y <= y0 {
        0
    } else {
        block_sum(rgb, fw, x0, x1, y0, y - 1, ch) + row_sum(rgb, fw, y - 1, x0, x1, ch)
    }
}

/// Integer mean of each channel over the window `x0..x1` by `y0..y1`, or
/// `None` when the window holds no pixel.
pub open spec fn block_average_spec(rgb: Seq<u8>, fw: int, x0: int, x1: int, y0: int, y1: int) -> Option<(u8, u8, u8)> {
    let n = (x1 - x0) * (y1 - y0);
    if n == 0 {
        None
    } else {
        Some(
            (
                (block_sum(rgb, fw, x0, x1, y0, y1, 0) / n) as u8,
                (block_sum(rgb, fw, x0, x1, y0, y1, 1) / n) as u8,
                (block_sum(rgb, fw, x0, x1, y0, y1, 2) / n) as u8,
            ),
        )
    }
}

proof fn lemma_row_sum_bound(rgb: Seq<u8>, fw: int, y: int, x0: int, x: int, ch: int)
    requires
        x0 <= x,
    ensures
        0 <= row_sum(rgb, fw, y, x0, x, ch) <= 255 * (x - x0),
    decreases x - x0,
{
    if x > x0 {
        lemma_row_sum_bound(rgb, fw, y, x0, x - 1, ch);
    }
}

proof fn lemma_block_sum_bound(rgb: Seq<u8>, fw: int, x0: int, x1: int, y0: int, y: int, ch: int)
    requires
        x0 <= x1,
        y0 <= y,
    ensures
        0 <= block_sum(rgb, fw, x0, x1, y0, y, ch) <= 255 * ((x1 - x0) * (y - y0)),
    decreases y - y0,
{
    if y > y0 {
        lemma_block_sum_bound(rgb, fw, x0, x1, y0, y - 1, ch);
        lemma_row_sum_bound(rgb, fw, y - 1, x0, x1, ch);
        assert((x1 - x0) * (y - y0) == (x1 - x0) * (y - 1 - y0) + (x1 - x0)) by (nonlinear_arith);
    }
}

proof fn lemma_pixel_in_bounds(fw: int, x: int, y: int, x1: int, y1: int, len: int)
    requires
        0 <= x < x1 <= fw,
        0 <= y < y1,
        y1 * fw * 3 <= len,
    ensures
        0 <= y * fw * 3 + x * 3,
        y * fw * 3 + x * 3 + 2 < len,
{
    assert(0 <= y * fw * 3) by (nonlinear_arith)
        requires 0 <= y, 0 <= fw;
    assert(y * fw * 3 + x * 3 + 2 < (y + 1) * fw * 3) by (nonlinear_arith)
        requires x < fw, 0 <= x;
    assert((y + 1) * fw * 3 <= y1 * fw * 3) by (nonlinear_arith)
        requires y + 1 <= y1, 0 <= fw;
}

/// Average color over the pixel window `x0..x1` by `y0..y1` of a row-major
/// RGB frame `fw` pixels wide.
pub fn block_average(rgb: &[u8], fw: usize, x0: usize, x1: usize, y0: usize, y1: usize) -> (r: Option<(u8, u8, u8)>)
    requires
        x0 <= x1 <= fw,
        y0 <= y1,
        y1 * fw * 3 <= rgb@.len(),
    ensures
        r == block_average_spec(rgb@, fw as int, x0 as int, x1 as int, y0 as int, y1 as int),
{
    let ghost s = rgb@;
    let len = rgb.len();
    assert(s.len() == len);
    let mut sr: u128 = 0;
    let mut sg: u128 = 0;
    let mut sb: u128 = 0;
    let mut y = y0;
    while y < y1
        invariant
            y0 <= y <= y1,
            x0 <= x1 <= fw,
            y1 * fw * 3 <= s.len(),
            s.len() <= usize::MAX,
            rgb@ == s,
            sr == block_sum(s, fw as int, x0 as int, x1 as int, y0 as int, y as int, 0),
            sg == block_sum(s, fw as int, x0 as int, x1 as int, y0 as int, y as int, 1),
            sb == block_sum(s, fw as int, x0 as int, x1 as int, y0 as int, y as int, 2),
        decreases y1 - y,
    {
        proof {
            lemma_block_sum_bound(s, fw as int, x0 as int, x1 as int, y0 as int, y as int + 1, 0);
            lemma_block_sum_bound(s, fw as int, x0 as int, x1 as int, y0 as int, y as int + 1, 1);
            lemma_block_sum_bound(s, fw as int, x0 as int, x1 as int, y0 as int, y as int + 1, 2);
            assert((x1 - x0) * (y + 1 - y0) <= fw * y1) by (nonlinear_arith)
                requires x1 - x0 <= fw, 0 <= y + 1 - y0 <= y1, x0 <= x1, y0 <= y;
            assert(fw * y1 * 3 <= usize::MAX) by (nonlinear_arith)
                requires y1 * fw * 3 <= s.len(), s.len() <= usize::MAX;
        }
        let mut x = x0;
        let ghost rr = sr;
        let ghost rg = sg;
        let ghost rb = sb;
        while x < x1
            invariant
                x0 <= x <= x1 <= fw,
                y0 <= y < y1,
                y1 * fw * 3 <= s.len(),
                s.len() <= usize::MAX,
                rgb@ == s,
                sr == rr + row_sum(s, fw as int, y as int, x0 as int, x as int, 0),
                sg == rg + row_sum(s, fw as int, y as int, x0 as int, x as int, 1),
                sb == rb + row_sum(s, fw as int, y as int, x0 as int, x as int, 2),
                rr + row_sum(s, fw as int, y as int, x0 as int, x1 as int, 0) <= 255 * (fw * y1),
                rg + row_sum(s, fw as int, y as int, x0 as int, x1 as int, 1) <= 255 * (fw * y1),
                rb + row_sum(s, fw as int, y as int, x0 as int, x1 as int, 2) <= 255 * (fw * y1),
                fw * y1 * 3 <= usize::MAX,
            decreases x1 - x,
        {
            proof {
                lemma_pixel_in_bounds(fw as int, x as int, y as int, x1 as int, y1 as int, s.len() as int);
                lemma_row_sum_split(s, fw as int, y as int, x0 as int, x as int + 1, x1 as int, 0);
                lemma_row_sum_split(s, fw as int, y as int, x0 as int, x as int + 1, x1 as int, 1);
                lemma_row_sum_split(s, fw as int, y as int, x0 as int, x as int + 1, x1 as int, 2);
            }
            let i = y * fw * 3 + x * 3;
            sr = sr + rgb[i] as u128;
            sg = sg + rgb[i + 1] as u128;
            sb = sb + rgb[i + 2] as u128;
            x = x + 1;
        }
        y = y + 1;
    }
    proof {
        assert((x1 - x0) * (y1 - y0) <= fw * y1) by (nonlinear_arith)
            requires x1 - x0 <= fw, 0 <= y1 - y0 <= y1, x0 <= x1;
        assert(fw * y1 * 3 <= usize::MAX) by (nonlinear_arith)
            requires y1 * fw * 3 <= s.len(), s.len() <= usize::MAX;
    }
    let n = (x1 - x0) as u128 * (y1 - y0) as u128;
    proof {
        lemma_block_sum_bound(s, fw as int, x0 as int, x1 as int, y0 as int, y1 as int, 0);
        lemma_block_sum_bound(s, fw as int, x0 as int, x1 as int, y0 as int, y1 as int, 1);
        lemma_block_sum_bound(s, fw as int, x0 as int, x1 as int, y0 as int, y1 as int, 2);
    }
    if n == 0 {
        return None;
    }
    proof {
        let nn = n as int;
        assert(sr as int / nn <= 255) by (nonlinear_arith)
            requires sr <= 255 * nn, nn > 0;
        assert(sg as int / nn <= 255) by (nonlinear_arith)
            requires sg <= 255 * nn, nn > 0;
        assert(sb as int / nn <= 255) by (nonlinear_arith)
            requires sb <= 255 * nn, nn > 0;
    }
    Some(((sr / n) as u8, (sg / n) as u8, (sb / n) as u8))
}

/// Adding the pixels `x..x1` after `x0..x` gives `x0..x1`, with each part
/// at most 255 per pixel.
proof fn lemma_row_sum_split(rgb: Seq<u8>, fw: int, y: int, x0: int, x: int, x1: int, ch: int)
    requires
        x0 <= x <= x1,
    ensures
        row_sum(rgb, fw, y, x0, x1, ch) >= row_sum(rgb, fw, y, x0, x, ch),
    decreases x1 - x,
{
    if x1 > x {
        lemma_row_sum_split(rgb, fw, y, x0, x, x1 - 1, ch);
    }
}

/// The glyph a cell shows: in ASCII mode the ramp entry at `ramp_pos`; in
/// Blocks mode a solid block when color escapes carry the image, else the
/// shading ramp entry at `shade_pos`.
pub open spec fn cell_glyph_spec(mode: RenderMode, emit_color: bool, ramp_pos: int, shade_pos: int) -> char {
    match mode {
        RenderMode::Ascii => RAMP@[ramp_pos],
        RenderMode::Blocks => if emit_color {
            '\u{2588}'
        } else {
            SHADES@[shade_pos]
        },
    }
}

pub fn cell_glyph(mode: RenderMode, emit_color: bool, ramp_pos: usize, shade_pos: usize) -> (c: char)
    requires
        ramp_pos < 95,
        shade_pos < 5,
    ensures
        c == cell_glyph_spec(mode, emit_color, ramp_pos as int, shade_pos as int),
{
    match mode {
        RenderMode::Ascii => RAMP[ramp_pos],
        RenderMode::Blocks => if emit_color {
            '\u{2588}'
        } else {
            SHADES[shade_pos]
        },
    }
}

} // verus!
