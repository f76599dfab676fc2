//! Frame composition for the terminal: glyph and color escapes per cell,
//! the render configuration and the per-frame state.
//!
//! Sampling the camera frame (cropping, block averages, brightness and
//! contrast, style transforms, glyph curves) is floating-point work done by
//! the caller, which hands each cell over as a `RenderedCell`.

use vstd::prelude::*;
use crate::color::{ColorDepth, Fg, quantize, quantize_spec, quantize_rgb, quantize_rgb_spec, fg_escape, wrap_index,
    lemma_ring_compose, lemma_ring_full_turn};
use crate::style::Style;
use crate::text::{push_str, push_char, push_decimal, decimal};

verus! {

/// How each cell's glyph is chosen: a density-ramp glyph, or solid blocks
/// whose color carries the image.
#[derive(Clone, Copy, PartialEq, Eq, Debug, Structural)]
pub enum RenderMode {
    Ascii,
    Blocks,
}

pub const MODE_CYCLE: [RenderMode; 2] = [RenderMode::Ascii, RenderMode::Blocks];

pub open spec fn mode_index(m: RenderMode) -> int {
    match m {
        RenderMode::Ascii => 0,
        RenderMode::Blocks => 1,
    }
}

pub open spec fn mode_at(i: int) -> RenderMode {
    if i == 0 {
        RenderMode::Ascii
    } else {
        RenderMode::Blocks
    }
}

pub open spec fn mode_label(m: RenderMode) -> Seq<char> {
    match m {
        RenderMode::Ascii => "ASCII"@,
        RenderMode::Blocks => "Blocks"@,
    }
}

/// Position-wise view of `RenderMode::cycle`.
pub open spec fn mode_cycle(m: RenderMode, dir: int) -> RenderMode {
    mode_at((mode_index(m) + dir) % 2)
}

/// Cycling by `a` then by `b` is cycling by `a + b`; a step back undoes a
/// step forward.
pub proof fn law_mode_cycle_compose(m: RenderMode, a: int, b: int)
    ensures
        mode_cycle(mode_cycle(m, a), b) == mode_cycle(m, a + b),
        mode_cycle(mode_cycle(m, a), -a) == m,
{
    let i = mode_index(m);
    lemma_ring_compose(i, a, b, 2);
    lemma_ring_compose(i, a, -a, 2);
    lemma_ring_full_turn(i, 2);
    vstd::arithmetic::div_mod::lemma_small_mod(i as nat, 2);
    assert(mode_index(mode_at((i + a) % 2)) == (i + a) % 2);
}

/// Two steps in either direction come back to the start.
pub proof fn law_mode_cycle_full_turn(m: RenderMode)
    ensures
        mode_cycle(m, 2) == m,
{
    lemma_ring_full_turn(mode_index(m), 2);
}

impl RenderMode {
    pub fn label(self) -> (l: &'static str)
        ensures
            l@ == mode_label(self),
    {
        match self {
            RenderMode::Ascii => "ASCII",
            RenderMode::Blocks => "Blocks",
        }
    }

    /// Steps `dir` places through `MODE_CYCLE`, wrapping around.
    pub fn cycle(self, dir: i32) -> (r: RenderMode)
        requires
            mode_index(self) + dir <= i32::MAX,
        ensures
            r == mode_cycle(self, dir as int),
    {
        let idx: i32 = match self {
            RenderMode::Ascii => 0,
            RenderMode::Blocks => 1,
        };
        let k = wrap_index(idx + dir, 2);
        if k == 0 {
            RenderMode::Ascii
        } else {
            RenderMode::Blocks
        }
    }
}

/// What the user controls. Brightness is kept in hundredths (-100..=100,
/// added as `brightness / 100 * 255` per channel) and contrast in tenths
/// (1..=30): the menu only ever moves them in steps of 0.05 and 0.1.
#[derive(Clone, Copy, PartialEq, Eq, Debug, Structural)]
pub struct RenderConfig {
    pub style: Style,
    pub mode: RenderMode,
    pub depth: ColorDepth,
    /// What `ColorDepth::Auto` resolves to, detected once at startup.
    pub detected: ColorDepth,
    pub brightness: i32,
    pub contrast: i32,
    pub mirror: bool,
}

pub const BRIGHTNESS_MIN: i32 = -100;
pub const BRIGHTNESS_MAX: i32 = 100;
pub const CONTRAST_MIN: i32 = 1;
pub const CONTRAST_MAX: i32 = 30;

impl RenderConfig {
    /// The configuration is usable: `Auto` resolves to a concrete depth.
    pub open spec fn wf(&self) -> bool {
        self.detected != ColorDepth::Auto
    }

    pub open spec fn effective_depth_spec(&self) -> ColorDepth {
        if self.depth == ColorDepth::Auto {
            self.detected
        } else {
            self.depth
        }
    }

    pub fn effective_depth(&self) -> (d: ColorDepth)
        ensures
            d == self.effective_depth_spec(),
    {
        self.depth.resolve(self.detected)
    }
}

impl Default for RenderConfig {
    fn default() -> (c: Self)
        ensures
            c == (RenderConfig {
                style: Style::Color,
                mode: RenderMode::Ascii,
                depth: ColorDepth::Auto,
                detected: ColorDepth::Palette256,
                brightness: 0,
                contrast: 12,
                mirror: true,
            }),
    {
        RenderConfig {
            style: Style::Color,
            mode: RenderMode::Ascii,
            depth: ColorDepth::Auto,
            detected: ColorDepth::Palette256,
            brightness: 0,
            contrast: 12,
            mirror: true,
        }
    }
}

/// Per-frame state that survives between renders: an afterimage buffer of
/// one color per cell, sized to the grid and reset whenever the grid size
/// or the style changes.
pub struct RenderState {
    trails: Vec<(u8, u8, u8)>,
    cols: u16,
    rows: u16,
    last_style: Option<Style>,
}

impl RenderState {
    pub closed spec fn trails_spec(&self) -> Seq<(u8, u8, u8)> {
        self.trails@
    }

    pub closed spec fn cols_spec(&self) -> u16 {
        self.cols
    }

    pub closed spec fn rows_spec(&self) -> u16 {
        self.rows
    }

    pub closed spec fn last_style_spec(&self) -> Option<Style> {
        self.last_style
    }

    /// The buffer after `prepare(cols, rows, style)`: kept when nothing
    /// changed, otherwise all black at the new size.
    pub open spec fn prepared(&self, cols: u16, rows: u16, style: Style) -> (Seq<(u8, u8, u8)>, u16, u16) {
        let needed = cols as int * rows as int;
        let resized = self.cols_spec() != cols || self.rows_spec() != rows;
        let style_changed = self.last_style_spec() != Some(style);
        if resized || style_changed || self.trails_spec().len() != needed {
            (Seq::new(needed as nat, |i: int| (0u8, 0u8, 0u8)), cols, rows)
        } else {
            (self.trails_spec(), self.cols_spec(), self.rows_spec())
        }
    }

    pub fn new() -> (s: Self)
        ensures
            s.trails_spec() == Seq::<(u8, u8, u8)>::empty(),
            s.cols_spec() == 0,
            s.rows_spec() == 0,
            s.last_style_spec() == None::<Style>,
    {
        RenderState { trails: Vec::new(), cols: 0, rows: 0, last_style: None }
    }

    pub fn prepare(&mut self, cols: u16, rows: u16, style: Style)
        ensures
            (final(self).trails_spec(), final(self).cols_spec(), final(self).rows_spec())
                == old(self).prepared(cols, rows, style),
            final(self).last_style_spec() == Some(style),
    {
        proof {
            assert((cols as int) * (rows as int) <= 65535 * 65535) by (nonlinear_arith)
                requires cols <= 65535, rows <= 65535;
        }
        let needed = (cols as usize) * (rows as usize);
        let resized = self.cols != cols || self.rows != rows;
        let style_changed = match self.last_style {
            Some(s) => s != style,
            None => true,
        };
        if resized || style_changed || self.trails.len() != needed {
            let mut fresh: Vec<(u8, u8, u8)> = Vec::new();
            let mut i: usize = 0;
            while i < needed
                invariant
                    i <= needed,
                    fresh@ == Seq::new(i as nat, |k: int| (0u8, 0u8, 0u8)),
                decreases needed - i,
            {
                fresh.push((0, 0, 0));
                i = i + 1;
                assert(fresh@ =~= Seq::new(i as nat, |k: int| (0u8, 0u8, 0u8)));
            }
            self.trails = fresh;
            self.cols = cols;
            self.rows = rows;
        }
        self.last_style = Some(style);
    }
}

/// Preparing twice for the same grid and style is the same as preparing once.
pub proof fn law_prepare_idempotent(s1: RenderState, s2: RenderState, cols: u16, rows: u16, style: Style)
    requires
        (s2.trails_spec(), s2.cols_spec(), s2.rows_spec()) == s1.prepared(cols, rows, style),
        s2.last_style_spec() == Some(style),
    ensures
        s2.prepared(cols, rows, style) == (s2.trails_spec(), s2.cols_spec(), s2.rows_spec()),
        s2.trails_spec().len() == cols as int * rows as int,
{
}

/// One terminal cell as sampled by the caller: the color to emit (already
/// adjusted for the render mode), the glyph, and whether color escapes are
/// emitted at all.
#[derive(Clone, Copy, Debug)]
pub struct RenderedCell {
    pub rgb: (u8, u8, u8),
    pub ch: char,
    pub emit_color: bool,
}

/// The column span a mask covers in row `r`, if it covers that row.
pub open spec fn row_span(mask: Option<(u16, u16, u16, u16)>, r: int, cols: int) -> Option<(int, int)> {
    match mask {
        Some((mx, my, mw, mh)) => {
            let y_end = if my + mh > 65535 { 65535 } else { my + mh };
            let x_end = if mx + mw > 65535 { 65535 } else { mx + mw };
            if my <= r && r < y_end {
                Some((mx as int, if x_end < cols { x_end } else { cols }))
            } else {
                None
            }
        },
        None => None,
    }
}

/// A mask of zero width over some row would never advance the cursor.
pub open spec fn mask_stalls(mask: Option<(u16, u16, u16, u16)>, cols: u16, rows: u16) -> bool {
    match mask {
        Some((mx, my, mw, mh)) => mw == 0 && mx < cols && mh > 0 && my < rows,
        None => false,
    }
}

pub open spec fn sync_begin() -> Seq<char> {
    "\x1b[?2026h\x1b[H"@
}

/// Text of row `r` from column `c` on, given the color last emitted in
/// this row. Masked spans become a cursor-forward escape; cells without a
/// sample become a space; color escapes are only written when the color
/// changes.
pub open spec fn row_text(
    cells: Seq<Option<RenderedCell>>,
    cols: int,
    r: int,
    c: int,
    last: Option<Fg>,
    depth: ColorDepth,
    span: Option<(int, int)>,
) -> Seq<char>
    decreases cols - c,
{
    if c >= cols {
        Seq::empty()
    } else if span is Some && c == span.unwrap().0 && span.unwrap().0 < span.unwrap().1 <= cols {
        let (x0, x1) = span.unwrap();
        "\x1b["@ + decimal((x1 - x0) as nat) + "C"@ + row_text(cells, cols, r, x1, last, depth, span)
    } else {
        match cells[r * cols + c] {
            None => seq![' '] + row_text(cells, cols, r, c + 1, last, depth, span),
            Some(cell) => if cell.emit_color {
                let fg = quantize_spec(depth, cell.rgb.0, cell.rgb.1, cell.rgb.2);
                (if last == Some(fg) { Seq::empty() } else { fg_escape(fg) }) + seq![cell.ch]
                    + row_text(cells, cols, r, c + 1, Some(fg), depth, span)
            } else {
                seq![cell.ch] + row_text(cells, cols, r, c + 1, last, depth, span)
            },
        }
    }
}

/// Rows `r..rows`, each closed with a color reset and all but the last
/// followed by CR LF.
pub open spec fn rows_text(
    cells: Seq<Option<RenderedCell>>,
    cols: int,
    rows: int,
    r: int,
    depth: ColorDepth,
    mask: Option<(u16, u16, u16, u16)>,
) -> Seq<char>
    decreases rows - r,
{
    if r >= rows {
        Seq::empty()
    } else {
        row_text(cells, cols, r, 0, None, depth, row_span(mask, r, cols)) + "\x1b[0m"@
            + (if r < rows - 1 { "\r\n"@ } else { Seq::empty() }) + rows_text(cells, cols, rows, r + 1, depth, mask)
    }
}

/// The whole frame text.
pub open spec fn frame_text(
    cells: Option<Seq<Option<RenderedCell>>>,
    cols: u16,
    rows: u16,
    cfg: RenderConfig,
    mask: Option<(u16, u16, u16, u16)>,
) -> Seq<char> {
    sync_begin() + match cells {
        Some(cs) => rows_text(cs, cols as int, rows as int, 0, cfg.effective_depth_spec(), mask),
        None => Seq::empty(),
    }
}

fn same_fg(last: Option<Fg>, fg: Fg) -> (b: bool)
    ensures
        b == (last == Some(fg)),
{
    match last {
        Some(l) => l == fg,
        None => false,
    }
}

/// Writes one frame into `out` (replacing its contents). `cells` holds the
/// sampled cells row by row, or `None` when the frame or the grid is empty;
/// `mask` is a rectangle `(x, y, width, height)` left untouched for an
/// overlay drawn afterwards.
pub fn render(
    cells: Option<&[Option<RenderedCell>]>,
    cols: u16,
    rows: u16,
    cfg: &RenderConfig,
    state: &mut RenderState,
    mask: Option<(u16, u16, u16, u16)>,
    out: &mut String,
)
    requires
        cells is Some ==> cfg.wf(),
        cells matches Some(cs) ==> cs@.len() == cols as int * rows as int && cols > 0 && rows > 0,
        cells is Some ==> !mask_stalls(mask, cols, rows),
    ensures
        final(out)@ == frame_text(
            match cells { Some(cs) => Some(cs@), None => None },
            cols,
            rows,
            *cfg,
            mask,
        ),
        cells is Some ==> (final(state).trails_spec(), final(state).cols_spec(), final(state).rows_spec())
            == old(state).prepared(cols, rows, cfg.style),
        cells is Some ==> final(state).last_style_spec() == Some(cfg.style),
        cells is None ==> *final(state) == *old(state),
{
    *out = String::new();
    push_str(out, "\x1b[?2026h\x1b[H");
    let cs = match cells {
        Some(cs) => cs,
        None => {
            assert(out@ =~= frame_text(None, cols, rows, *cfg, mask));
            return;
        },
    };
    state.prepare(cols, rows, cfg.style);
    let depth = cfg.effective_depth();
    let ghost cells_seq = cs@;
    let ghost target = sync_begin() + rows_text(cells_seq, cols as int, rows as int, 0, depth, mask);

    let mut r: u16 = 0;
    while r < rows
        invariant
            r <= rows,
            cs@ == cells_seq,
            cells_seq.len() == cols as int * rows as int,
            cols > 0,
            depth != ColorDepth::Auto,
            !mask_stalls(mask, cols, rows),
            out@ + rows_text(cells_seq, cols as int, rows as int, r as int, depth, mask) == target,
        decreases rows - r,
    {
        let row_mask: Option<(u16, u16)> = match mask {
            Some((mx, my, mw, mh)) => {
                if r >= my && r < my.saturating_add(mh) {
                    let x1 = mx.saturating_add(mw);
                    Some((mx, if x1 < cols { x1 } else { cols }))
                } else {
                    None
                }
            },
            None => None,
        };
        let ghost span = row_span(mask, r as int, cols as int);
        assert(span == match row_mask { Some((a, b)) => Some((a as int, b as int)), None => None::<(int, int)> });
        let ghost row_start = out@;
        let mut last_fg: Option<Fg> = None;
        let mut c: u16 = 0;
        while c < cols
            invariant
                c <= cols,
                r < rows,
                cs@ == cells_seq,
                cells_seq.len() == cols as int * rows as int,
                depth != ColorDepth::Auto,
                span == match row_mask { Some((a, b)) => Some((a as int, b as int)), None => None::<(int, int)> },
                row_mask matches Some((a, b)) ==> (a < cols ==> a < b && b <= cols),
                out@ + row_text(cells_seq, cols as int, r as int, c as int, last_fg, depth, span)
                    == row_start + row_text(cells_seq, cols as int, r as int, 0, None, depth, span),
            decreases cols - c,
        {
            if let Some((mx0, mx1)) = row_mask {
                if c == mx0 {
                    push_str(out, "\x1b[");
                    push_decimal(out, (mx1 - mx0) as u64);
                    push_str(out, "C");
                    c = mx1;
                    continue;
                }
            }
            proof {
                assert((r as int) * (cols as int) + (c as int) < (cols as int) * (rows as int)) by (nonlinear_arith)
                    requires r < rows, c < cols;
                assert((cols as int) * (rows as int) <= 65535 * 65535) by (nonlinear_arith)
                    requires cols <= 65535, rows <= 65535;
            }
            let idx = (r as usize) * (cols as usize) + (c as usize);
            match cs[idx] {
                None => {
                    push_char(out, ' ');
                },
                Some(cell) => {
                    if cell.emit_color {
                        let fg = quantize(depth, cell.rgb.0, cell.rgb.1, cell.rgb.2);
                        if !same_fg(last_fg, fg) {
                            fg.write(out);
                        }
                        last_fg = Some(fg);
                    }
                    push_char(out, cell.ch);
                },
            }
            c = c + 1;
        }
        push_str(out, "\x1b[0m");
        if r < rows - 1 {
            push_str(out, "\r\n");
        }
        r = r + 1;
    }
    assert(out@ =~= target);
}

pub fn clamp_u8(v: i32) -> (b: u8)
    ensures
        b as int == (if v < 0 { 0 } else if v > 255 { 255 } else { v as int }),
{
    if v < 0 {
        0
    } else if v > 255 {
        255
    } else {
        v as u8
    }
}

// ---- screenshots ----

/// Pixels per terminal cell in a screenshot.
pub const SCREENSHOT_CELL_WIDTH: usize = 8;
pub const SCREENSHOT_CELL_HEIGHT: usize = 16;

/// Glyph color in black-and-white screenshots.
pub open spec fn screenshot_default_fg() -> (u8, u8, u8) {
    (230, 230, 230)
}

/// An RGB image, 3 bytes per pixel, row-major.
pub struct ScreenshotImage {
    pub width: u32,
    pub height: u32,
    pub rgb: Vec<u8>,
}

/// A glyph to rasterize into cell `(cell_x, cell_y)` of a screenshot.
#[derive(Clone, Copy, Debug)]
pub struct GlyphJob {
    pub cell_x: u16,
    pub cell_y: u16,
    pub color: (u8, u8, u8),
    pub ch: char,
}

pub open spec fn px_x(i: int, w: int) -> int {
    (i / 3) % w
}

pub open spec fn px_y(i: int, w: int) -> int {
    (i / 3) / w
}

pub open spec fn channel(c: (u8, u8, u8), k: int) -> u8 {
    if k == 0 {
        c.0
    } else if k == 1 {
        c.1
    } else {
        c.2
    }
}

/// Byte `i` of a `w`-pixel-wide image lies in the 8x16 box at `(x0, y0)`.
pub open spec fn in_cell_box(i: int, w: int, x0: int, y0: int) -> bool {
    &&& x0 <= px_x(i, w) < x0 + 8
    &&& y0 <= px_y(i, w) < y0 + 16
}

proof fn lemma_pixel_coords(j: int, w: int)
    requires
        j >= 0,
        w > 0,
    ensures
        j == 3 * (w * px_y(j, w) + px_x(j, w)) + j % 3,
        0 <= px_x(j, w) < w,
        0 <= j % 3 < 3,
        px_y(j, w) >= 0,
{
    vstd::arithmetic::div_mod::lemma_fundamental_div_mod(j, 3);
    vstd::arithmetic::div_mod::lemma_fundamental_div_mod(j / 3, w);
    vstd::arithmetic::div_mod::lemma_mod_pos_bound(j / 3, w);
    vstd::arithmetic::div_mod::lemma_mod_pos_bound(j, 3);
    vstd::arithmetic::div_mod::lemma_div_pos_is_pos(j, 3);
    vstd::arithmetic::div_mod::lemma_div_pos_is_pos(j / 3, w);
}

proof fn lemma_pixel_index(w: int, x: int, y: int, k: int)
    requires
        0 <= x < w,
        y >= 0,
        0 <= k < 3,
    ensures
        px_x(3 * (w * y + x) + k, w) == x,
        px_y(3 * (w * y + x) + k, w) == y,
        (3 * (w * y + x) + k) % 3 == k,
{
    let p = w * y + x;
    vstd::arithmetic::div_mod::lemma_fundamental_div_mod_converse(3 * p + k, 3, p, k);
    vstd::arithmetic::div_mod::lemma_fundamental_div_mod_converse(p, w, y, x);
}

/// Paints the 8x16 box of pixels at `(x0, y0)` with `color`.
pub fn fill_screenshot_cell(image: &mut Vec<u8>, image_width: usize, x0: usize, y0: usize, color: (u8, u8, u8))
    requires
        image_width > 0,
        x0 + 8 <= image_width,
        (y0 + 16) * image_width * 3 <= old(image)@.len(),
    ensures
        final(image)@.len() == old(image)@.len(),
        forall|j: int| 0 <= j < old(image)@.len() ==> #[trigger] final(image)@[j] == (if in_cell_box(j, image_width as int, x0 as int, y0 as int) {
            channel(color, j % 3)
        } else {
            old(image)@[j]
        }),
{
    let ghost orig = image@;
    let ghost w = image_width as int;
    let total = image.len();
    let mut py: usize = 0;
    while py < SCREENSHOT_CELL_HEIGHT
        invariant
            py <= 16,
            image_width > 0,
            w == image_width,
            x0 + 8 <= image_width,
            (y0 + 16) * image_width * 3 <= orig.len(),
            orig.len() == total,
            image@.len() == orig.len(),
            forall|j: int| 0 <= j < orig.len() ==> #[trigger] image@[j] == (if x0 <= px_x(j, w) < x0 + 8 && y0 <= px_y(j, w) < y0 + py {
                channel(color, j % 3)
            } else {
                orig[j]
            }),
        decreases 16 - py,
    {
        let mut px: usize = 0;
        while px < SCREENSHOT_CELL_WIDTH
            invariant
                py < 16,
                px <= 8,
                image_width > 0,
                w == image_width,
                x0 + 8 <= image_width,
                (y0 + 16) * image_width * 3 <= orig.len(),
                orig.len() == total,
                image@.len() == orig.len(),
                forall|j: int| 0 <= j < orig.len() ==> #[trigger] image@[j] == (if (x0 <= px_x(j, w) < x0 + 8 && y0 <= px_y(j, w) < y0 + py)
                    || (px_y(j, w) == y0 + py && x0 <= px_x(j, w) < x0 + px) {
                    channel(color, j % 3)
                } else {
                    orig[j]
                }),
            decreases 8 - px,
        {
            proof {
                assert(y0 + 16 <= (y0 + 16) * image_width * 3) by (nonlinear_arith)
                    requires image_width > 0;
                assert((y0 + py) * image_width + (x0 + px) < (y0 + 16) * image_width) by (nonlinear_arith)
                    requires py < 16, x0 + px < image_width;
                assert(3 * ((y0 + py) * image_width + (x0 + px)) + 2 < (y0 + 16) * image_width * 3) by (nonlinear_arith)
                    requires (y0 + py) * image_width + (x0 + px) < (y0 + 16) * image_width;
                assert((y0 + py) * image_width <= (y0 + py) * image_width + (x0 + px));
            }
            let base = ((y0 + py) * image_width + (x0 + px)) * 3;
            let ghost before = image@;
            image.set(base, color.0);
            image.set(base + 1, color.1);
            image.set(base + 2, color.2);
            proof {
                let xx = (x0 + px) as int;
                let yy = (y0 + py) as int;
                assert(base as int == 3 * (w * yy + xx)) by (nonlinear_arith)
                    requires base == ((y0 + py) * image_width + (x0 + px)) * 3, w == image_width, xx == x0 + px, yy == y0 + py;
                lemma_pixel_index(w, xx, yy, 0);
                lemma_pixel_index(w, xx, yy, 1);
                lemma_pixel_index(w, xx, yy, 2);
                assert forall|j: int| 0 <= j < orig.len() implies #[trigger] image@[j] == (if (x0 <= px_x(j, w) < x0 + 8 && y0 <= px_y(j, w) < y0 + py)
                    || (px_y(j, w) == y0 + py && x0 <= px_x(j, w) < x0 + px + 1) {
                    channel(color, j % 3)
                } else {
                    orig[j]
                }) by {
                    lemma_pixel_coords(j, w);
                    if j == base || j == base + 1 || j == base + 2 {
                    } else {
                        if px_x(j, w) == xx && px_y(j, w) == yy {
                            assert(j == 3 * (w * yy + xx) + j % 3);
                        }
                        assert(image@[j] == before[j]);
                    }
                }
            }
            px = px + 1;
        }
        py = py + 1;
    }
}

/// What a screenshot paints into cell `n`: a solid block for color cells in
/// Blocks mode.
pub open spec fn cell_fill(cells: Seq<Option<RenderedCell>>, n: int, cfg: RenderConfig) -> Option<(u8, u8, u8)> {
    match cells[n] {
        Some(c) => if cfg.mode == RenderMode::Blocks && c.emit_color {
            Some(quantize_rgb_spec(cfg.effective_depth_spec(), c.rgb.0, c.rgb.1, c.rgb.2))
        } else {
            None
        },
        None => None,
    }
}

/// The cell a screenshot byte belongs to.
pub open spec fn cell_of(i: int, cols: int) -> int {
    let w = cols * 8;
    (px_y(i, w) / 16) * cols + px_x(i, w) / 8
}

/// The block-painted screenshot: each byte takes its cell's fill color,
/// or stays 0.
pub open spec fn screenshot_blocks(cells: Seq<Option<RenderedCell>>, cols: int, rows: int, cfg: RenderConfig) -> Seq<u8> {
    Seq::new((cols * 8 * rows * 16 * 3) as nat, |i: int| match cell_fill(cells, cell_of(i, cols), cfg) {
        Some(c) => channel(c, i % 3),
        None => 0u8,
    })
}

/// The glyph to draw for cell `n`, if any: every sampled cell that is not a
/// solid block, in its quantized color (or the default gray without color).
pub open spec fn cell_glyph(cells: Seq<Option<RenderedCell>>, n: int, cols: int, cfg: RenderConfig) -> Option<GlyphJob> {
    match cells[n] {
        Some(c) => if cfg.mode == RenderMode::Blocks && c.emit_color {
            None
        } else {
            Some(GlyphJob {
                cell_x: (n % cols) as u16,
                cell_y: (n / cols) as u16,
                color: if c.emit_color {
                    quantize_rgb_spec(cfg.effective_depth_spec(), c.rgb.0, c.rgb.1, c.rgb.2)
                } else {
                    screenshot_default_fg()
                },
                ch: c.ch,
            })
        },
        None => None,
    }
}

/// Glyph jobs for cells `0..n`, in order.
pub open spec fn glyph_jobs(cells: Seq<Option<RenderedCell>>, n: int, cols: int, cfg: RenderConfig) -> Seq<GlyphJob>
    decreases n,
{
    if n <= 0 {
        Seq::empty()
    } else {
        glyph_jobs(cells, n - 1, cols, cfg) + match cell_glyph(cells, n - 1, cols, cfg) {
            Some(g) => seq![g],
            None => Seq::empty(),
        }
    }
}

/// Whether a screenshot can be taken: glyph cells need a font.
pub open spec fn screenshot_possible(cfg: RenderConfig, font_available: bool) -> bool {
    font_available || (cfg.mode == RenderMode::Blocks && cfg.style != Style::BlackWhite)
}

proof fn lemma_cell_box(i: int, cols: int, rows: int, cx: int, cy: int)
    requires
        0 <= i < cols * 8 * rows * 16 * 3,
        0 <= cx < cols,
        0 <= cy < rows,
        cols > 0,
    ensures
        in_cell_box(i, cols * 8, cx * 8, cy * 16) <==> cell_of(i, cols) == cy * cols + cx,
        0 <= cell_of(i, cols) < cols * rows,
{
    let w = cols * 8;
    lemma_pixel_coords(i, w);
    let x = px_x(i, w);
    let y = px_y(i, w);
    assert(x / 8 < cols) by {
        vstd::arithmetic::div_mod::lemma_div_by_multiple_is_strongly_ordered(x, w, cols, 8);
    }
    assert(3 * (w * y + x) + i % 3 < cols * 8 * rows * 16 * 3);
    assert(y < rows * 16) by (nonlinear_arith)
        requires 3 * (w * y + x) + i % 3 < cols * 8 * rows * 16 * 3, w == cols * 8, x >= 0, i % 3 >= 0, w > 0, y >= 0;
    assert(y / 16 < rows);
    assert((y / 16) * cols + x / 8 < cols * rows) by (nonlinear_arith)
        requires y / 16 < rows, 0 <= x / 8 < cols, y / 16 >= 0;
    assert((y / 16) * cols + x / 8 >= 0) by (nonlinear_arith)
        requires y / 16 >= 0, 0 <= x / 8, cols > 0;
    if in_cell_box(i, w, cx * 8, cy * 16) {
        assert(x / 8 == cx);
        assert(y / 16 == cy);
    }
    if cell_of(i, cols) == cy * cols + cx {
        vstd::arithmetic::div_mod::lemma_fundamental_div_mod_converse(cell_of(i, cols), cols, y / 16, x / 8);
        vstd::arithmetic::div_mod::lemma_fundamental_div_mod_converse(cell_of(i, cols), cols, cy, cx);
        assert(x / 8 == cx);
        assert(y / 16 == cy);
    }
}

/// Lays out a `cols` x `rows` screenshot at 8x16 pixels per cell: solid
/// blocks are painted, and the glyph cells come back as jobs for a font
/// rasterizer. `None` when the frame is empty, the image would not fit in
/// memory sizes, or glyphs are needed and no font is available.
#[verifier::loop_isolation(false)]
pub fn render_screenshot_cells(
    cells: Option<&[Option<RenderedCell>]>,
    cols: u16,
    rows: u16,
    cfg: &RenderConfig,
    font_available: bool,
) -> (r: Option<(ScreenshotImage, Vec<GlyphJob>)>)
    requires
        cells is Some ==> cfg.wf(),
        cells matches Some(cs) ==> cs@.len() == cols as int * rows as int && cols > 0 && rows > 0,
    ensures
        match cells {
            None => r is None,
            Some(cs) => {
                let len = cols as int * 8 * rows as int * 16 * 3;
                if len > usize::MAX || !screenshot_possible(*cfg, font_available) {
                    r is None
                } else {
                    r matches Some((img, jobs)) && img.width == cols as int * 8 && img.height == rows as int * 16
                        && img.rgb@ == screenshot_blocks(cs@, cols as int, rows as int, *cfg)
                        && jobs@ == glyph_jobs(cs@, cols as int * rows as int, cols as int, *cfg)
                }
            },
        },
{
    let cs = match cells {
        Some(cs) => cs,
        None => return None,
    };
    let width = (cols as usize) * SCREENSHOT_CELL_WIDTH;
    let height = (rows as usize) * SCREENSHOT_CELL_HEIGHT;
    let pixels = match width.checked_mul(height) {
        Some(p) => p,
        None => {
            proof {
                assert(cols as int * 8 * rows as int * 16 * 3 > usize::MAX) by (nonlinear_arith)
                    requires width * height > usize::MAX, width == cols * 8, height == rows * 16;
            }
            return None;
        },
    };
    let len = match pixels.checked_mul(3) {
        Some(l) => l,
        None => {
            proof {
                assert(cols as int * 8 * rows as int * 16 * 3 > usize::MAX) by (nonlinear_arith)
                    requires pixels * 3 > usize::MAX, pixels == width * height, width == cols * 8, height == rows * 16;
            }
            return None;
        },
    };
    proof {
        assert(len == cols as int * 8 * rows as int * 16 * 3) by (nonlinear_arith)
            requires len == pixels * 3, pixels == width * height, width == cols * 8, height == rows * 16;
    }
    let mut rgb: Vec<u8> = Vec::new();
    let mut z: usize = 0;
    while z < len
        invariant
            z <= len,
            rgb@ == Seq::new(z as nat, |i: int| 0u8),
        decreases len - z,
    {
        rgb.push(0);
        z = z + 1;
        assert(rgb@ =~= Seq::new(z as nat, |i: int| 0u8));
    }
    if !font_available && !(cfg.mode == RenderMode::Blocks && cfg.style.emits_color()) {
        return None;
    }
    let depth = cfg.effective_depth();
    let mut jobs: Vec<GlyphJob> = Vec::new();
    let ghost cseq = cs@;
    let ghost c = cols as int;
    let ghost rr = rows as int;
    let mut cell_y: u16 = 0;
    while cell_y < rows
        invariant
            cell_y <= rows,
            cs@ == cseq,
            cseq.len() == c * rr,
            c == cols,
            rr == rows,
            cols > 0,
            width == cols * 8,
            len == c * 8 * rr * 16 * 3,
            len <= usize::MAX,
            depth == cfg.effective_depth_spec(),
            depth != ColorDepth::Auto,
            rgb@.len() == len,
            forall|i: int| 0 <= i < len ==> #[trigger] rgb@[i] == (if cell_of(i, c) < cell_y * c {
                match cell_fill(cseq, cell_of(i, c), *cfg) {
                    Some(col) => channel(col, i % 3),
                    None => 0u8,
                }
            } else {
                0u8
            }),
            jobs@ == glyph_jobs(cseq, cell_y * c, c, *cfg),
        decreases rows - cell_y,
    {
        let mut cell_x: u16 = 0;
        while cell_x < cols
            invariant
                cell_y < rows,
                cell_x <= cols,
                cs@ == cseq,
                cseq.len() == c * rr,
                c == cols,
                rr == rows,
                cols > 0,
                width == cols * 8,
                len == c * 8 * rr * 16 * 3,
                len <= usize::MAX,
                depth == cfg.effective_depth_spec(),
                depth != ColorDepth::Auto,
                rgb@.len() == len,
                forall|i: int| 0 <= i < len ==> #[trigger] rgb@[i] == (if cell_of(i, c) < cell_y * c + cell_x {
                    match cell_fill(cseq, cell_of(i, c), *cfg) {
                        Some(col) => channel(col, i % 3),
                        None => 0u8,
                    }
                } else {
                    0u8
                }),
                jobs@ == glyph_jobs(cseq, cell_y * c + cell_x, c, *cfg),
            decreases cols - cell_x,
        {
            let ghost n = cell_y * c + cell_x;
            proof {
                assert(n < c * rr) by (nonlinear_arith)
                    requires n == cell_y * c + cell_x, cell_x < c, cell_y < rr;
                assert(n % c == cell_x && n / c == cell_y) by {
                    vstd::arithmetic::div_mod::lemma_fundamental_div_mod_converse(n, c, cell_y as int, cell_x as int);
                }
                assert((cell_y as int) * (cols as int) <= 65535 * 65535) by (nonlinear_arith)
                    requires cell_y <= 65535, cols <= 65535;
            }
            let idx = (cell_y as usize) * (cols as usize) + (cell_x as usize);
            let ghost before = rgb@;
            let ghost fill = cell_fill(cseq, n, *cfg);
            match cs[idx] {
                Some(cell) => {
                    let color = if cell.emit_color {
                        quantize_rgb(depth, cell.rgb.0, cell.rgb.1, cell.rgb.2)
                    } else {
                        (230, 230, 230)
                    };
                    if cfg.mode == RenderMode::Blocks && cell.emit_color {
                        proof {
                            assert((cell_y as int + 1) * 16 <= rr * 16) by (nonlinear_arith)
                                requires cell_y < rr;
                            assert(((cell_y as int) * 16 + 16) * (width as int) * 3 <= len) by (nonlinear_arith)
                                requires (cell_y as int + 1) * 16 <= rr * 16, width == c * 8, len == c * 8 * rr * 16 * 3, c > 0;
                        }
                        fill_screenshot_cell(&mut rgb, width, (cell_x as usize) * 8, (cell_y as usize) * 16, color);
                    } else {
                        jobs.push(GlyphJob { cell_x, cell_y, color, ch: cell.ch });
                    }
                },
                None => {},
            }
            proof {
                assert(glyph_jobs(cseq, n + 1, c, *cfg) == glyph_jobs(cseq, n, c, *cfg) + match cell_glyph(cseq, n, c, *cfg) {
                    Some(g) => seq![g],
                    None => Seq::<GlyphJob>::empty(),
                });
                assert forall|i: int| 0 <= i < len implies #[trigger] rgb@[i] == (if cell_of(i, c) < n + 1 {
                    match cell_fill(cseq, cell_of(i, c), *cfg) {
                        Some(col) => channel(col, i % 3),
                        None => 0u8,
                    }
                } else {
                    0u8
                }) by {
                    lemma_cell_box(i, c, rr, cell_x as int, cell_y as int);
                    assert(before[i] == (if cell_of(i, c) < n {
                        match cell_fill(cseq, cell_of(i, c), *cfg) {
                            Some(col) => channel(col, i % 3),
                            None => 0u8,
                        }
                    } else {
                        0u8
                    }));
                }
            }
            cell_x = cell_x + 1;
        }
        assert(cell_y * c + c == (cell_y + 1) * c) by (nonlinear_arith);
        cell_y = cell_y + 1;
    }
    proof {
        assert(rows * c == c * rr) by (nonlinear_arith)
            requires c == cols, rr == rows;
        assert forall|i: int| 0 <= i < len implies cell_of(i, c) < rows * c by {
            lemma_cell_box(i, c, rr, 0, 0);
        }
        assert(rgb@ =~= screenshot_blocks(cseq, c, rr, *cfg));
    }
    Some((ScreenshotImage { width: width as u32, height: height as u32, rgb }, jobs))
}

/// Font files tried, in order, for screenshot glyphs.
pub fn screenshot_font_candidates() -> (v: Vec<&'static str>)
    ensures
        v@.len() == 8,
        v@[0]@ == "/System/Library/Fonts/SFNSMono.ttf"@,
        v@[1]@ == "/System/Library/Fonts/Menlo.ttc"@,
        v@[2]@ == "/System/Library/Fonts/Courier.ttc"@,
        v@[3]@ == "/usr/share/fonts/truetype/dejavu/DejaVuSansMono.ttf"@,
        v@[4]@ == "/usr/share/fonts/dejavu/DejaVuSansMono.ttf"@,
        v@[5]@ == "/usr/share/fonts/truetype/liberation2/LiberationMono-Regular.ttf"@,
        v@[6]@ == "C:\\Windows\\Fonts\\consola.ttf"@,
        v@[7]@ == "C:\\Windows\\Fonts\\cour.ttf"@,
{
    let mut v: Vec<&'static str> = Vec::new();
    v.push("/System/Library/Fonts/SFNSMono.ttf");
    v.push("/System/Library/Fonts/Menlo.ttc");
    v.push("/System/Library/Fonts/Courier.ttc");
    v.push("/usr/share/fonts/truetype/dejavu/DejaVuSansMono.ttf");
    v.push("/usr/share/fonts/dejavu/DejaVuSansMono.ttf");
    v.push("/usr/share/fonts/truetype/liberation2/LiberationMono-Regular.ttf");
    v.push("C:\\Windows\\Fonts\\consola.ttf");
    v.push("C:\\Windows\\Fonts\\cour.ttf");
    v
}

// ---- laws of the frame text ----

/// Column `c` lies under the masked span of its row.
pub open spec fn masked_col(span: Option<(int, int)>, cols: int, c: int) -> bool {
    span matches Some((x0, x1)) && x0 < x1 <= cols && x0 <= c < x1
}

/// The quantized color of the last color-emitting cell of row `r` left of
/// column `c` that is not under the mask, if there is one.
pub open spec fn prev_color(
    cells: Seq<Option<RenderedCell>>,
    cols: int,
    r: int,
    c: int,
    depth: ColorDepth,
    span: Option<(int, int)>,
) -> Option<Fg>
    decreases c,
{
    if c <= 0 {
        None
    } else if masked_col(span, cols, c - 1) {
        prev_color(cells, cols, r, c - 1, depth, span)
    } else {
        match cells[r * cols + c - 1] {
            Some(cell) => if cell.emit_color {
                Some(quantize_spec(depth, cell.rgb.0, cell.rgb.1, cell.rgb.2))
            } else {
                prev_color(cells, cols, r, c - 1, depth, span)
            },
            None => prev_color(cells, cols, r, c - 1, depth, span),
        }
    }
}

/// Across a masked span the previous color does not change.
proof fn lemma_prev_color_masked(
    cells: Seq<Option<RenderedCell>>,
    cols: int,
    r: int,
    c: int,
    depth: ColorDepth,
    span: Option<(int, int)>,
)
    requires
        span matches Some((x0, x1)) && x0 < x1 <= cols && x0 <= c <= x1 && x0 >= 0,
    ensures
        prev_color(cells, cols, r, c, depth, span) == prev_color(cells, cols, r, span.unwrap().0, depth, span),
    decreases c,
{
    if c > span.unwrap().0 {
        assert(masked_col(span, cols, c - 1));
        lemma_prev_color_masked(cells, cols, r, c - 1, depth, span);
    }
}

/// The text of row `r` from a column `s` that the renderer reaches, with
/// the previous color of `s`, runs through column `c` with the previous
/// color of `c`.
proof fn lemma_row_text_reaches(
    cells: Seq<Option<RenderedCell>>,
    cols: int,
    r: int,
    s: int,
    c: int,
    depth: ColorDepth,
    span: Option<(int, int)>,
) -> (before: Seq<char>)
    requires
        0 <= s <= c < cols,
        !(masked_col(span, cols, c) && c > span.unwrap().0),
        !(masked_col(span, cols, s) && s > span.unwrap().0),
    ensures
        row_text(cells, cols, r, s, prev_color(cells, cols, r, s, depth, span), depth, span) == before + row_text(
            cells,
            cols,
            r,
            c,
            prev_color(cells, cols, r, c, depth, span),
            depth,
            span,
        ),
    decreases c - s,
{
    let last = prev_color(cells, cols, r, s, depth, span);
    if s == c {
        Seq::empty()
    } else if span is Some && s == span.unwrap().0 && span.unwrap().0 < span.unwrap().1 <= cols {
        let (x0, x1) = span.unwrap();
        lemma_prev_color_masked(cells, cols, r, x1, depth, span);
        let head = "\x1b["@ + decimal((x1 - x0) as nat) + "C"@;
        let rest = lemma_row_text_reaches(cells, cols, r, x1, c, depth, span);
        assert(head + (rest + row_text(cells, cols, r, c, prev_color(cells, cols, r, c, depth, span), depth, span))
            =~= (head + rest) + row_text(cells, cols, r, c, prev_color(cells, cols, r, c, depth, span), depth, span));
        head + rest
    } else {
        assert(!masked_col(span, cols, s));
        let next = prev_color(cells, cols, r, s + 1, depth, span);
        let head = match cells[r * cols + s] {
            None => seq![' '],
            Some(cell) => if cell.emit_color {
                let fg = quantize_spec(depth, cell.rgb.0, cell.rgb.1, cell.rgb.2);
                (if last == Some(fg) { Seq::empty() } else { fg_escape(fg) }) + seq![cell.ch]
            } else {
                seq![cell.ch]
            },
        };
        assert(row_text(cells, cols, r, s, last, depth, span) =~= head + row_text(cells, cols, r, s + 1, next, depth, span));
        let rest = lemma_row_text_reaches(cells, cols, r, s + 1, c, depth, span);
        assert(head + (rest + row_text(cells, cols, r, c, prev_color(cells, cols, r, c, depth, span), depth, span))
            =~= (head + rest) + row_text(cells, cols, r, c, prev_color(cells, cols, r, c, depth, span), depth, span));
        head + rest
    }
}

/// In every row, the glyph of each color-emitting cell outside the mask is
/// written right after the escape selecting its quantized color, and that
/// escape is left out exactly when the previous color-emitting cell of the
/// row (outside the mask) had the same quantized color.
pub proof fn law_row_color_escapes(
    cells: Seq<Option<RenderedCell>>,
    cols: int,
    r: int,
    c: int,
    depth: ColorDepth,
    span: Option<(int, int)>,
) -> (before: Seq<char>)
    requires
        0 <= c < cols,
        0 <= r * cols + c < cells.len(),
        span matches Some((x0, x1)) ==> x0 >= 0,
        !masked_col(span, cols, c),
        cells[r * cols + c] matches Some(cell) && cell.emit_color,
    ensures
        ({
            let cell = cells[r * cols + c].unwrap();
            let fg = quantize_spec(depth, cell.rgb.0, cell.rgb.1, cell.rgb.2);
            let prev = prev_color(cells, cols, r, c, depth, span);
            row_text(cells, cols, r, 0, None, depth, span) == before + (if prev == Some(fg) {
                seq![cell.ch]
            } else {
                fg_escape(fg) + seq![cell.ch]
            }) + row_text(cells, cols, r, c + 1, Some(fg), depth, span)
        }),
{
    assert(!(masked_col(span, cols, 0) && 0 > span.unwrap().0));
    let before = lemma_row_text_reaches(cells, cols, r, 0, c, depth, span);
    let cell = cells[r * cols + c].unwrap();
    let fg = quantize_spec(depth, cell.rgb.0, cell.rgb.1, cell.rgb.2);
    let prev = prev_color(cells, cols, r, c, depth, span);
    let piece = if prev == Some(fg) { seq![cell.ch] } else { fg_escape(fg) + seq![cell.ch] };
    assert(!(span is Some && c == span.unwrap().0 && span.unwrap().0 < span.unwrap().1 <= cols));
    assert(row_text(cells, cols, r, c, prev, depth, span) =~= piece + row_text(cells, cols, r, c + 1, Some(fg), depth, span));
    assert(before + (piece + row_text(cells, cols, r, c + 1, Some(fg), depth, span)) =~= before + piece + row_text(
        cells,
        cols,
        r,
        c + 1,
        Some(fg),
        depth,
        span,
    ));
    before
}

/// In every row, a cell outside the mask without a sample is written as a
/// space, and a sampled cell that emits no color as its glyph alone, with
/// no escape; the color in effect is unchanged after it.
pub proof fn law_row_plain_cells(
    cells: Seq<Option<RenderedCell>>,
    cols: int,
    r: int,
    c: int,
    depth: ColorDepth,
    span: Option<(int, int)>,
) -> (before: Seq<char>)
    requires
        0 <= c < cols,
        0 <= r * cols + c < cells.len(),
        span matches Some((x0, x1)) ==> x0 >= 0,
        !masked_col(span, cols, c),
        !(cells[r * cols + c] matches Some(cell) && cell.emit_color),
    ensures
        ({
            let prev = prev_color(cells, cols, r, c, depth, span);
            row_text(cells, cols, r, 0, None, depth, span) == before + (match cells[r * cols + c] {
                Some(cell) => seq![cell.ch],
                None => seq![' '],
            }) + row_text(cells, cols, r, c + 1, prev, depth, span)
        }),
{
    assert(!(masked_col(span, cols, 0) && 0 > span.unwrap().0));
    let before = lemma_row_text_reaches(cells, cols, r, 0, c, depth, span);
    let prev = prev_color(cells, cols, r, c, depth, span);
    let piece = match cells[r * cols + c] {
        Some(cell) => seq![cell.ch],
        None => seq![' '],
    };
    assert(!(span is Some && c == span.unwrap().0 && span.unwrap().0 < span.unwrap().1 <= cols));
    assert(row_text(cells, cols, r, c, prev, depth, span) =~= piece + row_text(cells, cols, r, c + 1, prev, depth, span));
    assert(before + (piece + row_text(cells, cols, r, c + 1, prev, depth, span)) =~= before + piece + row_text(
        cells,
        cols,
        r,
        c + 1,
        prev,
        depth,
        span,
    ));
    before
}

/// A row's masked span `x0..x1` is written as one cursor-forward escape by
/// `x1 - x0` columns, and nothing of its cells; the color in effect carries
/// over it.
pub proof fn law_row_mask_span(
    cells: Seq<Option<RenderedCell>>,
    cols: int,
    r: int,
    depth: ColorDepth,
    span: Option<(int, int)>,
) -> (before: Seq<char>)
    requires
        span matches Some((x0, x1)) && 0 <= x0 < x1 <= cols,
    ensures
        ({
            let (x0, x1) = span.unwrap();
            row_text(cells, cols, r, 0, None, depth, span) == before + "\x1b["@ + decimal((x1 - x0) as nat) + "C"@
                + row_text(cells, cols, r, x1, prev_color(cells, cols, r, x1, depth, span), depth, span)
        }),
{
    let (x0, x1) = span.unwrap();
    assert(!(masked_col(span, cols, 0) && 0 > x0));
    let before = lemma_row_text_reaches(cells, cols, r, 0, x0, depth, span);
    lemma_prev_color_masked(cells, cols, r, x1, depth, span);
    let head = "\x1b["@ + decimal((x1 - x0) as nat) + "C"@;
    let tail = row_text(cells, cols, r, x1, prev_color(cells, cols, r, x1, depth, span), depth, span);
    assert(row_text(cells, cols, r, x0, prev_color(cells, cols, r, x0, depth, span), depth, span) == head + tail);
    assert(before + (head + tail) =~= before + "\x1b["@ + decimal((x1 - x0) as nat) + "C"@ + tail);
    before
}

/// The frame text holds each row's text in order, each closed by a color
/// reset: row `r` of a frame with cells is written from its start with no
/// color yet emitted.
pub proof fn law_frame_rows(
    cells: Seq<Option<RenderedCell>>,
    cols: u16,
    rows: u16,
    cfg: RenderConfig,
    mask: Option<(u16, u16, u16, u16)>,
    r: int,
) -> (parts: (Seq<char>, Seq<char>))
    requires
        0 <= r < rows,
    ensures
        frame_text(Some(cells), cols, rows, cfg, mask) == parts.0 + row_text(
            cells,
            cols as int,
            r,
            0,
            None,
            cfg.effective_depth_spec(),
            row_span(mask, r, cols as int),
        ) + "\x1b[0m"@ + parts.1,
        r == 0 ==> parts.0 == sync_begin(),
        r == rows - 1 ==> parts.1 == Seq::<char>::empty(),
        r < rows - 1 ==> parts.1.take(2) == "\r\n"@,
{
    let (a, b) = lemma_rows_text_row(cells, cols as int, rows as int, 0, r, cfg.effective_depth_spec(), mask);
    let row = row_text(cells, cols as int, r, 0, None, cfg.effective_depth_spec(), row_span(mask, r, cols as int));
    assert(sync_begin() + (a + row + "\x1b[0m"@ + b) =~= (sync_begin() + a) + row + "\x1b[0m"@ + b);
    if r == 0 {
        assert(sync_begin() + a =~= sync_begin());
    }
    (sync_begin() + a, b)
}

proof fn lemma_rows_text_row(
    cells: Seq<Option<RenderedCell>>,
    cols: int,
    rows: int,
    r0: int,
    r: int,
    depth: ColorDepth,
    mask: Option<(u16, u16, u16, u16)>,
) -> (parts: (Seq<char>, Seq<char>))
    requires
        r0 <= r < rows,
    ensures
        rows_text(cells, cols, rows, r0, depth, mask) == parts.0 + row_text(cells, cols, r, 0, None, depth, row_span(mask, r, cols))
            + "\x1b[0m"@ + parts.1,
        r == r0 ==> parts.0 == Seq::<char>::empty(),
        r == rows - 1 ==> parts.1 == Seq::<char>::empty(),
        r < rows - 1 ==> parts.1.take(2) == "\r\n"@,
    decreases r - r0,
{
    let row0 = row_text(cells, cols, r0, 0, None, depth, row_span(mask, r0, cols));
    let sep = if r0 < rows - 1 { "\r\n"@ } else { Seq::<char>::empty() };
    let rest = rows_text(cells, cols, rows, r0 + 1, depth, mask);
    if r0 == r {
        reveal_strlit("\r\n");
        assert(rows_text(cells, cols, rows, r0, depth, mask) =~= Seq::<char>::empty() + row0 + "\x1b[0m"@ + (sep + rest));
        if r == rows - 1 {
            assert(rest == Seq::<char>::empty());
            assert(sep + rest =~= Seq::<char>::empty());
        } else {
            assert((sep + rest).take(2) =~= "\r\n"@);
        }
        (Seq::empty(), sep + rest)
    } else {
        let (a, b) = lemma_rows_text_row(cells, cols, rows, r0 + 1, r, depth, mask);
        let row = row_text(cells, cols, r, 0, None, depth, row_span(mask, r, cols));
        assert(rows_text(cells, cols, rows, r0, depth, mask) =~= (row0 + "\x1b[0m"@ + sep + a) + row + "\x1b[0m"@ + b);
        (row0 + "\x1b[0m"@ + sep + a, b)
    }
}

// ---- laws of the screenshot layout ----

/// Cell `i` is drawn with a glyph: it was sampled and is not a solid block.
pub open spec fn draws_glyph(cells: Seq<Option<RenderedCell>>, i: int, cfg: RenderConfig) -> bool {
    cells[i] matches Some(c) && !(cfg.mode == RenderMode::Blocks && c.emit_color)
}

/// Cell index of a glyph job in a grid `cols` wide.
pub open spec fn job_cell(j: GlyphJob, cols: int) -> int {
    j.cell_y * cols + j.cell_x
}

/// The job for cell `i`: at its column and row, with its character, in its
/// quantized color, or the default gray for a cell without color.
pub open spec fn job_for(cells: Seq<Option<RenderedCell>>, i: int, cols: int, cfg: RenderConfig, j: GlyphJob) -> bool {
    let c = cells[i].unwrap();
    &&& j.cell_x == i % cols
    &&& j.cell_y == i / cols
    &&& j.ch == c.ch
    &&& j.color == (if c.emit_color {
        quantize_rgb_spec(cfg.effective_depth_spec(), c.rgb.0, c.rgb.1, c.rgb.2)
    } else {
        (230u8, 230u8, 230u8)
    })
}

/// The glyph jobs of the first `n` cells of a grid `cols` wide: one job per
/// cell drawn with a glyph, in cell order, each at that cell with its
/// character and color; no job for a cell that is empty or a solid block.
pub proof fn law_glyph_jobs(cells: Seq<Option<RenderedCell>>, n: int, cols: int, cfg: RenderConfig)
    requires
        0 < cols <= 65535,
        0 <= n <= cells.len(),
        n <= cols * 65535,
    ensures
        ({
            let jobs = glyph_jobs(cells, n, cols, cfg);
            &&& forall|a: int, b: int|
                0 <= a < b < jobs.len() ==> job_cell(jobs[a], cols) < job_cell(jobs[b], cols)
            &&& forall|a: int|
                0 <= a < jobs.len() ==> {
                    let i = job_cell(#[trigger] jobs[a], cols);
                    0 <= i < n && draws_glyph(cells, i, cfg) && job_for(cells, i, cols, cfg, jobs[a])
                }
            &&& forall|i: int|
                0 <= i < n && #[trigger] draws_glyph(cells, i, cfg) ==> exists|a: int|
                    0 <= a < jobs.len() && job_cell(jobs[a], cols) == i
        }),
    decreases n,
{
    if n > 0 {
        law_glyph_jobs(cells, n - 1, cols, cfg);
        let prev = glyph_jobs(cells, n - 1, cols, cfg);
        let jobs = glyph_jobs(cells, n, cols, cfg);
        let i = n - 1;
        assert(0 <= i % cols < cols && 0 <= i / cols < 65535) by {
            assert(i / cols < 65535) by (nonlinear_arith)
                requires 0 <= i < n, n <= cols * 65535, cols > 0;
            assert(i / cols >= 0) by (nonlinear_arith)
                requires 0 <= i, cols > 0;
        }
        assert(i / cols * cols + i % cols == i) by (nonlinear_arith)
            requires cols > 0;
        if draws_glyph(cells, i, cfg) {
            let g = cell_glyph(cells, i, cols, cfg).unwrap();
            assert(jobs =~= prev.push(g));
            assert(job_cell(g, cols) == i);
            assert(job_for(cells, i, cols, cfg, g));
            assert forall|a: int, b: int| 0 <= a < b < jobs.len() implies job_cell(jobs[a], cols) < job_cell(
                jobs[b],
                cols,
            ) by {
                if b == jobs.len() - 1 {
                    assert(jobs[a] == prev[a]);
                    assert(job_cell(prev[a], cols) < n - 1);
                } else {
                    assert(jobs[a] == prev[a] && jobs[b] == prev[b]);
                }
            }
            assert forall|a: int| 0 <= a < jobs.len() implies ({
                let k = job_cell(#[trigger] jobs[a], cols);
                0 <= k < n && draws_glyph(cells, k, cfg) && job_for(cells, k, cols, cfg, jobs[a])
            }) by {
                if a < prev.len() {
                    assert(jobs[a] == prev[a]);
                }
            }
            assert forall|k: int| 0 <= k < n && #[trigger] draws_glyph(cells, k, cfg) implies exists|a: int|
                0 <= a < jobs.len() && job_cell(jobs[a], cols) == k by {
                if k == i {
                    assert(job_cell(jobs[jobs.len() - 1], cols) == k);
                } else {
                    let a = choose|a: int| 0 <= a < prev.len() && job_cell(prev[a], cols) == k;
                    assert(jobs[a] == prev[a]);
                }
            }
        } else {
            assert(jobs =~= prev);
            assert forall|k: int| 0 <= k < n && #[trigger] draws_glyph(cells, k, cfg) implies exists|a: int|
                0 <= a < jobs.len() && job_cell(jobs[a], cols) == k by {
                assert(k != i);
            }
        }
    }
}

/// In the laid-out screenshot every pixel of a cell's 8x16 box takes that
/// cell's quantized color when the cell is a solid block (Blocks mode, with
/// color), and is black otherwise, for glyphs to be drawn on.
pub proof fn law_screenshot_blocks(
    cells: Seq<Option<RenderedCell>>,
    cols: int,
    rows: int,
    cfg: RenderConfig,
    cx: int,
    cy: int,
    i: int,
)
    requires
        cols > 0,
        0 <= cx < cols,
        0 <= cy < rows,
        0 <= i < cols * 8 * rows * 16 * 3,
        in_cell_box(i, cols * 8, cx * 8, cy * 16),
    ensures
        screenshot_blocks(cells, cols, rows, cfg)[i] == (match cells[cy * cols + cx] {
            Some(c) => if cfg.mode == RenderMode::Blocks && c.emit_color {
                channel(quantize_rgb_spec(cfg.effective_depth_spec(), c.rgb.0, c.rgb.1, c.rgb.2), i % 3)
            } else {
                0u8
            },
            None => 0u8,
        }),
{
    lemma_cell_box(i, cols, rows, cx, cy);
}

} // verus!
