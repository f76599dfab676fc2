//! Color depth resolution and RGB quantization.
//!
//! Three target depths: truecolor (`ESC[38;2;R;G;Bm`), the 256-color palette
//! (`ESC[38;5;Nm`, a 6x6x6 cube plus 24 grays plus 16 system colors) and the
//! 16 fixed ANSI colors (`ESC[{30..37,90..97}m`).

use vstd::prelude::*;
use crate::text::{push_str, push_decimal, decimal, chars_of};

verus! {

#[derive(Clone, Copy, PartialEq, Eq, Debug, Structural)]
pub enum ColorDepth {
    Auto,
    Truecolor,
    Palette256,
    Ansi16,
}

/// The order in which the menu cycles through depths.
pub const CYCLE: [ColorDepth; 4] = [
    ColorDepth::Auto,
    ColorDepth::Truecolor,
    ColorDepth::Palette256,
    ColorDepth::Ansi16,
];

/// Position of a depth in `CYCLE`.
pub open spec fn depth_index(d: ColorDepth) -> int {
    match d {
        ColorDepth::Auto => 0,
        ColorDepth::Truecolor => 1,
        ColorDepth::Palette256 => 2,
        ColorDepth::Ansi16 => 3,
    }
}

/// The depth at position `i` of `CYCLE` (0 <= i < 4).
pub open spec fn depth_at(i: int) -> ColorDepth {
    if i == 0 {
        ColorDepth::Auto
    } else if i == 1 {
        ColorDepth::Truecolor
    } else if i == 2 {
        ColorDepth::Palette256
    } else {
        ColorDepth::Ansi16
    }
}

pub open spec fn depth_label(d: ColorDepth) -> Seq<char> {
    match d {
        ColorDepth::Auto => "auto"@,
        ColorDepth::Truecolor => "truecolor"@,
        ColorDepth::Palette256 => "256"@,
        ColorDepth::Ansi16 => "16"@,
    }
}

/// Wraps `i` into `0..n` (Euclidean remainder) using i32 arithmetic.
pub fn wrap_index(i: i32, n: i32) -> (r: i32)
    requires
        n > 0,
    ensures
        r as int == (i as int) % (n as int),
        0 <= r < n,
{
    if i >= 0 {
        let m = (i as u32) % (n as u32);
        m as i32
    } else {
        let a: u32 = (-(i as i64)) as u32;
        let m = a % (n as u32);
        proof {
            lemma_neg_mod(a as int, n as int);
        }
        if m == 0 {
            0
        } else {
            n - (m as i32)
        }
    }
}

/// `(-a) mod n` expressed through `a mod n`.
pub proof fn lemma_neg_mod(a: int, n: int)
    requires
        a >= 0,
        n > 0,
    ensures
        (a % n == 0 ==> (-a) % n == 0),
        (a % n != 0 ==> (-a) % n == n - a % n),
{
    let q = a / n;
    let m = a % n;
    assert(a == q * n + m) by (nonlinear_arith)
        requires q == a / n, m == a % n, n > 0;
    if m == 0 {
        assert((-a) == (-q) * n) by (nonlinear_arith)
            requires a == q * n + m, m == 0;
        assert((-a) % n == 0) by (nonlinear_arith)
            requires (-a) == (-q) * n, n > 0;
    } else {
        assert((-a) == (-q - 1) * n + (n - m)) by (nonlinear_arith)
            requires a == q * n + m;
        assert(0 <= n - m < n);
        assert((-a) % n == n - m) by (nonlinear_arith)
            requires (-a) == (-q - 1) * n + (n - m), 0 <= n - m < n, n > 0;
    }
}

/// Stepping `a` then `b` places around a ring of `n` equals stepping `a + b`.
pub proof fn lemma_ring_compose(i: int, a: int, b: int, n: int)
    requires
        n > 0,
    ensures
        ((i + a) % n + b) % n == (i + a + b) % n,
{
    vstd::arithmetic::div_mod::lemma_add_mod_noop(i + a, b, n);
    vstd::arithmetic::div_mod::lemma_mod_twice(i + a, n);
    vstd::arithmetic::div_mod::lemma_mod_twice(b, n);
    vstd::arithmetic::div_mod::lemma_add_mod_noop((i + a) % n, b, n);
}

/// A full turn around a ring of `n` lands where it started.
pub proof fn lemma_ring_full_turn(i: int, n: int)
    requires
        n > 0,
        0 <= i < n,
    ensures
        (i + n) % n == i,
{
    vstd::arithmetic::div_mod::lemma_mod_multiples_vanish(1, i, n);
    vstd::arithmetic::div_mod::lemma_small_mod(i as nat, n as nat);
}

/// Position-wise view of `ColorDepth::cycle`.
pub open spec fn depth_cycle(d: ColorDepth, dir: int) -> ColorDepth {
    depth_at((depth_index(d) + dir) % 4)
}

/// Cycling by `a` then by `b` is cycling by `a + b`; in particular a step
/// back undoes a step forward.
pub proof fn law_depth_cycle_compose(d: ColorDepth, a: int, b: int)
    ensures
        depth_cycle(depth_cycle(d, a), b) == depth_cycle(d, a + b),
        depth_cycle(depth_cycle(d, a), -a) == d,
{
    let i = depth_index(d);
    lemma_ring_compose(i, a, b, 4);
    lemma_ring_compose(i, a, -a, 4);
    lemma_ring_full_turn(i, 4);
    vstd::arithmetic::div_mod::lemma_small_mod(i as nat, 4);
    assert(depth_index(depth_at((i + a) % 4)) == (i + a) % 4);
}

/// Cycling once per entry of `CYCLE` comes back to the start.
pub proof fn law_depth_cycle_full_turn(d: ColorDepth)
    ensures
        depth_cycle(d, 4) == d,
{
    lemma_ring_full_turn(depth_index(d), 4);
}

impl ColorDepth {
    pub fn label(self) -> (s: &'static str)
        ensures
            s@ == depth_label(self),
    {
        match self {
            ColorDepth::Auto => "auto",
            ColorDepth::Truecolor => "truecolor",
            ColorDepth::Palette256 => "256",
            ColorDepth::Ansi16 => "16",
        }
    }

    pub fn index(self) -> (i: i32)
        ensures
            i as int == depth_index(self),
    {
        match self {
            ColorDepth::Auto => 0,
            ColorDepth::Truecolor => 1,
            ColorDepth::Palette256 => 2,
            ColorDepth::Ansi16 => 3,
        }
    }

    /// Steps `dir` places through `CYCLE`, wrapping around at either end.
    pub fn cycle(self, dir: i32) -> (r: ColorDepth)
        requires
            depth_index(self) + dir <= i32::MAX,
        ensures
            r == depth_cycle(self, dir as int),
    {
        let idx = self.index();
        let k = wrap_index(idx + dir, 4);
        if k == 0 {
            ColorDepth::Auto
        } else if k == 1 {
            ColorDepth::Truecolor
        } else if k == 2 {
            ColorDepth::Palette256
        } else {
            ColorDepth::Ansi16
        }
    }

    /// `Auto` stands for whatever was detected at startup.
    pub fn resolve(self, detected: ColorDepth) -> (r: ColorDepth)
        ensures
            r == (if self == ColorDepth::Auto { detected } else { self }),
    {
        if self == ColorDepth::Auto {
            detected
        } else {
            self
        }
    }
}

/// Detection from the two environment variables, read by the caller:
/// `COLORTERM` naming `truecolor`/`24bit` (in any letter case) means
/// truecolor; everything else falls back to the 256-color palette.
pub open spec fn detect_spec(colorterm: Option<Seq<char>>, term: Option<Seq<char>>) -> ColorDepth {
    match colorterm {
        Some(v) if seq_contains(ascii_lowercase(v), "truecolor"@) || seq_contains(ascii_lowercase(v), "24bit"@) =>
            ColorDepth::Truecolor,
        _ => ColorDepth::Palette256,
    }
}

/// The color depth follows `COLORTERM` alone: truecolor exactly when it is
/// set and, in lower case, names `truecolor` or `24bit`; the 256-color
/// palette otherwise, whatever `TERM` holds (unset, `xterm-256color`, or
/// anything else).
pub proof fn law_detect(colorterm: Option<Seq<char>>, term: Option<Seq<char>>, other_term: Option<Seq<char>>)
    ensures
        detect_spec(colorterm, term) == detect_spec(colorterm, other_term),
        detect_spec(colorterm, term) == ColorDepth::Truecolor || detect_spec(colorterm, term) == ColorDepth::Palette256,
        detect_spec(colorterm, term) == ColorDepth::Truecolor <==> (colorterm matches Some(v) && (seq_contains(
            ascii_lowercase(v),
            "truecolor"@,
        ) || seq_contains(ascii_lowercase(v), "24bit"@))),
        colorterm is None ==> detect_spec(colorterm, term) == ColorDepth::Palette256,
        colorterm matches Some(v) ==> ascii_lowercase(v).len() == v.len() && forall|i: int|
            0 <= i < v.len() ==> (if 'A' <= v[i] && v[i] <= 'Z' {
                #[trigger] ascii_lowercase(v)[i] as u32 == v[i] as u32 + 32
            } else {
                ascii_lowercase(v)[i] == v[i]
            }),
{
}

/// `c` with ASCII upper-case letters mapped to lower case.
pub open spec fn ascii_lower_char(c: char) -> char {
    if 'A' <= c && c <= 'Z' {
        ((c as u32) + 32) as char
    } else {
        c
    }
}

pub open spec fn ascii_lowercase(s: Seq<char>) -> Seq<char> {
    s.map_values(|c: char| ascii_lower_char(c))
}

/// `needle` occurs as a contiguous block of `hay`.
pub open spec fn seq_contains(hay: Seq<char>, needle: Seq<char>) -> bool {
    exists|i: int| 0 <= i && i + needle.len() <= hay.len() && #[trigger] hay.subrange(i, i + needle.len()) == needle
}

pub fn lower_char(c: char) -> (r: char)
    ensures
        r == ascii_lower_char(c),
{
    if 'A' <= c && c <= 'Z' {
        let u = (c as u32) + 32;
        proof {
            assert(97 <= u <= 122);
        }
        char_from_ascii(u as u8)
    } else {
        c
    }
}

/// An ASCII byte as a `char`.
pub fn char_from_ascii(b: u8) -> (c: char)
    requires
        b < 128,
    ensures
        c as u32 == b as u32,
{
    b as char
}

/// Whether `needle` occurs in `hay`.
pub fn contains_chars(hay: &Vec<char>, needle: &Vec<char>) -> (r: bool)
    ensures
        r == seq_contains(hay@, needle@),
{
    if needle.len() > hay.len() {
        proof {
            assert forall|i: int| 0 <= i && i + needle@.len() <= hay@.len() implies
                #[trigger] hay@.subrange(i, i + needle@.len()) != needle@ by {}
        }
        return false;
    }
    let mut i: usize = 0;
    while i <= hay.len() - needle.len()
        invariant
            needle.len() <= hay.len(),
            i <= hay.len() - needle.len() + 1,
            forall|k: int| 0 <= k < i ==> #[trigger] hay@.subrange(k, k + needle@.len()) != needle@,
        decreases hay.len() - i,
    {
        let mut j: usize = 0;
        let mut ok = true;
        while j < needle.len()
            invariant
                i + needle.len() <= hay.len(),
                j <= needle.len(),
                ok == (forall|t: int| 0 <= t < j ==> hay@[i + t] == needle@[t]),
            decreases needle.len() - j,
        {
            if hay[i + j] != needle[j] {
                ok = false;
            }
            j = j + 1;
        }
        if ok {
            assert(hay@.subrange(i as int, i + needle@.len()) =~= needle@);
            return true;
        }
        assert(hay@.subrange(i as int, i + needle@.len()) != needle@) by {
            let t = choose|t: int| 0 <= t < needle@.len() && hay@[i + t] != needle@[t];
            assert(hay@.subrange(i as int, i + needle@.len())[t] != needle@[t]);
        }
        i = i + 1;
    }
    proof {
        assert forall|k: int| 0 <= k && k + needle@.len() <= hay@.len() implies
            #[trigger] hay@.subrange(k, k + needle@.len()) != needle@ by {
            assert(k < i);
        }
    }
    false
}

/// The characters of `s` with ASCII letters lower-cased.
pub fn lowercase_chars(s: &str) -> (v: Vec<char>)
    ensures
        v@ == ascii_lowercase(s@),
{
    let cs = chars_of(s);
    let mut v: Vec<char> = Vec::new();
    let mut i: usize = 0;
    while i < cs.len()
        invariant
            i <= cs.len(),
            cs@ == s@,
            v@ == ascii_lowercase(s@).subrange(0, i as int),
        decreases cs.len() - i,
    {
        v.push(lower_char(cs[i]));
        i = i + 1;
        assert(v@ =~= ascii_lowercase(s@).subrange(0, i as int));
    }
    assert(ascii_lowercase(s@).subrange(0, i as int) =~= ascii_lowercase(s@));
    v
}

/// Picks the color depth from the values of `COLORTERM` and `TERM`
/// (each `None` when unset).
pub fn detect(colorterm: Option<&str>, term: Option<&str>) -> (d: ColorDepth)
    ensures
        d == detect_spec(
            match colorterm { Some(v) => Some(v@), None => None },
            match term { Some(v) => Some(v@), None => None },
        ),
        d != ColorDepth::Auto,
{
    if let Some(v) = colorterm {
        let lower = lowercase_chars(v);
        let t = chars_of("truecolor");
        let b = chars_of("24bit");
        if contains_chars(&lower, &t) || contains_chars(&lower, &b) {
            return ColorDepth::Truecolor;
        }
    }
    if let Some(_t) = term {
        // A 256-capable TERM and an unknown one both land on the palette.
        return ColorDepth::Palette256;
    }
    ColorDepth::Palette256
}

/// A foreground color selection, canonical enough to deduplicate escapes.
#[derive(Clone, Copy, PartialEq, Eq, Debug, Structural)]
pub enum Fg {
    Rgb(u8, u8, u8),
    Indexed(u8),
    Ansi(u8),
}

/// The escape sequence that selects `fg` as the foreground color.
pub open spec fn fg_escape(fg: Fg) -> Seq<char> {
    match fg {
        Fg::Rgb(r, g, b) => "\x1b[38;2;"@ + decimal(r as nat) + ";"@ + decimal(g as nat) + ";"@
            + decimal(b as nat) + "m"@,
        Fg::Indexed(code) => "\x1b[38;5;"@ + decimal(code as nat) + "m"@,
        Fg::Ansi(code) => "\x1b["@ + decimal(code as nat) + "m"@,
    }
}

impl Fg {
    /// Appends this color's escape sequence to `out`.
    pub fn write(self, out: &mut String)
        ensures
            final(out)@ == old(out)@ + fg_escape(self),
    {
        let ghost start = out@;
        match self {
            Fg::Rgb(r, g, b) => {
                push_str(out, "\x1b[38;2;");
                push_decimal(out, r as u64);
                push_str(out, ";");
                push_decimal(out, g as u64);
                push_str(out, ";");
                push_decimal(out, b as u64);
                push_str(out, "m");
                assert(out@ =~= start + fg_escape(self));
            },
            Fg::Indexed(code) => {
                push_str(out, "\x1b[38;5;");
                push_decimal(out, code as u64);
                push_str(out, "m");
                assert(out@ =~= start + fg_escape(self));
            },
            Fg::Ansi(code) => {
                push_str(out, "\x1b[");
                push_decimal(out, code as u64);
                push_str(out, "m");
                assert(out@ =~= start + fg_escape(self));
            },
        }
    }
}

// ---- 256-color: nearest of (6x6x6 cube) and (24 grays) ----

/// Which of the 6 cube levels a channel value falls into.
pub open spec fn cube_level(v: int) -> int {
    if v <= 47 {
        0
    } else if v <= 114 {
        1
    } else if v <= 154 {
        2
    } else if v <= 194 {
        3
    } else if v <= 234 {
        4
    } else {
        5
    }
}

/// The channel value of cube level `i`.
pub open spec fn cube_value(i: int) -> u8 {
    if i == 0 {
        0
    } else if i == 1 {
        95
    } else if i == 2 {
        135
    } else if i == 3 {
        175
    } else if i == 4 {
        215
    } else {
        255
    }
}

pub open spec fn dist_sq_spec(a0: int, a1: int, a2: int, b0: int, b1: int, b2: int) -> int {
    (a0 - b0) * (a0 - b0) + (a1 - b1) * (a1 - b1) + (a2 - b2) * (a2 - b2)
}

/// The cube entry for a color: its palette index and its RGB.
pub open spec fn cube_index(r: int, g: int, b: int) -> int {
    16 + 36 * cube_level(r) + 6 * cube_level(g) + cube_level(b)
}

/// Position on the 24-step gray ramp (values 8, 18, ..., 238) nearest to a
/// color whose channels sum to `sum`: the step of the mean `sum / 3`,
/// rounded to the nearest step, halfway cases down.
pub open spec fn gray_step(sum: int) -> int {
    if sum < 10 {
        0
    } else if (sum - 10) / 30 < 23 {
        (sum - 10) / 30
    } else {
        23
    }
}

/// Value of gray-ramp step `k` (palette index `232 + k`).
pub open spec fn gray_value(k: int) -> int {
    8 + 10 * k
}

/// 256-palette index: the nearest cube entry unless the nearest gray-ramp
/// entry is strictly closer.
pub open spec fn rgb_to_256_spec(r: int, g: int, b: int) -> int {
    let k = gray_step(r + g + b);
    let gv = gray_value(k);
    if dist_sq_spec(
        r,
        g,
        b,
        cube_value(cube_level(r)) as int,
        cube_value(cube_level(g)) as int,
        cube_value(cube_level(b)) as int,
    ) <= dist_sq_spec(r, g, b, gv, gv, gv) {
        cube_index(r, g, b)
    } else {
        232 + k
    }
}

/// Squared distance of a color to palette entry `k`.
pub open spec fn palette_dist(r: int, g: int, b: int, k: int) -> int {
    let (cr, cg, cb) = indexed_to_rgb_spec(k);
    dist_sq_spec(r, g, b, cr as int, cg as int, cb as int)
}

/// `k` is a palette entry of the cube or the gray ramp (16..=255) at least
/// distance from the color among all of them.
pub open spec fn is_nearest256(r: int, g: int, b: int, k: int) -> bool {
    &&& 16 <= k <= 255
    &&& forall|j: int| 16 <= j <= 255 ==> palette_dist(r, g, b, k) <= #[trigger] palette_dist(r, g, b, j)
}

/// The 16 system colors.
pub open spec fn ansi16(i: int) -> (u8, u8, u8) {
    if i == 0 {
        (0, 0, 0)
    } else if i == 1 {
        (128, 0, 0)
    } else if i == 2 {
        (0, 128, 0)
    } else if i == 3 {
        (128, 128, 0)
    } else if i == 4 {
        (0, 0, 128)
    } else if i == 5 {
        (128, 0, 128)
    } else if i == 6 {
        (0, 128, 128)
    } else if i == 7 {
        (192, 192, 192)
    } else if i == 8 {
        (128, 128, 128)
    } else if i == 9 {
        (255, 0, 0)
    } else if i == 10 {
        (0, 255, 0)
    } else if i == 11 {
        (255, 255, 0)
    } else if i == 12 {
        (0, 0, 255)
    } else if i == 13 {
        (255, 0, 255)
    } else if i == 14 {
        (0, 255, 255)
    } else {
        (255, 255, 255)
    }
}

/// RGB of a 256-palette index.
pub open spec fn indexed_to_rgb_spec(code: int) -> (u8, u8, u8) {
    if code <= 15 {
        ansi16(code)
    } else if code <= 231 {
        let i = code - 16;
        (cube_value(i / 36), cube_value((i % 36) / 6), cube_value(i % 6))
    } else {
        let v = 8 + (code - 232) * 10;
        (v as u8, v as u8, v as u8)
    }
}

pub open spec fn dist16(r: int, g: int, b: int, k: int) -> int {
    let (cr, cg, cb) = ansi16(k);
    dist_sq_spec(r, g, b, cr as int, cg as int, cb as int)
}

/// `k` is the first of the 16 system colors at minimal distance from (r, g, b).
pub open spec fn is_nearest16(r: int, g: int, b: int, k: int) -> bool {
    &&& 0 <= k < 16
    &&& forall|j: int| 0 <= j < 16 ==> dist16(r, g, b, k) <= #[trigger] dist16(r, g, b, j)
    &&& forall|j: int| 0 <= j < k ==> dist16(r, g, b, k) < #[trigger] dist16(r, g, b, j)
}

/// SGR code of system color `k`: 30..=37 for the normal colors, 90..=97 for
/// the bright ones.
pub open spec fn ansi_code(k: int) -> int {
    if k < 8 {
        30 + k
    } else {
        90 + k - 8
    }
}

/// The system color slot an SGR code names.
pub open spec fn ansi_slot(code: int) -> int {
    if code < 90 {
        code - 30
    } else {
        code - 82
    }
}

/// RGB of an SGR foreground code; codes outside the two ranges read as slot 7.
pub open spec fn ansi_code_to_rgb_spec(code: int) -> (u8, u8, u8) {
    if 30 <= code <= 37 {
        ansi16(code - 30)
    } else if 90 <= code <= 97 {
        ansi16(code - 82)
    } else {
        ansi16(7)
    }
}

/// The first nearest system color of (r, g, b), as a code.
pub open spec fn rgb_to_16_spec(r: int, g: int, b: int) -> int {
    ansi_code(choose|k: int| is_nearest16(r, g, b, k))
}

pub open spec fn quantize_spec(depth: ColorDepth, r: u8, g: u8, b: u8) -> Fg {
    match depth {
        ColorDepth::Palette256 => Fg::Indexed(rgb_to_256_spec(r as int, g as int, b as int) as u8),
        ColorDepth::Ansi16 => Fg::Ansi(rgb_to_16_spec(r as int, g as int, b as int) as u8),
        _ => Fg::Rgb(r, g, b),
    }
}

pub open spec fn fg_rgb(fg: Fg) -> (u8, u8, u8) {
    match fg {
        Fg::Rgb(r, g, b) => (r, g, b),
        Fg::Indexed(code) => indexed_to_rgb_spec(code as int),
        Fg::Ansi(code) => ansi_code_to_rgb_spec(code as int),
    }
}

pub open spec fn quantize_rgb_spec(depth: ColorDepth, r: u8, g: u8, b: u8) -> (u8, u8, u8) {
    fg_rgb(quantize_spec(depth, r, g, b))
}

/// Squared Euclidean distance of two RGB triples.
pub fn dist_sq(a0: u8, a1: u8, a2: u8, b0: u8, b1: u8, b2: u8) -> (d: u32)
    ensures
        d as int == dist_sq_spec(a0 as int, a1 as int, a2 as int, b0 as int, b1 as int, b2 as int),
{
    let d0 = a0 as i32 - b0 as i32;
    let d1 = a1 as i32 - b1 as i32;
    let d2 = a2 as i32 - b2 as i32;
    assert(0 <= d0 * d0 <= 65025) by (nonlinear_arith)
        requires -255 <= d0 <= 255;
    assert(0 <= d1 * d1 <= 65025) by (nonlinear_arith)
        requires -255 <= d1 <= 255;
    assert(0 <= d2 * d2 <= 65025) by (nonlinear_arith)
        requires -255 <= d2 <= 255;
    (d0 * d0 + d1 * d1 + d2 * d2) as u32
}

pub fn cube_step(v: u8) -> (l: u8)
    ensures
        l as int == cube_level(v as int),
{
    if v <= 47 {
        0
    } else if v <= 114 {
        1
    } else if v <= 154 {
        2
    } else if v <= 194 {
        3
    } else if v <= 234 {
        4
    } else {
        5
    }
}

/// Channel value of cube level `i` (the table `0, 95, 135, 175, 215, 255`).
pub fn cube_step_value(i: u8) -> (v: u8)
    requires
        i < 6,
    ensures
        v == cube_value(i as int),
{
    if i == 0 {
        0
    } else if i == 1 {
        95
    } else if i == 2 {
        135
    } else if i == 3 {
        175
    } else if i == 4 {
        215
    } else {
        255
    }
}

/// Nearest 256-palette index of an RGB color, among the 6x6x6 cube and the
/// 24 grays.
pub fn rgb_to_256(r: u8, g: u8, b: u8) -> (code: u8)
    ensures
        code as int == rgb_to_256_spec(r as int, g as int, b as int),
        is_nearest256(r as int, g as int, b as int, code as int),
{
    let cr = cube_step(r);
    let cg = cube_step(g);
    let cb = cube_step(b);
    let cube_idx = 16 + 36 * cr + 6 * cg + cb;
    let cvr = cube_step_value(cr);
    let cvg = cube_step_value(cg);
    let cvb = cube_step_value(cb);

    // Gray ramp: 24 values 8, 18, 28, ..., 238, at indices 232..=255.
    let sum = r as u32 + g as u32 + b as u32;
    let step: u32 = if sum < 10 {
        0
    } else {
        let q = (sum - 10) / 30;
        if q < 23 { q } else { 23 }
    };
    let gray_idx = (232 + step) as u8;
    let gray_val = (8 + 10 * step) as u8;

    proof {
        lemma_rgb_to_256_nearest(r as int, g as int, b as int);
    }
    if dist_sq(r, g, b, cvr, cvg, cvb) <= dist_sq(r, g, b, gray_val, gray_val, gray_val) {
        cube_idx
    } else {
        gray_idx
    }
}

/// One of the 16 system colors.
pub fn ansi16_entry(i: usize) -> (c: (u8, u8, u8))
    requires
        i < 16,
    ensures
        c == ansi16(i as int),
{
    if i == 0 {
        (0, 0, 0)
    } else if i == 1 {
        (128, 0, 0)
    } else if i == 2 {
        (0, 128, 0)
    } else if i == 3 {
        (128, 128, 0)
    } else if i == 4 {
        (0, 0, 128)
    } else if i == 5 {
        (128, 0, 128)
    } else if i == 6 {
        (0, 128, 128)
    } else if i == 7 {
        (192, 192, 192)
    } else if i == 8 {
        (128, 128, 128)
    } else if i == 9 {
        (255, 0, 0)
    } else if i == 10 {
        (0, 255, 0)
    } else if i == 11 {
        (255, 255, 0)
    } else if i == 12 {
        (0, 0, 255)
    } else if i == 13 {
        (255, 0, 255)
    } else if i == 14 {
        (0, 255, 255)
    } else {
        (255, 255, 255)
    }
}

/// RGB of a 256-palette index.
pub fn indexed_to_rgb(code: u8) -> (c: (u8, u8, u8))
    ensures
        c == indexed_to_rgb_spec(code as int),
{
    if code <= 15 {
        ansi16_entry(code as usize)
    } else if code <= 231 {
        let idx = code - 16;
        let r = idx / 36;
        let g = (idx % 36) / 6;
        let b = idx % 6;
        (cube_step_value(r), cube_step_value(g), cube_step_value(b))
    } else {
        let value = 8 + (code - 232) * 10;
        (value, value, value)
    }
}

/// Each system color is at distance zero only from itself.
pub proof fn lemma_ansi16_distinct(i: int, j: int)
    requires
        0 <= i < 16,
        0 <= j < 16,
        i != j,
    ensures
        ansi16(i) != ansi16(j),
{
}

/// The nearest-first slot is unique.
pub proof fn lemma_nearest16_unique(r: int, g: int, b: int, k1: int, k2: int)
    requires
        is_nearest16(r, g, b, k1),
        is_nearest16(r, g, b, k2),
    ensures
        k1 == k2,
{
    if k1 < k2 {
        assert(dist16(r, g, b, k2) < dist16(r, g, b, k1));
        assert(dist16(r, g, b, k1) <= dist16(r, g, b, k2));
    } else if k2 < k1 {
        assert(dist16(r, g, b, k1) < dist16(r, g, b, k2));
        assert(dist16(r, g, b, k2) <= dist16(r, g, b, k1));
    }
}

/// Nearest of the 16 system colors, as an SGR foreground code.
pub fn rgb_to_16(r: u8, g: u8, b: u8) -> (code: u8)
    ensures
        (30 <= code <= 37 || 90 <= code <= 97),
        is_nearest16(r as int, g as int, b as int, ansi_slot(code as int)),
        code as int == rgb_to_16_spec(r as int, g as int, b as int),
{
    let mut best: usize = 0;
    let mut best_d: u32 = u32::MAX;
    let mut i: usize = 0;
    while i < 16
        invariant
            i <= 16,
            i == 0 ==> best == 0 && best_d == u32::MAX,
            i > 0 ==> best < i && best_d as int == dist16(r as int, g as int, b as int, best as int),
            forall|j: int| 0 <= j < i ==> (best_d as int) <= #[trigger] dist16(r as int, g as int, b as int, j),
            forall|j: int| 0 <= j < best ==> (best_d as int) < #[trigger] dist16(r as int, g as int, b as int, j),
        decreases 16 - i,
    {
        let (cr, cg, cb) = ansi16_entry(i);
        let d = dist_sq(r, g, b, cr, cg, cb);
        assert(d as int == dist16(r as int, g as int, b as int, i as int));
        assert(d <= 195075) by (nonlinear_arith)
            requires d as int == dist_sq_spec(r as int, g as int, b as int, cr as int, cg as int, cb as int),
                0 <= r <= 255, 0 <= g <= 255, 0 <= b <= 255, 0 <= cr <= 255, 0 <= cg <= 255, 0 <= cb <= 255;
        if d < best_d {
            best_d = d;
            best = i;
        }
        i = i + 1;
    }
    proof {
        assert(is_nearest16(r as int, g as int, b as int, best as int));
        let k = choose|k: int| is_nearest16(r as int, g as int, b as int, k);
        lemma_nearest16_unique(r as int, g as int, b as int, k, best as int);
    }
    if best < 8 {
        30 + best as u8
    } else {
        90 + (best - 8) as u8
    }
}

/// RGB of an SGR foreground code.
pub fn ansi_code_to_rgb(code: u8) -> (c: (u8, u8, u8))
    ensures
        c == ansi_code_to_rgb_spec(code as int),
{
    if 30 <= code && code <= 37 {
        ansi16_entry((code - 30) as usize)
    } else if 90 <= code && code <= 97 {
        ansi16_entry((code - 90 + 8) as usize)
    } else {
        ansi16_entry(7)
    }
}

/// Quantizes a color to a resolved depth. `Auto` must be resolved first.
pub fn quantize(depth: ColorDepth, r: u8, g: u8, b: u8) -> (fg: Fg)
    requires
        depth != ColorDepth::Auto,
    ensures
        fg == quantize_spec(depth, r, g, b),
{
    match depth {
        ColorDepth::Truecolor => Fg::Rgb(r, g, b),
        ColorDepth::Palette256 => Fg::Indexed(rgb_to_256(r, g, b)),
        ColorDepth::Ansi16 => Fg::Ansi(rgb_to_16(r, g, b)),
        ColorDepth::Auto => Fg::Rgb(r, g, b),
    }
}

/// The RGB value the terminal actually shows after quantization.
pub fn quantize_rgb(depth: ColorDepth, r: u8, g: u8, b: u8) -> (c: (u8, u8, u8))
    requires
        depth != ColorDepth::Auto,
    ensures
        c == quantize_rgb_spec(depth, r, g, b),
{
    match quantize(depth, r, g, b) {
        Fg::Rgb(r, g, b) => (r, g, b),
        Fg::Indexed(code) => indexed_to_rgb(code),
        Fg::Ansi(code) => ansi_code_to_rgb(code),
    }
}

pub proof fn lemma_dist_zero(a0: int, a1: int, a2: int, b0: int, b1: int, b2: int)
    ensures
        dist_sq_spec(a0, a1, a2, b0, b1, b2) >= 0,
        dist_sq_spec(a0, a1, a2, b0, b1, b2) == 0 <==> (a0 == b0 && a1 == b1 && a2 == b2),
{
    assert((a0 - b0) * (a0 - b0) >= 0) by (nonlinear_arith);
    assert((a1 - b1) * (a1 - b1) >= 0) by (nonlinear_arith);
    assert((a2 - b2) * (a2 - b2) >= 0) by (nonlinear_arith);
    assert((a0 - b0) != 0 ==> (a0 - b0) * (a0 - b0) > 0) by (nonlinear_arith);
    assert((a1 - b1) != 0 ==> (a1 - b1) * (a1 - b1) > 0) by (nonlinear_arith);
    assert((a2 - b2) != 0 ==> (a2 - b2) * (a2 - b2) > 0) by (nonlinear_arith);
}

/// A system color's nearest system color is itself.
pub proof fn lemma_nearest16_of_entry(k: int)
    requires
        0 <= k < 16,
    ensures
        is_nearest16(ansi16(k).0 as int, ansi16(k).1 as int, ansi16(k).2 as int, k),
{
    let (r, g, b) = ansi16(k);
    lemma_dist_zero(r as int, g as int, b as int, r as int, g as int, b as int);
    assert forall|j: int| 0 <= j < 16 implies dist16(r as int, g as int, b as int, k) <= #[trigger] dist16(r as int, g as int, b as int, j) by {
        let (cr, cg, cb) = ansi16(j);
        lemma_dist_zero(r as int, g as int, b as int, cr as int, cg as int, cb as int);
    }
    assert forall|j: int| 0 <= j < k implies dist16(r as int, g as int, b as int, k) < #[trigger] dist16(r as int, g as int, b as int, j) by {
        let (cr, cg, cb) = ansi16(j);
        lemma_dist_zero(r as int, g as int, b as int, cr as int, cg as int, cb as int);
        lemma_ansi16_distinct(j, k);
    }
}

/// A cube color's cube level round-trips.
pub proof fn lemma_cube_level_of_value(i: int)
    requires
        0 <= i < 6,
    ensures
        cube_level(cube_value(i) as int) == i,
{
}

/// Quantizing a color that is already on the target palette changes nothing:
/// the colors the terminal shows are fixed points of quantization.
pub proof fn law_quantize_rgb_idempotent(depth: ColorDepth, r: u8, g: u8, b: u8)
    requires
        depth != ColorDepth::Auto,
    ensures
        ({
            let (r2, g2, b2) = quantize_rgb_spec(depth, r, g, b);
            quantize_rgb_spec(depth, r2, g2, b2) == (r2, g2, b2)
        }),
{
    match depth {
        ColorDepth::Ansi16 => {
            let k = choose|k: int| is_nearest16(r as int, g as int, b as int, k);
            lemma_nearest16_exists(r as int, g as int, b as int);
            let (r2, g2, b2) = ansi16(k);
            assert(quantize_rgb_spec(depth, r, g, b) == ansi16(k));
            lemma_nearest16_of_entry(k);
            let k2 = choose|k2: int| is_nearest16(r2 as int, g2 as int, b2 as int, k2);
            lemma_nearest16_unique(r2 as int, g2 as int, b2 as int, k, k2);
        },
        ColorDepth::Palette256 => {
            let code = rgb_to_256_spec(r as int, g as int, b as int);
            lemma_rgb_to_256_nearest(r as int, g as int, b as int);
            let (r2, g2, b2) = indexed_to_rgb_spec(code);
            let code2 = rgb_to_256_spec(r2 as int, g2 as int, b2 as int);
            lemma_rgb_to_256_nearest(r2 as int, g2 as int, b2 as int);
            lemma_dist_zero(r2 as int, g2 as int, b2 as int, r2 as int, g2 as int, b2 as int);
            assert(palette_dist(r2 as int, g2 as int, b2 as int, code) == 0);
            assert(palette_dist(r2 as int, g2 as int, b2 as int, code2) <= 0);
            let (r3, g3, b3) = indexed_to_rgb_spec(code2);
            lemma_dist_zero(r2 as int, g2 as int, b2 as int, r3 as int, g3 as int, b3 as int);
        },
        _ => {},
    }
}

/// First slot among `0..n` at minimal distance.
pub open spec fn argmin16(r: int, g: int, b: int, n: int) -> int
    decreases n,
{
    if n <= 1 {
        0
    } else {
        let prev = argmin16(r, g, b, n - 1);
        if dist16(r, g, b, n - 1) < dist16(r, g, b, prev) {
            n - 1
        } else {
            prev
        }
    }
}

proof fn lemma_argmin16(r: int, g: int, b: int, n: int)
    requires
        1 <= n <= 16,
    ensures
        0 <= argmin16(r, g, b, n) < n,
        forall|j: int| 0 <= j < n ==> dist16(r, g, b, argmin16(r, g, b, n)) <= #[trigger] dist16(r, g, b, j),
        forall|j: int| 0 <= j < argmin16(r, g, b, n) ==> dist16(r, g, b, argmin16(r, g, b, n)) < #[trigger] dist16(r, g, b, j),
    decreases n,
{
    if n > 1 {
        lemma_argmin16(r, g, b, n - 1);
    }
}

/// Some slot is always the first nearest one.
pub proof fn lemma_nearest16_exists(r: int, g: int, b: int)
    ensures
        exists|k: int| is_nearest16(r, g, b, k),
{
    lemma_argmin16(r, g, b, 16);
    assert(is_nearest16(r, g, b, argmin16(r, g, b, 16)));
}

/// Comparing squared distances of `v` to `a` and to `b` by which side of
/// their midpoint `v` lies on.
proof fn lemma_sq_closer(v: int, a: int, b: int)
    requires
        (a <= b && 2 * v <= a + b) || (b <= a && 2 * v >= a + b),
    ensures
        (v - a) * (v - a) <= (v - b) * (v - b),
{
    assert((v - a) * (v - a) - (v - b) * (v - b) == (b - a) * (2 * v - a - b)) by (nonlinear_arith);
    if a <= b && 2 * v <= a + b {
        assert((b - a) * (2 * v - a - b) <= 0) by (nonlinear_arith)
            requires a <= b, 2 * v <= a + b;
    } else {
        assert((b - a) * (2 * v - a - b) <= 0) by (nonlinear_arith)
            requires b <= a, 2 * v >= a + b;
    }
}

/// A channel's cube level is its nearest level.
proof fn lemma_cube_level_nearest(v: int, i: int)
    requires
        0 <= v <= 255,
        0 <= i < 6,
    ensures
        (v - cube_value(cube_level(v))) * (v - cube_value(cube_level(v)))
            <= (v - cube_value(i)) * (v - cube_value(i)),
{
    lemma_sq_closer(v, cube_value(cube_level(v)) as int, cube_value(i) as int);
}

/// The gray at step `gray_step(r + g + b)` is the nearest gray on the ramp.
proof fn lemma_gray_step_nearest(r: int, g: int, b: int, j: int)
    requires
        0 <= r <= 255,
        0 <= g <= 255,
        0 <= b <= 255,
        0 <= j < 24,
    ensures
        0 <= gray_step(r + g + b) < 24,
        ({
            let a = gray_value(gray_step(r + g + b));
            let c = gray_value(j);
            dist_sq_spec(r, g, b, a, a, a) <= dist_sq_spec(r, g, b, c, c, c)
        }),
{
    let s = r + g + b;
    let k = gray_step(s);
    let a = gray_value(k);
    let c = gray_value(j);
    // Both distances are 3x^2 - 2sx + (r^2 + g^2 + b^2).
    assert((r - a) * (r - a) + (g - a) * (g - a) + (b - a) * (b - a) - ((r - c) * (r - c) + (g - c) * (g - c) + (b - c)
        * (b - c)) == (a - c) * (3 * (a + c) - 2 * (r + g + b))) by (nonlinear_arith);
    if j > k {
        assert(s <= 30 * k + 39);
        assert((a - c) * (3 * (a + c) - 2 * s) <= 0) by (nonlinear_arith)
            requires a < c, 3 * (a + c) >= 2 * s;
    } else if j < k {
        assert(s >= 30 * k + 9);
        assert((a - c) * (3 * (a + c) - 2 * s) <= 0) by (nonlinear_arith)
            requires a > c, 3 * (a + c) <= 2 * s;
    }
}

/// The palette entry `rgb_to_256_spec` picks is at least distance among the
/// cube and the gray ramp.
proof fn lemma_rgb_to_256_nearest(r: int, g: int, b: int)
    requires
        0 <= r <= 255,
        0 <= g <= 255,
        0 <= b <= 255,
    ensures
        is_nearest256(r, g, b, rgb_to_256_spec(r, g, b)),
{
    let code = rgb_to_256_spec(r, g, b);
    let (lr, lg, lb) = (cube_level(r), cube_level(g), cube_level(b));
    let k = gray_step(r + g + b);
    let gv = gray_value(k);
    let cube_d = dist_sq_spec(r, g, b, cube_value(lr) as int, cube_value(lg) as int, cube_value(lb) as int);
    let gray_d = dist_sq_spec(r, g, b, gv, gv, gv);
    assert(0 <= k < 24) by {
        lemma_gray_step_nearest(r, g, b, 0);
    }
    assert(palette_dist(r, g, b, cube_index(r, g, b)) == cube_d) by {
        let i = cube_index(r, g, b) - 16;
        assert(i / 36 == lr && (i % 36) / 6 == lg && i % 6 == lb);
    }
    assert(palette_dist(r, g, b, 232 + k) == gray_d);
    assert(palette_dist(r, g, b, code) <= cube_d && palette_dist(r, g, b, code) <= gray_d);
    assert forall|j: int| 16 <= j <= 255 implies palette_dist(r, g, b, code) <= #[trigger] palette_dist(r, g, b, j) by {
        if j <= 231 {
            let i = j - 16;
            let (jr, jg, jb) = (i / 36, (i % 36) / 6, i % 6);
            lemma_cube_level_nearest(r, jr);
            lemma_cube_level_nearest(g, jg);
            lemma_cube_level_nearest(b, jb);
            assert(cube_d <= palette_dist(r, g, b, j));
        } else {
            lemma_gray_step_nearest(r, g, b, j - 232);
            assert(indexed_to_rgb_spec(j) == (gray_value(j - 232) as u8, gray_value(j - 232) as u8, gray_value(j - 232) as u8));
            assert(gray_d <= palette_dist(r, g, b, j));
        }
    }
}

/// Every cube and gray-ramp entry maps back to its own index.
pub proof fn law_palette256_index_roundtrip(k: int)
    requires
        16 <= k <= 255,
    ensures
        ({
            let (cr, cg, cb) = indexed_to_rgb_spec(k);
            rgb_to_256_spec(cr as int, cg as int, cb as int) == k
        }),
{
    let (cr, cg, cb) = indexed_to_rgb_spec(k);
    let (r, g, b) = (cr as int, cg as int, cb as int);
    let t = gray_step(r + g + b);
    let gv = gray_value(t);
    if k <= 231 {
        let i = k - 16;
        lemma_cube_level_of_value(i / 36);
        lemma_cube_level_of_value((i % 36) / 6);
        lemma_cube_level_of_value(i % 6);
        assert(cube_index(r, g, b) == k);
        lemma_dist_zero(r, g, b, r, g, b);
        lemma_dist_zero(r, g, b, gv, gv, gv);
    } else {
        let s = k - 232;
        let v = gray_value(s);
        assert(r == v && g == v && b == v);
        assert(t == s);
        lemma_dist_zero(r, g, b, v, v, v);
        let cv = cube_value(cube_level(v)) as int;
        assert(cv != v);
        lemma_dist_zero(r, g, b, cv, cv, cv);
    }
}

} // verus!
