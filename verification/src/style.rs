//! Color styles: the set of styles, their labels and menu cycling.
//!
//! The per-pixel style transforms themselves are floating-point HSV/noise
//! math and live with the renderer outside this library.

use vstd::prelude::*;
use crate::color::{wrap_index, lemma_ring_compose, lemma_ring_full_turn};

verus! {

#[derive(Clone, Copy, PartialEq, Eq, Debug, Structural)]
pub enum Style {
    Color,
    Vivid,
    BlackWhite,
    Sepia,
    VanGogh,
    Monet,
    Mushroom,
    Lsd,
}

pub const ALL: [Style; 8] = [
    Style::Color,
    Style::Vivid,
    Style::BlackWhite,
    Style::Sepia,
    Style::VanGogh,
    Style::Monet,
    Style::Mushroom,
    Style::Lsd,
];

/// Position of a style in `ALL`.
pub open spec fn style_index(s: Style) -> int {
    match s {
        Style::Color => 0,
        Style::Vivid => 1,
        Style::BlackWhite => 2,
        Style::Sepia => 3,
        Style::VanGogh => 4,
        Style::Monet => 5,
        Style::Mushroom => 6,
        Style::Lsd => 7,
    }
}

/// The style at position `i` of `ALL`.
pub open spec fn style_at(i: int) -> Style {
    if i == 0 {
        Style::Color
    } else if i == 1 {
        Style::Vivid
    } else if i == 2 {
        Style::BlackWhite
    } else if i == 3 {
        Style::Sepia
    } else if i == 4 {
        Style::VanGogh
    } else if i == 5 {
        Style::Monet
    } else if i == 6 {
        Style::Mushroom
    } else {
        Style::Lsd
    }
}

pub open spec fn style_label(s: Style) -> Seq<char> {
    match s {
        Style::Color => "Color"@,
        Style::Vivid => "Vivid"@,
        Style::BlackWhite => "B&W"@,
        Style::Sepia => "Sepia"@,
        Style::VanGogh => "Van Gogh"@,
        Style::Monet => "Monet"@,
        Style::Mushroom => "Mushroom"@,
        Style::Lsd => "LSD"@,
    }
}

/// Position-wise view of `Style::cycle`.
pub open spec fn style_cycle(s: Style, dir: int) -> Style {
    style_at((style_index(s) + dir) % 8)
}

/// Cycling by `a` then by `b` is cycling by `a + b`; a step back undoes a
/// step forward.
pub proof fn law_style_cycle_compose(s: Style, a: int, b: int)
    ensures
        style_cycle(style_cycle(s, a), b) == style_cycle(s, a + b),
        style_cycle(style_cycle(s, a), -a) == s,
{
    let i = style_index(s);
    lemma_ring_compose(i, a, b, 8);
    lemma_ring_compose(i, a, -a, 8);
    lemma_ring_full_turn(i, 8);
    vstd::arithmetic::div_mod::lemma_small_mod(i as nat, 8);
    assert(style_index(style_at((i + a) % 8)) == (i + a) % 8);
}

/// Cycling once per entry of `ALL` comes back to the start.
pub proof fn law_style_cycle_full_turn(s: Style)
    ensures
        style_cycle(s, 8) == s,
{
    lemma_ring_full_turn(style_index(s), 8);
}

impl Style {
    pub fn label(self) -> (l: &'static str)
        ensures
            l@ == style_label(self),
    {
        match self {
            Style::Color => "Color",
            Style::Vivid => "Vivid",
            Style::BlackWhite => "B&W",
            Style::Sepia => "Sepia",
            Style::VanGogh => "Van Gogh",
            Style::Monet => "Monet",
            Style::Mushroom => "Mushroom",
            Style::Lsd => "LSD",
        }
    }

    /// Every style but black-and-white emits color escapes.
    pub fn emits_color(self) -> (b: bool)
        ensures
            b == (self != Style::BlackWhite),
    {
        !matches!(self, Style::BlackWhite)
    }

    pub fn index(self) -> (i: i32)
        ensures
            i as int == style_index(self),
    {
        match self {
            Style::Color => 0,
            Style::Vivid => 1,
            Style::BlackWhite => 2,
            Style::Sepia => 3,
            Style::VanGogh => 4,
            Style::Monet => 5,
            Style::Mushroom => 6,
            Style::Lsd => 7,
        }
    }

    /// Steps `dir` places through `ALL`, wrapping around at either end.
    pub fn cycle(self, dir: i32) -> (r: Style)
        requires
            style_index(self) + dir <= i32::MAX,
        ensures
            r == style_cycle(self, dir as int),
    {
        let k = wrap_index(self.index() + dir, 8);
        if k == 0 {
            Style::Color
        } else if k == 1 {
            Style::Vivid
        } else if k == 2 {
            Style::BlackWhite
        } else if k == 3 {
            Style::Sepia
        } else if k == 4 {
            Style::VanGogh
        } else if k == 5 {
            Style::Monet
        } else if k == 6 {
            Style::Mushroom
        } else {
            Style::Lsd
        }
    }
}

} // verus!
