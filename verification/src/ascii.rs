//! Glyph ramps.
//!
//! `RAMP` holds all 95 printable ASCII chars (0x20..=0x7E), sorted from
//! lightest (space) to densest (`$`) by approximate ink coverage in a
//! monospace font; `SHADES` is the 5-stop Unicode shading ramp used when no
//! color channel carries brightness. The luma-to-glyph curves are
//! floating-point and are applied by the renderer.

use vstd::prelude::*;

verus! {

pub const RAMP: [char; 95] = [
    ' ', '`', '.', '\'', '-', ',', '_', ':', '^', '"', ';', '~', '!', '|', 'i',
    'l', '/', '\\', 'I', 'j', '(', ')', '[', ']', '{', '}', 't', '?', '+', '<',
    '>', '*', '=', 'r', 'c', 'v', 'x', 'y', 'z', 's', 'n', 'u', 'o', 'L', 'T',
    '7', '1', 'J', 'Y', 'C', 'F', 'Z', '2', '3', '4', '5', '6', 'w', 'a', 'e',
    'f', 'k', 'h', 'b', 'd', 'p', 'q', 'g', 'm', 'P', 'G', 'E', '9', '0', '8',
    'A', 'H', 'N', 'U', 'V', 'S', 'K', 'X', 'R', 'D', 'B', 'O', 'Q', 'M', 'W',
    '@', '#', '&', '%', '$',
];

pub const SHADES: [char; 5] = [' ', '░', '▒', '▓', '█'];

} // verus!
