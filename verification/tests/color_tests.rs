use terminal_cam::ascii::RAMP;
use terminal_cam::color::{
    ansi_code_to_rgb, detect, indexed_to_rgb, quantize, quantize_rgb, rgb_to_16, rgb_to_256, ColorDepth, Fg,
};

#[test]
fn ramp_is_exactly_95_chars() {
    assert_eq!(RAMP.len(), 95);
}

#[test]
fn pure_black_white_land_on_extremes() {
    assert_eq!(rgb_to_256(0, 0, 0), 16);
    assert_eq!(rgb_to_256(255, 255, 255), 231);
}

#[test]
fn pure_colors_map_reasonably() {
    // Pure red should land on cube (5,0,0) = 16 + 180 = 196.
    assert_eq!(rgb_to_256(255, 0, 0), 196);
    // Pure green: cube (0,5,0) = 16 + 30 = 46.
    assert_eq!(rgb_to_256(0, 255, 0), 46);
    // Pure blue: cube (0,0,5) = 16 + 5 = 21.
    assert_eq!(rgb_to_256(0, 0, 255), 21);
}

#[test]
fn mid_gray_prefers_ramp_over_cube() {
    let idx = rgb_to_256(128, 128, 128);
    assert!(idx >= 232, "expected gray ramp, got {idx}");
}

#[test]
fn quantized_rgb_matches_palette_color() {
    assert_eq!(quantize_rgb(ColorDepth::Palette256, 255, 0, 0), (255, 0, 0));
    assert_eq!(quantize_rgb(ColorDepth::Ansi16, 255, 255, 255), (255, 255, 255));
}

#[test]
fn mid_gray_exact_ramp_entry() {
    // avg 128 -> step (128 - 8) / 10 = 12 -> index 244, value 128.
    assert_eq!(rgb_to_256(128, 128, 128), 244);
    assert_eq!(indexed_to_rgb(244), (128, 128, 128));
}

#[test]
fn indexed_to_rgb_covers_all_three_ranges() {
    assert_eq!(indexed_to_rgb(9), (255, 0, 0));
    assert_eq!(indexed_to_rgb(16 + 36 * 2 + 6 * 3 + 4), (135, 175, 215));
    assert_eq!(indexed_to_rgb(232), (8, 8, 8));
    assert_eq!(indexed_to_rgb(255), (238, 238, 238));
}

#[test]
fn ansi16_nearest_and_codes() {
    assert_eq!(rgb_to_16(0, 0, 0), 30);
    assert_eq!(rgb_to_16(255, 255, 255), 97);
    assert_eq!(rgb_to_16(150, 10, 10), 31);
    assert_eq!(rgb_to_16(250, 10, 10), 91);
    assert_eq!(ansi_code_to_rgb(91), (255, 0, 0));
    assert_eq!(ansi_code_to_rgb(12), (192, 192, 192));
}

#[test]
fn quantize_is_idempotent_on_samples() {
    for depth in [ColorDepth::Truecolor, ColorDepth::Palette256, ColorDepth::Ansi16] {
        for &(r, g, b) in &[(0u8, 0u8, 0u8), (17, 200, 99), (128, 128, 128), (237, 237, 237), (250, 3, 140)] {
            let q = quantize_rgb(depth, r, g, b);
            assert_eq!(quantize_rgb(depth, q.0, q.1, q.2), q);
        }
    }
}

#[test]
fn fg_escapes() {
    let mut s = String::new();
    Fg::Rgb(1, 22, 255).write(&mut s);
    assert_eq!(s, "\x1b[38;2;1;22;255m");
    let mut s = String::new();
    quantize(ColorDepth::Palette256, 255, 0, 0).write(&mut s);
    assert_eq!(s, "\x1b[38;5;196m");
    let mut s = String::new();
    quantize(ColorDepth::Ansi16, 0, 0, 0).write(&mut s);
    assert_eq!(s, "\x1b[30m");
}

#[test]
fn depth_cycle_and_resolve() {
    assert_eq!(ColorDepth::Auto.cycle(1), ColorDepth::Truecolor);
    assert_eq!(ColorDepth::Auto.cycle(-1), ColorDepth::Ansi16);
    let mut d = ColorDepth::Palette256;
    for _ in 0..4 {
        d = d.cycle(1);
    }
    assert_eq!(d, ColorDepth::Palette256);
    assert_eq!(ColorDepth::Auto.resolve(ColorDepth::Ansi16), ColorDepth::Ansi16);
    assert_eq!(ColorDepth::Truecolor.resolve(ColorDepth::Ansi16), ColorDepth::Truecolor);
    assert_eq!(ColorDepth::Palette256.label(), "256");
}

#[test]
fn detect_reads_colorterm() {
    assert_eq!(detect(Some("TrueColor"), None), ColorDepth::Truecolor);
    assert_eq!(detect(Some("x-24bit-y"), Some("xterm")), ColorDepth::Truecolor);
    assert_eq!(detect(Some("yes"), Some("xterm-256color")), ColorDepth::Palette256);
    assert_eq!(detect(None, None), ColorDepth::Palette256);
}

#[test]
fn palette256_picks_the_nearest_gray() {
    assert_eq!(rgb_to_256(17, 17, 17), 233);
    assert_eq!(rgb_to_256(238, 238, 238), 255);
    assert_eq!(rgb_to_256(12, 13, 14), 232);
    assert_eq!(rgb_to_256(3, 3, 3), 16);
}

#[test]
fn palette256_entries_map_to_themselves() {
    for code in 16u8..=255 {
        let (r, g, b) = indexed_to_rgb(code);
        assert_eq!(rgb_to_256(r, g, b), code);
    }
}
