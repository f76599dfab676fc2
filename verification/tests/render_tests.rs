use terminal_cam::color::ColorDepth;
use terminal_cam::render::{
    clamp_u8, fill_screenshot_cell, render, render_screenshot_cells, RenderConfig, RenderMode, RenderState,
    RenderedCell,
};
use terminal_cam::style::Style;

fn cell(rgb: (u8, u8, u8), ch: char, emit_color: bool) -> Option<RenderedCell> {
    Some(RenderedCell { rgb, ch, emit_color })
}

fn truecolor_cfg() -> RenderConfig {
    RenderConfig { depth: ColorDepth::Truecolor, ..RenderConfig::default() }
}

#[test]
fn default_config_values() {
    let cfg = RenderConfig::default();
    assert_eq!(cfg.style, Style::Color);
    assert_eq!(cfg.mode, RenderMode::Ascii);
    assert_eq!(cfg.depth, ColorDepth::Auto);
    assert_eq!(cfg.effective_depth(), ColorDepth::Palette256);
    assert_eq!(cfg.contrast, 12);
    assert_eq!(cfg.brightness, 0);
    assert!(cfg.mirror);
}

#[test]
fn frame_dedups_colors_and_ends_rows() {
    let cells = vec![
        cell((1, 2, 3), 'a', true),
        cell((1, 2, 3), 'b', true),
        None,
        cell((9, 9, 9), 'c', true),
    ];
    let mut state = RenderState::new();
    let mut out = String::new();
    render(Some(&cells), 2, 2, &truecolor_cfg(), &mut state, None, &mut out);
    assert_eq!(
        out,
        "\x1b[?2026h\x1b[H\x1b[38;2;1;2;3mab\x1b[0m\r\n \x1b[38;2;9;9;9mc\x1b[0m"
    );
}

#[test]
fn frame_without_cells_is_just_the_header() {
    let mut state = RenderState::new();
    let mut out = String::from("stale");
    render(None, 3, 3, &truecolor_cfg(), &mut state, None, &mut out);
    assert_eq!(out, "\x1b[?2026h\x1b[H");
}

#[test]
fn masked_span_skips_cells() {
    let cells = vec![
        cell((0, 0, 0), 'a', false),
        cell((0, 0, 0), 'b', false),
        cell((0, 0, 0), 'c', false),
        cell((0, 0, 0), 'd', false),
    ];
    let mut state = RenderState::new();
    let mut out = String::new();
    render(Some(&cells), 4, 1, &truecolor_cfg(), &mut state, Some((1, 0, 2, 1)), &mut out);
    assert_eq!(out, "\x1b[?2026h\x1b[Ha\x1b[2Cd\x1b[0m");
}

#[test]
fn palette_depth_emits_indexed_escape() {
    let cells = vec![cell((255, 0, 0), '#', true)];
    let mut state = RenderState::new();
    let mut out = String::new();
    render(Some(&cells), 1, 1, &RenderConfig::default(), &mut state, None, &mut out);
    assert_eq!(out, "\x1b[?2026h\x1b[H\x1b[38;5;196m#\x1b[0m");
}

#[test]
fn prepare_sizes_trail_buffer() {
    let mut state = RenderState::new();
    state.prepare(3, 2, Style::Color);
    state.prepare(3, 2, Style::Color);
}

#[test]
fn clamp_u8_saturates() {
    assert_eq!(clamp_u8(-5), 0);
    assert_eq!(clamp_u8(300), 255);
    assert_eq!(clamp_u8(77), 77);
}

#[test]
fn fill_cell_paints_its_box_only() {
    let width = 16usize;
    let mut img = vec![0u8; width * 16 * 3];
    fill_screenshot_cell(&mut img, width, 8, 0, (1, 2, 3));
    assert_eq!(&img[0..3], &[0, 0, 0]);
    assert_eq!(&img[24..27], &[1, 2, 3]);
    assert_eq!(&img[(15 * width + 15) * 3..(15 * width + 16) * 3], &[1, 2, 3]);
    assert_eq!(&img[(15 * width + 7) * 3..(15 * width + 8) * 3], &[0, 0, 0]);
}

#[test]
fn screenshot_blocks_and_glyph_jobs() {
    let cfg = RenderConfig { mode: RenderMode::Blocks, depth: ColorDepth::Truecolor, ..RenderConfig::default() };
    let cells = vec![cell((10, 20, 30), '\u{2588}', true), None];
    let (img, jobs) = render_screenshot_cells(Some(&cells), 2, 1, &cfg, false).unwrap();
    assert_eq!(img.width, 16);
    assert_eq!(img.height, 16);
    assert_eq!(img.rgb.len(), 16 * 16 * 3);
    assert_eq!(&img.rgb[0..3], &[10, 20, 30]);
    assert_eq!(&img.rgb[8 * 3..8 * 3 + 3], &[0, 0, 0]);
    assert!(jobs.is_empty());

    let ascii = RenderConfig { depth: ColorDepth::Truecolor, ..RenderConfig::default() };
    assert!(render_screenshot_cells(Some(&cells), 2, 1, &ascii, false).is_none());
    let (img, jobs) = render_screenshot_cells(Some(&cells), 2, 1, &ascii, true).unwrap();
    assert!(img.rgb.iter().all(|&b| b == 0));
    assert_eq!(jobs.len(), 1);
    assert_eq!((jobs[0].cell_x, jobs[0].cell_y, jobs[0].color, jobs[0].ch), (0, 0, (10, 20, 30), '\u{2588}'));
    assert!(render_screenshot_cells(None, 2, 1, &ascii, true).is_none());
}

fn gray_cells(cols: usize, rows: usize, ch: char) -> Vec<Option<RenderedCell>> {
    vec![cell((128, 128, 128), ch, true); cols * rows]
}

#[test]
fn screenshot_uses_cell_scale() {
    let cfg = RenderConfig::default();
    let cells = gray_cells(3, 2, 'T');
    let (image, _jobs) = render_screenshot_cells(Some(&cells), 3, 2, &cfg, true).unwrap();

    assert_eq!(image.width, 24);
    assert_eq!(image.height, 32);
    assert_eq!(image.rgb.len(), 24 * 32 * 3);
}

#[test]
fn ascii_screenshot_renders_glyph_shape() {
    let mut cfg = RenderConfig::default();
    cfg.mode = RenderMode::Ascii;
    let (ascii, jobs) = render_screenshot_cells(Some(&gray_cells(1, 1, 'T')), 1, 1, &cfg, true).unwrap();

    cfg.mode = RenderMode::Blocks;
    let (blocks, _) = render_screenshot_cells(Some(&gray_cells(1, 1, '\u{2588}')), 1, 1, &cfg, true).unwrap();

    assert!(ascii.rgb.chunks_exact(3).any(|pixel| pixel == [0, 0, 0]));
    assert!(blocks.rgb.chunks_exact(3).all(|pixel| pixel != [0, 0, 0]));
    assert_eq!(jobs.len(), 1);
}

#[test]
fn empty_frame_accepts_any_config_and_mask() {
    let mut state = RenderState::new();
    let mut out = String::from("stale");
    let cfg = RenderConfig { detected: ColorDepth::Auto, ..RenderConfig::default() };
    render(None, 0, 0, &cfg, &mut state, Some((0, 0, 0, 5)), &mut out);
    assert_eq!(out, "\x1b[?2026h\x1b[H");
}
