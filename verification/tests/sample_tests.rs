use terminal_cam::render::RenderMode;
use terminal_cam::sample::{block_average, cell_glyph, source_column};

#[test]
fn mirrored_columns() {
    assert_eq!(source_column(0, 10, true), 9);
    assert_eq!(source_column(9, 10, true), 0);
    assert_eq!(source_column(3, 10, false), 3);
}

#[test]
fn block_average_over_window() {
    // 3x2 frame; pixel (x, y) has channels (10x + y, 100, 2y).
    let mut rgb = Vec::new();
    for y in 0..2u8 {
        for x in 0..3u8 {
            rgb.extend_from_slice(&[10 * x + y, 100, 2 * y]);
        }
    }
    assert_eq!(block_average(&rgb, 3, 1, 3, 0, 2), Some((15, 100, 1)));
    assert_eq!(block_average(&rgb, 3, 0, 3, 1, 2), Some((11, 100, 2)));
    assert_eq!(block_average(&rgb, 3, 2, 2, 0, 2), None);
    assert_eq!(block_average(&rgb, 3, 0, 3, 1, 1), None);
}

#[test]
fn glyph_per_render_mode() {
    assert_eq!(cell_glyph(RenderMode::Ascii, true, 0, 4), ' ');
    assert_eq!(cell_glyph(RenderMode::Ascii, false, 94, 0), '$');
    assert_eq!(cell_glyph(RenderMode::Blocks, true, 0, 0), '\u{2588}');
    assert_eq!(cell_glyph(RenderMode::Blocks, false, 0, 2), '\u{2592}');
}
