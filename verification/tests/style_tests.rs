use terminal_cam::render::RenderMode;
use terminal_cam::style::{Style, ALL};

#[test]
fn cycle_wraps() {
    let mut s = Style::Color;
    for _ in 0..ALL.len() {
        s = s.cycle(1);
    }
    assert_eq!(s, Style::Color);
}

#[test]
fn cycle_back_undoes_forward() {
    for &s in &ALL {
        assert_eq!(s.cycle(3).cycle(-3), s);
    }
    assert_eq!(Style::Color.cycle(-1), Style::Lsd);
    assert_eq!(RenderMode::Ascii.cycle(1), RenderMode::Blocks);
    assert_eq!(RenderMode::Ascii.cycle(-1), RenderMode::Blocks);
    assert_eq!(RenderMode::Blocks.cycle(2), RenderMode::Blocks);
}

#[test]
fn labels_and_color_flag() {
    assert_eq!(Style::VanGogh.label(), "Van Gogh");
    assert_eq!(Style::BlackWhite.label(), "B&W");
    assert!(!Style::BlackWhite.emits_color());
    assert!(Style::Lsd.emits_color());
    assert_eq!(RenderMode::Blocks.label(), "Blocks");
}
