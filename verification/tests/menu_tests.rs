use terminal_cam::camera::CameraInfo;
use terminal_cam::menu::{draw, menu_rect, Action, KeyCode, KeyEvent, MenuState, MOD_ALT, MOD_CONTROL};
use terminal_cam::render::RenderConfig;

fn key(code: KeyCode) -> KeyEvent {
    KeyEvent { code, modifiers: 0 }
}

fn cams() -> Vec<CameraInfo> {
    vec![
        CameraInfo { index: 0, name: "Built-in".to_string() },
        CameraInfo { index: 3, name: "USB".to_string() },
    ]
}

#[test]
fn up_down_wrap_around() {
    let mut m = MenuState::new(cams(), 0, "/tmp/shots".to_string());
    assert!(matches!(m.on_key(key(KeyCode::Up)), Action::Nothing));
    assert_eq!(m.selected, 9);
    assert!(matches!(m.on_key(key(KeyCode::Down)), Action::Nothing));
    assert_eq!(m.selected, 0);
}

#[test]
fn quit_and_close_keys() {
    let mut m = MenuState::new(cams(), 0, "/tmp".to_string());
    assert!(matches!(m.on_key(key(KeyCode::Esc)), Action::Close));
    assert!(matches!(m.on_key(key(KeyCode::Char('q'))), Action::Quit));
    assert!(matches!(m.on_key(KeyEvent { code: KeyCode::Char('c'), modifiers: MOD_CONTROL }), Action::Quit));
    assert!(matches!(m.on_key(key(KeyCode::Char('c'))), Action::Nothing));
}

#[test]
fn camera_row_switches_and_wraps() {
    let mut m = MenuState::new(cams(), 0, "/tmp".to_string());
    assert!(matches!(m.on_key(key(KeyCode::Right)), Action::SwitchCamera(3)));
    assert_eq!(m.current_camera, 3);
    assert!(matches!(m.on_key(key(KeyCode::Right)), Action::SwitchCamera(0)));
    assert!(matches!(m.on_key(key(KeyCode::Left)), Action::SwitchCamera(3)));
    let mut empty = MenuState::new(Vec::new(), 0, "/tmp".to_string());
    assert!(matches!(empty.on_key(key(KeyCode::Right)), Action::Nothing));
}

#[test]
fn value_rows_emit_adjustments() {
    let mut m = MenuState::new(cams(), 0, "/tmp".to_string());
    m.selected = 5;
    assert!(matches!(m.on_key(key(KeyCode::Left)), Action::AdjustBrightness(-5)));
    m.selected = 6;
    assert!(matches!(m.on_key(key(KeyCode::Enter)), Action::AdjustContrast(1)));
    m.selected = 1;
    assert!(matches!(m.on_key(key(KeyCode::Right)), Action::CycleStyle(1)));
    m.selected = 4;
    assert!(matches!(m.on_key(key(KeyCode::Left)), Action::ToggleMirror));
}

#[test]
fn path_editor_round_trip() {
    let mut m = MenuState::new(cams(), 0, "/tmp/a".to_string());
    m.selected = 7;
    assert!(matches!(m.on_key(key(KeyCode::Enter)), Action::Nothing));
    assert!(m.is_editing_text());
    assert!(matches!(m.on_key(key(KeyCode::Char('b'))), Action::Nothing));
    assert!(matches!(m.on_key(key(KeyCode::Backspace)), Action::Nothing));
    assert!(matches!(m.on_key(key(KeyCode::Backspace)), Action::Nothing));
    assert!(matches!(m.on_key(KeyEvent { code: KeyCode::Char('x'), modifiers: MOD_ALT }), Action::Nothing));
    assert!(matches!(m.on_key(key(KeyCode::Char('z'))), Action::Nothing));
    match m.on_key(key(KeyCode::Enter)) {
        Action::SetScreenshotDir(s) => assert_eq!(s, "/tmp/z"),
        _ => panic!("expected SetScreenshotDir"),
    }
    assert!(!m.is_editing_text());
}

#[test]
fn path_editor_escape_and_ctrl_c() {
    let mut m = MenuState::new(cams(), 0, "/tmp".to_string());
    m.selected = 7;
    m.on_key(key(KeyCode::Right));
    assert!(matches!(m.on_key(key(KeyCode::Esc)), Action::Nothing));
    assert!(!m.is_editing_text());
    m.on_key(key(KeyCode::Right));
    assert!(matches!(m.on_key(KeyEvent { code: KeyCode::Char('c'), modifiers: MOD_CONTROL }), Action::Quit));
    assert!(!m.is_editing_text());
}

#[test]
fn overlay_layout_and_contents() {
    let m = MenuState::new(cams(), 3, "/tmp/shots".to_string());
    let cfg = RenderConfig { brightness: -5, ..RenderConfig::default() };
    assert_eq!(menu_rect(&m, 100, 40, "0.1.0"), (9, 11, 81, 18));
    let mut buf = String::new();
    draw(&m, &cfg, 100, 40, "0.1.0", &mut buf);
    assert!(buf.starts_with("\x1b[0m\x1b[12;10H╭"));
    assert!(buf.contains("\x1b[7m ▸ Camera source      USB"));
    assert!(buf.contains("Brightness         -0.05"));
    assert!(buf.contains("Contrast           1.2"));
    assert!(buf.contains("Color depth        auto · 256"));
    assert!(buf.contains("Screenshot path    /tmp/shots"));
    assert!(buf.contains("v0.1.0 · © 2026 terminal-cam"));
    assert!(buf.ends_with("\x1b[0m"));
}

#[test]
fn path_editor_typing_then_enter() {
    let mut m = MenuState::new(cams(), 0, "/a".to_string());
    m.selected = 7;
    assert!(matches!(m.on_key(key(KeyCode::Enter)), Action::Nothing));
    for c in "/bc".chars() {
        assert!(matches!(m.on_key(key(KeyCode::Char(c))), Action::Nothing));
    }
    assert!(matches!(m.on_key(KeyEvent { code: KeyCode::Char('x'), modifiers: MOD_ALT }), Action::Nothing));
    assert_eq!(m.path_editor.as_deref(), Some("/a/bc"));
    match m.on_key(key(KeyCode::Enter)) {
        Action::SetScreenshotDir(s) => assert_eq!(s, "/a/bc"),
        _ => panic!("expected SetScreenshotDir"),
    }
    assert!(!m.is_editing_text());
}

#[test]
fn path_editor_backspace_on_empty_stays_empty() {
    let mut m = MenuState::new(cams(), 0, String::new());
    m.selected = 7;
    m.on_key(key(KeyCode::Enter));
    assert!(matches!(m.on_key(key(KeyCode::Backspace)), Action::Nothing));
    assert_eq!(m.path_editor.as_deref(), Some(""));
}
