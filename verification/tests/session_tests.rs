use terminal_cam::camera::CameraInfo;
use terminal_cam::config::{AppConfig, EnvPaths, Platform};
use terminal_cam::color::ColorDepth;
use terminal_cam::menu::{KeyCode, KeyEvent, MenuState, MOD_CONTROL};
use terminal_cam::render::{RenderConfig, RenderMode};
use terminal_cam::session::{
    draw_status, parse_camera_choice, single_camera, Command, Event, PickError, Session,
};
use terminal_cam::style::Style;

fn cams() -> Vec<CameraInfo> {
    vec![
        CameraInfo { index: 4, name: "A".to_string() },
        CameraInfo { index: 7, name: "B".to_string() },
    ]
}

fn key(code: KeyCode) -> Event {
    Event::Key(KeyEvent { code, modifiers: 0 })
}

fn session() -> Session {
    Session {
        in_menu: false,
        current_camera: 4,
        cfg: RenderConfig::default(),
        menu: MenuState::new(cams(), 4, "/tmp".to_string()),
    }
}

#[test]
fn camera_prompt_parsing() {
    let c = cams();
    assert_eq!(parse_camera_choice(&c, "\n"), Ok(4));
    assert_eq!(parse_camera_choice(&c, " 2 \n"), Ok(7));
    assert_eq!(parse_camera_choice(&c, "+1"), Ok(4));
    assert_eq!(parse_camera_choice(&c, "3"), Err(PickError::OutOfRange(3)));
    assert_eq!(parse_camera_choice(&c, "0"), Err(PickError::OutOfRange(0)));
    assert_eq!(parse_camera_choice(&c, "two"), Err(PickError::InvalidSelection));
    assert_eq!(parse_camera_choice(&c, "-1"), Err(PickError::InvalidSelection));
    assert_eq!(parse_camera_choice(&c, "+"), Err(PickError::InvalidSelection));
    assert_eq!(
        parse_camera_choice(&c, "99999999999999999999999999"),
        Err(PickError::InvalidSelection)
    );
    assert_eq!(single_camera(&c), None);
    assert_eq!(single_camera(&c[..1].to_vec()), Some(4));
}

#[test]
fn space_takes_screenshot_and_esc_opens_menu() {
    let mut s = session();
    assert!(matches!(s.step(key(KeyCode::Char(' '))), Command::Screenshot));
    assert!(matches!(s.step(key(KeyCode::Esc)), Command::Nothing));
    assert!(s.in_menu);
    assert!(matches!(s.step(key(KeyCode::Esc)), Command::ClearScreen));
    assert!(!s.in_menu);
    assert!(matches!(s.step(Event::Resize), Command::ClearScreen));
    assert!(matches!(
        s.step(Event::Key(KeyEvent { code: KeyCode::Char('c'), modifiers: MOD_CONTROL })),
        Command::Quit
    ));
}

#[test]
fn menu_actions_change_config() {
    let mut s = session();
    s.step(key(KeyCode::Esc));
    // Row 0: camera source.
    assert!(matches!(s.step(key(KeyCode::Right)), Command::SwitchCamera(7)));
    assert_eq!(s.current_camera, 7);
    s.step(key(KeyCode::Down));
    s.step(key(KeyCode::Right));
    assert_eq!(s.cfg.style, Style::Vivid);
    s.step(key(KeyCode::Down));
    assert!(matches!(s.step(key(KeyCode::Right)), Command::ClearScreen));
    assert_eq!(s.cfg.mode, RenderMode::Blocks);
    s.step(key(KeyCode::Down));
    s.step(key(KeyCode::Left));
    assert_eq!(s.cfg.depth, ColorDepth::Ansi16);
    s.step(key(KeyCode::Down));
    s.step(key(KeyCode::Right));
    assert!(!s.cfg.mirror);
    s.step(key(KeyCode::Down));
    for _ in 0..30 {
        s.step(key(KeyCode::Right));
    }
    assert_eq!(s.cfg.brightness, 100);
    s.step(key(KeyCode::Down));
    for _ in 0..40 {
        s.step(key(KeyCode::Left));
    }
    assert_eq!(s.cfg.contrast, 1);
}

#[test]
fn status_line_is_cut_and_padded() {
    let mut buf = String::new();
    draw_status("saved", 8, 3, &mut buf);
    assert_eq!(buf, "\x1b[3;1H\x1b[7msaved   \x1b[0m");
    let mut buf = String::new();
    draw_status("screenshot saved", 4, 1, &mut buf);
    assert_eq!(buf, "\x1b[1;1H\x1b[7mscre\x1b[0m");
    let mut buf = String::new();
    draw_status("x", 0, 5, &mut buf);
    assert_eq!(buf, "");
}

#[test]
fn esc_twice_opens_then_closes_menu() {
    let mut s = session();
    s.cfg.brightness = 15;
    assert!(matches!(s.step(key(KeyCode::Esc)), Command::Nothing));
    assert!(s.in_menu);
    assert!(matches!(s.step(key(KeyCode::Esc)), Command::ClearScreen));
    assert!(!s.in_menu);
    assert_eq!(s.cfg, RenderConfig { brightness: 15, ..RenderConfig::default() });
    assert_eq!(s.current_camera, 4);
    assert_eq!(s.menu.selected, 0);
}

#[test]
fn committing_a_screenshot_dir() {
    let env = EnvPaths {
        platform: Platform::OtherUnix,
        appdata: None,
        home: Some("/h".to_string()),
        userprofile: None,
        xdg_config_home: None,
        current_dir: Some("/w".to_string()),
    };
    let mut cfg = AppConfig::from_env(&env).unwrap();
    let mut s = session();
    let next = cfg.with_screenshot_dir("shots", &env).unwrap();
    let text = s.commit_screenshot_dir(&mut cfg, Ok(next));
    assert_eq!(text, "screenshot path saved: /w/shots");
    assert_eq!(cfg.dir(), "/w/shots");
    assert_eq!(s.menu.screenshot_dir, "/w/shots");

    let text = s.commit_screenshot_dir(&mut cfg, Err("disk full".to_string()));
    assert_eq!(text, "screenshot path failed: disk full");
    assert_eq!(cfg.dir(), "/w/shots");
    assert_eq!(s.menu.screenshot_dir, "/w/shots");
}
