use terminal_cam::config::{error_text, normalize_dir_input, AppConfig, ConfigError, EnvPaths, Platform};

fn env() -> EnvPaths {
    EnvPaths {
        platform: Platform::OtherUnix,
        appdata: None,
        home: Some("/home/u".to_string()),
        userprofile: None,
        xdg_config_home: None,
        current_dir: Some("/work".to_string()),
    }
}

#[test]
fn normalize_expands_and_resolves() {
    assert_eq!(normalize_dir_input("  ~/shots ", &env()), Ok("/home/u/shots".to_string()));
    assert_eq!(normalize_dir_input("~", &env()), Ok("/home/u".to_string()));
    assert_eq!(normalize_dir_input("pics", &env()), Ok("/work/pics".to_string()));
    assert_eq!(normalize_dir_input("/abs/dir", &env()), Ok("/abs/dir".to_string()));
    assert_eq!(normalize_dir_input("~user", &env()), Ok("/work/~user".to_string()));
}

#[test]
fn normalize_rejects_bad_input() {
    assert_eq!(normalize_dir_input("   ", &env()), Err(ConfigError::EmptyPath));
    assert_eq!(normalize_dir_input("a\nb", &env()), Err(ConfigError::InvalidCharacter));
    let no_home = EnvPaths { home: Some(String::new()), userprofile: Some("/p".to_string()), ..env() };
    assert_eq!(normalize_dir_input("~/x", &no_home), Err(ConfigError::HomeNotSet));
    let no_cwd = EnvPaths { current_dir: None, ..env() };
    assert_eq!(normalize_dir_input("rel", &no_cwd), Err(ConfigError::CurrentDirUnavailable));
}

#[test]
fn defaults_from_environment() {
    let cfg = AppConfig::from_env(&env()).unwrap();
    assert_eq!(cfg.screenshot_dir, "/home/u/Pictures/terminal-cam");
    assert_eq!(cfg.path(), "/home/u/.config/terminal-cam/config");
    let mac = AppConfig::from_env(&EnvPaths { platform: Platform::MacOs, ..env() }).unwrap();
    assert_eq!(mac.path(), "/home/u/Library/Application Support/terminal-cam/config");
    let xdg = EnvPaths { xdg_config_home: Some("/cfg/".to_string()), ..env() };
    assert_eq!(AppConfig::from_env(&xdg).unwrap().path(), "/cfg/terminal-cam/config");
    let none = EnvPaths { home: None, userprofile: None, ..env() };
    assert!(matches!(AppConfig::from_env(&none), Err(ConfigError::HomeNotSet)));
}

#[test]
fn config_text_round_trip() {
    let mut cfg = AppConfig::from_env(&env()).unwrap();
    cfg.set_screenshot_dir_from_input("/data/shots", &env()).unwrap();
    let text = cfg.config_text();
    assert_eq!(text, "screenshot_dir=/data/shots\n");
    let mut other = AppConfig::from_env(&env()).unwrap();
    other.apply_config_text(&text, &env()).unwrap();
    assert_eq!(other.screenshot_dir, "/data/shots");
}

#[test]
fn config_text_comments_keys_and_errors() {
    let mut cfg = AppConfig::from_env(&env()).unwrap();
    cfg.apply_config_text("# comment\n\n  other = 1\r\n screenshot_dir = ~/x \n", &env()).unwrap();
    assert_eq!(cfg.screenshot_dir, "/home/u/x");
    assert_eq!(cfg.apply_config_text("a=1\nnot a pair\nscreenshot_dir=/y", &env()), Err(ConfigError::InvalidLine(2)));
    assert_eq!(cfg.screenshot_dir, "/home/u/x");
    assert_eq!(cfg.apply_config_text("screenshot_dir=", &env()), Err(ConfigError::EmptyPath));
}

#[test]
fn failed_set_keeps_directory() {
    let mut cfg = AppConfig::from_env(&env()).unwrap();
    assert_eq!(cfg.set_screenshot_dir_from_input("", &env()), Err(ConfigError::EmptyPath));
    assert_eq!(cfg.screenshot_dir, "/home/u/Pictures/terminal-cam");
}

#[test]
fn with_screenshot_dir_builds_a_copy() {
    let cfg = AppConfig::from_env(&env()).unwrap();
    let next = cfg.with_screenshot_dir("~/new", &env()).unwrap();
    assert_eq!(next.dir(), "/home/u/new");
    assert_eq!(next.path(), cfg.path());
    assert_eq!(cfg.dir(), "/home/u/Pictures/terminal-cam");
    assert_eq!(cfg.with_screenshot_dir(" ", &env()).err(), Some(ConfigError::EmptyPath));
}

#[test]
fn error_texts() {
    assert_eq!(error_text(ConfigError::EmptyPath, "/c"), "screenshot path cannot be empty");
    assert_eq!(error_text(ConfigError::HomeNotSet, "/c"), "HOME is not set");
    assert_eq!(error_text(ConfigError::InvalidLine(12), "/etc/cfg"), "invalid config line 12 in /etc/cfg");
}

fn win_env() -> EnvPaths {
    EnvPaths {
        platform: Platform::Windows,
        home: None,
        userprofile: Some("C:\\Users\\u".to_string()),
        appdata: Some("C:\\Users\\u\\AppData\\Roaming".to_string()),
        xdg_config_home: None,
        current_dir: Some("D:\\work".to_string()),
    }
}

#[test]
fn windows_paths_follow_windows_rules() {
    let env = win_env();
    assert_eq!(normalize_dir_input("C:\\shots", &env), Ok("C:\\shots".to_string()));
    assert_eq!(normalize_dir_input("E:/pics", &env), Ok("E:/pics".to_string()));
    assert_eq!(normalize_dir_input("\\\\srv\\share\\x", &env), Ok("\\\\srv\\share\\x".to_string()));
    assert_eq!(normalize_dir_input("pics", &env), Ok("D:\\work\\pics".to_string()));
    assert_eq!(normalize_dir_input("\\top", &env), Ok("D:\\top".to_string()));
    assert_eq!(normalize_dir_input("C:rel", &env), Ok("C:rel".to_string()));
    assert_eq!(normalize_dir_input("~/shots", &env), Ok("C:\\Users\\u\\shots".to_string()));
    assert_eq!(normalize_dir_input("/abs", &env), Ok("D:/abs".to_string()));
}

#[test]
fn windows_config_location() {
    let cfg = AppConfig::from_env(&win_env()).unwrap();
    assert_eq!(cfg.path(), "C:\\Users\\u\\AppData\\Roaming\\terminal-cam\\config");
    assert_eq!(cfg.dir(), "C:\\Users\\u\\Pictures\\terminal-cam");
    let no_appdata = EnvPaths { appdata: None, ..win_env() };
    assert_eq!(AppConfig::from_env(&no_appdata).unwrap().path(), "C:\\Users\\u\\.config\\terminal-cam\\config");
    let unix_appdata = EnvPaths { platform: Platform::OtherUnix, home: Some("/h".to_string()), ..win_env() };
    assert_eq!(AppConfig::from_env(&unix_appdata).unwrap().path(), "/h/.config/terminal-cam/config");
}
