use hyprresume::config::{
    default_excludes, default_save_interval, default_session_dir, default_true, Config, RawConfig,
    RawGeneral, RawRules,
};

fn text_at(table: &toml::Table, key: &str) -> Option<String> {
    table.get(key).and_then(|v| v.as_str()).map(String::from)
}

fn flag_at(table: &toml::Table, key: &str) -> Option<bool> {
    table.get(key).and_then(|v| v.as_bool())
}

fn list_at(table: &toml::Table, key: &str) -> Option<Vec<String>> {
    let items = table.get(key)?.as_array()?;
    Some(
        items
            .iter()
            .filter_map(|v| v.as_str().map(String::from))
            .collect(),
    )
}

/// The settings that stand in a file with this text.
fn settings(text: &str) -> Option<RawConfig> {
    let table: toml::Table = text.parse().ok()?;
    let general = table.get("general").and_then(|v| v.as_table());
    let rules = table.get("rules").and_then(|v| v.as_table());
    let overrides = table.get("overrides").and_then(|v| v.as_table());
    Some(RawConfig {
        general: general.map(|t| RawGeneral {
            save_interval: t
                .get("save_interval")
                .and_then(|v| v.as_integer())
                .and_then(|n| u64::try_from(n).ok()),
            session_dir: text_at(t, "session_dir"),
            restore_on_start: flag_at(t, "restore_on_start"),
            per_window_launch: flag_at(t, "per_window_launch"),
            restore_geometry: flag_at(t, "restore_geometry"),
            restore_layout: flag_at(t, "restore_layout"),
        }),
        rules: rules.map(|t| RawRules {
            exclude: list_at(t, "exclude"),
            include_only: list_at(t, "include"),
        }),
        overrides: overrides.map_or(vec![], |t| {
            t.iter()
                .map(|(k, v)| (k.clone(), v.as_str().unwrap().to_string()))
                .collect()
        }),
    })
}

fn load(text: &str) -> Config {
    Config::load(Some(settings(text).unwrap()))
}

#[test]
fn defaults_are_sensible() {
    let cfg = Config::default();
    assert_eq!(cfg.general.save_interval, 120);
    assert!(cfg.general.restore_on_start);
    assert!(cfg.general.per_window_launch);
    assert!(cfg.general.restore_geometry);
    assert!(!cfg.rules.exclude.is_empty());
    assert!(cfg.rules.include_only.is_empty());
    assert!(cfg.overrides.is_empty());
}

#[test]
fn load_missing_file_returns_defaults() {
    let cfg = Config::load(None);
    assert_eq!(cfg.general.save_interval, 120);
}

#[test]
fn load_empty_toml_returns_defaults() {
    let cfg = load("");
    assert_eq!(cfg.general.save_interval, 120);
    assert!(cfg.general.restore_on_start);
}

#[test]
fn load_partial_toml() {
    let cfg = load(
        r"
[general]
save_interval = 60
restore_on_start = false
",
    );
    assert_eq!(cfg.general.save_interval, 60);
    assert!(!cfg.general.restore_on_start);
    assert!(cfg.general.restore_geometry);
}

#[test]
fn load_full_toml() {
    let cfg = load(
        r#"
[general]
save_interval = 30
session_dir = "/tmp/my-sessions"
restore_on_start = false
per_window_launch = true
restore_geometry = false

[rules]
exclude = ["^steam.*", "^lutris.*"]
include = ["^firefox$"]

[overrides]
"app.zen_browser.zen" = "flatpak run app.zen_browser.zen"
"steam_app_.*" = ""
"#,
    );
    assert_eq!(cfg.general.save_interval, 30);
    assert_eq!(cfg.general.session_dir, "/tmp/my-sessions");
    assert!(!cfg.general.restore_on_start);
    assert!(cfg.general.per_window_launch);
    assert!(!cfg.general.restore_geometry);
    assert_eq!(cfg.rules.exclude.len(), 2);
    assert_eq!(cfg.rules.include_only.len(), 1);
    assert_eq!(cfg.overrides.len(), 2);
    assert_eq!(
        cfg.overrides.get("app.zen_browser.zen").unwrap(),
        "flatpak run app.zen_browser.zen"
    );
    assert_eq!(cfg.overrides.get("steam_app_.*").unwrap(), "");
}

#[test]
fn session_dir_expands_tilde() {
    let cfg = Config::default();
    let dir = cfg.session_dir(Some("/home/user"));
    // Should not contain tilde
    assert!(!dir.contains('~'));
    // Should end with /sessions
    assert!(dir.ends_with("sessions"));
    assert_eq!(
        dir,
        "/home/user/.local/share/hyprresume/sessions"
    );
}

#[test]
fn session_dir_without_a_home_is_temporary() {
    let cfg = Config::default();
    assert_eq!(
        cfg.session_dir(None),
        "/tmp/.local/share/hyprresume/sessions"
    );
}

#[test]
fn session_dir_that_is_absolute_stays() {
    let mut cfg = Config::default();
    cfg.general.session_dir = "/srv/state".to_string();
    assert_eq!(cfg.session_dir(Some("/home/user")), "/srv/state/sessions");
}

#[test]
fn single_defaults() {
    assert_eq!(default_save_interval(), 120);
    assert_eq!(default_session_dir(), "~/.local/share/hyprresume");
    assert!(default_true());
    assert_eq!(
        default_excludes(),
        vec!["^xdg-desktop-portal.*", "^org\\.kde\\.polkit.*"]
    );
    assert!(Config::default_general().restore_layout);
}

#[test]
fn default_path_is_below_the_configuration_directory() {
    assert_eq!(
        Config::default_path(Some("/home/user/.config")),
        "/home/user/.config/hypr/hyprresume.toml"
    );
    assert_eq!(
        Config::default_path(None),
        "~/.config/hypr/hyprresume.toml"
    );
}

#[test]
fn later_override_of_a_key_counts() {
    let cfg = Config::load(Some(RawConfig {
        general: None,
        rules: None,
        overrides: vec![
            ("a".to_string(), "first".to_string()),
            ("a".to_string(), "second".to_string()),
        ],
    }));
    assert_eq!(cfg.overrides.len(), 1);
    assert_eq!(cfg.overrides.get("a").unwrap(), "second");
}
