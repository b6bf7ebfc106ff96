use hyprresume::collections::StringMap;
use hyprresume::config::{Config, GeneralConfig, RulesConfig};
use hyprresume::models::TrackedWindow;
use hyprresume::state::StateManager;

fn test_config(exclude: Vec<&str>, allowed: Vec<&str>) -> Config {
    Config {
        general: GeneralConfig {
            save_interval: 60,
            session_dir: "/tmp/hyprresume-test".into(),
            restore_on_start: false,
            per_window_launch: false,
            restore_geometry: false,
            restore_layout: true,
        },
        rules: RulesConfig {
            exclude: exclude.into_iter().map(String::from).collect(),
            include_only: allowed.into_iter().map(String::from).collect(),
        },
        overrides: StringMap::new(),
    }
}

fn make_window(address: &str, app_id: &str, workspace: &str) -> TrackedWindow {
    TrackedWindow {
        address: address.to_string(),
        app_id: app_id.to_string(),
        launch_cmd: format!("{app_id}-cmd"),
        workspace: workspace.to_string(),
        monitor: String::new(),
        position: (0, 0),
        size: (800, 600),
        floating: false,
        fullscreen: false,
        pid: 0,
        profile: None,
    }
}

// --- should_track ---

#[test]
fn track_empty_class_returns_false() {
    let state = StateManager::new(&test_config(vec![], vec![]));
    assert!(!state.should_track(""));
}

#[test]
fn track_normal_class() {
    let state = StateManager::new(&test_config(vec![], vec![]));
    assert!(state.should_track("firefox"));
}

#[test]
fn track_excluded_exact() {
    let state = StateManager::new(&test_config(vec![r"^firefox$"], vec![]));
    assert!(!state.should_track("firefox"));
    assert!(state.should_track("firefox-nightly"));
}

#[test]
fn track_excluded_prefix() {
    let state = StateManager::new(&test_config(vec![r"^xdg-desktop-portal.*"], vec![]));
    assert!(!state.should_track("xdg-desktop-portal-gtk"));
    assert!(!state.should_track("xdg-desktop-portal-hyprland"));
    assert!(state.should_track("firefox"));
}

#[test]
fn track_include_allowlist() {
    let state = StateManager::new(&test_config(vec![], vec![r"^firefox$", r"^code$"]));
    assert!(state.should_track("firefox"));
    assert!(state.should_track("code"));
    assert!(!state.should_track("discord"));
}

#[test]
fn track_exclude_takes_precedence_over_include() {
    let state = StateManager::new(&test_config(
        vec![r"^firefox$"],
        vec![r"^firefox$", r"^code$"],
    ));
    assert!(!state.should_track("firefox"));
    assert!(state.should_track("code"));
}

#[test]
fn track_default_excludes() {
    let state = StateManager::new(&Config::default());
    assert!(!state.should_track("xdg-desktop-portal-gtk"));
    assert!(!state.should_track("org.kde.polkitagent"));
    assert!(state.should_track("firefox"));
}

#[test]
fn track_invalid_regex_ignored() {
    let state = StateManager::new(&test_config(vec![r"[invalid"], vec![]));
    assert!(state.should_track("firefox"));
}

// --- add / remove ---

#[test]
fn add_and_count() {
    let mut state = StateManager::new(&test_config(vec![], vec![]));
    assert_eq!(state.window_count(), 0);

    state.add(make_window("0xabc", "firefox", "1"));
    assert_eq!(state.window_count(), 1);

    state.add(make_window("0xdef", "code", "2"));
    assert_eq!(state.window_count(), 2);
}

#[test]
fn add_same_address_overwrites() {
    let mut state = StateManager::new(&test_config(vec![], vec![]));

    state.add(make_window("0xabc", "firefox", "1"));
    state.add(make_window("0xabc", "firefox", "3"));
    assert_eq!(state.window_count(), 1);

    let windows = state.windows();
    assert_eq!(windows[0].workspace, "3");
}

#[test]
fn remove_existing() {
    let mut state = StateManager::new(&test_config(vec![], vec![]));
    state.add(make_window("0xabc", "firefox", "1"));

    let removed = state.remove("0xabc");
    assert!(removed.is_some());
    assert_eq!(removed.unwrap().app_id, "firefox");
    assert_eq!(state.window_count(), 0);
}

#[test]
fn remove_nonexistent() {
    let mut state = StateManager::new(&test_config(vec![], vec![]));
    let removed = state.remove("0xnonexistent");
    assert!(removed.is_none());
}

#[test]
fn remove_normalizes_0x_prefix() {
    let mut state = StateManager::new(&test_config(vec![], vec![]));
    state.add(make_window("0xabc", "firefox", "1"));

    let removed = state.remove("abc");
    assert!(removed.is_some());
}

#[test]
fn remove_address_stored_without_prefix() {
    let mut state = StateManager::new(&test_config(vec![], vec![]));
    state.add(make_window("abc", "firefox", "1"));

    let removed = state.remove("0xabc");
    assert!(removed.is_some());
}

// --- update_workspace ---

#[test]
fn update_workspace_existing() {
    let mut state = StateManager::new(&test_config(vec![], vec![]));
    state.add(make_window("0xabc", "firefox", "1"));

    state.update_workspace("0xabc", "5");

    let windows = state.windows();
    assert_eq!(windows[0].workspace, "5");
}

#[test]
fn update_workspace_nonexistent_is_noop() {
    let mut state = StateManager::new(&test_config(vec![], vec![]));
    state.add(make_window("0xabc", "firefox", "1"));
    state.update_workspace("0xnonexistent", "5");

    let windows = state.windows();
    assert_eq!(windows[0].workspace, "1");
}

// --- update_floating ---

#[test]
fn update_floating_toggle() {
    let mut state = StateManager::new(&test_config(vec![], vec![]));
    state.add(make_window("0xabc", "firefox", "1"));

    assert!(!state.windows()[0].floating);

    state.update_floating("0xabc", true);
    assert!(state.windows()[0].floating);

    state.update_floating("0xabc", false);
    assert!(!state.windows()[0].floating);
}

// --- windows() ---

#[test]
fn windows_returns_all() {
    let mut state = StateManager::new(&test_config(vec![], vec![]));
    state.add(make_window("0xa", "firefox", "1"));
    state.add(make_window("0xb", "code", "2"));

    let windows = state.windows();
    assert_eq!(windows.len(), 2);

    let app_ids: Vec<&str> = windows.iter().map(|w| w.app_id.as_str()).collect();
    assert!(app_ids.contains(&"firefox"));
    assert!(app_ids.contains(&"code"));
}

// --- what operations keep ---

#[test]
fn updates_touch_one_window_only() {
    let mut state = StateManager::new(&test_config(vec![], vec![]));
    state.add(make_window("0xa", "firefox", "1"));
    state.add(make_window("0xb", "code", "2"));
    state.update_workspace("0xA", "7");
    state.update_floating("b", true);
    let windows = state.windows();
    let firefox = windows.iter().find(|w| w.app_id == "firefox").unwrap();
    let code = windows.iter().find(|w| w.app_id == "code").unwrap();
    assert_eq!(firefox.workspace, "7");
    assert!(!firefox.floating);
    assert_eq!(code.workspace, "2");
    assert!(code.floating);
}

#[test]
fn rules_outlive_updates() {
    let mut state = StateManager::new(&test_config(vec!["^a$"], vec!["b"]));
    state.add(make_window("0xa", "firefox", "1"));
    state.remove("0xa");
    assert!(!state.should_track("a"));
    assert!(state.should_track("abc"));
    assert!(!state.should_track("xyz"));
}
