use hyprresume::config::Config;
use hyprresume::models::{SessionFile, SessionMeta, TrackedWindow, WindowEntry};
use hyprresume::snapshot::{
    names_session, sanitize_session_name, window_to_entry, NameError, SessionListing,
    SnapshotEngine,
};
use hyprresume::state::StateManager;

/// A session directory that is held in memory: a path, and the session that
/// the file holds where it is readable.
struct Store {
    engine: SnapshotEngine,
    files: Vec<(String, Option<SessionFile>)>,
    clock: i64,
}

impl Store {
    fn new(per_window_launch: bool) -> Self {
        Store {
            engine: SnapshotEngine::new_with_dir("/sessions".to_string(), per_window_launch),
            files: vec![],
            clock: 0,
        }
    }

    fn holds(&self, path: &str) -> bool {
        self.files.iter().any(|f| f.0 == path)
    }

    fn put(&mut self, path: &str, name: &str, timestamp: i64) {
        let session = SessionFile {
            session: SessionMeta {
                name: name.to_string(),
                timestamp,
            },
            windows: vec![],
        };
        self.files.push((path.to_string(), Some(session)));
    }

    fn put_garbage(&mut self, path: &str) {
        self.files.push((path.to_string(), None));
    }

    fn save(&mut self, state: &StateManager, name: &str) -> Result<String, NameError> {
        self.clock += 1;
        let cwds = vec![None; state.window_count()];
        let save = self.engine.save(state, &cwds, name, self.clock)?;
        self.files.push((save.tmp_path.clone(), Some(save.session)));
        self.files.retain(|f| f.0 != save.final_path);
        for file in &mut self.files {
            if file.0 == save.tmp_path {
                file.0 = save.final_path.clone();
            }
        }
        Ok(save.final_path)
    }

    fn load(&self, name: &str) -> Result<&SessionFile, String> {
        let path = self.engine.load(name).map_err(|e| e.to_string())?;
        let file = self.files.iter().find(|f| f.0 == path);
        file.and_then(|f| f.1.as_ref())
            .ok_or_else(|| format!("reading {path}"))
    }

    fn delete(&mut self, name: &str) -> Result<(), NameError> {
        let path = self.engine.delete(name)?;
        self.files.retain(|f| f.0 != path);
        Ok(())
    }

    fn has(&self, name: &str) -> bool {
        let there = match self.engine.load(name) {
            Ok(path) => self.holds(&path),
            Err(_) => true,
        };
        self.engine.has_session(name, there)
    }

    fn list(&self) -> Result<Vec<(String, i64)>, NameError> {
        let listings = self
            .files
            .iter()
            .map(|f| SessionListing {
                path: f.0.clone(),
                meta: f.1.as_ref().map(|s| SessionMeta {
                    name: s.session.name.clone(),
                    timestamp: s.session.timestamp,
                }),
            })
            .collect();
        Ok(SnapshotEngine::list(&listings))
    }
}

fn make_state_with_windows(windows: Vec<(&str, &str, &str, bool)>) -> StateManager {
    let mut config = Config::default();
    config.general.session_dir = "/tmp/unused".to_string();
    let mut state = StateManager::new(&config);

    for (addr, app_id, workspace, floating) in windows {
        state.add(TrackedWindow {
            address: addr.to_string(),
            app_id: app_id.to_string(),
            launch_cmd: format!("{app_id}-cmd"),
            workspace: workspace.to_string(),
            monitor: String::new(),
            position: (100, 200),
            size: (800, 600),
            floating,
            fullscreen: false,
            pid: 0,
            profile: None,
        });
    }

    state
}

#[test]
fn save_and_load_roundtrip() {
    let mut engine = Store::new(false);

    let state = make_state_with_windows(vec![
        ("0xa", "firefox", "1", false),
        ("0xb", "code", "2", false),
    ]);

    let path = engine.save(&state, "test").unwrap();
    assert!(engine.holds(&path));

    let loaded = engine.load("test").unwrap();
    assert_eq!(loaded.session.name, "test");
    assert!(loaded.session.timestamp > 0);
    assert_eq!(loaded.windows.len(), 2);
}

#[test]
fn save_deduplicates_by_app_id() {
    let mut engine = Store::new(false);

    let state = make_state_with_windows(vec![
        ("0xa", "firefox", "1", false),
        ("0xb", "firefox", "2", false),
        ("0xc", "code", "3", false),
    ]);

    engine.save(&state, "dedup").unwrap();
    let loaded = engine.load("dedup").unwrap();

    assert_eq!(loaded.windows.len(), 2);
    let app_ids: Vec<&str> = loaded.windows.iter().map(|w| w.app_id.as_str()).collect();
    assert!(app_ids.contains(&"firefox"));
    assert!(app_ids.contains(&"code"));
}

#[test]
fn save_per_window_launch_keeps_all() {
    let mut engine = Store::new(true);

    let state = make_state_with_windows(vec![
        ("0xa", "firefox", "1", false),
        ("0xb", "firefox", "2", false),
    ]);

    engine.save(&state, "perwin").unwrap();
    let loaded = engine.load("perwin").unwrap();
    assert_eq!(loaded.windows.len(), 2);
}

#[test]
fn save_skips_empty_launch_cmd() {
    let mut engine = Store::new(false);

    let mut config = Config::default();
    config.general.session_dir = "/tmp/unused".to_string();
    let mut state = StateManager::new(&config);
    state.add(TrackedWindow {
        address: "0xa".to_string(),
        app_id: "unknown".to_string(),
        launch_cmd: String::new(),
        workspace: "1".to_string(),
        monitor: String::new(),
        position: (0, 0),
        size: (0, 0),
        floating: false,
        fullscreen: false,
        pid: 0,
        profile: None,
    });

    engine.save(&state, "empty").unwrap();
    let loaded = engine.load("empty").unwrap();
    assert_eq!(loaded.windows.len(), 0);
}

#[test]
fn save_floating_includes_geometry() {
    let mut engine = Store::new(false);

    let state = make_state_with_windows(vec![("0xa", "nautilus", "1", true)]);

    engine.save(&state, "float").unwrap();
    let loaded = engine.load("float").unwrap();

    let win = &loaded.windows[0];
    assert!(win.floating);
    assert_eq!(win.position, Some((100, 200)));
    assert_eq!(win.size, Some((800, 600)));
}

#[test]
fn save_non_floating_excludes_geometry() {
    let mut engine = Store::new(false);

    let state = make_state_with_windows(vec![("0xa", "firefox", "1", false)]);

    engine.save(&state, "nonfloat").unwrap();
    let loaded = engine.load("nonfloat").unwrap();

    let win = &loaded.windows[0];
    assert!(!win.floating);
    assert!(win.position.is_none());
    assert!(win.size.is_none());
}

#[test]
fn exists_true_after_save() {
    let mut engine = Store::new(false);

    assert!(!engine.has("test"));

    let state = make_state_with_windows(vec![("0xa", "firefox", "1", false)]);
    engine.save(&state, "test").unwrap();

    assert!(engine.has("test"));
}

#[test]
fn delete_removes_session() {
    let mut engine = Store::new(false);

    let state = make_state_with_windows(vec![("0xa", "firefox", "1", false)]);
    engine.save(&state, "deleteme").unwrap();

    assert!(engine.has("deleteme"));
    engine.delete("deleteme").unwrap();
    assert!(!engine.has("deleteme"));
}

#[test]
fn delete_nonexistent_no_error() {
    let mut engine = Store::new(false);
    engine.delete("nonexistent").unwrap();
}

#[test]
fn list_returns_sessions_sorted_by_timestamp() {
    let mut engine = Store::new(false);

    engine.put("/sessions/first.toml", "first", 1000);
    engine.put("/sessions/second.toml", "second", 2000);

    let sessions = engine.list().unwrap();
    assert_eq!(sessions.len(), 2);
    assert_eq!(sessions[0].0, "second");
    assert_eq!(sessions[1].0, "first");
}

#[test]
fn list_empty_dir() {
    let engine = Store::new(false);

    let sessions = engine.list().unwrap();
    assert!(sessions.is_empty());
}

#[test]
fn list_ignores_hidden_files() {
    let mut engine = Store::new(false);

    let state = make_state_with_windows(vec![("0xa", "firefox", "1", false)]);
    engine.save(&state, "visible").unwrap();

    engine.put_garbage("/sessions/.interrupted.toml.tmp");

    let sessions = engine.list().unwrap();
    assert_eq!(sessions.len(), 1);
    assert_eq!(sessions[0].0, "visible");
}

#[test]
fn load_nonexistent_returns_error() {
    let engine = Store::new(false);

    let result = engine.load("nonexistent");
    assert!(result.is_err());
}

#[test]
fn save_is_atomic() {
    let mut engine = Store::new(false);

    let state = make_state_with_windows(vec![("0xa", "firefox", "1", false)]);
    engine.save(&state, "atomic").unwrap();

    assert!(!engine.holds("/sessions/.atomic.toml.tmp"));
    assert!(engine.holds("/sessions/atomic.toml"));
}

#[test]
fn rejects_path_traversal() {
    let mut engine = Store::new(false);

    let state = make_state_with_windows(vec![("0xa", "firefox", "1", false)]);

    assert!(engine.save(&state, "../escape").is_err());
    assert!(engine.save(&state, "../../etc/cron.d/pwned").is_err());
    assert!(engine.save(&state, ".hidden").is_err());
    assert!(engine.save(&state, "foo/bar").is_err());
    assert!(engine.save(&state, "").is_err());
    assert!(engine.load("../etc/passwd").is_err());
    assert!(engine.delete("../../nope").is_err());
    assert!(!engine.has("../escape"));
}

#[test]
fn names_are_refused_with_their_reason() {
    let empty = sanitize_session_name("").unwrap_err();
    assert_eq!(empty.to_string(), "session name cannot be empty");
    assert!(matches!(empty, NameError::Empty));
    let hidden = sanitize_session_name(".hidden").unwrap_err();
    assert_eq!(
        hidden.to_string(),
        "invalid session name '.hidden': must not contain path separators or start with '.'"
    );
    assert!(matches!(hidden, NameError::Invalid(_)));
    for name in ["a/b", "a\\b", "a\0b", "..", "a..b"] {
        assert!(sanitize_session_name(name).is_err(), "{name:?}");
    }
    assert_eq!(sanitize_session_name("work").unwrap(), "work");
}

#[test]
fn saved_entries_carry_what_is_known() {
    let mut w = TrackedWindow {
        address: "0xa".to_string(),
        app_id: "kitty".to_string(),
        launch_cmd: "kitty".to_string(),
        workspace: "3".to_string(),
        monitor: "DP-1".to_string(),
        position: (5, 6),
        size: (7, 8),
        floating: true,
        fullscreen: true,
        pid: 9,
        profile: Some("-P work".to_string()),
    };
    let entry: WindowEntry = window_to_entry(&w, Some("/srv".to_string()));
    assert_eq!(entry.app_id, "kitty");
    assert_eq!(entry.launch_cmd, "kitty");
    assert_eq!(entry.workspace, "3");
    assert_eq!(entry.monitor.as_deref(), Some("DP-1"));
    assert!(entry.floating);
    assert!(entry.fullscreen);
    assert_eq!(entry.position, Some((5, 6)));
    assert_eq!(entry.size, Some((7, 8)));
    assert_eq!(entry.cwd.as_deref(), Some("/srv"));
    assert_eq!(entry.profile.as_deref(), Some("-P work"));

    w.monitor = String::new();
    w.floating = false;
    let tiled = window_to_entry(&w, None);
    assert_eq!(tiled.monitor, None);
    assert_eq!(tiled.position, None);
    assert_eq!(tiled.size, None);
    assert_eq!(tiled.cwd, None);
}

#[test]
fn session_paths_are_told_from_other_files() {
    assert!(names_session("/sessions/last.toml"));
    assert!(!names_session("/sessions/.last.toml"));
    assert!(!names_session("/sessions/.last.toml.tmp"));
    assert!(!names_session("/sessions/last.json"));
    assert!(!names_session("/sessions/toml"));
}

#[test]
fn unreadable_files_are_not_listed() {
    let mut engine = Store::new(false);
    engine.put_garbage("/sessions/broken.toml");
    engine.put("/sessions/a.toml", "a", 3);
    assert_eq!(engine.list().unwrap(), vec![("a".to_string(), 3)]);
}

#[test]
fn equally_old_sessions_keep_their_order() {
    let mut engine = Store::new(false);
    engine.put("/sessions/a.toml", "a", 3);
    engine.put("/sessions/b.toml", "b", 5);
    engine.put("/sessions/c.toml", "c", 3);
    let names: Vec<String> = engine.list().unwrap().into_iter().map(|s| s.0).collect();
    assert_eq!(names, vec!["b", "a", "c"]);
}

#[test]
fn sessions_are_kept_below_the_configured_directory() {
    let engine = SnapshotEngine::new(&Config::default(), Some("/home/user"));
    assert_eq!(
        engine.session_dir(),
        "/home/user/.local/share/hyprresume/sessions"
    );
    assert_eq!(
        engine.load("work").unwrap(),
        "/home/user/.local/share/hyprresume/sessions/work.toml"
    );
}

#[test]
fn of_an_app_the_first_window_is_saved() {
    let mut engine = Store::new(false);
    let state = make_state_with_windows(vec![
        ("0xa", "firefox", "1", false),
        ("0xb", "code", "2", false),
        ("0xc", "firefox", "3", false),
    ]);
    let first = state
        .windows()
        .iter()
        .find(|w| w.app_id == "firefox")
        .unwrap()
        .workspace
        .clone();
    engine.save(&state, "x").unwrap();
    let loaded = engine.load("x").unwrap();
    let saved: Vec<&WindowEntry> = loaded
        .windows
        .iter()
        .filter(|w| w.app_id == "firefox")
        .collect();
    assert_eq!(saved.len(), 1);
    assert_eq!(saved[0].workspace, first);
}
