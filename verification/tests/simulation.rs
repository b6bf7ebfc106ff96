use hyprresume::config::Config;
use hyprresume::models::{HyprClient, HyprWorkspace, SessionFile, SessionMeta, TrackedWindow};
use hyprresume::resolver::desktop::{DesktopFile, DesktopIndex};
use hyprresume::resolver::{AppResolver, Evidence};
use hyprresume::snapshot::{NameError, SessionListing, SnapshotEngine};
use hyprresume::state::StateManager;

/// A session directory that is held in memory: a path, and the session that
/// the file holds where it is readable.
struct Store {
    engine: SnapshotEngine,
    files: Vec<(String, Option<SessionFile>)>,
    clock: i64,
}

impl Store {
    fn new(per_window_launch: bool) -> Self {
        Store {
            engine: SnapshotEngine::new_with_dir("/sessions".to_string(), per_window_launch),
            files: vec![],
            clock: 0,
        }
    }

    fn holds(&self, path: &str) -> bool {
        self.files.iter().any(|f| f.0 == path)
    }

    fn save(&mut self, state: &StateManager, name: &str) -> Result<String, NameError> {
        self.clock += 1;
        let cwds = vec![None; state.window_count()];
        let save = self.engine.save(state, &cwds, name, self.clock)?;
        self.files.push((save.tmp_path.clone(), Some(save.session)));
        self.files.retain(|f| f.0 != save.final_path);
        for file in &mut self.files {
            if file.0 == save.tmp_path {
                file.0 = save.final_path.clone();
            }
        }
        Ok(save.final_path)
    }

    fn load(&self, name: &str) -> Result<&SessionFile, String> {
        let path = self.engine.load(name).map_err(|e| e.to_string())?;
        let file = self.files.iter().find(|f| f.0 == path);
        file.and_then(|f| f.1.as_ref())
            .ok_or_else(|| format!("reading {path}"))
    }

    fn delete(&mut self, name: &str) -> Result<(), NameError> {
        let path = self.engine.delete(name)?;
        self.files.retain(|f| f.0 != path);
        Ok(())
    }

    fn has(&self, name: &str) -> bool {
        let there = match self.engine.load(name) {
            Ok(path) => self.holds(&path),
            Err(_) => true,
        };
        self.engine.has_session(name, there)
    }

    fn list(&self) -> Result<Vec<(String, i64)>, NameError> {
        let listings = self
            .files
            .iter()
            .map(|f| SessionListing {
                path: f.0.clone(),
                meta: f.1.as_ref().map(|s| SessionMeta {
                    name: s.session.name.clone(),
                    timestamp: s.session.timestamp,
                }),
            })
            .collect();
        Ok(SnapshotEngine::list(&listings))
    }
}

fn desktop_files() -> Vec<DesktopFile> {
    let entries = vec![
        (
            "firefox.desktop",
            "[Desktop Entry]\nName=Firefox\nExec=firefox %u\nStartupWMClass=firefox",
        ),
        (
            "com.mitchellh.ghostty.desktop",
            "[Desktop Entry]\nName=Ghostty\nExec=/usr/bin/ghostty\nStartupWMClass=com.mitchellh.ghostty",
        ),
        (
            "org.gnome.Nautilus.desktop",
            "[Desktop Entry]\nName=Files\nExec=nautilus %U\nStartupWMClass=org.gnome.Nautilus",
        ),
        (
            "discord.desktop",
            "[Desktop Entry]\nName=Discord\nExec=/usr/bin/discord\nStartupWMClass=discord",
        ),
        (
            "app.zen_browser.zen.desktop",
            "[Desktop Entry]\nName=Zen Browser\nExec=/usr/bin/flatpak run --branch=stable --arch=x86_64 app.zen_browser.zen @@u @@\nStartupWMClass=app.zen_browser.zen",
        ),
        (
            "xdg-desktop-portal-gtk.desktop",
            "[Desktop Entry]\nName=Portal\nExec=xdg-desktop-portal-gtk\nNoDisplay=true",
        ),
    ];

    entries
        .into_iter()
        .map(|(name, content)| DesktopFile {
            path: format!("/usr/share/applications/{name}"),
            content: content.to_string(),
        })
        .collect()
}

fn setup_desktop_index() -> DesktopIndex {
    DesktopIndex::build(&desktop_files())
}

fn no_evidence() -> Evidence {
    Evidence {
        cgroup: None,
        flatpak_info: None,
        cmdline: None,
        installed: false,
    }
}

/// What `hyprctl clients -j` prints.
fn clients_json() -> &'static str {
    r#"[
    {
        "address": "0xaaa111",
        "class": "firefox",
        "title": "GitHub - Mozilla Firefox",
        "pid": 1001,
        "workspace": {"id": 1, "name": "1"},
        "at": [0, 0],
        "size": [1920, 1080],
        "floating": false,
        "fullscreen": 0,
        "initialClass": "firefox",
        "initialTitle": "Firefox"
    },
    {
        "address": "0xbbb222",
        "class": "com.mitchellh.ghostty",
        "title": "~",
        "pid": 1002,
        "workspace": {"id": 2, "name": "2"},
        "at": [0, 0],
        "size": [1920, 1080],
        "floating": false,
        "fullscreen": 0,
        "initialClass": "com.mitchellh.ghostty",
        "initialTitle": "ghostty"
    },
    {
        "address": "0xccc333",
        "class": "org.gnome.Nautilus",
        "title": "Home",
        "pid": 1003,
        "workspace": {"id": 1, "name": "1"},
        "at": [200, 150],
        "size": [900, 600],
        "floating": true,
        "fullscreen": 0,
        "initialClass": "org.gnome.Nautilus",
        "initialTitle": "Files"
    },
    {
        "address": "0xddd444",
        "class": "xdg-desktop-portal-gtk",
        "title": "",
        "pid": 1004,
        "workspace": {"id": -1, "name": "special"},
        "at": [0, 0],
        "size": [0, 0],
        "floating": false,
        "fullscreen": 0,
        "initialClass": "xdg-desktop-portal-gtk",
        "initialTitle": ""
    }
]"#
}

fn text_of(value: &serde_json::Value) -> String {
    value.as_str().unwrap().to_string()
}

fn pair_of(value: &serde_json::Value) -> (i32, i32) {
    let number = |i: usize| i32::try_from(value[i].as_i64().unwrap()).unwrap();
    (number(0), number(1))
}

fn fixture_clients() -> Vec<HyprClient> {
    let parsed: serde_json::Value = serde_json::from_str(clients_json()).unwrap();
    let clients = parsed.as_array().unwrap();
    clients
        .iter()
        .map(|c| HyprClient {
            address: text_of(&c["address"]),
            class: text_of(&c["class"]),
            pid: c["pid"].as_i64().unwrap(),
            workspace: HyprWorkspace {
                name: text_of(&c["workspace"]["name"]),
            },
            at: pair_of(&c["at"]),
            size: pair_of(&c["size"]),
            floating: c["floating"].as_bool().unwrap(),
            fullscreen_mode: i32::try_from(c["fullscreen"].as_i64().unwrap()).unwrap(),
        })
        .collect()
}

/// Full lifecycle: resolve → populate state → save → load → verify integrity.
#[test]
fn full_session_lifecycle() {
    let desktop_index = setup_desktop_index();

    // Create config with no overrides
    let config = Config::default();
    let mut state = StateManager::new(&config);

    let clients = fixture_clients();
    assert_eq!(clients.len(), 4);

    // Simulate what the daemon does: resolve each client and add to state
    for client in &clients {
        if !state.should_track(&client.class) {
            continue;
        }

        let launch_cmd = desktop_index
            .lookup(&client.class)
            .map(|e| e.exec_line.clone())
            .unwrap_or_default();

        state.add(TrackedWindow {
            address: client.address.clone(),
            app_id: client.class.clone(),
            launch_cmd,
            workspace: client.workspace.name.clone(),
            monitor: String::new(),
            position: client.at,
            size: client.size,
            floating: client.floating,
            fullscreen: client.fullscreen_mode > 0,
            pid: 0,
            profile: None,
        });
    }

    // xdg-desktop-portal-gtk should have been excluded by default rules
    assert_eq!(state.window_count(), 3);

    // Verify resolution worked
    let windows = state.windows();
    let firefox = windows.iter().find(|w| w.app_id == "firefox").unwrap();
    assert_eq!(firefox.launch_cmd, "firefox");
    assert_eq!(firefox.workspace, "1");
    assert!(!firefox.floating);

    let nautilus = windows
        .iter()
        .find(|w| w.app_id == "org.gnome.Nautilus")
        .unwrap();
    assert_eq!(nautilus.launch_cmd, "nautilus");
    assert!(nautilus.floating);
    assert_eq!(nautilus.position, (200, 150));
    assert_eq!(nautilus.size, (900, 600));

    // Save session
    let mut snapshot = Store::new(false);

    let path = snapshot.save(&state, "test-lifecycle").unwrap();
    assert!(snapshot.holds(&path));

    // Load it back
    let loaded = snapshot.load("test-lifecycle").unwrap();
    assert_eq!(loaded.session.name, "test-lifecycle");
    assert_eq!(loaded.windows.len(), 3);

    // Verify loaded session matches what we saved
    let loaded_firefox = loaded
        .windows
        .iter()
        .find(|w| w.app_id == "firefox")
        .unwrap();
    assert_eq!(loaded_firefox.launch_cmd, "firefox");
    assert_eq!(loaded_firefox.workspace, "1");
    assert!(!loaded_firefox.floating);
    assert!(loaded_firefox.position.is_none());

    let loaded_nautilus = loaded
        .windows
        .iter()
        .find(|w| w.app_id == "org.gnome.Nautilus")
        .unwrap();
    assert_eq!(loaded_nautilus.launch_cmd, "nautilus");
    assert!(loaded_nautilus.floating);
    assert_eq!(loaded_nautilus.position, Some((200, 150)));
    assert_eq!(loaded_nautilus.size, Some((900, 600)));
}

/// Test that overrides take precedence over .desktop file resolution.
#[test]
fn lifecycle_with_overrides() {
    let mut config = Config::default();
    config
        .overrides
        .insert("firefox".to_string(), "my-custom-firefox".to_string());
    config
        .overrides
        .insert("xdg-desktop-portal-gtk".to_string(), String::new()); // skip

    let mut resolver = AppResolver::new(&config, &desktop_files());

    let cmd = resolver.resolve("firefox", -1, &no_evidence());
    assert_eq!(cmd, Some("my-custom-firefox".to_string()));
}

/// Test flatpak resolution via .desktop files.
#[test]
fn lifecycle_flatpak_resolution() {
    let desktop_index = setup_desktop_index();

    let entry = desktop_index.lookup("app.zen_browser.zen").unwrap();
    assert_eq!(entry.exec_line, "flatpak run app.zen_browser.zen");
}

/// Simulate events mutating state, then save and verify.
#[test]
fn lifecycle_events_mutate_state() {
    let config = Config::default();
    let mut state = StateManager::new(&config);

    // Start with 2 windows
    state.add(TrackedWindow {
        address: "0xaaa".to_string(),
        app_id: "firefox".to_string(),
        launch_cmd: "firefox".to_string(),
        workspace: "1".to_string(),
        monitor: String::new(),
        position: (0, 0),
        size: (1920, 1080),
        floating: false,
        fullscreen: false,
        pid: 0,
        profile: None,
    });
    state.add(TrackedWindow {
        address: "0xbbb".to_string(),
        app_id: "code".to_string(),
        launch_cmd: "code".to_string(),
        workspace: "2".to_string(),
        monitor: String::new(),
        position: (0, 0),
        size: (1920, 1080),
        floating: false,
        fullscreen: false,
        pid: 0,
        profile: None,
    });
    assert_eq!(state.window_count(), 2);

    // Simulate: new window opens
    state.add(TrackedWindow {
        address: "0xccc".to_string(),
        app_id: "discord".to_string(),
        launch_cmd: "discord".to_string(),
        workspace: "3".to_string(),
        monitor: String::new(),
        position: (0, 0),
        size: (800, 600),
        floating: false,
        fullscreen: false,
        pid: 0,
        profile: None,
    });
    assert_eq!(state.window_count(), 3);

    // Simulate: firefox moves to workspace 5
    state.update_workspace("0xaaa", "5");

    // Simulate: code becomes floating
    state.update_floating("0xbbb", true);

    // Simulate: discord closes
    state.remove("0xccc");
    assert_eq!(state.window_count(), 2);

    // Save and verify final state
    let mut snapshot = Store::new(false);
    snapshot.save(&state, "events").unwrap();

    let loaded = snapshot.load("events").unwrap();
    assert_eq!(loaded.windows.len(), 2);

    let loaded_firefox = loaded
        .windows
        .iter()
        .find(|w| w.app_id == "firefox")
        .unwrap();
    assert_eq!(loaded_firefox.workspace, "5");

    let loaded_code = loaded.windows.iter().find(|w| w.app_id == "code").unwrap();
    assert!(loaded_code.floating);
}

/// Deduplication: multiple windows of the same app produce one entry.
#[test]
fn lifecycle_deduplication() {
    let config = Config::default();
    let mut state = StateManager::new(&config);

    // 3 Firefox windows on different workspaces
    for (i, ws) in ["1", "2", "3"].iter().enumerate() {
        state.add(TrackedWindow {
            address: format!("0x{i}"),
            app_id: "firefox".to_string(),
            launch_cmd: "firefox".to_string(),
            workspace: ws.to_string(),
            monitor: String::new(),
            position: (0, 0),
            size: (1920, 1080),
            floating: false,
            fullscreen: false,
            pid: 0,
            profile: None,
        });
    }
    assert_eq!(state.window_count(), 3);

    // Save with dedup (default mode)
    let mut snapshot = Store::new(false);
    snapshot.save(&state, "dedup").unwrap();

    let loaded = snapshot.load("dedup").unwrap();
    assert_eq!(loaded.windows.len(), 1);
    assert_eq!(loaded.windows[0].app_id, "firefox");

    // Save with per-window mode
    let mut snapshot_pw = Store::new(true);
    snapshot_pw.save(&state, "nodedup").unwrap();

    let loaded_pw = snapshot_pw.load("nodedup").unwrap();
    assert_eq!(loaded_pw.windows.len(), 3);
}

/// Named sessions: save "work" and "gaming", list both, delete one.
#[test]
fn lifecycle_named_sessions() {
    let config = Config::default();
    let mut state = StateManager::new(&config);

    state.add(TrackedWindow {
        address: "0xa".to_string(),
        app_id: "firefox".to_string(),
        launch_cmd: "firefox".to_string(),
        workspace: "1".to_string(),
        monitor: String::new(),
        position: (0, 0),
        size: (0, 0),
        floating: false,
        fullscreen: false,
        pid: 0,
        profile: None,
    });

    let mut snapshot = Store::new(false);

    snapshot.save(&state, "work").unwrap();

    state.add(TrackedWindow {
        address: "0xb".to_string(),
        app_id: "steam".to_string(),
        launch_cmd: "steam".to_string(),
        workspace: "2".to_string(),
        monitor: String::new(),
        position: (0, 0),
        size: (0, 0),
        floating: false,
        fullscreen: false,
        pid: 0,
        profile: None,
    });
    snapshot.save(&state, "gaming").unwrap();

    let sessions = snapshot.list().unwrap();
    assert_eq!(sessions.len(), 2);
    let names: Vec<&str> = sessions.iter().map(|s| s.0.as_str()).collect();
    assert!(names.contains(&"work"));
    assert!(names.contains(&"gaming"));

    // Work session should have 1 app
    let work = snapshot.load("work").unwrap();
    assert_eq!(work.windows.len(), 1);

    // Gaming session should have 2 apps
    let gaming = snapshot.load("gaming").unwrap();
    assert_eq!(gaming.windows.len(), 2);

    // Delete work
    snapshot.delete("work").unwrap();
    assert!(!snapshot.has("work"));
    assert!(snapshot.has("gaming"));
}

/// Verify that the resolver's cache works correctly.
#[test]
fn resolver_caching() {
    let config = Config::default();
    let mut resolver = AppResolver::new(&config, &desktop_files());

    let first = resolver.resolve("firefox", -1, &no_evidence());
    let second = resolver.resolve("firefox", -1, &no_evidence());
    assert_eq!(first, second);
}
