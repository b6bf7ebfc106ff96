use hyprresume::config::Config;
use hyprresume::resolver::desktop::{app_dirs, parse_desktop_content, DesktopFile, DesktopIndex};
use hyprresume::resolver::flatpak::detect_flatpak_app;
use hyprresume::resolver::proc::{
    cmdline_args, program_index, program_name, resolve_from_proc, resolve_with_lookup,
    which_candidates,
};
use hyprresume::resolver::profile::{
    check_browser_profile, detect_browser_profile, detect_profile_from_args, is_proper_command,
    BlankCommand,
};
use hyprresume::resolver::{AppResolver, Evidence};

fn evidence(cgroup: Option<&str>, info: Option<&str>, cmdline: Option<&[u8]>) -> Evidence {
    Evidence {
        cgroup: cgroup.map(String::from),
        flatpak_info: info.map(String::from),
        cmdline: cmdline.map(|c| c.to_vec()),
        installed: false,
    }
}

fn nothing() -> Evidence {
    evidence(None, None, None)
}

fn firefox_file() -> Vec<DesktopFile> {
    vec![DesktopFile {
        path: "/usr/share/applications/firefox.desktop".to_string(),
        content: "[Desktop Entry]\nExec=firefox %u\nStartupWMClass=firefox\n".to_string(),
    }]
}

fn overriding(pairs: &[(&str, &str)]) -> Config {
    let mut config = Config::default();
    for (key, command) in pairs {
        config.overrides.insert(key.to_string(), command.to_string());
    }
    config
}

fn some(s: &str) -> Option<String> {
    Some(s.to_string())
}

#[test]
fn resolution_order() {
    let mut resolver = AppResolver::new(&Config::default(), &firefox_file());
    assert_eq!(resolver.entry_count(), 1);
    let flatpak = "0::/app.slice/app-flatpak-org.test.App-1.scope\n";
    // A desktop entry comes before the process.
    let running = evidence(Some(flatpak), None, Some(b"/opt/other\0--flag\0"));
    assert_eq!(
        resolver.resolve("Firefox", 7, &running),
        some("firefox")
    );
    // Flatpak comes before the command line.
    assert_eq!(
        resolver.resolve("a", 7, &running),
        some("flatpak run org.test.App")
    );
    let plain = evidence(Some("0::/init.scope"), None, Some(b"/opt/other\0--flag\0"));
    assert_eq!(resolver.resolve("b", 7, &plain), some("/opt/other"));
    // Without a process there is nothing more to go by.
    assert_eq!(resolver.resolve("c", -1, &running), None);
    assert_eq!(resolver.resolve("", 7, &running), None);
}

#[test]
fn overrides_come_first() {
    let config = overriding(&[
        ("firefox", "my-firefox"),
        ("hidden", ""),
        ("steam_app_*", "steam"),
        ("gone_?", ""),
    ]);
    let mut resolver = AppResolver::new(&config, &firefox_file());
    assert_eq!(resolver.resolve("firefox", -1, &nothing()), some("my-firefox"));
    assert_eq!(resolver.resolve("steam_app_12", -1, &nothing()), some("steam"));
    let running = evidence(None, None, Some(b"prog\0"));
    assert_eq!(resolver.resolve("hidden", 7, &running), None);
    assert_eq!(resolver.resolve("gone_1", 7, &running), None);
    assert_eq!(resolver.resolve("other", 7, &running), some("prog"));
}

#[test]
fn pattern_that_does_not_compile_is_ignored() {
    let config = overriding(&[("[*", "x")]);
    let mut resolver = AppResolver::new(&config, &vec![]);
    let running = evidence(None, None, Some(b"prog\0"));
    assert_eq!(resolver.resolve("[abc", 7, &running), some("prog"));
}

#[test]
fn answers_are_cached_per_class() {
    let mut resolver = AppResolver::new(&Config::default(), &vec![]);
    assert!(!resolver.is_settled("a"));
    let first = evidence(None, None, Some(b"prog\0"));
    assert_eq!(resolver.resolve("a", 7, &first), some("prog"));
    assert!(resolver.is_settled("a"));
    let second = evidence(None, None, Some(b"other\0"));
    assert_eq!(resolver.resolve("a", 8, &second), some("prog"));
    assert_eq!(resolver.resolve("b", 8, &second), some("other"));
    // An answer that nothing was found is kept as well.
    assert_eq!(resolver.resolve("c", -1, &nothing()), None);
    assert_eq!(resolver.resolve("c", 8, &second), None);
}

#[test]
fn flatpak_is_told_from_the_cgroup_or_the_info_file() {
    let cgroup = some("0::/init.scope\n0::/app-flatpak-org.a.B-3.scope\n");
    assert_eq!(detect_flatpak_app(&cgroup, &None), some("org.a.B"));
    let other = some("0::/init.scope\n");
    let info = some("[Application]\nname= \nname=org.c.D \nname=org.e.F\n");
    assert_eq!(detect_flatpak_app(&other, &info), some("org.c.D"));
    assert_eq!(detect_flatpak_app(&other, &None), None);
    // The info file counts only where the cgroup could be read.
    assert_eq!(detect_flatpak_app(&None, &info), None);
}

#[test]
fn command_lines_are_split_at_nul() {
    assert_eq!(cmdline_args(b"a\0\0b c\0"), vec!["a", "b c"]);
    assert_eq!(cmdline_args(b""), Vec::<String>::new());
    assert_eq!(cmdline_args(&[0x61, 0xff, 0x62]), vec!["a\u{fffd}b"]);
    assert_eq!(
        cmdline_args("gr\u{fc}n\0".as_bytes()),
        vec!["gr\u{fc}n"]
    );
}

#[test]
fn programs_behind_interpreters() {
    let args = cmdline_args(b"/usr/bin/env\0python3\0-u\0/srv/app.py\0");
    assert_eq!(program_index(&args), Some(3));
    assert_eq!(program_name(&args), some("app.py"));
    assert_eq!(resolve_with_lookup(&args, true), some("app.py"));
    assert_eq!(resolve_with_lookup(&args, false), some("/srv/app.py"));
    assert_eq!(
        resolve_from_proc(b"/usr/bin/kitty\0", true),
        some("kitty")
    );
    assert_eq!(resolve_from_proc(b"", true), None);
}

#[test]
fn programs_are_looked_for_along_the_path() {
    assert_eq!(
        which_candidates("/usr/bin:/bin", "foot"),
        vec!["/usr/bin/foot", "/bin/foot"]
    );
    assert_eq!(which_candidates("", "foot"), vec!["foot"]);
}

#[test]
fn application_directories() {
    assert_eq!(
        app_dirs(Some("/home/u/.local/share"), Some("/a:/b")),
        vec![
            "/home/u/.local/share/applications",
            "/a/applications",
            "/b/applications",
            "/var/lib/flatpak/exports/share/applications",
            "/home/u/.local/share/flatpak/exports/share/applications",
        ]
    );
    assert_eq!(
        app_dirs(None, None),
        vec![
            "/usr/local/share/applications",
            "/usr/share/applications",
            "/var/lib/flatpak/exports/share/applications",
        ]
    );
}

#[test]
fn first_entry_for_a_key_is_kept() {
    let file = |path: &str, line: &str| DesktopFile {
        path: path.to_string(),
        content: format!("[Desktop Entry]\nExec={line}\n"),
    };
    let index = DesktopIndex::build(&vec![
        file("/home/app.desktop", "mine"),
        file("/usr/app.desktop", "theirs"),
        file("/usr/readme.txt", "no-app"),
    ]);
    assert_eq!(index.len(), 1);
    assert_eq!(index.lookup("APP").unwrap().exec_line, "mine");
    assert_eq!(index.lookup("theirs").unwrap().exec_line, "theirs");
    assert!(index.lookup("no-app").is_none());
}

#[test]
fn desktop_entries_without_a_file_name() {
    let entry = parse_desktop_content("[Desktop Entry]\nExec=x\n", "/a/b.c.desktop").unwrap();
    assert_eq!(entry.desktop_id, "b.c");
    assert_eq!(entry.startup_wm_class, None);
}

#[test]
fn profiles_are_read_from_a_command_line() {
    assert_eq!(
        detect_browser_profile(7, b"firefox\0-P\0work\0"),
        some("-P work")
    );
    assert_eq!(detect_browser_profile(0, b"firefox\0-P\0work\0"), None);
    assert_eq!(detect_browser_profile(7, b""), None);
    assert!(is_proper_command(&cmdline_args(b"firefox\0")));
    assert!(is_proper_command(&[]));
    assert!(!is_proper_command(&cmdline_args(b"  \0")));
    assert_eq!(check_browser_profile(7, b"  \0"), Err(BlankCommand));
    assert_eq!(check_browser_profile(0, b"  \0"), Ok(None));
    assert_eq!(
        check_browser_profile(7, b"zen\0-P\0dev\0"),
        Ok(some("-P dev"))
    );
}

#[test]
fn profiles_are_found_again_on_the_launch_command() {
    let again = |command: &str| {
        let args: Vec<String> = command.split_whitespace().map(String::from).collect();
        detect_profile_from_args(&args)
    };
    for flags in [
        "-P work",
        "-profile /home/u/p",
        "-no-remote -P work",
        "-no-remote -profile /p",
    ] {
        assert_eq!(again(&format!("/usr/bin/firefox {flags}")), some(flags));
        assert_eq!(
            again(&format!("flatpak run org.mozilla.firefox {flags}")),
            some(flags)
        );
    }
    let flag = "--profile-directory=Work";
    assert_eq!(again(&format!("chromium {flag}")), some(flag));
}

#[test]
fn arguments_are_read_back() {
    let args = ["firefox", "-P", "a b"];
    let mut raw: Vec<u8> = vec![];
    for arg in args {
        raw.extend(arg.as_bytes());
        raw.push(0);
    }
    assert_eq!(cmdline_args(&raw), args);
}
