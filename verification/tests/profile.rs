use hyprresume::resolver::profile::detect_profile_from_args;

fn s(val: &str) -> String {
    val.to_string()
}

// --- Firefox family ---

#[test]
fn firefox_named_profile() {
    let args = vec![s("firefox"), s("-P"), s("work")];
    assert_eq!(detect_profile_from_args(&args), Some(s("-P work")));
}

#[test]
fn firefox_named_profile_no_space() {
    let args = vec![s("firefox"), s("-Pwork")];
    assert_eq!(detect_profile_from_args(&args), Some(s("-P work")));
}

#[test]
fn firefox_profile_path() {
    let args = vec![
        s("firefox"),
        s("-profile"),
        s("/home/user/.mozilla/firefox/abc.work"),
    ];
    assert_eq!(
        detect_profile_from_args(&args),
        Some(s("-profile /home/user/.mozilla/firefox/abc.work"))
    );
}

#[test]
fn firefox_double_dash_profile() {
    let args = vec![
        s("firefox"),
        s("--profile"),
        s("/home/user/.mozilla/firefox/abc.work"),
    ];
    assert_eq!(
        detect_profile_from_args(&args),
        Some(s("-profile /home/user/.mozilla/firefox/abc.work"))
    );
}

#[test]
fn firefox_no_remote_with_profile() {
    let args = vec![s("firefox"), s("-no-remote"), s("-P"), s("work")];
    assert_eq!(
        detect_profile_from_args(&args),
        Some(s("-no-remote -P work"))
    );
}

#[test]
fn firefox_profile_with_no_remote_after() {
    let args = vec![s("firefox"), s("-P"), s("work"), s("-no-remote")];
    assert_eq!(
        detect_profile_from_args(&args),
        Some(s("-no-remote -P work"))
    );
}

#[test]
fn firefox_bare_dash_p_ignored() {
    // `-P` without a value opens the profile manager — don't persist that
    let args = vec![s("firefox"), s("-P")];
    assert_eq!(detect_profile_from_args(&args), None);
}

#[test]
fn firefox_no_profile_flags() {
    let args = vec![s("firefox"), s("--safe-mode")];
    assert_eq!(detect_profile_from_args(&args), None);
}

#[test]
fn firefox_absolute_path_exe() {
    let args = vec![s("/usr/bin/firefox"), s("-P"), s("personal")];
    assert_eq!(detect_profile_from_args(&args), Some(s("-P personal")));
}

#[test]
fn firefox_no_remote_without_profile_ignored() {
    let args = vec![s("firefox"), s("-no-remote")];
    assert_eq!(detect_profile_from_args(&args), None);
}

// --- Firefox-family variants ---

#[test]
fn floorp_profile() {
    let args = vec![s("floorp"), s("-P"), s("google")];
    assert_eq!(detect_profile_from_args(&args), Some(s("-P google")));
}

#[test]
fn librewolf_profile() {
    let args = vec![s("librewolf"), s("-P"), s("default")];
    assert_eq!(detect_profile_from_args(&args), Some(s("-P default")));
}

#[test]
fn waterfox_profile() {
    let args = vec![s("waterfox"), s("-P"), s("main")];
    assert_eq!(detect_profile_from_args(&args), Some(s("-P main")));
}

#[test]
fn zen_profile() {
    let args = vec![s("zen"), s("-P"), s("dev")];
    assert_eq!(detect_profile_from_args(&args), Some(s("-P dev")));
}

// --- Chromium family ---

#[test]
fn chromium_profile_directory() {
    let args = vec![s("chromium"), s("--profile-directory=Profile 1")];
    assert_eq!(
        detect_profile_from_args(&args),
        Some(s("--profile-directory=Profile 1"))
    );
}

#[test]
fn chrome_profile_directory() {
    let args = vec![s("google-chrome"), s("--profile-directory=Default")];
    assert_eq!(
        detect_profile_from_args(&args),
        Some(s("--profile-directory=Default"))
    );
}

#[test]
fn brave_profile_directory() {
    let args = vec![s("brave-browser"), s("--profile-directory=Profile 2")];
    assert_eq!(
        detect_profile_from_args(&args),
        Some(s("--profile-directory=Profile 2"))
    );
}

#[test]
fn chromium_no_profile_flag() {
    let args = vec![s("chromium"), s("--incognito")];
    assert_eq!(detect_profile_from_args(&args), None);
}

// --- Flatpak ---

#[test]
fn flatpak_firefox_profile() {
    let args = vec![
        s("flatpak"),
        s("run"),
        s("org.mozilla.firefox"),
        s("-P"),
        s("work"),
    ];
    assert_eq!(detect_profile_from_args(&args), Some(s("-P work")));
}

#[test]
fn flatpak_firefox_with_flags() {
    let args = vec![
        s("/usr/bin/flatpak"),
        s("run"),
        s("--branch=stable"),
        s("org.mozilla.firefox"),
        s("-no-remote"),
        s("-P"),
        s("dev"),
    ];
    assert_eq!(
        detect_profile_from_args(&args),
        Some(s("-no-remote -P dev"))
    );
}

#[test]
fn flatpak_zen_browser_profile() {
    let args = vec![
        s("flatpak"),
        s("run"),
        s("app.zen_browser.zen"),
        s("-P"),
        s("coding"),
    ];
    assert_eq!(detect_profile_from_args(&args), Some(s("-P coding")));
}

#[test]
fn flatpak_chromium_profile() {
    let args = vec![
        s("flatpak"),
        s("run"),
        s("org.chromium.Chromium"),
        s("--profile-directory=Work"),
    ];
    assert_eq!(
        detect_profile_from_args(&args),
        Some(s("--profile-directory=Work"))
    );
}

#[test]
fn flatpak_non_browser_ignored() {
    let args = vec![
        s("flatpak"),
        s("run"),
        s("org.gnome.Nautilus"),
        s("-P"),
        s("foo"),
    ];
    assert_eq!(detect_profile_from_args(&args), None);
}

// --- Single-arg cmdline (launcher wrappers) ---

#[test]
fn chromium_single_arg_cmdline() {
    let args = vec![s(
        "/usr/lib/chromium/chromium --profile-directory=WorkProfile",
    )];
    assert_eq!(
        detect_profile_from_args(&args),
        Some(s("--profile-directory=WorkProfile"))
    );
}

#[test]
fn firefox_single_arg_cmdline() {
    let args = vec![s("/usr/lib/firefox/firefox -no-remote -P work")];
    assert_eq!(
        detect_profile_from_args(&args),
        Some(s("-no-remote -P work"))
    );
}

#[test]
fn single_arg_non_browser_ignored() {
    let args = vec![s("/usr/bin/code --some-flag value")];
    assert_eq!(detect_profile_from_args(&args), None);
}

// --- Non-browsers ---

#[test]
fn non_browser_ignored() {
    let args = vec![s("code"), s("-P"), s("myproject")];
    assert_eq!(detect_profile_from_args(&args), None);
}

#[test]
fn terminal_ignored() {
    let args = vec![s("ghostty"), s("--some-flag")];
    assert_eq!(detect_profile_from_args(&args), None);
}

#[test]
fn profile_empty_args() {
    assert_eq!(detect_profile_from_args(&[]), None);
}
