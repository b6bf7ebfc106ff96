use hyprresume::models::DesktopEntry;
use hyprresume::resolver::desktop::{
    clean_exec_line, exec_basename_of, parse_desktop_content, simplify_flatpak_exec, DesktopFile,
    DesktopIndex,
};

// --- clean_exec_line ---

#[test]
fn clean_simple_command() {
    assert_eq!(clean_exec_line("firefox"), "firefox");
}

#[test]
fn clean_strips_field_codes() {
    assert_eq!(clean_exec_line("firefox %u"), "firefox");
    assert_eq!(clean_exec_line("nautilus %U"), "nautilus");
    assert_eq!(clean_exec_line("code %F"), "code");
}

#[test]
fn clean_strips_env_vars() {
    assert_eq!(
        clean_exec_line("MOZ_ENABLE_WAYLAND=1 firefox %u"),
        "firefox"
    );
    assert_eq!(
        clean_exec_line("GDK_BACKEND=wayland MOZ_ENABLE_WAYLAND=1 firefox"),
        "firefox"
    );
}

#[test]
fn clean_preserves_flags() {
    assert_eq!(
        clean_exec_line("/usr/bin/ghostty --gtk-single-instance=true"),
        "/usr/bin/ghostty --gtk-single-instance=true"
    );
}

#[test]
fn clean_strips_flatpak_markers() {
    assert_eq!(
        clean_exec_line("/usr/bin/flatpak run --branch=stable app.zen_browser.zen @@u @@"),
        "/usr/bin/flatpak run --branch=stable app.zen_browser.zen"
    );
}

#[test]
fn clean_empty_string() {
    assert_eq!(clean_exec_line(""), "");
}

// --- simplify_flatpak_exec ---

#[test]
fn simplify_flatpak_with_flags() {
    let exec = "/usr/bin/flatpak run --branch=stable --arch=x86_64 --command=launch-script.sh --file-forwarding app.zen_browser.zen";
    assert_eq!(
        simplify_flatpak_exec(exec, "app.zen_browser.zen"),
        Some("flatpak run app.zen_browser.zen".to_string())
    );
}

#[test]
fn simplify_already_simple() {
    let exec = "flatpak run org.mozilla.firefox";
    assert_eq!(
        simplify_flatpak_exec(exec, "org.mozilla.firefox"),
        Some("flatpak run org.mozilla.firefox".to_string())
    );
}

#[test]
fn simplify_fallback_to_desktop_id() {
    assert_eq!(
        simplify_flatpak_exec("flatpak run --some-flag", "org.foo.Bar"),
        Some("flatpak run org.foo.Bar".to_string())
    );
}

#[test]
fn simplify_no_dots_in_id() {
    assert_eq!(simplify_flatpak_exec("flatpak run --flag", "nodots"), None);
}

// --- exec_basename_of ---

#[test]
fn basename_simple() {
    assert_eq!(exec_basename_of("firefox"), Some("firefox".to_string()));
}

#[test]
fn basename_absolute_path() {
    assert_eq!(
        exec_basename_of("/usr/bin/firefox"),
        Some("firefox".to_string())
    );
}

#[test]
fn basename_with_args() {
    assert_eq!(
        exec_basename_of("/usr/bin/ghostty --flag"),
        Some("ghostty".to_string())
    );
}

#[test]
fn basename_flatpak_extracts_app_id() {
    assert_eq!(
        exec_basename_of("flatpak run org.mozilla.firefox"),
        Some("org.mozilla.firefox".to_string())
    );
}

#[test]
fn basename_flatpak_only_flags() {
    assert_eq!(
        exec_basename_of("/usr/bin/flatpak run --flag"),
        Some("flatpak".to_string())
    );
}

#[test]
fn basename_empty() {
    assert_eq!(exec_basename_of(""), None);
}

// --- parse_desktop_content ---

fn make_desktop(content: &str) -> Option<DesktopEntry> {
    parse_desktop_content(content, "/fake/test-app.desktop")
}

#[test]
fn parse_standard_desktop_file() {
    let entry = make_desktop(
        "[Desktop Entry]\n\
         Name=Firefox\n\
         Exec=firefox %u\n\
         StartupWMClass=firefox\n\
         Terminal=false\n\
         Type=Application\n",
    )
    .unwrap();

    assert_eq!(entry.exec_line, "firefox");
    assert_eq!(entry.startup_wm_class.as_deref(), Some("firefox"));
    assert_eq!(entry.desktop_id, "test-app");
}

#[test]
fn parse_no_display_without_wm_class_excluded() {
    let result = make_desktop(
        "[Desktop Entry]\n\
         Name=Hidden\n\
         Exec=hidden-thing\n\
         NoDisplay=true\n",
    );
    assert!(result.is_none());
}

#[test]
fn parse_no_display_with_wm_class_included() {
    let entry = make_desktop(
        "[Desktop Entry]\n\
         Name=Special\n\
         Exec=special\n\
         NoDisplay=true\n\
         StartupWMClass=special\n",
    )
    .unwrap();
    assert_eq!(entry.exec_line, "special");
}

#[test]
fn parse_no_exec_line() {
    let result = make_desktop(
        "[Desktop Entry]\n\
         Name=NoExec\n\
         Terminal=false\n",
    );
    assert!(result.is_none());
}

#[test]
fn parse_ignores_other_sections() {
    let entry = make_desktop(
        "[Desktop Entry]\n\
         Name=MyApp\n\
         Exec=myapp\n\
         \n\
         [Desktop Action new-window]\n\
         Name=New Window\n\
         Exec=myapp --new-window\n",
    )
    .unwrap();

    assert_eq!(entry.exec_line, "myapp");
}

#[test]
fn parse_flatpak_desktop_file() {
    let entry = parse_desktop_content(
        "[Desktop Entry]\n\
         Name=Zen Browser\n\
         Exec=/usr/bin/flatpak run --branch=stable --arch=x86_64 --command=launch-script.sh --file-forwarding app.zen_browser.zen @@u @@\n\
         StartupWMClass=app.zen_browser.zen\n",
        "/var/lib/flatpak/exports/share/applications/app.zen_browser.zen.desktop",
    )
    .unwrap();

    assert_eq!(entry.exec_line, "flatpak run app.zen_browser.zen");
}

// --- DesktopIndex::build ---

fn desktop_file(name: &str, content: &str) -> DesktopFile {
    DesktopFile {
        path: format!("/fake/{name}"),
        content: format!("{content}\n"),
    }
}

#[test]
fn index_from_temp_dir() {
    let index = DesktopIndex::build(&vec![
        desktop_file(
            "firefox.desktop",
            "[Desktop Entry]\nName=Firefox\nExec=firefox %u\nStartupWMClass=firefox",
        ),
        desktop_file(
            "org.gnome.Nautilus.desktop",
            "[Desktop Entry]\nName=Files\nExec=nautilus\nStartupWMClass=org.gnome.Nautilus",
        ),
    ]);

    assert_eq!(index.len(), 2);

    // Lookup by WM class
    let entry = index.lookup("firefox").unwrap();
    assert_eq!(entry.exec_line, "firefox");

    // Lookup by desktop ID
    let entry = index.lookup("org.gnome.Nautilus").unwrap();
    assert_eq!(entry.exec_line, "nautilus");
}

#[test]
fn index_lookup_case_insensitive() {
    let index = DesktopIndex::build(&vec![desktop_file(
        "MyApp.desktop",
        "[Desktop Entry]\nName=My App\nExec=myapp\nStartupWMClass=MyApp",
    )]);

    assert!(index.lookup("myapp").is_some());
    assert!(index.lookup("MyApp").is_some());
    assert!(index.lookup("MYAPP").is_some());
}

#[test]
fn index_lookup_by_exec_basename() {
    let index = DesktopIndex::build(&vec![desktop_file(
        "com.example.app.desktop",
        "[Desktop Entry]\nName=Example\nExec=/usr/bin/example-app --daemon",
    )]);

    // No WM class match, no desktop ID match "example-app", but exec basename match
    assert!(index.lookup("example-app").is_some());
}

#[test]
fn index_empty_dir() {
    let index = DesktopIndex::build(&vec![]);
    assert_eq!(index.len(), 0);
    assert!(index.lookup("anything").is_none());
}

#[test]
fn index_nonexistent_dir() {
    let index = DesktopIndex::build(&vec![]);
    assert_eq!(index.len(), 0);
}

#[test]
fn clean_lines_have_no_field_codes() {
    assert_eq!(
        clean_exec_line("A=1 B=2 app --x=%f %f @@u C=3 @@ %U"),
        "app --x=%f C=3"
    );
    assert_eq!(clean_exec_line("%u A=1 x"), "A=1 x");
    assert_eq!(clean_exec_line("A=1"), "");
}
