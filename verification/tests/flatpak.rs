use hyprresume::resolver::flatpak::extract_flatpak_id;

#[test]
fn extract_standard_firefox() {
    assert_eq!(
        extract_flatpak_id(
            "0::/user.slice/user-1000.slice/user@1000.service/app.slice/app-flatpak-org.mozilla.firefox-12345.scope"
        ),
        Some("org.mozilla.firefox".to_string())
    );
}

#[test]
fn extract_zen_browser() {
    assert_eq!(
        extract_flatpak_id(
            "0::/user.slice/app.slice/app-flatpak-app.zen_browser.zen-9999.scope"
        ),
        Some("app.zen_browser.zen".to_string())
    );
}

#[test]
fn extract_no_flatpak_prefix() {
    assert_eq!(extract_flatpak_id("0::/init.scope"), None);
}

#[test]
fn extract_non_flatpak_app_scope() {
    assert_eq!(
        extract_flatpak_id(
            "0::/user.slice/user-1000.slice/app.slice/app-gnome-firefox-1234.scope"
        ),
        None
    );
}

#[test]
fn extract_no_trailing_pid() {
    // If there's no numeric suffix after the last dash, return the whole string
    assert_eq!(
        extract_flatpak_id("0::/app.slice/app-flatpak-com.example.app.scope"),
        Some("com.example.app".to_string())
    );
}

#[test]
fn extract_with_underscores_in_id() {
    assert_eq!(
        extract_flatpak_id("0::/app.slice/app-flatpak-com.some_vendor.my_app-42.scope"),
        Some("com.some_vendor.my_app".to_string())
    );
}

#[test]
fn extract_large_pid() {
    assert_eq!(
        extract_flatpak_id("0::/app.slice/app-flatpak-org.freedesktop.Platform-999999.scope"),
        Some("org.freedesktop.Platform".to_string())
    );
}

#[test]
fn extract_empty_line() {
    assert_eq!(extract_flatpak_id(""), None);
}

#[test]
fn extract_just_scope_no_path() {
    assert_eq!(
        extract_flatpak_id("app-flatpak-org.test.App-1.scope"),
        Some("org.test.App".to_string())
    );
}

#[test]
fn extract_multiple_double_colons() {
    assert_eq!(
        extract_flatpak_id(
            "12:blkio:/user.slice::0::/user.slice/app.slice/app-flatpak-org.test.App-1.scope"
        ),
        Some("org.test.App".to_string())
    );
}
