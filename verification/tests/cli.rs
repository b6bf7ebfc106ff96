use hyprresume::cli::{
    known_time, last_session_line, list_header, list_row, log_filter, pid_of_class,
    restore_summary, saved_at, session_name,
};
use hyprresume::models::{HyprClient, HyprWorkspace};

fn client(class: &str, pid: i64) -> HyprClient {
    HyprClient {
        address: "0x1".to_string(),
        class: class.to_string(),
        pid,
        workspace: HyprWorkspace {
            name: "1".to_string(),
        },
        at: (0, 0),
        size: (0, 0),
        floating: false,
        fullscreen_mode: 0,
    }
}

#[test]
fn log_levels() {
    assert_eq!(log_filter(0, false), "hyprresume=warn");
    assert_eq!(log_filter(1, false), "hyprresume=info");
    assert_eq!(log_filter(2, false), "hyprresume=debug");
    assert_eq!(log_filter(3, false), "hyprresume=trace");
    assert_eq!(log_filter(255, false), "hyprresume=trace");
    assert_eq!(log_filter(2, true), "hyprresume=error");
}

#[test]
fn session_names() {
    assert_eq!(session_name(None), "last");
    assert_eq!(session_name(Some("work")), "work");
}

#[test]
fn times_are_shown_in_utc() {
    assert_eq!(saved_at(0), "1970-01-01 00:00:00");
    assert_eq!(saved_at(1_700_000_000), "2023-11-14 22:13:20");
    assert_eq!(saved_at(-1), "1969-12-31 23:59:59");
}

#[test]
fn times_out_of_range_are_unknown() {
    let least = chrono::DateTime::<chrono::Utc>::MIN_UTC.timestamp();
    let greatest = chrono::DateTime::<chrono::Utc>::MAX_UTC.timestamp();
    assert_eq!(least, -8_334_601_228_800);
    assert_eq!(greatest, 8_210_266_876_799);
    assert_ne!(saved_at(least), "unknown");
    assert_ne!(saved_at(greatest), "unknown");
    assert_eq!(saved_at(least - 1), "unknown");
    assert_eq!(saved_at(greatest + 1), "unknown");
    assert_eq!(saved_at(i64::MIN), "unknown");
    assert_eq!(saved_at(i64::MAX), "unknown");
    assert_eq!(known_time(None), "unknown");
    assert_eq!(known_time(Some("noon".to_string())), "noon");
}

#[test]
fn session_list_has_two_columns() {
    assert_eq!(list_header(), format!("{:<20} {:<24} ", "NAME", "SAVED AT"));
    assert_eq!(
        list_row("work", "2023-11-14 22:13:20"),
        format!("{:<20} {:<24}", "work", "2023-11-14 22:13:20")
    );
    let long = "a-session-name-that-is-long";
    assert_eq!(list_row(long, "x"), format!("{long:<20} {:<24}", "x"));
}

#[test]
fn summaries() {
    assert_eq!(restore_summary(3, 0), "Restored 3/3 apps");
    assert_eq!(restore_summary(3, 2), "Restored 3/5 apps (2 failed)");
    assert_eq!(restore_summary(0, 0), "Restored 0/0 apps");
    assert_eq!(
        last_session_line(12, "noon"),
        "Last session: 12 apps, saved at noon"
    );
}

#[test]
fn process_of_a_class() {
    let clients = vec![client("a", 3), client("b", 4), client("b", 5)];
    assert_eq!(pid_of_class(&clients, "b"), 4);
    assert_eq!(pid_of_class(&clients, "c"), -1);
}
