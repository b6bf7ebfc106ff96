use hyprresume::ipc::client::{HyprCtl, HyprSocketPaths, NoInstance};
use hyprresume::ipc::event_listener::{listen_line, opened_window, parse_event};
use hyprresume::ipc::lua_compat::{lua_quote, translate_dispatch};
use hyprresume::models::{HyprClient, HyprEvent, HyprMonitor, HyprWorkspace};

fn client(address: &str, class: &str) -> HyprClient {
    HyprClient {
        address: address.to_string(),
        class: class.to_string(),
        pid: 1,
        workspace: HyprWorkspace {
            name: "1".to_string(),
        },
        at: (0, 0),
        size: (0, 0),
        floating: false,
        fullscreen_mode: 0,
    }
}

#[test]
fn sockets_of_an_instance() {
    let paths = HyprSocketPaths::from_env(Some("sig"), Some("/run/user/7")).unwrap();
    assert_eq!(paths.socket1, "/run/user/7/hypr/sig/.socket.sock");
    assert_eq!(paths.socket2, "/run/user/7/hypr/sig/.socket2.sock");
    let ctl = HyprCtl::from_env(Some("sig"), None).unwrap();
    assert_eq!(
        ctl.socket_paths().socket1,
        "/run/user/1000/hypr/sig/.socket.sock"
    );
    let given = HyprSocketPaths::new("/a".to_string(), "/b".to_string());
    assert_eq!(HyprCtl::new(given).socket_paths().socket2, "/b");
}

#[test]
fn no_instance_is_an_error() {
    let error: NoInstance = HyprSocketPaths::from_env(None, Some("/run")).unwrap_err();
    assert_eq!(
        error.to_string(),
        "HYPRLAND_INSTANCE_SIGNATURE not set — is Hyprland running?"
    );
    assert!(HyprCtl::from_env(None, None).is_err());
}

#[test]
fn requests() {
    assert_eq!(HyprCtl::get_clients(), "j/clients");
    assert_eq!(HyprCtl::get_monitors(), "j/monitors");
    assert_eq!(HyprCtl::json("version"), "j/version");
    assert_eq!(HyprCtl::dispatch("workspace 1"), "dispatch workspace 1");
    assert_eq!(HyprCtl::keyword("a b"), "keyword a b");
    assert_eq!(
        HyprCtl::option_request("general:layout"),
        "getoption general:layout"
    );
}

#[test]
fn options_are_read_from_responses() {
    assert!(HyprCtl::get_option("int: 1\nset: true"));
    assert!(HyprCtl::get_option("int: 17"));
    assert!(!HyprCtl::get_option("int: 0\nset: true"));
    assert_eq!(
        HyprCtl::get_option_str("option x\nstr: \"dwindle\" \nset: true", "x"),
        Ok("dwindle".to_string())
    );
    assert_eq!(
        HyprCtl::get_option_str("int: 1", "x"),
        Err("no str value in getoption response for x".to_string())
    );
    assert_eq!(
        HyprCtl::get_layout("str: master"),
        Ok("master".to_string())
    );
    assert_eq!(
        HyprCtl::get_layout(""),
        Err("no str value in getoption response for general:layout".to_string())
    );
}

#[test]
fn clients_are_found_with_and_without_the_prefix() {
    let clients = vec![client("0xaaa111", "a"), client("bbb", "b")];
    let by = |address: &str| HyprCtl::get_client_by_address(&clients, address).map(|c| &c.class);
    assert_eq!(by("0xaaa111").unwrap(), "a");
    assert_eq!(by("aaa111").unwrap(), "a");
    assert_eq!(by("0xbbb").unwrap(), "b");
    assert!(by("0xAAA111").is_none());
    assert!(by("ccc").is_none());
}

#[test]
fn later_monitors_replace_earlier_ones() {
    let monitor = |id: i64, name: &str| HyprMonitor {
        id,
        name: name.to_string(),
    };
    let map = HyprCtl::get_monitor_map(&vec![
        monitor(0, "DP-1"),
        monitor(1, "DP-2"),
        monitor(0, "DP-3"),
    ]);
    assert_eq!(map.len(), 2);
    assert_eq!(map[&0], "DP-3");
    assert_eq!(map[&1], "DP-2");
}

#[test]
fn blank_lines_are_no_events() {
    assert!(listen_line("").is_none());
    assert!(listen_line("  \n").is_none());
    match listen_line(" closewindow>>0xab \n") {
        Some(HyprEvent::CloseWindow { address }) => assert_eq!(address, "0xab"),
        other => panic!("expected CloseWindow, got {other:?}"),
    }
}

#[test]
fn opened_windows_are_told_by_class() {
    let event = parse_event("openwindow>>abc,1,kitty,Title");
    assert_eq!(opened_window(&event, "kitty"), Some("abc".to_string()));
    assert_eq!(opened_window(&event, "foot"), None);
    let closed = parse_event("closewindow>>abc");
    assert_eq!(opened_window(&closed, "kitty"), None);
}

#[test]
fn movewindowv2_with_two_parts() {
    match parse_event("movewindowv2>>0xabc,5") {
        HyprEvent::MoveWindow { address, workspace } => {
            assert_eq!(address, "0xabc");
            assert_eq!(workspace, "5");
        }
        other => panic!("expected MoveWindow, got {other:?}"),
    }
    assert!(matches!(
        parse_event("movewindowv2>>0xabc"),
        HyprEvent::Unknown(_)
    ));
}

#[test]
fn quoting_is_faithful() {
    assert_eq!(lua_quote("plain"), "\"plain\"");
    assert_eq!(lua_quote("a\"b\\c"), "\"a\\\"b\\\\c\"");
}

#[test]
fn untranslatable_dispatches_say_why() {
    let bad = [
        (
            "focuswindow a\"b",
            r#"expected `address:0x..`, got "a\"b""#,
        ),
        (
            "fullscreen 0",
            r#"expected `<arg>,address:<addr>`, got "0""#,
        ),
        (
            "movetoworkspacesilent 4,title:x",
            r#"expected `address:0x..` after comma, got "title:x""#,
        ),
        (
            "movewindowpixel exact 1 2",
            r#"movewindowpixel: expected `<x> <y>,address:<addr>`, got "1 2""#,
        ),
        (
            "movewindowpixel exact 1,address:0x1",
            r#"movewindowpixel: expected `<x> <y>`, got "1""#,
        ),
        (
            "resizewindowpixel 1 2",
            r#"resizewindowpixel: expected `<w> <h>,address:<addr>`, got "1 2""#,
        ),
        (
            "resizewindowpixel 1,address:0x1",
            r#"resizewindowpixel: expected `<w> <h>`, got "1""#,
        ),
        (
            "moveworkspacetomonitor 4",
            r#"moveworkspacetomonitor: expected `<ws> <monitor>`, got "4""#,
        ),
        (
            "bogus foo bar",
            r#"lua_compat: no translation for dispatcher "bogus" (args: "foo bar")"#,
        ),
        (
            "bogus",
            r#"lua_compat: no translation for dispatcher "bogus" (args: "")"#,
        ),
    ];
    for (args, message) in bad {
        assert_eq!(translate_dispatch(args).unwrap_err().to_string(), message);
    }
}
