use hyprresume::ipc::event_listener::parse_event;
use hyprresume::models::HyprEvent;

#[test]
fn parse_openwindow() {
    let event = parse_event("openwindow>>abc123,2,firefox,Mozilla Firefox");
    match event {
        HyprEvent::OpenWindow {
            address,
            workspace,
            class,
        } => {
            assert_eq!(address, "abc123");
            assert_eq!(workspace, "2");
            assert_eq!(class, "firefox");
        }
        other => panic!("expected OpenWindow, got {other:?}"),
    }
}

#[test]
fn parse_openwindow_title_with_commas() {
    let event = parse_event("openwindow>>abc,1,code,file.rs - project, edited");
    match event {
        HyprEvent::OpenWindow { class, .. } => {
            assert_eq!(class, "code");
        }
        other => panic!("expected OpenWindow, got {other:?}"),
    }
}

#[test]
fn parse_openwindow_insufficient_parts() {
    let event = parse_event("openwindow>>abc,1");
    assert!(matches!(event, HyprEvent::Unknown(_)));
}

#[test]
fn parse_closewindow() {
    let event = parse_event("closewindow>>0x55bee6666ea0");
    match event {
        HyprEvent::CloseWindow { address } => {
            assert_eq!(address, "0x55bee6666ea0");
        }
        other => panic!("expected CloseWindow, got {other:?}"),
    }
}

#[test]
fn parse_movewindow() {
    let event = parse_event("movewindow>>0xabc,3");
    match event {
        HyprEvent::MoveWindow { address, workspace } => {
            assert_eq!(address, "0xabc");
            assert_eq!(workspace, "3");
        }
        other => panic!("expected MoveWindow, got {other:?}"),
    }
}

#[test]
fn parse_movewindowv2_three_parts() {
    let event = parse_event("movewindowv2>>0xabc,5,workspace_5");
    match event {
        HyprEvent::MoveWindow { address, workspace } => {
            assert_eq!(address, "0xabc");
            assert_eq!(workspace, "workspace_5");
        }
        other => panic!("expected MoveWindow, got {other:?}"),
    }
}

#[test]
fn parse_movewindow_no_comma() {
    let event = parse_event("movewindow>>just_an_address");
    assert!(matches!(event, HyprEvent::Unknown(_)));
}

#[test]
fn parse_changefloatingmode_on() {
    let event = parse_event("changefloatingmode>>0xabc,1");
    match event {
        HyprEvent::ChangeFloatingMode { address, floating } => {
            assert_eq!(address, "0xabc");
            assert!(floating);
        }
        other => panic!("expected ChangeFloatingMode, got {other:?}"),
    }
}

#[test]
fn parse_changefloatingmode_off() {
    let event = parse_event("changefloatingmode>>0xabc,0");
    match event {
        HyprEvent::ChangeFloatingMode { floating, .. } => {
            assert!(!floating);
        }
        other => panic!("expected ChangeFloatingMode, got {other:?}"),
    }
}

#[test]
fn parse_changefloatingmode_no_comma() {
    let event = parse_event("changefloatingmode>>0xabc");
    assert!(matches!(event, HyprEvent::Unknown(_)));
}

#[test]
fn parse_fullscreen_enter() {
    let event = parse_event("fullscreen>>1");
    match event {
        HyprEvent::Fullscreen { state } => assert!(state),
        other => panic!("expected Fullscreen, got {other:?}"),
    }
}

#[test]
fn parse_fullscreen_exit() {
    let event = parse_event("fullscreen>>0");
    match event {
        HyprEvent::Fullscreen { state } => assert!(!state),
        other => panic!("expected Fullscreen, got {other:?}"),
    }
}

#[test]
fn parse_unknown_event() {
    let event = parse_event("workspace>>2");
    assert!(matches!(event, HyprEvent::Unknown(_)));
}

#[test]
fn parse_no_separator() {
    let event = parse_event("garbage data without separator");
    assert!(matches!(event, HyprEvent::Unknown(_)));
}

#[test]
fn parse_empty_string() {
    let event = parse_event("");
    assert!(matches!(event, HyprEvent::Unknown(_)));
}

#[test]
fn parse_event_with_special_workspace() {
    let event = parse_event("openwindow>>abc,special:scratchpad,kitty,Terminal");
    match event {
        HyprEvent::OpenWindow { workspace, .. } => {
            assert_eq!(workspace, "special:scratchpad");
        }
        other => panic!("expected OpenWindow, got {other:?}"),
    }
}

#[test]
fn events_are_read_back() {
    let (address, workspace, class) = ("0xab", "special:x", "org.kde.app");
    for title in ["", "a", "a,b,c", ">>", ","] {
        match parse_event(&format!("openwindow>>{address},{workspace},{class},{title}")) {
            HyprEvent::OpenWindow {
                address: a,
                workspace: w,
                class: c,
            } => assert_eq!((&a[..], &w[..], &c[..]), (address, workspace, class)),
            other => panic!("expected OpenWindow, got {other:?}"),
        }
    }
    for line in ["movewindow>>0xab,a,b", "movewindowv2>>0xab,7,a,b"] {
        match parse_event(line) {
            HyprEvent::MoveWindow { address, workspace } => {
                assert_eq!(address, "0xab");
                assert_eq!(workspace, "a,b");
            }
            other => panic!("expected MoveWindow, got {other:?}"),
        }
    }
}
