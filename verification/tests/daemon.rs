use hyprresume::config::Config;
use hyprresume::daemon::{
    handle_event, on_signal, prepare_save, process_of, session_on_start, track_client,
    track_opened, wake, EventAction, Occasion, Reaction, Signal, Step, Trigger,
};
use hyprresume::ipc::event_listener::parse_event;
use hyprresume::models::{HyprClient, HyprWorkspace, TrackedWindow};
use hyprresume::state::{normalize_address, StateManager};

fn client(address: &str, class: &str) -> HyprClient {
    HyprClient {
        address: address.to_string(),
        class: class.to_string(),
        pid: 42,
        workspace: HyprWorkspace {
            name: "2".to_string(),
        },
        at: (10, 20),
        size: (300, 400),
        floating: true,
        fullscreen_mode: 2,
    }
}

fn state() -> StateManager {
    StateManager::new(&Config::default())
}

fn window<'a>(state: &'a StateManager, app_id: &str) -> &'a TrackedWindow {
    state
        .windows()
        .into_iter()
        .find(|w| w.app_id == app_id)
        .unwrap()
}

#[test]
fn window_is_tracked_from_open_to_close() {
    let mut state = state();
    match handle_event(parse_event("openwindow>>AbC,3,kitty,Title"), &mut state) {
        EventAction::Inspect {
            address,
            workspace,
            class,
        } => {
            assert_eq!(address, "AbC");
            assert_eq!(workspace, "3");
            assert_eq!(class, "kitty");
            track_opened(
                &mut state,
                address,
                workspace,
                class,
                Some(&client("0xabc", "kitty")),
                Some("kitty".to_string()),
                None,
            );
        }
        other => panic!("expected the window to be looked up, got {other:?}"),
    }
    let w = window(&state, "kitty");
    assert_eq!(w.workspace, "3");
    assert_eq!(w.launch_cmd, "kitty");
    assert_eq!(w.position, (10, 20));
    assert_eq!(w.size, (300, 400));
    assert!(w.floating && w.fullscreen);
    assert_eq!(w.pid, 42);
    assert_eq!(w.monitor, "");
    handle_event(parse_event("movewindow>>abc,5"), &mut state);
    assert_eq!(window(&state, "kitty").workspace, "5");
    handle_event(parse_event("changefloatingmode>>abc,0"), &mut state);
    assert!(!window(&state, "kitty").floating);
    handle_event(parse_event("fullscreen>>1"), &mut state);
    handle_event(parse_event("garbage"), &mut state);
    assert_eq!(state.window_count(), 1);
    handle_event(parse_event("closewindow>>abc"), &mut state);
    assert_eq!(state.window_count(), 0);
}

#[test]
fn excluded_windows_are_not_looked_up() {
    let mut state = state();
    let event = parse_event("openwindow>>abc,3,xdg-desktop-portal-gtk,Title");
    assert!(matches!(
        handle_event(event, &mut state),
        EventAction::Nothing
    ));
    assert!(!track_client(
        &mut state,
        &client("0xabc", "xdg-desktop-portal-gtk"),
        None,
        None
    ));
    assert_eq!(state.window_count(), 0);
}

#[test]
fn unknown_windows_are_tracked_without_geometry() {
    let mut state = state();
    track_opened(
        &mut state,
        "abc".to_string(),
        "3".to_string(),
        "kitty".to_string(),
        None,
        None,
        Some("-P work".to_string()),
    );
    let w = window(&state, "kitty");
    assert_eq!(w.launch_cmd, "");
    assert_eq!(w.pid, -1);
    assert_eq!(w.position, (0, 0));
    assert_eq!(w.size, (0, 0));
    assert!(!w.floating && !w.fullscreen);
    assert_eq!(w.profile.as_deref(), Some("-P work"));
    assert_eq!(process_of(None), -1);
    assert_eq!(process_of(Some(&client("a", "b"))), 42);
}

#[test]
fn live_clients_are_tracked_at_startup() {
    let mut state = state();
    let live = client("0xabc", "kitty");
    assert!(track_client(&mut state, &live, Some("kitty".to_string()), None));
    let w = window(&state, "kitty");
    assert_eq!(w.address, "0xabc");
    assert_eq!(w.workspace, "2");
}

#[test]
fn saves_refresh_the_geometry_first() {
    let mut state = state();
    assert!(!prepare_save(&mut state, Some(&vec![client("0xabc", "kitty")])));
    track_client(&mut state, &client("0xABC", "kitty"), None, None);
    let mut moved = client("abc", "renamed");
    moved.at = (1, 2);
    moved.size = (3, 4);
    moved.floating = false;
    assert!(prepare_save(&mut state, Some(&vec![moved])));
    let w = window(&state, "kitty");
    assert_eq!(w.position, (1, 2));
    assert_eq!(w.size, (3, 4));
    assert!(w.floating, "nothing but the geometry is refreshed");
    assert!(prepare_save(&mut state, None));
    assert_eq!(window(&state, "kitty").position, (1, 2));
}

#[test]
fn signals() {
    assert_eq!(on_signal(Signal::Terminate), Reaction::SaveAndExit);
    assert_eq!(on_signal(Signal::Interrupt), Reaction::SaveAndExit);
    assert_eq!(on_signal(Signal::User1), Reaction::Save);
    assert_eq!(on_signal(Signal::Other), Reaction::Continue);
}

#[test]
fn restoring_on_start_takes_the_setting_and_a_session() {
    let mut config = Config::default();
    assert_eq!(session_on_start(&config, true), Some("last"));
    assert_eq!(session_on_start(&config, false), None);
    config.general.restore_on_start = false;
    assert_eq!(session_on_start(&config, true), None);
}

#[test]
fn addresses_are_compared_without_prefix_and_case() {
    assert_eq!(normalize_address("0xAbC"), "abc");
    assert_eq!(normalize_address("AbC"), "abc");
    assert_eq!(normalize_address(""), "");
}

#[test]
fn daemon_saves_before_it_stops() {
    let mut state = state();
    let step = wake(Trigger::SaveTimer, &mut state);
    assert!(matches!(
        step,
        Step::Save { session, occasion: Occasion::Periodic } if session == "last"
    ));
    let step = wake(Trigger::Signal(Signal::User1), &mut state);
    assert!(matches!(
        step,
        Step::Save { session, occasion: Occasion::Manual } if session == "last"
    ));
    let step = wake(Trigger::Signal(Signal::Other), &mut state);
    assert!(matches!(step, Step::Act(EventAction::Nothing)));
    for last in [
        Trigger::Signal(Signal::Terminate),
        Trigger::Signal(Signal::Interrupt),
        Trigger::StreamEnded,
    ] {
        let step = wake(last, &mut state);
        assert!(matches!(
            step,
            Step::SaveAndExit { session, occasion: Occasion::Final } if session == "last"
        ));
    }
    let event = parse_event("openwindow>>abc,3,kitty,Title");
    let step = wake(Trigger::Event(event), &mut state);
    assert!(matches!(step, Step::Act(EventAction::Inspect { .. })));
    assert_eq!(Occasion::Periodic.to_string(), "periodic");
    assert_eq!(Occasion::Manual.to_string(), "manual");
    assert_eq!(Occasion::Final.to_string(), "final");
}
