//! What the daemon does about events, signals and timers.
use crate::config::Config;
use crate::models::{
    opt_text, HyprClient, HyprEvent, HyprEventView, TrackedWindow, TrackedWindowView,
};
use crate::snapshot::{is_session_name, lemma_last_session_is_named, LAST_SESSION};
use crate::state::{StateManager, StateView};
use vstd::prelude::*;

verus! {

/// What a query tells of a window that just opened.
pub struct Details {
    pub pid: i64,
    pub position: (i32, i32),
    pub size: (i32, i32),
    pub floating: bool,
    pub fullscreen: bool,
}

/// The details of a client; placeholders where there is none.
pub open spec fn details_of(client: Option<HyprClient>) -> Details {
    match client {
        Some(c) => Details {
            pid: c.pid,
            position: c.at,
            size: c.size,
            floating: c.floating,
            fullscreen: c.fullscreen_mode > 0,
        },
        None => Details {
            pid: -1i64,
            position: (0, 0),
            size: (0, 0),
            floating: false,
            fullscreen: false,
        },
    }
}

/// What is done about an event beside updating the state.
#[derive(Debug)]
pub enum EventAction {
    Nothing,
    /// Look up the window that opened, then track it.
    Inspect { address: String, workspace: String, class: String },
}

pub enum EventActionView {
    Nothing,
    Inspect { address: Seq<char>, workspace: Seq<char>, class: Seq<char> },
}

impl View for EventAction {
    type V = EventActionView;

    open spec fn view(&self) -> EventActionView {
        match *self {
            EventAction::Nothing => EventActionView::Nothing,
            EventAction::Inspect { address, workspace, class } => EventActionView::Inspect {
                address: address@,
                workspace: workspace@,
                class: class@,
            },
        }
    }
}

/// The state after an event, and what else is done about it.
pub open spec fn event_handled(s: StateView, event: HyprEventView) -> (StateView, EventActionView) {
    match event {
        HyprEventView::OpenWindow { address, workspace, class } => if s.tracks(class) {
            (s, EventActionView::Inspect { address, workspace, class })
        } else {
            (s, EventActionView::Nothing)
        },
        HyprEventView::CloseWindow { address } => (s.without(address), EventActionView::Nothing),
        HyprEventView::MoveWindow { address, workspace } => (
            s.moved(address, workspace),
            EventActionView::Nothing,
        ),
        HyprEventView::ChangeFloatingMode { address, floating } => (
            s.floated(address, floating),
            EventActionView::Nothing,
        ),
        _ => (s, EventActionView::Nothing),
    }
}

/// Bring the state up to date with an event.
pub fn handle_event(event: HyprEvent, state: &mut StateManager) -> (r: EventAction)
    requires
        old(state).wf(),
    ensures
        final(state).wf(),
        (final(state)@, r@) == event_handled(old(state)@, event@),
{
    match event {
        HyprEvent::OpenWindow { address, workspace, class } => {
            if state.should_track(class.as_str()) {
                EventAction::Inspect { address, workspace, class }
            } else {
                EventAction::Nothing
            }
        },
        HyprEvent::CloseWindow { address } => {
            let _ = state.remove(address.as_str());
            EventAction::Nothing
        },
        HyprEvent::MoveWindow { address, workspace } => {
            state.update_workspace(address.as_str(), workspace.as_str());
            EventAction::Nothing
        },
        HyprEvent::ChangeFloatingMode { address, floating } => {
            state.update_floating(address.as_str(), floating);
            EventAction::Nothing
        },
        _ => EventAction::Nothing,
    }
}

/// The process behind a window that opened, where it is known.
pub fn process_of(client: Option<&HyprClient>) -> (r: i64)
    ensures
        r == details_of(
            match client {
                Some(c) => Some(*c),
                None => None,
            },
        ).pid,
{
    match client {
        Some(c) => c.pid,
        None => -1,
    }
}

/// A launch command, or none at all.
pub open spec fn command_or_empty(o: Option<Seq<char>>) -> Seq<char> {
    match o {
        Some(s) => s,
        None => Seq::empty(),
    }
}

fn or_empty(o: Option<String>) -> (r: String)
    ensures
        r@ == command_or_empty(opt_text(o)),
{
    match o {
        Some(s) => s,
        None => {
            let s = String::new();
            assert(s@ =~= Seq::empty());
            s
        },
    }
}

/// The window that an open event and a look-up make.
pub open spec fn opened_window(
    address: Seq<char>,
    workspace: Seq<char>,
    class: Seq<char>,
    client: Option<HyprClient>,
    launch_cmd: Option<Seq<char>>,
    profile: Option<Seq<char>>,
) -> TrackedWindowView {
    let d = details_of(client);
    TrackedWindowView {
        address,
        app_id: class,
        launch_cmd: command_or_empty(launch_cmd),
        workspace,
        monitor: Seq::empty(),
        position: d.position,
        size: d.size,
        floating: d.floating,
        fullscreen: d.fullscreen,
        pid: d.pid,
        profile,
    }
}

/// Track a window that opened, after looking it up.
pub fn track_opened(
    state: &mut StateManager,
    address: String,
    workspace: String,
    class: String,
    client: Option<&HyprClient>,
    launch_cmd: Option<String>,
    profile: Option<String>,
)
    requires
        old(state).wf(),
    ensures
        final(state).wf(),
        final(state)@ == old(state)@.with(
            opened_window(
                address@,
                workspace@,
                class@,
                match client {
                    Some(c) => Some(*c),
                    None => None,
                },
                opt_text(launch_cmd),
                opt_text(profile),
            ),
        ),
{
    let (pid, position, size, floating, fullscreen) = match client {
        Some(c) => (c.pid, c.at, c.size, c.floating, c.fullscreen_mode > 0),
        None => (-1, (0, 0), (0, 0), false, false),
    };
    let monitor = String::new();
    assert(monitor@ =~= Seq::empty());
    state.add(
        TrackedWindow {
            address,
            app_id: class,
            launch_cmd: or_empty(launch_cmd),
            workspace,
            monitor,
            position,
            size,
            floating,
            fullscreen,
            pid,
            profile,
        },
    );
}

/// The window that a client in the list of live clients makes.
pub open spec fn client_window(
    c: HyprClient,
    launch_cmd: Option<Seq<char>>,
    profile: Option<Seq<char>>,
) -> TrackedWindowView {
    opened_window(c.address@, c.workspace.name@, c.class@, Some(c), launch_cmd, profile)
}

/// Track a window that was open already, if windows of its class are tracked.
pub fn track_client(
    state: &mut StateManager,
    client: &HyprClient,
    launch_cmd: Option<String>,
    profile: Option<String>,
) -> (r: bool)
    requires
        old(state).wf(),
    ensures
        final(state).wf(),
        r == old(state)@.tracks(client.class@),
        final(state)@ == if r {
            old(state)@.with(client_window(*client, opt_text(launch_cmd), opt_text(profile)))
        } else {
            old(state)@
        },
{
    if !state.should_track(client.class.as_str()) {
        return false;
    }
    track_opened(
        state,
        client.address.clone(),
        client.workspace.name.clone(),
        client.class.clone(),
        Some(client),
        launch_cmd,
        profile,
    );
    true
}

/// The state that is saved, given the live clients if they are known, and
/// whether there is anything to save.
pub open spec fn prepared(s: StateView, clients: Option<Seq<HyprClient>>) -> (StateView, bool) {
    match clients {
        Some(v) => if s.windows.dom().len() > 0 {
            (s.refreshed(v), true)
        } else {
            (s, false)
        },
        None => (s, s.windows.dom().len() > 0),
    }
}

/// Get ready for a save: nothing is saved while no window is tracked;
/// otherwise the geometry is refreshed from the live clients, if the query for
/// them succeeded.
pub fn prepare_save(state: &mut StateManager, clients: Option<&Vec<HyprClient>>) -> (r: bool)
    requires
        old(state).wf(),
    ensures
        final(state).wf(),
        r == (old(state)@.windows.dom().len() > 0),
        final(state)@ == match clients {
            Some(v) => if r {
                old(state)@.refreshed(v@)
            } else {
                old(state)@
            },
            None => old(state)@,
        },
        (final(state)@, r) == prepared(
            old(state)@,
            match clients {
                Some(v) => Some(v@),
                None => None,
            },
        ),
{
    if state.window_count() == 0 {
        return false;
    }
    match clients {
        Some(v) => {
            state.refresh_geometry(v);
        },
        None => {},
    }
    true
}

#[derive(Debug, Clone, Copy, PartialEq, Eq, Structural)]
pub enum Signal {
    Terminate,
    Interrupt,
    User1,
    Other,
}

/// What the daemon does next.
#[derive(Debug, Clone, Copy, PartialEq, Eq, Structural)]
pub enum Reaction {
    Continue,
    Save,
    SaveAndExit,
}

/// What a signal makes the daemon do: terminating signals save the session and
/// end it, the user signal saves at once, any other is ignored.
pub fn on_signal(signal: Signal) -> (r: Reaction)
    ensures
        signal is Terminate || signal is Interrupt ==> r is SaveAndExit,
        signal is User1 ==> r is Save,
        signal is Other ==> r is Continue,
{
    match signal {
        Signal::Terminate | Signal::Interrupt => Reaction::SaveAndExit,
        Signal::User1 => Reaction::Save,
        Signal::Other => Reaction::Continue,
    }
}

/// Why a session is saved.
#[derive(Debug, Clone, Copy, PartialEq, Eq, Structural)]
pub enum Occasion {
    Periodic,
    Manual,
    Final,
}

impl Occasion {
    pub open spec fn name(self) -> Seq<char> {
        match self {
            Occasion::Periodic => "periodic"@,
            Occasion::Manual => "manual"@,
            Occasion::Final => "final"@,
        }
    }

    pub fn to_string(&self) -> (r: String)
        ensures
            r@ == self.name(),
    {
        match self {
            Occasion::Periodic => "periodic".to_owned(),
            Occasion::Manual => "manual".to_owned(),
            Occasion::Final => "final".to_owned(),
        }
    }
}

/// What the running daemon is woken by.
#[derive(Debug)]
pub enum Trigger {
    Event(HyprEvent),
    SaveTimer,
    Signal(Signal),
    /// No more events will come.
    StreamEnded,
}

pub enum TriggerView {
    Event(HyprEventView),
    SaveTimer,
    Signal(Signal),
    StreamEnded,
}

impl View for Trigger {
    type V = TriggerView;

    open spec fn view(&self) -> TriggerView {
        match *self {
            Trigger::Event(event) => TriggerView::Event(event@),
            Trigger::SaveTimer => TriggerView::SaveTimer,
            Trigger::Signal(signal) => TriggerView::Signal(signal),
            Trigger::StreamEnded => TriggerView::StreamEnded,
        }
    }
}

/// What the daemon does before it sleeps again, or stops.
#[derive(Debug)]
pub enum Step {
    Act(EventAction),
    /// Save the tracked windows as the named session.
    Save { session: String, occasion: Occasion },
    /// Save the tracked windows as the named session, and stop.
    SaveAndExit { session: String, occasion: Occasion },
}

pub enum StepView {
    Act(EventActionView),
    Save { session: Seq<char>, occasion: Occasion },
    SaveAndExit { session: Seq<char>, occasion: Occasion },
}

impl View for Step {
    type V = StepView;

    open spec fn view(&self) -> StepView {
        match *self {
            Step::Act(action) => StepView::Act(action@),
            Step::Save { session, occasion } => StepView::Save { session: session@, occasion },
            Step::SaveAndExit { session, occasion } => StepView::SaveAndExit {
                session: session@,
                occasion,
            },
        }
    }
}

impl StepView {
    /// The session that is saved, if one is.
    pub open spec fn saves(self) -> Option<Seq<char>> {
        match self {
            StepView::Act(_) => None,
            StepView::Save { session, .. } => Some(session),
            StepView::SaveAndExit { session, .. } => Some(session),
        }
    }
}

pub open spec fn saving(occasion: Occasion) -> StepView {
    StepView::Save { session: LAST_SESSION@, occasion }
}

pub open spec fn saving_and_stopping(occasion: Occasion) -> StepView {
    StepView::SaveAndExit { session: LAST_SESSION@, occasion }
}

/// The state after the daemon was woken, and what it does next.
pub open spec fn woken(s: StateView, trigger: TriggerView) -> (StateView, StepView) {
    match trigger {
        TriggerView::Event(event) => {
            let (t, action) = event_handled(s, event);
            (t, StepView::Act(action))
        },
        TriggerView::SaveTimer => (s, saving(Occasion::Periodic)),
        TriggerView::Signal(Signal::Terminate) => (s, saving_and_stopping(Occasion::Final)),
        TriggerView::Signal(Signal::Interrupt) => (s, saving_and_stopping(Occasion::Final)),
        TriggerView::Signal(Signal::User1) => (s, saving(Occasion::Manual)),
        TriggerView::Signal(Signal::Other) => (s, StepView::Act(EventActionView::Nothing)),
        TriggerView::StreamEnded => (s, saving_and_stopping(Occasion::Final)),
    }
}

fn save_step(occasion: Occasion) -> (r: Step)
    ensures
        r@ == saving(occasion),
{
    Step::Save { session: LAST_SESSION.to_owned(), occasion }
}

fn final_step() -> (r: Step)
    ensures
        r@ == saving_and_stopping(Occasion::Final),
{
    Step::SaveAndExit { session: LAST_SESSION.to_owned(), occasion: Occasion::Final }
}

/// One round of the running daemon.
pub fn wake(trigger: Trigger, state: &mut StateManager) -> (r: Step)
    requires
        old(state).wf(),
    ensures
        final(state).wf(),
        (final(state)@, r@) == woken(old(state)@, trigger@),
{
    match trigger {
        Trigger::Event(event) => Step::Act(handle_event(event, state)),
        Trigger::SaveTimer => save_step(Occasion::Periodic),
        Trigger::Signal(signal) => match on_signal(signal) {
            Reaction::SaveAndExit => final_step(),
            Reaction::Save => save_step(Occasion::Manual),
            Reaction::Continue => Step::Act(EventAction::Nothing),
        },
        Trigger::StreamEnded => final_step(),
    }
}

/// The session that is restored when the daemon starts, if one is.
pub open spec fn restored_on_start(restore_on_start: bool, last_exists: bool) -> Option<Seq<char>> {
    if restore_on_start && last_exists {
        Some(LAST_SESSION@)
    } else {
        None
    }
}

/// The session that is restored when the daemon starts: the last one, where
/// there is one and the settings ask for it.
pub fn session_on_start(config: &Config, last_exists: bool) -> (r: Option<&'static str>)
    ensures
        r is Some <==> restored_on_start(config.general.restore_on_start, last_exists) is Some,
        r matches Some(name) ==> restored_on_start(config.general.restore_on_start, last_exists)
            == Some(name@),
{
    if config.general.restore_on_start && last_exists {
        Some(LAST_SESSION)
    } else {
        None
    }
}

/// A window that opened is tracked from then on until it closes, under the
/// address that its events carry.
pub proof fn law_open_then_close(
    s: StateView,
    address: Seq<char>,
    workspace: Seq<char>,
    class: Seq<char>,
    client: Option<HyprClient>,
    launch_cmd: Option<Seq<char>>,
    profile: Option<Seq<char>>,
)
    ensures
        ({
            let w = opened_window(address, workspace, class, client, launch_cmd, profile);
            let open = s.with(w);
            &&& open.window(address) == Some(w)
            &&& event_handled(open, HyprEventView::CloseWindow { address }).0 == s.without(address)
        }),
{
    let w = opened_window(address, workspace, class, client, launch_cmd, profile);
    crate::state::law_added_window_is_found(s, w, address);
}

/// The daemon never changes which classes are tracked.
pub proof fn law_events_keep_the_rules(s: StateView, trigger: TriggerView, class: Seq<char>)
    ensures
        woken(s, trigger).0.tracks(class) == s.tracks(class),
{
}

/// Whenever the daemon saves, it saves the session that the next start
/// restores, under a name that sessions may have.
pub proof fn law_daemon_restores_what_it_saved(s: StateView, trigger: TriggerView)
    ensures
        woken(s, trigger).1.saves() matches Some(name) ==> {
            &&& is_session_name(name)
            &&& restored_on_start(true, true) == Some(name)
        },
        woken(s, trigger).1.saves() is None ==> trigger is Event || trigger
            == TriggerView::Signal(Signal::Other),
{
    lemma_last_session_is_named();
}

/// The daemon stops on a terminating signal or at the end of the events, and
/// on nothing else; it saves the session before, and no timer or signal
/// changes what is saved.
pub proof fn law_daemon_saves_before_it_stops(s: StateView, trigger: TriggerView)
    ensures
        woken(s, trigger).1 is SaveAndExit <==> {
            ||| trigger matches TriggerView::Signal(Signal::Terminate)
            ||| trigger matches TriggerView::Signal(Signal::Interrupt)
            ||| trigger is StreamEnded
        },
        !(trigger is Event) ==> woken(s, trigger).0 == s,
{
}

} // verus!
