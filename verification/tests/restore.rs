use hyprresume::ipc::client::HyprCtl;
use hyprresume::ipc::event_listener::parse_event;
use hyprresume::layout::dwindle::{PixelRatioStep, PreselDir, SplitDir, SplitRatioStep};
use hyprresume::layout::Ratio;
use hyprresume::models::{
    HyprClient, HyprEvent, HyprWorkspace, SessionFile, SessionMeta, TrackedWindow, WindowEntry,
};
use hyprresume::restore::command::Command;
use hyprresume::restore::converge::{FullscreenRun, PixelRun, Places, RatioRun, SizeRun, Step};
use hyprresume::restore::late::LateWatcher;
use hyprresume::restore::launch::{
    Launch, LaunchMode, LaunchOutcome, LaunchStage, LaunchStep, Ledger, MasterRole, PendingWindow,
    PlacementHint,
};
use hyprresume::restore::launch_cmd::{
    build_bsp_launch_cmd, build_launch_cmd, shell_escape, strip_single_instance_flags,
    terminal_cwd_flag,
};
use hyprresume::restore::pool::LiveWindowPool;
use hyprresume::restore::run::{RestoreEngine, RestoreReport};
use hyprresume::restore::turn::{Answer, Ask, Turn};

/// A compositor that records every request, reports the given clients, and
/// opens the given windows in turn.
struct Compositor {
    log: Vec<String>,
    clients: Vec<HyprClient>,
    /// Once a request holds the text, the clients become these.
    change: Option<(String, Vec<HyprClient>)>,
    events: Vec<HyprEvent>,
    monitors: Vec<String>,
    focus: bool,
    layout: String,
    /// A request that holds this text fails.
    refused: Option<String>,
}

fn share(ratio: &Ratio) -> f64 {
    f64::from(ratio.part) / f64::from(ratio.whole)
}

fn request(command: &Command) -> String {
    match command {
        Command::Dispatch(args) => HyprCtl::dispatch(args),
        Command::Keyword(args) => HyprCtl::keyword(args),
        Command::MasterFactor { share: ratio, .. } => {
            HyprCtl::keyword(&format!("master:mfact {:.6}", share(ratio)))
        }
        Command::SplitRatio(ratio) => {
            HyprCtl::dispatch(&format!("layoutmsg splitratio {:.6}", share(ratio) - 0.5))
        }
    }
}

fn copy(c: &HyprClient) -> HyprClient {
    HyprClient {
        address: c.address.clone(),
        class: c.class.clone(),
        pid: c.pid,
        workspace: HyprWorkspace {
            name: c.workspace.name.clone(),
        },
        at: c.at,
        size: c.size,
        floating: c.floating,
        fullscreen_mode: c.fullscreen_mode,
    }
}

impl Compositor {
    fn new() -> Self {
        Compositor {
            log: vec![],
            clients: vec![],
            change: None,
            events: vec![],
            monitors: vec![],
            focus: false,
            layout: "scrolling".to_string(),
            refused: None,
        }
    }

    fn with_clients(clients: Vec<HyprClient>) -> Self {
        let mut me = Self::new();
        me.clients = clients;
        me
    }

    fn opens(&mut self, address: &str, workspace: &str, class: &str) {
        self.events.push(HyprEvent::OpenWindow {
            address: address.to_string(),
            workspace: workspace.to_string(),
            class: class.to_string(),
        });
    }

    fn send(&mut self, command: &Command) -> Answer {
        let text = request(command);
        self.log.push(text.clone());
        let changes = self.change.as_ref().is_some_and(|c| text.contains(&c.0));
        if changes {
            self.clients = self.change.take().unwrap().1;
        }
        match &self.refused {
            Some(part) if text.contains(part) => Answer::Failed("refused".to_string()),
            _ => Answer::Sent("ok".to_string()),
        }
    }

    fn send_all(&mut self, commands: &[Command]) {
        for command in commands {
            self.send(command);
        }
    }

    fn answer(&mut self, ask: &Ask) -> Answer {
        match ask {
            Ask::Monitors => Answer::Monitors(self.monitors.clone()),
            Ask::FocusOption => Answer::Flag(self.focus),
            Ask::Layout => Answer::Text(self.layout.clone()),
            Ask::Clients => {
                self.log.push(HyprCtl::get_clients());
                Answer::Clients(self.clients.iter().map(copy).collect())
            }
            Ask::Send(command) => self.send(command),
            Ask::OpenEvent { class, .. } => {
                while !self.events.is_empty() {
                    if let HyprEvent::OpenWindow {
                        address, class: c, ..
                    } = self.events.remove(0)
                    {
                        if c == *class {
                            return Answer::Window(address);
                        }
                    }
                }
                Answer::Nothing
            }
            Ask::Target { ratio, total } => {
                Answer::Target((share(ratio) * (*total as f64)).round() as i32)
            }
            _ => Answer::Nothing,
        }
    }

    fn turn(&mut self, turn: &Turn) -> Answer {
        self.send_all(&turn.commands);
        self.answer(&turn.ask)
    }

    fn sent(&self, part: &str) -> bool {
        self.log.iter().any(|c| c.contains(part))
    }

    fn count(&self, part: &str) -> usize {
        self.log.iter().filter(|c| c.contains(part)).count()
    }

    fn first(&self, part: &str) -> Option<usize> {
        self.log.iter().position(|c| c.contains(part))
    }

    fn last(&self, part: &str) -> Option<usize> {
        self.log.iter().rposition(|c| c.contains(part))
    }

    fn dispatches(&self) -> Vec<&String> {
        self.log.iter().filter(|c| *c != "j/clients").collect()
    }

    fn resizes(&self) -> Vec<usize> {
        (0..self.log.len())
            .filter(|i| self.log[*i].contains("resizewindowpixel"))
            .collect()
    }
}

fn ledger(live: Vec<TrackedWindow>) -> Ledger {
    Ledger {
        pool: LiveWindowPool::new(live),
        active_rules: vec![],
        pending: vec![],
        named: 0,
    }
}

fn carry_on(
    start: Launch,
    turn: Turn,
    window: &WindowEntry,
    ledger: &mut Ledger,
    compositor: &mut Compositor,
) -> LaunchOutcome {
    let mut answer = compositor.turn(&turn);
    let mut launch = start;
    loop {
        match launch.next(window, ledger, &answer) {
            LaunchStep::Going(next, turn) => {
                launch = next;
                answer = compositor.turn(&turn);
            }
            LaunchStep::Over(commands, outcome) => {
                compositor.send_all(&commands);
                return outcome;
            }
        }
    }
}

fn launch(
    mode: LaunchMode,
    window: &WindowEntry,
    ledger: &mut Ledger,
    compositor: &mut Compositor,
) -> LaunchOutcome {
    let (start, turn) = Launch::begin(mode);
    carry_on(start, turn, window, ledger, compositor)
}

/// Run a whole restore and return its report and its late-window watcher.
fn restore(
    engine: RestoreEngine,
    session: SessionFile,
    live: Vec<TrackedWindow>,
    compositor: &mut Compositor,
) -> (RestoreReport, Option<LateWatcher>) {
    let (mut run, mut turn) = engine.restore(session, live);
    loop {
        let answer = compositor.turn(&turn);
        if matches!(turn.ask, Ask::Finished | Ask::Aborted(_)) {
            return run.into_outcome();
        }
        turn = run.next(&answer);
    }
}

fn run_ratios(steps: &Vec<SplitRatioStep>, places: &Places, compositor: &mut Compositor) {
    let mut step = RatioRun::begin(steps, places);
    while let Step::Going(run, turn) = step {
        let answer = compositor.turn(&turn);
        step = run.next(steps, places, &answer);
    }
}

fn run_pixels(steps: &Vec<PixelRatioStep>, places: &Places, compositor: &mut Compositor) {
    let mut step = PixelRun::begin(steps, places);
    while let Step::Going(run, turn) = step {
        let answer = compositor.turn(&turn);
        step = run.next(places, &answer);
    }
}

fn run_sizes(windows: &Vec<WindowEntry>, places: &Places, compositor: &mut Compositor) {
    let mut step = SizeRun::begin(windows, places);
    while let Step::Going(run, turn) = step {
        let answer = compositor.turn(&turn);
        step = run.next(windows, places, &answer);
    }
}

fn run_fullscreen(windows: &Vec<WindowEntry>, places: &Places, compositor: &mut Compositor) {
    let mut step = FullscreenRun::begin(windows, places);
    while let Step::Going(run, turn) = step {
        let answer = compositor.turn(&turn);
        step = run.next(windows, places, &answer);
    }
}

/// Where windows are open, and which of them were adopted.
fn places(at: Vec<Option<&str>>, adopted: Vec<bool>) -> Places {
    Places {
        addresses: at.into_iter().map(|a| a.map(String::from)).collect(),
        adopted,
    }
}

fn client(address: &str, class: &str, workspace: &str, size: (i32, i32)) -> HyprClient {
    HyprClient {
        address: address.to_string(),
        class: class.to_string(),
        pid: 1,
        workspace: HyprWorkspace {
            name: workspace.to_string(),
        },
        at: (0, 0),
        size,
        floating: false,
        fullscreen_mode: 0,
    }
}

fn single_client(address: &str, class: &str, workspace: &str) -> Vec<HyprClient> {
    vec![client(address, class, workspace, (800, 600))]
}

fn make_entry(
    app_id: &str,
    launch_cmd: &str,
    profile: Option<&str>,
    cwd: Option<&str>,
) -> WindowEntry {
    WindowEntry {
        app_id: app_id.to_string(),
        launch_cmd: launch_cmd.to_string(),
        workspace: "1".to_string(),
        monitor: None,
        floating: false,
        fullscreen: false,
        position: None,
        size: None,
        cwd: cwd.map(String::from),
        profile: profile.map(String::from),
    }
}

fn make_tracked(
    address: &str,
    app_id: &str,
    workspace: &str,
    position: (i32, i32),
) -> TrackedWindow {
    TrackedWindow {
        address: address.to_string(),
        app_id: app_id.to_string(),
        launch_cmd: format!("{app_id}-cmd"),
        workspace: workspace.to_string(),
        monitor: String::new(),
        position,
        size: (800, 600),
        floating: false,
        fullscreen: false,
        pid: 0,
        profile: None,
    }
}

fn entry_with_position(app_id: &str, workspace: &str, position: (i32, i32)) -> WindowEntry {
    WindowEntry {
        app_id: app_id.to_string(),
        launch_cmd: app_id.to_string(),
        workspace: workspace.to_string(),
        monitor: None,
        floating: false,
        fullscreen: false,
        position: Some(position),
        size: None,
        cwd: None,
        profile: None,
    }
}

fn tiled(app_id: &str, ws: &str, position: (i32, i32), size: (i32, i32)) -> WindowEntry {
    let mut entry = entry_with_position(app_id, ws, position);
    entry.size = Some(size);
    entry
}

fn session(windows: Vec<WindowEntry>) -> SessionFile {
    SessionFile {
        session: SessionMeta {
            name: "t".to_string(),
            timestamp: 0,
        },
        windows,
    }
}

fn pending(app_id: &str, workspace: &str, placement: PlacementHint) -> PendingWindow {
    PendingWindow {
        app_id: app_id.to_string(),
        workspace: workspace.to_string(),
        floating: false,
        fullscreen: false,
        position: None,
        size: None,
        rule_name: format!("hypr-persist-{app_id}"),
        placement,
    }
}

/// Let a watcher see the lines until it is done, and end it.
fn watch(watcher: &mut LateWatcher, lines: &[&str]) -> Compositor {
    let mut compositor = Compositor::new();
    for line in lines {
        if !watcher.is_done() {
            compositor.send_all(&watcher.on_line(line));
        }
    }
    compositor.send_all(&watcher.finish());
    compositor
}

fn watcher_of(windows: Vec<PendingWindow>, restore_geometry: bool) -> LateWatcher {
    let rules = windows.iter().map(|w| w.rule_name.clone()).collect();
    LateWatcher::new(windows, rules, restore_geometry)
}

#[test]
fn build_cmd_no_profile_no_cwd() {
    let entry = make_entry("firefox", "firefox", None, None);
    assert_eq!(build_launch_cmd(&entry), "firefox");
}

#[test]
fn build_cmd_with_profile() {
    let entry = make_entry("firefox", "firefox", Some("-P work"), None);
    assert_eq!(build_launch_cmd(&entry), "firefox -P work");
}

#[test]
fn build_cmd_with_no_remote_profile() {
    let entry = make_entry("firefox", "firefox", Some("-no-remote -P dev"), None);
    assert_eq!(build_launch_cmd(&entry), "firefox -no-remote -P dev");
}

#[test]
fn build_cmd_chromium_profile() {
    let entry = make_entry(
        "chromium",
        "chromium",
        Some("--profile-directory=Profile 1"),
        None,
    );
    assert_eq!(
        build_launch_cmd(&entry),
        "chromium --profile-directory=Profile 1"
    );
}

#[test]
fn build_cmd_flatpak_profile() {
    let entry = make_entry(
        "org.mozilla.firefox",
        "flatpak run org.mozilla.firefox",
        Some("-P work"),
        None,
    );
    assert_eq!(
        build_launch_cmd(&entry),
        "flatpak run org.mozilla.firefox -P work"
    );
}

#[test]
fn build_cmd_with_cwd_no_profile() {
    let entry = make_entry("ghostty", "ghostty", None, Some("/home/user/project"));
    assert_eq!(
        build_launch_cmd(&entry),
        "ghostty --working-directory=/home/user/project"
    );
}

#[test]
fn build_cmd_profile_does_not_affect_cwd() {
    let entry = make_entry("ghostty", "ghostty", None, Some("/tmp"));
    let cmd = build_launch_cmd(&entry);
    assert!(cmd.contains("--working-directory=/tmp"));
}

#[test]
fn late_watcher_catches_delayed_window() {
    let mut watcher = watcher_of(vec![pending("slow-app", "3", PlacementHint::Bare)], false);
    let compositor = watch(
        &mut watcher,
        &["openwindow>>abc123,4,slow-app,Slow App Title"],
    );
    let log = &compositor.log;
    assert!(
        compositor.sent("movetoworkspacesilent 3,address:0xabc123"),
        "expected movetoworkspacesilent dispatch, got: {log:?}"
    );
    assert!(
        compositor.sent("windowrule[hypr-persist-slow-app]:enable false"),
        "expected rule cleanup, got: {log:?}"
    );
}

#[test]
fn late_watcher_places_anchored_window_in_bsp_slot() {
    let hint = PlacementHint::DwindleAnchor("anchor789".to_string(), PreselDir::Bottom);
    let mut watcher = watcher_of(vec![pending("slack", "4", hint)], false);
    let compositor = watch(&mut watcher, &["openwindow>>slack001,4,slack,Slack"]);
    let log = &compositor.log;
    assert!(
        compositor.sent("movetoworkspacesilent 4,address:0xslack001"),
        "expected workspace move, got: {log:?}"
    );
    assert!(
        compositor.sent("focuswindow address:0xanchor789"),
        "expected focus on anchor sibling, got: {log:?}"
    );
    assert!(
        compositor.sent("layoutmsg preselect d"),
        "expected preselect against anchor, got: {log:?}"
    );
    assert_eq!(
        compositor.count("setfloating address:0xslack001"),
        2,
        "expected float + settle (2x setfloating), got: {log:?}"
    );
}

#[test]
fn late_watcher_promotes_master_window_after_placement() {
    let windows = vec![pending("thunar", "4", PlacementHint::MasterPromote)];
    let mut watcher = watcher_of(windows, false);
    let compositor = watch(&mut watcher, &["openwindow>>master1,4,thunar,Files"]);
    let log = &compositor.log;
    assert!(
        compositor.sent("movetoworkspacesilent 4,address:0xmaster1"),
        "expected workspace move, got: {log:?}"
    );
    assert!(
        compositor.sent("layoutmsg addmaster"),
        "expected the late-appearing extra-master window to be promoted, got: {log:?}"
    );
}

#[test]
fn late_watcher_does_not_promote_plain_master_window() {
    let mut watcher = watcher_of(vec![pending("kitty", "4", PlacementHint::Bare)], false);
    let compositor = watch(&mut watcher, &["openwindow>>stack1,4,kitty,Kitty"]);
    let log = &compositor.log;
    assert!(
        compositor.sent("movetoworkspacesilent 4,address:0xstack1"),
        "expected workspace move, got: {log:?}"
    );
    assert!(
        !compositor.sent("addmaster"),
        "a stack window must never be promoted, got: {log:?}"
    );
}

#[test]
fn late_watcher_times_out_and_disables_rules() {
    let mut watcher = watcher_of(vec![pending("missing-app", "2", PlacementHint::Bare)], false);
    let compositor = watch(&mut watcher, &["openwindow>>xyz,1,other-app,Other"]);
    let log = &compositor.log;
    assert!(!watcher.is_done(), "the window never appeared");
    assert!(
        compositor.sent("windowrule[hypr-persist-missing-app]:enable false"),
        "rules must be cleaned up even on timeout, got: {log:?}"
    );
    assert!(
        !compositor.sent("movetoworkspacesilent"),
        "no movetoworkspacesilent for a window that never appeared, got: {log:?}"
    );
}

#[test]
fn late_watcher_restores_floating_geometry() {
    let mut floater = pending("floater", "5", PlacementHint::Bare);
    floater.floating = true;
    floater.position = Some((200, 150));
    floater.size = Some((800, 600));
    let mut watcher = watcher_of(vec![floater], true);
    let compositor = watch(&mut watcher, &["openwindow>>flt001,9,floater,Floating App"]);
    let log = &compositor.log;
    assert!(
        compositor.sent("movetoworkspacesilent 5,address:0xflt001"),
        "expected workspace move, got: {log:?}"
    );
    assert!(
        compositor.sent("setfloating address:0xflt001"),
        "expected setfloating, got: {log:?}"
    );
    assert!(
        compositor.sent("resizewindowpixel exact 800 600,address:0xflt001"),
        "expected resize, got: {log:?}"
    );
    assert!(
        compositor.sent("movewindowpixel exact 200 150,address:0xflt001"),
        "expected position, got: {log:?}"
    );
}

#[test]
fn late_watcher_handles_multiple_pending_windows() {
    let windows = vec![
        pending("app-a", "1", PlacementHint::Bare),
        pending("app-b", "4", PlacementHint::Bare),
    ];
    let mut watcher = watcher_of(windows, false);
    let compositor = watch(
        &mut watcher,
        &[
            "openwindow>>aaa,1,app-a,App A",
            "openwindow>>bbb,2,app-b,App B",
        ],
    );
    let log = &compositor.log;
    assert!(
        watcher.is_done(),
        "should end early when all pending windows are resolved"
    );
    assert!(
        compositor.sent("movetoworkspacesilent 1,address:0xaaa"),
        "expected move for app-a, got: {log:?}"
    );
    assert!(
        compositor.sent("movetoworkspacesilent 4,address:0xbbb"),
        "expected move for app-b, got: {log:?}"
    );
}

/// A launch whose window is open at the address, and which waits for a
/// successor of it.
fn opened_at(address: &str, anchor: Option<(&str, PreselDir)>) -> (Launch, Turn) {
    let launch = Launch {
        mode: LaunchMode::Bsp(anchor.map(|(a, dir)| (a.to_string(), dir))),
        rule_name: "hypr-persist-0".to_string(),
        stage: LaunchStage::Splash(address.to_string()),
    };
    let turn = Turn {
        commands: vec![],
        ask: Ask::OpenEvent {
            class: "discord".to_string(),
            splash: true,
        },
    };
    (launch, turn)
}

#[test]
fn retile_no_supersede_still_finalizes_placement() {
    let mut compositor = Compositor::new();
    let mut ledger = ledger(vec![]);
    let mut window = make_entry("discord", "discord", None, None);
    window.workspace = "4".to_string();
    let (start, turn) = opened_at("aaa000", None);
    let outcome = carry_on(start, turn, &window, &mut ledger, &mut compositor);
    assert!(matches!(outcome, LaunchOutcome::Opened(a) if a == "aaa000"));
    let log = &compositor.log;
    assert!(
        !compositor.sent("closewindow"),
        "no supersede occurred, so nothing should be closed, got: {log:?}"
    );
    assert!(
        compositor.sent("movetoworkspacesilent 4,address:0xaaa000"),
        "expected workspace move as part of placement, got: {log:?}"
    );
    assert_eq!(
        compositor.count("setfloating address:0xaaa000"),
        2,
        "expected float + settle (2x setfloating) even without an anchor, got: {log:?}"
    );
}

#[test]
fn retile_supersede_redoes_placement() {
    let mut compositor = Compositor::new();
    compositor.opens("bbb111", "4", "discord");
    let mut ledger = ledger(vec![]);
    let mut window = make_entry("discord", "discord", None, None);
    window.workspace = "4".to_string();
    let (start, turn) = opened_at("aaa000", Some(("anchor123", PreselDir::Bottom)));
    let outcome = carry_on(start, turn, &window, &mut ledger, &mut compositor);
    assert!(matches!(outcome, LaunchOutcome::Opened(a) if a == "bbb111"));
    let log = &compositor.log;
    assert!(
        compositor.sent("closewindow address:0xaaa000"),
        "expected close of stale splash, got: {log:?}"
    );
    assert!(
        compositor.sent("movetoworkspacesilent 4,address:0xbbb111"),
        "expected move of the real window to the target workspace, got: {log:?}"
    );
    assert!(
        compositor.sent("focuswindow address:0xanchor123"),
        "expected focus anchor, got: {log:?}"
    );
    assert!(
        compositor.sent("layoutmsg preselect d"),
        "expected preselect, got: {log:?}"
    );
    assert!(
        compositor.sent("focuswindow address:0xbbb111"),
        "expected focus real window, got: {log:?}"
    );
    assert_eq!(
        compositor.count("setfloating address:0xbbb111"),
        2,
        "expected float + settle (2x setfloating), got: {log:?}"
    );
}

#[test]
fn launch_and_track_master_promote_supersedes_splash_before_promoting() {
    let mut compositor = Compositor::new();
    compositor.opens("splash1", "1", "discord");
    compositor.opens("realwin1", "1", "discord");
    let mut ledger = ledger(vec![]);
    let window = make_entry("discord", "discord", None, None);
    let mode = LaunchMode::Plain(MasterRole::Promote);
    let outcome = launch(mode, &window, &mut ledger, &mut compositor);
    match outcome {
        LaunchOutcome::Opened(addr) => assert_eq!(addr, "realwin1"),
        other => panic!("expected the real window to be tracked, got {other:?}"),
    }
    assert!(ledger.pending.is_empty(), "must not defer once opened");
    let log = &compositor.log;
    assert!(
        compositor.sent("closewindow address:0xsplash1"),
        "expected the stale splash to be closed, got: {log:?}"
    );
    assert!(
        compositor.sent("movetoworkspacesilent 1,address:0xrealwin1"),
        "expected the real window moved to its workspace, got: {log:?}"
    );
    assert!(
        !log.iter()
            .any(|c| c.contains("address:0xsplash1") && c.contains("movetoworkspacesilent")),
        "the splash window must never be placed, got: {log:?}"
    );
    assert!(
        compositor.sent("layoutmsg addmaster"),
        "expected the real window to be promoted, got: {log:?}"
    );
}

#[test]
fn launch_and_track_master_plain_supersedes_splash_without_promoting() {
    let mut compositor = Compositor::new();
    compositor.opens("splash2", "1", "discord");
    compositor.opens("realwin2", "1", "discord");
    let mut ledger = ledger(vec![]);
    let window = make_entry("discord", "discord", None, None);
    let mode = LaunchMode::Plain(MasterRole::Plain);
    let outcome = launch(mode, &window, &mut ledger, &mut compositor);
    match outcome {
        LaunchOutcome::Opened(addr) => assert_eq!(addr, "realwin2"),
        other => panic!("expected the real window to be tracked, got {other:?}"),
    }
    let log = &compositor.log;
    assert!(
        compositor.sent("closewindow address:0xsplash2"),
        "expected the stale splash to be closed, got: {log:?}"
    );
    assert!(
        compositor.sent("movetoworkspacesilent 1,address:0xrealwin2"),
        "expected the real window moved to its workspace, got: {log:?}"
    );
    assert!(
        !compositor.sent("addmaster"),
        "a plain-role window must never be promoted, got: {log:?}"
    );
}

#[test]
fn launch_and_track_master_promote_defers_without_immediate_addmaster() {
    let mut compositor = Compositor::new();
    let mut ledger = ledger(vec![]);
    let window = make_entry("slow-master-app", "slow-master-app", None, None);
    let mode = LaunchMode::Plain(MasterRole::Promote);
    let outcome = launch(mode, &window, &mut ledger, &mut compositor);
    assert!(
        matches!(outcome, LaunchOutcome::Deferred),
        "expected a deferred outcome, got {outcome:?}"
    );
    assert_eq!(ledger.pending.len(), 1, "expected one pending window");
    assert!(
        matches!(ledger.pending[0].placement, PlacementHint::MasterPromote),
        "expected the pending window to carry the promotion hint for \
         the late-window watcher to apply, got {:?}",
        ledger.pending[0].placement
    );
    assert!(
        !compositor.sent("addmaster"),
        "must not dispatch addmaster immediately against whatever is \
         currently focused before the window even exists, got: {:?}",
        compositor.log
    );
}

// --- LiveWindowPool ---

#[test]
fn live_pool_matches_by_class_and_workspace() {
    let mut pool = LiveWindowPool::new(vec![make_tracked("0xabc", "foot", "1", (0, 0))]);
    let entry = make_entry("foot", "foot", None, None);

    let matched = pool.take_match(&entry).expect("expected a match");
    assert_eq!(matched.address, "0xabc");
}

#[test]
fn live_pool_no_match_different_class() {
    let mut pool = LiveWindowPool::new(vec![make_tracked("0xabc", "kitty", "1", (0, 0))]);
    let entry = make_entry("foot", "foot", None, None);

    assert!(pool.take_match(&entry).is_none());
}

#[test]
fn live_pool_no_match_different_workspace() {
    let mut pool = LiveWindowPool::new(vec![make_tracked("0xabc", "foot", "2", (0, 0))]);
    let entry = make_entry("foot", "foot", None, None);

    assert!(pool.take_match(&entry).is_none());
}

#[test]
fn live_pool_does_not_reuse_claimed_window() {
    let mut pool = LiveWindowPool::new(vec![make_tracked("0xabc", "foot", "1", (0, 0))]);
    let entry = make_entry("foot", "foot", None, None);

    assert!(pool.take_match(&entry).is_some());
    assert!(
        pool.take_match(&entry).is_none(),
        "the same live window must not be adopted twice"
    );
}

#[test]
fn live_pool_prefers_nearest_saved_position_on_tie() {
    let mut pool = LiveWindowPool::new(vec![
        make_tracked("0xnear", "foot", "1", (100, 100)),
        make_tracked("0xfar", "foot", "1", (900, 900)),
    ]);
    let entry = entry_with_position("foot", "1", (120, 110));

    let matched = pool.take_match(&entry).expect("expected a match");
    assert_eq!(matched.address, "0xnear");
}

/// Four terminals of one class that are live on one workspace must each be
/// matched to the entry with the nearest saved position, and none twice.
#[test]
fn live_pool_matches_2x2_grid_without_double_claiming() {
    let mut pool = LiveWindowPool::new(vec![
        make_tracked("0xa", "foot", "1", (0, 0)),
        make_tracked("0xb", "foot", "1", (960, 0)),
        make_tracked("0xc", "foot", "1", (0, 540)),
        make_tracked("0xd", "foot", "1", (960, 540)),
    ]);

    let expected = [
        ((10, 10), "0xa"),
        ((950, 10), "0xb"),
        ((10, 530), "0xc"),
        ((950, 530), "0xd"),
    ];

    for (position, expected_addr) in expected {
        let entry = entry_with_position("foot", "1", position);
        let matched = pool.take_match(&entry).expect("expected a match");
        assert_eq!(matched.address, expected_addr);
    }

    let entry = entry_with_position("foot", "1", (10, 10));
    assert!(
        pool.take_match(&entry).is_none(),
        "all four live windows should already be claimed"
    );
}

// --- adoption of live windows ---

#[test]
fn restore_window_adopts_live_window_without_dispatch() {
    let mut compositor = Compositor::new();
    let (report, watcher) = restore(
        RestoreEngine::new(true, true),
        session(vec![make_entry("foot", "foot", None, None)]),
        vec![make_tracked("0xlive1", "foot", "1", (0, 0))],
        &mut compositor,
    );
    assert_eq!(report.restored, 1, "expected the live window to be adopted");
    assert!(watcher.is_none(), "nothing should be deferred");
    assert!(
        compositor.log.is_empty(),
        "adopting a live window must not issue any hyprctl dispatch, got: {:?}",
        compositor.log
    );
}

#[test]
fn restore_window_launches_when_no_live_match() {
    let mut compositor = Compositor::new();
    compositor.opens("newwin", "1", "foot");
    let (report, _) = restore(
        RestoreEngine::new(true, true),
        session(vec![make_entry("foot", "foot", None, None)]),
        vec![make_tracked("0xother", "kitty", "1", (0, 0))],
        &mut compositor,
    );
    assert_eq!(report.restored, 1);
    assert!(
        compositor.sent("exec [workspace 1 silent] foot"),
        "expected a launch dispatch, got: {:?}",
        compositor.log
    );
}

#[test]
fn execute_bsp_plans_adopts_first_step_and_anchors_second_to_it() {
    let mut compositor = Compositor::new();
    compositor.layout = "dwindle".to_string();
    compositor.opens("newwin1", "1", "foot");
    let (report, _) = restore(
        RestoreEngine::new(false, true),
        session(vec![
            tiled("foot", "1", (0, 0), (1200, 1080)),
            tiled("foot", "1", (1200, 0), (720, 1080)),
        ]),
        vec![make_tracked("0xLIVE01", "foot", "1", (0, 0))],
        &mut compositor,
    );
    assert_eq!(report.restored, 2);
    let log = &compositor.log;
    assert!(
        !compositor.sent("dispatch workspace 1"),
        "adopting the first step must not dispatch a workspace switch, got: {log:?}"
    );
    assert!(
        compositor.sent("focuswindow address:0xlive01"),
        "second step must anchor to the adopted window's address, got: {log:?}"
    );
    assert!(
        compositor.sent("layoutmsg preselect r"),
        "expected preselect for the second step, got: {log:?}"
    );
    assert!(
        compositor.sent("setfloating address:0xnewwin1"),
        "window 1 was freshly launched, got: {log:?}"
    );
    assert!(
        !compositor.sent("setfloating address:0xlive01") && !compositor.sent("splitratio"),
        "window 0 was adopted, not launched, got: {log:?}"
    );
}

// --- corrections skip adopted windows ---

#[test]
fn apply_split_ratios_skips_adopted_window() {
    let steps = vec![
        SplitRatioStep {
            focus_window_idx: 0,
            ratio: Ratio { part: 7, whole: 10 },
        },
        SplitRatioStep {
            focus_window_idx: 1,
            ratio: Ratio { part: 3, whole: 10 },
        },
    ];
    let places = places(vec![Some("adopted01"), Some("fresh01")], vec![true, false]);
    let mut compositor = Compositor::new();
    run_ratios(&steps, &places, &mut compositor);
    let log = &compositor.log;
    assert!(
        !compositor.sent("address:0xadopted01"),
        "adopted window must not be focused/resplit, got: {log:?}"
    );
    assert!(
        compositor.sent("focuswindow address:0xfresh01"),
        "freshly-launched window must still get its splitratio applied, got: {log:?}"
    );
    assert!(
        compositor.sent("layoutmsg splitratio"),
        "expected a splitratio dispatch for the non-adopted window, got: {log:?}"
    );
}

#[test]
fn converge_tiled_sizes_skips_adopted_window() {
    let windows = vec![tiled("discord", "4", (0, 0), (1200, 800))];
    let places = places(vec![Some("adopted02")], vec![true]);
    let mut compositor = Compositor::new();
    run_sizes(&windows, &places, &mut compositor);
    assert!(
        compositor.log.is_empty(),
        "adopted window must not be queried or resized at all, got: {:?}",
        compositor.log
    );
}

/// Two windows that share a split edge must never both be resized in one
/// pass. Once the first is seen to be stuck, the second gets its turn.
#[test]
fn converge_tiled_sizes_never_resizes_two_shared_edge_windows_in_one_pass() {
    let mut compositor = Compositor::with_clients(vec![
        client("0xleft001", "discord", "4", (1120, 563)),
        client("0xright01", "thunar", "4", (1410, 563)),
    ]);
    let windows = vec![
        tiled("discord", "4", (0, 0), (1265, 563)),
        tiled("thunar", "4", (1265, 0), (1265, 563)),
    ];
    let places = places(vec![Some("left001"), Some("right01")], vec![false, false]);
    run_sizes(&windows, &places, &mut compositor);
    let log = &compositor.log;
    let resizes = compositor.resizes();
    assert_eq!(
        resizes.len(),
        2,
        "expected exactly one resize attempt each for left and right \
         (left first, then right once left is confirmed stuck), got: {log:?}"
    );
    let (left_idx, right_idx) = (resizes[0], resizes[1]);
    assert!(
        log[left_idx].contains("address:0xleft001"),
        "left must be resized first, got: {log:?}"
    );
    assert!(
        log[right_idx].contains("address:0xright01"),
        "right must be resized second, got: {log:?}"
    );
    assert!(
        log[left_idx + 1..right_idx]
            .iter()
            .any(|c| c.contains("j/clients")),
        "right must never be resized in the same pass as left's own dispatch, got: {log:?}"
    );
}

/// A candidate that never converges must not starve the later ones.
#[test]
fn converge_tiled_sizes_lets_other_candidates_through_a_permanently_stuck_one() {
    let mut compositor = Compositor::with_clients(vec![
        client("0xstuck01", "discord", "4", (700, 500)),
        client("0xsteady1", "kitty", "4", (400, 300)),
        client("0xresolv3", "thunar", "4", (850, 650)),
    ]);
    compositor.change = Some((
        "900 700,address:0xresolv3".to_string(),
        vec![
            client("0xstuck01", "discord", "4", (700, 500)),
            client("0xsteady1", "kitty", "4", (400, 300)),
            client("0xresolv3", "thunar", "4", (900, 700)),
        ],
    ));
    let windows = vec![
        tiled("discord", "4", (0, 0), (800, 600)),
        tiled("kitty", "4", (700, 0), (400, 300)),
        tiled("thunar", "4", (1100, 0), (900, 700)),
    ];
    let places = places(
        vec![Some("stuck01"), Some("steady1"), Some("resolv3")],
        vec![false, false, false],
    );
    run_sizes(&windows, &places, &mut compositor);
    let log = &compositor.log;
    assert!(
        log.iter()
            .any(|c| c.contains("resizewindowpixel") && c.contains("0xresolv3")),
        "the resolvable higher-index candidate must get its resize dispatched, got: {log:?}"
    );
    assert!(
        !compositor.sent("0xsteady1"),
        "the already-in-tolerance middle candidate must never be touched, got: {log:?}"
    );
    let stuck_resize_count = log
        .iter()
        .filter(|c| c.contains("resizewindowpixel") && c.contains("0xstuck01"))
        .count();
    assert_eq!(
        stuck_resize_count, 1,
        "the permanently-stuck candidate must be dispatched only once, got: {log:?}"
    );
}

#[test]
fn converge_tiled_sizes_does_not_redispatch_identical_stuck_delta() {
    let clients = vec![client("0xstuck01", "discord", "4", (700, 500))];
    let mut compositor = Compositor::with_clients(clients);
    let windows = vec![tiled("discord", "4", (0, 0), (800, 600))];
    let places = places(vec![Some("stuck01")], vec![false]);
    run_sizes(&windows, &places, &mut compositor);
    assert_eq!(
        compositor.resizes().len(),
        1,
        "an unchanging delta must only be dispatched once, got: {:?}",
        compositor.log
    );
}

#[test]
fn converge_tiled_sizes_dispatches_absolute_exact_size_not_relative_delta() {
    let clients = vec![client("0xdiscor1", "discord", "4", (120, 62))];
    let mut compositor = Compositor::with_clients(clients);
    let windows = vec![tiled("discord", "4", (2570, 45), (1269, 660))];
    let places = places(vec![Some("discor1")], vec![false]);
    run_sizes(&windows, &places, &mut compositor);
    let resizes = compositor.resizes();
    let resize_cmd = &compositor.log[resizes[0]];
    assert!(
        resize_cmd.contains("resizewindowpixel exact 1269 660,address:0xdiscor1"),
        "resize must request the saved absolute size via `exact`, got: {resize_cmd:?}"
    );
}

/// A second request after the size drifted must ask for the same size.
#[test]
fn converge_tiled_sizes_repeat_dispatch_after_drift_targets_same_absolute_size() {
    let clients = vec![client("0xdiscor1", "discord", "4", (120, 62))];
    let mut compositor = Compositor::with_clients(clients);
    compositor.change = Some((
        "resizewindowpixel".to_string(),
        vec![client("0xdiscor1", "discord", "4", (1149, 598))],
    ));
    let windows = vec![tiled("discord", "4", (2570, 45), (1269, 660))];
    let places = places(vec![Some("discor1")], vec![false]);
    run_sizes(&windows, &places, &mut compositor);
    let resizes = compositor.resizes();
    assert_eq!(
        resizes.len(),
        2,
        "expected the drift to trigger a second dispatch, got: {:?}",
        compositor.log
    );
    for i in resizes {
        let cmd = &compositor.log[i];
        assert!(
            cmd.contains("resizewindowpixel exact 1269 660,address:0xdiscor1"),
            "every dispatch must target the same saved absolute size, got: {cmd:?}"
        );
    }
}

// --- splits that splitratio cannot reach ---

fn pixel_step(dir: SplitDir, ratio: Ratio, first: usize, second: usize) -> PixelRatioStep {
    PixelRatioStep {
        dir,
        ratio,
        first_leaf_idx: first,
        second_leaf_idx: second,
    }
}

#[test]
fn converge_split_ratios_corrects_root_split_unreachable_by_splitratio() {
    // Live: an even 760/760 column split (total 1520). Saved: a 0.6
    // ratio, i.e. the left column should be 912px wide.
    let mut compositor = Compositor::with_clients(vec![
        client("0xa0001", "Alacritty", "4", (760, 900)),
        client("0xdiscord1", "discord", "4", (760, 900)),
    ]);
    let ratio = Ratio { part: 6, whole: 10 };
    let steps = vec![pixel_step(SplitDir::Horizontal, ratio, 0, 2)];
    let places = places(
        vec![Some("a0001"), None, Some("discord1")],
        vec![false, false, false],
    );
    run_pixels(&steps, &places, &mut compositor);
    let log = &compositor.log;
    let resizes = compositor.resizes();
    assert_eq!(
        resizes.len(),
        1,
        "expected exactly one resize to correct the root split, got: {log:?}"
    );
    assert!(
        log[resizes[0]].contains("resizewindowpixel 152 0,address:0xa0001"),
        "expected a width-only (dh=0) correction of +152px on the left \
         column's representative leaf (912 target - 760 live), got: {log:?}"
    );
    assert!(
        !log.iter()
            .any(|c| c.contains("address:0xdiscord1") && c.contains("resizewindowpixel")),
        "the second side's representative leaf must never itself be resized, got: {log:?}"
    );
}

#[test]
fn converge_split_ratios_skips_adopted_window() {
    let ratio = Ratio { part: 6, whole: 10 };
    let steps = vec![pixel_step(SplitDir::Horizontal, ratio, 0, 2)];
    let places = places(
        vec![Some("adopted04"), None, Some("fresh04")],
        vec![true, false, false],
    );
    let mut compositor = Compositor::new();
    run_pixels(&steps, &places, &mut compositor);
    assert!(
        compositor.log.is_empty(),
        "a split with an adopted window on either side must not be \
         queried or resized at all, got: {:?}",
        compositor.log
    );
}

#[test]
fn converge_split_ratios_never_resizes_two_splits_in_one_pass() {
    let mut compositor = Compositor::with_clients(vec![
        client("0xa0001", "Alacritty", "4", (760, 900)),
        client("0xdiscord1", "discord", "4", (760, 900)),
        client("0xwin4", "kitty", "5", (100, 300)),
        client("0xwin6", "kitty", "5", (100, 300)),
    ]);
    let steps = vec![
        pixel_step(SplitDir::Horizontal, Ratio { part: 6, whole: 10 }, 0, 2),
        pixel_step(SplitDir::Vertical, Ratio { part: 4, whole: 10 }, 4, 6),
    ];
    let at = vec![
        Some("a0001"),
        None,
        Some("discord1"),
        None,
        Some("win4"),
        None,
        Some("win6"),
    ];
    let places = places(at, vec![false; 7]);
    run_pixels(&steps, &places, &mut compositor);
    let log = &compositor.log;
    let resizes = compositor.resizes();
    assert_eq!(
        resizes.len(),
        2,
        "expected exactly one resize each for the two independent \
         splits (workspace 4 first, then workspace 5), got: {log:?}"
    );
    let (first_idx, second_idx) = (resizes[0], resizes[1]);
    assert!(
        log[first_idx].contains("address:0xa0001"),
        "workspace 4's split must be corrected first, got: {log:?}"
    );
    assert!(
        log[second_idx].contains("address:0xwin4"),
        "workspace 5's split must be corrected second, got: {log:?}"
    );
    assert!(
        log[second_idx].contains("resizewindowpixel 0 -60,address:0xwin4"),
        "a height-only correction of a vertical split (240 target - 300 live), got: {log:?}"
    );
    assert!(
        log[first_idx + 1..second_idx]
            .iter()
            .any(|c| c.contains("j/clients")),
        "workspace 5's split must never be resized in the same pass as \
         workspace 4's, got: {log:?}"
    );
}

#[test]
fn apply_fullscreen_skips_adopted_window() {
    let mut adopted_window = entry_with_position("mpv", "2", (0, 0));
    adopted_window.fullscreen = true;
    let mut fresh_window = entry_with_position("mpv", "2", (0, 0));
    fresh_window.fullscreen = true;
    let windows = vec![adopted_window, fresh_window];
    let places = places(vec![Some("adopted03"), Some("fresh03")], vec![true, false]);
    let mut compositor = Compositor::new();
    run_fullscreen(&windows, &places, &mut compositor);
    let log = &compositor.log;
    assert!(
        !compositor.sent("address:0xadopted03"),
        "adopted window's fullscreen state must not be toggled, got: {log:?}"
    );
    assert!(
        compositor.sent("fullscreen 0,address:0xfresh03"),
        "freshly-launched fullscreen window must still be toggled, got: {log:?}"
    );
}

// --- windows that race the restore ---

#[test]
fn find_unclaimed_racing_window_matches_new_live_client() {
    let mut pool = LiveWindowPool::new(vec![]);
    let clients = single_client("0xslack1", "slack", "1");
    let addr = pool.find_unclaimed_racing_window(&clients, "slack");
    assert_eq!(addr, Some("slack1".to_string()));
}

#[test]
fn find_unclaimed_racing_window_ignores_known_at_startup() {
    let mut pool = LiveWindowPool::new(vec![make_tracked("0xslack1", "slack", "1", (0, 0))]);
    let clients = single_client("0xslack1", "slack", "1");
    let addr = pool.find_unclaimed_racing_window(&clients, "slack");
    assert!(
        addr.is_none(),
        "a window present at daemon startup must not be claimed by the racing-window check"
    );
}

#[test]
fn find_unclaimed_racing_window_does_not_double_claim() {
    let mut pool = LiveWindowPool::new(vec![]);
    let clients = single_client("0xslack1", "slack", "1");
    assert!(pool
        .find_unclaimed_racing_window(&clients, "slack")
        .is_some());
    assert!(
        pool.find_unclaimed_racing_window(&clients, "slack")
            .is_none(),
        "the same live window must not be claimed twice"
    );
}

#[test]
fn bsp_launch_and_track_adopts_racing_window_before_exec() {
    let mut compositor = Compositor::with_clients(single_client("0xslack1", "slack", "1"));
    let mut ledger = ledger(vec![]);
    let window = make_entry("slack", "slack", None, None);
    let outcome = launch(LaunchMode::Bsp(None), &window, &mut ledger, &mut compositor);
    match outcome {
        LaunchOutcome::Adopted(addr) => assert_eq!(addr, "slack1"),
        other => panic!("expected LaunchOutcome::Adopted, got {other:?}"),
    }
    assert!(
        ledger.active_rules.is_empty(),
        "no window rule should be created when adopting before launch"
    );
    assert!(ledger.pending.is_empty(), "nothing should be deferred");
    let log = &compositor.log;
    assert!(
        !compositor.sent("exec"),
        "must not launch a duplicate when a racing window is already live, got: {log:?}"
    );
    assert!(
        compositor.sent("movetoworkspacesilent 1,address:0xslack1"),
        "expected the adopted window to be moved onto its target workspace, got: {log:?}"
    );
}

#[test]
fn bsp_launch_and_track_adopts_racing_window_after_timeout() {
    let mut compositor = Compositor::new();
    compositor.change = Some((
        "exec slack".to_string(),
        single_client("0xslack1", "slack", "1"),
    ));
    let mut ledger = ledger(vec![]);
    let window = make_entry("slack", "slack", None, None);
    let outcome = launch(LaunchMode::Bsp(None), &window, &mut ledger, &mut compositor);
    match outcome {
        LaunchOutcome::Adopted(addr) => assert_eq!(addr, "slack1"),
        other => panic!("expected LaunchOutcome::Adopted after timeout-recheck, got {other:?}"),
    }
    assert!(
        ledger.pending.is_empty(),
        "must not defer to the late-window watcher once adopted, got {} pending",
        ledger.pending.len()
    );
    let log = &compositor.log;
    assert!(
        compositor.sent("exec slack"),
        "expected the normal launch attempt to have fired first, got: {log:?}"
    );
    assert!(
        compositor.sent(":enable false"),
        "expected the now-unused window rule to be disabled, got: {log:?}"
    );
}

/// Two entries of one class must each get a window of their own.
#[test]
fn bsp_launch_and_track_does_not_steal_previously_opened_window_of_same_class() {
    let mut compositor = Compositor::new();
    compositor.opens("alac1", "1", "alacritty");
    let mut ledger = ledger(vec![]);
    let window = make_entry("alacritty", "alacritty", None, None);
    let first = launch(LaunchMode::Bsp(None), &window, &mut ledger, &mut compositor);
    match first {
        LaunchOutcome::Opened(addr) => assert_eq!(addr, "alac1"),
        other => panic!("expected the first entry to open its own window, got {other:?}"),
    }
    compositor.clients = single_client("0xalac1", "alacritty", "1");
    compositor.opens("alac2", "1", "alacritty");
    let second = launch(LaunchMode::Bsp(None), &window, &mut ledger, &mut compositor);
    match second {
        LaunchOutcome::Opened(addr) => assert_eq!(addr, "alac2"),
        other => panic!(
            "second entry must launch and open its own window instead of stealing the \
             first's, got {other:?}"
        ),
    }
    assert_eq!(
        compositor.count("exec alacritty"),
        2,
        "both entries must have issued their own real launch, got: {:?}",
        compositor.log
    );
}

#[test]
fn launches_share_no_window() {
    let mut compositor = Compositor::new();
    compositor.opens("0xA1", "1", "kitty");
    let mut ledger = ledger(vec![]);
    let window = make_entry("kitty", "kitty", None, None);
    let first = launch(
        LaunchMode::Plain(MasterRole::Outside),
        &window,
        &mut ledger,
        &mut compositor,
    );
    assert!(matches!(first, LaunchOutcome::Opened(a) if a == "0xA1"));
    compositor.clients = vec![
        client("0xa1", "kitty", "1", (800, 600)),
        client("0xa2", "kitty", "1", (800, 600)),
    ];
    let second = launch(LaunchMode::Bsp(None), &window, &mut ledger, &mut compositor);
    assert!(matches!(second, LaunchOutcome::Adopted(a) if a == "a2"));
    let third = launch(LaunchMode::Bsp(None), &window, &mut ledger, &mut compositor);
    assert!(matches!(third, LaunchOutcome::Deferred));
}

#[test]
fn kept_rules_are_left_alone() {
    let mut compositor = Compositor::new();
    let mut ledger = ledger(vec![]);
    let opening = make_entry("foot", "foot", None, None);
    compositor.opens("f1", "1", "foot");
    launch(LaunchMode::Bsp(None), &opening, &mut ledger, &mut compositor);
    let slow = make_entry("slow.app", "slow", None, None);
    let first = launch(LaunchMode::Bsp(None), &slow, &mut ledger, &mut compositor);
    assert!(matches!(first, LaunchOutcome::Deferred));
    assert_eq!(ledger.active_rules, vec!["hypr-persist-slow-app-1".to_string()]);
    compositor.opens("s1", "1", "slow.app");
    let second = launch(
        LaunchMode::Plain(MasterRole::Outside),
        &slow,
        &mut ledger,
        &mut compositor,
    );
    assert!(matches!(second, LaunchOutcome::Opened(_)));
    assert!(compositor.sent("windowrule[hypr-persist-slow-app-2]:enable false"));
    assert!(!compositor.sent("windowrule[hypr-persist-slow-app-1]:enable false"));
    assert_eq!(ledger.pending[0].rule_name, "hypr-persist-slow-app-1");
    assert_eq!(ledger.named, 2);
}

#[test]
fn rules_are_numbered_by_mode() {
    let mut compositor = Compositor::new();
    let mut ledger = ledger(vec![]);
    let foot = make_entry("foot", "foot", None, None);
    for address in ["f1", "f2"] {
        compositor.opens(address, "1", "foot");
        launch(
            LaunchMode::Plain(MasterRole::Outside),
            &foot,
            &mut ledger,
            &mut compositor,
        );
    }
    assert_eq!(
        compositor.count("windowrule[hypr-persist-foot-0]:enable false"),
        2,
        "no rule is kept, so plain launches start over"
    );
    assert_eq!(ledger.named, 0);
    for address in ["f3", "f4"] {
        compositor.opens(address, "1", "foot");
        launch(LaunchMode::Bsp(None), &foot, &mut ledger, &mut compositor);
        compositor.events.clear();
    }
    assert!(compositor.sent("windowrule[hypr-persist-foot-1]:enable false"));
    assert!(!compositor.sent("windowrule[hypr-persist-foot-2]"));
    assert_eq!(ledger.named, 2);
}

#[test]
fn execute_bsp_plans_adopts_racing_window_and_anchors_next_step() {
    // Slack raced onto workspace 9, not workspace 4 where the plan wants it.
    let mut compositor = Compositor::with_clients(single_client("0xslack1", "slack", "9"));
    compositor.layout = "dwindle".to_string();
    compositor.opens("discordwin", "4", "discord");
    let (report, _) = restore(
        RestoreEngine::new(false, true),
        session(vec![
            tiled("slack", "4", (0, 0), (500, 1080)),
            tiled("discord", "4", (500, 0), (1420, 1080)),
        ]),
        vec![],
        &mut compositor,
    );
    assert_eq!(report.restored, 2);
    let log = &compositor.log;
    assert!(
        !compositor.sent("exec slack"),
        "must not launch slack, it was already racing-live, got: {log:?}"
    );
    assert!(
        compositor.sent("movetoworkspacesilent 4,address:0xslack1"),
        "expected slack to be moved onto its target workspace, got: {log:?}"
    );
    assert!(
        compositor.sent("focuswindow address:0xslack1"),
        "expected discord's step to anchor against the adopted slack window, got: {log:?}"
    );
    assert!(
        compositor.sent("layoutmsg preselect r"),
        "expected preselect for discord's step, got: {log:?}"
    );
    assert!(
        compositor.sent("movetoworkspacesilent 4,address:0xdiscordwin"),
        "discord was freshly launched, got: {log:?}"
    );
    assert!(
        !compositor.sent("splitratio"),
        "slack was adopted, so its split must be left alone, got: {log:?}"
    );
}

/// The anchor and the preselection must be set after the window is there,
/// immediately before it settles, not before it is launched.
#[test]
fn execute_bsp_plans_finalizes_anchor_placement_after_delayed_open_with_intervening_close() {
    let mut compositor = Compositor::new();
    compositor.layout = "dwindle".to_string();
    compositor.events.push(HyprEvent::CloseWindow {
        address: "unrelated1".to_string(),
    });
    compositor.opens("slackwin", "4", "slack");
    let (report, _) = restore(
        RestoreEngine::new(false, true),
        session(vec![
            tiled("discord", "4", (0, 0), (1000, 500)),
            tiled("slack", "4", (0, 500), (1000, 600)),
        ]),
        vec![make_tracked("0xdiscordwin", "discord", "4", (0, 0))],
        &mut compositor,
    );
    assert_eq!(report.restored, 2);
    let log = &compositor.log;
    let exec_idx = compositor
        .first("exec slack")
        .expect("expected slack's exec dispatch");
    let anchor_focus_idx = compositor.first("focuswindow address:0xdiscordwin");
    let preselect_idx = compositor.first("layoutmsg preselect d");
    assert!(
        anchor_focus_idx.map_or(true, |i| i > exec_idx),
        "anchor focus must not be armed before exec, got: {log:?}"
    );
    assert!(
        preselect_idx.is_some_and(|i| i > exec_idx),
        "preselect must be issued after slack's window is confirmed to exist, got: {log:?}"
    );
    let settle_idx = compositor
        .last("setfloating address:0xslackwin")
        .expect("expected a settle dispatch for slack");
    assert!(
        preselect_idx.unwrap() < settle_idx,
        "preselect must be issued immediately before the final settle, got: {log:?}"
    );
    assert!(
        !compositor.sent("setfloating address:0xdiscordwin"),
        "discord came from the live pool, got: {log:?}"
    );
}

#[test]
fn restore_window_adopts_racing_window_before_exec() {
    let mut compositor = Compositor::with_clients(single_client("0xfoot9", "foot", "1"));
    let (report, watcher) = restore(
        RestoreEngine::new(true, true),
        session(vec![make_entry("foot", "foot", None, None)]),
        vec![],
        &mut compositor,
    );
    assert_eq!(report.restored, 1);
    assert!(watcher.is_none());
    let log = &compositor.log;
    assert!(
        !compositor.sent("exec"),
        "must not launch a duplicate, got: {log:?}"
    );
    assert!(
        compositor.sent("movetoworkspacesilent 1,address:0xfoot9"),
        "expected workspace placement, got: {log:?}"
    );
}

// --- whole restores ---

#[test]
fn restore_of_a_master_workspace() {
    let mut compositor = Compositor::new();
    compositor.layout = "master".to_string();
    compositor.opens("a1", "1", "a");
    compositor.opens("b1", "1", "b");
    let (report, _) = restore(
        RestoreEngine::new(false, true),
        session(vec![
            tiled("a", "1", (0, 0), (1152, 1080)),
            tiled("b", "1", (1152, 0), (768, 1080)),
        ]),
        vec![],
        &mut compositor,
    );
    assert_eq!(report.restored, 2);
    assert_eq!(report.failed, 0);
    let log = &compositor.log;
    assert!(compositor.sent("keyword master:mfact 0.600000"), "{log:?}");
    assert!(
        compositor.first("dispatch workspace 1") < compositor.first("layoutmsg orientationleft"),
        "{log:?}"
    );
    assert!(!compositor.sent("addmaster"), "{log:?}");
}

#[test]
fn restore_turns_focus_off_and_on_again() {
    let mut compositor = Compositor::new();
    compositor.focus = true;
    restore(
        RestoreEngine::new(true, false),
        session(vec![]),
        vec![],
        &mut compositor,
    );
    assert_eq!(
        compositor.log,
        vec![
            "keyword misc:focus_on_activate false",
            "keyword misc:focus_on_activate true"
        ]
    );
}

#[test]
fn restore_binds_workspaces_to_connected_monitors() {
    let mut compositor = Compositor::new();
    compositor.monitors = vec!["DP-1".to_string()];
    let mut here = make_entry("a", "a", None, None);
    here.monitor = Some("DP-1".to_string());
    let mut gone = make_entry("b", "b", None, None);
    gone.workspace = "2".to_string();
    gone.monitor = Some("HDMI-A-1".to_string());
    restore(
        RestoreEngine::new(true, false),
        session(vec![here, gone]),
        vec![
            make_tracked("0x1", "a", "1", (0, 0)),
            make_tracked("0x2", "b", "2", (0, 0)),
        ],
        &mut compositor,
    );
    let log = &compositor.log;
    assert!(
        compositor.sent("dispatch moveworkspacetomonitor 1 DP-1"),
        "{log:?}"
    );
    assert!(!compositor.sent("HDMI-A-1"), "{log:?}");
}

#[test]
fn restore_reports_what_failed() {
    let mut compositor = Compositor::new();
    compositor.refused = Some("exec".to_string());
    let (report, watcher) = restore(
        RestoreEngine::new(true, false),
        session(vec![make_entry("foot", "foot", None, None)]),
        vec![],
        &mut compositor,
    );
    assert_eq!(report.restored, 0);
    assert_eq!(report.failed, 1);
    assert_eq!(
        report.errors,
        vec![("foot".to_string(), "launching foot".to_string())]
    );
    assert!(watcher.is_none());
}

#[test]
fn restore_hands_slow_windows_to_the_watcher() {
    let mut compositor = Compositor::new();
    let (report, watcher) = restore(
        RestoreEngine::new(true, false),
        session(vec![make_entry("slow", "slow", None, None)]),
        vec![],
        &mut compositor,
    );
    assert_eq!(report.restored, 1);
    assert!(!compositor.sent("enable false"), "{:?}", compositor.log);
    let mut watcher = watcher.expect("a window is still expected");
    let late = watch(&mut watcher, &["openwindow>>0xAB,1,slow,Slow"]);
    assert!(watcher.is_done());
    assert_eq!(late.count("movetoworkspacesilent 1,address:0x"), 1);
    assert_eq!(late.count("enable false"), 1, "{:?}", late.log);
}

#[test]
fn rules_escape_the_class_that_they_match() {
    let mut compositor = Compositor::new();
    let mut ledger = ledger(vec![]);
    let window = make_entry("org.kde.app+1", "app", None, None);
    let mode = LaunchMode::Plain(MasterRole::Outside);
    launch(mode, &window, &mut ledger, &mut compositor);
    assert!(
        compositor.sent(r"org\.kde\.app\+1"),
        "{:?}",
        compositor.log
    );
}

#[test]
fn aborted_restore_says_why() {
    let mut compositor = Compositor::new();
    compositor.layout = "dwindle".to_string();
    compositor.refused = Some("dispatch workspace".to_string());
    let (mut run, mut turn) = RestoreEngine::new(true, true).restore(
        session(vec![
            tiled("a", "1", (0, 0), (960, 1080)),
            tiled("b", "1", (960, 0), (960, 1080)),
        ]),
        vec![],
    );
    while !matches!(turn.ask, Ask::Finished | Ask::Aborted(_)) {
        let answer = compositor.turn(&turn);
        turn = run.next(&answer);
    }
    match turn.ask {
        Ask::Aborted(message) => assert_eq!(message, "refused"),
        other => panic!("expected the restore to be given up, got {other:?}"),
    }
    assert!(!compositor.sent("exec"), "{:?}", compositor.log);
}

#[test]
fn fully_adopted_restore_launches_nothing() {
    let mut compositor = Compositor::new();
    compositor.layout = "dwindle".to_string();
    restore(
        RestoreEngine::new(true, true),
        session(vec![
            tiled("a", "1", (0, 0), (960, 1080)),
            tiled("b", "1", (960, 0), (960, 1080)),
        ]),
        vec![
            make_tracked("0x1", "a", "1", (0, 0)),
            make_tracked("0x2", "b", "1", (960, 0)),
        ],
        &mut compositor,
    );
    assert!(compositor.dispatches().is_empty(), "{:?}", compositor.log);
}

#[test]
fn waiting_times() {
    let engine = RestoreEngine::new(true, true);
    assert_eq!(engine.wait_for_open_event(false), 15000);
    assert_eq!(engine.wait_for_open_event(true), 800);
    let quick = engine.with_window_appear_timeout(50);
    assert_eq!(quick.wait_for_open_event(false), 50);
    assert_eq!(quick.wait_for_open_event(true), 800);
}

#[test]
fn late_window_of_a_line_that_opens_nothing() {
    let mut watcher = watcher_of(vec![pending("kitty", "4", PlacementHint::Bare)], false);
    assert!(watcher.on_line("closewindow>>abc").is_empty());
    assert!(watcher.on_line("").is_empty());
    assert!(matches!(parse_event(""), HyprEvent::Unknown(_)));
    assert!(!watcher.is_done());
}

// --- launch commands ---

#[test]
fn independent_commands_share_no_instance() {
    let cmd = "ghostty  --gtk-single-instance=true -e --single-instance vim";
    assert_eq!(strip_single_instance_flags(cmd), "ghostty -e vim");
    assert_eq!(strip_single_instance_flags("ghostty -e vim"), "ghostty -e vim");
    let entry = make_entry("ghostty", cmd, None, None);
    assert_eq!(build_launch_cmd(&entry), cmd);
    assert_eq!(build_bsp_launch_cmd(&entry), "ghostty -e vim");
    let at = make_entry("ghostty", cmd, None, Some("/srv"));
    assert_eq!(
        build_launch_cmd(&at),
        "ghostty -e vim --working-directory=/srv"
    );
}

#[test]
fn shell_reads_the_text() {
    assert_eq!(shell_escape("/a b"), "'/a b'");
    assert_eq!(shell_escape("it's"), "'it'\\''s'");
    assert_eq!(shell_escape(""), "''");
    let entry = make_entry("code", "code .", None, Some("/home/u/my dir"));
    assert_eq!(
        build_launch_cmd(&entry),
        "sh -c 'cd '\\''/home/u/my dir'\\'' && exec code .'"
    );
}

#[test]
fn shell_changes_to_the_directory() {
    let entry = make_entry("code", "code", None, Some("/a b"));
    let line = build_launch_cmd(&entry);
    assert_eq!(line, "sh -c 'cd '\\''/a b'\\'' && exec code'");
    assert_eq!(
        line,
        format!("sh -c {}", shell_escape("cd '/a b' && exec code"))
    );
    let quoting = make_entry("app", "app --title 'x'", None, Some("/it's"));
    assert_eq!(
        build_launch_cmd(&quoting),
        format!(
            "sh -c {}",
            shell_escape("cd '/it'\\''s' && exec app --title 'x'")
        )
    );
}

#[test]
fn bsp_launch_strips_the_command_and_keeps_the_directory() {
    let entry = make_entry("app", "app --single-instance", None, Some("/a  b"));
    assert_eq!(
        build_launch_cmd(&entry),
        "sh -c 'cd '\\''/a  b'\\'' && exec app --single-instance'"
    );
    assert_eq!(
        build_bsp_launch_cmd(&entry),
        "sh -c 'cd '\\''/a  b'\\'' && exec app'"
    );
    let flagged = make_entry("kitty", "--single-instance kitty", None, Some("/srv"));
    assert_eq!(
        build_bsp_launch_cmd(&flagged),
        "sh -c 'cd '\\''/srv'\\'' && exec kitty'"
    );
    let terminal = make_entry("kitty", "kitty --single-instance", None, Some("/srv"));
    assert_eq!(build_bsp_launch_cmd(&terminal), "kitty --directory=/srv");
}

#[test]
fn terminals_have_flags_for_the_working_directory() {
    let flags = [
        ("ghostty", "--working-directory="),
        ("/usr/bin/kitty --x", "--directory="),
        ("alacritty", "--working-directory="),
        ("wezterm start", "--cwd="),
        ("foot", "--working-directory="),
        ("tilix", "--working-directory="),
        ("terminator", "--working-directory="),
    ];
    for (cmd, flag) in flags {
        assert_eq!(terminal_cwd_flag(cmd), Some(flag));
    }
    assert_eq!(terminal_cwd_flag("xterm"), None);
    assert_eq!(terminal_cwd_flag("  "), None);
}
