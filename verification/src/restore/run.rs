//! A whole restore, from the first question to the last request.
use super::command::{
    add_command, add_commands, bind_workspaces_to_monitors, binding, commands, disable_all_rules,
    disabling, shape_window, shaping, switch_workspace, workspace_args, Command, CommandView,
};
use super::converge::{
    fullscreen_from, fullscreen_next, pixel_next, pixels_begin, ratio_next, ratios_from, size_next,
    sizes_begin, FullscreenRun, PixelRun, PixelRunView, Places, PlacesView, RatioRun, SizeRun,
    SizeRunView, Step, StepView,
};
use super::late::{LateView, LateWatcher};
use super::launch::{
    launch_next, launching, Launch, LaunchMode, LaunchModeView, LaunchOutcome, LaunchOutcomeView,
    LaunchStep, LaunchStepView, LaunchView, Ledger, LedgerView,
};
use super::laws::{all_indices, law_plans_restore_every_window_once, window_of, windows_of};
use super::plans::{
    build_dwindle_plans, build_master_plans, build_simple_plan, dwindle_plan, master_plan,
    session_fits, simple_plan, RestorePlan, RestorePlanView, Task, TaskView,
};
use super::pool::{fresh_pool, take, window_views, LiveWindowPool};
use super::turn::{Answer, Ask, AskView, Turn, TurnView};
use crate::layout::dwindle::PreselDir;
use crate::layout::master::MasterOrientation;
use crate::models::{SessionFile, TrackedWindow, TrackedWindowView, WindowEntry};
use crate::state::{normalize_address, normalized};
use crate::text::{str_eq, texts};
use vstd::prelude::*;
use vstd::string::StringExecFns;

verus! {

/// What came of a restore.
#[derive(Debug)]
pub struct RestoreReport {
    pub restored: usize,
    pub failed: usize,
    /// The app and the message of each failure.
    pub errors: Vec<(String, String)>,
}

#[verifier::ext_equal]
pub struct ReportView {
    pub restored: int,
    pub failed: int,
    pub errors: Seq<(Seq<char>, Seq<char>)>,
}

pub open spec fn error_views(v: Seq<(String, String)>) -> Seq<(Seq<char>, Seq<char>)> {
    Seq::new(v.len(), |i: int| (v[i].0@, v[i].1@))
}

impl View for RestoreReport {
    type V = ReportView;

    open spec fn view(&self) -> ReportView {
        ReportView {
            restored: self.restored as int,
            failed: self.failed as int,
            errors: error_views(self.errors@),
        }
    }
}

impl Default for RestoreReport {
    fn default() -> (r: Self)
        ensures
            r.restored == 0,
            r.failed == 0,
            r.errors@.len() == 0,
    {
        RestoreReport { restored: 0, failed: 0, errors: Vec::new() }
    }
}

impl ReportView {
    pub open spec fn success(self) -> ReportView {
        ReportView { restored: self.restored + 1, ..self }
    }

    pub open spec fn failure(self, app_id: Seq<char>, message: Seq<char>) -> ReportView {
        ReportView {
            failed: self.failed + 1,
            errors: self.errors.push((app_id, message)),
            ..self
        }
    }
}

impl RestoreReport {
    fn count_success(&mut self)
        requires
            old(self).restored < usize::MAX,
        ensures
            final(self)@ == old(self)@.success(),
    {
        self.restored = self.restored + 1;
    }

    fn count_failure(&mut self, app_id: &String, message: &String)
        requires
            old(self).failed < usize::MAX,
        ensures
            final(self)@ == old(self)@.failure(app_id@, message@),
    {
        self.failed = self.failed + 1;
        self.errors.push((app_id.clone(), message.clone()));
        proof {
            assert(error_views(self.errors@) =~= error_views(old(self).errors@).push(
                (app_id@, message@),
            ));
            assert(self@ =~= old(self)@.failure(app_id@, message@));
        }
    }
}

/// What a restore waits for.
pub enum RestoreStage {
    /// The connected monitors.
    Monitors,
    /// Whether the compositor gives the focus to activated windows.
    FocusOption,
    /// The active layout.
    Layout,
    /// The switch to a workspace with a master area.
    EnterMaster(MasterOrientation),
    /// The switch to a workspace with a BSP tree.
    EnterBsp,
    /// The launch of a window.
    Launching(Launch),
    /// The geometry of a window: these requests, of which this one is sent.
    Shaping(Vec<Command>, usize),
    Ratios(RatioRun),
    Pixels(PixelRun),
    Sizes(SizeRun),
    Fullscreen(FullscreenRun),
    /// Nothing any more: all is done.
    Done,
    /// Nothing any more: the restore was given up.
    Aborted,
}

pub enum RestoreStageView {
    Monitors,
    FocusOption,
    Layout,
    EnterMaster(MasterOrientation),
    EnterBsp,
    Launching(LaunchView),
    Shaping(Seq<CommandView>, int),
    Ratios(RatioRun),
    Pixels(PixelRunView),
    Sizes(SizeRunView),
    Fullscreen(FullscreenRun),
    Done,
    Aborted,
}

impl View for RestoreStage {
    type V = RestoreStageView;

    open spec fn view(&self) -> RestoreStageView {
        match *self {
            RestoreStage::Monitors => RestoreStageView::Monitors,
            RestoreStage::FocusOption => RestoreStageView::FocusOption,
            RestoreStage::Layout => RestoreStageView::Layout,
            RestoreStage::EnterMaster(orientation) => RestoreStageView::EnterMaster(orientation),
            RestoreStage::EnterBsp => RestoreStageView::EnterBsp,
            RestoreStage::Launching(launch) => RestoreStageView::Launching(launch@),
            RestoreStage::Shaping(v, at) => RestoreStageView::Shaping(commands(v@), at as int),
            RestoreStage::Ratios(run) => RestoreStageView::Ratios(run),
            RestoreStage::Pixels(run) => RestoreStageView::Pixels(run@),
            RestoreStage::Sizes(run) => RestoreStageView::Sizes(run@),
            RestoreStage::Fullscreen(run) => RestoreStageView::Fullscreen(run),
            RestoreStage::Done => RestoreStageView::Done,
            RestoreStage::Aborted => RestoreStageView::Aborted,
        }
    }
}

/// How long a launched app may take to show its window, in milliseconds.
pub const WINDOW_APPEAR_TIMEOUT: u64 = 15000;

/// How long the background watcher keeps listening for slow-starting apps
/// after the main restore loop finishes, in milliseconds.
pub const LATE_WINDOW_GRACE_PERIOD: u64 = 60000;

/// How long to wait, after a launched app's first window appears, for a
/// second window of the same class to show up (splash-window supersede), in
/// milliseconds.
pub const RETILE_GRACE_PERIOD: u64 = 800;

/// How restores are carried out.
#[derive(Debug, Clone, Copy)]
pub struct RestoreEngine {
    pub restore_geometry: bool,
    pub restore_layout: bool,
    /// In milliseconds.
    pub window_appear_timeout: u64,
}

/// How long an engine waits for a window, or for a splash window's successor.
pub open spec fn waiting_time(engine: RestoreEngine, splash: bool) -> u64 {
    if splash {
        RETILE_GRACE_PERIOD
    } else {
        engine.window_appear_timeout
    }
}

impl RestoreEngine {
    pub fn new(restore_geometry: bool, restore_layout: bool) -> (r: Self)
        ensures
            r == (RestoreEngine {
                restore_geometry,
                restore_layout,
                window_appear_timeout: WINDOW_APPEAR_TIMEOUT,
            }),
    {
        RestoreEngine {
            restore_geometry,
            restore_layout,
            window_appear_timeout: WINDOW_APPEAR_TIMEOUT,
        }
    }

    /// The same engine with another window-appear timeout.
    pub fn with_window_appear_timeout(self, timeout: u64) -> (r: Self)
        ensures
            r == (RestoreEngine { window_appear_timeout: timeout, ..self }),
    {
        RestoreEngine {
            restore_geometry: self.restore_geometry,
            restore_layout: self.restore_layout,
            window_appear_timeout: timeout,
        }
    }

    /// How long to wait for a window, or for a splash window's successor.
    pub fn wait_for_open_event(&self, splash: bool) -> (r: u64)
        ensures
            r == if splash {
                RETILE_GRACE_PERIOD
            } else {
                self.window_appear_timeout
            },
            r == waiting_time(*self, splash),
    {
        if splash {
            RETILE_GRACE_PERIOD
        } else {
            self.window_appear_timeout
        }
    }

    /// Take up a restore of the session. Every live window may be adopted in
    /// place of launching a duplicate.
    pub fn restore(&self, session: SessionFile, live_windows: Vec<TrackedWindow>) -> (r: (
        Restore,
        Turn,
    ))
        requires
            self.restore_layout ==> session_fits(session.windows@),
        ensures
            r.0@ == fresh(*self, session.windows@, window_views(live_windows@)),
            r.1@ == turn(seq![], AskView::Monitors),
            sound(r.0@),
    {
        Restore::new(*self, session, live_windows)
    }
}

/// A restore under way.
pub struct Restore {
    engine: RestoreEngine,
    session: SessionFile,
    had_focus: bool,
    ledger: Ledger,
    places: Places,
    report: RestoreReport,
    plan: RestorePlan,
    /// How many tasks were begun.
    begun: usize,
    stage: RestoreStage,
}

#[verifier::ext_equal]
pub struct RestoreView {
    pub engine: RestoreEngine,
    pub windows: Seq<WindowEntry>,
    pub had_focus: bool,
    pub ledger: LedgerView,
    pub places: PlacesView,
    pub report: ReportView,
    pub plan: RestorePlanView,
    pub begun: int,
    pub stage: RestoreStageView,
}

impl View for Restore {
    type V = RestoreView;

    closed spec fn view(&self) -> RestoreView {
        RestoreView {
            engine: self.engine,
            windows: self.session.windows@,
            had_focus: self.had_focus,
            ledger: self.ledger@,
            places: self.places@,
            report: self.report@,
            plan: self.plan@,
            begun: self.begun as int,
            stage: self.stage@,
        }
    }
}

/// A restore before its first answer.
pub open spec fn fresh(
    engine: RestoreEngine,
    windows: Seq<WindowEntry>,
    live: Seq<TrackedWindowView>,
) -> RestoreView {
    RestoreView {
        engine,
        windows,
        had_focus: false,
        ledger: LedgerView {
            pool: fresh_pool(live),
            active_rules: seq![],
            pending: seq![],
            named: 0,
        },
        places: PlacesView {
            addresses: Seq::new(windows.len(), |i: int| None),
            adopted: Seq::new(windows.len(), |i: int| false),
        },
        report: ReportView { restored: 0, failed: 0, errors: seq![] },
        plan: RestorePlanView { tasks: seq![], ratio_steps: seq![], pixel_steps: seq![] },
        begun: 0,
        stage: RestoreStageView::Monitors,
    }
}

/// What is left for the watcher when a restore is over: the windows that have
/// not appeared, if there are any, and the rules that are still enabled.
pub open spec fn watched(v: RestoreView) -> Option<LateView> {
    if v.ledger.pending.len() > 0 {
        Some(
            LateView {
                pending: v.ledger.pending,
                all_rules: v.ledger.active_rules,
                resolved_rules: seq![],
                restore_geometry: v.engine.restore_geometry,
            },
        )
    } else {
        None
    }
}

impl RestoreView {
    pub open spec fn at(self, stage: RestoreStageView) -> RestoreView {
        RestoreView { stage, ..self }
    }

    /// The task that was begun last.
    pub open spec fn task(self) -> TaskView {
        self.plan.tasks[self.begun - 1]
    }

    /// A window is open at the address.
    pub open spec fn opened(self, idx: usize, address: Seq<char>) -> RestoreView {
        RestoreView {
            places: PlacesView {
                addresses: self.places.addresses.update(idx as int, Some(address)),
                ..self.places
            },
            ..self
        }
    }

    /// A live window was taken over.
    pub open spec fn adopted(self, idx: usize, address: Seq<char>) -> RestoreView {
        let v = self.opened(idx, address);
        RestoreView {
            places: PlacesView { adopted: v.places.adopted.update(idx as int, true), ..v.places },
            ..v
        }
    }

    pub open spec fn success(self) -> RestoreView {
        RestoreView { report: self.report.success(), ..self }
    }

    pub open spec fn failure(self, idx: usize, message: Seq<char>) -> RestoreView {
        RestoreView {
            report: self.report.failure(self.windows[idx as int].app_id@, message),
            ..self
        }
    }
}

pub open spec fn turn(sent: Seq<CommandView>, ask: AskView) -> TurnView {
    TurnView { commands: sent, ask }
}

/// The restore is given up.
pub open spec fn aborted(v: RestoreView, message: Seq<char>) -> (RestoreView, TurnView) {
    (v.at(RestoreStageView::Aborted), turn(seq![], AskView::Aborted(message)))
}

/// All tasks are done: the focus option gets its value back, and the rules
/// are disabled unless windows are still expected.
pub open spec fn finished(v: RestoreView, sent: Seq<CommandView>) -> (RestoreView, TurnView) {
    let focus = if v.had_focus {
        sent.push(CommandView::Keyword("misc:focus_on_activate true"@))
    } else {
        sent
    };
    let rules = if v.ledger.pending.len() == 0 {
        focus + disabling(v.ledger.active_rules)
    } else {
        focus
    };
    (v.at(RestoreStageView::Done), turn(rules, AskView::Finished))
}

/// The window beside which a BSP window opens, if that one is open.
pub open spec fn anchor_of(
    places: PlacesView,
    focus_idx: Option<usize>,
    preselect: Option<PreselDir>,
) -> Option<(Seq<char>, PreselDir)> {
    match (focus_idx, preselect) {
        (Some(idx), Some(dir)) => match places.address(idx as int) {
            Some(address) => Some((address, dir)),
            None => None,
        },
        _ => None,
    }
}

/// What beginning a task comes to: the task is over at once, or it waits.
pub enum Begun {
    Over(RestoreView),
    Waits(RestoreView, TurnView),
}

pub open spec fn waits_for_launch(
    v: RestoreView,
    mode: LaunchModeView,
    sent: Seq<CommandView>,
) -> (RestoreView, TurnView) {
    let (launch, t) = launching(mode);
    (v.at(RestoreStageView::Launching(launch)), turn(sent, t.ask))
}

/// Begin a task: a window that is live already is taken over, any other is
/// launched; a correction begins where there is something to correct.
pub open spec fn begin_task(v: RestoreView, task: TaskView, sent: Seq<CommandView>) -> Begun {
    match task {
        TaskView::Window { idx, role } => {
            let (pool, live) = take(v.ledger.pool, v.windows[idx as int]@);
            let w = RestoreView { ledger: LedgerView { pool, ..v.ledger }, ..v };
            if live is Some {
                Begun::Over(w.success())
            } else {
                let (x, t) = waits_for_launch(w, LaunchModeView::Plain(role), sent);
                Begun::Waits(x, t)
            }
        },
        TaskView::Bsp { idx, focus_idx, preselect, first } => {
            let (pool, live) = take(v.ledger.pool, v.windows[idx as int]@);
            let w = RestoreView { ledger: LedgerView { pool, ..v.ledger }, ..v };
            match live {
                Some(window) => Begun::Over(
                    w.adopted(idx, normalized(window.address)).success(),
                ),
                None => {
                    let anchor = anchor_of(v.places, focus_idx, preselect);
                    if anchor is None && first {
                        Begun::Waits(
                            w.at(RestoreStageView::EnterBsp),
                            turn(
                                sent,
                                AskView::Send(
                                    CommandView::Dispatch(
                                        workspace_args(v.windows[idx as int].workspace@),
                                    ),
                                ),
                            ),
                        )
                    } else {
                        let (x, t) = waits_for_launch(w, LaunchModeView::Bsp(anchor), sent);
                        Begun::Waits(x, t)
                    }
                },
            }
        },
        TaskView::EnterMaster { workspace, orientation, mfact } => Begun::Waits(
            v.at(RestoreStageView::EnterMaster(orientation)),
            turn(
                sent.push(
                    CommandView::MasterFactor { share: mfact, far: !orientation.master_first() },
                ),
                AskView::Send(CommandView::Dispatch(workspace_args(workspace))),
            ),
        ),
        TaskView::Ratios => match ratios_from(v.plan.ratio_steps, v.places, 0, false) {
            StepView::Going(run, t) => Begun::Waits(
                v.at(RestoreStageView::Ratios(run)),
                turn(sent + t.commands, t.ask),
            ),
            _ => Begun::Over(v),
        },
        TaskView::Pixels => match pixels_begin(v.plan.pixel_steps, v.places) {
            StepView::Going(run, t) => Begun::Waits(
                v.at(RestoreStageView::Pixels(run)),
                turn(sent + t.commands, t.ask),
            ),
            _ => Begun::Over(v),
        },
        TaskView::Sizes => match sizes_begin(v.windows, v.places) {
            StepView::Going(run, t) => Begun::Waits(
                v.at(RestoreStageView::Sizes(run)),
                turn(sent + t.commands, t.ask),
            ),
            _ => Begun::Over(v),
        },
        TaskView::Fullscreen => match fullscreen_from(v.windows, v.places, 0) {
            StepView::Going(run, t) => Begun::Waits(
                v.at(RestoreStageView::Fullscreen(run)),
                turn(sent + t.commands, t.ask),
            ),
            _ => Begun::Over(v),
        },
    }
}

/// Begin tasks until one waits, or all are done.
pub open spec fn go_on(v: RestoreView, sent: Seq<CommandView>) -> (RestoreView, TurnView)
    decreases v.plan.tasks.len() - v.begun,
{
    if v.begun < 0 || v.begun >= v.plan.tasks.len() {
        finished(v, sent)
    } else {
        let w = RestoreView { begun: v.begun + 1, ..v };
        match begin_task(w, w.task(), sent) {
            Begun::Over(x) => go_on(x, sent),
            Begun::Waits(x, t) => (x, t),
        }
    }
}

/// A launch is over: note where the window is, or why it failed. A window
/// restored on its own gets its geometry back.
pub open spec fn after_launch(
    v: RestoreView,
    sent: Seq<CommandView>,
    outcome: LaunchOutcomeView,
) -> (RestoreView, TurnView) {
    match v.task() {
        TaskView::Bsp { idx, .. } => match outcome {
            LaunchOutcomeView::Adopted(address) => go_on(v.adopted(idx, address).success(), sent),
            LaunchOutcomeView::Opened(address) => go_on(v.opened(idx, address).success(), sent),
            LaunchOutcomeView::Deferred => go_on(v.success(), sent),
            LaunchOutcomeView::Failed(message) => go_on(v.failure(idx, message), sent),
        },
        TaskView::Window { idx, .. } => match outcome {
            LaunchOutcomeView::Opened(address) => {
                let w = v.windows[idx as int]@;
                let shape = shaping(w.floating, w.fullscreen, w.position, w.size, address);
                if v.engine.restore_geometry && shape.len() > 0 {
                    (
                        v.at(RestoreStageView::Shaping(shape, 0)),
                        turn(sent, AskView::Send(shape[0])),
                    )
                } else {
                    go_on(v.success(), sent)
                }
            },
            LaunchOutcomeView::Failed(message) => go_on(v.failure(idx, message), sent),
            _ => go_on(v.success(), sent),
        },
        _ => go_on(v, sent),
    }
}

/// The window of the task that was begun last.
pub open spec fn current(v: RestoreView) -> usize {
    match window_of(v.task()) {
        Some(idx) => idx,
        None => 0,
    }
}

/// The next turn of a restore.
pub open spec fn restore_next(before: RestoreView, answer: Answer) -> (RestoreView, TurnView) {
    let v = before.at(RestoreStageView::Done);
    match before.stage {
        RestoreStageView::Monitors => (
            v.at(RestoreStageView::FocusOption),
            turn(
                match answer {
                    Answer::Monitors(names) => binding(v.windows, texts(names@)),
                    _ => seq![],
                },
                AskView::FocusOption,
            ),
        ),
        RestoreStageView::FocusOption => {
            let had_focus = match answer {
                Answer::Flag(flag) => flag,
                _ => true,
            };
            let sent = if had_focus {
                seq![CommandView::Keyword("misc:focus_on_activate false"@)]
            } else {
                seq![]
            };
            let w = RestoreView { had_focus, ..v };
            if v.engine.restore_layout {
                (w.at(RestoreStageView::Layout), turn(sent, AskView::Layout))
            } else {
                go_on(RestoreView { plan: simple_plan(v.windows), ..w }, sent)
            }
        },
        RestoreStageView::Layout => {
            let plan = match answer {
                Answer::Text(name) => if name@ == "dwindle"@ {
                    dwindle_plan(v.windows)
                } else if name@ == "master"@ {
                    master_plan(v.windows)
                } else {
                    simple_plan(v.windows)
                },
                _ => simple_plan(v.windows),
            };
            go_on(RestoreView { plan, ..v }, seq![])
        },
        RestoreStageView::EnterMaster(orientation) => match answer.failure() {
            Some(message) => aborted(v, message),
            None => go_on(
                v,
                seq![CommandView::Dispatch("layoutmsg orientation"@ + orientation.name())],
            ),
        },
        RestoreStageView::EnterBsp => match answer.failure() {
            Some(message) => aborted(v, message),
            None => waits_for_launch(v, LaunchModeView::Bsp(None), seq![]),
        },
        RestoreStageView::Launching(launch) => {
            let (ledger, step) = launch_next(
                v.windows[current(v) as int]@,
                launch,
                v.ledger,
                answer,
            );
            let w = RestoreView { ledger, ..v };
            match step {
                LaunchStepView::Going(next, t) => (w.at(RestoreStageView::Launching(next)), t),
                LaunchStepView::Over(sent, outcome) => after_launch(w, sent, outcome),
            }
        },
        RestoreStageView::Shaping(shape, at) => match answer.failure() {
            Some(message) => go_on(v.failure(current(v), message), seq![]),
            None => if at + 1 < shape.len() {
                (
                    v.at(RestoreStageView::Shaping(shape, at + 1)),
                    turn(seq![], AskView::Send(shape[at + 1])),
                )
            } else {
                go_on(v.success(), seq![])
            },
        },
        RestoreStageView::Ratios(run) => match ratio_next(
            v.plan.ratio_steps,
            v.places,
            run,
            answer,
        ) {
            StepView::Going(next, t) => (v.at(RestoreStageView::Ratios(next)), t),
            StepView::Over => go_on(v, seq![]),
            StepView::Abort(message) => aborted(v, message),
        },
        RestoreStageView::Pixels(run) => match pixel_next(run, v.places, answer) {
            StepView::Going(next, t) => (v.at(RestoreStageView::Pixels(next)), t),
            StepView::Over => go_on(v, seq![]),
            StepView::Abort(message) => aborted(v, message),
        },
        RestoreStageView::Sizes(run) => match size_next(run, v.windows, v.places, answer) {
            StepView::Going(next, t) => (v.at(RestoreStageView::Sizes(next)), t),
            StepView::Over => go_on(v, seq![]),
            StepView::Abort(message) => aborted(v, message),
        },
        RestoreStageView::Fullscreen(run) => match fullscreen_next(
            v.windows,
            v.places,
            run,
            answer,
        ) {
            StepView::Going(next, t) => (v.at(RestoreStageView::Fullscreen(next)), t),
            StepView::Over => go_on(v, seq![]),
            StepView::Abort(message) => aborted(v, message),
        },
        _ => (before, turn(seq![], AskView::Finished)),
    }
}

/// A window's restore is under way.
pub open spec fn in_flight(v: RestoreView) -> bool {
    v.stage is EnterBsp || v.stage is Launching || v.stage is Shaping
}

/// The tasks are not decided yet.
pub open spec fn is_early(v: RestoreView) -> bool {
    v.stage is Monitors || v.stage is FocusOption || v.stage is Layout
}

/// A window's rule has not got its name yet.
pub open spec fn is_unnamed(v: RestoreView) -> bool {
    v.stage is EnterBsp || (v.stage matches RestoreStageView::Launching(l) && l.stage is Probe)
}

/// Every task is about a window of the session.
pub open spec fn in_bounds(tasks: Seq<TaskView>, n: nat) -> bool {
    forall|i: int|
        0 <= i < tasks.len() ==> (window_of(#[trigger] tasks[i]) matches Some(idx) ==> idx < n)
}

/// What holds of a restore whenever tasks may be begun: as many windows are
/// accounted for as were taken up, apart from `open` of them.
pub open spec fn balanced(v: RestoreView, open: int) -> bool {
    &&& v.places.addresses.len() == v.windows.len()
    &&& v.places.adopted.len() == v.windows.len()
    &&& 0 <= v.begun <= v.plan.tasks.len()
    &&& in_bounds(v.plan.tasks, v.windows.len())
    &&& v.report.restored >= 0
    &&& v.report.failed >= 0
    &&& v.report.errors.len() == v.report.failed
    &&& windows_of(v.plan.tasks.take(v.begun)).len() == v.report.restored + v.report.failed + open
    &&& windows_of(v.plan.tasks).to_multiset() == all_indices(v.windows.len()).to_multiset()
    &&& 0 <= v.ledger.named <= v.begun
}

/// What holds of a restore at every turn.
pub open spec fn sound(v: RestoreView) -> bool {
    if is_early(v) {
        &&& v.begun == 0
        &&& v.places.addresses.len() == v.windows.len()
        &&& v.places.adopted.len() == v.windows.len()
        &&& v.report.restored == 0
        &&& v.report.failed == 0
        &&& v.report.errors.len() == 0
        &&& v.ledger.named == 0
        &&& v.engine.restore_layout || v.stage is Layout ==> session_fits(v.windows)
    } else if v.stage is Aborted {
        true
    } else {
        &&& balanced(
            v,
            if in_flight(v) {
                1
            } else {
                0
            },
        )
        &&& in_flight(v) ==> v.begun >= 1 && window_of(v.task()) is Some
        &&& is_unnamed(v) ==> v.ledger.named < v.begun
        &&& v.stage matches RestoreStageView::Shaping(shape, at) ==> 0 <= at < shape.len()
        &&& v.stage is Done ==> v.begun == v.plan.tasks.len()
    }
}

proof fn lemma_windows_of_take(tasks: Seq<TaskView>, k: int)
    requires
        0 <= k < tasks.len(),
    ensures
        windows_of(tasks.take(k + 1)).len() == windows_of(tasks.take(k)).len() + if window_of(
            tasks[k],
        ) is Some {
            1nat
        } else {
            0nat
        },
{
    assert(tasks.take(k + 1).drop_last() =~= tasks.take(k));
    assert(tasks.take(k + 1).last() == tasks[k]);
}

proof fn lemma_windows_of_len(tasks: Seq<TaskView>)
    ensures
        windows_of(tasks).len() <= tasks.len(),
    decreases tasks.len(),
{
    if tasks.len() > 0 {
        lemma_windows_of_len(tasks.drop_last());
    }
}

proof fn lemma_windows_of_contains(tasks: Seq<TaskView>, i: int)
    requires
        0 <= i < tasks.len(),
        window_of(tasks[i]) is Some,
    ensures
        windows_of(tasks).contains(window_of(tasks[i])->0),
    decreases tasks.len(),
{
    let idx = window_of(tasks[i])->0;
    let rest = windows_of(tasks.drop_last());
    if i < tasks.len() - 1 {
        lemma_windows_of_contains(tasks.drop_last(), i);
        let k = choose|k: int| 0 <= k < rest.len() && rest[k] == idx;
        assert(windows_of(tasks)[k] == idx);
    } else {
        assert(windows_of(tasks)[rest.len() as int] == idx);
    }
}

/// A plan that restores every window once is about windows of the session.
pub(crate) proof fn lemma_plan_in_bounds(tasks: Seq<TaskView>, n: nat)
    requires
        n <= usize::MAX,
        windows_of(tasks).to_multiset() == all_indices(n).to_multiset(),
    ensures
        in_bounds(tasks, n),
        windows_of(tasks).len() == n,
{
    broadcast use vstd::seq_lib::group_to_multiset_ensures;

    assert(windows_of(tasks).to_multiset().len() == windows_of(tasks).len());
    assert(all_indices(n).to_multiset().len() == all_indices(n).len());
    assert forall|i: int| 0 <= i < tasks.len() implies (window_of(#[trigger] tasks[i]) matches Some(
        idx,
    ) ==> idx < n) by {
        if window_of(tasks[i]) is Some {
            let idx = window_of(tasks[i])->0;
            lemma_windows_of_contains(tasks, i);
            assert(windows_of(tasks).to_multiset().count(idx) > 0);
            assert(all_indices(n).contains(idx));
        }
    }
}

/// A launch names at most one rule, and only when it leaves its first stage.
proof fn lemma_named_grows(
    w: crate::models::WindowEntryView,
    l: LaunchView,
    led: LedgerView,
    answer: Answer,
)
    ensures
        ({
            let (after, step) = launch_next(w, l, led, answer);
            &&& led.named <= after.named <= led.named + 1
            &&& !(l.stage is Probe) ==> after.named == led.named
            &&& step matches LaunchStepView::Going(next, _) ==> !(next.stage is Probe)
        }),
{
}

impl Restore {
    fn new(engine: RestoreEngine, session: SessionFile, live_windows: Vec<TrackedWindow>) -> (r:
        (Restore, Turn))
        requires
            engine.restore_layout ==> session_fits(session.windows@),
        ensures
            r.0@ == fresh(engine, session.windows@, window_views(live_windows@)),
            r.1@ == turn(seq![], AskView::Monitors),
            sound(r.0@),
    {
        let n: usize = session.windows.len();
        let mut addresses: Vec<Option<String>> = Vec::new();
        let mut adopted: Vec<bool> = Vec::new();
        for i in 0..n
            invariant
                n == session.windows@.len(),
                addresses@.len() == i,
                adopted@.len() == i,
                forall|j: int| 0 <= j < i ==> (#[trigger] addresses@[j]) is None,
                forall|j: int| 0 <= j < i ==> !(#[trigger] adopted@[j]),
        {
            addresses.push(None);
            adopted.push(false);
        }
        let r = Restore {
            engine,
            session,
            had_focus: false,
            ledger: Ledger {
                pool: LiveWindowPool::new(live_windows),
                active_rules: Vec::new(),
                pending: Vec::new(),
                named: 0,
            },
            places: Places { addresses, adopted },
            report: RestoreReport::default(),
            plan: RestorePlan {
                tasks: Vec::new(),
                ratio_steps: Vec::new(),
                pixel_steps: Vec::new(),
            },
            begun: 0,
            stage: RestoreStage::Monitors,
        };
        let first = Turn { commands: Vec::new(), ask: Ask::Monitors };
        proof {
            let v = fresh(engine, session.windows@, window_views(live_windows@));
            assert(r@.places.addresses =~= v.places.addresses);
            assert(r@.places.adopted =~= v.places.adopted);
            assert(r@.ledger =~= v.ledger) by {
                assert(r@.ledger.active_rules =~= seq![]);
                assert(r@.ledger.pending =~= seq![]);
            }
            assert(r@.report =~= v.report);
            assert(r@.plan =~= v.plan);
            assert(r@ =~= v);
            assert(commands(first.commands@) =~= seq![]);
        }
        (r, first)
    }

    fn note_opened(&mut self, idx: usize, address: String)
        requires
            idx < old(self).places.addresses@.len(),
        ensures
            final(self)@ == old(self)@.opened(idx, address@),
            final(self).session == old(self).session,
            final(self).plan == old(self).plan,
            final(self).begun == old(self).begun,
            final(self).places.adopted == old(self).places.adopted,
            final(self).report == old(self).report,
            final(self).ledger == old(self).ledger,
    {
        self.places.addresses[idx] = Some(address);
        assert(self@ =~= old(self)@.opened(idx, address@)) by {
            assert(self@.places.addresses =~= old(self)@.opened(idx, address@).places.addresses);
        }
    }

    fn note_adopted(&mut self, idx: usize, address: String)
        requires
            idx < old(self).places.addresses@.len(),
            idx < old(self).places.adopted@.len(),
        ensures
            final(self)@ == old(self)@.adopted(idx, address@),
            final(self).session == old(self).session,
            final(self).plan == old(self).plan,
            final(self).begun == old(self).begun,
            final(self).report == old(self).report,
            final(self).ledger == old(self).ledger,
    {
        self.note_opened(idx, address);
        self.places.adopted[idx] = true;
        assert(self@ =~= old(self)@.adopted(idx, address@));
    }

    /// Take over a live window for a window of the session.
    fn take_live(&mut self, idx: usize) -> (r: Option<TrackedWindow>)
        requires
            idx < old(self).session.windows@.len(),
        ensures
            ({
                let (pool, live) = take(
                    old(self)@.ledger.pool,
                    old(self)@.windows[idx as int]@,
                );
                &&& final(self)@ == RestoreView {
                    ledger: LedgerView { pool, ..old(self)@.ledger },
                    ..old(self)@
                }
                &&& r is Some <==> live is Some
                &&& r matches Some(w) ==> live == Some(w@)
            }),
            final(self).session == old(self).session,
            final(self).plan == old(self).plan,
            final(self).begun == old(self).begun,
            final(self).places == old(self).places,
            final(self).report == old(self).report,
    {
        let entry = &self.session.windows[idx];
        let r = self.ledger.pool.take_match(entry);
        r
    }

    fn begin_launch(&mut self, mode: LaunchMode) -> (ask: Ask)
        ensures
            final(self)@ == old(self)@.at(RestoreStageView::Launching(launching(mode@).0)),
            ask@ == launching(mode@).1.ask,
    {
        let (launch, first) = Launch::begin(mode);
        self.stage = RestoreStage::Launching(launch);
        first.ask
    }

    fn anchor(&self, focus_idx: Option<usize>, preselect: Option<PreselDir>) -> (r: Option<
        (String, PreselDir),
    >)
        ensures
            super::command::anchor_view(r) == anchor_of(self@.places, focus_idx, preselect),
    {
        match (focus_idx, preselect) {
            (Some(idx), Some(dir)) => {
                if idx < self.places.addresses.len() {
                    match &self.places.addresses[idx] {
                        Some(address) => Some((address.clone(), dir)),
                        None => None,
                    }
                } else {
                    None
                }
            },
            _ => None,
        }
    }

    /// Begin the task that is next in line.
    fn begin_task(&mut self, sent: &mut Vec<Command>) -> (r: Option<Ask>)
        requires
            balanced(
                old(self)@,
                if window_of(old(self)@.task()) is Some {
                    1
                } else {
                    0
                },
            ),
            old(self)@.begun >= 1,
            old(self)@.ledger.named < old(self)@.begun,
        ensures
            match r {
                None => begin_task(old(self)@, old(self)@.task(), commands(old(sent)@))
                    == Begun::Over(final(self)@) && final(sent)@ == old(sent)@ && balanced(
                    final(self)@,
                    0,
                ),
                Some(ask) => begin_task(old(self)@, old(self)@.task(), commands(old(sent)@))
                    == Begun::Waits(final(self)@, turn(commands(final(sent)@), ask@)) && sound(
                    final(self)@,
                ),
            },
            final(self)@.plan == old(self)@.plan,
            final(self)@.begun == old(self)@.begun,
            final(self)@.ledger.named == old(self)@.ledger.named,
    {
        let k: usize = self.begun - 1;
        proof {
            assert(self@.task() == self.plan.tasks@[k as int]@);
            assert(window_of(self@.plan.tasks[k as int]) matches Some(idx) ==> idx
                < self@.windows.len());
            lemma_windows_of_len(self@.plan.tasks.take(self@.begun));
        }
        match &self.plan.tasks[k] {
            Task::Window { idx, role } => {
                let i: usize = *idx;
                let mode = LaunchMode::Plain(*role);
                match self.take_live(i) {
                    Some(_) => {
                        self.report.count_success();
                        None
                    },
                    None => Some(self.begin_launch(mode)),
                }
            },
            Task::Bsp { idx, focus_idx, preselect, first } => {
                let i: usize = *idx;
                let is_first: bool = *first;
                let anchor = self.anchor(*focus_idx, *preselect);
                match self.take_live(i) {
                    Some(live) => {
                        let address = normalize_address(live.address.as_str());
                        self.note_adopted(i, address);
                        self.report.count_success();
                        None
                    },
                    None => {
                        if anchor.is_none() && is_first {
                            let switch = switch_workspace(
                                self.session.windows[i].workspace.as_str(),
                            );
                            self.stage = RestoreStage::EnterBsp;
                            Some(Ask::Send(switch))
                        } else {
                            Some(self.begin_launch(LaunchMode::Bsp(anchor)))
                        }
                    },
                }
            },
            Task::EnterMaster { workspace, orientation, mfact } => {
                let far = match orientation {
                    MasterOrientation::Left | MasterOrientation::Top => false,
                    MasterOrientation::Right | MasterOrientation::Bottom => true,
                };
                add_command(sent, Command::MasterFactor { share: *mfact, far });
                let switch = switch_workspace(workspace.as_str());
                self.stage = RestoreStage::EnterMaster(*orientation);
                Some(Ask::Send(switch))
            },
            Task::Ratios => match RatioRun::begin(&self.plan.ratio_steps, &self.places) {
                Step::Going(run, first) => {
                    self.stage = RestoreStage::Ratios(run);
                    add_commands(sent, first.commands);
                    Some(first.ask)
                },
                _ => None,
            },
            Task::Pixels => match PixelRun::begin(&self.plan.pixel_steps, &self.places) {
                Step::Going(run, first) => {
                    self.stage = RestoreStage::Pixels(run);
                    add_commands(sent, first.commands);
                    Some(first.ask)
                },
                _ => None,
            },
            Task::Sizes => match SizeRun::begin(&self.session.windows, &self.places) {
                Step::Going(run, first) => {
                    self.stage = RestoreStage::Sizes(run);
                    add_commands(sent, first.commands);
                    Some(first.ask)
                },
                _ => None,
            },
            Task::Fullscreen => match FullscreenRun::begin(&self.session.windows, &self.places) {
                Step::Going(run, first) => {
                    self.stage = RestoreStage::Fullscreen(run);
                    add_commands(sent, first.commands);
                    Some(first.ask)
                },
                _ => None,
            },
        }
    }

    /// Begin tasks until one waits, or all are done.
    fn go_on(&mut self, sent: Vec<Command>) -> (r: Turn)
        requires
            balanced(old(self)@, 0),
        ensures
            (final(self)@, r@) == go_on(old(self)@, commands(sent@)),
            sound(final(self)@),
    {
        let ghost first = commands(sent@);
        let mut out = sent;
        while self.begun < self.plan.tasks.len()
            invariant
                balanced(self@, 0),
                first == commands(sent@),
                commands(out@) == first,
                go_on(self@, first) == go_on(old(self)@, first),
                self@.plan == old(self)@.plan,
            decreases self@.plan.tasks.len() - self@.begun,
        {
            let ghost before = self@;
            proof {
                lemma_windows_of_take(self@.plan.tasks, self@.begun);
            }
            self.begun = self.begun + 1;
            let ghost taken_up = self@;
            assert(taken_up =~= (RestoreView { begun: before.begun + 1, ..before }));
            match self.begin_task(&mut out) {
                None => {},
                Some(ask) => {
                    let r = Turn { commands: out, ask };
                    assert((self@, r@) == go_on(before, first));
                    return r;
                },
            }
        }
        if self.had_focus {
            add_command(&mut out, Command::Keyword("misc:focus_on_activate true".to_owned()));
        }
        if self.ledger.pending.len() == 0 {
            let rules = disable_all_rules(&self.ledger.active_rules);
            add_commands(&mut out, rules);
        }
        self.stage = RestoreStage::Done;
        Turn { commands: out, ask: Ask::Finished }
    }

    /// Begin with the tasks of a plan.
    fn follow(&mut self, plan: RestorePlan, sent: Vec<Command>) -> (r: Turn)
        requires
            old(self)@.begun == 0,
            old(self)@.places.addresses.len() == old(self)@.windows.len(),
            old(self)@.places.adopted.len() == old(self)@.windows.len(),
            old(self)@.report.restored == 0,
            old(self)@.report.failed == 0,
            old(self)@.report.errors.len() == 0,
            old(self)@.ledger.named == 0,
            windows_of(plan@.tasks).to_multiset() == all_indices(
                old(self)@.windows.len(),
            ).to_multiset(),
        ensures
            (final(self)@, r@) == go_on(
                RestoreView { plan: plan@, ..old(self)@ },
                commands(sent@),
            ),
            sound(final(self)@),
    {
        let n: usize = self.session.windows.len();
        self.plan = plan;
        proof {
            lemma_plan_in_bounds(plan@.tasks, n as nat);
            assert(plan@.tasks.take(0) =~= seq![]);
            assert(windows_of(plan@.tasks.take(0)).len() == 0);
        }
        self.go_on(sent)
    }

    /// Close the books on a launch.
    fn after_launch(&mut self, sent: Vec<Command>, outcome: LaunchOutcome) -> (r: Turn)
        requires
            balanced(old(self)@, 1),
            old(self)@.begun >= 1,
            window_of(old(self)@.task()) is Some,
        ensures
            (final(self)@, r@) == after_launch(old(self)@, commands(sent@), outcome@),
            sound(final(self)@),
    {
        let k: usize = self.begun - 1;
        proof {
            assert(self@.task() == self.plan.tasks@[k as int]@);
            assert(window_of(self@.plan.tasks[k as int]) matches Some(idx) ==> idx
                < self@.windows.len());
            lemma_windows_of_len(self@.plan.tasks.take(self@.begun));
        }
        match &self.plan.tasks[k] {
            Task::Bsp { idx, .. } => {
                let i: usize = *idx;
                match outcome {
                    LaunchOutcome::Adopted(address) => {
                        self.note_adopted(i, address);
                        self.report.count_success();
                    },
                    LaunchOutcome::Opened(address) => {
                        self.note_opened(i, address);
                        self.report.count_success();
                    },
                    LaunchOutcome::Deferred => {
                        self.report.count_success();
                    },
                    LaunchOutcome::Failed(message) => {
                        self.report.count_failure(&self.session.windows[i].app_id, &message);
                    },
                }
                self.go_on(sent)
            },
            Task::Window { idx, .. } => {
                let i: usize = *idx;
                match outcome {
                    LaunchOutcome::Opened(address) => {
                        let w = &self.session.windows[i];
                        let shape = shape_window(
                            w.floating,
                            w.fullscreen,
                            w.position,
                            w.size,
                            address.as_str(),
                        );
                        if self.engine.restore_geometry && shape.len() > 0 {
                            let first = copy_command(&shape[0]);
                            assert(commands(shape@)[0] == shape@[0]@);
                            self.stage = RestoreStage::Shaping(shape, 0);
                            return Turn { commands: sent, ask: Ask::Send(first) };
                        }
                        self.report.count_success();
                    },
                    LaunchOutcome::Failed(message) => {
                        self.report.count_failure(&self.session.windows[i].app_id, &message);
                    },
                    _ => {
                        self.report.count_success();
                    },
                }
                self.go_on(sent)
            },
            _ => self.go_on(sent),
        }
    }

    /// The window of the task that was begun last.
    fn current(&self) -> (r: usize)
        requires
            1 <= self@.begun <= self@.plan.tasks.len(),
        ensures
            r == current(self@),
    {
        let k: usize = self.begun - 1;
        assert(self@.task() == self.plan.tasks@[k as int]@);
        match &self.plan.tasks[k] {
            Task::Window { idx, .. } => *idx,
            Task::Bsp { idx, .. } => *idx,
            _ => 0,
        }
    }

    /// Take an answer and go on with the restore.
    pub fn next(&mut self, answer: &Answer) -> (r: Turn)
        requires
            sound(old(self)@),
        ensures
            (final(self)@, r@) == restore_next(old(self)@, *answer),
            sound(final(self)@),
    {
        let mut stage = RestoreStage::Done;
        std::mem::swap(&mut stage, &mut self.stage);
        let ghost before = *old(self);
        assert(self@ =~= before@.at(RestoreStageView::Done));
        assert(self@.at(stage@) =~= before@);
        match stage {
            RestoreStage::Monitors => {
                let sent = match answer {
                    Answer::Monitors(names) => bind_workspaces_to_monitors(&self.session, names),
                    _ => no_commands(),
                };
                self.stage = RestoreStage::FocusOption;
                Turn { commands: sent, ask: Ask::FocusOption }
            },
            RestoreStage::FocusOption => self.focus_known(answer),
            RestoreStage::Layout => self.layout_known(answer),
            RestoreStage::EnterMaster(orientation) => match answer {
                Answer::Failed(message) => self.abort(message),
                _ => {
                    let mut args = "layoutmsg orientation".to_owned();
                    let name = orientation.to_string();
                    args.append(name.as_str());
                    let mut sent = no_commands();
                    add_command(&mut sent, Command::Dispatch(args));
                    assert(commands(sent@) =~= seq![
                        CommandView::Dispatch("layoutmsg orientation"@ + orientation.name()),
                    ]);
                    self.go_on(sent)
                },
            },
            RestoreStage::EnterBsp => match answer {
                Answer::Failed(message) => self.abort(message),
                _ => {
                    let ask = self.begin_launch(LaunchMode::Bsp(None));
                    silent(ask)
                },
            },
            RestoreStage::Launching(launch) => self.next_launch(launch, answer),
            RestoreStage::Shaping(shape, at) => self.shaped(shape, at, answer),
            RestoreStage::Ratios(run) => self.ratio_set(run, answer),
            RestoreStage::Pixels(run) => self.split_measured(run, answer),
            RestoreStage::Sizes(run) => self.size_measured(run, answer),
            RestoreStage::Fullscreen(run) => self.fullscreen_set(run, answer),
            RestoreStage::Done => silent(Ask::Finished),
            RestoreStage::Aborted => {
                self.stage = RestoreStage::Aborted;
                silent(Ask::Finished)
            },
        }
    }

    fn focus_known(&mut self, answer: &Answer) -> (r: Turn)
        requires
            sound(old(self)@.at(RestoreStageView::FocusOption)),
            old(self)@.stage is Done,
        ensures
            (final(self)@, r@) == restore_next(
                old(self)@.at(RestoreStageView::FocusOption),
                *answer,
            ),
            sound(final(self)@),
    {
        assert(self@ =~= self@.at(RestoreStageView::FocusOption).at(RestoreStageView::Done));
        let had_focus = match answer {
            Answer::Flag(flag) => *flag,
            _ => true,
        };
        let mut sent = no_commands();
        if had_focus {
            add_command(
                &mut sent,
                Command::Keyword("misc:focus_on_activate false".to_owned()),
            );
            assert(commands(sent@) =~= seq![
                CommandView::Keyword("misc:focus_on_activate false"@),
            ]);
        }
        self.had_focus = had_focus;
        if self.engine.restore_layout {
            self.stage = RestoreStage::Layout;
            Turn { commands: sent, ask: Ask::Layout }
        } else {
            let n: usize = self.session.windows.len();
            proof {
                law_plans_restore_every_window_once(self@.windows);
            }
            let plan = build_simple_plan(&self.session);
            self.follow(plan, sent)
        }

    }

    fn layout_known(&mut self, answer: &Answer) -> (r: Turn)
        requires
            sound(old(self)@.at(RestoreStageView::Layout)),
            old(self)@.stage is Done,
        ensures
            (final(self)@, r@) == restore_next(old(self)@.at(RestoreStageView::Layout), *answer),
            sound(final(self)@),
    {
        assert(self@ =~= self@.at(RestoreStageView::Layout).at(RestoreStageView::Done));
        let n: usize = self.session.windows.len();
        proof {
            law_plans_restore_every_window_once(self@.windows);
        }
        let plan = match answer {
            Answer::Text(name) => {
                if str_eq(name.as_str(), "dwindle") {
                    build_dwindle_plans(&self.session)
                } else if str_eq(name.as_str(), "master") {
                    build_master_plans(&self.session)
                } else {
                    build_simple_plan(&self.session)
                }
            },
            _ => build_simple_plan(&self.session),
        };
        self.follow(plan, no_commands())

    }

    fn ratio_set(&mut self, run: RatioRun, answer: &Answer) -> (r: Turn)
        requires
            sound(old(self)@.at(RestoreStageView::Ratios(run))),
            old(self)@.stage is Done,
        ensures
            (final(self)@, r@) == restore_next(
                old(self)@.at(RestoreStageView::Ratios(run)),
                *answer,
            ),
            sound(final(self)@),
    {
        assert(self@ =~= self@.at(RestoreStageView::Ratios(run)).at(RestoreStageView::Done));
        match run.next(&self.plan.ratio_steps, &self.places, answer) {
            Step::Going(next, t) => {
                self.stage = RestoreStage::Ratios(next);
                t
            },
            Step::Over => self.go_on(no_commands()),
            Step::Abort(message) => self.abort(&message),
        }
    }

    fn split_measured(&mut self, run: PixelRun, answer: &Answer) -> (r: Turn)
        requires
            sound(old(self)@.at(RestoreStageView::Pixels(run@))),
            old(self)@.stage is Done,
        ensures
            (final(self)@, r@) == restore_next(
                old(self)@.at(RestoreStageView::Pixels(run@)),
                *answer,
            ),
            sound(final(self)@),
    {
        assert(self@ =~= self@.at(RestoreStageView::Pixels(run@)).at(RestoreStageView::Done));
        match run.next(&self.places, answer) {
            Step::Going(next, t) => {
                self.stage = RestoreStage::Pixels(next);
                t
            },
            Step::Over => self.go_on(no_commands()),
            Step::Abort(message) => self.abort(&message),
        }
    }

    fn size_measured(&mut self, run: SizeRun, answer: &Answer) -> (r: Turn)
        requires
            sound(old(self)@.at(RestoreStageView::Sizes(run@))),
            old(self)@.stage is Done,
        ensures
            (final(self)@, r@) == restore_next(
                old(self)@.at(RestoreStageView::Sizes(run@)),
                *answer,
            ),
            sound(final(self)@),
    {
        assert(self@ =~= self@.at(RestoreStageView::Sizes(run@)).at(RestoreStageView::Done));
        match run.next(&self.session.windows, &self.places, answer) {
            Step::Going(next, t) => {
                self.stage = RestoreStage::Sizes(next);
                t
            },
            Step::Over => self.go_on(no_commands()),
            Step::Abort(message) => self.abort(&message),
        }
    }

    fn fullscreen_set(&mut self, run: FullscreenRun, answer: &Answer) -> (r: Turn)
        requires
            sound(old(self)@.at(RestoreStageView::Fullscreen(run))),
            old(self)@.stage is Done,
        ensures
            (final(self)@, r@) == restore_next(
                old(self)@.at(RestoreStageView::Fullscreen(run)),
                *answer,
            ),
            sound(final(self)@),
    {
        assert(self@ =~= self@.at(RestoreStageView::Fullscreen(run)).at(RestoreStageView::Done));
        match run.next(&self.session.windows, &self.places, answer) {
            Step::Going(next, t) => {
                self.stage = RestoreStage::Fullscreen(next);
                t
            },
            Step::Over => self.go_on(no_commands()),
            Step::Abort(message) => self.abort(&message),
        }
    }

    fn shaped(&mut self, shape: Vec<Command>, at: usize, answer: &Answer) -> (r: Turn)
        requires
            balanced(old(self)@, 1),
            old(self)@.begun >= 1,
            window_of(old(self)@.task()) is Some,
            at < shape@.len(),
            old(self)@.stage is Done,
        ensures
            (final(self)@, r@) == restore_next(
                old(self)@.at(RestoreStageView::Shaping(commands(shape@), at as int)),
                *answer,
            ),
            sound(final(self)@),
    {
        assert(self@ =~= self@.at(RestoreStageView::Shaping(commands(shape@), at as int)).at(
            RestoreStageView::Done,
        ));
        match answer {
            Answer::Failed(message) => {
                let i: usize = self.current();
                proof {
                    lemma_windows_of_len(self@.plan.tasks.take(self@.begun));
                    assert(window_of(self@.plan.tasks[self@.begun - 1]) matches Some(idx)
                        ==> idx < self@.windows.len());
                }
                self.report.count_failure(&self.session.windows[i].app_id, message);
                self.go_on(no_commands())
            },
            _ => {
                let len: usize = shape.len();
                if at + 1 < len {
                    let request = copy_command(&shape[at + 1]);
                    assert(commands(shape@)[at + 1] == shape@[at + 1]@);
                    self.stage = RestoreStage::Shaping(shape, at + 1);
                    silent(Ask::Send(request))
                } else {
                    proof {
                        lemma_windows_of_len(self@.plan.tasks.take(self@.begun));
                    }
                    self.report.count_success();
                    self.go_on(no_commands())
                }
            },
        }
    }

    fn next_launch(&mut self, launch: Launch, answer: &Answer) -> (r: Turn)
        requires
            balanced(old(self)@, 1),
            old(self)@.begun >= 1,
            window_of(old(self)@.task()) is Some,
            launch@.stage is Probe ==> old(self)@.ledger.named < old(self)@.begun,
            old(self)@.stage is Done,
        ensures
            (final(self)@, r@) == restore_next(
                old(self)@.at(RestoreStageView::Launching(launch@)),
                *answer,
            ),
            sound(final(self)@),
    {
        let i: usize = self.current();
        let ghost before = self@;
        assert(before =~= before.at(RestoreStageView::Launching(launch@)).at(
            RestoreStageView::Done,
        ));
        proof {
            assert(window_of(self@.plan.tasks[self@.begun - 1]) matches Some(idx) ==> idx
                < self@.windows.len());
        }
        let step = launch.next(&self.session.windows[i], &mut self.ledger, answer);
        let ghost (ledger, s) = launch_next(
            before.windows[i as int]@,
            launch@,
            before.ledger,
            *answer,
        );
        proof {
            assert(self@ =~= (RestoreView { ledger, ..before }));
            assert(step@ == s);
            lemma_named_grows(before.windows[i as int]@, launch@, before.ledger, *answer);
        }
        match step {
            LaunchStep::Going(next, t) => {
                self.stage = RestoreStage::Launching(next);
                t
            },
            LaunchStep::Over(sent, outcome) => self.after_launch(sent, outcome),
        }
    }

    /// What came of the restore, and the watcher for the windows that have
    /// not appeared yet, if there are any.
    pub fn into_outcome(self) -> (r: (RestoreReport, Option<LateWatcher>))
        ensures
            r.0@ == self@.report,
            r.1 is Some <==> self@.ledger.pending.len() > 0,
            r.1 matches Some(watcher) ==> watcher@ == (LateView {
                pending: self@.ledger.pending,
                all_rules: self@.ledger.active_rules,
                resolved_rules: seq![],
                restore_geometry: self@.engine.restore_geometry,
            }),
            match r.1 {
                Some(watcher) => watched(self@) == Some(watcher@),
                None => watched(self@) is None,
            },
    {
        let Restore { engine, ledger, report, .. } = self;
        let Ledger { active_rules, pending, .. } = ledger;
        if pending.len() == 0 {
            (report, None)
        } else {
            (report, Some(LateWatcher::new(pending, active_rules, engine.restore_geometry)))
        }
    }

    fn abort(&mut self, message: &String) -> (r: Turn)
        ensures
            (final(self)@, r@) == aborted(old(self)@, message@),
    {
        self.stage = RestoreStage::Aborted;
        let r = Turn { commands: Vec::new(), ask: Ask::Aborted(message.clone()) };
        assert(commands(r.commands@) =~= seq![]);
        r
    }
}

fn silent(ask: Ask) -> (r: Turn)
    ensures
        r@ == turn(seq![], ask@),
{
    let r = Turn { commands: Vec::new(), ask };
    assert(commands(r.commands@) =~= seq![]);
    r
}

fn no_commands() -> (r: Vec<Command>)
    ensures
        commands(r@) == Seq::<CommandView>::empty(),
{
    let r: Vec<Command> = Vec::new();
    assert(commands(r@) =~= seq![]);
    r
}

fn copy_command(c: &Command) -> (r: Command)
    ensures
        r@ == c@,
{
    match c {
        Command::Dispatch(args) => Command::Dispatch(args.clone()),
        Command::Keyword(args) => Command::Keyword(args.clone()),
        Command::MasterFactor { share, far } => Command::MasterFactor { share: *share, far: *far },
        Command::SplitRatio(ratio) => Command::SplitRatio(*ratio),
    }
}

} // verus!
