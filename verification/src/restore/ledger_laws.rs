//! What launches have in common, and what is handed on.
use super::command::{binding, Command, CommandView};
use super::converge::{
    fullscreen_from, fullscreen_next, pixel_next, pixels_begin, ratio_next, ratios_from, size_next,
    sizes_begin, FullscreenRun, PixelRunView, RatioRun, SizeRunView, StepView,
};
use super::late::{late_ending, LateView};
use super::launch::{
    first_free, is_first_free, launch_next, rule_name, slug, Launch, LaunchMode, LaunchModeView,
    LaunchOutcome, LaunchOutcomeView, LaunchStepView, LaunchView, Ledger, LedgerView,
    PendingWindow, PlacementHint, PlacementView,
};
use super::launch_laws::law_rule_takes_the_first_free_number;
use super::plans::{Task, TaskView};
use super::pool::{claim, fresh_pool, race, racing_from, PoolView};
use super::run::{
    begin_task, fresh, go_on, restore_next, waiting_time, watched, Begun, RestoreEngine,
    RestoreStageView, RestoreView, LATE_WINDOW_GRACE_PERIOD, RETILE_GRACE_PERIOD,
    WINDOW_APPEAR_TIMEOUT,
};
use super::turn::{Answer, Ask, AskView, TurnView};
use crate::layout::dwindle::PreselDir;
use crate::models::{HyprClient, TrackedWindowView, WindowEntry, WindowEntryView};
use crate::state::normalized;
use crate::text::{decimal, replaced, texts};
use crate::text_laws::law_replacing_goes_by_character;
use vstd::prelude::*;

verus! {

/// The client is of the class, and its address is neither among those that were
/// known at the start nor among those that have been given out.
pub open spec fn is_new_of_class(pool: PoolView, c: HyprClient, class: Seq<char>) -> bool {
    c.class@ == class && !pool.known.contains(normalized(c.address@)) && !pool.claimed.contains(
        normalized(c.address@),
    )
}

/// Client `i` is the first new one of the class.
pub open spec fn is_first_new(
    pool: PoolView,
    clients: Seq<HyprClient>,
    class: Seq<char>,
    i: int,
) -> bool {
    &&& 0 <= i < clients.len()
    &&& is_new_of_class(pool, clients[i], class)
    &&& forall|j: int| 0 <= j < i ==> !is_new_of_class(pool, #[trigger] clients[j], class)
}

/// No client is new and of the class.
pub open spec fn none_is_new(pool: PoolView, clients: Seq<HyprClient>, class: Seq<char>) -> bool {
    forall|j: int| 0 <= j < clients.len() ==> !is_new_of_class(pool, #[trigger] clients[j], class)
}

/// The first new client of a class is given out, and counts as given out from
/// then on; otherwise nothing changes.
pub proof fn law_first_new_window_is_given_out(
    pool: PoolView,
    clients: Seq<HyprClient>,
    class: Seq<char>,
    i: int,
)
    ensures
        is_first_new(pool, clients, class, i) ==> {
            let (after, given) = race(pool, clients, class);
            &&& given == Some(normalized(clients[i].address@))
            &&& after.claimed == pool.claimed.insert(normalized(clients[i].address@))
            &&& after.known == pool.known
            &&& after.windows == pool.windows
        },
        none_is_new(pool, clients, class) ==> race(pool, clients, class) == (pool, None::<Seq<char>>),
{
    lemma_racing_from(pool, clients, class, 0, i);
}

proof fn lemma_racing_from(
    pool: PoolView,
    clients: Seq<HyprClient>,
    class: Seq<char>,
    k: int,
    i: int,
)
    requires
        0 <= k <= clients.len(),
    ensures
        k <= i < clients.len() && is_new_of_class(pool, clients[i], class) && (forall|j: int|
            k <= j < i ==> !is_new_of_class(pool, #[trigger] clients[j], class)) ==> racing_from(
            pool,
            clients,
            class,
            k,
        ) == Some(normalized(clients[i].address@)),
        (forall|j: int|
            k <= j < clients.len() ==> !is_new_of_class(pool, #[trigger] clients[j], class))
            ==> racing_from(pool, clients, class, k) is None,
    decreases clients.len() - k,
{
    if k < clients.len() {
        lemma_racing_from(pool, clients, class, k + 1, i);
    }
}

/// At the start of a restore exactly the addresses of the live windows are
/// known, all of them can be taken over, and none has been given out; an address
/// that is given out is remembered.
pub proof fn law_pool_starts_with_the_live_windows(
    live: Seq<TrackedWindowView>,
    i: int,
    address: Seq<char>,
    pool: PoolView,
)
    ensures
        fresh_pool(live).windows == live,
        0 <= i < live.len() ==> fresh_pool(live).known.contains(normalized(live[i].address)),
        fresh_pool(live).known.contains(address) ==> exists|j: int|
            0 <= j < live.len() && address == normalized((#[trigger] live[j]).address),
        !fresh_pool(live).claimed.contains(address),
        claim(pool, address).claimed.contains(address),
        claim(pool, address).known == pool.known,
        claim(pool, address).windows == pool.windows,
{
    if 0 <= i < live.len() {
        assert(normalized(live[i].address) == normalized((live[i]).address));
    }
}

/// A window that is there already is adopted before anything is launched: the
/// first new one of the class. Only where there is none does the launch go on.
pub proof fn law_new_window_is_adopted(
    w: WindowEntryView,
    l: LaunchView,
    led: LedgerView,
    clients: Vec<HyprClient>,
    i: int,
)
    ensures
        l.stage is Probe && is_first_new(led.pool, clients@, w.app_id, i) ==> (launch_next(
            w,
            l,
            led,
            Answer::Clients(clients),
        ).1 matches LaunchStepView::Over(_, outcome) && outcome == LaunchOutcomeView::Adopted(
            normalized(clients@[i].address@),
        )),
        l.stage is Probe && none_is_new(led.pool, clients@, w.app_id) ==> launch_next(
            w,
            l,
            led,
            Answer::Clients(clients),
        ).1 is Going,
        l.stage is Reprobe && is_first_new(led.pool, clients@, w.app_id, i) ==> (launch_next(
            w,
            l,
            led,
            Answer::Clients(clients),
        ).1 matches LaunchStepView::Over(sent, outcome) && outcome == LaunchOutcomeView::Adopted(
            normalized(clients@[i].address@),
        ) && sent.len() > 0 && sent[0] == CommandView::Keyword(
            "windowrule["@ + l.rule_name + "]:enable false"@,
        )),
        l.stage is Reprobe && none_is_new(led.pool, clients@, w.app_id) ==> (launch_next(
            w,
            l,
            led,
            Answer::Clients(clients),
        ).1 matches LaunchStepView::Over(sent, outcome) && outcome is Deferred && sent.len() == 0),
{
    law_first_new_window_is_given_out(led.pool, clients@, w.app_id, i);
}

/// Where the clients cannot be queried, a launch goes on as if there were none.
pub proof fn law_unanswered_probe_finds_nothing(
    w: WindowEntryView,
    l: LaunchView,
    led: LedgerView,
    message: String,
)
    ensures
        l.stage is Probe ==> launch_next(w, l, led, Answer::Failed(message)).1 is Going,
        l.stage is Reprobe ==> (launch_next(w, l, led, Answer::Failed(message)).1
            matches LaunchStepView::Over(_, outcome) && outcome is Deferred),
{
    law_first_new_window_is_given_out(led.pool, seq![], w.app_id, 0);
}

/// The rule of a launch takes the first number that makes a name of its own: from
/// how many rules are kept on, or, for a window in its slot, from how many such
/// windows were launched before.
pub proof fn law_rules_are_numbered_by_mode(
    w: WindowEntryView,
    l: LaunchView,
    led: LedgerView,
    clients: Vec<HyprClient>,
)
    requires
        l.stage is Probe,
        led.named >= 0,
        none_is_new(led.pool, clients@, w.app_id),
    ensures
        ({
            let (after, step) = launch_next(w, l, led, Answer::Clients(clients));
            let from = if l.mode is Plain {
                led.active_rules.len() as int
            } else {
                led.named
            };
            &&& step matches LaunchStepView::Going(next, _) && exists|n: int|
                n >= from && next.rule_name == #[trigger] rule_name(w.app_id, n)
                    && !led.active_rules.contains(rule_name(w.app_id, n)) && forall|m: int|
                    from <= m < n ==> led.active_rules.contains(#[trigger] rule_name(w.app_id, m))
            &&& after.named == led.named + if l.mode is Plain {
                0int
            } else {
                1int
            }
            &&& after.active_rules == led.active_rules
            &&& after.pending == led.pending
        }),
{
    law_first_new_window_is_given_out(led.pool, clients@, w.app_id, 0);
    let from = if l.mode is Plain {
        led.active_rules.len() as int
    } else {
        led.named
    };
    law_rule_takes_the_first_free_number(led.active_rules, w.app_id, from);
    let n = first_free(led.active_rules, w.app_id, from);
    assert(is_first_free(led.active_rules, w.app_id, from, n));
    if let LaunchStepView::Going(next, _) = launch_next(w, l, led, Answer::Clients(clients)).1 {
        assert(next.rule_name == rule_name(w.app_id, n));
    }
}

/// Once the monitors are known, the workspaces are bound to those that they were
/// saved on, and the restore asks for the focus option; it does so too where the
/// monitors are not known.
pub proof fn law_workspaces_are_bound_first(v: RestoreView, names: Vec<String>, message: String)
    requires
        v.stage is Monitors,
    ensures
        restore_next(v, Answer::Monitors(names)) == (
            v.at(RestoreStageView::FocusOption),
            TurnView { commands: binding(v.windows, texts(names@)), ask: AskView::FocusOption },
        ),
        restore_next(v, Answer::Failed(message)) == (
            v.at(RestoreStageView::FocusOption),
            TurnView { commands: seq![], ask: AskView::FocusOption },
        ),
{
}

/// What a correction asks for and sends is asked for and sent, at its start and
/// at each of its steps; when it is over, the next task begins, and when it cannot
/// go on, the restore ends with its message.
pub proof fn law_corrections_are_carried_out(
    v: RestoreView,
    answer: Answer,
    sent: Seq<CommandView>,
    ratios: RatioRun,
    pixels: PixelRunView,
    sizes: SizeRunView,
    full: FullscreenRun,
)
    ensures
        ({
            let done = v.at(RestoreStageView::Done);
            let from_ratios = restore_next(v.at(RestoreStageView::Ratios(ratios)), answer);
            let from_pixels = restore_next(v.at(RestoreStageView::Pixels(pixels)), answer);
            let from_sizes = restore_next(v.at(RestoreStageView::Sizes(sizes)), answer);
            let from_full = restore_next(v.at(RestoreStageView::Fullscreen(full)), answer);
            &&& match ratio_next(v.plan.ratio_steps, v.places, ratios, answer) {
                StepView::Going(next, t) => from_ratios == (v.at(RestoreStageView::Ratios(next)), t),
                StepView::Over => from_ratios == go_on(done, seq![]),
                StepView::Abort(message) => from_ratios.1.ask == AskView::Aborted(message),
            }
            &&& match pixel_next(pixels, v.places, answer) {
                StepView::Going(next, t) => from_pixels == (v.at(RestoreStageView::Pixels(next)), t),
                StepView::Over => from_pixels == go_on(done, seq![]),
                StepView::Abort(message) => from_pixels.1.ask == AskView::Aborted(message),
            }
            &&& match size_next(sizes, v.windows, v.places, answer) {
                StepView::Going(next, t) => from_sizes == (v.at(RestoreStageView::Sizes(next)), t),
                StepView::Over => from_sizes == go_on(done, seq![]),
                StepView::Abort(message) => from_sizes.1.ask == AskView::Aborted(message),
            }
            &&& match fullscreen_next(v.windows, v.places, full, answer) {
                StepView::Going(next, t) => from_full == (
                    v.at(RestoreStageView::Fullscreen(next)),
                    t,
                ),
                StepView::Over => from_full == go_on(done, seq![]),
                StepView::Abort(message) => from_full.1.ask == AskView::Aborted(message)
                    && from_full.1.commands.len() == 0 && from_full.0.stage is Aborted,
            }
        }),
        ratios_from(v.plan.ratio_steps, v.places, 0, false) matches StepView::Going(run, t)
            ==> begin_task(v, TaskView::Ratios, sent) == Begun::Waits(
            v.at(RestoreStageView::Ratios(run)),
            TurnView { commands: sent + t.commands, ask: t.ask },
        ),
        pixels_begin(v.plan.pixel_steps, v.places) matches StepView::Going(run, t) ==> begin_task(
            v,
            TaskView::Pixels,
            sent,
        ) == Begun::Waits(
            v.at(RestoreStageView::Pixels(run)),
            TurnView { commands: sent + t.commands, ask: t.ask },
        ),
        sizes_begin(v.windows, v.places) matches StepView::Going(run, t) ==> begin_task(
            v,
            TaskView::Sizes,
            sent,
        ) == Begun::Waits(
            v.at(RestoreStageView::Sizes(run)),
            TurnView { commands: sent + t.commands, ask: t.ask },
        ),
        fullscreen_from(v.windows, v.places, 0) matches StepView::Going(run, t) ==> begin_task(
            v,
            TaskView::Fullscreen,
            sent,
        ) == Begun::Waits(
            v.at(RestoreStageView::Fullscreen(run)),
            TurnView { commands: sent + t.commands, ask: t.ask },
        ),
{
}

/// A workspace that cannot be entered ends the restore with the message; one
/// that was entered has its first window launched without an anchor.
pub proof fn law_entering_a_workspace(v: RestoreView, answer: Answer)
    requires
        v.stage is EnterBsp || v.stage is EnterMaster,
    ensures
        answer matches Answer::Failed(message) ==> restore_next(v, answer) == (
            v.at(RestoreStageView::Aborted),
            TurnView { commands: seq![], ask: AskView::Aborted(message@) },
        ),
        v.stage is EnterBsp && !(answer is Failed) ==> (restore_next(v, answer).0.stage
            matches RestoreStageView::Launching(l) && l.mode == LaunchModeView::Bsp(None)
            && l.stage is Probe) && restore_next(v, answer).1 == (TurnView {
            commands: seq![],
            ask: AskView::Clients,
        }),
{
}

/// The name of a rule is made of a common prefix, the application's id with
/// dashes for dots and blanks, and a number.
pub proof fn law_rule_names(a: Seq<char>, b: Seq<char>, c: char, n: int)
    ensures
        rule_name(a, n) == "hypr-persist-"@ + slug(a) + "-"@ + decimal(n),
        slug(a + b) == slug(a) + slug(b),
        slug(seq!['.']) == seq!['-'],
        slug(seq![' ']) == seq!['-'],
        c != '.' && c != ' ' ==> slug(seq![c]) == seq![c],
{
    reveal_strlit("-");
    assert("-"@ =~= seq!['-']);
    law_replacing_goes_by_character(a, b, '.', "-"@);
    law_replacing_goes_by_character(replaced(a, '.', "-"@), replaced(b, '.', "-"@), ' ', "-"@);
    assert(replaced(seq![' '], '.', "-"@) == seq![' ']);
    assert(replaced(seq!['-'], ' ', "-"@) == seq!['-']);
    if c != '.' && c != ' ' {
        assert(replaced(seq![c], '.', "-"@) == seq![c]);
        assert(replaced(seq![c], ' ', "-"@) == seq![c]);
    }
}

/// A window may take fifteen seconds to appear, or as long as the engine is
/// told; its successor eight tenths of a second; and a slow one a minute.
pub proof fn law_waiting_times(engine: RestoreEngine)
    ensures
        waiting_time(engine, false) == engine.window_appear_timeout,
        waiting_time(engine, true) == 800,
        WINDOW_APPEAR_TIMEOUT == 15000,
        LATE_WINDOW_GRACE_PERIOD == 60000,
        RETILE_GRACE_PERIOD == 800,
{
}

/// A restore starts with every saved window to be placed, nothing counted and
/// nothing launched.
pub proof fn law_restore_starts_empty(
    engine: RestoreEngine,
    windows: Seq<WindowEntry>,
    live: Seq<TrackedWindowView>,
    i: int,
)
    ensures
        ({
            let v = fresh(engine, windows, live);
            &&& v.engine == engine
            &&& v.windows == windows
            &&& v.ledger.pool == fresh_pool(live)
            &&& v.ledger.active_rules.len() == 0
            &&& v.ledger.pending.len() == 0
            &&& v.ledger.named == 0
            &&& v.report.restored == 0
            &&& v.report.failed == 0
            &&& v.report.errors.len() == 0
            &&& v.places.addresses.len() == windows.len()
            &&& v.places.adopted.len() == windows.len()
            &&& 0 <= i < windows.len() ==> v.places.addresses[i] is None && !v.places.adopted[i]
        }),
{
}

/// The windows that have not appeared are watched for, with every rule that is
/// still enabled and with the engine's setting for geometry. Without such a window
/// there is nothing to watch.
pub proof fn law_missing_windows_are_watched_for(v: RestoreView)
    ensures
        v.ledger.pending.len() == 0 ==> watched(v) is None,
        v.ledger.pending.len() > 0 ==> (watched(v) matches Some(late) && late.pending
            == v.ledger.pending && late.all_rules == v.ledger.active_rules
            && late.resolved_rules.len() == 0 && late.restore_geometry
            == v.engine.restore_geometry),
{
}

/// A watch ends with disabling the rules of the windows that came, in order,
/// and then the others.
pub proof fn law_watch_disables_resolved_rules_first(v: LateView, i: int)
    ensures
        0 <= i < v.resolved_rules.len() ==> late_ending(v)[i] == CommandView::Keyword(
            "windowrule["@ + v.resolved_rules[i] + "]:enable false"@,
        ),
        late_ending(v).len() >= v.resolved_rules.len(),
        v.resolved_rules.len() <= i < late_ending(v).len() ==> exists|rule: Seq<char>|
            !v.resolved_rules.contains(rule) && #[trigger] v.all_rules.contains(rule)
                && late_ending(v)[i] == CommandView::Keyword(
                "windowrule["@ + rule + "]:enable false"@,
            ),
{
    let p = |rule: Seq<char>| !v.resolved_rules.contains(rule);
    let rest = v.all_rules.filter(p);
    if v.resolved_rules.len() <= i < late_ending(v).len() {
        let k = i - v.resolved_rules.len();
        v.all_rules.lemma_filter_pred(p, k);
        v.all_rules.lemma_filter_contains_rev(p, rest[k]);
        assert(late_ending(v)[i] == CommandView::Keyword(
            "windowrule["@ + rest[k] + "]:enable false"@,
        ));
    }
}

/// A window that is handed over, and how it is to be placed, are seen as they
/// are.
pub proof fn law_pending_windows_are_seen(p: PendingWindow, address: String, dir: PreselDir)
    ensures
        p@.app_id == p.app_id@,
        p@.workspace == p.workspace@,
        p@.floating == p.floating,
        p@.fullscreen == p.fullscreen,
        p@.position == p.position,
        p@.size == p.size,
        p@.rule_name == p.rule_name@,
        p@.placement == p.placement@,
        PlacementHint::Bare@ is Bare,
        PlacementHint::MasterPromote@ is MasterPromote,
        PlacementHint::DwindleAnchor(address, dir)@ == PlacementView::DwindleAnchor(address@, dir),
{
}

/// Launches, their outcomes and their ledger are seen as they are.
pub proof fn law_launches_are_seen(l: Launch, led: Ledger, s: String)
    ensures
        l@.mode == l.mode@,
        l@.rule_name == l.rule_name@,
        l@.stage == l.stage@,
        l.mode matches LaunchMode::Plain(role) ==> l@.mode == LaunchModeView::Plain(role),
        l.mode matches LaunchMode::Bsp(None) ==> l@.mode == LaunchModeView::Bsp(None),
        l.mode matches LaunchMode::Bsp(Some((address, dir))) ==> l@.mode == LaunchModeView::Bsp(
            Some((address@, dir)),
        ),
        led@.named == led.named,
        led@.active_rules.len() == led.active_rules@.len(),
        led@.pending.len() == led.pending@.len(),
        LaunchOutcome::Adopted(s)@ == LaunchOutcomeView::Adopted(s@),
        LaunchOutcome::Opened(s)@ == LaunchOutcomeView::Opened(s@),
        LaunchOutcome::Failed(s)@ == LaunchOutcomeView::Failed(s@),
        LaunchOutcome::Deferred@ is Deferred,
{
}

/// Requests and questions are seen as they are.
pub proof fn law_requests_are_seen(s: String, c: Command, splash: bool, ms: u64)
    ensures
        Command::Dispatch(s)@ == CommandView::Dispatch(s@),
        Command::Keyword(s)@ == CommandView::Keyword(s@),
        c matches Command::MasterFactor { share, far } ==> c@ == (CommandView::MasterFactor {
            share,
            far,
        }),
        c matches Command::SplitRatio(ratio) ==> c@ == CommandView::SplitRatio(ratio),
        Ask::Send(c)@ == AskView::Send(c@),
        (Ask::OpenEvent { class: s, splash })@ == (AskView::OpenEvent { class: s@, splash }),
        Ask::Pause(ms)@ == AskView::Pause(ms),
        Ask::Aborted(s)@ == AskView::Aborted(s@),
        Ask::Monitors@ is Monitors,
        Ask::FocusOption@ is FocusOption,
        Ask::Layout@ is Layout,
        Ask::Clients@ is Clients,
        Ask::Finished@ is Finished,
{
}

/// The tasks of a plan are seen as they are.
pub proof fn law_tasks_are_seen(t: Task)
    ensures
        t matches Task::Window { idx, role } ==> t@ == (TaskView::Window { idx, role }),
        t matches Task::Bsp { idx, focus_idx, preselect, first } ==> t@ == (TaskView::Bsp {
            idx,
            focus_idx,
            preselect,
            first,
        }),
        t matches Task::EnterMaster { workspace, orientation, mfact } ==> t@ == (
        TaskView::EnterMaster { workspace: workspace@, orientation, mfact }),
        t is Ratios <==> t@ is Ratios,
        t is Pixels <==> t@ is Pixels,
        t is Sizes <==> t@ is Sizes,
        t is Fullscreen <==> t@ is Fullscreen,
{
}

} // verus!
