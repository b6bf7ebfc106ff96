//! What holds of every restore, whatever the compositor answers.
use super::command::{
    bind_args, binding, binds, close_args, disable_args, disabling, float_args, focus_args,
    home_of, move_args, placing, preselect_args, resize_args, CommandView,
};
use super::converge::{
    fullscreen_from, next_pixel, next_ratio, next_size, own_windows, pixel_candidates, pixel_next,
    pixels_begin, ratios_from, saved_size, size_next, sizes_begin, PixelRunView, PixelStage,
    PlacesView, SizeRunView, StepView,
};
use super::late::{late_ending, late_next, pending_from, unresolved, LateView};
use super::launch::{
    launch_next, LaunchModeView, LaunchOutcomeView, LaunchStageView, LaunchStepView, LaunchView,
    LedgerView,
};
use super::pool::law_claimed_is_never_raced;
use super::run::{
    begin_task, finished, go_on, lemma_plan_in_bounds, restore_next, sound, Begun, RestoreView,
};
use super::turn::Answer;
use crate::layout::dwindle::{PixelRatioStep, PreselDir, SplitRatioStep};
use crate::models::{WindowEntry, WindowEntryView};
use crate::state::normalized;
use vstd::prelude::*;

verus! {

/// How far along a launch is.
pub open spec fn launch_rank(stage: LaunchStageView) -> int {
    match stage {
        LaunchStageView::Probe => 0,
        LaunchStageView::ClassRule => 1,
        LaunchStageView::WorkspaceRule => 2,
        LaunchStageView::Start => 3,
        LaunchStageView::Opening => 4,
        LaunchStageView::Splash(_) => 5,
        LaunchStageView::Reprobe => 6,
    }
}

/// Every answer brings a launch forward, so it is over after at most six.
pub proof fn law_launch_ends(w: WindowEntryView, l: LaunchView, led: LedgerView, answer: Answer)
    ensures
        launch_next(w, l, led, answer).1 matches LaunchStepView::Going(next, _) ==> {
            &&& launch_rank(l.stage) < launch_rank(next.stage) <= 6
            &&& next.mode == l.mode
        },
{
}

/// Once a window appears its rule is disabled at once; a rule stays only for
/// a window that is left to the watcher.
pub proof fn law_rule_is_disabled_or_handed_over(
    w: WindowEntryView,
    l: LaunchView,
    led: LedgerView,
    answer: Answer,
)
    ensures
        ({
            let (after, step) = launch_next(w, l, led, answer);
            let disable = CommandView::Keyword(disable_args(l.rule_name));
            &&& l.stage is Opening && answer.window() is Some ==> match step {
                LaunchStepView::Going(_, turn) => turn.commands[0] == disable,
                LaunchStepView::Over(sent, _) => sent[0] == disable,
            }
            &&& l.stage is Reprobe ==> match step {
                LaunchStepView::Over(sent, LaunchOutcomeView::Adopted(_)) => sent[0] == disable,
                LaunchStepView::Over(_, LaunchOutcomeView::Deferred) => {
                    &&& after.active_rules == led.active_rules.push(l.rule_name)
                    &&& after.pending.last().rule_name == l.rule_name
                    &&& after.pending.len() == led.pending.len() + 1
                },
                _ => false,
            }
            &&& !(l.stage is Reprobe) ==> after.active_rules == led.active_rules && after.pending
                == led.pending
        }),
{
}

/// A window that a launch ends with is claimed; an adopted one was not
/// claimed before and did not exist at startup. What was claimed stays so.
pub proof fn law_launch_claims_its_window(
    w: WindowEntryView,
    l: LaunchView,
    led: LedgerView,
    answer: Answer,
)
    ensures
        ({
            let (after, step) = launch_next(w, l, led, answer);
            &&& led.pool.claimed.subset_of(after.pool.claimed)
            &&& after.pool.known == led.pool.known
            &&& step matches LaunchStepView::Over(_, LaunchOutcomeView::Opened(a))
                ==> after.pool.claimed.contains(normalized(a))
            &&& step matches LaunchStepView::Over(_, LaunchOutcomeView::Adopted(a)) ==> {
                &&& after.pool.claimed.contains(a)
                &&& !led.pool.claimed.contains(a)
                &&& !led.pool.known.contains(a)
            }
        }),
{
    law_claimed_is_never_raced(led.pool, answer.clients(), w.app_id, 0);
}

/// `layoutmsg addmaster` goes out only for a window in the promoted role, and
/// only once it has opened: it would promote whatever has the focus.
pub proof fn law_only_opened_windows_are_promoted(
    w: WindowEntryView,
    l: LaunchView,
    led: LedgerView,
    answer: Answer,
)
    ensures
        ({
            let promote = CommandView::Dispatch("layoutmsg addmaster"@);
            match launch_next(w, l, led, answer).1 {
                LaunchStepView::Going(_, turn) => !turn.commands.contains(promote),
                LaunchStepView::Over(sent, outcome) => sent.contains(promote) ==> outcome is Opened
                    && l.mode == LaunchModeView::Plain(super::launch::MasterRole::Promote),
            }
        }),
{
    reveal_strlit("layoutmsg addmaster");
    reveal_strlit("movetoworkspacesilent ");
    reveal_strlit("focuswindow address:0x");
    reveal_strlit("setfloating address:0x");
    reveal_strlit("closewindow address:0x");
    reveal_strlit("layoutmsg preselect ");
    let promote = "layoutmsg addmaster"@;
    assert forall|ws: Seq<char>, a: Seq<char>| #[trigger]
        move_args(ws, a) != promote by {
        assert(move_args(ws, a)[0] == 'm');
    }
    assert forall|a: Seq<char>| #[trigger] focus_args(a) != promote by {
        assert(focus_args(a)[0] == 'f');
    }
    assert forall|a: Seq<char>| #[trigger] float_args(a) != promote by {
        assert(float_args(a)[0] == 's');
    }
    assert forall|a: Seq<char>| #[trigger] close_args(a) != promote by {
        assert(close_args(a)[0] == 'c');
    }
    assert forall|d: PreselDir| #[trigger]
        preselect_args(d) != promote by {
        assert(preselect_args(d)[10] == 'p');
    }
}

/// Split ratios are set only through windows that this restore opened.
pub proof fn law_ratios_spare_adopted_windows(
    steps: Seq<SplitRatioStep>,
    places: PlacesView,
    k: int,
    applied: bool,
)
    requires
        0 <= k,
        steps.len() <= usize::MAX,
    ensures
        ratios_from(steps, places, k, applied) matches StepView::Going(run, turn) ==> {
            ||| turn.ask is Pause
            ||| k <= run.at < steps.len() && places.is_own(
                steps[run.at as int].focus_window_idx as int,
            )
        },
{
    lemma_next_ratio(steps, places, k);
}

pub(crate) proof fn lemma_next_ratio(steps: Seq<SplitRatioStep>, places: PlacesView, k: int)
    requires
        0 <= k,
    ensures
        next_ratio(steps, places, k) matches Some(j) ==> k <= j < steps.len() && places.is_own(
            steps[j].focus_window_idx as int,
        ),
    decreases steps.len() - k,
{
    if k < steps.len() && !places.is_own(steps[k].focus_window_idx as int) {
        lemma_next_ratio(steps, places, k + 1);
    }
}

proof fn lemma_next_pixel(candidates: Seq<PixelRatioStep>, places: PlacesView, k: int)
    requires
        0 <= k,
    ensures
        next_pixel(candidates, places, k) matches Some(j) ==> k <= j < candidates.len(),
    decreases candidates.len() - k,
{
    if k < candidates.len() {
        lemma_next_pixel(candidates, places, k + 1);
    }
}

proof fn lemma_next_size(candidates: Seq<usize>, windows: Seq<WindowEntry>, k: int)
    requires
        0 <= k,
    ensures
        next_size(candidates, windows, k) matches Some(j) ==> k <= j < candidates.len()
            && saved_size(windows, candidates[j] as int) is Some,
    decreases candidates.len() - k,
{
    if k < candidates.len() && saved_size(windows, candidates[k] as int) is None {
        lemma_next_size(candidates, windows, k + 1);
    }
}

/// No split beside an adopted window is ever nudged.
pub proof fn law_pixels_spare_adopted_windows(steps: Seq<PixelRatioStep>, places: PlacesView)
    ensures
        pixels_begin(steps, places) matches StepView::Going(run, _) ==> {
            &&& run.last.len() == run.candidates.len()
            &&& 0 <= run.at < run.candidates.len()
            &&& run.pass == 0
            &&& forall|i: int|
                0 <= i < run.candidates.len() ==> !places.is_adopted(
                    (#[trigger] run.candidates[i]).first_leaf_idx as int,
                ) && !places.is_adopted(run.candidates[i].second_leaf_idx as int)
        },
{
    let p = |s: PixelRatioStep|
        !places.is_adopted(s.first_leaf_idx as int) && !places.is_adopted(
            s.second_leaf_idx as int,
        );
    let c = pixel_candidates(steps, places);
    lemma_next_pixel(c, places, 0);
    assert forall|i: int| 0 <= i < c.len() implies !places.is_adopted(
        (#[trigger] c[i]).first_leaf_idx as int,
    ) && !places.is_adopted(c[i].second_leaf_idx as int) by {
        steps.lemma_filter_pred(p, i);
    }
}

/// Only windows that this restore opened are resized.
pub proof fn law_sizes_spare_adopted_windows(windows: Seq<WindowEntry>, places: PlacesView)
    requires
        places.addresses.len() <= usize::MAX,
    ensures
        sizes_begin(windows, places) matches StepView::Going(run, _) ==> {
            &&& run.last.len() == run.candidates.len()
            &&& 0 <= run.at < run.candidates.len()
            &&& run.pass == 0
            &&& forall|i: int|
                0 <= i < run.candidates.len() ==> places.is_own(
                    (#[trigger] run.candidates[i]) as int,
                )
        },
{
    let c = own_windows(places, places.addresses.len());
    lemma_next_size(c, windows, 0);
    lemma_own_windows(places, places.addresses.len());
}

proof fn lemma_own_windows(places: PlacesView, n: nat)
    requires
        n <= usize::MAX,
    ensures
        forall|i: int|
            0 <= i < own_windows(places, n).len() ==> places.is_own(
                (#[trigger] own_windows(places, n)[i]) as int,
            ),
    decreases n,
{
    if n > 0 {
        let rest = own_windows(places, (n - 1) as nat);
        lemma_own_windows(places, (n - 1) as nat);
        assert forall|i: int| 0 <= i < own_windows(places, n).len() implies places.is_own(
            (#[trigger] own_windows(places, n)[i]) as int,
        ) by {
            if i < rest.len() {
                assert(own_windows(places, n)[i] == rest[i]);
            }
        }
    }
}

/// Only windows that this restore opened, and that were fullscreen, are made
/// fullscreen again.
pub proof fn law_fullscreen_spares_adopted_windows(
    windows: Seq<WindowEntry>,
    places: PlacesView,
    k: int,
)
    requires
        0 <= k,
        windows.len() <= usize::MAX,
    ensures
        fullscreen_from(windows, places, k) matches StepView::Going(run, _) ==> {
            &&& k <= run.at < windows.len()
            &&& places.is_own(run.at as int)
            &&& windows[run.at as int].fullscreen
        },
    decreases windows.len() - k,
{
    if k < windows.len() {
        law_fullscreen_spares_adopted_windows(windows, places, k + 1);
    }
}

/// A size correction that is where it may be.
pub open spec fn size_run_ok(run: SizeRunView) -> bool {
    &&& run.last.len() == run.candidates.len()
    &&& 0 <= run.at < run.candidates.len()
    &&& 0 <= run.pass <= run.candidates.len() + 1
}

/// Correcting sizes ends: each answer brings it to a later pass, or to a later
/// candidate in the same pass, or from measuring a candidate to resizing it;
/// and there are at most two passes more than candidates.
pub proof fn law_size_correction_ends(
    run: SizeRunView,
    windows: Seq<WindowEntry>,
    places: PlacesView,
    answer: Answer,
)
    requires
        size_run_ok(run),
    ensures
        size_next(run, windows, places, answer) matches StepView::Going(next, _) ==> {
            &&& size_run_ok(next)
            &&& next.candidates == run.candidates
            &&& {
                ||| next.pass > run.pass
                ||| next.pass == run.pass && next.at > run.at
                ||| next.pass == run.pass && next.at == run.at && run.stage is Client
                    && next.stage is Settle
            }
        },
{
    lemma_next_size(run.candidates, windows, run.at + 1);
    lemma_next_size(run.candidates, windows, 0);
}

/// A resize goes out alone in its pass, asks for exactly the saved size of the
/// candidate, and only when the window is off by something other than at its
/// last resize: an identical request that had no effect is not repeated.
pub proof fn law_resize_asks_for_the_saved_size(
    run: SizeRunView,
    windows: Seq<WindowEntry>,
    places: PlacesView,
    answer: Answer,
)
    requires
        size_run_ok(run),
    ensures
        size_next(run, windows, places, answer) matches StepView::Going(next, turn)
            ==> turn.commands.len() > 0 ==> {
            let idx = run.candidates[run.at] as int;
            &&& saved_size(windows, idx) matches Some(saved) && turn.commands == seq![
                CommandView::Dispatch(
                    resize_args(saved.0 as int, saved.1 as int, places.address(idx)->0),
                ),
            ]
            &&& turn.ask is Pause
            &&& next.stage is Settle
            &&& next.last[run.at] is Some
            &&& next.last[run.at] != run.last[run.at]
        },
{
    lemma_next_size(run.candidates, windows, run.at + 1);
    lemma_next_size(run.candidates, windows, 0);
}

/// A split correction that is where it may be.
pub open spec fn pixel_run_ok(run: PixelRunView) -> bool {
    &&& run.last.len() == run.candidates.len()
    &&& 0 <= run.at < run.candidates.len()
    &&& 0 <= run.pass <= run.candidates.len() + 1
}

/// How far along a split correction is with its candidate.
pub open spec fn pixel_rank(stage: PixelStage) -> int {
    match stage {
        PixelStage::First => 0,
        PixelStage::Second(_) => 1,
        PixelStage::Target(_) => 2,
        PixelStage::Settle => 3,
    }
}

/// Correcting splits ends: each answer brings it to a later pass, or to a
/// later candidate in the same pass, or forward with the same candidate; and
/// there are at most two passes more than candidates.
pub proof fn law_pixel_correction_ends(run: PixelRunView, places: PlacesView, answer: Answer)
    requires
        pixel_run_ok(run),
    ensures
        pixel_next(run, places, answer) matches StepView::Going(next, _) ==> {
            &&& pixel_run_ok(next)
            &&& next.candidates == run.candidates
            &&& {
                ||| next.pass > run.pass
                ||| next.pass == run.pass && next.at > run.at
                ||| next.pass == run.pass && next.at == run.at && pixel_rank(run.stage)
                    < pixel_rank(next.stage)
            }
        },
{
    lemma_next_pixel(run.candidates, places, run.at + 1);
    lemma_next_pixel(run.candidates, places, 0);
}

/// A nudge goes out alone in its pass, and only when the split is off by
/// something other than at its last nudge.
pub proof fn law_nudges_are_not_repeated(run: PixelRunView, places: PlacesView, answer: Answer)
    requires
        pixel_run_ok(run),
    ensures
        pixel_next(run, places, answer) matches StepView::Going(next, turn)
            ==> turn.commands.len() > 0 ==> {
            &&& turn.commands.len() == 1
            &&& turn.ask is Pause
            &&& next.stage is Settle
            &&& next.last[run.at] is Some
            &&& next.last[run.at] != run.last[run.at]
        },
{
    lemma_next_pixel(run.candidates, places, run.at + 1);
    lemma_next_pixel(run.candidates, places, 0);
}

/// When a restore is done, every window of the session was either restored or
/// counted as failed, and every failure has its message.
pub proof fn law_every_window_is_accounted_for(v: RestoreView)
    requires
        v.windows.len() <= usize::MAX,
        sound(v),
        v.stage is Done,
    ensures
        v.report.restored + v.report.failed == v.windows.len(),
        v.report.errors.len() == v.report.failed,
{
    lemma_plan_in_bounds(v.plan.tasks, v.windows.len());
    assert(v.plan.tasks.take(v.begun) =~= v.plan.tasks);
}

proof fn lemma_go_on_keeps(v: RestoreView, sent: Seq<CommandView>)
    ensures
        go_on(v, sent).0.had_focus == v.had_focus,
        go_on(v, sent).0.stage is Done ==> go_on(v, sent).1.ask is Finished,
        go_on(v, sent).0.stage is Done && v.had_focus ==> go_on(v, sent).1.commands.contains(
            CommandView::Keyword("misc:focus_on_activate true"@),
        ),
        go_on(v, sent).0.stage is Done && go_on(v, sent).0.ledger.pending.len() == 0
            ==> forall|i: int|
            0 <= i < go_on(v, sent).0.ledger.active_rules.len() ==> go_on(
                v,
                sent,
            ).1.commands.contains(
                CommandView::Keyword(
                    disable_args(#[trigger] go_on(v, sent).0.ledger.active_rules[i]),
                ),
            ),
    decreases v.plan.tasks.len() - v.begun,
{
    if v.begun < 0 || v.begun >= v.plan.tasks.len() {
        let (after, turn) = finished(v, sent);
        let focus = CommandView::Keyword("misc:focus_on_activate true"@);
        let rules = v.ledger.active_rules;
        if v.had_focus {
            assert(turn.commands[sent.len() as int] == focus);
        }
        if v.ledger.pending.len() == 0 {
            let base = if v.had_focus {
                sent.push(focus)
            } else {
                sent
            };
            assert forall|i: int| 0 <= i < rules.len() implies turn.commands.contains(
                CommandView::Keyword(disable_args(#[trigger] rules[i])),
            ) by {
                assert(turn.commands[base.len() + i] == disabling(rules)[i]);
            }
        }
    } else {
        let w = RestoreView { begun: v.begun + 1, ..v };
        match begin_task(w, w.task(), sent) {
            Begun::Over(x) => {
                lemma_go_on_keeps(x, sent);
            },
            Begun::Waits(x, t) => {},
        }
    }
}

/// The turn with which a restore becomes done gives the focus option its
/// value back if the restore had changed it, and disables every rule unless
/// windows are still expected. Once it is known, the option's value is kept.
pub proof fn law_restore_cleans_up(v: RestoreView, answer: Answer)
    ensures
        !(v.stage is FocusOption) ==> restore_next(v, answer).0.had_focus == v.had_focus,
        ({
            let (after, turn) = restore_next(v, answer);
            !(v.stage is Done) && after.stage is Done ==> {
                &&& turn.ask is Finished
                &&& after.had_focus ==> turn.commands.contains(
                    CommandView::Keyword("misc:focus_on_activate true"@),
                )
                &&& after.ledger.pending.len() == 0 ==> forall|i: int|
                    0 <= i < after.ledger.active_rules.len() ==> turn.commands.contains(
                        CommandView::Keyword(
                            disable_args(#[trigger] after.ledger.active_rules[i]),
                        ),
                    )
            }
        }),
{
    assert forall|w: RestoreView, sent: Seq<CommandView>| {
        let (after, turn) = #[trigger] go_on(w, sent);
        &&& after.had_focus == w.had_focus
        &&& after.stage is Done ==> turn.ask is Finished
        &&& after.stage is Done && w.had_focus ==> turn.commands.contains(
            CommandView::Keyword("misc:focus_on_activate true"@),
        )
        &&& after.stage is Done && after.ledger.pending.len() == 0 ==> forall|i: int|
            0 <= i < after.ledger.active_rules.len() ==> turn.commands.contains(
                CommandView::Keyword(disable_args(#[trigger] after.ledger.active_rules[i])),
            )
    } by {
        lemma_go_on_keeps(w, sent);
    }
}

proof fn lemma_pending_from(v: LateView, class: Seq<char>, k: int)
    requires
        0 <= k,
    ensures
        pending_from(v.pending, class, k) matches Some(i) ==> k <= i < v.pending.len()
            && v.pending[i].app_id == class,
    decreases v.pending.len() - k,
{
    if k < v.pending.len() && v.pending[k].app_id != class {
        lemma_pending_from(v, class, k + 1);
    }
}

/// A line either changes nothing and sends nothing, or serves exactly one
/// pending window: it is expected no more, and its rule is resolved.
pub proof fn law_late_windows_are_served_once(v: LateView, line: Seq<char>)
    ensures
        ({
            let (after, sent) = late_next(v, line);
            ||| after == v && sent.len() == 0
            ||| exists|i: int|
                #![trigger v.pending[i]]
                0 <= i < v.pending.len() && after.pending == v.pending.remove(i)
                    && after.resolved_rules == v.resolved_rules.push(v.pending[i].rule_name)
        }),
{
    match crate::ipc::event_listener::event_of(crate::text::trimmed(line)) {
        crate::models::HyprEventView::OpenWindow { address, class, .. } => {
            lemma_pending_from(v, class, 0);
            match pending_from(v.pending, class, 0) {
                Some(i) => {
                    assert(v.pending[i].app_id == class);
                },
                None => {},
            }
        },
        _ => {},
    }
}

/// At the end of the watch every rule is disabled, whether its window
/// appeared or not.
pub proof fn law_watch_leaves_no_rule_enabled(v: LateView, rule: Seq<char>)
    requires
        v.all_rules.contains(rule) || v.resolved_rules.contains(rule),
    ensures
        late_ending(v).contains(CommandView::Keyword(disable_args(rule))),
{
    let first = disabling(v.resolved_rules);
    let rest = disabling(unresolved(v));
    if v.resolved_rules.contains(rule) {
        let i = choose|i: int| 0 <= i < v.resolved_rules.len() && v.resolved_rules[i] == rule;
        assert(late_ending(v)[i] == first[i]);
    } else {
        let p = |r: Seq<char>| !v.resolved_rules.contains(r);
        let i = choose|i: int| 0 <= i < v.all_rules.len() && v.all_rules[i] == rule;
        v.all_rules.lemma_filter_contains(p, i);
        let j = choose|j: int| 0 <= j < unresolved(v).len() && unresolved(v)[j] == rule;
        assert(late_ending(v)[first.len() + j] == rest[j]);
    }
}

/// However a window comes to be open, it is sent to the workspace that it was
/// saved on.
pub proof fn law_window_goes_to_its_workspace(
    w: WindowEntryView,
    l: LaunchView,
    led: LedgerView,
    answer: Answer,
)
    ensures
        launch_next(w, l, led, answer).1 matches LaunchStepView::Over(sent, outcome) ==> match outcome {
            LaunchOutcomeView::Adopted(a) => sent.contains(
                CommandView::Dispatch(move_args(w.workspace, a)),
            ),
            LaunchOutcomeView::Opened(a) => sent.contains(
                CommandView::Dispatch(move_args(w.workspace, a)),
            ),
            _ => true,
        },
{
    match launch_next(w, l, led, answer).1 {
        LaunchStepView::Over(sent, outcome) => match outcome {
            LaunchOutcomeView::Adopted(a) => {
                let moved = CommandView::Dispatch(move_args(w.workspace, a));
                let k: int = if l.stage is Probe {
                    0
                } else {
                    1
                };
                assert(sent[k] == moved);
            },
            LaunchOutcomeView::Opened(a) => {
                let moved = CommandView::Dispatch(move_args(w.workspace, a));
                let k: int = if l.stage is Opening || answer.window() is Some {
                    1
                } else {
                    0
                };
                assert(sent[k] == moved);
            },
            _ => {},
        },
        _ => {},
    }
}

/// A second window supersedes the first as the app's window, and the first is
/// closed; without a second, the first is the app's window.
pub proof fn law_splash_is_superseded(
    w: WindowEntryView,
    l: LaunchView,
    led: LedgerView,
    first: Seq<char>,
    answer: Answer,
)
    requires
        l.stage == LaunchStageView::Splash(first),
    ensures
        match (answer.window(), launch_next(w, l, led, answer).1) {
            (Some(main), LaunchStepView::Over(sent, outcome)) => outcome
                == LaunchOutcomeView::Opened(main) && sent[0] == CommandView::Dispatch(
                close_args(first),
            ),
            (None, LaunchStepView::Over(_, outcome)) => outcome == LaunchOutcomeView::Opened(first),
            _ => false,
        },
{
}

/// The direction is preselected against the focused anchor immediately before
/// the window settles, with nothing in between that could clear it.
pub proof fn law_preselect_comes_just_before_settling(
    address: Seq<char>,
    workspace: Seq<char>,
    anchor: Seq<char>,
    dir: PreselDir,
)
    ensures
        ({
            let sent = placing(address, workspace, Some((anchor, dir)));
            let n = sent.len() as int;
            &&& sent[n - 3] == CommandView::Dispatch(focus_args(anchor))
            &&& sent[n - 2] == CommandView::Dispatch(preselect_args(dir))
            &&& sent[n - 1] == CommandView::Dispatch(float_args(address))
        }),
{
}

/// Every request that binds a workspace is for the saved home of a window, on
/// a monitor that is connected.
pub proof fn law_bindings_are_to_connected_monitors(
    windows: Seq<WindowEntry>,
    available: Seq<Seq<char>>,
    i: int,
)
    requires
        0 <= i < binding(windows, available).len(),
    ensures
        exists|k: int|
            0 <= k < windows.len() && (home_of(#[trigger] windows[k]) matches Some((ws, monitor))
                && available.contains(monitor) && binding(windows, available)[i]
                == CommandView::Dispatch(bind_args(ws, monitor))),
    decreases windows.len(),
{
    let head = windows.drop_last();
    let rest = binding(head, available);
    if i < rest.len() {
        law_bindings_are_to_connected_monitors(head, available, i);
        let k = choose|k: int|
            0 <= k < head.len() && (home_of(#[trigger] head[k]) matches Some((ws, monitor))
                && available.contains(monitor) && rest[i] == CommandView::Dispatch(
                bind_args(ws, monitor),
            ));
        assert(windows[k] == head[k]);
    } else {
        assert(home_of(windows[windows.len() - 1]) is Some);
    }
}

/// Every workspace with a saved home on a connected monitor is bound to it.
pub proof fn law_homes_are_bound(
    windows: Seq<WindowEntry>,
    available: Seq<Seq<char>>,
    k: int,
)
    requires
        0 <= k < windows.len(),
        home_of(windows[k]) matches Some((_, monitor)) && available.contains(monitor),
    ensures
        binding(windows, available).contains(
            CommandView::Dispatch(
                bind_args((home_of(windows[k])->0).0, (home_of(windows[k])->0).1),
            ),
        ),
    decreases windows.len(), k,
{
    let (ws, monitor) = home_of(windows[k])->0;
    let c = CommandView::Dispatch(bind_args(ws, monitor));
    let head = windows.drop_last();
    let all = binding(windows, available);
    let rest = binding(head, available);
    if k < windows.len() - 1 {
        assert(head[k] == windows[k]);
        law_homes_are_bound(head, available, k);
        let j = choose|j: int| 0 <= j < rest.len() && rest[j] == c;
        assert(all[j] == c);
    } else if binds(windows, available, k) {
        assert(all[rest.len() as int] == c);
    } else {
        let j = choose|j: int| 0 <= j < k && home_of(#[trigger] windows[j]) == home_of(windows[k]);
        law_homes_are_bound(windows, available, j);
    }
}

} // verus!
