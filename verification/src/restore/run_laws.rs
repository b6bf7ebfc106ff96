//! What a restore does for each window of a session, whatever it is answered.
use super::command::CommandView;
use super::launch::{
    launch_next, LaunchModeView, LaunchOutcomeView, LaunchStepView, LaunchView,
};
use super::laws::window_of;
use super::plans::{dwindle_plan, master_plan, simple_plan, TaskView};
use super::pool::{best_match, is_best_match, law_match_is_taken, stands_for, take, PoolView};
use super::progress::lemma_plan_stays;
use super::request_laws::{
    geometry_of, geometry_requests, law_shaping_restores_the_geometry,
};
use super::run::{
    begin_task, current, go_on, in_bounds, restore_next, Begun,
    RestoreStageView, RestoreView,
};
use super::turn::{Answer, AskView, TurnView};
use crate::layout::dwindle::PreselDir;
use crate::layout::master::MasterOrientation;
use crate::models::WindowEntryView;
use crate::state::normalized;
use vstd::prelude::*;

verus! {

/// No live window of the same app on the same workspace is left to take over.
pub open spec fn none_is_live(pool: PoolView, e: WindowEntryView) -> bool {
    forall|i: int|
        0 <= i < pool.windows.len() ==> !((#[trigger] pool.windows[i]).app_id == e.app_id
            && pool.windows[i].workspace == e.workspace)
}

proof fn lemma_nothing_to_take(pool: PoolView, e: WindowEntryView)
    requires
        none_is_live(pool, e),
    ensures
        take(pool, e) == (pool, None::<crate::models::TrackedWindowView>),
{
    if exists|i: int| is_best_match(pool.windows, e, i) {
        let i = choose|i: int| is_best_match(pool.windows, e, i);
        assert(stands_for(pool.windows[i], e));
    }
}

/// A window that is to be launched into its slot opens beside the window that its
/// step names, at the address where that one is open, and on the side that its
/// step names.
pub proof fn law_window_opens_beside_its_anchor(
    v: RestoreView,
    idx: usize,
    focus: usize,
    dir: PreselDir,
    first: bool,
    sent: Seq<CommandView>,
    address: Seq<char>,
)
    requires
        none_is_live(v.ledger.pool, v.windows[idx as int]@),
        focus < v.places.addresses.len(),
        v.places.addresses[focus as int] == Some(address),
    ensures
        begin_task(
            v,
            TaskView::Bsp { idx, focus_idx: Some(focus), preselect: Some(dir), first },
            sent,
        ) matches Begun::Waits(x, t) && opens_in(x, LaunchModeView::Bsp(Some((address, dir)))) && t
            == (TurnView { commands: sent, ask: AskView::Clients }) && x.places == v.places,
{
    lemma_nothing_to_take(v.ledger.pool, v.windows[idx as int]@);
}

/// A window whose step names no window, or one that is not open, opens without
/// an anchor; if it is the first of its workspace, the workspace is entered
/// before.
pub proof fn law_window_opens_without_an_anchor(
    v: RestoreView,
    idx: usize,
    focus_idx: Option<usize>,
    preselect: Option<PreselDir>,
    first: bool,
    sent: Seq<CommandView>,
)
    requires
        none_is_live(v.ledger.pool, v.windows[idx as int]@),
        focus_idx is None || preselect is None || focus_idx->0 >= v.places.addresses.len()
            || v.places.addresses[focus_idx->0 as int] is None,
    ensures
        begin_task(v, TaskView::Bsp { idx, focus_idx, preselect, first }, sent) matches Begun::Waits(
            x,
            t,
        ) && x.places == v.places && if first {
            x.stage is EnterBsp && t == (TurnView {
                commands: sent,
                ask: AskView::Send(
                    CommandView::Dispatch("workspace "@ + v.windows[idx as int].workspace@),
                ),
            })
        } else {
            opens_in(x, LaunchModeView::Bsp(None)) && t == (TurnView {
                commands: sent,
                ask: AskView::Clients,
            })
        },
{
    lemma_nothing_to_take(v.ledger.pool, v.windows[idx as int]@);
}

/// The restore waits for a launch in this mode, at its first question.
pub open spec fn opens_in(v: RestoreView, mode: LaunchModeView) -> bool {
    v.stage matches RestoreStageView::Launching(l) && l.mode == mode && l.stage is Probe
}

/// A window that is restored on its own is launched in the role of its task.
pub proof fn law_window_is_launched_in_its_role(
    v: RestoreView,
    idx: usize,
    role: super::launch::MasterRole,
    sent: Seq<CommandView>,
)
    requires
        none_is_live(v.ledger.pool, v.windows[idx as int]@),
    ensures
        begin_task(v, TaskView::Window { idx, role }, sent) matches Begun::Waits(x, t) && opens_in(
            x,
            LaunchModeView::Plain(role),
        ) && t == (TurnView { commands: sent, ask: AskView::Clients }),
{
    lemma_nothing_to_take(v.ledger.pool, v.windows[idx as int]@);
}

/// A live window of the same app on the same workspace is taken over without a
/// request: it counts as restored, and a tiled one is remembered as adopted, at
/// its address.
pub proof fn law_live_window_is_taken_over(
    v: RestoreView,
    task: TaskView,
    sent: Seq<CommandView>,
    i: int,
)
    requires
        window_of(task) is Some,
        window_of(task)->0 < v.places.addresses.len(),
        v.places.adopted.len() == v.places.addresses.len(),
        0 <= i < v.ledger.pool.windows.len(),
        v.ledger.pool.windows[i].app_id == v.windows[window_of(task)->0 as int]@.app_id,
        v.ledger.pool.windows[i].workspace == v.windows[window_of(task)->0 as int]@.workspace,
    ensures
        ({
            let idx = window_of(task)->0;
            let e = v.windows[idx as int]@;
            begin_task(v, task, sent) matches Begun::Over(x) && x.report.restored
                == v.report.restored + 1 && x.report.failed == v.report.failed && x.report.errors
                == v.report.errors && exists|k: int| #[trigger]
                is_nearest(v.ledger.pool, e, k) && x.ledger.pool.windows
                    == v.ledger.pool.windows.remove(k) && x.ledger.pool.claimed.contains(
                    normalized(v.ledger.pool.windows[k].address),
                ) && (task is Bsp ==> x.places.adopted[idx as int] && x.places.addresses[idx as int]
                    == Some(normalized(v.ledger.pool.windows[k].address)))
        }),
{
    let e = v.windows[window_of(task)->0 as int]@;
    law_match_is_taken(v.ledger.pool, e, i);
    let k = best_match(v.ledger.pool.windows, e)->0;
    assert(is_best_match(v.ledger.pool.windows, e, k));
    law_nearest_window_is_taken(v.ledger.pool, e);
    assert(is_nearest(v.ledger.pool, e, k));
}

/// Live window `k` is of the entry's app, on its workspace, and of all such
/// windows none is nearer to the saved position, and none before it as near.
pub open spec fn is_nearest(pool: PoolView, e: WindowEntryView, k: int) -> bool {
    let d = |i: int|
        match e.position {
            Some((x, y)) => {
                let (a, b) = pool.windows[i].position;
                (a - x) * (a - x) + (b - y) * (b - y)
            },
            None => 0int,
        };
    &&& 0 <= k < pool.windows.len()
    &&& pool.windows[k].app_id == e.app_id
    &&& pool.windows[k].workspace == e.workspace
    &&& forall|j: int|
        0 <= j < pool.windows.len() && (#[trigger] pool.windows[j]).app_id == e.app_id
            && pool.windows[j].workspace == e.workspace ==> d(k) <= d(j) && (j < k ==> d(k) < d(j))
}

/// The live window that an entry takes over is the nearest one, by the distance
/// between the live and the saved position.
pub proof fn law_nearest_window_is_taken(pool: PoolView, e: WindowEntryView)
    ensures
        match best_match(pool.windows, e) {
            Some(k) => is_nearest(pool, e, k) && take(pool, e).1 == Some(pool.windows[k])
                && take(pool, e).0.windows == pool.windows.remove(k),
            None => none_is_live(pool, e),
        },
{
    match best_match(pool.windows, e) {
        Some(k) => {
            assert(is_best_match(pool.windows, e, k));
            assert forall|j: int|
                0 <= j < pool.windows.len() && (#[trigger] pool.windows[j]).app_id == e.app_id
                    && pool.windows[j].workspace == e.workspace implies stands_for(
                pool.windows[j],
                e,
            ) by {}
        },
        None => {
            assert forall|i: int| 0 <= i < pool.windows.len() implies !((
            #[trigger] pool.windows[i]).app_id == e.app_id && pool.windows[i].workspace
                == e.workspace) by {
                if pool.windows[i].app_id == e.app_id && pool.windows[i].workspace
                    == e.workspace {
                    law_match_is_taken(pool, e, i);
                }
            }
        },
    }
}

/// Entering a workspace with a master area: the master factor goes out, as a
/// share that is the far side's on the right and at the bottom, and then the
/// switch to the workspace.
pub proof fn law_master_area_is_set_up(
    v: RestoreView,
    workspace: Seq<char>,
    orientation: MasterOrientation,
    mfact: crate::layout::Ratio,
    sent: Seq<CommandView>,
)
    ensures
        begin_task(v, TaskView::EnterMaster { workspace, orientation, mfact }, sent) matches Begun::Waits(
            x,
            t,
        ) && x.stage == RestoreStageView::EnterMaster(orientation) && t == (TurnView {
            commands: sent.push(
                CommandView::MasterFactor {
                    share: mfact,
                    far: orientation is Right || orientation is Bottom,
                },
            ),
            ask: AskView::Send(CommandView::Dispatch("workspace "@ + workspace)),
        }),
{
}

/// What is sent goes out before anything that is done next, and in its order.
pub open spec fn begins_with(sent: Seq<CommandView>, head: Seq<CommandView>) -> bool {
    sent.len() >= head.len() && sent.take(head.len() as int) == head
}

/// Going on changes no window's place but those of the windows that it takes up.
proof fn lemma_go_on_keeps_places(v: RestoreView, sent: Seq<CommandView>, idx: int)
    requires
        0 <= v.begun,
        0 <= idx < v.places.addresses.len(),
        v.places.adopted.len() == v.places.addresses.len(),
        in_bounds(v.plan.tasks, v.places.addresses.len()),
        forall|k: int|
            v.begun <= k < v.plan.tasks.len() ==> (window_of(#[trigger] v.plan.tasks[k]) matches Some(
                other,
            ) ==> other != idx),
    ensures
        go_on(v, sent).0.places.addresses[idx] == v.places.addresses[idx],
        go_on(v, sent).0.places.adopted[idx] == v.places.adopted[idx],
    decreases v.plan.tasks.len() - v.begun,
{
    if v.begun < v.plan.tasks.len() {
        let w = RestoreView { begun: v.begun + 1, ..v };
        assert(window_of(v.plan.tasks[v.begun]) matches Some(other) ==> other != idx && other
            < v.places.addresses.len());
        match begin_task(w, w.task(), sent) {
            Begun::Over(x) => {
                lemma_go_on_keeps_places(x, sent, idx);
            },
            Begun::Waits(x, t) => {},
        }
    }
}

/// No task that is still to come is about the window of the current one.
pub open spec fn is_last_task_of(v: RestoreView, idx: usize) -> bool {
    forall|k: int|
        v.begun <= k < v.plan.tasks.len() ==> window_of(#[trigger] v.plan.tasks[k]) != Some(idx)
}

/// A tiled window that opened, or was adopted, is remembered at its address; the
/// launch's requests go out first.
pub proof fn law_places_are_remembered(v: RestoreView, l: LaunchView, answer: Answer, idx: usize)
    requires
        v.stage == RestoreStageView::Launching(l),
        v.begun >= 1,
        v.task() matches TaskView::Bsp { idx: own, .. } && own == idx,
        is_last_task_of(v, idx),
        idx < v.places.addresses.len(),
        v.places.adopted.len() == v.places.addresses.len(),
        in_bounds(v.plan.tasks, v.places.addresses.len()),
    ensures
        ({
            let (after, t) = restore_next(v, answer);
            launch_next(v.windows[idx as int]@, l, v.ledger, answer).1 matches LaunchStepView::Over(
                sent,
                outcome,
            ) ==> {
                &&& begins_with(t.commands, sent)
                &&& match outcome {
                    LaunchOutcomeView::Opened(a) => after.places.addresses[idx as int] == Some(a)
                        && after.places.adopted[idx as int] == v.places.adopted[idx as int]
                        && after.report.restored > v.report.restored && after.report.errors
                        == v.report.errors,
                    LaunchOutcomeView::Adopted(a) => after.places.addresses[idx as int] == Some(a)
                        && after.places.adopted[idx as int] && after.report.restored
                        > v.report.restored && after.report.errors == v.report.errors,
                    LaunchOutcomeView::Deferred => after.places.addresses[idx as int]
                        == v.places.addresses[idx as int] && after.report.restored
                        > v.report.restored && after.report.errors == v.report.errors,
                    LaunchOutcomeView::Failed(message) => after.places.addresses[idx as int]
                        == v.places.addresses[idx as int] && after.report.failed
                        == v.report.failed + 1 && after.report.errors == v.report.errors.push(
                        (v.windows[idx as int].app_id@, message),
                    ),
                }
            }
        }),
{
    let w0 = v.at(RestoreStageView::Done);
    let (ledger, step) = launch_next(v.windows[idx as int]@, l, v.ledger, answer);
    let w = RestoreView { ledger, ..w0 };
    assert(current(w0) == idx);
    if let LaunchStepView::Over(sent, outcome) = step {
        match outcome {
            LaunchOutcomeView::Opened(a) => {
                lemma_begins(w.opened(idx, a).success(), sent);
                lemma_go_on_keeps_places(w.opened(idx, a).success(), sent, idx as int);
            },
            LaunchOutcomeView::Adopted(a) => {
                lemma_begins(w.adopted(idx, a).success(), sent);
                lemma_go_on_keeps_places(w.adopted(idx, a).success(), sent, idx as int);
            },
            LaunchOutcomeView::Deferred => {
                lemma_begins(w.success(), sent);
                lemma_go_on_keeps_places(w.success(), sent, idx as int);
            },
            LaunchOutcomeView::Failed(message) => {
                lemma_begins(w.failure(idx, message), sent);
                lemma_go_on_keeps_places(w.failure(idx, message), sent, idx as int);
            },
        }
    }
}

/// Once a window that is restored on its own has opened, and geometry is
/// restored, it gets the position and the size that were saved of it: it is
/// floated, resized and then moved, and made fullscreen last; a tiled one is only
/// made fullscreen. Where there is nothing to send it counts as restored, and
/// where the launch failed, it counts as failed with the message.
pub proof fn law_opened_window_gets_its_geometry(
    v: RestoreView,
    l: LaunchView,
    answer: Answer,
    idx: usize,
)
    requires
        v.stage == RestoreStageView::Launching(l),
        v.begun >= 1,
        v.task() matches TaskView::Window { idx: own, .. } && own == idx,
    ensures
        ({
            let (after, t) = restore_next(v, answer);
            let e = v.windows[idx as int];
            launch_next(e@, l, v.ledger, answer).1 matches LaunchStepView::Over(sent, outcome) ==> {
                match outcome {
                    LaunchOutcomeView::Opened(a) => {
                        let shape = geometry_requests(
                            if e.floating {
                                geometry_of(e.position, e.size)
                            } else {
                                None
                            },
                            e.fullscreen,
                            a,
                        );
                        if v.engine.restore_geometry && shape.len() > 0 {
                            &&& after.stage == RestoreStageView::Shaping(shape, 0)
                            &&& t == (TurnView { commands: sent, ask: AskView::Send(shape[0]) })
                            &&& after.report == v.report
                        } else {
                            &&& begins_with(t.commands, sent)
                            &&& after.report.restored > v.report.restored
                            &&& after.report.errors == v.report.errors
                        }
                    },
                    LaunchOutcomeView::Failed(message) => {
                        &&& after.report.failed == v.report.failed + 1
                        &&& after.report.errors == v.report.errors.push((e.app_id@, message))
                    },
                    _ => {
                        &&& begins_with(t.commands, sent)
                        &&& after.report.restored > v.report.restored
                        &&& after.report.errors == v.report.errors
                    },
                }
            }
        }),
{
    let w0 = v.at(RestoreStageView::Done);
    let e = v.windows[idx as int];
    let (ledger, step) = launch_next(e@, l, v.ledger, answer);
    let w = RestoreView { ledger, ..w0 };
    assert(current(w0) == idx);
    if let LaunchStepView::Over(sent, outcome) = step {
        lemma_begins(w.success(), sent);
        match outcome {
            LaunchOutcomeView::Opened(a) => {
                law_shaping_restores_the_geometry(e.floating, e.fullscreen, e.position, e.size, a);
            },
            LaunchOutcomeView::Failed(message) => {
                lemma_begins(w.failure(idx, message), sent);
            },
            _ => {},
        }
    }
}

/// Geometry requests go out one after the other, each once the one before it has
/// gone through. After the last the window counts as restored; one that is
/// refused makes it count as failed, with the message.
pub proof fn law_geometry_goes_out_in_order(
    v: RestoreView,
    shape: Seq<CommandView>,
    at: int,
    answer: Answer,
    idx: usize,
)
    requires
        v.stage == RestoreStageView::Shaping(shape, at),
        0 <= at < shape.len(),
        v.begun >= 1,
        window_of(v.task()) == Some(idx),
    ensures
        ({
            let (after, t) = restore_next(v, answer);
            match answer {
                Answer::Failed(message) => {
                    &&& after.report.failed == v.report.failed + 1
                    &&& after.report.errors == v.report.errors.push(
                        (v.windows[idx as int].app_id@, message@),
                    )
                },
                _ => if at + 1 < shape.len() {
                    &&& after.stage == RestoreStageView::Shaping(shape, at + 1)
                    &&& t == (TurnView { commands: seq![], ask: AskView::Send(shape[at + 1]) })
                    &&& after.report == v.report
                } else {
                    &&& after.report.restored > v.report.restored
                    &&& after.report.errors == v.report.errors
                    &&& after.report.failed == v.report.failed
                },
            }
        }),
{
    let w = v.at(RestoreStageView::Done);
    assert(current(w) == idx);
    lemma_begins(w.success(), seq![]);
    if let Answer::Failed(message) = answer {
        lemma_begins(w.failure(idx, message@), seq![]);
    }
}

/// The focus option is switched off for the restore if it is set, or may be;
/// then the layout is asked for, or the windows are restored one by one.
pub proof fn law_focus_option_is_switched_off(v: RestoreView, answer: Answer)
    requires
        v.stage is FocusOption,
        v.begun == 0,
    ensures
        ({
            let (after, t) = restore_next(v, answer);
            let off = CommandView::Keyword("misc:focus_on_activate false"@);
            &&& after.had_focus == !(answer == Answer::Flag(false))
            &&& after.had_focus ==> t.commands.len() > 0 && t.commands[0] == off
            &&& v.engine.restore_layout ==> after.stage is Layout && t.ask is Layout
                && t.commands.len() == (if after.had_focus {
                1nat
            } else {
                0nat
            })
            &&& !v.engine.restore_layout ==> after.plan == simple_plan(v.windows)
        }),
{
    let w = v.at(RestoreStageView::Done);
    let had_focus = match answer {
        Answer::Flag(flag) => flag,
        _ => true,
    };
    let off = CommandView::Keyword("misc:focus_on_activate false"@);
    let sent = if had_focus {
        seq![off]
    } else {
        seq![]
    };
    if !v.engine.restore_layout {
        let x = RestoreView { plan: simple_plan(v.windows), had_focus, ..w };
        lemma_plan_stays(x, sent);
        lemma_begins(x, sent);
        if had_focus {
            let t = go_on(x, sent).1;
            assert(t.commands.take(1)[0] == t.commands[0]);
        }
    }
}

/// Going on sends first what was to be sent, and reports no failure.
proof fn lemma_begins(v: RestoreView, sent: Seq<CommandView>)
    requires
        0 <= v.begun,
    ensures
        ({
            let (after, t) = go_on(v, sent);
            &&& begins_with(t.commands, sent)
            &&& after.report.failed == v.report.failed
            &&& after.report.errors == v.report.errors
            &&& after.report.restored >= v.report.restored
            &&& after.had_focus == v.had_focus
        }),
    decreases v.plan.tasks.len() - v.begun,
{
    if v.begun >= v.plan.tasks.len() {
        let t = go_on(v, sent).1;
        assert(t.commands.take(sent.len() as int) =~= sent);
    } else {
        let w = RestoreView { begun: v.begun + 1, ..v };
        match begin_task(w, w.task(), sent) {
            Begun::Over(x) => {
                lemma_begins(x, sent);
            },
            Begun::Waits(x, t) => {
                assert(t.commands.take(sent.len() as int) =~= sent);
            },
        }
    }
}

/// The active layout decides how the windows are restored: into their tree under
/// dwindle, into master and stack under master, and one by one under any other
/// or if it could not be found out.
pub proof fn law_layout_decides_the_plan(v: RestoreView, answer: Answer)
    requires
        v.stage is Layout,
    ensures
        restore_next(v, answer).0.plan == match answer {
            Answer::Text(name) => if name@ == "dwindle"@ {
                dwindle_plan(v.windows)
            } else if name@ == "master"@ {
                master_plan(v.windows)
            } else {
                simple_plan(v.windows)
            },
            _ => simple_plan(v.windows),
        },
{
    let w = v.at(RestoreStageView::Done);
    assert forall|x: RestoreView, sent: Seq<CommandView>|
        (#[trigger] go_on(x, sent)).0.plan == x.plan by {
        lemma_plan_stays(x, sent);
    }
}

/// Once the workspace is entered, the side of its master area is set; a workspace
/// that cannot be entered ends the restore, with the message.
pub proof fn law_master_side_is_set(
    v: RestoreView,
    orientation: MasterOrientation,
    answer: Answer,
)
    requires
        v.stage == RestoreStageView::EnterMaster(orientation),
        v.begun >= 0,
    ensures
        ({
            let (after, t) = restore_next(v, answer);
            match answer {
                Answer::Failed(message) => after.stage is Aborted && t == (TurnView {
                    commands: seq![],
                    ask: AskView::Aborted(message@),
                }),
                _ => t.commands.len() > 0 && t.commands[0] == CommandView::Dispatch(
                    "layoutmsg orientation"@ + match orientation {
                        MasterOrientation::Left => "left"@,
                        MasterOrientation::Right => "right"@,
                        MasterOrientation::Top => "top"@,
                        MasterOrientation::Bottom => "bottom"@,
                    },
                ),
            }
        }),
{
    let w = v.at(RestoreStageView::Done);
    let sent = seq![CommandView::Dispatch("layoutmsg orientation"@ + orientation.name())];
    lemma_begins(w, sent);
    let t = go_on(w, sent).1;
    assert(t.commands.take(1)[0] == t.commands[0]);
}

/// Once the workspace of a tree is entered, its first window is launched there.
pub proof fn law_first_window_follows_the_switch(v: RestoreView, answer: Answer)
    requires
        v.stage is EnterBsp,
    ensures
        ({
            let (after, t) = restore_next(v, answer);
            match answer {
                Answer::Failed(message) => after.stage is Aborted && t == (TurnView {
                    commands: seq![],
                    ask: AskView::Aborted(message@),
                }),
                _ => opens_in(after, LaunchModeView::Bsp(None)) && t == (TurnView {
                    commands: seq![],
                    ask: AskView::Clients,
                }),
            }
        }),
{
}

} // verus!
