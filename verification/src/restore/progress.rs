//! Every restore comes to an end, whatever the compositor answers.
use super::command::CommandView;
use super::converge::{is_ok, ratios_from, RatioStage, SizeStage, StepView};
use super::launch::{launch_next, LaunchOutcomeView, LaunchStepView, LaunchView};
use super::laws::{law_plans_restore_every_window_once, window_of};
use super::machine_laws::{
    launch_rank, law_fullscreen_spares_adopted_windows, law_launch_ends,
    law_pixel_correction_ends, law_pixels_spare_adopted_windows, law_size_correction_ends,
    law_sizes_spare_adopted_windows, lemma_next_ratio, pixel_rank, pixel_run_ok, size_run_ok,
};
use super::plans::{dwindle_plan, master_plan, simple_plan, RestorePlanView, TaskView};
use super::run::{
    begin_task, current, fresh, go_on, in_bounds, in_flight, lemma_plan_in_bounds, restore_next,
    Begun, RestoreEngine, RestoreStageView, RestoreView,
};
use super::turn::Answer;
use crate::models::{TrackedWindowView, WindowEntry};
use vstd::prelude::*;

verus! {

/// How many questions stand between the restore and its tasks, or its end.
pub open spec fn phases_left(v: RestoreView) -> int {
    match v.stage {
        RestoreStageView::Monitors => 4,
        RestoreStageView::FocusOption => 3,
        RestoreStageView::Layout => 2,
        RestoreStageView::Done | RestoreStageView::Aborted => 0,
        _ => 1,
    }
}

/// How many tasks are not begun yet.
pub open spec fn tasks_left(v: RestoreView) -> int {
    v.plan.tasks.len() - v.begun
}

/// What is left to do for the task under way, the more important part first.
pub open spec fn work_left(v: RestoreView) -> (int, int, int) {
    match v.stage {
        RestoreStageView::EnterBsp => (2, 0, 0),
        RestoreStageView::Launching(launch) => (1, 6 - launch_rank(launch.stage), 0),
        RestoreStageView::Shaping(shape, at) => (0, shape.len() - at, 0),
        RestoreStageView::Ratios(run) => (
            0,
            v.plan.ratio_steps.len() - run.at,
            match run.stage {
                RatioStage::Focus => 1,
                _ => 0,
            },
        ),
        RestoreStageView::Pixels(run) => (
            run.candidates.len() + 1 - run.pass,
            run.candidates.len() - run.at,
            3 - pixel_rank(run.stage),
        ),
        RestoreStageView::Sizes(run) => (
            run.candidates.len() + 1 - run.pass,
            run.candidates.len() - run.at,
            match run.stage {
                SizeStage::Client => 1,
                SizeStage::Settle => 0,
            },
        ),
        RestoreStageView::Fullscreen(run) => (0, v.windows.len() - run.at, 0),
        _ => (0, 0, 0),
    }
}

/// The restore is somewhere it can get to, and its lists can be indexed on this
/// machine.
pub open spec fn is_on_course(v: RestoreView) -> bool {
    &&& can_go_on(v)
    &&& phases_left(v) > 1 ==> v.begun == 0
    &&& in_flight(v) ==> v.begun >= 1 && window_of(v.task()) is Some
    &&& match v.stage {
        RestoreStageView::Shaping(shape, at) => 0 <= at < shape.len(),
        RestoreStageView::Ratios(run) => run.at <= v.plan.ratio_steps.len(),
        RestoreStageView::Pixels(run) => pixel_run_ok(run),
        RestoreStageView::Sizes(run) => size_run_ok(run),
        RestoreStageView::Fullscreen(run) => run.at < v.windows.len(),
        _ => true,
    }
}

/// Tasks may be begun.
pub open spec fn can_go_on(v: RestoreView) -> bool {
    &&& v.windows.len() <= usize::MAX
    &&& v.places.addresses.len() == v.windows.len()
    &&& v.plan.ratio_steps.len() <= usize::MAX
    &&& in_bounds(v.plan.tasks, v.windows.len())
    &&& 0 <= v.begun <= v.plan.tasks.len()
}

proof fn lemma_ratios_from(v: RestoreView, k: int, applied: bool)
    requires
        can_go_on(v),
        0 <= k,
    ensures
        ratios_from(v.plan.ratio_steps, v.places, k, applied) matches StepView::Going(run, _) ==> {
            &&& k <= run.at <= v.plan.ratio_steps.len() || k > v.plan.ratio_steps.len()
            &&& run.at <= v.plan.ratio_steps.len()
            &&& run.at < v.plan.ratio_steps.len() ==> run.stage is Focus
        },
{
    lemma_next_ratio(v.plan.ratio_steps, v.places, k);
}

proof fn lemma_begin_task(v: RestoreView, sent: Seq<CommandView>)
    requires
        can_go_on(v),
        v.begun >= 1,
    ensures
        match begin_task(v, v.task(), sent) {
            Begun::Over(x) => {
                &&& x.begun == v.begun
                &&& x.plan == v.plan
                &&& can_go_on(x)
            },
            Begun::Waits(x, _) => {
                &&& x.begun == v.begun
                &&& x.plan == v.plan
                &&& phases_left(x) == 1
                &&& is_on_course(x)
            },
        },
{
    assert(window_of(v.plan.tasks[v.begun - 1]) matches Some(idx) ==> idx < v.windows.len());
    match v.task() {
        TaskView::Ratios => {
            lemma_ratios_from(v, 0, false);
        },
        TaskView::Pixels => {
            law_pixels_spare_adopted_windows(v.plan.pixel_steps, v.places);
        },
        TaskView::Sizes => {
            law_sizes_spare_adopted_windows(v.windows, v.places);
        },
        TaskView::Fullscreen => {
            law_fullscreen_spares_adopted_windows(v.windows, v.places, 0);
        },
        _ => {},
    }
}

pub(crate) proof fn lemma_plan_stays(v: RestoreView, sent: Seq<CommandView>)
    ensures
        go_on(v, sent).0.plan == v.plan,
    decreases v.plan.tasks.len() - v.begun,
{
    if 0 <= v.begun < v.plan.tasks.len() {
        let w = RestoreView { begun: v.begun + 1, ..v };
        match begin_task(w, w.task(), sent) {
            Begun::Over(x) => {
                lemma_plan_stays(x, sent);
            },
            Begun::Waits(x, t) => {},
        }
    }
}

/// The restore `after` has done more than one that has begun `begun` tasks of
/// the plan.
spec fn has_gone_on(after: RestoreView, plan: RestorePlanView, begun: int) -> bool {
    &&& is_on_course(after)
    &&& after.plan == plan
    &&& after.stage is Done || (phases_left(after) == 1 && after.begun > begun)
}

proof fn lemma_go_on(v: RestoreView, sent: Seq<CommandView>)
    requires
        can_go_on(v),
    ensures
        has_gone_on(go_on(v, sent).0, v.plan, v.begun),
    decreases v.plan.tasks.len() - v.begun,
{
    if v.begun < v.plan.tasks.len() {
        let w = RestoreView { begun: v.begun + 1, ..v };
        lemma_begin_task(w, sent);
        match begin_task(w, w.task(), sent) {
            Begun::Over(x) => {
                lemma_go_on(x, sent);
            },
            Begun::Waits(x, t) => {},
        }
    }
}

/// Less is left to do in `after` than in `v`.
pub open spec fn is_closer(v: RestoreView, after: RestoreView) -> bool {
    decreases_to!(
        phases_left(v), tasks_left(v), work_left(v).0, work_left(v).1, work_left(v).2
        => phases_left(after), tasks_left(after), work_left(after).0, work_left(after).1,
        work_left(after).2
    )
}

/// The restore is over, or less is left to do.
pub open spec fn has_advanced(v: RestoreView, after: RestoreView) -> bool {
    &&& is_on_course(after)
    &&& after.stage is Done || after.stage is Aborted || is_closer(v, after)
}

proof fn lemma_launch_advances(v: RestoreView, launch: LaunchView, answer: Answer)
    requires
        is_on_course(v),
        v.stage == RestoreStageView::Launching(launch),
    ensures
        has_advanced(v, restore_next(v, answer).0),
{
    let w0 = v.at(RestoreStageView::Done);
    let entry = v.windows[current(w0) as int]@;
    let (ledger, step) = launch_next(entry, launch, v.ledger, answer);
    let w = RestoreView { ledger, ..w0 };
    law_launch_ends(entry, launch, v.ledger, answer);
    assert(window_of(v.plan.tasks[v.begun - 1]) matches Some(idx) ==> idx < v.windows.len());
    match step {
        LaunchStepView::Going(next, t) => {},
        LaunchStepView::Over(sent, outcome) => match w.task() {
            TaskView::Bsp { idx, .. } => match outcome {
                LaunchOutcomeView::Adopted(address) => {
                    lemma_go_on(w.adopted(idx, address).success(), sent);
                },
                LaunchOutcomeView::Opened(address) => {
                    lemma_go_on(w.opened(idx, address).success(), sent);
                },
                LaunchOutcomeView::Deferred => {
                    lemma_go_on(w.success(), sent);
                },
                LaunchOutcomeView::Failed(message) => {
                    lemma_go_on(w.failure(idx, message), sent);
                },
            },
            TaskView::Window { idx, .. } => {
                match outcome {
                    LaunchOutcomeView::Failed(message) => {
                        lemma_go_on(w.failure(idx, message), sent);
                    },
                    _ => {},
                }
                lemma_go_on(w.success(), sent);
            },
            _ => {
                lemma_go_on(w, sent);
            },
        },
    }
}

proof fn lemma_correction_advances(v: RestoreView, answer: Answer)
    requires
        is_on_course(v),
        v.stage is Ratios || v.stage is Pixels || v.stage is Sizes || v.stage is Fullscreen,
    ensures
        has_advanced(v, restore_next(v, answer).0),
{
    let w = v.at(RestoreStageView::Done);
    lemma_go_on(w, seq![]);
    match v.stage {
        RestoreStageView::Ratios(run) => {
            lemma_ratios_from(w, run.at + 1, run.applied);
            lemma_ratios_from(w, run.at + 1, run.applied || is_ok(answer));
        },
        RestoreStageView::Pixels(run) => {
            law_pixel_correction_ends(run, w.places, answer);
        },
        RestoreStageView::Sizes(run) => {
            law_size_correction_ends(run, w.windows, w.places, answer);
        },
        RestoreStageView::Fullscreen(run) => {
            law_fullscreen_spares_adopted_windows(w.windows, w.places, run.at + 1);
        },
        _ => {},
    }
}

/// Every answer brings a restore closer to its end: it is done or given up, or
/// fewer questions, else fewer tasks, else less of the current task is left.
pub proof fn law_restore_ends(v: RestoreView, answer: Answer)
    requires
        is_on_course(v),
        restore_next(v, answer).0.plan.ratio_steps.len() <= usize::MAX,
    ensures
        has_advanced(v, restore_next(v, answer).0),
{
    let w = v.at(RestoreStageView::Done);
    match v.stage {
        RestoreStageView::FocusOption | RestoreStageView::Layout => {
            law_plans_restore_every_window_once(v.windows);
            lemma_plan_in_bounds(simple_plan(v.windows).tasks, v.windows.len());
            lemma_plan_in_bounds(dwindle_plan(v.windows).tasks, v.windows.len());
            lemma_plan_in_bounds(master_plan(v.windows).tasks, v.windows.len());
            assert forall|x: RestoreView, sent: Seq<CommandView>|
                (#[trigger] go_on(x, sent)).0.plan == x.plan && (can_go_on(x) ==> has_gone_on(
                    go_on(x, sent).0,
                    x.plan,
                    x.begun,
                )) by {
                lemma_plan_stays(x, sent);
                if can_go_on(x) {
                    lemma_go_on(x, sent);
                }
            }
        },
        RestoreStageView::EnterMaster(orientation) => {
            lemma_go_on(
                w,
                seq![CommandView::Dispatch("layoutmsg orientation"@ + orientation.name())],
            );
        },
        RestoreStageView::Launching(launch) => {
            lemma_launch_advances(v, launch, answer);
        },
        RestoreStageView::Shaping(shape, at) => {
            lemma_go_on(w.success(), seq![]);
            if let Some(message) = answer.failure() {
                lemma_go_on(w.failure(current(w), message), seq![]);
            }
        },
        RestoreStageView::Ratios(_)
        | RestoreStageView::Pixels(_)
        | RestoreStageView::Sizes(_)
        | RestoreStageView::Fullscreen(_) => {
            lemma_correction_advances(v, answer);
        },
        _ => {},
    }
}

/// A restore starts on course.
pub proof fn law_restore_starts_on_course(
    engine: RestoreEngine,
    windows: Seq<WindowEntry>,
    live: Seq<TrackedWindowView>,
)
    requires
        windows.len() <= usize::MAX,
    ensures
        is_on_course(fresh(engine, windows, live)),
{
}

} // verus!
