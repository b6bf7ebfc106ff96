//! What the plan of a restore comes to.
use super::launch::MasterRole;
use super::plans::{
    bsp_tasks, dwindle_plan, entries_at, floats, group, has_tiled, lemma_workspace_order,
    master_for, master_plan, master_tasks, mastered, planned, planned_pixels, planned_ratios,
    simple_plan, tree_for, unmastered, unplanned, window_tasks, workspace_order, TaskView,
};
use crate::layout::dwindle::{pixel_steps_of, plan_steps, ratio_steps_of, RestoreStep};
use crate::layout::master::MasterPlanView;
use crate::models::WindowEntry;
use crate::text::comes_before;
use vstd::prelude::*;

verus! {

/// The tiled windows of a workspace are grouped, all of them and in order; the
/// floating ones are kept apart.
pub proof fn law_windows_are_grouped_by_workspace(
    windows: Seq<WindowEntry>,
    ws: Seq<char>,
    idx: usize,
)
    requires
        windows.len() <= usize::MAX,
    ensures
        group(windows, ws).contains(idx) <==> idx < windows.len() && !windows[idx as int].floating
            && windows[idx as int].workspace@ == ws,
        floats(windows).contains(idx) <==> idx < windows.len() && windows[idx as int].floating,
        forall|i: int, j: int|
            0 <= i < j < group(windows, ws).len() ==> group(windows, ws)[i] < group(
                windows,
                ws,
            )[j],
        forall|i: int, j: int|
            0 <= i < j < floats(windows).len() ==> floats(windows)[i] < floats(windows)[j],
    decreases windows.len(),
{
    if windows.len() > 0 {
        let head = windows.drop_last();
        let last = (windows.len() - 1) as usize;
        assert forall|k: usize| #![auto]
            group(head, ws).contains(k) <==> k < head.len() && !head[k as int].floating
                && head[k as int].workspace@ == ws by {
            law_windows_are_grouped_by_workspace(head, ws, k);
        }
        assert forall|k: usize| #![auto]
            floats(head).contains(k) <==> k < head.len() && head[k as int].floating by {
            law_windows_are_grouped_by_workspace(head, ws, k);
        }
        law_windows_are_grouped_by_workspace(head, ws, idx);
        lemma_grown(group(head, ws), group(windows, ws), last);
        lemma_grown(floats(head), floats(windows), last);
        lemma_pushed(group(head, ws), last, idx);
        lemma_pushed(floats(head), last, idx);
        if idx < last {
            assert(windows[idx as int] == head[idx as int]);
        }
    }
}

proof fn lemma_pushed(v: Seq<usize>, x: usize, y: usize)
    ensures
        v.push(x).contains(y) <==> v.contains(y) || x == y,
{
    if v.contains(y) {
        let i = choose|i: int| 0 <= i < v.len() && v[i] == y;
        assert(v.push(x)[i] == y);
    }
    assert(v.push(x)[v.len() as int] == x);
    if v.push(x).contains(y) {
        let i = choose|i: int| 0 <= i < v.push(x).len() && v.push(x)[i] == y;
        if i < v.len() {
            assert(v[i] == y);
        }
    }
}

proof fn lemma_grown(v: Seq<usize>, w: Seq<usize>, x: usize)
    requires
        w == v || w == v.push(x),
        forall|i: int, j: int| 0 <= i < j < v.len() ==> v[i] < v[j],
        forall|k: usize| v.contains(k) ==> k < x,
    ensures
        forall|i: int, j: int| 0 <= i < j < w.len() ==> w[i] < w[j],
{
    assert forall|i: int, j: int| 0 <= i < j < w.len() implies w[i] < w[j] by {
        if j == v.len() {
            assert(v.contains(v[i]));
        }
    }
}

/// The workspaces with tiled windows are taken up in the order of their names,
/// each once.
pub proof fn law_workspaces_are_taken_up_in_order(windows: Seq<WindowEntry>, ws: Seq<char>)
    ensures
        workspace_order(windows).contains(ws) <==> exists|i: int|
            0 <= i < windows.len() && !(#[trigger] windows[i]).floating && windows[i].workspace@
                == ws,
        forall|i: int, j: int|
            0 <= i < j < workspace_order(windows).len() ==> comes_before(
                #[trigger] workspace_order(windows)[i],
                #[trigger] workspace_order(windows)[j],
            ),
{
    lemma_workspace_order(windows);
    let order = workspace_order(windows);
    assert(order.contains(ws) <==> has_tiled(windows, ws));
    if has_tiled(windows, ws) {
        let i = choose|i: int|
            0 <= i < windows.len() && super::plans::tiled_on(#[trigger] windows[i], ws);
        assert(!windows[i].floating && windows[i].workspace@ == ws);
    }
    if exists|i: int|
        0 <= i < windows.len() && !(#[trigger] windows[i]).floating && windows[i].workspace@ == ws {
        let i = choose|i: int|
            0 <= i < windows.len() && !(#[trigger] windows[i]).floating && windows[i].workspace@
                == ws;
        assert(super::plans::tiled_on(windows[i], ws));
    }
}

/// The task follows the step: the same window, beside the same one, on the same
/// side.
pub open spec fn follows(task: TaskView, step: RestoreStep, first: bool) -> bool {
    task == (TaskView::Bsp {
        idx: step.window_idx,
        focus_idx: step.focus_idx,
        preselect: step.preselect,
        first,
    })
}

/// From task `at` on, the tasks follow the steps one by one, and the first of
/// them enters the workspace.
pub open spec fn steps_stand_at(tasks: Seq<TaskView>, steps: Seq<RestoreStep>, at: int) -> bool {
    &&& 0 <= at
    &&& at + steps.len() <= tasks.len()
    &&& forall|k: int|
        0 <= k < steps.len() ==> follows(tasks[at + k], #[trigger] steps[k], k == 0)
}

proof fn lemma_planned_has(windows: Seq<WindowEntry>, order: Seq<Seq<char>>, n: int)
    requires
        0 <= n < order.len(),
        tree_for(windows, order[n]) is Some,
    ensures
        exists|at: int| #[trigger]
            steps_stand_at(
                planned(windows, order),
                plan_steps(tree_for(windows, order[n])->0),
                at,
            ),
        forall|k: int|
            0 <= k < ratio_steps_of(tree_for(windows, order[n])->0).len() ==> planned_ratios(
                windows,
                order,
            ).contains(#[trigger] ratio_steps_of(tree_for(windows, order[n])->0)[k]),
        forall|k: int|
            0 <= k < pixel_steps_of(tree_for(windows, order[n])->0).len() ==> planned_pixels(
                windows,
                order,
            ).contains(#[trigger] pixel_steps_of(tree_for(windows, order[n])->0)[k]),
    decreases order.len(),
{
    let rest = order.drop_last();
    let all = planned(windows, order);
    let before = planned(windows, rest);
    let tree = tree_for(windows, order[n])->0;
    let steps = plan_steps(tree);
    let (r, p) = (planned_ratios(windows, order), planned_pixels(windows, order));
    let (r0, p0) = (planned_ratios(windows, rest), planned_pixels(windows, rest));
    if n == order.len() - 1 {
        let at = before.len() as int;
        assert forall|k: int| 0 <= k < steps.len() implies follows(
            all[at + k],
            #[trigger] steps[k],
            k == 0,
        ) by {
            assert(all[at + k] == bsp_tasks(steps)[k]);
        }
        assert(steps_stand_at(all, steps, at));
        assert forall|k: int| 0 <= k < ratio_steps_of(tree).len() implies r.contains(
            #[trigger] ratio_steps_of(tree)[k],
        ) by {
            assert(r[r0.len() + k] == ratio_steps_of(tree)[k]);
        }
        assert forall|k: int| 0 <= k < pixel_steps_of(tree).len() implies p.contains(
            #[trigger] pixel_steps_of(tree)[k],
        ) by {
            assert(p[p0.len() + k] == pixel_steps_of(tree)[k]);
        }
    } else {
        assert(rest[n] == order[n]);
        lemma_planned_has(windows, rest, n);
        let at = choose|at: int| #[trigger] steps_stand_at(before, steps, at);
        assert forall|k: int| 0 <= k < steps.len() implies follows(
            all[at + k],
            #[trigger] steps[k],
            k == 0,
        ) by {
            assert(all[at + k] == before[at + k]);
        }
        assert(steps_stand_at(all, steps, at));
        assert forall|k: int| 0 <= k < ratio_steps_of(tree).len() implies r.contains(
            #[trigger] ratio_steps_of(tree)[k],
        ) by {
            let s = ratio_steps_of(tree)[k];
            let i = choose|i: int| 0 <= i < r0.len() && r0[i] == s;
            assert(r[i] == s);
        }
        assert forall|k: int| 0 <= k < pixel_steps_of(tree).len() implies p.contains(
            #[trigger] pixel_steps_of(tree)[k],
        ) by {
            let s = pixel_steps_of(tree)[k];
            let i = choose|i: int| 0 <= i < p0.len() && p0[i] == s;
            assert(p[i] == s);
        }
    }
}

/// Under dwindle, a workspace whose windows have a tree is rebuilt by the steps of
/// that tree, one after the other; its ratios are among those that are
/// corrected after all trees are built. A workspace without a tree has its
/// windows restored on their own, and so are the floating windows, last.
pub proof fn law_dwindle_follows_the_trees(windows: Seq<WindowEntry>, ws: Seq<char>)
    requires
        has_tiled(windows, ws),
    ensures
        ({
            let plan = dwindle_plan(windows);
            match tree_for(windows, ws) {
                Some(tree) => {
                    &&& exists|at: int| #[trigger]
                        steps_stand_at(plan.tasks, plan_steps(tree), at) && forall|k: int|
                            0 <= k < plan.tasks.len() && is_correction(
                                #[trigger] plan.tasks[k],
                            ) ==> at + plan_steps(tree).len() <= k
                    &&& forall|k: int|
                        0 <= k < ratio_steps_of(tree).len() ==> plan.ratio_steps.contains(
                            #[trigger] ratio_steps_of(tree)[k],
                        )
                    &&& forall|k: int|
                        0 <= k < pixel_steps_of(tree).len() ==> plan.pixel_steps.contains(
                            #[trigger] pixel_steps_of(tree)[k],
                        )
                },
                None => forall|k: int|
                    0 <= k < group(windows, ws).len() ==> plan.tasks.contains(
                        TaskView::Window {
                            idx: #[trigger] group(windows, ws)[k],
                            role: MasterRole::Outside,
                        },
                    ),
            }
        }),
{
    lemma_workspace_order(windows);
    let order = workspace_order(windows);
    assert(order.contains(ws));
    let n = choose|n: int| 0 <= n < order.len() && order[n] == ws;
    let plan = dwindle_plan(windows);
    let a = planned(windows, order);
    let mid = seq![TaskView::Ratios, TaskView::Pixels, TaskView::Sizes, TaskView::Fullscreen];
    let b = window_tasks(unplanned(windows, order), MasterRole::Outside);
    let c = window_tasks(floats(windows), MasterRole::Outside);
    assert(plan.tasks == a + mid + b + c);
    match tree_for(windows, ws) {
        Some(tree) => {
            lemma_planned_has(windows, order, n);
            let steps = plan_steps(tree);
            let at = choose|at: int| #[trigger] steps_stand_at(a, steps, at);
            assert forall|k: int| 0 <= k < steps.len() implies follows(
                plan.tasks[at + k],
                #[trigger] steps[k],
                k == 0,
            ) by {
                assert(plan.tasks[at + k] == a[at + k]);
            }
            assert(steps_stand_at(plan.tasks, steps, at));
            lemma_planned_are_bsp(windows, order);
            assert forall|k: int|
                0 <= k < plan.tasks.len() && is_correction(#[trigger] plan.tasks[k]) implies at
                + steps.len() <= k by {
                if k < a.len() {
                    assert(plan.tasks[k] == a[k]);
                    assert(a[k] is Bsp);
                }
            }
        },
        None => {
            lemma_unplanned_has(windows, order, n);
            let u = unplanned(windows, order);
            assert forall|k: int| 0 <= k < group(windows, ws).len() implies plan.tasks.contains(
                TaskView::Window {
                    idx: #[trigger] group(windows, ws)[k],
                    role: MasterRole::Outside,
                },
            ) by {
                let idx = group(windows, ws)[k];
                let i = choose|i: int| 0 <= i < u.len() && u[i] == idx;
                assert(plan.tasks[a.len() + 4 + i] == b[i]);
            }
        },
    }
}

/// The task corrects windows that are open already.
pub open spec fn is_correction(task: TaskView) -> bool {
    task is Ratios || task is Pixels || task is Sizes || task is Fullscreen
}

proof fn lemma_planned_are_bsp(windows: Seq<WindowEntry>, order: Seq<Seq<char>>)
    ensures
        forall|k: int|
            0 <= k < planned(windows, order).len() ==> (#[trigger] planned(windows, order)[k]) is Bsp,
    decreases order.len(),
{
    if order.len() > 0 {
        let rest = planned(windows, order.drop_last());
        lemma_planned_are_bsp(windows, order.drop_last());
        let all = planned(windows, order);
        assert forall|k: int| 0 <= k < all.len() implies (#[trigger] all[k]) is Bsp by {
            if k < rest.len() {
                assert(all[k] == rest[k]);
            }
        }
    }
}

proof fn lemma_unplanned_has(windows: Seq<WindowEntry>, order: Seq<Seq<char>>, n: int)
    requires
        0 <= n < order.len(),
        tree_for(windows, order[n]) is None,
    ensures
        forall|k: int|
            0 <= k < group(windows, order[n]).len() ==> unplanned(windows, order).contains(
                #[trigger] group(windows, order[n])[k],
            ),
    decreases order.len(),
{
    let rest = unplanned(windows, order.drop_last());
    let all = unplanned(windows, order);
    let g = group(windows, order[n]);
    if n < order.len() - 1 {
        assert(order.drop_last()[n] == order[n]);
        lemma_unplanned_has(windows, order.drop_last(), n);
    }
    assert forall|k: int| 0 <= k < g.len() implies all.contains(#[trigger] g[k]) by {
        if n == order.len() - 1 {
            assert(all[rest.len() + k] == g[k]);
        } else {
            let i = choose|i: int| 0 <= i < rest.len() && rest[i] == g[k];
            assert(all[i] == g[k]);
        }
    }
}

/// The corrections of a dwindle restore come in this order, after all trees:
/// ratios, splits that only a resize reaches, sizes, and fullscreen.
pub proof fn law_corrections_come_in_order(windows: Seq<WindowEntry>)
    ensures
        exists|at: int|
            0 <= at && at + 4 <= dwindle_plan(windows).tasks.len() && #[trigger] dwindle_plan(
                windows,
            ).tasks[at] == TaskView::Ratios && dwindle_plan(windows).tasks[at + 1]
                == TaskView::Pixels && dwindle_plan(windows).tasks[at + 2] == TaskView::Sizes
                && dwindle_plan(windows).tasks[at + 3] == TaskView::Fullscreen && forall|k: int|
                0 <= k < at ==> (#[trigger] dwindle_plan(windows).tasks[k]) is Bsp,
{
    let order = workspace_order(windows);
    let tasks = dwindle_plan(windows).tasks;
    let at = planned(windows, order).len() as int;
    lemma_planned_are_bsp(windows, order);
    assert(tasks[at] == TaskView::Ratios);
    assert(tasks[at + 1] == TaskView::Pixels);
    assert(tasks[at + 2] == TaskView::Sizes);
    assert(tasks[at + 3] == TaskView::Fullscreen);
    assert forall|k: int| 0 <= k < at implies (#[trigger] tasks[k]) is Bsp by {
        assert(tasks[k] == planned(windows, order)[k]);
    }
}

/// From task `at` on stand the tasks of a master plan: the master area is set up
/// with the plan's side and factor; its first window opens in it, the other
/// master windows open and are promoted, and then the stack opens.
pub open spec fn master_stands_at(
    tasks: Seq<TaskView>,
    ws: Seq<char>,
    plan: MasterPlanView,
    at: int,
) -> bool {
    let m = plan.master_indices.len() as int;
    let s = plan.stack_indices.len() as int;
    &&& 0 <= at
    &&& at + 1 + m + s <= tasks.len()
    &&& tasks[at] == (TaskView::EnterMaster {
        workspace: ws,
        orientation: plan.orientation,
        mfact: plan.mfact,
    })
    &&& forall|k: int|
        0 <= k < m ==> tasks[at + 1 + k] == (TaskView::Window {
            idx: #[trigger] plan.master_indices[k],
            role: if k > 0 {
                MasterRole::Promote
            } else {
                MasterRole::Plain
            },
        })
    &&& forall|k: int|
        0 <= k < s ==> tasks[at + 1 + m + k] == (TaskView::Window {
            idx: #[trigger] plan.stack_indices[k],
            role: MasterRole::Plain,
        })
}

proof fn lemma_mastered_has(windows: Seq<WindowEntry>, order: Seq<Seq<char>>, n: int)
    requires
        0 <= n < order.len(),
        master_for(windows, order[n]) is Some,
    ensures
        exists|at: int| #[trigger]
            master_stands_at(
                mastered(windows, order),
                order[n],
                master_for(windows, order[n])->0,
                at,
            ),
    decreases order.len(),
{
    let rest = mastered(windows, order.drop_last());
    let all = mastered(windows, order);
    let plan = master_for(windows, order[n])->0;
    let m = plan.master_indices.len() as int;
    if n == order.len() - 1 {
        let at = rest.len() as int;
        let own = master_tasks(order[n], plan);
        assert(all == rest + own);
        assert(all[at] == own[0]);
        assert forall|k: int| 0 <= k < m implies all[at + 1 + k] == (TaskView::Window {
            idx: #[trigger] plan.master_indices[k],
            role: if k > 0 {
                MasterRole::Promote
            } else {
                MasterRole::Plain
            },
        }) by {
            assert(all[at + 1 + k] == own[1 + k]);
        }
        assert forall|k: int| 0 <= k < plan.stack_indices.len() implies all[at + 1 + m + k] == (
        TaskView::Window {
            idx: #[trigger] plan.stack_indices[k],
            role: MasterRole::Plain,
        }) by {
            assert(all[at + 1 + m + k] == own[1 + m + k]);
        }
        assert(master_stands_at(all, order[n], plan, at));
    } else {
        assert(order.drop_last()[n] == order[n]);
        lemma_mastered_has(windows, order.drop_last(), n);
        let at = choose|at: int| #[trigger] master_stands_at(rest, order[n], plan, at);
        assert(all.take(rest.len() as int) =~= rest);
        lemma_master_stays(rest, all, order[n], plan, at);
    }
}

proof fn lemma_master_stays(
    a: Seq<TaskView>,
    b: Seq<TaskView>,
    ws: Seq<char>,
    plan: MasterPlanView,
    at: int,
)
    requires
        master_stands_at(a, ws, plan, at),
        a.len() <= b.len(),
        b.take(a.len() as int) == a,
    ensures
        master_stands_at(b, ws, plan, at),
{
    let m = plan.master_indices.len() as int;
    assert forall|k: int| 0 <= k < a.len() implies a[k] == b[k] by {
        assert(b.take(a.len() as int)[k] == b[k]);
    }
    assert forall|k: int| 0 <= k < m implies b[at + 1 + k] == (TaskView::Window {
        idx: #[trigger] plan.master_indices[k],
        role: if k > 0 {
            MasterRole::Promote
        } else {
            MasterRole::Plain
        },
    }) by {
        assert(a[at + 1 + k] == b[at + 1 + k]);
    }
    assert forall|k: int| 0 <= k < plan.stack_indices.len() implies b[at + 1 + m + k] == (
    TaskView::Window { idx: #[trigger] plan.stack_indices[k], role: MasterRole::Plain }) by {
        assert(a[at + 1 + m + k] == b[at + 1 + m + k]);
    }
}

proof fn lemma_unmastered_has(windows: Seq<WindowEntry>, order: Seq<Seq<char>>, n: int)
    requires
        0 <= n < order.len(),
        master_for(windows, order[n]) is None,
    ensures
        forall|k: int|
            0 <= k < group(windows, order[n]).len() ==> unmastered(windows, order).contains(
                #[trigger] group(windows, order[n])[k],
            ),
    decreases order.len(),
{
    let rest = unmastered(windows, order.drop_last());
    let all = unmastered(windows, order);
    let g = group(windows, order[n]);
    if n < order.len() - 1 {
        assert(order.drop_last()[n] == order[n]);
        lemma_unmastered_has(windows, order.drop_last(), n);
    }
    assert forall|k: int| 0 <= k < g.len() implies all.contains(#[trigger] g[k]) by {
        if n == order.len() - 1 {
            assert(all[rest.len() + k] == g[k]);
        } else {
            let i = choose|i: int| 0 <= i < rest.len() && rest[i] == g[k];
            assert(all[i] == g[k]);
        }
    }
}

/// Under master, a workspace whose windows have a master plan is set up and
/// filled by it; on any other the windows are restored on their own.
pub proof fn law_master_follows_the_plans(windows: Seq<WindowEntry>, ws: Seq<char>)
    requires
        has_tiled(windows, ws),
    ensures
        match master_for(windows, ws) {
            Some(plan) => exists|at: int| #[trigger]
                master_stands_at(master_plan(windows).tasks, ws, plan, at),
            None => forall|k: int|
                0 <= k < group(windows, ws).len() ==> master_plan(windows).tasks.contains(
                    TaskView::Window {
                        idx: #[trigger] group(windows, ws)[k],
                        role: MasterRole::Outside,
                    },
                ),
        },
{
    lemma_workspace_order(windows);
    let order = workspace_order(windows);
    assert(order.contains(ws));
    let n = choose|n: int| 0 <= n < order.len() && order[n] == ws;
    let tasks = master_plan(windows).tasks;
    let a = mastered(windows, order);
    let u = unmastered(windows, order);
    let b = window_tasks(u, MasterRole::Outside);
    match master_for(windows, ws) {
        Some(plan) => {
            lemma_mastered_has(windows, order, n);
            let at = choose|at: int| #[trigger] master_stands_at(a, ws, plan, at);
            assert(tasks.take(a.len() as int) =~= a);
            lemma_master_stays(a, tasks, ws, plan, at);
        },
        None => {
            lemma_unmastered_has(windows, order, n);
            assert forall|k: int| 0 <= k < group(windows, ws).len() implies tasks.contains(
                TaskView::Window {
                    idx: #[trigger] group(windows, ws)[k],
                    role: MasterRole::Outside,
                },
            ) by {
                let idx = group(windows, ws)[k];
                let i = choose|i: int| 0 <= i < u.len() && u[i] == idx;
                assert(tasks[a.len() + i] == b[i]);
            }
        },
    }
}

/// Under any layout, the floating windows are restored on their own, last and in
/// order; without a layout every window is, in the order in which it was saved.
pub proof fn law_other_windows_are_restored_on_their_own(windows: Seq<WindowEntry>, k: int)
    requires
        windows.len() <= usize::MAX,
    ensures
        0 <= k < floats(windows).len() ==> {
            let task = TaskView::Window { idx: floats(windows)[k], role: MasterRole::Outside };
            let back = floats(windows).len() - k;
            &&& dwindle_plan(windows).tasks.len() >= back
            &&& dwindle_plan(windows).tasks[dwindle_plan(windows).tasks.len() - back] == task
            &&& master_plan(windows).tasks.len() >= back
            &&& master_plan(windows).tasks[master_plan(windows).tasks.len() - back] == task
        },
        simple_plan(windows).tasks.len() == windows.len(),
        0 <= k < windows.len() ==> simple_plan(windows).tasks[k] == (TaskView::Window {
            idx: k as usize,
            role: MasterRole::Outside,
        }),
        master_plan(windows).ratio_steps.len() == 0,
        master_plan(windows).pixel_steps.len() == 0,
        simple_plan(windows).ratio_steps.len() == 0,
        simple_plan(windows).pixel_steps.len() == 0,
{
    let order = workspace_order(windows);
    let f = window_tasks(floats(windows), MasterRole::Outside);
    let d = dwindle_plan(windows).tasks;
    let m = master_plan(windows).tasks;
    if 0 <= k < floats(windows).len() {
        let back = floats(windows).len() - k;
        assert(d[d.len() - back] == f[k]);
        assert(m[m.len() - back] == f[k]);
    }
}

/// The windows of a workspace are looked at under their own indices.
pub proof fn law_entries_keep_their_indices(windows: Seq<WindowEntry>, indices: Seq<usize>, i: int)
    requires
        0 <= i < indices.len(),
    ensures
        entries_at(windows, indices).len() == indices.len(),
        *entries_at(windows, indices)[i] == windows[indices[i] as int],
{
}

} // verus!
