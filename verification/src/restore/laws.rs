//! What the restore plans promise of the windows of a session.
use super::launch::MasterRole;
use super::plans::{
    bsp_tasks, dwindle_plan, entries_at, floats, group, lemma_drop_last_contains,
    lemma_workspace_order, lists_workspaces, master_for, master_plan, master_tasks, mastered,
    planned, simple_plan, tiled_on, tree_for, unmastered, unplanned, window_tasks,
    workspace_order, TaskView,
};
use crate::layout::dwindle::{measured_tolerance, plan_steps};
use crate::layout::laws::{law_plan_opens_every_window_once, law_tree_has_every_window, opened};
use crate::layout::master::law_master_plan_is_balanced;
use crate::layout::{bounding, idx_of, indexed};
use crate::models::WindowEntry;
use crate::text::in_order;
use vstd::multiset::Multiset;
use vstd::prelude::*;
use vstd::seq_lib::{group_to_multiset_ensures, lemma_multiset_commutative, to_multiset_build};

verus! {

/// The window that a task restores, if it restores one.
pub open spec fn window_of(task: TaskView) -> Option<usize> {
    match task {
        TaskView::Window { idx, .. } => Some(idx),
        TaskView::Bsp { idx, .. } => Some(idx),
        _ => None,
    }
}

/// The windows that the tasks restore, in order.
pub open spec fn windows_of(tasks: Seq<TaskView>) -> Seq<usize>
    decreases tasks.len(),
{
    if tasks.len() == 0 {
        seq![]
    } else {
        match window_of(tasks.last()) {
            Some(idx) => windows_of(tasks.drop_last()).push(idx),
            None => windows_of(tasks.drop_last()),
        }
    }
}

/// Every index below `n` once.
pub open spec fn all_indices(n: nat) -> Seq<usize> {
    Seq::new(n, |i: int| i as usize)
}

proof fn lemma_windows_of_concat(a: Seq<TaskView>, b: Seq<TaskView>)
    ensures
        windows_of(a + b) == windows_of(a) + windows_of(b),
    decreases b.len(),
{
    if b.len() == 0 {
        assert(a + b =~= a);
        assert(windows_of(a) + windows_of(b) =~= windows_of(a));
    } else {
        lemma_windows_of_concat(a, b.drop_last());
        assert((a + b).drop_last() =~= a + b.drop_last());
        assert((a + b).last() == b.last());
        assert(windows_of(a + b) =~= windows_of(a) + windows_of(b));
    }
}

proof fn lemma_windows_of_window_tasks(indices: Seq<usize>, role: MasterRole)
    ensures
        windows_of(window_tasks(indices, role)) == indices,
    decreases indices.len(),
{
    if indices.len() > 0 {
        lemma_windows_of_window_tasks(indices.drop_last(), role);
        assert(window_tasks(indices, role).drop_last() =~= window_tasks(
            indices.drop_last(),
            role,
        ));
    }
    assert(windows_of(window_tasks(indices, role)) =~= indices);
}

/// Tasks that each restore a window restore those windows.
proof fn lemma_windows_of_all(tasks: Seq<TaskView>, indices: Seq<usize>)
    requires
        tasks.len() == indices.len(),
        forall|i: int| 0 <= i < tasks.len() ==> window_of(#[trigger] tasks[i]) == Some(indices[i]),
    ensures
        windows_of(tasks) == indices,
    decreases tasks.len(),
{
    if tasks.len() > 0 {
        assert forall|i: int| 0 <= i < tasks.drop_last().len() implies window_of(
            #[trigger] tasks.drop_last()[i],
        ) == Some(indices.drop_last()[i]) by {
            assert(tasks.drop_last()[i] == tasks[i]);
        }
        lemma_windows_of_all(tasks.drop_last(), indices.drop_last());
        assert(window_of(tasks[tasks.len() - 1]) == Some(indices[indices.len() - 1]));
    }
    assert(windows_of(tasks) =~= indices);
}

proof fn lemma_master_windows(
    ws: Seq<char>,
    plan: crate::layout::master::MasterPlanView,
)
    ensures
        windows_of(master_tasks(ws, plan)) == plan.master_indices + plan.stack_indices,
{
    let whole = master_tasks(ws, plan);
    let enter = whole.take(1);
    let rest = whole.skip(1);
    let both = plan.master_indices + plan.stack_indices;
    assert(whole =~= enter + rest);
    lemma_windows_of_concat(enter, rest);
    assert(enter.drop_last() =~= seq![]);
    assert(windows_of(enter) =~= seq![]) by {
        assert(enter.last() == whole[0]);
        assert(windows_of(enter.drop_last()) =~= seq![]);
    }
    lemma_windows_of_all(rest, both);
    assert(windows_of(whole) =~= both);
}

proof fn lemma_group_count(windows: Seq<WindowEntry>, ws: Seq<char>, i: usize)
    requires
        windows.len() <= usize::MAX,
    ensures
        group(windows, ws).to_multiset().count(i) == if i < windows.len() && tiled_on(
            windows[i as int],
            ws,
        ) {
            1nat
        } else {
            0nat
        },
    decreases windows.len(),
{
    broadcast use group_to_multiset_ensures;

    if windows.len() > 0 {
        let rest = windows.drop_last();
        lemma_group_count(rest, ws, i);
        if i < rest.len() {
            assert(rest[i as int] == windows[i as int]);
        }
        if tiled_on(windows.last(), ws) {
            to_multiset_build(group(rest, ws), (windows.len() - 1) as usize);
        }
    }
}

proof fn lemma_floats_count(windows: Seq<WindowEntry>, i: usize)
    requires
        windows.len() <= usize::MAX,
    ensures
        floats(windows).to_multiset().count(i) == if i < windows.len() && windows[i as int].floating {
            1nat
        } else {
            0nat
        },
    decreases windows.len(),
{
    broadcast use group_to_multiset_ensures;

    if windows.len() > 0 {
        let rest = windows.drop_last();
        lemma_floats_count(rest, i);
        if i < rest.len() {
            assert(rest[i as int] == windows[i as int]);
        }
        if windows.last().floating {
            to_multiset_build(floats(rest), (windows.len() - 1) as usize);
        }
    }
}

proof fn lemma_all_indices_count(n: nat, i: usize)
    requires
        n <= usize::MAX,
    ensures
        all_indices(n).to_multiset().count(i) == if i < n {
            1nat
        } else {
            0nat
        },
    decreases n,
{
    broadcast use group_to_multiset_ensures;

    if n > 0 {
        let m = (n - 1) as nat;
        lemma_all_indices_count(m, i);
        assert(all_indices(n) =~= all_indices(m).push(m as usize));
        to_multiset_build(all_indices(m), m as usize);
    } else {
        assert(all_indices(n) =~= seq![]);
    }
}

/// The windows of the given workspaces.
spec fn grouped(windows: Seq<WindowEntry>, order: Seq<Seq<char>>) -> Multiset<usize>
    decreases order.len(),
{
    if order.len() == 0 {
        Multiset::empty()
    } else {
        grouped(windows, order.drop_last()).add(group(windows, order.last()).to_multiset())
    }
}

proof fn lemma_grouped_count(windows: Seq<WindowEntry>, order: Seq<Seq<char>>, i: usize)
    requires
        windows.len() <= usize::MAX,
        in_order(order),
    ensures
        grouped(windows, order).count(i) == if i < windows.len() && !windows[i as int].floating
            && order.contains(windows[i as int].workspace@) {
            1nat
        } else {
            0nat
        },
    decreases order.len(),
{
    if order.len() > 0 {
        let rest = order.drop_last();
        assert(in_order(rest)) by {
            assert forall|p: int, q: int|
                0 <= p < q < rest.len() implies crate::text::comes_before(
                #[trigger] rest[p],
                #[trigger] rest[q],
            ) by {
                assert(crate::text::comes_before(order[p], order[q]));
            }
        }
        lemma_grouped_count(windows, rest, i);
        lemma_group_count(windows, order.last(), i);
        if i < windows.len() {
            lemma_drop_last_contains(order, windows[i as int].workspace@);
            if windows[i as int].workspace@ == order.last() {
                assert(order[order.len() - 1] == windows[i as int].workspace@);
            }
        }
    }
}

proof fn lemma_everything_is_grouped(windows: Seq<WindowEntry>)
    requires
        windows.len() <= usize::MAX,
    ensures
        grouped(windows, workspace_order(windows)).add(floats(windows).to_multiset())
            == all_indices(windows.len()).to_multiset(),
{
    let order = workspace_order(windows);
    lemma_workspace_order(windows);
    assert(lists_workspaces(windows, order));
    let left = grouped(windows, order).add(floats(windows).to_multiset());
    let right = all_indices(windows.len()).to_multiset();
    assert forall|i: usize| #![auto] left.count(i) == right.count(i) by {
        lemma_grouped_count(windows, order, i);
        lemma_floats_count(windows, i);
        lemma_all_indices_count(windows.len(), i);
        if i < windows.len() && !windows[i as int].floating {
            let ws = windows[i as int].workspace@;
            assert(tiled_on(windows[i as int], ws));
            assert(super::plans::has_tiled(windows, ws));
            assert(order.contains(ws));
        }
    }
    assert(left =~= right);
}

proof fn lemma_indexed_group(windows: Seq<WindowEntry>, ws: Seq<char>)
    ensures
        idx_of(indexed(entries_at(windows, group(windows, ws)), group(windows, ws))) == group(
            windows,
            ws,
        ),
{
    assert(idx_of(indexed(entries_at(windows, group(windows, ws)), group(windows, ws)))
        =~= group(windows, ws));
}

proof fn lemma_planned_windows(windows: Seq<WindowEntry>, order: Seq<Seq<char>>)
    ensures
        windows_of(planned(windows, order)).to_multiset().add(
            unplanned(windows, order).to_multiset(),
        ) == grouped(windows, order),
    decreases order.len(),
{
    broadcast use group_to_multiset_ensures;

    if order.len() == 0 {
        assert(windows_of(planned(windows, order)).to_multiset().add(
            unplanned(windows, order).to_multiset(),
        ) =~= Multiset::empty());
    } else {
        let rest = order.drop_last();
        let ws = order.last();
        lemma_planned_windows(windows, rest);
        let p = planned(windows, rest);
        let u = unplanned(windows, rest);
        match tree_for(windows, ws) {
            Some(tree) => {
                let steps = bsp_tasks(plan_steps(tree));
                lemma_windows_of_concat(p, steps);
                lemma_windows_of_all(steps, opened(plan_steps(tree)));
                lemma_multiset_commutative(windows_of(p), opened(plan_steps(tree)));
                law_plan_opens_every_window_once(tree);
                let entries = entries_at(windows, group(windows, ws));
                let inner = indexed(entries, group(windows, ws));
                law_tree_has_every_window(
                    inner,
                    bounding(entries)->0,
                    measured_tolerance(inner),
                );
                lemma_indexed_group(windows, ws);
                assert(unplanned(windows, order) =~= u);
            },
            None => {
                lemma_multiset_commutative(u, group(windows, ws));
                assert(planned(windows, order) =~= p);
            },
        }
        assert(windows_of(planned(windows, order)).to_multiset().add(
            unplanned(windows, order).to_multiset(),
        ) =~= grouped(windows, order));
    }
}

proof fn lemma_mastered_windows(windows: Seq<WindowEntry>, order: Seq<Seq<char>>)
    ensures
        windows_of(mastered(windows, order)).to_multiset().add(
            unmastered(windows, order).to_multiset(),
        ) == grouped(windows, order),
    decreases order.len(),
{
    broadcast use group_to_multiset_ensures;

    if order.len() == 0 {
        assert(windows_of(mastered(windows, order)).to_multiset().add(
            unmastered(windows, order).to_multiset(),
        ) =~= Multiset::empty());
    } else {
        let rest = order.drop_last();
        let ws = order.last();
        lemma_mastered_windows(windows, rest);
        let p = mastered(windows, rest);
        let u = unmastered(windows, rest);
        match master_for(windows, ws) {
            Some(plan) => {
                let tasks = master_tasks(ws, plan);
                let both = plan.master_indices + plan.stack_indices;
                lemma_windows_of_concat(p, tasks);
                lemma_master_windows(ws, plan);
                lemma_multiset_commutative(windows_of(p), both);
                lemma_multiset_commutative(plan.master_indices, plan.stack_indices);
                let entries = entries_at(windows, group(windows, ws));
                law_master_plan_is_balanced(entries, group(windows, ws));
                lemma_indexed_group(windows, ws);
                assert(unmastered(windows, order) =~= u);
            },
            None => {
                lemma_multiset_commutative(u, group(windows, ws));
                assert(mastered(windows, order) =~= p);
            },
        }
        assert(windows_of(mastered(windows, order)).to_multiset().add(
            unmastered(windows, order).to_multiset(),
        ) =~= grouped(windows, order));
    }
}

/// Whatever the layout, a plan restores every window of the session exactly
/// once.
pub proof fn law_plans_restore_every_window_once(windows: Seq<WindowEntry>)
    requires
        windows.len() <= usize::MAX,
    ensures
        windows_of(simple_plan(windows).tasks).to_multiset() == all_indices(
            windows.len(),
        ).to_multiset(),
        windows_of(dwindle_plan(windows).tasks).to_multiset() == all_indices(
            windows.len(),
        ).to_multiset(),
        windows_of(master_plan(windows).tasks).to_multiset() == all_indices(
            windows.len(),
        ).to_multiset(),
{
    let order = workspace_order(windows);
    lemma_everything_is_grouped(windows);
    lemma_windows_of_all(simple_plan(windows).tasks, all_indices(windows.len()));

    let f = window_tasks(floats(windows), MasterRole::Outside);
    lemma_windows_of_window_tasks(floats(windows), MasterRole::Outside);

    lemma_planned_windows(windows, order);
    let p = planned(windows, order);
    let c = seq![TaskView::Ratios, TaskView::Pixels, TaskView::Sizes, TaskView::Fullscreen];
    let u = window_tasks(unplanned(windows, order), MasterRole::Outside);
    lemma_windows_of_window_tasks(unplanned(windows, order), MasterRole::Outside);
    assert(windows_of(c) =~= seq![]) by {
        reveal_with_fuel(windows_of, 5);
        assert(c.drop_last() =~= seq![TaskView::Ratios, TaskView::Pixels, TaskView::Sizes]);
        assert(c.drop_last().drop_last() =~= seq![TaskView::Ratios, TaskView::Pixels]);
        assert(c.drop_last().drop_last().drop_last() =~= seq![TaskView::Ratios]);
        assert(c.drop_last().drop_last().drop_last().drop_last() =~= seq![]);
    }
    lemma_windows_of_concat(p, c);
    lemma_windows_of_concat(p + c, u);
    lemma_windows_of_concat(p + c + u, f);
    assert(windows_of(p + c) =~= windows_of(p));
    lemma_multiset_commutative(windows_of(p), unplanned(windows, order));
    lemma_multiset_commutative(windows_of(p) + unplanned(windows, order), floats(windows));

    lemma_mastered_windows(windows, order);
    let m = mastered(windows, order);
    let v = window_tasks(unmastered(windows, order), MasterRole::Outside);
    lemma_windows_of_window_tasks(unmastered(windows, order), MasterRole::Outside);
    lemma_windows_of_concat(m, v);
    lemma_windows_of_concat(m + v, f);
    lemma_multiset_commutative(windows_of(m), unmastered(windows, order));
    lemma_multiset_commutative(windows_of(m) + unmastered(windows, order), floats(windows));
}

} // verus!
