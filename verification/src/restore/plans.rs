//! Which windows are restored, in which order and by which means.
use super::launch::MasterRole;
use crate::layout::dwindle::{
    self, pixel_steps_of, plan_steps, ratio_steps_of, workspace_tree, BspNode, PixelRatioStep,
    PreselDir, RestoreStep, SplitRatioStep,
};
use crate::layout::master::{self, workspace_plan, MasterOrientation, MasterPlan, MasterPlanView};
use crate::layout::{geometry_fits, geometry_in_range, Ratio};
use crate::models::{SessionFile, WindowEntry};
use crate::text::{
    comes_before, in_order, insert_in_order, lemma_order_total, lemma_order_transitive, str_eq,
    texts,
};
use vstd::prelude::*;

verus! {

/// One piece of a restore.
#[derive(Debug)]
pub enum Task {
    /// Restore a window on its own.
    Window { idx: usize, role: MasterRole },
    /// Restore a window into its BSP slot. The first one of a workspace
    /// switches to it.
    Bsp { idx: usize, focus_idx: Option<usize>, preselect: Option<PreselDir>, first: bool },
    /// Switch to a workspace and set up its master area.
    EnterMaster { workspace: String, orientation: MasterOrientation, mfact: Ratio },
    /// Set the split ratios that a window can reach.
    Ratios,
    /// Correct the split ratios that only a resize can reach.
    Pixels,
    /// Correct the sizes of the tiled windows.
    Sizes,
    /// Make the windows fullscreen that were.
    Fullscreen,
}

pub enum TaskView {
    Window { idx: usize, role: MasterRole },
    Bsp { idx: usize, focus_idx: Option<usize>, preselect: Option<PreselDir>, first: bool },
    EnterMaster { workspace: Seq<char>, orientation: MasterOrientation, mfact: Ratio },
    Ratios,
    Pixels,
    Sizes,
    Fullscreen,
}

impl View for Task {
    type V = TaskView;

    open spec fn view(&self) -> TaskView {
        match *self {
            Task::Window { idx, role } => TaskView::Window { idx, role },
            Task::Bsp { idx, focus_idx, preselect, first } => TaskView::Bsp {
                idx,
                focus_idx,
                preselect,
                first,
            },
            Task::EnterMaster { workspace, orientation, mfact } => TaskView::EnterMaster {
                workspace: workspace@,
                orientation,
                mfact,
            },
            Task::Ratios => TaskView::Ratios,
            Task::Pixels => TaskView::Pixels,
            Task::Sizes => TaskView::Sizes,
            Task::Fullscreen => TaskView::Fullscreen,
        }
    }
}

pub open spec fn task_views(v: Seq<Task>) -> Seq<TaskView> {
    Seq::new(v.len(), |i: int| v[i]@)
}

/// Everything that a restore will do, decided before it begins.
#[derive(Debug)]
pub struct RestorePlan {
    pub tasks: Vec<Task>,
    pub ratio_steps: Vec<SplitRatioStep>,
    pub pixel_steps: Vec<PixelRatioStep>,
}

#[verifier::ext_equal]
pub struct RestorePlanView {
    pub tasks: Seq<TaskView>,
    pub ratio_steps: Seq<SplitRatioStep>,
    pub pixel_steps: Seq<PixelRatioStep>,
}

impl View for RestorePlan {
    type V = RestorePlanView;

    open spec fn view(&self) -> RestorePlanView {
        RestorePlanView {
            tasks: task_views(self.tasks@),
            ratio_steps: self.ratio_steps@,
            pixel_steps: self.pixel_steps@,
        }
    }
}

/// The window is tiled, on the given workspace.
pub open spec fn tiled_on(w: WindowEntry, ws: Seq<char>) -> bool {
    !w.floating && w.workspace@ == ws
}

pub open spec fn has_tiled(windows: Seq<WindowEntry>, ws: Seq<char>) -> bool {
    exists|i: int| 0 <= i < windows.len() && tiled_on(#[trigger] windows[i], ws)
}

/// The indices of the tiled windows on a workspace, in order.
pub open spec fn group(windows: Seq<WindowEntry>, ws: Seq<char>) -> Seq<usize>
    decreases windows.len(),
{
    if windows.len() == 0 {
        seq![]
    } else {
        let rest = group(windows.drop_last(), ws);
        if tiled_on(windows.last(), ws) {
            rest.push((windows.len() - 1) as usize)
        } else {
            rest
        }
    }
}

/// The indices of the floating windows, in order.
pub open spec fn floats(windows: Seq<WindowEntry>) -> Seq<usize>
    decreases windows.len(),
{
    if windows.len() == 0 {
        seq![]
    } else {
        let rest = floats(windows.drop_last());
        if windows.last().floating {
            rest.push((windows.len() - 1) as usize)
        } else {
            rest
        }
    }
}

pub open spec fn entries_at<'a>(windows: Seq<WindowEntry>, indices: Seq<usize>) -> Seq<&'a WindowEntry> {
    Seq::new(indices.len(), |i: int| &windows[indices[i] as int])
}

/// `order` names the workspaces with tiled windows, each once, in order.
pub open spec fn lists_workspaces(windows: Seq<WindowEntry>, order: Seq<Seq<char>>) -> bool {
    in_order(order) && forall|ws: Seq<char>| #[trigger]
        order.contains(ws) <==> has_tiled(windows, ws)
}

/// The workspaces with tiled windows, in order.
pub open spec fn workspace_order(windows: Seq<WindowEntry>) -> Seq<Seq<char>> {
    choose|order: Seq<Seq<char>>| lists_workspaces(windows, order)
}

proof fn lemma_insertion(v: Seq<Seq<char>>, s: Seq<char>) -> (w: Seq<Seq<char>>)
    requires
        in_order(v),
    ensures
        in_order(w),
        forall|t: Seq<char>| #[trigger] w.contains(t) <==> v.contains(t) || t == s,
    decreases v.len(),
{
    if v.len() == 0 {
        let w = seq![s];
        assert forall|t: Seq<char>| #[trigger] w.contains(t) <==> v.contains(t) || t == s by {
            if t == s {
                assert(w[0] == t);
            }
        }
        w
    } else if v.last() == s {
        assert forall|t: Seq<char>| #[trigger] v.contains(t) <==> v.contains(t) || t == s by {
            if t == s {
                assert(v[v.len() - 1] == t);
            }
        }
        v
    } else if comes_before(v.last(), s) {
        let w = v.push(s);
        assert forall|i: int, j: int| 0 <= i < j < w.len() implies comes_before(
            #[trigger] w[i],
            #[trigger] w[j],
        ) by {
            if j == v.len() {
                if i < v.len() - 1 {
                    assert(comes_before(v[i], v[v.len() - 1]));
                    lemma_order_transitive(v[i], v.last(), s);
                }
            } else {
                assert(comes_before(v[i], v[j]));
            }
        }
        assert forall|t: Seq<char>| #[trigger] w.contains(t) <==> v.contains(t) || t == s by {
            if v.contains(t) {
                let i = choose|i: int| 0 <= i < v.len() && v[i] == t;
                assert(w[i] == t);
            }
            if t == s {
                assert(w[v.len() as int] == t);
            }
            if w.contains(t) {
                let i = choose|i: int| 0 <= i < w.len() && w[i] == t;
                if i < v.len() {
                    assert(v[i] == t);
                }
            }
        }
        w
    } else {
        lemma_order_total(v.last(), s);
        let head = v.drop_last();
        assert(in_order(head)) by {
            assert forall|i: int, j: int| 0 <= i < j < head.len() implies comes_before(
                #[trigger] head[i],
                #[trigger] head[j],
            ) by {
                assert(comes_before(v[i], v[j]));
            }
        }
        let inner = lemma_insertion(head, s);
        let w = inner.push(v.last());
        assert forall|i: int| 0 <= i < inner.len() implies comes_before(
            #[trigger] inner[i],
            v.last(),
        ) by {
            assert(inner.contains(inner[i]));
            if inner[i] != s {
                let k = choose|k: int| 0 <= k < head.len() && head[k] == inner[i];
                assert(comes_before(v[k], v[v.len() - 1]));
            }
        }
        assert forall|i: int, j: int| 0 <= i < j < w.len() implies comes_before(
            #[trigger] w[i],
            #[trigger] w[j],
        ) by {
            if j < inner.len() {
                assert(comes_before(inner[i], inner[j]));
            } else {
                assert(comes_before(inner[i], v.last()));
            }
        }
        assert forall|t: Seq<char>| #[trigger] w.contains(t) <==> v.contains(t) || t == s by {
            if v.contains(t) {
                let i = choose|i: int| 0 <= i < v.len() && v[i] == t;
                if i < head.len() {
                    assert(head[i] == t);
                    assert(head.contains(t));
                    assert(inner.contains(t));
                    let k = choose|k: int| 0 <= k < inner.len() && inner[k] == t;
                    assert(w[k] == t);
                } else {
                    assert(w[inner.len() as int] == t);
                }
            }
            if t == s {
                assert(inner.contains(t));
                let k = choose|k: int| 0 <= k < inner.len() && inner[k] == t;
                assert(w[k] == t);
            }
            if w.contains(t) {
                let k = choose|k: int| 0 <= k < w.len() && w[k] == t;
                if k < inner.len() {
                    assert(inner[k] == t);
                    assert(inner.contains(t));
                    if t != s {
                        let i = choose|i: int| 0 <= i < head.len() && head[i] == t;
                        assert(v[i] == t);
                    }
                } else {
                    assert(v[v.len() - 1] == t);
                }
            }
        }
        w
    }
}

proof fn lemma_has_tiled_last(windows: Seq<WindowEntry>, ws: Seq<char>)
    requires
        windows.len() > 0,
    ensures
        has_tiled(windows, ws) <==> has_tiled(windows.drop_last(), ws) || tiled_on(
            windows.last(),
            ws,
        ),
{
    let rest = windows.drop_last();
    if has_tiled(windows, ws) {
        let i = choose|i: int| 0 <= i < windows.len() && tiled_on(#[trigger] windows[i], ws);
        if i < rest.len() {
            assert(tiled_on(rest[i], ws));
        }
    }
    if has_tiled(rest, ws) {
        let i = choose|i: int| 0 <= i < rest.len() && tiled_on(#[trigger] rest[i], ws);
        assert(tiled_on(windows[i], ws));
    }
    if tiled_on(windows.last(), ws) {
        assert(tiled_on(windows[windows.len() - 1], ws));
    }
}

proof fn lemma_order_exists(windows: Seq<WindowEntry>) -> (order: Seq<Seq<char>>)
    ensures
        lists_workspaces(windows, order),
    decreases windows.len(),
{
    if windows.len() == 0 {
        let order: Seq<Seq<char>> = seq![];
        assert forall|ws: Seq<char>| #[trigger] order.contains(ws) <==> has_tiled(
            windows,
            ws,
        ) by {}
        order
    } else {
        let rest = lemma_order_exists(windows.drop_last());
        let order = if windows.last().floating {
            rest
        } else {
            lemma_insertion(rest, windows.last().workspace@)
        };
        assert forall|ws: Seq<char>| #[trigger] order.contains(ws) <==> has_tiled(
            windows,
            ws,
        ) by {
            lemma_has_tiled_last(windows, ws);
            assert(rest.contains(ws) <==> has_tiled(windows.drop_last(), ws));
        }
        order
    }
}

proof fn lemma_order_unique(a: Seq<Seq<char>>, b: Seq<Seq<char>>)
    requires
        in_order(a),
        in_order(b),
        forall|s: Seq<char>| #![auto] a.contains(s) <==> b.contains(s),
    ensures
        a == b,
    decreases a.len(),
{
    if a.len() == 0 {
        if b.len() > 0 {
            assert(b.contains(b[0]));
        }
        assert(a =~= b);
    } else {
        assert(a.contains(a[0]));
        assert(b.len() > 0);
        let x = a.last();
        let y = b.last();
        assert(x == y) by {
            assert(a[a.len() - 1] == x && b[b.len() - 1] == y);
            assert(a.contains(x) && b.contains(y));
            assert(b.contains(x) && a.contains(y));
            let i = choose|i: int| 0 <= i < b.len() && b[i] == x;
            let j = choose|j: int| 0 <= j < a.len() && a[j] == y;
            if i < b.len() - 1 && j < a.len() - 1 {
                assert(comes_before(b[i], b[b.len() - 1]));
                assert(comes_before(a[j], a[a.len() - 1]));
                lemma_order_total(x, y);
            }
        }
        let a0 = a.drop_last();
        let b0 = b.drop_last();
        assert forall|s: Seq<char>| #![auto] a0.contains(s) <==> b0.contains(s) by {
            lemma_drop_last_contains(a, s);
            lemma_drop_last_contains(b, s);
        }
        assert(in_order(a0)) by {
            assert forall|i: int, j: int| 0 <= i < j < a0.len() implies comes_before(
                #[trigger] a0[i],
                #[trigger] a0[j],
            ) by {
                assert(comes_before(a[i], a[j]));
            }
        }
        assert(in_order(b0)) by {
            assert forall|i: int, j: int| 0 <= i < j < b0.len() implies comes_before(
                #[trigger] b0[i],
                #[trigger] b0[j],
            ) by {
                assert(comes_before(b[i], b[j]));
            }
        }
        lemma_order_unique(a0, b0);
        assert(a =~= a0.push(x));
        assert(b =~= b0.push(y));
    }
}

pub(crate) proof fn lemma_drop_last_contains(a: Seq<Seq<char>>, s: Seq<char>)
    requires
        in_order(a),
        a.len() > 0,
    ensures
        a.drop_last().contains(s) <==> a.contains(s) && s != a.last(),
{
    let a0 = a.drop_last();
    if a0.contains(s) {
        let i = choose|i: int| 0 <= i < a0.len() && a0[i] == s;
        assert(a[i] == s);
        assert(comes_before(a[i], a[a.len() - 1]));
        lemma_order_total(a[i], a[i]);
    }
    if a.contains(s) && s != a.last() {
        let i = choose|i: int| 0 <= i < a.len() && a[i] == s;
        assert(a0[i] == s);
    }
}

/// The order of the workspaces is what it says.
pub proof fn lemma_workspace_order(windows: Seq<WindowEntry>)
    ensures
        lists_workspaces(windows, workspace_order(windows)),
        forall|order: Seq<Seq<char>>| #[trigger]
            lists_workspaces(windows, order) ==> order == workspace_order(windows),
{
    let w = lemma_order_exists(windows);
    assert(lists_workspaces(windows, w));
    let chosen = workspace_order(windows);
    assert forall|order: Seq<Seq<char>>| #[trigger]
        lists_workspaces(windows, order) implies order == workspace_order(windows) by {
        assert forall|s: Seq<char>| #![auto] order.contains(s) <==> chosen.contains(s) by {
            assert(order.contains(s) <==> has_tiled(windows, s));
            assert(chosen.contains(s) <==> has_tiled(windows, s));
        }
        lemma_order_unique(order, chosen);
    }
}

/// The workspaces with tiled windows, in order.
fn workspaces_in_order(windows: &Vec<WindowEntry>) -> (r: Vec<String>)
    ensures
        texts(r@) == workspace_order(windows@),
{
    let mut out: Vec<String> = Vec::new();
    for i in 0..windows.len()
        invariant
            lists_workspaces(windows@.take(i as int), texts(out@)),
    {
        let ghost before = texts(out@);
        proof {
            assert(windows@.take(i as int + 1).drop_last() =~= windows@.take(i as int));
            assert(windows@.take(i as int + 1).last() == windows@[i as int]);
        }
        if !windows[i].floating {
            insert_in_order(&mut out, windows[i].workspace.as_str());
        }
        proof {
            let next = windows@.take(i as int + 1);
            assert forall|ws: Seq<char>| #[trigger] texts(out@).contains(ws) <==> has_tiled(
                next,
                ws,
            ) by {
                lemma_has_tiled_last(next, ws);
                assert(before.contains(ws) <==> has_tiled(windows@.take(i as int), ws));
            }
        }
    }
    proof {
        assert(windows@.take(windows@.len() as int) =~= windows@);
        lemma_workspace_order(windows@);
    }
    out
}

pub proof fn lemma_group_indices(windows: Seq<WindowEntry>, ws: Seq<char>)
    requires
        windows.len() <= usize::MAX,
    ensures
        forall|i: int|
            0 <= i < group(windows, ws).len() ==> (#[trigger] group(windows, ws)[i])
                < windows.len(),
    decreases windows.len(),
{
    if windows.len() > 0 {
        let rest = group(windows.drop_last(), ws);
        lemma_group_indices(windows.drop_last(), ws);
        assert forall|i: int| 0 <= i < group(windows, ws).len() implies (#[trigger] group(
            windows,
            ws,
        )[i]) < windows.len() by {
            if i < rest.len() {
                assert(group(windows, ws)[i] == rest[i]);
            }
        }
    }
}

pub proof fn lemma_float_indices(windows: Seq<WindowEntry>)
    requires
        windows.len() <= usize::MAX,
    ensures
        forall|i: int|
            0 <= i < floats(windows).len() ==> (#[trigger] floats(windows)[i]) < windows.len(),
    decreases windows.len(),
{
    if windows.len() > 0 {
        let rest = floats(windows.drop_last());
        lemma_float_indices(windows.drop_last());
        assert forall|i: int| 0 <= i < floats(windows).len() implies (#[trigger] floats(
            windows,
        )[i]) < windows.len() by {
            if i < rest.len() {
                assert(floats(windows)[i] == rest[i]);
            }
        }
    }
}

fn group_indices(windows: &Vec<WindowEntry>, ws: &str) -> (r: Vec<usize>)
    ensures
        r@ == group(windows@, ws@),
        forall|i: int| 0 <= i < r@.len() ==> (#[trigger] r@[i]) < windows@.len(),
{
    let mut out: Vec<usize> = Vec::new();
    for i in 0..windows.len()
        invariant
            out@ == group(windows@.take(i as int), ws@),
    {
        proof {
            assert(windows@.take(i as int + 1).drop_last() =~= windows@.take(i as int));
            assert(windows@.take(i as int + 1).last() == windows@[i as int]);
        }
        if !windows[i].floating && str_eq(windows[i].workspace.as_str(), ws) {
            out.push(i);
        }
    }
    proof {
        assert(windows@.take(windows@.len() as int) =~= windows@);
        let n: usize = windows.len();
        lemma_group_indices(windows@, ws@);
    }
    out
}

fn floating_indices(windows: &Vec<WindowEntry>) -> (r: Vec<usize>)
    ensures
        r@ == floats(windows@),
        forall|i: int| 0 <= i < r@.len() ==> (#[trigger] r@[i]) < windows@.len(),
{
    let mut out: Vec<usize> = Vec::new();
    let n: usize = windows.len();
    for i in 0..n
        invariant
            n == windows@.len(),
            out@ == floats(windows@.take(i as int)),
    {
        proof {
            assert(windows@.take(i as int + 1).drop_last() =~= windows@.take(i as int));
            assert(windows@.take(i as int + 1).last() == windows@[i as int]);
        }
        if windows[i].floating {
            out.push(i);
        }
    }
    proof {
        assert(windows@.take(windows@.len() as int) =~= windows@);
        lemma_float_indices(windows@);
    }
    out
}

fn entries_of<'a>(windows: &'a Vec<WindowEntry>, indices: &Vec<usize>) -> (r: Vec<&'a WindowEntry>)
    requires
        forall|i: int| 0 <= i < indices@.len() ==> (#[trigger] indices@[i]) < windows@.len(),
    ensures
        r@ == entries_at(windows@, indices@),
{
    let mut out: Vec<&'a WindowEntry> = Vec::new();
    for i in 0..indices.len()
        invariant
            forall|i: int| 0 <= i < indices@.len() ==> (#[trigger] indices@[i]) < windows@.len(),
            out@ == entries_at(windows@, indices@).take(i as int),
    {
        let k: usize = indices[i];
        out.push(&windows[k]);
        assert(out@ =~= entries_at(windows@, indices@).take(i as int + 1));
    }
    assert(out@ =~= entries_at(windows@, indices@));
    out
}

/// The tree of the tiled windows on a workspace, if they have one.
pub open spec fn tree_for(windows: Seq<WindowEntry>, ws: Seq<char>) -> Option<BspNode> {
    workspace_tree(entries_at(windows, group(windows, ws)), group(windows, ws))
}

/// The master plan of the tiled windows on a workspace, if they have one.
pub open spec fn master_for(windows: Seq<WindowEntry>, ws: Seq<char>) -> Option<MasterPlanView> {
    workspace_plan(entries_at(windows, group(windows, ws)), group(windows, ws))
}

/// The geometry of the tiled windows on a workspace is within range.
pub open spec fn group_fits(windows: Seq<WindowEntry>, ws: Seq<char>) -> bool {
    geometry_fits(entries_at(windows, group(windows, ws)), group(windows, ws))
}

/// The geometry on every workspace is within range.
pub open spec fn session_fits(windows: Seq<WindowEntry>) -> bool {
    forall|ws: Seq<char>| has_tiled(windows, ws) ==> #[trigger] group_fits(windows, ws)
}

/// Whether layouts can be computed for a session at all: on every workspace,
/// edges, spans and gaps fit the coordinate type.
pub fn session_in_range(session: &SessionFile) -> (r: bool)
    ensures
        r == session_fits(session.windows@),
{
    let windows = &session.windows;
    let order = workspaces_in_order(windows);
    proof {
        lemma_workspace_order(windows@);
    }
    for k in 0..order.len()
        invariant
            lists_workspaces(windows@, texts(order@)),
            windows == &session.windows,
            forall|j: int| 0 <= j < k ==> group_fits(windows@, (#[trigger] order@[j])@),
    {
        let indices = group_indices(windows, order[k].as_str());
        let entries = entries_of(windows, &indices);
        if !geometry_in_range(entries.as_slice(), indices.as_slice()) {
            proof {
                assert(texts(order@)[k as int] == order@[k as int]@);
                assert(texts(order@).contains(order@[k as int]@));
                assert(has_tiled(windows@, order@[k as int]@));
                assert(!group_fits(windows@, order@[k as int]@));
            }
            return false;
        }
    }
    proof {
        assert forall|ws: Seq<char>| has_tiled(windows@, ws) implies #[trigger] group_fits(
            windows@,
            ws,
        ) by {
            assert(texts(order@).contains(ws));
            let j = choose|j: int| 0 <= j < texts(order@).len() && texts(order@)[j] == ws;
            assert(group_fits(windows@, order@[j]@));
        }
    }
    true
}

/// A plan's steps as tasks.
pub open spec fn bsp_tasks(steps: Seq<RestoreStep>) -> Seq<TaskView> {
    Seq::new(
        steps.len(),
        |i: int|
            TaskView::Bsp {
                idx: steps[i].window_idx,
                focus_idx: steps[i].focus_idx,
                preselect: steps[i].preselect,
                first: i == 0,
            },
    )
}

/// Windows restored one by one, in the same role.
pub open spec fn window_tasks(indices: Seq<usize>, role: MasterRole) -> Seq<TaskView> {
    Seq::new(indices.len(), |i: int| TaskView::Window { idx: indices[i], role })
}

/// A workspace's master area: set it up, open its first window, open and
/// promote the others, then open the stack.
pub open spec fn master_tasks(ws: Seq<char>, plan: MasterPlanView) -> Seq<TaskView> {
    let enter = TaskView::EnterMaster {
        workspace: ws,
        orientation: plan.orientation,
        mfact: plan.mfact,
    };
    let masters = Seq::new(
        plan.master_indices.len(),
        |i: int|
            TaskView::Window {
                idx: plan.master_indices[i],
                role: if i == 0 {
                    MasterRole::Plain
                } else {
                    MasterRole::Promote
                },
            },
    );
    seq![enter] + masters + window_tasks(plan.stack_indices, MasterRole::Plain)
}

/// The BSP tasks of the given workspaces.
pub open spec fn planned(windows: Seq<WindowEntry>, order: Seq<Seq<char>>) -> Seq<TaskView>
    decreases order.len(),
{
    if order.len() == 0 {
        seq![]
    } else {
        planned(windows, order.drop_last()) + match tree_for(windows, order.last()) {
            Some(tree) => bsp_tasks(plan_steps(tree)),
            None => seq![],
        }
    }
}

/// The split ratios of the given workspaces that a window can reach.
pub open spec fn planned_ratios(windows: Seq<WindowEntry>, order: Seq<Seq<char>>) -> Seq<
    SplitRatioStep,
>
    decreases order.len(),
{
    if order.len() == 0 {
        seq![]
    } else {
        planned_ratios(windows, order.drop_last()) + match tree_for(windows, order.last()) {
            Some(tree) => ratio_steps_of(tree),
            None => seq![],
        }
    }
}

/// The split ratios of the given workspaces that only a resize can reach.
pub open spec fn planned_pixels(windows: Seq<WindowEntry>, order: Seq<Seq<char>>) -> Seq<
    PixelRatioStep,
>
    decreases order.len(),
{
    if order.len() == 0 {
        seq![]
    } else {
        planned_pixels(windows, order.drop_last()) + match tree_for(windows, order.last()) {
            Some(tree) => pixel_steps_of(tree),
            None => seq![],
        }
    }
}

/// The windows of those workspaces that have no tree.
pub open spec fn unplanned(windows: Seq<WindowEntry>, order: Seq<Seq<char>>) -> Seq<usize>
    decreases order.len(),
{
    if order.len() == 0 {
        seq![]
    } else {
        unplanned(windows, order.drop_last()) + match tree_for(windows, order.last()) {
            Some(_) => seq![],
            None => group(windows, order.last()),
        }
    }
}

/// The master tasks of the given workspaces.
pub open spec fn mastered(windows: Seq<WindowEntry>, order: Seq<Seq<char>>) -> Seq<TaskView>
    decreases order.len(),
{
    if order.len() == 0 {
        seq![]
    } else {
        mastered(windows, order.drop_last()) + match master_for(windows, order.last()) {
            Some(plan) => master_tasks(order.last(), plan),
            None => seq![],
        }
    }
}

/// The windows of those workspaces that have no master plan.
pub open spec fn unmastered(windows: Seq<WindowEntry>, order: Seq<Seq<char>>) -> Seq<usize>
    decreases order.len(),
{
    if order.len() == 0 {
        seq![]
    } else {
        unmastered(windows, order.drop_last()) + match master_for(windows, order.last()) {
            Some(_) => seq![],
            None => group(windows, order.last()),
        }
    }
}

/// The windows one by one, in the order in which they were saved.
pub open spec fn simple_plan(windows: Seq<WindowEntry>) -> RestorePlanView {
    RestorePlanView {
        tasks: Seq::new(
            windows.len(),
            |i: int| TaskView::Window { idx: i as usize, role: MasterRole::Outside },
        ),
        ratio_steps: seq![],
        pixel_steps: seq![],
    }
}

/// BSP placement for the workspaces that have a tree, then their corrections;
/// after that the other tiled windows, and the floating ones last.
pub open spec fn dwindle_plan(windows: Seq<WindowEntry>) -> RestorePlanView {
    let order = workspace_order(windows);
    RestorePlanView {
        tasks: planned(windows, order) + seq![
            TaskView::Ratios,
            TaskView::Pixels,
            TaskView::Sizes,
            TaskView::Fullscreen,
        ] + window_tasks(unplanned(windows, order), MasterRole::Outside) + window_tasks(
            floats(windows),
            MasterRole::Outside,
        ),
        ratio_steps: planned_ratios(windows, order),
        pixel_steps: planned_pixels(windows, order),
    }
}

/// Master areas for the workspaces that have a plan; after that the other
/// tiled windows, and the floating ones last.
pub open spec fn master_plan(windows: Seq<WindowEntry>) -> RestorePlanView {
    let order = workspace_order(windows);
    RestorePlanView {
        tasks: mastered(windows, order) + window_tasks(
            unmastered(windows, order),
            MasterRole::Outside,
        ) + window_tasks(floats(windows), MasterRole::Outside),
        ratio_steps: seq![],
        pixel_steps: seq![],
    }
}

fn add_task(v: &mut Vec<Task>, task: Task)
    ensures
        task_views(final(v)@) == task_views(old(v)@).push(task@),
{
    v.push(task);
    assert(task_views(v@) =~= task_views(old(v)@).push(task@));
}

fn add_windows(v: &mut Vec<Task>, indices: &Vec<usize>, role: MasterRole)
    ensures
        task_views(final(v)@) == task_views(old(v)@) + window_tasks(indices@, role),
{
    let ghost before = task_views(v@);
    for i in 0..indices.len()
        invariant
            task_views(v@) == before + window_tasks(indices@, role).take(i as int),
    {
        add_task(v, Task::Window { idx: indices[i], role });
        assert(task_views(v@) =~= before + window_tasks(indices@, role).take(i as int + 1));
    }
    assert(task_views(v@) =~= before + window_tasks(indices@, role));
}

fn add_steps(v: &mut Vec<Task>, steps: &Vec<RestoreStep>)
    ensures
        task_views(final(v)@) == task_views(old(v)@) + bsp_tasks(steps@),
{
    let ghost before = task_views(v@);
    for i in 0..steps.len()
        invariant
            task_views(v@) == before + bsp_tasks(steps@).take(i as int),
    {
        let step = steps[i];
        add_task(
            v,
            Task::Bsp {
                idx: step.window_idx,
                focus_idx: step.focus_idx,
                preselect: step.preselect,
                first: i == 0,
            },
        );
        assert(task_views(v@) =~= before + bsp_tasks(steps@).take(i as int + 1));
    }
    assert(task_views(v@) =~= before + bsp_tasks(steps@));
}

fn add_master(v: &mut Vec<Task>, ws: &String, plan: &MasterPlan)
    ensures
        task_views(final(v)@) == task_views(old(v)@) + master_tasks(ws@, plan@),
{
    let ghost before = task_views(v@);
    add_task(
        v,
        Task::EnterMaster {
            workspace: ws.clone(),
            orientation: plan.orientation,
            mfact: plan.mfact,
        },
    );
    let ghost whole = master_tasks(ws@, plan@);
    assert(task_views(v@) =~= before + whole.take(1));
    for i in 0..plan.master_indices.len()
        invariant
            whole == master_tasks(ws@, plan@),
            task_views(v@) == before + whole.take(i as int + 1),
    {
        let role = if i == 0 {
            MasterRole::Plain
        } else {
            MasterRole::Promote
        };
        add_task(v, Task::Window { idx: plan.master_indices[i], role });
        assert(task_views(v@) =~= before + whole.take(i as int + 2));
    }
    add_windows(v, &plan.stack_indices, MasterRole::Plain);
    assert(task_views(v@) =~= before + whole);
}

fn extend_indices(v: &mut Vec<usize>, more: &Vec<usize>)
    ensures
        final(v)@ == old(v)@ + more@,
{
    for i in 0..more.len()
        invariant
            v@ == old(v)@ + more@.take(i as int),
    {
        v.push(more[i]);
        assert(v@ =~= old(v)@ + more@.take(i as int + 1));
    }
    assert(v@ =~= old(v)@ + more@);
}

fn extend_ratios(v: &mut Vec<SplitRatioStep>, more: &Vec<SplitRatioStep>)
    ensures
        final(v)@ == old(v)@ + more@,
{
    for i in 0..more.len()
        invariant
            v@ == old(v)@ + more@.take(i as int),
    {
        v.push(more[i]);
        assert(v@ =~= old(v)@ + more@.take(i as int + 1));
    }
    assert(v@ =~= old(v)@ + more@);
}

fn extend_pixels(v: &mut Vec<PixelRatioStep>, more: &Vec<PixelRatioStep>)
    ensures
        final(v)@ == old(v)@ + more@,
{
    for i in 0..more.len()
        invariant
            v@ == old(v)@ + more@.take(i as int),
    {
        v.push(more[i]);
        assert(v@ =~= old(v)@ + more@.take(i as int + 1));
    }
    assert(v@ =~= old(v)@ + more@);
}

/// Restore the windows one by one, without regard to the layout.
pub fn build_simple_plan(session: &SessionFile) -> (r: RestorePlan)
    ensures
        r@ == simple_plan(session.windows@),
{
    let mut tasks: Vec<Task> = Vec::new();
    let ghost whole = simple_plan(session.windows@).tasks;
    assert(task_views(tasks@) =~= whole.take(0));
    for i in 0..session.windows.len()
        invariant
            whole == simple_plan(session.windows@).tasks,
            task_views(tasks@) == whole.take(i as int),
    {
        add_task(&mut tasks, Task::Window { idx: i, role: MasterRole::Outside });
        assert(task_views(tasks@) =~= whole.take(i as int + 1));
    }
    let r = RestorePlan { tasks, ratio_steps: Vec::new(), pixel_steps: Vec::new() };
    assert(r@ =~= simple_plan(session.windows@));
    r
}

/// Dwindle restore: BSP inference, preselect-based placement, then
/// splitratio application and convergence.
pub fn build_dwindle_plans(session: &SessionFile) -> (r: RestorePlan)
    requires
        session_fits(session.windows@),
    ensures
        r@ == dwindle_plan(session.windows@),
{
    let windows = &session.windows;
    let floating = floating_indices(windows);
    let order = workspaces_in_order(windows);
    proof {
        lemma_workspace_order(windows@);
    }
    let ghost names = workspace_order(windows@);
    let mut tasks: Vec<Task> = Vec::new();
    let mut ratio_steps: Vec<SplitRatioStep> = Vec::new();
    let mut pixel_steps: Vec<PixelRatioStep> = Vec::new();
    let mut fallback: Vec<usize> = Vec::new();
    assert(task_views(tasks@) =~= planned(windows@, names.take(0)));
    for k in 0..order.len()
        invariant
            session_fits(windows@),
            lists_workspaces(windows@, names),
            texts(order@) == names,
            task_views(tasks@) == planned(windows@, names.take(k as int)),
            ratio_steps@ == planned_ratios(windows@, names.take(k as int)),
            pixel_steps@ == planned_pixels(windows@, names.take(k as int)),
            fallback@ == unplanned(windows@, names.take(k as int)),
    {
        let ws = &order[k];
        let indices = group_indices(windows, ws.as_str());
        let entries = entries_of(windows, &indices);
        proof {
            assert(names.take(k as int + 1).drop_last() =~= names.take(k as int));
            assert(names[k as int] == ws@);
            assert(names.contains(ws@));
            assert(has_tiled(windows@, ws@));
            assert(group_fits(windows@, ws@));
        }
        match dwindle::build_workspace_plan(entries.as_slice(), indices.as_slice()) {
            Some(plan) => {
                add_steps(&mut tasks, &plan.steps);
                extend_ratios(&mut ratio_steps, &plan.ratio_steps);
                extend_pixels(&mut pixel_steps, &plan.pixel_ratio_steps);
                assert(fallback@ + Seq::<usize>::empty() =~= fallback@);
            },
            None => {
                extend_indices(&mut fallback, &indices);
                assert(task_views(tasks@) + Seq::<TaskView>::empty() =~= task_views(tasks@));
                assert(ratio_steps@ + Seq::<SplitRatioStep>::empty() =~= ratio_steps@);
                assert(pixel_steps@ + Seq::<PixelRatioStep>::empty() =~= pixel_steps@);
            },
        }
    }
    assert(names.take(order@.len() as int) =~= names);
    add_task(&mut tasks, Task::Ratios);
    add_task(&mut tasks, Task::Pixels);
    add_task(&mut tasks, Task::Sizes);
    add_task(&mut tasks, Task::Fullscreen);
    add_windows(&mut tasks, &fallback, MasterRole::Outside);
    add_windows(&mut tasks, &floating, MasterRole::Outside);
    let r = RestorePlan { tasks, ratio_steps, pixel_steps };
    assert(r@ =~= dwindle_plan(windows@));
    r
}

/// Master layout restore: infer master/stack split, set orientation and
/// mfact, open master windows first then stack windows.
pub fn build_master_plans(session: &SessionFile) -> (r: RestorePlan)
    requires
        session_fits(session.windows@),
    ensures
        r@ == master_plan(session.windows@),
{
    let windows = &session.windows;
    let floating = floating_indices(windows);
    let order = workspaces_in_order(windows);
    proof {
        lemma_workspace_order(windows@);
    }
    let ghost names = workspace_order(windows@);
    let mut tasks: Vec<Task> = Vec::new();
    let mut fallback: Vec<usize> = Vec::new();
    assert(task_views(tasks@) =~= mastered(windows@, names.take(0)));
    for k in 0..order.len()
        invariant
            session_fits(windows@),
            lists_workspaces(windows@, names),
            texts(order@) == names,
            task_views(tasks@) == mastered(windows@, names.take(k as int)),
            fallback@ == unmastered(windows@, names.take(k as int)),
    {
        let ws = &order[k];
        let indices = group_indices(windows, ws.as_str());
        let entries = entries_of(windows, &indices);
        proof {
            assert(names.take(k as int + 1).drop_last() =~= names.take(k as int));
            assert(names[k as int] == ws@);
            assert(names.contains(ws@));
            assert(has_tiled(windows@, ws@));
            assert(group_fits(windows@, ws@));
        }
        match master::build_workspace_plan(entries.as_slice(), indices.as_slice()) {
            Some(plan) => {
                add_master(&mut tasks, ws, &plan);
                assert(fallback@ + Seq::<usize>::empty() =~= fallback@);
            },
            None => {
                extend_indices(&mut fallback, &indices);
                assert(task_views(tasks@) + Seq::<TaskView>::empty() =~= task_views(tasks@));
            },
        }
    }
    assert(names.take(order@.len() as int) =~= names);
    add_windows(&mut tasks, &fallback, MasterRole::Outside);
    add_windows(&mut tasks, &floating, MasterRole::Outside);
    let r = RestorePlan { tasks, ratio_steps: Vec::new(), pixel_steps: Vec::new() };
    assert(r@ =~= master_plan(windows@));
    r
}

} // verus!
