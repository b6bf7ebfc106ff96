//! What the steps of a dwindle plan build.
use super::dwindle::{
    fill_steps, leaves, leftmost, plan_steps, split_step, tree_of, BspNode, PreselDir, RestoreStep,
    SplitDir,
};
use super::laws::law_tree_has_every_window;
use super::{idx_of, IndexedWindow, Ratio, Rect};
use vstd::prelude::*;

verus! {

/// The split that a preselected side makes.
pub open spec fn dir_of(presel: PreselDir) -> SplitDir {
    match presel {
        PreselDir::Right => SplitDir::Horizontal,
        PreselDir::Bottom => SplitDir::Vertical,
    }
}

/// How a new split divides its cell.
pub open spec fn half() -> Ratio {
    Ratio { part: 1, whole: 2 }
}

/// The compositor's rule: a new window splits the focused window's cell, and
/// takes the preselected side of it.
pub open spec fn with_window(
    node: BspNode,
    focus: usize,
    presel: PreselDir,
    window: usize,
) -> BspNode
    decreases node,
{
    match node {
        BspNode::Leaf { idx } => if idx == focus {
            BspNode::Split {
                dir: dir_of(presel),
                ratio: half(),
                first: Box::new(BspNode::Leaf { idx }),
                second: Box::new(BspNode::Leaf { idx: window }),
            }
        } else {
            node
        },
        BspNode::Split { dir, ratio, first, second } => BspNode::Split {
            dir,
            ratio,
            first: Box::new(with_window(*first, focus, presel, window)),
            second: Box::new(with_window(*second, focus, presel, window)),
        },
    }
}

/// The tree after a step: without a window to focus or a side to take, nothing
/// is known of it, and the tree is left as it was.
pub open spec fn stepped(node: BspNode, step: RestoreStep) -> BspNode {
    match (step.focus_idx, step.preselect) {
        (Some(focus), Some(presel)) => with_window(node, focus, presel, step.window_idx),
        _ => node,
    }
}

/// The tree after the steps, taken one by one.
pub open spec fn replayed(node: BspNode, steps: Seq<RestoreStep>) -> BspNode
    decreases steps.len(),
{
    if steps.len() == 0 {
        node
    } else {
        replayed(stepped(node, steps[0]), steps.skip(1))
    }
}

/// The same splits, each dividing its cell in half.
pub open spec fn even(node: BspNode) -> BspNode
    decreases node,
{
    match node {
        BspNode::Leaf { idx } => node,
        BspNode::Split { dir, first, second, .. } => BspNode::Split {
            dir,
            ratio: half(),
            first: Box::new(even(*first)),
            second: Box::new(even(*second)),
        },
    }
}

proof fn lemma_even_leaves(node: BspNode)
    ensures
        leaves(even(node)) == leaves(node),
    decreases node,
{
    match node {
        BspNode::Leaf { .. } => {},
        BspNode::Split { first, second, .. } => {
            lemma_even_leaves(*first);
            lemma_even_leaves(*second);
        },
    }
}

proof fn lemma_leftmost_is_leaf(node: BspNode)
    ensures
        leaves(node).contains(leftmost(node)),
    decreases node,
{
    match node {
        BspNode::Leaf { idx } => {
            assert(leaves(node)[0] == idx);
        },
        BspNode::Split { first, second, .. } => {
            lemma_leftmost_is_leaf(*first);
            lemma_side_leaves(*first, *second, leftmost(node));
        },
    }
}

/// A split has the leaves of both sides.
pub(crate) proof fn lemma_side_leaves(first: BspNode, second: BspNode, idx: usize)
    ensures
        (leaves(first) + leaves(second)).contains(idx) <==> leaves(first).contains(idx) || leaves(
            second,
        ).contains(idx),
{
    let (a, b) = (leaves(first), leaves(second));
    if a.contains(idx) {
        let i = choose|i: int| 0 <= i < a.len() && a[i] == idx;
        assert((a + b)[i] == idx);
    }
    if b.contains(idx) {
        let i = choose|i: int| 0 <= i < b.len() && b[i] == idx;
        assert((a + b)[a.len() + i] == idx);
    }
}

/// A window that is not in the tree cannot be focused there.
proof fn lemma_absent_focus(node: BspNode, focus: usize, presel: PreselDir, window: usize)
    requires
        !leaves(node).contains(focus),
    ensures
        with_window(node, focus, presel, window) == node,
    decreases node,
{
    match node {
        BspNode::Leaf { idx } => {
            assert(leaves(node)[0] == idx);
        },
        BspNode::Split { first, second, .. } => {
            lemma_side_leaves(*first, *second, focus);
            lemma_absent_focus(*first, focus, presel, window);
            lemma_absent_focus(*second, focus, presel, window);
        },
    }
}

/// No step focuses a window of the tree.
spec fn is_elsewhere(steps: Seq<RestoreStep>, node: BspNode) -> bool {
    forall|k: int|
        0 <= k < steps.len() ==> ((#[trigger] steps[k]).focus_idx matches Some(focus)
            ==> !leaves(node).contains(focus))
}

/// Steps that focus windows of one side of a split only change that side.
proof fn lemma_replay_first(
    dir: SplitDir,
    ratio: Ratio,
    first: BspNode,
    second: BspNode,
    steps: Seq<RestoreStep>,
)
    requires
        is_elsewhere(steps, second),
    ensures
        replayed(
            BspNode::Split { dir, ratio, first: Box::new(first), second: Box::new(second) },
            steps,
        ) == (BspNode::Split {
            dir,
            ratio,
            first: Box::new(replayed(first, steps)),
            second: Box::new(second),
        }),
    decreases steps.len(),
{
    if steps.len() > 0 {
        let s = steps[0];
        if let (Some(focus), Some(presel)) = (s.focus_idx, s.preselect) {
            lemma_absent_focus(second, focus, presel, s.window_idx);
        }
        assert(is_elsewhere(steps.skip(1), second)) by {
            assert forall|k: int| 0 <= k < steps.skip(1).len() implies ((#[trigger] steps.skip(
                1,
            )[k]).focus_idx matches Some(focus) ==> !leaves(second).contains(focus)) by {
                assert(steps.skip(1)[k] == steps[k + 1]);
            }
        }
        lemma_replay_first(dir, ratio, stepped(first, s), second, steps.skip(1));
    }
}

proof fn lemma_replay_second(
    dir: SplitDir,
    ratio: Ratio,
    first: BspNode,
    second: BspNode,
    steps: Seq<RestoreStep>,
)
    requires
        is_elsewhere(steps, first),
    ensures
        replayed(
            BspNode::Split { dir, ratio, first: Box::new(first), second: Box::new(second) },
            steps,
        ) == (BspNode::Split {
            dir,
            ratio,
            first: Box::new(first),
            second: Box::new(replayed(second, steps)),
        }),
    decreases steps.len(),
{
    if steps.len() > 0 {
        let s = steps[0];
        if let (Some(focus), Some(presel)) = (s.focus_idx, s.preselect) {
            lemma_absent_focus(first, focus, presel, s.window_idx);
        }
        assert(is_elsewhere(steps.skip(1), first)) by {
            assert forall|k: int| 0 <= k < steps.skip(1).len() implies ((#[trigger] steps.skip(
                1,
            )[k]).focus_idx matches Some(focus) ==> !leaves(first).contains(focus)) by {
                assert(steps.skip(1)[k] == steps[k + 1]);
            }
        }
        lemma_replay_second(dir, ratio, first, stepped(second, s), steps.skip(1));
    }
}

proof fn lemma_replay_concat(node: BspNode, a: Seq<RestoreStep>, b: Seq<RestoreStep>)
    ensures
        replayed(node, a + b) == replayed(replayed(node, a), b),
    decreases a.len(),
{
    if a.len() == 0 {
        assert(a + b =~= b);
    } else {
        assert((a + b).skip(1) =~= a.skip(1) + b);
        lemma_replay_concat(stepped(node, a[0]), a.skip(1), b);
    }
}

/// Filling a subtree focuses its own windows only.
proof fn lemma_fill_stays_inside(node: BspNode)
    ensures
        forall|k: int|
            0 <= k < fill_steps(node).len() ==> ((#[trigger] fill_steps(node)[k]).focus_idx matches Some(
                focus,
            ) ==> leaves(node).contains(focus)),
    decreases node,
{
    match node {
        BspNode::Leaf { .. } => {},
        BspNode::Split { dir, first, second, .. } => {
            lemma_fill_stays_inside(*first);
            lemma_fill_stays_inside(*second);
            lemma_leftmost_is_leaf(*first);
            let f = fill_steps(*first);
            let g = fill_steps(*second);
            let all = fill_steps(node);
            assert forall|k: int| 0 <= k < all.len() implies ((#[trigger] all[k]).focus_idx matches Some(
                focus,
            ) ==> leaves(node).contains(focus)) by {
                if let Some(focus) = all[k].focus_idx {
                    lemma_side_leaves(*first, *second, focus);
                    if k == 0 {
                        assert(all[0] == split_step(dir, *first, *second));
                    } else if k < 1 + f.len() {
                        assert(all[k] == f[k - 1]);
                    } else {
                        assert(all[k] == g[k - 1 - f.len()]);
                    }
                }
            }
        },
    }
}

/// Filling a subtree focuses no window of a tree that shares none with it.
proof fn lemma_fill_is_elsewhere(node: BspNode, other: BspNode)
    requires
        forall|idx: usize| leaves(node).contains(idx) ==> !#[trigger] leaves(other).contains(idx),
    ensures
        is_elsewhere(fill_steps(node), other),
{
    lemma_fill_stays_inside(node);
}

pub(crate) proof fn lemma_sides_are_distinct(a: Seq<usize>, b: Seq<usize>)
    requires
        (a + b).no_duplicates(),
    ensures
        a.no_duplicates(),
        b.no_duplicates(),
        forall|idx: usize| #![auto] a.contains(idx) ==> !b.contains(idx),
{
    let s = a + b;
    assert forall|i: int, j: int| 0 <= i < a.len() && 0 <= j < a.len() && i != j implies a[i]
        != a[j] by {
        assert(s[i] == a[i] && s[j] == a[j]);
    }
    assert forall|i: int, j: int| 0 <= i < b.len() && 0 <= j < b.len() && i != j implies b[i]
        != b[j] by {
        assert(s[a.len() + i] == b[i] && s[a.len() + j] == b[j]);
    }
    assert forall|idx: usize| #![auto] a.contains(idx) implies !b.contains(idx) by {
        if b.contains(idx) {
            let i = choose|i: int| 0 <= i < a.len() && a[i] == idx;
            let j = choose|j: int| 0 <= j < b.len() && b[j] == idx;
            assert(s[i] == s[a.len() + j]);
        }
    }
}

/// Filling a subtree whose leftmost window is open makes all of its splits.
proof fn lemma_fill_rebuilds(node: BspNode)
    requires
        leaves(node).no_duplicates(),
    ensures
        replayed(BspNode::Leaf { idx: leftmost(node) }, fill_steps(node)) == even(node),
    decreases node,
{
    match node {
        BspNode::Leaf { .. } => {},
        BspNode::Split { dir, first, second, .. } => {
            let (a, b) = (*first, *second);
            lemma_sides_are_distinct(leaves(a), leaves(b));
            lemma_fill_rebuilds(a);
            lemma_fill_rebuilds(b);
            lemma_even_leaves(a);
            let step = split_step(dir, a, b);
            let f = fill_steps(a);
            let g = fill_steps(b);
            let root = BspNode::Leaf { idx: leftmost(a) };
            let x = BspNode::Leaf { idx: leftmost(b) };
            lemma_replay_concat(root, seq![step] + f, g);
            lemma_replay_concat(root, seq![step], f);
            let split = stepped(root, step);
            assert(seq![step].skip(1) =~= seq![]);
            assert(replayed(split, seq![]) == split);
            assert(replayed(root, seq![step]) == split);
            lemma_leftmost_is_leaf(b);
            assert(leaves(x) =~= seq![leftmost(b)]);
            assert forall|idx: usize| leaves(a).contains(idx) implies !#[trigger] leaves(
                x,
            ).contains(idx) by {
                if leaves(x).contains(idx) {
                    assert(idx == leftmost(b));
                }
            }
            lemma_fill_is_elsewhere(a, x);
            lemma_replay_first(dir, half(), root, x, f);
            assert forall|idx: usize| leaves(b).contains(idx) implies !#[trigger] leaves(
                even(a),
            ).contains(idx) by {}
            lemma_fill_is_elsewhere(b, even(a));
            lemma_replay_second(dir, half(), even(a), x, g);
        },
    }
}

/// A plan rebuilds its tree: its first window, and then every other one opened
/// beside the window that its step names and on the side that it names, make
/// the same splits between the same windows. The ratios are what is left to
/// correct.
pub proof fn law_plan_rebuilds_the_tree(tree: BspNode)
    requires
        leaves(tree).no_duplicates(),
    ensures
        replayed(
            BspNode::Leaf { idx: plan_steps(tree)[0].window_idx },
            plan_steps(tree).skip(1),
        ) == even(tree),
{
    assert(plan_steps(tree).skip(1) =~= fill_steps(tree));
    lemma_fill_rebuilds(tree);
}

/// The windows of an inferred tree are distinct if those it was inferred from
/// are, so its plan rebuilds it.
pub proof fn law_plan_rebuilds_what_was_inferred(
    ws: Seq<IndexedWindow>,
    bounds: Rect,
    tolerance: int,
)
    requires
        idx_of(ws).no_duplicates(),
        tree_of(ws, bounds, tolerance) is Some,
    ensures
        ({
            let tree = tree_of(ws, bounds, tolerance)->0;
            &&& leaves(tree).no_duplicates()
            &&& replayed(
                BspNode::Leaf { idx: plan_steps(tree)[0].window_idx },
                plan_steps(tree).skip(1),
            ) == even(tree)
        }),
{
    let tree = tree_of(ws, bounds, tolerance)->0;
    law_tree_has_every_window(ws, bounds, tolerance);
    idx_of(ws).lemma_multiset_has_no_duplicates();
    leaves(tree).lemma_multiset_has_no_duplicates_conv();
    law_plan_rebuilds_the_tree(tree);
}

} // verus!
