//! Depth-first plans, inferred without tolerance.
use super::dwindle::{
    infer_bsp_inner, leaves, leftmost, leftmost_leaf_idx, lemma_bounding_rect_fits,
    lemma_indexed_edges_fit, presel_of, tree_of, BspNode, PreselDir, RestoreStep, SplitDir,
};
use super::laws::opened;
use super::{
    bounding, bounding_fits, bounding_rect, edges_fit, extract_indexed, indexed, placed,
    IndexedWindow, Rect,
};
use crate::models::WindowEntry;
use vstd::prelude::*;

verus! {

/// Infer a BSP tree in which every window lies wholly on one side of each
/// split.
///
/// Returns `None` if the windows can't form such a partition (e.g. if they
/// overlap).
pub fn infer_bsp(indexed: &[IndexedWindow], bounds: Rect) -> (r: Option<BspNode>)
    requires
        edges_fit(indexed@),
        bounds.fits(),
    ensures
        r == tree_of(indexed@, bounds, 0),
{
    infer_bsp_inner(indexed, bounds, 0)
}

/// The steps that open a subtree beside the given window, its first half
/// completely before its second.
pub open spec fn walk_steps(
    node: BspNode,
    focus_idx: Option<usize>,
    preselect: Option<PreselDir>,
) -> Seq<RestoreStep>
    decreases node,
{
    match node {
        BspNode::Leaf { idx } => seq![RestoreStep { window_idx: idx, focus_idx, preselect }],
        BspNode::Split { dir, first, second, .. } => walk_steps(*first, focus_idx, preselect)
            + walk_steps(*second, Some(leftmost(*first)), Some(presel_of(dir))),
    }
}

/// Convert a BSP tree into an ordered list of restore steps.
pub fn plan_from_bsp(tree: &BspNode) -> (r: Vec<RestoreStep>)
    ensures
        r@ == walk_steps(*tree, None, None),
{
    let mut steps: Vec<RestoreStep> = Vec::new();
    walk_bsp(tree, None, None, &mut steps);
    steps
}

fn walk_bsp(
    node: &BspNode,
    focus_idx: Option<usize>,
    preselect: Option<PreselDir>,
    steps: &mut Vec<RestoreStep>,
)
    ensures
        final(steps)@ == old(steps)@ + walk_steps(*node, focus_idx, preselect),
    decreases *node,
{
    match node {
        BspNode::Leaf { idx } => {
            steps.push(RestoreStep { window_idx: *idx, focus_idx, preselect });
        },
        BspNode::Split { dir, first, second, .. } => {
            walk_bsp(first, focus_idx, preselect, steps);
            let presel = match dir {
                SplitDir::Horizontal => PreselDir::Right,
                SplitDir::Vertical => PreselDir::Bottom,
            };
            walk_bsp(second, Some(leftmost_leaf_idx(first)), Some(presel), steps);
        },
    }
}

/// The tree of a workspace's saved windows, where they touch exactly.
pub open spec fn touching_tree(windows: Seq<&WindowEntry>, indices: Seq<usize>) -> Option<BspNode> {
    match bounding(windows) {
        Some(bounds) => tree_of(indexed(windows, indices), bounds, 0),
        None => None,
    }
}

/// Build a restore plan for a set of tiled windows on a single workspace.
///
/// `global_indices` maps each window in `windows` to its index in the full
/// session window list.
///
/// Returns `None` if BSP inference fails (falls back to simple restore).
pub fn build_workspace_plan(windows: &[&WindowEntry], global_indices: &[usize]) -> (r: Option<
    Vec<RestoreStep>,
>)
    requires
        bounding_fits(windows@),
    ensures
        r is Some <==> touching_tree(windows@, global_indices@) is Some,
        r matches Some(steps) ==> steps@ == walk_steps(
            touching_tree(windows@, global_indices@)->0,
            None,
            None,
        ),
{
    let bounds = match bounding_rect(windows) {
        Some(bounds) => bounds,
        None => {
            return None;
        },
    };
    proof {
        lemma_bounding_rect_fits(windows@);
        lemma_indexed_edges_fit(windows@, global_indices@);
        let n = indexed(windows@, global_indices@).len() as int;
        assert forall|i: int| 0 <= i < windows@.take(n).len() implies placed(
            #[trigger] windows@.take(n)[i],
        ) by {
            assert(windows@.take(n)[i] == windows@[i]);
        }
    }
    match extract_indexed(windows, global_indices) {
        Some(ws) => match infer_bsp(ws.as_slice(), bounds) {
            Some(tree) => Some(plan_from_bsp(&tree)),
            None => None,
        },
        None => None,
    }
}

/// A depth-first plan opens the leaves from left to right.
pub proof fn law_walk_opens_leaves_in_order(
    tree: BspNode,
    focus_idx: Option<usize>,
    preselect: Option<PreselDir>,
)
    ensures
        opened(walk_steps(tree, focus_idx, preselect)) == leaves(tree),
    decreases tree,
{
    match tree {
        BspNode::Leaf { idx } => {
            assert(opened(walk_steps(tree, focus_idx, preselect)) =~= leaves(tree));
        },
        BspNode::Split { dir, first, second, .. } => {
            law_walk_opens_leaves_in_order(*first, focus_idx, preselect);
            law_walk_opens_leaves_in_order(*second, Some(leftmost(*first)), Some(presel_of(dir)));
            assert(opened(walk_steps(tree, focus_idx, preselect)) =~= leaves(*first) + leaves(
                *second,
            ));
        },
    }
}

} // verus!
