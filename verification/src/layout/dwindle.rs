//! The dwindle layout: a tree of splits, inferred from window geometry, and the
//! steps that rebuild it.
use super::{
    all_placed, ascending, bounding, bounding_fits, bounding_rect, edges_fit, extract_indexed,
    firsts, gaps_within, geometry_fits, group_at, indexed, infer_gap_from_geometry, is_candidate,
    lemma_gaps_within, lemma_groups_sizes, seconds, separates, split_bounds, split_candidates,
    split_rect, widest_gap, IndexedWindow, Ratio, Rect, GAP_ROUNDING_BUFFER,
};
use crate::models::WindowEntry;
use vstd::prelude::*;

verus! {

/// Binary split direction in the Dwindle BSP tree.
#[derive(Debug, Clone, Copy, PartialEq, Eq, Structural)]
pub enum SplitDir {
    /// Left / Right
    Horizontal,
    /// Top / Bottom
    Vertical,
}

/// A node in the inferred BSP tree, storing window indices.
#[derive(Debug)]
pub enum BspNode {
    Leaf { idx: usize },
    Split { dir: SplitDir, ratio: Ratio, first: Box<BspNode>, second: Box<BspNode> },
}

/// A single step in the restore plan, executed in order.
#[derive(Debug, Clone, Copy)]
pub struct RestoreStep {
    /// Index into the original window list for the window to open.
    pub window_idx: usize,
    /// If Some, this window should be placed adjacent to this previously
    /// opened window index once it exists.
    pub focus_idx: Option<usize>,
    /// If Some, the direction to preselect this window relative to
    /// `focus_idx`. Consumed via `layoutmsg preselect <dir>` immediately
    /// before the window's placement settles, not before it opens: a
    /// preselect binding armed earlier doesn't reliably survive an
    /// indeterminate wait for the window to actually appear.
    pub preselect: Option<PreselDir>,
}

/// Post-placement correction: focus this window and apply
/// `layoutmsg splitratio <delta>` to set its parent split precisely.
#[derive(Debug, Clone, Copy)]
pub struct SplitRatioStep {
    pub focus_window_idx: usize,
    pub ratio: Ratio,
}

/// Post-placement correction for a split node whose two children are both
/// internal sub-trees rather than a direct leaf window. No window is ever
/// directly parented by such a split, so `layoutmsg splitratio` (which only
/// ever adjusts the currently focused window's own immediate parent split)
/// can never reach it. It's reachable only through a raw pixel resize:
/// Hyprland's resize dispatcher walks from the resized window up to the
/// nearest ancestor split matching the resize axis, so resizing the
/// leftmost leaf of one side lands on exactly this split.
#[derive(Debug, Clone, Copy)]
pub struct PixelRatioStep {
    pub dir: SplitDir,
    pub ratio: Ratio,
    pub first_leaf_idx: usize,
    pub second_leaf_idx: usize,
}

#[derive(Debug, Clone, Copy, PartialEq, Eq, Structural)]
pub enum PreselDir {
    Right,
    Bottom,
}

impl PreselDir {
    /// The direction's name in `layoutmsg preselect`.
    pub open spec fn name(self) -> Seq<char> {
        match self {
            PreselDir::Right => "r"@,
            PreselDir::Bottom => "d"@,
        }
    }

    /// The direction as Hyprland's `layoutmsg preselect <dir>` takes it: one
    /// of l/r/u/d (left/right/up/down).
    pub fn to_string(&self) -> (r: String)
        ensures
            r@ == self.name(),
    {
        match self {
            PreselDir::Right => "r".to_owned(),
            PreselDir::Bottom => "d".to_owned(),
        }
    }
}

/// Complete restore plan for one workspace under the dwindle layout.
pub struct DwindlePlan {
    pub steps: Vec<RestoreStep>,
    pub ratio_steps: Vec<SplitRatioStep>,
    pub pixel_ratio_steps: Vec<PixelRatioStep>,
}

/// The tree that the windows' geometry gives inside `bounds`: a single window
/// is a leaf; several are split from left to right where that is possible,
/// else from top to bottom, else not at all.
pub open spec fn tree_of(ws: Seq<IndexedWindow>, bounds: Rect, tolerance: int) -> Option<BspNode>
    decreases ws.len(), 2nat, 0int,
{
    if ws.len() == 0 {
        None
    } else if ws.len() == 1 {
        Some(BspNode::Leaf { idx: ws[0].idx })
    } else {
        match tree_from(ws, bounds, tolerance, SplitDir::Horizontal, bounds.start(true) + 1) {
            Some(node) => Some(node),
            None => tree_from(ws, bounds, tolerance, SplitDir::Vertical, bounds.start(false) + 1),
        }
    }
}

/// The tree whose root splits at the first candidate that works, going
/// through the bounds from `from` to their far edge.
pub open spec fn tree_from(
    ws: Seq<IndexedWindow>,
    bounds: Rect,
    tolerance: int,
    dir: SplitDir,
    from: int,
) -> Option<BspNode>
    decreases ws.len(), 1nat, bounds.end(dir is Horizontal) - from,
{
    if from >= bounds.end(dir is Horizontal) {
        None
    } else if is_candidate(ws, dir is Horizontal, tolerance, from) && tree_at(
        ws,
        bounds,
        tolerance,
        dir,
        from,
    ) is Some {
        tree_at(ws, bounds, tolerance, dir, from)
    } else {
        tree_from(ws, bounds, tolerance, dir, from + 1)
    }
}

/// The tree whose root splits at `at`: the line lies inside the bounds, keeps
/// every window to one side, and both sides have a tree of their own.
pub open spec fn tree_at(
    ws: Seq<IndexedWindow>,
    bounds: Rect,
    tolerance: int,
    dir: SplitDir,
    at: int,
) -> Option<BspNode>
    decreases ws.len(), 0nat, 0int,
{
    let h = dir is Horizontal;
    if bounds.start(h) < at < bounds.end(h) && separates(ws, h, tolerance, at) {
        proof {
            lemma_groups_sizes(ws, h, tolerance, at);
        }
        let (a, b) = split_rect(bounds, h, at);
        match (
            tree_of(firsts(ws, h, tolerance, at), a, tolerance),
            tree_of(seconds(ws, h, tolerance, at), b, tolerance),
        ) {
            (Some(first), Some(second)) => Some(
                BspNode::Split {
                    dir,
                    ratio: Ratio {
                        part: (at - bounds.start(h)) as i32,
                        whole: bounds.extent(h) as i32,
                    },
                    first: Box::new(first),
                    second: Box::new(second),
                },
            ),
            _ => None,
        }
    } else {
        None
    }
}

/// A split at `at` is tried, and works.
#[verifier::opaque]
spec fn splits_at(
    ws: Seq<IndexedWindow>,
    bounds: Rect,
    tolerance: int,
    dir: SplitDir,
    at: int,
) -> bool {
    is_candidate(ws, dir is Horizontal, tolerance, at) && tree_at(
        ws,
        bounds,
        tolerance,
        dir,
        at,
    ) is Some
}

proof fn lemma_skip(
    ws: Seq<IndexedWindow>,
    bounds: Rect,
    tolerance: int,
    dir: SplitDir,
    from: int,
    to: int,
)
    requires
        from <= to <= bounds.end(dir is Horizontal),
        forall|at: int| from <= at < to ==> !#[trigger] splits_at(ws, bounds, tolerance, dir, at),
    ensures
        tree_from(ws, bounds, tolerance, dir, from) == tree_from(ws, bounds, tolerance, dir, to),
    decreases to - from,
{
    if from < to {
        assert(!splits_at(ws, bounds, tolerance, dir, from));
        lemma_skip(ws, bounds, tolerance, dir, from + 1, to);
        reveal(splits_at);
    }
}

proof fn lemma_groups_edges_fit(ws: Seq<IndexedWindow>, h: bool, tolerance: int, at: int)
    requires
        edges_fit(ws),
    ensures
        edges_fit(firsts(ws, h, tolerance, at)),
        edges_fit(seconds(ws, h, tolerance, at)),
{
    let p = |iw: IndexedWindow| super::goes_first(iw, h, tolerance, at);
    let q = |iw: IndexedWindow| super::goes_second(iw, h, tolerance, at);
    let a = firsts(ws, h, tolerance, at);
    let b = seconds(ws, h, tolerance, at);
    assert forall|i: int| 0 <= i < a.len() implies i32::MIN <= (#[trigger] a[i]).end(true)
        <= i32::MAX && i32::MIN <= a[i].end(false) <= i32::MAX by {
        ws.lemma_filter_contains_rev(p, a[i]);
        let j = choose|j: int| 0 <= j < ws.len() && ws[j] == a[i];
        assert(i32::MIN <= ws[j].end(true) <= i32::MAX);
    }
    assert forall|i: int| 0 <= i < b.len() implies i32::MIN <= (#[trigger] b[i]).end(true)
        <= i32::MAX && i32::MIN <= b[i].end(false) <= i32::MAX by {
        ws.lemma_filter_contains_rev(q, b[i]);
        let j = choose|j: int| 0 <= j < ws.len() && ws[j] == b[i];
        assert(i32::MIN <= ws[j].end(true) <= i32::MAX);
    }
}

/// Infer the tree of the given windows with a fixed tolerance.
pub(crate) fn infer_bsp_inner(indexed: &[IndexedWindow], bounds: Rect, tolerance: i32) -> (r: Option<
    BspNode,
>)
    requires
        edges_fit(indexed@),
        bounds.fits(),
    ensures
        r == tree_of(indexed@, bounds, tolerance as int),
    decreases indexed@.len(), 2nat,
{
    if indexed.len() == 0 {
        return None;
    }
    if indexed.len() == 1 {
        return Some(BspNode::Leaf { idx: indexed[0].idx });
    }
    match try_split(indexed, bounds, tolerance, SplitDir::Horizontal) {
        Some(node) => Some(node),
        None => try_split(indexed, bounds, tolerance, SplitDir::Vertical),
    }
}

fn try_split(indexed: &[IndexedWindow], bounds: Rect, tolerance: i32, dir: SplitDir) -> (r: Option<
    BspNode,
>)
    requires
        edges_fit(indexed@),
        bounds.fits(),
    ensures
        r == tree_from(
            indexed@,
            bounds,
            tolerance as int,
            dir,
            bounds.start(dir is Horizontal) + 1,
        ),
    decreases indexed@.len(), 1nat,
{
    let horizontal = match dir {
        SplitDir::Horizontal => true,
        SplitDir::Vertical => false,
    };
    let candidates = split_candidates(indexed, horizontal, tolerance);
    let ghost from = bounds.start(horizontal) + 1;
    for k in 0..candidates.len()
        invariant
            edges_fit(indexed@),
            bounds.fits(),
            horizontal == (dir is Horizontal),
            from == bounds.start(horizontal) + 1,
            ascending(candidates@),
            forall|v: i32| #[trigger]
                candidates@.contains(v) <==> is_candidate(
                    indexed@,
                    horizontal,
                    tolerance as int,
                    v as int,
                ),
            forall|j: int|
                0 <= j < k ==> tree_at(
                    indexed@,
                    bounds,
                    tolerance as int,
                    dir,
                    (#[trigger] candidates@[j]) as int,
                ) is None,
    {
        let at: i32 = candidates[k];
        match try_split_at(indexed, bounds, tolerance, dir, at) {
            Some(node) => {
                proof {
                    assert forall|lower: int| from <= lower < at implies !#[trigger] splits_at(
                        indexed@,
                        bounds,
                        tolerance as int,
                        dir,
                        lower,
                    ) by {
                        reveal(splits_at);
                        if is_candidate(indexed@, horizontal, tolerance as int, lower) {
                            assert(candidates@.contains(lower as i32));
                            let j = choose|j: int|
                                0 <= j < candidates@.len() && candidates@[j] == lower as i32;
                            if j >= k {
                                assert(candidates@[j] >= candidates@[k as int]);
                            }
                            assert(tree_at(
                                indexed@,
                                bounds,
                                tolerance as int,
                                dir,
                                candidates@[j] as int,
                            ) is None);
                        }
                    }
                    assert(bounds.start(horizontal) < at < bounds.end(horizontal));
                    lemma_skip(indexed@, bounds, tolerance as int, dir, from, at as int);
                    assert(candidates@.contains(at));
                }
                return Some(node);
            },
            None => {},
        }
    }
    proof {
        assert forall|at: int| from <= at < bounds.end(horizontal) implies !#[trigger] splits_at(
            indexed@,
            bounds,
            tolerance as int,
            dir,
            at,
        ) by {
            reveal(splits_at);
            if is_candidate(indexed@, horizontal, tolerance as int, at) {
                assert(candidates@.contains(at as i32));
                let j = choose|j: int| 0 <= j < candidates@.len() && candidates@[j] == at as i32;
                assert(tree_at(
                    indexed@,
                    bounds,
                    tolerance as int,
                    dir,
                    candidates@[j] as int,
                ) is None);
            }
        }
        if from <= bounds.end(horizontal) {
            lemma_skip(
                indexed@,
                bounds,
                tolerance as int,
                dir,
                from,
                bounds.end(horizontal),
            );
        }
    }
    None
}

fn try_split_at(
    indexed: &[IndexedWindow],
    bounds: Rect,
    tolerance: i32,
    dir: SplitDir,
    split_at: i32,
) -> (r: Option<BspNode>)
    requires
        edges_fit(indexed@),
        bounds.fits(),
    ensures
        r == tree_at(indexed@, bounds, tolerance as int, dir, split_at as int),
    decreases indexed@.len(), 0nat,
{
    let horizontal = match dir {
        SplitDir::Horizontal => true,
        SplitDir::Vertical => false,
    };
    let (range_start, extent): (i32, i32) = if horizontal {
        (bounds.x, bounds.w)
    } else {
        (bounds.y, bounds.h)
    };
    let range_end: i64 = range_start as i64 + extent as i64;
    if split_at <= range_start || split_at as i64 >= range_end {
        return None;
    }
    let (first_group, second_group) = match group_at(indexed, horizontal, tolerance, split_at) {
        Some(groups) => groups,
        None => {
            return None;
        },
    };
    proof {
        lemma_groups_sizes(indexed@, horizontal, tolerance as int, split_at as int);
        lemma_groups_edges_fit(indexed@, horizontal, tolerance as int, split_at as int);
        super::law_split_bounds_tile(bounds, horizontal, split_at);
    }
    let (first_bounds, second_bounds) = split_bounds(bounds, horizontal, split_at);
    assert(first_bounds.fits() && second_bounds.fits()) by {
        assert(first_bounds.end(horizontal) == split_at);
        assert(first_bounds.end(!horizontal) == bounds.end(!horizontal));
        assert(second_bounds.end(horizontal) == bounds.end(horizontal));
        assert(second_bounds.end(!horizontal) == bounds.end(!horizontal));
    }
    let first_node = match infer_bsp_inner(first_group.as_slice(), first_bounds, tolerance) {
        Some(node) => node,
        None => {
            return None;
        },
    };
    let second_node = match infer_bsp_inner(second_group.as_slice(), second_bounds, tolerance) {
        Some(node) => node,
        None => {
            return None;
        },
    };
    let part: i32 = if horizontal {
        first_bounds.w
    } else {
        first_bounds.h
    };
    Some(
        BspNode::Split {
            dir,
            ratio: Ratio { part, whole: extent },
            first: Box::new(first_node),
            second: Box::new(second_node),
        },
    )
}

/// The tolerance that the windows' own gaps call for.
pub open spec fn measured_tolerance(ws: Seq<IndexedWindow>) -> int {
    widest_gap(ws) + GAP_ROUNDING_BUFFER
}

/// Infer a BSP tree from a set of tiled windows based on their geometry.
///
/// The gap tolerance is measured from the actual window positions rather than
/// from a config value, so it adapts to any `gaps_in` / `gaps_out` setting.
///
/// Returns `None` if the windows can't form a valid BSP partition (e.g. if
/// they overlap by more than the tolerance).
pub fn infer_bsp(indexed: &[IndexedWindow], bounds: Rect) -> (r: Option<BspNode>)
    requires
        edges_fit(indexed@),
        gaps_within(indexed@, i32::MAX - GAP_ROUNDING_BUFFER),
        bounds.fits(),
    ensures
        r == tree_of(indexed@, bounds, measured_tolerance(indexed@)),
{
    if indexed.len() == 0 {
        return None;
    }
    let gap: i32 = infer_gap_from_geometry(indexed);
    proof {
        lemma_gaps_within(indexed@, i32::MAX - GAP_ROUNDING_BUFFER);
    }
    infer_bsp_inner(indexed, bounds, gap + GAP_ROUNDING_BUFFER)
}

/// The window indices at the leaves, from left to right.
pub open spec fn leaves(node: BspNode) -> Seq<usize>
    decreases node,
{
    match node {
        BspNode::Leaf { idx } => seq![idx],
        BspNode::Split { first, second, .. } => leaves(*first) + leaves(*second),
    }
}

/// The leaf reached by always going to the first child.
pub open spec fn leftmost(node: BspNode) -> usize
    decreases node,
{
    match node {
        BspNode::Leaf { idx } => idx,
        BspNode::Split { first, .. } => leftmost(*first),
    }
}

/// The side on which a split's second child opens.
pub open spec fn presel_of(dir: SplitDir) -> PreselDir {
    match dir {
        SplitDir::Horizontal => PreselDir::Right,
        SplitDir::Vertical => PreselDir::Bottom,
    }
}

/// The step that makes a split between two subtrees: the leftmost window of
/// the second opens beside the leftmost window of the first.
pub open spec fn split_step(dir: SplitDir, first: BspNode, second: BspNode) -> RestoreStep {
    RestoreStep {
        window_idx: leftmost(second),
        focus_idx: Some(leftmost(first)),
        preselect: Some(presel_of(dir)),
    }
}

/// The steps that fill a subtree whose leftmost window is open: each split is
/// made before any deeper one.
pub open spec fn fill_steps(node: BspNode) -> Seq<RestoreStep>
    decreases node,
{
    match node {
        BspNode::Leaf { .. } => seq![],
        BspNode::Split { dir, first, second, .. } => seq![split_step(dir, *first, *second)]
            + fill_steps(*first) + fill_steps(*second),
    }
}

/// Open the leftmost window, then fill the tree.
pub open spec fn plan_steps(tree: BspNode) -> Seq<RestoreStep> {
    seq![RestoreStep { window_idx: leftmost(tree), focus_idx: None, preselect: None }]
        + fill_steps(tree)
}

/// The corrections for the splits that have a leaf for a child.
pub open spec fn ratio_steps_of(node: BspNode) -> Seq<SplitRatioStep>
    decreases node,
{
    match node {
        BspNode::Leaf { .. } => seq![],
        BspNode::Split { ratio, first, second, .. } => {
            let own = match (*first, *second) {
                (BspNode::Leaf { idx }, _) => seq![SplitRatioStep { focus_window_idx: idx, ratio }],
                (_, BspNode::Leaf { idx }) => seq![SplitRatioStep { focus_window_idx: idx, ratio }],
                _ => seq![],
            };
            own + ratio_steps_of(*first) + ratio_steps_of(*second)
        },
    }
}

/// The corrections for the splits between two subtrees.
pub open spec fn pixel_steps_of(node: BspNode) -> Seq<PixelRatioStep>
    decreases node,
{
    match node {
        BspNode::Leaf { .. } => seq![],
        BspNode::Split { dir, ratio, first, second } => {
            let own = if *first is Split && *second is Split {
                seq![
                    PixelRatioStep {
                        dir,
                        ratio,
                        first_leaf_idx: leftmost(*first),
                        second_leaf_idx: leftmost(*second),
                    },
                ]
            } else {
                seq![]
            };
            own + pixel_steps_of(*first) + pixel_steps_of(*second)
        },
    }
}

/// The restore steps for a tree, in an order compatible with Hyprland's
/// dwindle layout. In dwindle, a new window always splits the *focused
/// window's cell*, so each level's split must be created before any deeper
/// splits within its children.
pub fn plan_from_bsp(tree: &BspNode) -> (r: Vec<RestoreStep>)
    ensures
        r@ == plan_steps(*tree),
{
    let mut steps: Vec<RestoreStep> = Vec::new();
    walk_bsp(tree, None, None, &mut steps);
    steps
}

/// Open a subtree's leftmost window beside the given one, then fill it.
fn walk_bsp(
    node: &BspNode,
    focus_idx: Option<usize>,
    preselect: Option<PreselDir>,
    steps: &mut Vec<RestoreStep>,
)
    ensures
        final(steps)@ == old(steps)@ + seq![
            RestoreStep { window_idx: leftmost(*node), focus_idx, preselect },
        ] + fill_steps(*node),
{
    steps.push(RestoreStep { window_idx: leftmost_leaf_idx(node), focus_idx, preselect });
    walk_remaining(node, steps);
}

/// Emit steps for all leaves of a subtree except its leftmost leaf, which is
/// already open. Each split in the subtree is created by opening the second
/// child's leftmost leaf while focusing the first child's leftmost leaf.
fn walk_remaining(node: &BspNode, steps: &mut Vec<RestoreStep>)
    ensures
        final(steps)@ == old(steps)@ + fill_steps(*node),
    decreases *node,
{
    match node {
        BspNode::Leaf { .. } => {},
        BspNode::Split { dir, first, second, .. } => {
            let presel = match dir {
                SplitDir::Horizontal => PreselDir::Right,
                SplitDir::Vertical => PreselDir::Bottom,
            };
            steps.push(
                RestoreStep {
                    window_idx: leftmost_leaf_idx(second),
                    focus_idx: Some(leftmost_leaf_idx(first)),
                    preselect: Some(presel),
                },
            );
            walk_remaining(first, steps);
            walk_remaining(second, steps);
        },
    }
}

pub(crate) fn leftmost_leaf_idx(node: &BspNode) -> (r: usize)
    ensures
        r == leftmost(*node),
    decreases *node,
{
    match node {
        BspNode::Leaf { idx } => *idx,
        BspNode::Split { first, .. } => leftmost_leaf_idx(first),
    }
}

/// Collect `SplitRatioStep`s for every split node that has at least one
/// direct Leaf child.
pub fn collect_splitratio_steps(tree: &BspNode) -> (r: Vec<SplitRatioStep>)
    ensures
        r@ == ratio_steps_of(*tree),
{
    let mut steps: Vec<SplitRatioStep> = Vec::new();
    collect_ratios_inner(tree, &mut steps);
    steps
}

fn collect_ratios_inner(node: &BspNode, steps: &mut Vec<SplitRatioStep>)
    ensures
        final(steps)@ == old(steps)@ + ratio_steps_of(*node),
    decreases *node,
{
    match node {
        BspNode::Leaf { .. } => {},
        BspNode::Split { ratio, first, second, .. } => {
            match (&**first, &**second) {
                (BspNode::Leaf { idx }, _) => {
                    steps.push(SplitRatioStep { focus_window_idx: *idx, ratio: *ratio });
                },
                (_, BspNode::Leaf { idx }) => {
                    steps.push(SplitRatioStep { focus_window_idx: *idx, ratio: *ratio });
                },
                _ => {},
            }
            collect_ratios_inner(first, steps);
            collect_ratios_inner(second, steps);
        },
    }
}

/// Collect `PixelRatioStep`s for every split node whose two children are
/// both internal sub-trees: the splits `collect_splitratio_steps` cannot
/// reach because neither child is a direct leaf window.
pub fn collect_pixel_ratio_steps(tree: &BspNode) -> (r: Vec<PixelRatioStep>)
    ensures
        r@ == pixel_steps_of(*tree),
{
    let mut steps: Vec<PixelRatioStep> = Vec::new();
    collect_pixel_ratios_inner(tree, &mut steps);
    steps
}

fn collect_pixel_ratios_inner(node: &BspNode, steps: &mut Vec<PixelRatioStep>)
    ensures
        final(steps)@ == old(steps)@ + pixel_steps_of(*node),
    decreases *node,
{
    match node {
        BspNode::Leaf { .. } => {},
        BspNode::Split { dir, ratio, first, second } => {
            match (&**first, &**second) {
                (BspNode::Split { .. }, BspNode::Split { .. }) => {
                    steps.push(
                        PixelRatioStep {
                            dir: *dir,
                            ratio: *ratio,
                            first_leaf_idx: leftmost_leaf_idx(first),
                            second_leaf_idx: leftmost_leaf_idx(second),
                        },
                    );
                },
                _ => {},
            }
            collect_pixel_ratios_inner(first, steps);
            collect_pixel_ratios_inner(second, steps);
        },
    }
}

/// The tree of a workspace's saved windows, where every window has a geometry
/// and the geometry is one that splits can make.
pub open spec fn workspace_tree(windows: Seq<&WindowEntry>, indices: Seq<usize>) -> Option<BspNode> {
    match bounding(windows) {
        Some(bounds) => {
            let ws = indexed(windows, indices);
            tree_of(ws, bounds, measured_tolerance(ws))
        },
        None => None,
    }
}

pub(crate) proof fn lemma_indexed_edges_fit(windows: Seq<&WindowEntry>, indices: Seq<usize>)
    requires
        all_placed(windows),
        bounding_fits(windows),
    ensures
        edges_fit(indexed(windows, indices)),
{
    let ws = indexed(windows, indices);
    let rs = super::rects(windows);
    assert forall|i: int| 0 <= i < ws.len() implies i32::MIN <= (#[trigger] ws[i]).end(true)
        <= i32::MAX && i32::MIN <= ws[i].end(false) <= i32::MAX by {
        assert(rs[i].fits());
    }
}

pub(crate) proof fn lemma_bounding_rect_fits(windows: Seq<&WindowEntry>)
    requires
        bounding_fits(windows),
        bounding(windows) is Some,
    ensures
        bounding(windows)->0.fits(),
{
    let rs = super::rects(windows);
    super::lemma_extremes(rs, true);
    super::lemma_extremes(rs, false);
}

/// Build a dwindle restore plan for tiled windows on a single workspace.
///
/// `global_indices` maps each window in `windows` to its index in the full
/// session window list.
///
/// Returns `None` if BSP inference fails.
pub fn build_workspace_plan(windows: &[&WindowEntry], global_indices: &[usize]) -> (r: Option<
    DwindlePlan,
>)
    requires
        geometry_fits(windows@, global_indices@),
    ensures
        r is Some <==> workspace_tree(windows@, global_indices@) is Some,
        r matches Some(plan) ==> {
            let tree = workspace_tree(windows@, global_indices@)->0;
            &&& plan.steps@ == plan_steps(tree)
            &&& plan.ratio_steps@ == ratio_steps_of(tree)
            &&& plan.pixel_ratio_steps@ == pixel_steps_of(tree)
        },
{
    let tree = match infer_workspace_tree(windows, global_indices) {
        Some(tree) => tree,
        None => {
            return None;
        },
    };
    let steps = plan_from_bsp(&tree);
    let ratio_steps = collect_splitratio_steps(&tree);
    let pixel_ratio_steps = collect_pixel_ratio_steps(&tree);
    Some(DwindlePlan { steps, ratio_steps, pixel_ratio_steps })
}

fn infer_workspace_tree(windows: &[&WindowEntry], global_indices: &[usize]) -> (r: Option<BspNode>)
    requires
        geometry_fits(windows@, global_indices@),
    ensures
        r == workspace_tree(windows@, global_indices@),
{
    let bounds = match bounding_rect(windows) {
        Some(bounds) => bounds,
        None => {
            return None;
        },
    };
    proof {
        lemma_bounding_rect_fits(windows@);
        lemma_indexed_edges_fit(windows@, global_indices@);
        let n = indexed(windows@, global_indices@).len() as int;
        assert forall|i: int| 0 <= i < windows@.take(n).len() implies super::placed(
            #[trigger] windows@.take(n)[i],
        ) by {
            assert(windows@.take(n)[i] == windows@[i]);
        }
    }
    match extract_indexed(windows, global_indices) {
        Some(ws) => infer_bsp(ws.as_slice(), bounds),
        None => None,
    }
}

} // verus!
