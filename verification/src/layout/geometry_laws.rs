//! What inference means on the screen, in window coordinates.
use super::dwindle::{
    leaves, leftmost, measured_tolerance, pixel_steps_of, ratio_steps_of, tree_at, tree_from,
    tree_of, workspace_tree, BspNode, PixelRatioStep, SplitDir,
};
use super::flat::touching_tree;
use super::laws::lemma_widest_gap_exists;
use super::master::{
    parts_master, plan_at, plan_for, plan_for_any, plan_from, workspace_plan, MasterOrientation,
    MasterPlanView,
};
use super::{
    adjacent, bounding, firsts, goes_first, goes_second, idx_of, indexed, is_candidate, is_edge,
    is_gap_midpoint, is_widest_gap, lemma_groups_sizes, lemma_widest_gap_unique, next_edges,
    placed, seconds, separates, stands_between, widest_gap, IndexedWindow, Ratio, Rect,
};
use crate::models::WindowEntry;
use vstd::prelude::*;

verus! {

/// A window is paired with its index and keeps its saved position and size.
pub proof fn law_windows_keep_their_geometry(
    windows: Seq<&WindowEntry>,
    indices: Seq<usize>,
    i: int,
)
    requires
        0 <= i < windows.len(),
        i < indices.len(),
        placed(windows[i]),
    ensures
        i < indexed(windows, indices).len(),
        indexed(windows, indices)[i].idx == indices[i],
        windows[i].position == Some((indexed(windows, indices)[i].x, indexed(windows, indices)[i].y)),
        windows[i].size == Some((indexed(windows, indices)[i].w, indexed(windows, indices)[i].h)),
{
}

/// A vertical line at `at` has a window on its left when the window's right
/// edge passes it by no more than the tolerance, and on its right when it does
/// not, but starts no more than the tolerance before the line. A horizontal
/// line has windows above and below it in the same way.
pub proof fn law_sides_of_a_line(w: IndexedWindow, tolerance: int, at: int)
    ensures
        goes_first(w, true, tolerance, at) <==> w.x + w.w - at <= tolerance,
        goes_first(w, false, tolerance, at) <==> w.y + w.h - at <= tolerance,
        goes_second(w, true, tolerance, at) <==> w.x + w.w - at > tolerance && at - w.x
            <= tolerance,
        goes_second(w, false, tolerance, at) <==> w.y + w.h - at > tolerance && at - w.y
            <= tolerance,
{
}

/// Where a line parts the windows, the two groups are exactly the windows on
/// its two sides; neither is empty, and no window is in both.
pub proof fn law_line_parts_the_windows(
    ws: Seq<IndexedWindow>,
    horizontal: bool,
    tolerance: int,
    at: int,
    w: IndexedWindow,
)
    requires
        separates(ws, horizontal, tolerance, at),
        ws.contains(w),
    ensures
        firsts(ws, horizontal, tolerance, at).len() > 0,
        seconds(ws, horizontal, tolerance, at).len() > 0,
        firsts(ws, horizontal, tolerance, at).contains(w) <==> (if horizontal {
            w.x + w.w - at <= tolerance
        } else {
            w.y + w.h - at <= tolerance
        }),
        seconds(ws, horizontal, tolerance, at).contains(w) <==> !firsts(
            ws,
            horizontal,
            tolerance,
            at,
        ).contains(w),
        seconds(ws, horizontal, tolerance, at).contains(w) ==> (if horizontal {
            at - w.x <= tolerance
        } else {
            at - w.y <= tolerance
        }),
{
    lemma_groups_sizes(ws, horizontal, tolerance, at);
    lemma_membership(ws, horizontal, tolerance, at, w);
    let i = choose|i: int| 0 <= i < ws.len() && ws[i] == w;
    assert(goes_first(ws[i], horizontal, tolerance, at) || goes_second(
        ws[i],
        horizontal,
        tolerance,
        at,
    ));
}

proof fn lemma_membership(
    ws: Seq<IndexedWindow>,
    horizontal: bool,
    tolerance: int,
    at: int,
    w: IndexedWindow,
)
    requires
        ws.contains(w),
    ensures
        firsts(ws, horizontal, tolerance, at).contains(w) <==> goes_first(
            w,
            horizontal,
            tolerance,
            at,
        ),
        seconds(ws, horizontal, tolerance, at).contains(w) <==> goes_second(
            w,
            horizontal,
            tolerance,
            at,
        ),
{
    let p = |iw: IndexedWindow| goes_first(iw, horizontal, tolerance, at);
    let q = |iw: IndexedWindow| goes_second(iw, horizontal, tolerance, at);
    let i = choose|i: int| 0 <= i < ws.len() && ws[i] == w;
    if p(w) {
        ws.lemma_filter_contains(p, i);
    }
    if q(w) {
        ws.lemma_filter_contains(q, i);
    }
    if ws.filter(p).contains(w) {
        let k = choose|k: int| 0 <= k < ws.filter(p).len() && ws.filter(p)[k] == w;
        ws.lemma_filter_pred(p, k);
    }
    if ws.filter(q).contains(w) {
        let k = choose|k: int| 0 <= k < ws.filter(q).len() && ws.filter(q)[k] == w;
        ws.lemma_filter_pred(q, k);
    }
}

/// Every edge of a window is tried as a line, and so is the middle of a gap
/// that is no wider than the tolerance and that no edge lies in; nothing else
/// is.
pub proof fn law_lines_are_edges_and_middles(
    ws: Seq<IndexedWindow>,
    horizontal: bool,
    tolerance: int,
    v: int,
)
    ensures
        is_edge(ws, true, v) <==> exists|i: int|
            0 <= i < ws.len() && ((#[trigger] ws[i]).x == v || ws[i].x + ws[i].w == v),
        is_edge(ws, false, v) <==> exists|i: int|
            0 <= i < ws.len() && ((#[trigger] ws[i]).y == v || ws[i].y + ws[i].h == v),
        is_edge(ws, horizontal, v) ==> is_candidate(ws, horizontal, tolerance, v),
        forall|a: int, b: int|
            #![trigger is_edge(ws, horizontal, a), is_edge(ws, horizontal, b)]
            a < b <= a + tolerance && is_edge(ws, horizontal, a) && is_edge(ws, horizontal, b)
                && (forall|e: int| a < e < b ==> !#[trigger] is_edge(ws, horizontal, e))
                ==> is_candidate(ws, horizontal, tolerance, (a + b) / 2),
        is_candidate(ws, horizontal, tolerance, v) && !is_edge(ws, horizontal, v) ==> exists|
            a: int,
            b: int,
        |
            #![trigger is_edge(ws, horizontal, a), is_edge(ws, horizontal, b)]
            a < v < b <= a + tolerance && is_edge(ws, horizontal, a) && is_edge(ws, horizontal, b)
                && v == (a + b) / 2 && forall|e: int|
                a < e < b ==> !#[trigger] is_edge(ws, horizontal, e),
{
    if is_edge(ws, true, v) {
        let i = choose|i: int|
            0 <= i < ws.len() && ((#[trigger] ws[i]).start(true) == v || ws[i].end(true) == v);
        assert(ws[i].x == v || ws[i].x + ws[i].w == v);
    }
    if is_edge(ws, false, v) {
        let i = choose|i: int|
            0 <= i < ws.len() && ((#[trigger] ws[i]).start(false) == v || ws[i].end(false) == v);
        assert(ws[i].y == v || ws[i].y + ws[i].h == v);
    }
    if exists|i: int|
        0 <= i < ws.len() && ((#[trigger] ws[i]).x == v || ws[i].x + ws[i].w == v) {
        let i = choose|i: int|
            0 <= i < ws.len() && ((#[trigger] ws[i]).x == v || ws[i].x + ws[i].w == v);
        assert(ws[i].start(true) == v || ws[i].end(true) == v);
    }
    if exists|i: int|
        0 <= i < ws.len() && ((#[trigger] ws[i]).y == v || ws[i].y + ws[i].h == v) {
        let i = choose|i: int|
            0 <= i < ws.len() && ((#[trigger] ws[i]).y == v || ws[i].y + ws[i].h == v);
        assert(ws[i].start(false) == v || ws[i].end(false) == v);
    }
    assert forall|a: int, b: int|
        #![trigger is_edge(ws, horizontal, a), is_edge(ws, horizontal, b)]
        a < b <= a + tolerance && is_edge(ws, horizontal, a) && is_edge(ws, horizontal, b) && (
        forall|e: int| a < e < b ==> !#[trigger] is_edge(ws, horizontal, e)) implies is_candidate(
        ws,
        horizontal,
        tolerance,
        (a + b) / 2,
    ) by {
        assert(next_edges(ws, horizontal, a, b));
        assert((a + b) / 2 == a + (b - a) / 2);
    }
    if is_candidate(ws, horizontal, tolerance, v) && !is_edge(ws, horizontal, v) {
        assert(is_gap_midpoint(ws, horizontal, tolerance, v));
        let (a, b) = choose|a: int, b: int| #[trigger]
            next_edges(ws, horizontal, a, b) && b - a <= tolerance && v == a + (b - a) / 2;
        assert((a + b) / 2 == a + (b - a) / 2);
        assert(is_edge(ws, horizontal, a) && is_edge(ws, horizontal, b));
        assert(v != a);
    }
}

/// `b` stands to the right of `a` on some shared row, with nothing between.
pub open spec fn is_next_right(ws: Seq<IndexedWindow>, a: IndexedWindow, b: IndexedWindow) -> bool {
    &&& ws.contains(a) && ws.contains(b)
    &&& a.x + a.w < b.x
    &&& a.y < b.y + b.h && b.y < a.y + a.h
    &&& forall|c: IndexedWindow| #[trigger]
        ws.contains(c) && c != a && c != b ==> !(a.x + a.w <= c.x && c.x + c.w <= b.x && a.y < c.y
            + c.h && c.y < a.y + a.h && c.y < b.y + b.h && b.y < c.y + c.h)
}

/// `b` stands below `a` on some shared column, with nothing between.
pub open spec fn is_next_below(ws: Seq<IndexedWindow>, a: IndexedWindow, b: IndexedWindow) -> bool {
    &&& ws.contains(a) && ws.contains(b)
    &&& a.y + a.h < b.y
    &&& a.x < b.x + b.w && b.x < a.x + a.w
    &&& forall|c: IndexedWindow| #[trigger]
        ws.contains(c) && c != a && c != b ==> !(a.y + a.h <= c.y && c.y + c.h <= b.y && a.x < c.x
            + c.w && c.x < a.x + a.w && c.x < b.x + b.w && b.x < c.x + c.w)
}

/// The tolerance is four pixels more than the widest gap between neighbours.
pub proof fn law_tolerance_is_the_widest_gap_and_four(ws: Seq<IndexedWindow>)
    requires
        ws.len() >= 2,
    ensures
        measured_tolerance(ws) >= 4,
        forall|a: IndexedWindow, b: IndexedWindow| #[trigger]
            is_next_right(ws, a, b) ==> b.x - (a.x + a.w) + 4 <= measured_tolerance(ws),
        forall|a: IndexedWindow, b: IndexedWindow| #[trigger]
            is_next_below(ws, a, b) ==> b.y - (a.y + a.h) + 4 <= measured_tolerance(ws),
        measured_tolerance(ws) > 4 ==> {
            ||| exists|a: IndexedWindow, b: IndexedWindow| #[trigger]
                is_next_right(ws, a, b) && b.x - (a.x + a.w) + 4 == measured_tolerance(ws)
            ||| exists|a: IndexedWindow, b: IndexedWindow| #[trigger]
                is_next_below(ws, a, b) && b.y - (a.y + a.h) + 4 == measured_tolerance(ws)
        },
{
    lemma_widest_gap_exists(ws, 4 * i32::MAX);
    let g = choose|g: int| is_widest_gap(ws, g);
    assert(is_widest_gap(ws, super::widest_gap(ws)));
    lemma_widest_gap_unique(ws, g, super::widest_gap(ws));
    assert forall|a: IndexedWindow, b: IndexedWindow| #[trigger]
        is_next_right(ws, a, b) implies adjacent(ws, a, b, true) by {
        assert forall|c: IndexedWindow| #[trigger]
            ws.contains(c) && c != a && c != b implies !stands_between(a, c, b, true) by {}
    }
    assert forall|a: IndexedWindow, b: IndexedWindow| #[trigger]
        is_next_below(ws, a, b) implies adjacent(ws, a, b, false) by {
        assert forall|c: IndexedWindow| #[trigger]
            ws.contains(c) && c != a && c != b implies !stands_between(a, c, b, false) by {}
    }
    assert forall|a: IndexedWindow, b: IndexedWindow| #[trigger]
        is_next_right(ws, a, b) implies b.x - (a.x + a.w) + 4 <= measured_tolerance(ws) by {
        assert(adjacent(ws, a, b, true));
    }
    assert forall|a: IndexedWindow, b: IndexedWindow| #[trigger]
        is_next_below(ws, a, b) implies b.y - (a.y + a.h) + 4 <= measured_tolerance(ws) by {
        assert(adjacent(ws, a, b, false));
    }
    if measured_tolerance(ws) > 4 {
        let (a, b, h) = choose|a: IndexedWindow, b: IndexedWindow, h: bool| #[trigger]
            adjacent(ws, a, b, h) && b.start(h) - a.end(h) == g;
        assert forall|c: IndexedWindow| #[trigger] ws.contains(c) && c != a && c != b implies !(
        stands_between(a, c, b, h)) by {}
        if h {
            assert(is_next_right(ws, a, b));
        } else {
            assert(is_next_below(ws, a, b));
        }
    }
}

/// A workspace that can be split from left to right is, and at the leftmost
/// line that works; only else is it split from top to bottom, at the topmost.
pub proof fn law_leftmost_split_comes_first(
    ws: Seq<IndexedWindow>,
    bounds: Rect,
    tolerance: int,
    at: int,
)
    requires
        ws.len() > 1,
        bounds.fits(),
    ensures
        is_candidate(ws, true, tolerance, at) && tree_at(
            ws,
            bounds,
            tolerance,
            SplitDir::Horizontal,
            at,
        ) is Some ==> (tree_of(ws, bounds, tolerance) matches Some(
            BspNode::Split { dir, ratio, .. },
        ) && dir == SplitDir::Horizontal && bounds.x + ratio.part <= at),
        is_candidate(ws, false, tolerance, at) && tree_at(
            ws,
            bounds,
            tolerance,
            SplitDir::Vertical,
            at,
        ) is Some ==> (tree_of(ws, bounds, tolerance) matches Some(
            BspNode::Split { dir, ratio, .. },
        ) && (dir == SplitDir::Vertical ==> bounds.y + ratio.part <= at)),
{
    if is_candidate(ws, true, tolerance, at) && tree_at(
        ws,
        bounds,
        tolerance,
        SplitDir::Horizontal,
        at,
    ) is Some {
        lemma_first_line(ws, bounds, tolerance, SplitDir::Horizontal, bounds.start(true) + 1, at);
    }
    if is_candidate(ws, false, tolerance, at) && tree_at(
        ws,
        bounds,
        tolerance,
        SplitDir::Vertical,
        at,
    ) is Some {
        lemma_first_line(ws, bounds, tolerance, SplitDir::Vertical, bounds.start(false) + 1, at);
        let across = bounds.start(true) + 1;
        if tree_from(ws, bounds, tolerance, SplitDir::Horizontal, across) is Some {
            lemma_root_direction(ws, bounds, tolerance, SplitDir::Horizontal, across);
        }
    }
}

proof fn lemma_root_direction(
    ws: Seq<IndexedWindow>,
    bounds: Rect,
    tolerance: int,
    dir: SplitDir,
    from: int,
)
    requires
        tree_from(ws, bounds, tolerance, dir, from) is Some,
    ensures
        tree_from(ws, bounds, tolerance, dir, from) matches Some(BspNode::Split { dir: d, .. })
            && d == dir,
    decreases bounds.end(dir is Horizontal) - from,
{
    if !(is_candidate(ws, dir is Horizontal, tolerance, from) && tree_at(
        ws,
        bounds,
        tolerance,
        dir,
        from,
    ) is Some) {
        lemma_root_direction(ws, bounds, tolerance, dir, from + 1);
    }
}

proof fn lemma_first_line(
    ws: Seq<IndexedWindow>,
    bounds: Rect,
    tolerance: int,
    dir: SplitDir,
    from: int,
    at: int,
)
    requires
        bounds.fits(),
        from > bounds.start(dir is Horizontal),
        from <= at,
        is_candidate(ws, dir is Horizontal, tolerance, at),
        tree_at(ws, bounds, tolerance, dir, at) is Some,
    ensures
        tree_from(ws, bounds, tolerance, dir, from) matches Some(BspNode::Split { dir: d, ratio, .. })
            && d == dir && bounds.start(dir is Horizontal) + ratio.part <= at,
    decreases at - from,
{
    let h = dir is Horizontal;
    if is_candidate(ws, h, tolerance, from) && tree_at(ws, bounds, tolerance, dir, from) is Some {
        assert(0 < from - bounds.start(h) <= bounds.extent(h));
    } else {
        lemma_first_line(ws, bounds, tolerance, dir, from + 1, at);
    }
}

/// The window has a split to itself on one side: the ratio of that split.
pub open spec fn parent_ratio(node: BspNode, idx: usize) -> Option<Ratio>
    decreases node,
{
    match node {
        BspNode::Leaf { .. } => None,
        BspNode::Split { ratio, first, second, .. } => if *first == (BspNode::Leaf { idx })
            || *second == (BspNode::Leaf { idx }) {
            Some(ratio)
        } else {
            match parent_ratio(*first, idx) {
                Some(r) => Some(r),
                None => parent_ratio(*second, idx),
            }
        },
    }
}

proof fn lemma_parent_is_of_a_leaf(node: BspNode, idx: usize)
    ensures
        parent_ratio(node, idx) is Some ==> leaves(node).contains(idx),
        (node matches BspNode::Leaf { idx: own } && own == idx) ==> leaves(node).contains(idx),
    decreases node,
{
    match node {
        BspNode::Leaf { idx: own } => {
            assert(leaves(node)[0] == own);
        },
        BspNode::Split { first, second, .. } => {
            lemma_parent_is_of_a_leaf(*first, idx);
            lemma_parent_is_of_a_leaf(*second, idx);
            super::rebuild::lemma_side_leaves(*first, *second, idx);
        },
    }
}

/// Every ratio correction focuses a window that is one whole side of a split,
/// and sets the ratio of that split.
pub proof fn law_ratio_steps_set_the_parent(tree: BspNode, k: int)
    requires
        leaves(tree).no_duplicates(),
        0 <= k < ratio_steps_of(tree).len(),
    ensures
        parent_ratio(tree, ratio_steps_of(tree)[k].focus_window_idx) == Some(
            ratio_steps_of(tree)[k].ratio,
        ),
    decreases tree,
{
    match tree {
        BspNode::Leaf { .. } => {},
        BspNode::Split { ratio, first, second, .. } => {
            let (a, b) = (*first, *second);
            super::rebuild::lemma_sides_are_distinct(leaves(a), leaves(b));
            let f = ratio_steps_of(a);
            let g = ratio_steps_of(b);
            let own = ratio_steps_of(tree).len() - f.len() - g.len();
            let step = ratio_steps_of(tree)[k];
            let idx = step.focus_window_idx;
            if k < own {
            } else if k < own + f.len() {
                assert(step == f[k - own]);
                law_ratio_steps_set_the_parent(a, k - own);
                lemma_parent_is_of_a_leaf(a, idx);
                lemma_parent_is_of_a_leaf(b, idx);
                assert(leaves(a).contains(idx));
                assert(a != (BspNode::Leaf { idx }));
            } else {
                assert(step == g[k - own - f.len()]);
                law_ratio_steps_set_the_parent(b, k - own - f.len());
                lemma_parent_is_of_a_leaf(a, idx);
                lemma_parent_is_of_a_leaf(b, idx);
                assert(leaves(b).contains(idx));
                assert(b != (BspNode::Leaf { idx }));
            }
        },
    }
}

/// The tree has a split of this direction and ratio between two subtrees that
/// begin with these windows, neither of which is alone on its side.
pub open spec fn splits_between(node: BspNode, step: PixelRatioStep) -> bool
    decreases node,
{
    match node {
        BspNode::Leaf { .. } => false,
        BspNode::Split { dir, ratio, first, second } => {
            ||| dir == step.dir && ratio == step.ratio && leaves(*first).len() > 1 && leaves(
                *second,
            ).len() > 1 && leaves(*first)[0] == step.first_leaf_idx && leaves(*second)[0]
                == step.second_leaf_idx
            ||| splits_between(*first, step)
            ||| splits_between(*second, step)
        },
    }
}

proof fn lemma_leaves_begin_at_leftmost(node: BspNode)
    ensures
        leaves(node).len() > 0,
        leaves(node)[0] == leftmost(node),
        node is Split ==> leaves(node).len() > 1,
    decreases node,
{
    match node {
        BspNode::Leaf { .. } => {},
        BspNode::Split { first, second, .. } => {
            lemma_leaves_begin_at_leftmost(*first);
            lemma_leaves_begin_at_leftmost(*second);
        },
    }
}

/// Every pixel correction is for a split between two subtrees, and names the
/// first window on each of its sides.
pub proof fn law_pixel_steps_name_both_sides(tree: BspNode, k: int)
    requires
        0 <= k < pixel_steps_of(tree).len(),
    ensures
        splits_between(tree, pixel_steps_of(tree)[k]),
    decreases tree,
{
    match tree {
        BspNode::Leaf { .. } => {},
        BspNode::Split { first, second, .. } => {
            let f = pixel_steps_of(*first);
            let g = pixel_steps_of(*second);
            let own = pixel_steps_of(tree).len() - f.len() - g.len();
            lemma_leaves_begin_at_leftmost(*first);
            lemma_leaves_begin_at_leftmost(*second);
            if k < own {
            } else if k < own + f.len() {
                assert(pixel_steps_of(tree)[k] == f[k - own]);
                law_pixel_steps_name_both_sides(*first, k - own);
            } else {
                assert(pixel_steps_of(tree)[k] == g[k - own - f.len()]);
                law_pixel_steps_name_both_sides(*second, k - own - f.len());
            }
        },
    }
}

/// The master area ends at the line `at`: the master factor is the extent from
/// the line to the edge of the bounds on the master's side, over the whole
/// extent; the windows on that side are the master windows, and the others are
/// the stack.
pub open spec fn is_master_area(
    ws: Seq<IndexedWindow>,
    bounds: Rect,
    tolerance: int,
    plan: MasterPlanView,
    at: int,
) -> bool {
    let right_of = |w: IndexedWindow| w.x + w.w - at > tolerance;
    let below = |w: IndexedWindow| w.y + w.h - at > tolerance;
    match plan.orientation {
        MasterOrientation::Left => {
            &&& bounds.x < at < bounds.x + bounds.w
            &&& plan.mfact.part == at - bounds.x
            &&& plan.mfact.whole == bounds.w
            &&& forall|w: IndexedWindow| #[trigger]
                ws.contains(w) ==> if right_of(w) {
                    plan.stack_indices.contains(w.idx)
                } else {
                    plan.master_indices.contains(w.idx)
                }
        },
        MasterOrientation::Right => {
            &&& bounds.x < at < bounds.x + bounds.w
            &&& plan.mfact.part == bounds.x + bounds.w - at
            &&& plan.mfact.whole == bounds.w
            &&& forall|w: IndexedWindow| #[trigger]
                ws.contains(w) ==> if right_of(w) {
                    plan.master_indices.contains(w.idx)
                } else {
                    plan.stack_indices.contains(w.idx)
                }
        },
        MasterOrientation::Top => {
            &&& bounds.y < at < bounds.y + bounds.h
            &&& plan.mfact.part == at - bounds.y
            &&& plan.mfact.whole == bounds.h
            &&& forall|w: IndexedWindow| #[trigger]
                ws.contains(w) ==> if below(w) {
                    plan.stack_indices.contains(w.idx)
                } else {
                    plan.master_indices.contains(w.idx)
                }
        },
        MasterOrientation::Bottom => {
            &&& bounds.y < at < bounds.y + bounds.h
            &&& plan.mfact.part == bounds.y + bounds.h - at
            &&& plan.mfact.whole == bounds.h
            &&& forall|w: IndexedWindow| #[trigger]
                ws.contains(w) ==> if below(w) {
                    plan.master_indices.contains(w.idx)
                } else {
                    plan.stack_indices.contains(w.idx)
                }
        },
    }
}

proof fn lemma_idx_membership(ws: Seq<IndexedWindow>, w: IndexedWindow)
    requires
        ws.contains(w),
    ensures
        idx_of(ws).contains(w.idx),
{
    let i = choose|i: int| 0 <= i < ws.len() && ws[i] == w;
    assert(idx_of(ws)[i] == w.idx);
}

proof fn lemma_plan_at_is_master_area(
    ws: Seq<IndexedWindow>,
    bounds: Rect,
    tolerance: int,
    orientation: MasterOrientation,
    at: int,
)
    requires
        bounds.fits(),
        parts_master(ws, bounds, tolerance, orientation, at),
    ensures
        is_master_area(ws, bounds, tolerance, plan_at(ws, bounds, tolerance, orientation, at), at),
        plan_at(ws, bounds, tolerance, orientation, at).orientation == orientation,
{
    let h = orientation.horizontal();
    assert forall|w: IndexedWindow| #[trigger] ws.contains(w) implies (if goes_first(
        w,
        h,
        tolerance,
        at,
    ) {
        idx_of(firsts(ws, h, tolerance, at)).contains(w.idx)
    } else {
        idx_of(seconds(ws, h, tolerance, at)).contains(w.idx)
    }) by {
        law_line_parts_the_windows(ws, h, tolerance, at, w);
        lemma_membership(ws, h, tolerance, at, w);
        if goes_first(w, h, tolerance, at) {
            lemma_idx_membership(firsts(ws, h, tolerance, at), w);
        } else {
            lemma_idx_membership(seconds(ws, h, tolerance, at), w);
        }
    }
    assert(0 < at - bounds.start(h) < bounds.extent(h) <= i32::MAX);
}

proof fn lemma_from_is_master_area(
    ws: Seq<IndexedWindow>,
    bounds: Rect,
    tolerance: int,
    orientation: MasterOrientation,
    from: int,
)
    requires
        bounds.fits(),
        plan_from(ws, bounds, tolerance, orientation, from) is Some,
    ensures
        exists|at: int|
            from <= at && #[trigger] is_master_area(
                ws,
                bounds,
                tolerance,
                plan_from(ws, bounds, tolerance, orientation, from)->0,
                at,
            ),
        (plan_from(ws, bounds, tolerance, orientation, from)->0).orientation == orientation,
    decreases bounds.end(orientation.horizontal()) - from,
{
    let h = orientation.horizontal();
    if is_candidate(ws, h, tolerance, from) && parts_master(
        ws,
        bounds,
        tolerance,
        orientation,
        from,
    ) {
        lemma_plan_at_is_master_area(ws, bounds, tolerance, orientation, from);
    } else {
        lemma_from_is_master_area(ws, bounds, tolerance, orientation, from + 1);
        let plan = plan_from(ws, bounds, tolerance, orientation, from)->0;
        let at = choose|at: int|
            from + 1 <= at && #[trigger] is_master_area(ws, bounds, tolerance, plan, at);
        assert(from <= at && is_master_area(ws, bounds, tolerance, plan, at));
    }
}

/// The plan of a workspace with several windows has its master area on the
/// side that it names, and the master factor is the share of that side.
pub proof fn law_master_factor_is_the_masters_share(
    windows: Seq<&WindowEntry>,
    indices: Seq<usize>,
)
    requires
        indexed(windows, indices).len() > 1,
        workspace_plan(windows, indices) is Some,
        bounding(windows)->0.fits(),
    ensures
        bounding(windows) is Some,
        exists|at: int| #[trigger]
            is_master_area(
                indexed(windows, indices),
                bounding(windows)->0,
                measured_tolerance(indexed(windows, indices)),
                workspace_plan(windows, indices)->0,
                at,
            ),
{
    let ws = indexed(windows, indices);
    let bounds = bounding(windows)->0;
    let t = measured_tolerance(ws);
    let plan = workspace_plan(windows, indices)->0;
    let (across, down) = (bounds.start(true) + 1, bounds.start(false) + 1);
    if plan_for(ws, bounds, t, MasterOrientation::Left) is Some {
        lemma_from_is_master_area(ws, bounds, t, MasterOrientation::Left, across);
    } else if plan_for(ws, bounds, t, MasterOrientation::Top) is Some {
        lemma_from_is_master_area(ws, bounds, t, MasterOrientation::Top, down);
    } else if plan_for(ws, bounds, t, MasterOrientation::Right) is Some {
        lemma_from_is_master_area(ws, bounds, t, MasterOrientation::Right, across);
    } else {
        lemma_from_is_master_area(ws, bounds, t, MasterOrientation::Bottom, down);
    }
}

/// A lone window is the master, on the left, with half of the space.
pub proof fn law_lone_window_is_the_master(w: &WindowEntry, idx: usize)
    requires
        placed(w),
    ensures
        workspace_plan(seq![w], seq![idx]) == Some(
            MasterPlanView {
                master_indices: seq![idx],
                stack_indices: seq![],
                orientation: MasterOrientation::Left,
                mfact: Ratio { part: 1, whole: 2 },
            },
        ),
{
    let windows = seq![w];
    assert(windows.take(1) =~= windows);
    assert(indexed(windows, seq![idx]).len() == 1);
}

/// The order in which orientations are tried.
pub open spec fn preference(orientation: MasterOrientation) -> int {
    match orientation {
        MasterOrientation::Left => 0,
        MasterOrientation::Top => 1,
        MasterOrientation::Right => 2,
        MasterOrientation::Bottom => 3,
    }
}

/// A line at which the master area of this orientation may end: it is an edge
/// inside the bounds, no window straddles it, both sides have windows, the
/// master side no more than the other, and its share of the extent is between a
/// tenth and nine tenths, more than a tenth on the right and at the bottom.
pub open spec fn is_master_line(
    ws: Seq<IndexedWindow>,
    bounds: Rect,
    tolerance: int,
    orientation: MasterOrientation,
    at: int,
) -> bool {
    let h = orientation is Left || orientation is Right;
    let near_side = orientation is Left || orientation is Top;
    let (start, extent) = if h {
        (bounds.x, bounds.w)
    } else {
        (bounds.y, bounds.h)
    };
    let near = firsts(ws, h, tolerance, at).len();
    let far = seconds(ws, h, tolerance, at).len();
    let share = if near_side {
        at - start
    } else {
        start + extent - at
    };
    &&& is_edge(ws, h, at)
    &&& start < at < start + extent
    &&& separates(ws, h, tolerance, at)
    &&& if near_side {
        near <= far
    } else {
        far <= near
    }
    &&& extent <= 10 * share <= 9 * extent
    &&& !near_side ==> extent < 10 * share
}

proof fn lemma_master_line_is_found(
    ws: Seq<IndexedWindow>,
    bounds: Rect,
    tolerance: int,
    orientation: MasterOrientation,
    from: int,
    at: int,
)
    requires
        from <= at,
        is_master_line(ws, bounds, tolerance, orientation, at),
    ensures
        plan_from(ws, bounds, tolerance, orientation, from) is Some,
    decreases at - from,
{
    if from == at {
        let h = orientation.horizontal();
        assert(is_candidate(ws, h, tolerance, at));
        assert(idx_of(firsts(ws, h, tolerance, at)).len() == firsts(ws, h, tolerance, at).len());
        assert(parts_master(ws, bounds, tolerance, orientation, at));
    } else {
        lemma_master_line_is_found(ws, bounds, tolerance, orientation, from + 1, at);
    }
}

/// Where some master area is possible one is found, and of several sides the
/// left is preferred, next the top, then the right, then the bottom.
pub proof fn law_master_side_is_preferred(
    ws: Seq<IndexedWindow>,
    bounds: Rect,
    tolerance: int,
    orientation: MasterOrientation,
    at: int,
)
    requires
        bounds.fits(),
        is_master_line(ws, bounds, tolerance, orientation, at),
    ensures
        plan_for_any(ws, bounds, tolerance) matches Some(plan) && preference(plan.orientation)
            <= preference(orientation),
{
    let h = orientation.horizontal();
    lemma_master_line_is_found(ws, bounds, tolerance, orientation, bounds.start(h) + 1, at);
    let (across, down) = (bounds.start(true) + 1, bounds.start(false) + 1);
    if plan_for(ws, bounds, tolerance, MasterOrientation::Left) is Some {
        lemma_from_is_master_area(ws, bounds, tolerance, MasterOrientation::Left, across);
    } else if plan_for(ws, bounds, tolerance, MasterOrientation::Top) is Some {
        lemma_from_is_master_area(ws, bounds, tolerance, MasterOrientation::Top, down);
    } else if plan_for(ws, bounds, tolerance, MasterOrientation::Right) is Some {
        lemma_from_is_master_area(ws, bounds, tolerance, MasterOrientation::Right, across);
    } else {
        lemma_from_is_master_area(ws, bounds, tolerance, MasterOrientation::Bottom, down);
    }
}

/// Each orientation goes by its own name.
pub proof fn law_orientations_are_named(orientation: MasterOrientation)
    ensures
        orientation.name() == match orientation {
            MasterOrientation::Left => "left"@,
            MasterOrientation::Right => "right"@,
            MasterOrientation::Top => "top"@,
            MasterOrientation::Bottom => "bottom"@,
        },
        orientation.master_first() <==> preference(orientation) <= 1,
        orientation.horizontal() <==> preference(orientation) % 2 == 0,
{
}

/// The tree of a workspace is inferred within its bounds, with the widest gap
/// and four pixels for a tolerance; where windows have to touch, with none. Windows
/// without bounds have no tree.
pub proof fn law_trees_are_inferred_across_the_gaps(
    windows: Seq<&WindowEntry>,
    indices: Seq<usize>,
)
    ensures
        match bounding(windows) {
            Some(bounds) => {
                let ws = indexed(windows, indices);
                &&& workspace_tree(windows, indices) == tree_of(ws, bounds, widest_gap(ws) + 4)
                &&& touching_tree(windows, indices) == tree_of(ws, bounds, 0)
            },
            None => workspace_tree(windows, indices) is None && touching_tree(windows, indices)
                is None,
        },
{
}

/// The master area takes at least a tenth and at most nine tenths of the
/// monitor; on the right or at the bottom, more than a tenth.
pub proof fn law_master_share_is_usable(windows: Seq<&WindowEntry>, indices: Seq<usize>)
    ensures
        workspace_plan(windows, indices) matches Some(plan) ==> {
            &&& plan.mfact.whole <= 10 * plan.mfact.part <= 9 * plan.mfact.whole
            &&& plan.orientation is Right || plan.orientation is Bottom ==> plan.mfact.whole < 10
                * plan.mfact.part
        },
{
    let ws = indexed(windows, indices);
    if let Some(bounds) = bounding(windows) {
        let t = measured_tolerance(ws);
        lemma_share(ws, bounds, t, MasterOrientation::Left, bounds.start(true) + 1);
        lemma_share(ws, bounds, t, MasterOrientation::Top, bounds.start(false) + 1);
        lemma_share(ws, bounds, t, MasterOrientation::Right, bounds.start(true) + 1);
        lemma_share(ws, bounds, t, MasterOrientation::Bottom, bounds.start(false) + 1);
    }
}

proof fn lemma_share(
    ws: Seq<IndexedWindow>,
    bounds: Rect,
    tolerance: int,
    orientation: MasterOrientation,
    from: int,
)
    ensures
        plan_from(ws, bounds, tolerance, orientation, from) matches Some(plan) ==> {
            &&& plan.orientation == orientation
            &&& plan.mfact.whole <= 10 * plan.mfact.part <= 9 * plan.mfact.whole
            &&& !orientation.master_first() ==> plan.mfact.whole < 10 * plan.mfact.part
        },
    decreases bounds.end(orientation.horizontal()) - from,
{
    if from < bounds.end(orientation.horizontal()) {
        lemma_share(ws, bounds, tolerance, orientation, from + 1);
    }
}

} // verus!
