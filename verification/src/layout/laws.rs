//! What the layout plans promise of the windows they are made from.
use super::dwindle::{
    fill_steps, leaves, leftmost, measured_tolerance, pixel_steps_of, plan_steps, ratio_steps_of,
    tree_at, tree_from, tree_of, BspNode, RestoreStep, SplitDir,
};
use super::{
    adjacent, firsts, goes_first, goes_second, idx_of, is_candidate, is_edge, is_gap_midpoint,
    is_widest_gap, lemma_groups_sizes, lemma_groups_take, lemma_widest_gap_unique, next_edges,
    seconds, separates, split_rect, stands_between, widest_gap, IndexedWindow, Rect,
};
use vstd::multiset::Multiset;
use vstd::prelude::*;
use vstd::seq_lib::{
    group_to_multiset_ensures, lemma_multiset_commutative, to_multiset_build, to_multiset_len,
};

verus! {

/// The windows that a list of steps opens, in order.
pub open spec fn opened(steps: Seq<RestoreStep>) -> Seq<usize> {
    Seq::new(steps.len(), |i: int| steps[i].window_idx)
}

/// How many splits a tree has.
pub open spec fn splits(node: BspNode) -> nat
    decreases node,
{
    match node {
        BspNode::Leaf { .. } => 0,
        BspNode::Split { first, second, .. } => 1 + splits(*first) + splits(*second),
    }
}

/// Every split leaves room on both sides.
pub open spec fn proper(node: BspNode) -> bool
    decreases node,
{
    match node {
        BspNode::Leaf { .. } => true,
        BspNode::Split { ratio, first, second, .. } => 0 < ratio.part < ratio.whole && proper(
            *first,
        ) && proper(*second),
    }
}

proof fn lemma_groups_indices(ws: Seq<IndexedWindow>, h: bool, tolerance: int, at: int, k: int)
    requires
        0 <= k <= ws.len(),
        forall|i: int|
            0 <= i < ws.len() ==> goes_first(#[trigger] ws[i], h, tolerance, at) || goes_second(
                ws[i],
                h,
                tolerance,
                at,
            ),
    ensures
        idx_of(firsts(ws.take(k), h, tolerance, at)).to_multiset().add(
            idx_of(seconds(ws.take(k), h, tolerance, at)).to_multiset(),
        ) == idx_of(ws.take(k)).to_multiset(),
    decreases k,
{
    if k > 0 {
        lemma_groups_indices(ws, h, tolerance, at, k - 1);
        lemma_groups_take(ws, h, tolerance, at, k - 1);
        let a = firsts(ws.take(k - 1), h, tolerance, at);
        let b = seconds(ws.take(k - 1), h, tolerance, at);
        let w = ws[k - 1];
        assert(idx_of(ws.take(k)) =~= idx_of(ws.take(k - 1)).push(w.idx));
        to_multiset_build(idx_of(ws.take(k - 1)), w.idx);
        if goes_first(w, h, tolerance, at) {
            assert(idx_of(a.push(w)) =~= idx_of(a).push(w.idx));
            to_multiset_build(idx_of(a), w.idx);
        } else {
            assert(goes_second(w, h, tolerance, at));
            assert(idx_of(b.push(w)) =~= idx_of(b).push(w.idx));
            to_multiset_build(idx_of(b), w.idx);
        }
        assert(idx_of(firsts(ws.take(k), h, tolerance, at)).to_multiset().add(
            idx_of(seconds(ws.take(k), h, tolerance, at)).to_multiset(),
        ) =~= idx_of(ws.take(k)).to_multiset());
    } else {
        reveal(Seq::filter);
        assert(idx_of(firsts(ws.take(0), h, tolerance, at)) =~= seq![]);
        assert(idx_of(seconds(ws.take(0), h, tolerance, at)) =~= seq![]);
        assert(idx_of(ws.take(0)) =~= seq![]);
        assert(Seq::<usize>::empty().to_multiset() =~= Multiset::empty()) by {
            broadcast use group_to_multiset_ensures;

        }
    }
}

/// Partitioning at a line loses no window and repeats none.
pub proof fn law_partition_keeps_every_window(
    ws: Seq<IndexedWindow>,
    horizontal: bool,
    tolerance: int,
    at: int,
)
    requires
        separates(ws, horizontal, tolerance, at),
    ensures
        idx_of(firsts(ws, horizontal, tolerance, at)).to_multiset().add(
            idx_of(seconds(ws, horizontal, tolerance, at)).to_multiset(),
        ) == idx_of(ws).to_multiset(),
{
    lemma_groups_indices(ws, horizontal, tolerance, at, ws.len() as int);
    assert(ws.take(ws.len() as int) =~= ws);
}

/// The leaves of an inferred tree are the windows it was inferred from, each
/// as often as it was given.
pub proof fn law_tree_has_every_window(ws: Seq<IndexedWindow>, bounds: Rect, tolerance: int)
    requires
        tree_of(ws, bounds, tolerance) is Some,
    ensures
        leaves(tree_of(ws, bounds, tolerance)->0).to_multiset() == idx_of(ws).to_multiset(),
    decreases ws.len(), 1nat, 0int,
{
    if ws.len() == 1 {
        assert(idx_of(ws) =~= seq![ws[0].idx]);
    } else {
        let h = tree_from(ws, bounds, tolerance, SplitDir::Horizontal, bounds.start(true) + 1);
        if h is Some {
            lemma_from_has_every_window(
                ws,
                bounds,
                tolerance,
                SplitDir::Horizontal,
                bounds.start(true) + 1,
            );
        } else {
            lemma_from_has_every_window(
                ws,
                bounds,
                tolerance,
                SplitDir::Vertical,
                bounds.start(false) + 1,
            );
        }
    }
}

proof fn lemma_from_has_every_window(
    ws: Seq<IndexedWindow>,
    bounds: Rect,
    tolerance: int,
    dir: SplitDir,
    from: int,
)
    requires
        tree_from(ws, bounds, tolerance, dir, from) is Some,
    ensures
        leaves(tree_from(ws, bounds, tolerance, dir, from)->0).to_multiset() == idx_of(
            ws,
        ).to_multiset(),
    decreases ws.len(), 0nat, bounds.end(dir is Horizontal) - from,
{
    let h = dir is Horizontal;
    if is_candidate(ws, h, tolerance, from) && tree_at(ws, bounds, tolerance, dir, from) is Some {
        lemma_groups_sizes(ws, h, tolerance, from);
        let (a, b) = split_rect(bounds, h, from);
        let xs = firsts(ws, h, tolerance, from);
        let ys = seconds(ws, h, tolerance, from);
        law_tree_has_every_window(xs, a, tolerance);
        law_tree_has_every_window(ys, b, tolerance);
        law_partition_keeps_every_window(ws, h, tolerance, from);
        lemma_multiset_commutative(
            leaves(tree_of(xs, a, tolerance)->0),
            leaves(tree_of(ys, b, tolerance)->0),
        );
    } else {
        lemma_from_has_every_window(ws, bounds, tolerance, dir, from + 1);
    }
}

proof fn lemma_opened_concat(a: Seq<RestoreStep>, b: Seq<RestoreStep>)
    ensures
        opened(a + b) == opened(a) + opened(b),
{
    assert(opened(a + b) =~= opened(a) + opened(b));
}

proof fn lemma_fill_opens_the_rest(node: BspNode)
    ensures
        (seq![leftmost(node)] + opened(fill_steps(node))).to_multiset() == leaves(
            node,
        ).to_multiset(),
    decreases node,
{
    match node {
        BspNode::Leaf { idx } => {
            assert(seq![leftmost(node)] + opened(fill_steps(node)) =~= leaves(node));
        },
        BspNode::Split { dir, first, second, .. } => {
            lemma_fill_opens_the_rest(*first);
            lemma_fill_opens_the_rest(*second);
            let s = seq![super::dwindle::split_step(dir, *first, *second)];
            let f = opened(fill_steps(*first));
            let g = opened(fill_steps(*second));
            let l = seq![leftmost(*first)];
            let r = seq![leftmost(*second)];
            lemma_opened_concat(s, fill_steps(*first));
            lemma_opened_concat(s + fill_steps(*first), fill_steps(*second));
            assert(opened(s) =~= r);
            assert(opened(fill_steps(node)) =~= r + f + g);
            assert(l + opened(fill_steps(node)) =~= l + (r + f) + g);
            lemma_multiset_commutative(l + (r + f), g);
            lemma_multiset_commutative(l, r + f);
            lemma_multiset_commutative(r, f);
            lemma_multiset_commutative(l, f);
            lemma_multiset_commutative(r, g);
            lemma_multiset_commutative(leaves(*first), leaves(*second));
            assert((l + opened(fill_steps(node))).to_multiset() =~= leaves(
                *first,
            ).to_multiset().add(leaves(*second).to_multiset()));
        },
    }
}

/// A plan opens every window of its tree exactly once.
pub proof fn law_plan_opens_every_window_once(tree: BspNode)
    ensures
        opened(plan_steps(tree)).to_multiset() == leaves(tree).to_multiset(),
{
    lemma_fill_opens_the_rest(tree);
    assert(opened(plan_steps(tree)) =~= seq![leftmost(tree)] + opened(fill_steps(tree)));
}

/// Step `k` names a window that is open by then.
pub open spec fn anchored(steps: Seq<RestoreStep>, k: int, root: usize) -> bool {
    &&& steps[k].preselect is Some
    &&& steps[k].focus_idx is Some
    &&& steps[k].focus_idx == Some(root) || exists|j: int|
        0 <= j < k && steps[k].focus_idx == Some((#[trigger] steps[j]).window_idx)
}

proof fn lemma_fill_anchored(node: BspNode)
    ensures
        forall|k: int|
            0 <= k < fill_steps(node).len() ==> #[trigger] anchored(
                fill_steps(node),
                k,
                leftmost(node),
            ),
    decreases node,
{
    match node {
        BspNode::Leaf { .. } => {},
        BspNode::Split { dir, first, second, .. } => {
            lemma_fill_anchored(*first);
            lemma_fill_anchored(*second);
            let s = super::dwindle::split_step(dir, *first, *second);
            let f = fill_steps(*first);
            let g = fill_steps(*second);
            let all = fill_steps(node);
            assert(all == seq![s] + f + g);
            assert forall|k: int| 0 <= k < all.len() implies #[trigger] anchored(
                all,
                k,
                leftmost(node),
            ) by {
                if k == 0 {
                    assert(all[0] == s);
                } else if k < 1 + f.len() {
                    assert(all[k] == f[k - 1]);
                    assert(anchored(f, k - 1, leftmost(*first)));
                    if f[k - 1].focus_idx != Some(leftmost(*first)) {
                        let j = choose|j: int|
                            0 <= j < k - 1 && f[k - 1].focus_idx == Some(
                                (#[trigger] f[j]).window_idx,
                            );
                        assert(all[j + 1] == f[j]);
                    }
                } else {
                    let m = k - 1 - f.len();
                    assert(all[k] == g[m]);
                    assert(anchored(g, m, leftmost(*second)));
                    if g[m].focus_idx == Some(leftmost(*second)) {
                        assert(all[0] == s);
                    } else {
                        let j = choose|j: int|
                            0 <= j < m && g[m].focus_idx == Some((#[trigger] g[j]).window_idx);
                        assert(all[j + 1 + f.len()] == g[j]);
                    }
                }
            }
        },
    }
}

/// Only a plan's first step stands alone; every later one names a direction
/// and a window that an earlier step has opened.
pub proof fn law_plan_anchors_are_open(tree: BspNode)
    ensures
        plan_steps(tree).len() > 0,
        plan_steps(tree)[0].focus_idx is None,
        plan_steps(tree)[0].preselect is None,
        forall|k: int|
            0 < k < plan_steps(tree).len() ==> {
                &&& (#[trigger] plan_steps(tree)[k]).preselect is Some
                &&& plan_steps(tree)[k].focus_idx is Some
                &&& exists|j: int|
                    0 <= j < k && plan_steps(tree)[k].focus_idx == Some(
                        (#[trigger] plan_steps(tree)[j]).window_idx,
                    )
            },
{
    lemma_fill_anchored(tree);
    let steps = plan_steps(tree);
    let f = fill_steps(tree);
    assert(steps[0].window_idx == leftmost(tree));
    assert forall|k: int| 0 < k < steps.len() implies {
        &&& (#[trigger] steps[k]).preselect is Some
        &&& steps[k].focus_idx is Some
        &&& exists|j: int|
            0 <= j < k && steps[k].focus_idx == Some((#[trigger] steps[j]).window_idx)
    } by {
        assert(steps[k] == f[k - 1]);
        assert(anchored(f, k - 1, leftmost(tree)));
        if f[k - 1].focus_idx != Some(leftmost(tree)) {
            let j = choose|j: int|
                0 <= j < k - 1 && f[k - 1].focus_idx == Some((#[trigger] f[j]).window_idx);
            assert(steps[j + 1] == f[j]);
        }
    }
}

/// Every split of a tree gets exactly one correction, of the one kind or the
/// other, and there is one more window than there are splits.
pub proof fn law_every_split_is_corrected(tree: BspNode)
    ensures
        ratio_steps_of(tree).len() + pixel_steps_of(tree).len() == splits(tree),
        fill_steps(tree).len() == splits(tree),
        plan_steps(tree).len() == splits(tree) + 1,
        leaves(tree).len() == splits(tree) + 1,
    decreases tree,
{
    match tree {
        BspNode::Leaf { .. } => {},
        BspNode::Split { first, second, .. } => {
            law_every_split_is_corrected(*first);
            law_every_split_is_corrected(*second);
        },
    }
}

/// In an inferred tree every split leaves room on both sides.
pub proof fn law_tree_is_proper(ws: Seq<IndexedWindow>, bounds: Rect, tolerance: int)
    requires
        tree_of(ws, bounds, tolerance) is Some,
    ensures
        proper(tree_of(ws, bounds, tolerance)->0),
    decreases ws.len(), 1nat, 0int,
{
    if ws.len() > 1 {
        let h = tree_from(ws, bounds, tolerance, SplitDir::Horizontal, bounds.start(true) + 1);
        if h is Some {
            lemma_from_is_proper(
                ws,
                bounds,
                tolerance,
                SplitDir::Horizontal,
                bounds.start(true) + 1,
            );
        } else {
            lemma_from_is_proper(
                ws,
                bounds,
                tolerance,
                SplitDir::Vertical,
                bounds.start(false) + 1,
            );
        }
    }
}

proof fn lemma_from_is_proper(
    ws: Seq<IndexedWindow>,
    bounds: Rect,
    tolerance: int,
    dir: SplitDir,
    from: int,
)
    requires
        tree_from(ws, bounds, tolerance, dir, from) is Some,
    ensures
        proper(tree_from(ws, bounds, tolerance, dir, from)->0),
    decreases ws.len(), 0nat, bounds.end(dir is Horizontal) - from,
{
    let h = dir is Horizontal;
    if is_candidate(ws, h, tolerance, from) && tree_at(ws, bounds, tolerance, dir, from) is Some {
        lemma_groups_sizes(ws, h, tolerance, from);
        let (a, b) = split_rect(bounds, h, from);
        law_tree_is_proper(firsts(ws, h, tolerance, from), a, tolerance);
        law_tree_is_proper(seconds(ws, h, tolerance, from), b, tolerance);
        assert(0 < from - bounds.start(h) < bounds.extent(h));
    } else {
        lemma_from_is_proper(ws, bounds, tolerance, dir, from + 1);
    }
}

/// The tree parts the windows inside the bounds: a leaf has its window to
/// itself; a split lies on a candidate line inside the bounds, at the share
/// that it names, keeps every window to one side, and parts both sides in turn.
pub open spec fn is_partition(
    node: BspNode,
    ws: Seq<IndexedWindow>,
    bounds: Rect,
    tolerance: int,
) -> bool
    decreases node,
{
    match node {
        BspNode::Leaf { idx } => ws.len() == 1 && ws[0].idx == idx,
        BspNode::Split { dir, ratio, first, second } => {
            let h = dir is Horizontal;
            let at = bounds.start(h) + ratio.part;
            let (a, b) = split_rect(bounds, h, at);
            &&& ratio.whole == bounds.extent(h)
            &&& bounds.start(h) < at < bounds.end(h)
            &&& is_candidate(ws, h, tolerance, at)
            &&& separates(ws, h, tolerance, at)
            &&& is_partition(*first, firsts(ws, h, tolerance, at), a, tolerance)
            &&& is_partition(*second, seconds(ws, h, tolerance, at), b, tolerance)
        },
    }
}

/// An inferred tree parts the windows that it was inferred from.
pub proof fn law_inference_is_sound(ws: Seq<IndexedWindow>, bounds: Rect, tolerance: int)
    requires
        tree_of(ws, bounds, tolerance) is Some,
    ensures
        is_partition(tree_of(ws, bounds, tolerance)->0, ws, bounds, tolerance),
    decreases ws.len(), 1nat, 0int,
{
    if ws.len() > 1 {
        let across = bounds.start(true) + 1;
        if tree_from(ws, bounds, tolerance, SplitDir::Horizontal, across) is Some {
            lemma_from_is_partition(ws, bounds, tolerance, SplitDir::Horizontal, across);
        } else {
            lemma_from_is_partition(
                ws,
                bounds,
                tolerance,
                SplitDir::Vertical,
                bounds.start(false) + 1,
            );
        }
    }
}

proof fn lemma_from_is_partition(
    ws: Seq<IndexedWindow>,
    bounds: Rect,
    tolerance: int,
    dir: SplitDir,
    from: int,
)
    requires
        tree_from(ws, bounds, tolerance, dir, from) is Some,
    ensures
        is_partition(tree_from(ws, bounds, tolerance, dir, from)->0, ws, bounds, tolerance),
    decreases ws.len(), 0nat, bounds.end(dir is Horizontal) - from,
{
    let h = dir is Horizontal;
    if is_candidate(ws, h, tolerance, from) && tree_at(ws, bounds, tolerance, dir, from) is Some {
        lemma_groups_sizes(ws, h, tolerance, from);
        let (a, b) = split_rect(bounds, h, from);
        law_inference_is_sound(firsts(ws, h, tolerance, from), a, tolerance);
        law_inference_is_sound(seconds(ws, h, tolerance, from), b, tolerance);
    } else {
        lemma_from_is_partition(ws, bounds, tolerance, dir, from + 1);
    }
}

/// Inference fails only if the windows cannot be parted: where any tree parts
/// them, one is found.
pub proof fn law_inference_is_complete(
    node: BspNode,
    ws: Seq<IndexedWindow>,
    bounds: Rect,
    tolerance: int,
)
    requires
        is_partition(node, ws, bounds, tolerance),
    ensures
        tree_of(ws, bounds, tolerance) is Some,
    decreases node,
{
    match node {
        BspNode::Leaf { .. } => {},
        BspNode::Split { dir, ratio, first, second } => {
            let h = dir is Horizontal;
            let at = bounds.start(h) + ratio.part;
            let (a, b) = split_rect(bounds, h, at);
            law_inference_is_complete(*first, firsts(ws, h, tolerance, at), a, tolerance);
            law_inference_is_complete(*second, seconds(ws, h, tolerance, at), b, tolerance);
            lemma_groups_sizes(ws, h, tolerance, at);
            lemma_from_finds(ws, bounds, tolerance, dir, bounds.start(h) + 1, at);
        },
    }
}

proof fn lemma_from_finds(
    ws: Seq<IndexedWindow>,
    bounds: Rect,
    tolerance: int,
    dir: SplitDir,
    from: int,
    at: int,
)
    requires
        from <= at < bounds.end(dir is Horizontal),
        is_candidate(ws, dir is Horizontal, tolerance, at),
        tree_at(ws, bounds, tolerance, dir, at) is Some,
    ensures
        tree_from(ws, bounds, tolerance, dir, from) is Some,
    decreases at - from,
{
    if from < at {
        lemma_from_finds(ws, bounds, tolerance, dir, from + 1, at);
    }
}

proof fn lemma_filter_count<A>(s: Seq<A>, p: spec_fn(A) -> bool, v: A)
    ensures
        s.filter(p).to_multiset().count(v) == if p(v) {
            s.to_multiset().count(v)
        } else {
            0
        },
    decreases s.len(),
{
    broadcast use group_to_multiset_ensures;

    reveal(Seq::filter);
    if s.len() > 0 {
        let rest = s.drop_last();
        lemma_filter_count(rest, p, v);
        assert(s =~= rest.push(s.last()));
    }
}

/// The same windows in another order.
pub open spec fn permuted(a: Seq<IndexedWindow>, b: Seq<IndexedWindow>) -> bool {
    a.to_multiset() == b.to_multiset()
}

proof fn lemma_permuted_contains(a: Seq<IndexedWindow>, b: Seq<IndexedWindow>)
    requires
        permuted(a, b),
    ensures
        a.len() == b.len(),
        forall|w: IndexedWindow| #![auto] a.contains(w) <==> b.contains(w),
{
    broadcast use group_to_multiset_ensures;

    to_multiset_len(a);
    to_multiset_len(b);
    assert forall|w: IndexedWindow| #![auto] a.contains(w) <==> b.contains(w) by {
        assert(a.contains(w) <==> a.to_multiset().count(w) > 0);
        assert(b.contains(w) <==> b.to_multiset().count(w) > 0);
    }
}

proof fn lemma_permuted_edge(a: Seq<IndexedWindow>, b: Seq<IndexedWindow>, h: bool, v: int)
    requires
        permuted(a, b),
        is_edge(a, h, v),
    ensures
        is_edge(b, h, v),
{
    lemma_permuted_contains(a, b);
    let i = choose|i: int|
        0 <= i < a.len() && ((#[trigger] a[i]).start(h) == v || a[i].end(h) == v);
    assert(a.contains(a[i]));
    assert(b.contains(a[i]));
    let j = choose|j: int| 0 <= j < b.len() && b[j] == a[i];
    assert(b[j].start(h) == v || b[j].end(h) == v);
}

proof fn lemma_permuted_midpoint(
    a: Seq<IndexedWindow>,
    b: Seq<IndexedWindow>,
    h: bool,
    tolerance: int,
    v: int,
)
    requires
        permuted(a, b),
        is_gap_midpoint(a, h, tolerance, v),
    ensures
        is_gap_midpoint(b, h, tolerance, v),
{
    let (x, y) = choose|x: int, y: int| #[trigger]
        next_edges(a, h, x, y) && y - x <= tolerance && v == x + (y - x) / 2;
    lemma_permuted_edge(a, b, h, x);
    lemma_permuted_edge(a, b, h, y);
    assert forall|e: int| x < e < y implies !#[trigger] is_edge(b, h, e) by {
        if is_edge(b, h, e) {
            lemma_permuted_edge(b, a, h, e);
        }
    }
    assert(next_edges(b, h, x, y));
}

proof fn lemma_permuted_candidate(
    a: Seq<IndexedWindow>,
    b: Seq<IndexedWindow>,
    h: bool,
    tolerance: int,
    v: int,
)
    requires
        permuted(a, b),
    ensures
        is_candidate(a, h, tolerance, v) <==> is_candidate(b, h, tolerance, v),
{
    if is_edge(a, h, v) {
        lemma_permuted_edge(a, b, h, v);
    }
    if is_edge(b, h, v) {
        lemma_permuted_edge(b, a, h, v);
    }
    if is_gap_midpoint(a, h, tolerance, v) {
        lemma_permuted_midpoint(a, b, h, tolerance, v);
    }
    if is_gap_midpoint(b, h, tolerance, v) {
        lemma_permuted_midpoint(b, a, h, tolerance, v);
    }
}

proof fn lemma_permuted_separates(
    a: Seq<IndexedWindow>,
    b: Seq<IndexedWindow>,
    h: bool,
    tolerance: int,
    at: int,
)
    requires
        permuted(a, b),
        separates(a, h, tolerance, at),
    ensures
        separates(b, h, tolerance, at),
        permuted(firsts(a, h, tolerance, at), firsts(b, h, tolerance, at)),
        permuted(seconds(a, h, tolerance, at), seconds(b, h, tolerance, at)),
{
    lemma_permuted_contains(a, b);
    assert forall|i: int| 0 <= i < b.len() implies goes_first(#[trigger] b[i], h, tolerance, at)
        || goes_second(b[i], h, tolerance, at) by {
        assert(b.contains(b[i]));
        assert(a.contains(b[i]));
        let j = choose|j: int| 0 <= j < a.len() && a[j] == b[i];
        assert(goes_first(a[j], h, tolerance, at) || goes_second(a[j], h, tolerance, at));
    }
    let i = choose|i: int| 0 <= i < a.len() && goes_first(#[trigger] a[i], h, tolerance, at);
    assert(a.contains(a[i]) && b.contains(a[i]));
    let j = choose|j: int| 0 <= j < b.len() && b[j] == a[i];
    assert(goes_first(b[j], h, tolerance, at));
    let m = choose|m: int| 0 <= m < a.len() && goes_second(#[trigger] a[m], h, tolerance, at);
    assert(a.contains(a[m]) && b.contains(a[m]));
    let n = choose|n: int| 0 <= n < b.len() && b[n] == a[m];
    assert(goes_second(b[n], h, tolerance, at));
    let p = |iw: IndexedWindow| goes_first(iw, h, tolerance, at);
    let q = |iw: IndexedWindow| goes_second(iw, h, tolerance, at);
    assert forall|v: IndexedWindow|
        #![auto]
        a.filter(p).to_multiset().count(v) == b.filter(p).to_multiset().count(v) by {
        lemma_filter_count(a, p, v);
        lemma_filter_count(b, p, v);
    }
    assert forall|v: IndexedWindow|
        #![auto]
        a.filter(q).to_multiset().count(v) == b.filter(q).to_multiset().count(v) by {
        lemma_filter_count(a, q, v);
        lemma_filter_count(b, q, v);
    }
    assert(a.filter(p).to_multiset() =~= b.filter(p).to_multiset());
    assert(a.filter(q).to_multiset() =~= b.filter(q).to_multiset());
}

/// At a given tolerance, the tree does not depend on the order of the windows.
proof fn lemma_tree_ignores_order(
    a: Seq<IndexedWindow>,
    b: Seq<IndexedWindow>,
    bounds: Rect,
    tolerance: int,
)
    requires
        permuted(a, b),
    ensures
        tree_of(a, bounds, tolerance) == tree_of(b, bounds, tolerance),
    decreases a.len(), 1nat, 0int,
{
    lemma_permuted_contains(a, b);
    if a.len() == 1 {
        assert(a.contains(a[0]));
        assert(b.contains(a[0]));
    } else if a.len() > 1 {
        lemma_from_ignores_order(
            a,
            b,
            bounds,
            tolerance,
            SplitDir::Horizontal,
            bounds.start(true) + 1,
        );
        lemma_from_ignores_order(
            a,
            b,
            bounds,
            tolerance,
            SplitDir::Vertical,
            bounds.start(false) + 1,
        );
    }
}

proof fn lemma_from_ignores_order(
    a: Seq<IndexedWindow>,
    b: Seq<IndexedWindow>,
    bounds: Rect,
    tolerance: int,
    dir: SplitDir,
    from: int,
)
    requires
        permuted(a, b),
    ensures
        tree_from(a, bounds, tolerance, dir, from) == tree_from(b, bounds, tolerance, dir, from),
    decreases a.len(), 0nat, bounds.end(dir is Horizontal) - from,
{
    let h = dir is Horizontal;
    if from < bounds.end(h) {
        lemma_permuted_candidate(a, b, h, tolerance, from);
        if separates(a, h, tolerance, from) {
            lemma_permuted_separates(a, b, h, tolerance, from);
            lemma_groups_sizes(a, h, tolerance, from);
            let (x, y) = split_rect(bounds, h, from);
            lemma_tree_ignores_order(
                firsts(a, h, tolerance, from),
                firsts(b, h, tolerance, from),
                x,
                tolerance,
            );
            lemma_tree_ignores_order(
                seconds(a, h, tolerance, from),
                seconds(b, h, tolerance, from),
                y,
                tolerance,
            );
        } else if separates(b, h, tolerance, from) {
            lemma_permuted_separates(b, a, h, tolerance, from);
        }
        assert(tree_at(a, bounds, tolerance, dir, from) == tree_at(
            b,
            bounds,
            tolerance,
            dir,
            from,
        ));
        lemma_from_ignores_order(a, b, bounds, tolerance, dir, from + 1);
    }
}

/// There is a widest gap, if no gap exceeds the limit.
pub(crate) proof fn lemma_widest_gap_exists(ws: Seq<IndexedWindow>, limit: int)
    requires
        limit >= 0,
        forall|a: IndexedWindow, b: IndexedWindow, h: bool| #[trigger]
            adjacent(ws, a, b, h) ==> b.start(h) - a.end(h) <= limit,
    ensures
        exists|g: int| is_widest_gap(ws, g),
    decreases limit,
{
    if limit == 0 || exists|a: IndexedWindow, b: IndexedWindow, h: bool| #[trigger]
        adjacent(ws, a, b, h) && b.start(h) - a.end(h) == limit {
        assert(is_widest_gap(ws, limit));
    } else {
        lemma_widest_gap_exists(ws, limit - 1);
    }
}

/// The measured gap does not depend on the order of the windows.
proof fn lemma_gap_ignores_order(a: Seq<IndexedWindow>, b: Seq<IndexedWindow>)
    requires
        permuted(a, b),
    ensures
        widest_gap(a) == widest_gap(b),
{
    lemma_permuted_contains(a, b);
    if a.len() >= 2 {
        lemma_widest_gap_exists(a, 4 * i32::MAX);
        let g = choose|g: int| is_widest_gap(a, g);
        assert forall|v: IndexedWindow, w: IndexedWindow, h: bool| #![auto]
            adjacent(a, v, w, h) <==> adjacent(b, v, w, h) by {
            if adjacent(a, v, w, h) {
                assert(b.contains(v) && b.contains(w));
                assert forall|c: IndexedWindow| #[trigger]
                    b.contains(c) && c != v && c != w implies !stands_between(v, c, w, h) by {
                    assert(a.contains(c));
                }
            }
            if adjacent(b, v, w, h) {
                assert(a.contains(v) && a.contains(w));
                assert forall|c: IndexedWindow| #[trigger]
                    a.contains(c) && c != v && c != w implies !stands_between(v, c, w, h) by {
                    assert(b.contains(c));
                }
            }
        }
        assert(is_widest_gap(b, g));
        lemma_widest_gap_unique(a, g, widest_gap(a));
        lemma_widest_gap_unique(b, g, widest_gap(b));
    }
}

/// Inference is purely geometric: the tree does not depend on the order in
/// which the windows are given.
pub proof fn law_tree_ignores_order(a: Seq<IndexedWindow>, b: Seq<IndexedWindow>, bounds: Rect)
    requires
        permuted(a, b),
    ensures
        tree_of(a, bounds, measured_tolerance(a)) == tree_of(b, bounds, measured_tolerance(b)),
{
    lemma_gap_ignores_order(a, b);
    lemma_tree_ignores_order(a, b, bounds, measured_tolerance(a));
}

} // verus!
