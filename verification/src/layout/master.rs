//! The master layout: a master area and a stack, inferred from window geometry.
use super::dwindle::{lemma_bounding_rect_fits, lemma_indexed_edges_fit, measured_tolerance};
use super::{
    all_placed, ascending, bounding, bounding_rect, edges_fit, extract_indexed, firsts,
    geometry_fits, idx_of, indexed, infer_gap_from_geometry, is_candidate, lemma_gaps_within,
    partition_at, seconds, separates, split_candidates, IndexedWindow, Ratio, Rect,
    GAP_ROUNDING_BUFFER,
};
use crate::models::WindowEntry;
use vstd::prelude::*;

verus! {

/// Orientation of the master area relative to the stack.
#[derive(Debug, Clone, Copy, PartialEq, Eq, Structural)]
pub enum MasterOrientation {
    Left,
    Right,
    Top,
    Bottom,
}

impl MasterOrientation {
    /// The orientation's name in `layoutmsg orientation<name>`.
    pub open spec fn name(self) -> Seq<char> {
        match self {
            MasterOrientation::Left => "left"@,
            MasterOrientation::Right => "right"@,
            MasterOrientation::Top => "top"@,
            MasterOrientation::Bottom => "bottom"@,
        }
    }

    /// Whether master and stack lie side by side.
    pub open spec fn horizontal(self) -> bool {
        self is Left || self is Right
    }

    /// Whether the master area comes first along the axis.
    pub open spec fn master_first(self) -> bool {
        self is Left || self is Top
    }

    pub fn to_string(&self) -> (r: String)
        ensures
            r@ == self.name(),
    {
        match self {
            MasterOrientation::Left => "left".to_owned(),
            MasterOrientation::Right => "right".to_owned(),
            MasterOrientation::Top => "top".to_owned(),
            MasterOrientation::Bottom => "bottom".to_owned(),
        }
    }
}

/// Restore plan for one workspace under the master layout.
pub struct MasterPlan {
    pub master_indices: Vec<usize>,
    pub stack_indices: Vec<usize>,
    pub orientation: MasterOrientation,
    /// Master-factor: `master_extent / total_extent` along the split axis.
    pub mfact: Ratio,
}

/// What a `MasterPlan` says.
pub struct MasterPlanView {
    pub master_indices: Seq<usize>,
    pub stack_indices: Seq<usize>,
    pub orientation: MasterOrientation,
    pub mfact: Ratio,
}

impl View for MasterPlan {
    type V = MasterPlanView;

    open spec fn view(&self) -> MasterPlanView {
        MasterPlanView {
            master_indices: self.master_indices@,
            stack_indices: self.stack_indices@,
            orientation: self.orientation,
            mfact: self.mfact,
        }
    }
}

/// The plan that splits at `at`.
pub open spec fn plan_at(
    ws: Seq<IndexedWindow>,
    bounds: Rect,
    tolerance: int,
    orientation: MasterOrientation,
    at: int,
) -> MasterPlanView {
    let h = orientation.horizontal();
    let near = idx_of(firsts(ws, h, tolerance, at));
    let far = idx_of(seconds(ws, h, tolerance, at));
    let whole = bounds.extent(h) as i32;
    if orientation.master_first() {
        MasterPlanView {
            master_indices: near,
            stack_indices: far,
            orientation,
            mfact: Ratio { part: (at - bounds.start(h)) as i32, whole },
        }
    } else {
        MasterPlanView {
            master_indices: far,
            stack_indices: near,
            orientation,
            mfact: Ratio { part: (bounds.end(h) - at) as i32, whole },
        }
    }
}

/// The master factor lies between a tenth and nine tenths. A master area on
/// the far side must be larger than a tenth: its factor is one minus the near
/// share, and the nearest binary fraction to nine tenths leaves less than a
/// tenth.
pub open spec fn usable_share(orientation: MasterOrientation, near: int, whole: int) -> bool {
    &&& 10 * near >= whole
    &&& if orientation.master_first() {
        10 * near <= 9 * whole
    } else {
        10 * near < 9 * whole
    }
}

/// A master area may end at `at`: the line lies inside the bounds and parts
/// the windows, the master side has no more windows than the stack, and its
/// share is usable.
pub open spec fn parts_master(
    ws: Seq<IndexedWindow>,
    bounds: Rect,
    tolerance: int,
    orientation: MasterOrientation,
    at: int,
) -> bool {
    let h = orientation.horizontal();
    let plan = plan_at(ws, bounds, tolerance, orientation, at);
    &&& bounds.start(h) < at < bounds.end(h)
    &&& separates(ws, h, tolerance, at)
    &&& plan.master_indices.len() <= plan.stack_indices.len()
    &&& usable_share(orientation, at - bounds.start(h), bounds.extent(h))
}

/// The plan for the first candidate that will do, going through the bounds
/// from `from` to their far edge.
pub open spec fn plan_from(
    ws: Seq<IndexedWindow>,
    bounds: Rect,
    tolerance: int,
    orientation: MasterOrientation,
    from: int,
) -> Option<MasterPlanView>
    decreases bounds.end(orientation.horizontal()) - from,
{
    if from >= bounds.end(orientation.horizontal()) {
        None
    } else if is_candidate(ws, orientation.horizontal(), tolerance, from) && parts_master(
        ws,
        bounds,
        tolerance,
        orientation,
        from,
    ) {
        Some(plan_at(ws, bounds, tolerance, orientation, from))
    } else {
        plan_from(ws, bounds, tolerance, orientation, from + 1)
    }
}

/// The plan for one orientation.
pub open spec fn plan_for(
    ws: Seq<IndexedWindow>,
    bounds: Rect,
    tolerance: int,
    orientation: MasterOrientation,
) -> Option<MasterPlanView> {
    plan_from(
        ws,
        bounds,
        tolerance,
        orientation,
        bounds.start(orientation.horizontal()) + 1,
    )
}

/// The plan for the first orientation that has one: left, top, right, bottom.
pub open spec fn plan_for_any(
    ws: Seq<IndexedWindow>,
    bounds: Rect,
    tolerance: int,
) -> Option<MasterPlanView> {
    match plan_for(ws, bounds, tolerance, MasterOrientation::Left) {
        Some(plan) => Some(plan),
        None => match plan_for(ws, bounds, tolerance, MasterOrientation::Top) {
            Some(plan) => Some(plan),
            None => match plan_for(ws, bounds, tolerance, MasterOrientation::Right) {
                Some(plan) => Some(plan),
                None => plan_for(ws, bounds, tolerance, MasterOrientation::Bottom),
            },
        },
    }
}

/// The master plan of a workspace's saved windows: none without windows or
/// where one lacks a geometry; a lone window is the master, on the left, with
/// half the space.
pub open spec fn workspace_plan(windows: Seq<&WindowEntry>, indices: Seq<usize>) -> Option<
    MasterPlanView,
> {
    let ws = indexed(windows, indices);
    if !all_placed(windows.take(ws.len() as int)) || ws.len() == 0 {
        None
    } else if ws.len() == 1 {
        Some(
            MasterPlanView {
                master_indices: seq![ws[0].idx],
                stack_indices: seq![],
                orientation: MasterOrientation::Left,
                mfact: Ratio { part: 1, whole: 2 },
            },
        )
    } else {
        match bounding(windows) {
            Some(bounds) => plan_for_any(ws, bounds, measured_tolerance(ws)),
            None => None,
        }
    }
}

#[verifier::opaque]
spec fn works_at(
    ws: Seq<IndexedWindow>,
    bounds: Rect,
    tolerance: int,
    orientation: MasterOrientation,
    at: int,
) -> bool {
    is_candidate(ws, orientation.horizontal(), tolerance, at) && parts_master(
        ws,
        bounds,
        tolerance,
        orientation,
        at,
    )
}

proof fn lemma_skip(
    ws: Seq<IndexedWindow>,
    bounds: Rect,
    tolerance: int,
    orientation: MasterOrientation,
    from: int,
    to: int,
)
    requires
        from <= to <= bounds.end(orientation.horizontal()),
        forall|at: int|
            from <= at < to ==> !#[trigger] works_at(ws, bounds, tolerance, orientation, at),
    ensures
        plan_from(ws, bounds, tolerance, orientation, from) == plan_from(
            ws,
            bounds,
            tolerance,
            orientation,
            to,
        ),
    decreases to - from,
{
    if from < to {
        assert(!works_at(ws, bounds, tolerance, orientation, from));
        lemma_skip(ws, bounds, tolerance, orientation, from + 1, to);
        reveal(works_at);
    }
}

/// Try to infer a `MasterPlan` from saved window geometry.
///
/// Heuristic: find the dominant split axis (horizontal or vertical) that
/// separates windows into two groups along an edge. The side with fewer
/// windows (or the left/top side in a tie) is treated as the master area.
pub fn build_workspace_plan(windows: &[&WindowEntry], global_indices: &[usize]) -> (r: Option<
    MasterPlan,
>)
    requires
        indexed(windows@, global_indices@).len() >= 2 ==> geometry_fits(
            windows@,
            global_indices@,
        ),
    ensures
        r is Some <==> workspace_plan(windows@, global_indices@) is Some,
        r matches Some(plan) ==> plan@ == workspace_plan(windows@, global_indices@)->0,
{
    let ws = match extract_indexed(windows, global_indices) {
        Some(ws) => ws,
        None => {
            return None;
        },
    };
    if ws.len() == 0 {
        return None;
    }
    if ws.len() == 1 {
        let mut master_indices: Vec<usize> = Vec::new();
        master_indices.push(ws[0].idx);
        return Some(
            MasterPlan {
                master_indices,
                stack_indices: Vec::new(),
                orientation: MasterOrientation::Left,
                mfact: Ratio { part: 1, whole: 2 },
            },
        );
    }
    let bounds = match bounding_rect(windows) {
        Some(bounds) => bounds,
        None => {
            return None;
        },
    };
    proof {
        lemma_bounding_rect_fits(windows@);
        lemma_indexed_edges_fit(windows@, global_indices@);
    }
    let gap: i32 = infer_gap_from_geometry(ws.as_slice());
    proof {
        lemma_gaps_within(ws@, i32::MAX - GAP_ROUNDING_BUFFER);
    }
    let tolerance: i32 = gap + GAP_ROUNDING_BUFFER;
    match try_master_split(ws.as_slice(), bounds, tolerance, MasterOrientation::Left) {
        Some(plan) => {
            return Some(plan);
        },
        None => {},
    }
    match try_master_split(ws.as_slice(), bounds, tolerance, MasterOrientation::Top) {
        Some(plan) => {
            return Some(plan);
        },
        None => {},
    }
    match try_master_split(ws.as_slice(), bounds, tolerance, MasterOrientation::Right) {
        Some(plan) => {
            return Some(plan);
        },
        None => {},
    }
    try_master_split(ws.as_slice(), bounds, tolerance, MasterOrientation::Bottom)
}

fn try_master_split(
    indexed: &[IndexedWindow],
    bounds: Rect,
    tolerance: i32,
    orientation: MasterOrientation,
) -> (r: Option<MasterPlan>)
    requires
        edges_fit(indexed@),
        bounds.fits(),
    ensures
        r is Some <==> plan_for(indexed@, bounds, tolerance as int, orientation) is Some,
        r matches Some(plan) ==> plan@ == plan_for(
            indexed@,
            bounds,
            tolerance as int,
            orientation,
        )->0,
{
    let (horizontal, master_is_first) = match orientation {
        MasterOrientation::Left => (true, true),
        MasterOrientation::Right => (true, false),
        MasterOrientation::Top => (false, true),
        MasterOrientation::Bottom => (false, false),
    };
    let candidates = split_candidates(indexed, horizontal, tolerance);
    let ghost from = bounds.start(horizontal) + 1;
    for k in 0..candidates.len()
        invariant
            edges_fit(indexed@),
            bounds.fits(),
            horizontal == orientation.horizontal(),
            master_is_first == orientation.master_first(),
            from == bounds.start(horizontal) + 1,
            ascending(candidates@),
            forall|v: i32| #[trigger]
                candidates@.contains(v) <==> is_candidate(
                    indexed@,
                    horizontal,
                    tolerance as int,
                    v as int,
                ),
            forall|j: int|
                0 <= j < k ==> !parts_master(
                    indexed@,
                    bounds,
                    tolerance as int,
                    orientation,
                    (#[trigger] candidates@[j]) as int,
                ),
    {
        let at: i32 = candidates[k];
        match master_split_at(indexed, bounds, tolerance, orientation, at) {
            Some(plan) => {
                proof {
                    assert forall|lower: int| from <= lower < at implies !#[trigger] works_at(
                        indexed@,
                        bounds,
                        tolerance as int,
                        orientation,
                        lower,
                    ) by {
                        reveal(works_at);
                        if is_candidate(indexed@, horizontal, tolerance as int, lower) {
                            assert(candidates@.contains(lower as i32));
                            let j = choose|j: int|
                                0 <= j < candidates@.len() && candidates@[j] == lower as i32;
                            if j >= k {
                                assert(candidates@[j] >= candidates@[k as int]);
                            }
                            assert(!parts_master(
                                indexed@,
                                bounds,
                                tolerance as int,
                                orientation,
                                candidates@[j] as int,
                            ));
                        }
                    }
                    lemma_skip(
                        indexed@,
                        bounds,
                        tolerance as int,
                        orientation,
                        from,
                        at as int,
                    );
                    assert(candidates@.contains(at));
                }
                return Some(plan);
            },
            None => {},
        }
    }
    proof {
        assert forall|at: int| from <= at < bounds.end(horizontal) implies !#[trigger] works_at(
            indexed@,
            bounds,
            tolerance as int,
            orientation,
            at,
        ) by {
            reveal(works_at);
            if is_candidate(indexed@, horizontal, tolerance as int, at) {
                assert(candidates@.contains(at as i32));
                let j = choose|j: int| 0 <= j < candidates@.len() && candidates@[j] == at as i32;
                assert(!parts_master(
                    indexed@,
                    bounds,
                    tolerance as int,
                    orientation,
                    candidates@[j] as int,
                ));
            }
        }
        if from <= bounds.end(horizontal) {
            lemma_skip(
                indexed@,
                bounds,
                tolerance as int,
                orientation,
                from,
                bounds.end(horizontal),
            );
        }
    }
    None
}

/// The plan whose master area ends at `split_at`, if that will do.
fn master_split_at(
    indexed: &[IndexedWindow],
    bounds: Rect,
    tolerance: i32,
    orientation: MasterOrientation,
    split_at: i32,
) -> (r: Option<MasterPlan>)
    requires
        bounds.fits(),
    ensures
        r is Some <==> parts_master(
            indexed@,
            bounds,
            tolerance as int,
            orientation,
            split_at as int,
        ),
        r matches Some(plan) ==> plan@ == plan_at(
            indexed@,
            bounds,
            tolerance as int,
            orientation,
            split_at as int,
        ),
{
    let (horizontal, master_is_first) = match orientation {
        MasterOrientation::Left => (true, true),
        MasterOrientation::Right => (true, false),
        MasterOrientation::Top => (false, true),
        MasterOrientation::Bottom => (false, false),
    };
    let (range_start, extent): (i32, i32) = if horizontal {
        (bounds.x, bounds.w)
    } else {
        (bounds.y, bounds.h)
    };
    let range_end: i64 = range_start as i64 + extent as i64;
    if split_at <= range_start || split_at as i64 >= range_end {
        return None;
    }
    let (first_group, second_group) = match partition_at(
        indexed,
        horizontal,
        tolerance,
        split_at,
    ) {
        Some(groups) => groups,
        None => {
            return None;
        },
    };
    let (master_indices, stack_indices) = if master_is_first {
        (first_group, second_group)
    } else {
        (second_group, first_group)
    };
    if master_indices.len() > stack_indices.len() {
        return None;
    }
    let near: i64 = split_at as i64 - range_start as i64;
    let whole: i64 = extent as i64;
    if 10 * near < whole || 10 * near > 9 * whole || (!master_is_first && 10 * near == 9
        * whole) {
        return None;
    }
    let part: i32 = if master_is_first {
        near as i32
    } else {
        (range_end - split_at as i64) as i32
    };
    Some(
        MasterPlan {
            master_indices,
            stack_indices,
            orientation,
            mfact: Ratio { part, whole: extent },
        },
    )
}

/// A master plan's windows are the ones it was made from, each as often as it
/// was given. There is a master window. Of several windows, the side with
/// fewer is the master area, and in a tie the left or the top one. The master
/// factor is a share of at least a tenth and at most nine tenths.
pub proof fn law_master_plan_is_balanced(windows: Seq<&WindowEntry>, indices: Seq<usize>)
    requires
        workspace_plan(windows, indices) is Some,
    ensures
        ({
            let plan = workspace_plan(windows, indices)->0;
            &&& plan.master_indices.to_multiset().add(plan.stack_indices.to_multiset()) == idx_of(
                indexed(windows, indices),
            ).to_multiset()
            &&& 0 < plan.master_indices.len()
            &&& indexed(windows, indices).len() > 1 ==> plan.master_indices.len()
                <= plan.stack_indices.len()
            &&& !plan.orientation.master_first() ==> plan.master_indices.len()
                < plan.stack_indices.len()
            &&& 0 < plan.mfact.part < plan.mfact.whole
            &&& plan.mfact.whole <= 10 * plan.mfact.part <= 9 * plan.mfact.whole
        }),
{
    let ws = indexed(windows, indices);
    let plan = workspace_plan(windows, indices)->0;
    if ws.len() == 1 {
        assert(idx_of(ws) =~= seq![ws[0].idx]);
        vstd::seq_lib::lemma_multiset_commutative(plan.master_indices, plan.stack_indices);
        assert(plan.master_indices + plan.stack_indices =~= idx_of(ws));
    } else {
        let bounds = bounding(windows)->0;
        let tolerance = measured_tolerance(ws);
        if plan_for(ws, bounds, tolerance, MasterOrientation::Left) is Some {
            lemma_from_is_balanced(
                ws,
                bounds,
                tolerance,
                MasterOrientation::Left,
                bounds.start(true) + 1,
            );
        } else if plan_for(ws, bounds, tolerance, MasterOrientation::Top) is Some {
            lemma_from_is_balanced(
                ws,
                bounds,
                tolerance,
                MasterOrientation::Top,
                bounds.start(false) + 1,
            );
        } else if plan_for(ws, bounds, tolerance, MasterOrientation::Right) is Some {
            lemma_tie_goes_to_the_near_side(
                ws,
                bounds,
                tolerance,
                MasterOrientation::Left,
                MasterOrientation::Right,
                bounds.start(true) + 1,
            );
            lemma_from_is_balanced(
                ws,
                bounds,
                tolerance,
                MasterOrientation::Right,
                bounds.start(true) + 1,
            );
        } else {
            lemma_tie_goes_to_the_near_side(
                ws,
                bounds,
                tolerance,
                MasterOrientation::Top,
                MasterOrientation::Bottom,
                bounds.start(false) + 1,
            );
            lemma_from_is_balanced(
                ws,
                bounds,
                tolerance,
                MasterOrientation::Bottom,
                bounds.start(false) + 1,
            );
        }
    }
}

proof fn lemma_from_is_balanced(
    ws: Seq<IndexedWindow>,
    bounds: Rect,
    tolerance: int,
    orientation: MasterOrientation,
    from: int,
)
    requires
        plan_from(ws, bounds, tolerance, orientation, from) is Some,
    ensures
        ({
            let plan = plan_from(ws, bounds, tolerance, orientation, from)->0;
            &&& plan.master_indices.to_multiset().add(plan.stack_indices.to_multiset()) == idx_of(
                ws,
            ).to_multiset()
            &&& 0 < plan.master_indices.len() <= plan.stack_indices.len()
            &&& plan.orientation == orientation
            &&& 0 < plan.mfact.part < plan.mfact.whole
            &&& plan.mfact.whole <= 10 * plan.mfact.part <= 9 * plan.mfact.whole
        }),
    decreases bounds.end(orientation.horizontal()) - from,
{
    let h = orientation.horizontal();
    if is_candidate(ws, h, tolerance, from) && parts_master(
        ws,
        bounds,
        tolerance,
        orientation,
        from,
    ) {
        super::laws::law_partition_keeps_every_window(ws, h, tolerance, from);
        super::lemma_groups_sizes(ws, h, tolerance, from);
        let plan = plan_at(ws, bounds, tolerance, orientation, from);
        let near = idx_of(firsts(ws, h, tolerance, from)).to_multiset();
        let far = idx_of(seconds(ws, h, tolerance, from)).to_multiset();
        assert(near.add(far) =~= far.add(near));
        assert(0 < from - bounds.start(h) < bounds.extent(h));
    } else {
        lemma_from_is_balanced(ws, bounds, tolerance, orientation, from + 1);
    }
}

/// Where no near side will do as the master area, a far side that will has
/// fewer windows.
proof fn lemma_tie_goes_to_the_near_side(
    ws: Seq<IndexedWindow>,
    bounds: Rect,
    tolerance: int,
    near: MasterOrientation,
    far: MasterOrientation,
    from: int,
)
    requires
        near.horizontal() == far.horizontal(),
        near.master_first(),
        !far.master_first(),
        from > bounds.start(near.horizontal()),
        plan_from(ws, bounds, tolerance, near, from) is None,
    ensures
        plan_from(ws, bounds, tolerance, far, from) matches Some(plan) ==> plan.master_indices.len()
            < plan.stack_indices.len(),
    decreases bounds.end(near.horizontal()) - from,
{
    if from < bounds.end(near.horizontal()) {
        lemma_tie_goes_to_the_near_side(ws, bounds, tolerance, near, far, from + 1);
        assert(!is_candidate(ws, near.horizontal(), tolerance, from) || !parts_master(
            ws,
            bounds,
            tolerance,
            near,
            from,
        ));
    }
}

} // verus!
