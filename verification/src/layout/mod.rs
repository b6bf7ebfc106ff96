//! Geometry of tiled windows.
pub mod dwindle;
pub mod flat;
pub mod geometry_laws;
pub mod laws;
pub mod master;
pub mod rebuild;

use crate::models::WindowEntry;
use vstd::prelude::*;

verus! {

/// Small buffer added to the measured gap to account for border widths and
/// sub-pixel rounding.
pub const GAP_ROUNDING_BUFFER: i32 = 4;

/// A rectangle in screen coordinates.
#[derive(Debug, Clone, Copy, PartialEq, Eq, Structural)]
pub struct Rect {
    pub x: i32,
    pub y: i32,
    pub w: i32,
    pub h: i32,
}

/// An exact quotient of two pixel extents.
#[derive(Debug, Clone, Copy, PartialEq, Eq, Structural)]
pub struct Ratio {
    pub part: i32,
    pub whole: i32,
}

/// A window's place in the full window list, with its geometry.
#[derive(Debug, Clone, Copy, PartialEq, Eq, Structural)]
pub struct IndexedWindow {
    pub idx: usize,
    pub x: i32,
    pub y: i32,
    pub w: i32,
    pub h: i32,
}

impl IndexedWindow {
    /// Near edge along the axis: left when `horizontal`, else top.
    pub open spec fn start(self, horizontal: bool) -> int {
        if horizontal {
            self.x as int
        } else {
            self.y as int
        }
    }

    /// Far edge along the axis: right when `horizontal`, else bottom.
    pub open spec fn end(self, horizontal: bool) -> int {
        if horizontal {
            self.x + self.w
        } else {
            self.y + self.h
        }
    }
}

impl Rect {
    pub open spec fn start(self, horizontal: bool) -> int {
        if horizontal {
            self.x as int
        } else {
            self.y as int
        }
    }

    pub open spec fn extent(self, horizontal: bool) -> int {
        if horizontal {
            self.w as int
        } else {
            self.h as int
        }
    }

    pub open spec fn end(self, horizontal: bool) -> int {
        self.start(horizontal) + self.extent(horizontal)
    }

    /// The far edges are representable.
    pub open spec fn fits(self) -> bool {
        &&& i32::MIN <= self.end(true) <= i32::MAX
        &&& i32::MIN <= self.end(false) <= i32::MAX
    }
}

/// The far edges of every window are representable.
pub open spec fn edges_fit(ws: Seq<IndexedWindow>) -> bool {
    forall|i: int|
        0 <= i < ws.len() ==> {
            &&& i32::MIN <= (#[trigger] ws[i]).end(true) <= i32::MAX
            &&& i32::MIN <= ws[i].end(false) <= i32::MAX
        }
}

/// Both a position and a size were saved.
pub open spec fn placed(w: &WindowEntry) -> bool {
    w.position is Some && w.size is Some
}

pub open spec fn all_placed(windows: Seq<&WindowEntry>) -> bool {
    forall|i: int| 0 <= i < windows.len() ==> placed(#[trigger] windows[i])
}

/// A placed entry's geometry, under the given index.
pub open spec fn indexed_as(w: &WindowEntry, idx: usize) -> IndexedWindow {
    IndexedWindow {
        idx,
        x: (w.position->0).0,
        y: (w.position->0).1,
        w: (w.size->0).0,
        h: (w.size->0).1,
    }
}

/// The entries paired with their indices, as far as both lists reach.
pub open spec fn indexed(windows: Seq<&WindowEntry>, indices: Seq<usize>) -> Seq<IndexedWindow> {
    Seq::new(
        if windows.len() <= indices.len() {
            windows.len()
        } else {
            indices.len()
        },
        |i: int| indexed_as(windows[i], indices[i]),
    )
}

/// Pair each window with its index and geometry. `None` if any paired window
/// lacks a position or a size.
pub fn extract_indexed(windows: &[&WindowEntry], global_indices: &[usize]) -> (r: Option<
    Vec<IndexedWindow>,
>)
    ensures
        r is Some <==> all_placed(
            windows@.take(indexed(windows@, global_indices@).len() as int),
        ),
        r matches Some(v) ==> v@ == indexed(windows@, global_indices@),
{
    let n: usize = if windows.len() <= global_indices.len() {
        windows.len()
    } else {
        global_indices.len()
    };
    let ghost paired = windows@.take(n as int);
    let mut out: Vec<IndexedWindow> = Vec::new();
    for i in 0..n
        invariant
            n == indexed(windows@, global_indices@).len(),
            n <= windows.len(),
            n <= global_indices.len(),
            paired == windows@.take(n as int),
            out@ == indexed(windows@, global_indices@).take(i as int),
            forall|j: int| 0 <= j < i ==> placed(#[trigger] paired[j]),
    {
        let w = windows[i];
        assert(paired[i as int] == windows@[i as int]);
        match (w.position, w.size) {
            (Some((x, y)), Some((ww, hh))) => {
                out.push(IndexedWindow { idx: global_indices[i], x, y, w: ww, h: hh });
                assert(out@ =~= indexed(windows@, global_indices@).take(i as int + 1));
            },
            _ => {
                return None;
            },
        }
    }
    Some(out)
}

pub open spec fn overlap(a_start: int, a_end: int, b_start: int, b_end: int) -> bool {
    a_start < b_end && b_start < a_end
}

/// Whether two half-open ranges share a point.
pub fn ranges_overlap(a_start: i32, a_end: i32, b_start: i32, b_end: i32) -> (r: bool)
    ensures
        r == overlap(a_start as int, a_end as int, b_start as int, b_end as int),
{
    a_start < b_end && b_start < a_end
}

/// `b` lies past `a` along the axis, and the two overlap across it.
pub open spec fn faces(a: IndexedWindow, b: IndexedWindow, horizontal: bool) -> bool {
    &&& b.start(horizontal) > a.end(horizontal)
    &&& overlap(a.start(!horizontal), a.end(!horizontal), b.start(!horizontal), b.end(!horizontal))
}

/// `c` lies in the space between `a` and `b` along the axis, and overlaps both
/// across it.
pub open spec fn stands_between(
    a: IndexedWindow,
    c: IndexedWindow,
    b: IndexedWindow,
    horizontal: bool,
) -> bool {
    &&& a.end(horizontal) <= c.start(horizontal)
    &&& c.end(horizontal) <= b.start(horizontal)
    &&& overlap(a.start(!horizontal), a.end(!horizontal), c.start(!horizontal), c.end(!horizontal))
    &&& overlap(c.start(!horizontal), c.end(!horizontal), b.start(!horizontal), b.end(!horizontal))
}

/// The two windows face each other along the axis, and no other window stands
/// between them.
pub open spec fn adjacent(
    ws: Seq<IndexedWindow>,
    a: IndexedWindow,
    b: IndexedWindow,
    horizontal: bool,
) -> bool {
    &&& ws.contains(a)
    &&& ws.contains(b)
    &&& faces(a, b, horizontal)
    &&& forall|c: IndexedWindow| #[trigger]
        ws.contains(c) && c != a && c != b ==> !stands_between(a, c, b, horizontal)
}

/// `g` is the widest gap between two adjacent windows, or 0 where none are
/// apart.
pub open spec fn is_widest_gap(ws: Seq<IndexedWindow>, g: int) -> bool {
    &&& g >= 0
    &&& forall|a: IndexedWindow, b: IndexedWindow, h: bool| #[trigger]
        adjacent(ws, a, b, h) ==> b.start(h) - a.end(h) <= g
    &&& g > 0 ==> exists|a: IndexedWindow, b: IndexedWindow, h: bool| #[trigger]
        adjacent(ws, a, b, h) && b.start(h) - a.end(h) == g
}

/// Every gap between adjacent windows is at most `limit`.
pub open spec fn gaps_within(ws: Seq<IndexedWindow>, limit: int) -> bool {
    ws.len() >= 2 ==> forall|a: IndexedWindow, b: IndexedWindow, h: bool| #[trigger]
        adjacent(ws, a, b, h) ==> b.start(h) - a.end(h) <= limit
}

/// The widest gap; 0 for fewer than two windows.
pub open spec fn widest_gap(ws: Seq<IndexedWindow>) -> int {
    if ws.len() < 2 {
        0
    } else {
        choose|g: int| is_widest_gap(ws, g)
    }
}

/// Two numbers that both are the widest gap are equal.
pub proof fn lemma_widest_gap_unique(ws: Seq<IndexedWindow>, a: int, b: int)
    requires
        is_widest_gap(ws, a),
        is_widest_gap(ws, b),
    ensures
        a == b,
{
}

/// Where a window begins and ends along an axis, in a type that holds any edge.
fn edges_of(w: IndexedWindow, horizontal: bool) -> (r: (i64, i64))
    ensures
        r.0 == w.start(horizontal),
        r.1 == w.end(horizontal),
        i32::MIN <= r.0 <= i32::MAX,
        2 * i32::MIN <= r.1 <= 2 * i32::MAX,
{
    if horizontal {
        (w.x as i64, w.x as i64 + w.w as i64)
    } else {
        (w.y as i64, w.y as i64 + w.h as i64)
    }
}

/// Whether a window stands between two others.
fn is_between(a: IndexedWindow, c: IndexedWindow, b: IndexedWindow, horizontal: bool) -> (r: bool)
    ensures
        r == stands_between(a, c, b, horizontal),
{
    let (_, a_end) = edges_of(a, horizontal);
    let (c_start, c_end) = edges_of(c, horizontal);
    let (b_start, _) = edges_of(b, horizontal);
    let (a_near, a_far) = edges_of(a, !horizontal);
    let (c_near, c_far) = edges_of(c, !horizontal);
    let (b_near, b_far) = edges_of(b, !horizontal);
    a_end <= c_start && c_end <= b_start && a_near < c_far && c_near < a_far && c_near < b_far
        && b_near < c_far
}

/// The gap from one of the windows to another along the axis, where the two
/// are adjacent.
fn gap_between(
    indexed: &[IndexedWindow],
    a: IndexedWindow,
    b: IndexedWindow,
    horizontal: bool,
) -> (r: Option<i64>)
    requires
        indexed@.contains(a),
        indexed@.contains(b),
    ensures
        r is Some <==> adjacent(indexed@, a, b, horizontal),
        r matches Some(g) ==> g == b.start(horizontal) - a.end(horizontal) && 0 < g <= 4 * i32::MAX,
{
    let (_, a_end) = edges_of(a, horizontal);
    let (b_start, _) = edges_of(b, horizontal);
    let (a_near, a_far) = edges_of(a, !horizontal);
    let (b_near, b_far) = edges_of(b, !horizontal);
    if b_start <= a_end || a_near >= b_far || b_near >= a_far {
        return None;
    }
    for k in 0..indexed.len()
        invariant
            forall|q: int|
                0 <= q < k && indexed@[q] != a && indexed@[q] != b ==> !stands_between(
                    a,
                    #[trigger] indexed@[q],
                    b,
                    horizontal,
                ),
    {
        let c = indexed[k];
        if c != a && c != b && is_between(a, c, b, horizontal) {
            assert(indexed@.contains(c));
            return None;
        }
    }
    Some(b_start - a_end)
}

/// The widest gap, in a type that holds any gap.
pub(crate) fn measure_widest_gap(indexed: &[IndexedWindow]) -> (g: i64)
    ensures
        g == widest_gap(indexed@),
        0 <= g <= 4 * i32::MAX,
        indexed@.len() >= 2 ==> is_widest_gap(indexed@, g as int),
{
    if indexed.len() < 2 {
        return 0;
    }
    let mut max_gap: i64 = 0;
    for i in 0..indexed.len()
        invariant
            0 <= max_gap <= 4 * i32::MAX,
            forall|p: int, b: IndexedWindow, h: bool|
                0 <= p < i && #[trigger] adjacent(indexed@, indexed@[p], b, h) ==> b.start(h)
                    - indexed@[p].end(h) <= max_gap,
            max_gap > 0 ==> exists|a: IndexedWindow, b: IndexedWindow, h: bool| #[trigger]
                adjacent(indexed@, a, b, h) && b.start(h) - a.end(h) == max_gap,
    {
        let a = indexed[i];
        for j in 0..indexed.len()
            invariant
                0 <= i < indexed@.len(),
                a == indexed@[i as int],
                0 <= max_gap <= 4 * i32::MAX,
                forall|p: int, b: IndexedWindow, h: bool|
                    0 <= p < i && #[trigger] adjacent(indexed@, indexed@[p], b, h) ==> b.start(h)
                        - indexed@[p].end(h) <= max_gap,
                forall|q: int, h: bool|
                    0 <= q < j && #[trigger] adjacent(indexed@, a, indexed@[q], h)
                        ==> indexed@[q].start(h) - a.end(h) <= max_gap,
                max_gap > 0 ==> exists|a: IndexedWindow, b: IndexedWindow, h: bool| #[trigger]
                    adjacent(indexed@, a, b, h) && b.start(h) - a.end(h) == max_gap,
        {
            let b = indexed[j];
            // b is to the right of a
            if let Some(gap) = gap_between(indexed, a, b, true) {
                if gap > max_gap {
                    max_gap = gap;
                }
            }
            // b is below a
            if let Some(gap) = gap_between(indexed, a, b, false) {
                if gap > max_gap {
                    max_gap = gap;
                }
            }
        }
        assert forall|b: IndexedWindow, h: bool| #[trigger]
            adjacent(indexed@, a, b, h) implies b.start(h) - a.end(h) <= max_gap by {
            let q = choose|q: int| 0 <= q < indexed@.len() && indexed@[q] == b;
            assert(adjacent(indexed@, a, indexed@[q], h));
        }
    }
    proof {
        assert forall|a: IndexedWindow, b: IndexedWindow, h: bool| #[trigger]
            adjacent(indexed@, a, b, h) implies b.start(h) - a.end(h) <= max_gap by {
            let p = choose|p: int| 0 <= p < indexed@.len() && indexed@[p] == a;
            assert(adjacent(indexed@, indexed@[p], b, h));
        }
        assert(is_widest_gap(indexed@, max_gap as int));
        lemma_widest_gap_unique(indexed@, max_gap as int, widest_gap(indexed@));
    }
    max_gap
}

/// A bound on every gap is a bound on the widest one, and the other way round.
pub(crate) proof fn lemma_gaps_within(ws: Seq<IndexedWindow>, limit: int)
    requires
        0 <= limit,
        ws.len() >= 2 ==> is_widest_gap(ws, widest_gap(ws)),
    ensures
        gaps_within(ws, limit) <==> widest_gap(ws) <= limit,
{
    if ws.len() >= 2 && widest_gap(ws) > 0 {
        let (a, b, h) = choose|a: IndexedWindow, b: IndexedWindow, h: bool| #[trigger]
            adjacent(ws, a, b, h) && b.start(h) - a.end(h) == widest_gap(ws);
        assert(adjacent(ws, a, b, h));
    }
}

/// Measure the largest pixel gap between adjacent tiled windows by examining
/// pairs that overlap in the perpendicular axis, with no other window between
/// them. Returns 0 when no gaps are
/// found (e.g. `gaps_in = 0` or a single window).
pub fn infer_gap_from_geometry(indexed: &[IndexedWindow]) -> (g: i32)
    requires
        gaps_within(indexed@, i32::MAX as int),
    ensures
        g == widest_gap(indexed@),
        indexed@.len() < 2 ==> g == 0,
        indexed@.len() >= 2 ==> is_widest_gap(indexed@, g as int),
{
    let gap: i64 = measure_widest_gap(indexed);
    proof {
        lemma_gaps_within(indexed@, i32::MAX as int);
    }
    gap as i32
}

/// A placed entry's rectangle.
pub open spec fn rect_of(w: &WindowEntry) -> Rect {
    Rect { x: (w.position->0).0, y: (w.position->0).1, w: (w.size->0).0, h: (w.size->0).1 }
}

pub open spec fn rects(windows: Seq<&WindowEntry>) -> Seq<Rect> {
    Seq::new(windows.len(), |i: int| rect_of(windows[i]))
}

/// The least near edge along the axis.
pub open spec fn least_start(rs: Seq<Rect>, horizontal: bool) -> int
    decreases rs.len(),
{
    if rs.len() == 0 {
        i32::MAX as int
    } else {
        let rest = least_start(rs.drop_last(), horizontal);
        if rs.last().start(horizontal) < rest {
            rs.last().start(horizontal)
        } else {
            rest
        }
    }
}

/// The greatest far edge along the axis.
pub open spec fn greatest_end(rs: Seq<Rect>, horizontal: bool) -> int
    decreases rs.len(),
{
    if rs.len() == 0 {
        i32::MIN as int
    } else {
        let rest = greatest_end(rs.drop_last(), horizontal);
        if rs.last().end(horizontal) > rest {
            rs.last().end(horizontal)
        } else {
            rest
        }
    }
}

/// How far the rectangles reach along the axis; not positive for none.
pub open spec fn span(rs: Seq<Rect>, horizontal: bool) -> int {
    greatest_end(rs, horizontal) - least_start(rs, horizontal)
}

/// The smallest rectangle around the windows, where each of them is placed
/// and the rectangle has an area.
pub open spec fn bounding(windows: Seq<&WindowEntry>) -> Option<Rect> {
    let rs = rects(windows);
    if all_placed(windows) && span(rs, true) > 0 && span(rs, false) > 0 {
        Some(
            Rect {
                x: least_start(rs, true) as i32,
                y: least_start(rs, false) as i32,
                w: span(rs, true) as i32,
                h: span(rs, false) as i32,
            },
        )
    } else {
        None
    }
}

/// Every far edge, and the bounding rectangle's width and height where there
/// is one, are representable.
pub open spec fn bounding_fits(windows: Seq<&WindowEntry>) -> bool {
    all_placed(windows) ==> {
        let rs = rects(windows);
        &&& forall|i: int| 0 <= i < rs.len() ==> (#[trigger] rs[i]).fits()
        &&& span(rs, true) > 0 && span(rs, false) > 0 ==> span(rs, true) <= i32::MAX && span(
            rs,
            false,
        ) <= i32::MAX
    }
}

/// The extremes along an axis bound every rectangle, and some rectangle
/// reaches each of them.
pub proof fn lemma_extremes(rs: Seq<Rect>, horizontal: bool)
    requires
        forall|i: int| 0 <= i < rs.len() ==> (#[trigger] rs[i]).fits(),
    ensures
        i32::MIN <= least_start(rs, horizontal) <= i32::MAX,
        i32::MIN <= greatest_end(rs, horizontal) <= i32::MAX,
        forall|i: int|
            0 <= i < rs.len() ==> least_start(rs, horizontal) <= (#[trigger] rs[i]).start(
                horizontal,
            ) && rs[i].end(horizontal) <= greatest_end(rs, horizontal),
        rs.len() > 0 ==> exists|i: int|
            0 <= i < rs.len() && (#[trigger] rs[i]).start(horizontal) == least_start(
                rs,
                horizontal,
            ),
        rs.len() > 0 ==> exists|i: int|
            0 <= i < rs.len() && (#[trigger] rs[i]).end(horizontal) == greatest_end(rs, horizontal),
    decreases rs.len(),
{
    if rs.len() > 0 {
        let rest = rs.drop_last();
        assert forall|i: int| 0 <= i < rest.len() implies (#[trigger] rest[i]).fits() by {
            assert(rest[i] == rs[i]);
        }
        lemma_extremes(rest, horizontal);
        let last = rs.len() - 1;
        assert(rs[last] == rs.last());
        assert(rs[last].fits());
        assert forall|i: int| 0 <= i < rs.len() implies least_start(rs, horizontal) <= (
        #[trigger] rs[i]).start(horizontal) && rs[i].end(horizontal) <= greatest_end(
            rs,
            horizontal,
        ) by {
            if i < last {
                assert(rest[i] == rs[i]);
            }
        }
        if rest.len() > 0 {
            let a = choose|i: int|
                0 <= i < rest.len() && (#[trigger] rest[i]).start(horizontal) == least_start(
                    rest,
                    horizontal,
                );
            let b = choose|i: int|
                0 <= i < rest.len() && (#[trigger] rest[i]).end(horizontal) == greatest_end(
                    rest,
                    horizontal,
                );
            assert(rs[a] == rest[a]);
            assert(rs[b] == rest[b]);
        }
    }
}

/// The bounding rectangle contains every window, and each of its four sides
/// is touched by one.
pub proof fn law_bounding_rect_is_tight(windows: Seq<&WindowEntry>, horizontal: bool)
    requires
        bounding_fits(windows),
        bounding(windows) is Some,
    ensures
        forall|i: int|
            0 <= i < windows.len() ==> bounding(windows)->0.start(horizontal) <= rect_of(
                #[trigger] windows[i],
            ).start(horizontal) && rect_of(windows[i]).end(horizontal) <= bounding(windows)->0.end(
                horizontal,
            ),
        exists|i: int|
            0 <= i < windows.len() && rect_of(#[trigger] windows[i]).start(horizontal) == bounding(
                windows,
            )->0.start(horizontal),
        exists|i: int|
            0 <= i < windows.len() && rect_of(#[trigger] windows[i]).end(horizontal) == bounding(
                windows,
            )->0.end(horizontal),
{
    let rs = rects(windows);
    lemma_extremes(rs, true);
    lemma_extremes(rs, false);
    assert forall|i: int| 0 <= i < windows.len() implies rs[i] == rect_of(#[trigger] windows[i]) by {}
    let a = choose|i: int|
        0 <= i < rs.len() && (#[trigger] rs[i]).start(horizontal) == least_start(rs, horizontal);
    let b = choose|i: int|
        0 <= i < rs.len() && (#[trigger] rs[i]).end(horizontal) == greatest_end(rs, horizontal);
    assert(rect_of(windows[a]).start(horizontal) == bounding(windows)->0.start(horizontal));
    assert(rect_of(windows[b]).end(horizontal) == bounding(windows)->0.end(horizontal));
}

/// The least left, least top, greatest right and greatest bottom edge, where
/// every window is placed.
fn extremes(windows: &[&WindowEntry]) -> (r: Option<(i64, i64, i64, i64)>)
    ensures
        r is Some <==> all_placed(windows@),
        r matches Some((left, top, right, bottom)) ==> {
            let rs = rects(windows@);
            &&& left == least_start(rs, true)
            &&& top == least_start(rs, false)
            &&& right == greatest_end(rs, true)
            &&& bottom == greatest_end(rs, false)
            &&& i32::MIN <= left <= i32::MAX
            &&& i32::MIN <= top <= i32::MAX
            &&& 2 * i32::MIN <= right <= 2 * i32::MAX
            &&& 2 * i32::MIN <= bottom <= 2 * i32::MAX
        },
{
    let mut min_x: i64 = i32::MAX as i64;
    let mut min_y: i64 = i32::MAX as i64;
    let mut max_x: i64 = i32::MIN as i64;
    let mut max_y: i64 = i32::MIN as i64;
    let ghost rs = rects(windows@);
    for i in 0..windows.len()
        invariant
            rs == rects(windows@),
            forall|j: int| 0 <= j < i ==> placed(#[trigger] windows@[j]),
            min_x == least_start(rs.take(i as int), true),
            min_y == least_start(rs.take(i as int), false),
            max_x == greatest_end(rs.take(i as int), true),
            max_y == greatest_end(rs.take(i as int), false),
            i32::MIN <= min_x <= i32::MAX,
            i32::MIN <= min_y <= i32::MAX,
            2 * i32::MIN <= max_x <= 2 * i32::MAX,
            2 * i32::MIN <= max_y <= 2 * i32::MAX,
    {
        let w = windows[i];
        match (w.position, w.size) {
            (Some((x, y)), Some((ww, hh))) => {
                proof {
                    let next = rs.take(i as int + 1);
                    assert(next.drop_last() =~= rs.take(i as int));
                    assert(next.last() == rect_of(windows@[i as int]));
                }
                let right: i64 = x as i64 + ww as i64;
                let bottom: i64 = y as i64 + hh as i64;
                if (x as i64) < min_x {
                    min_x = x as i64;
                }
                if (y as i64) < min_y {
                    min_y = y as i64;
                }
                if right > max_x {
                    max_x = right;
                }
                if bottom > max_y {
                    max_y = bottom;
                }
            },
            _ => {
                return None;
            },
        }
    }
    assert(rs.take(windows@.len() as int) =~= rs);
    Some((min_x, min_y, max_x, max_y))
}

/// Compute the bounding rectangle of a set of windows.
pub fn bounding_rect(windows: &[&WindowEntry]) -> (r: Option<Rect>)
    requires
        bounding_fits(windows@),
    ensures
        r == bounding(windows@),
{
    match extremes(windows) {
        Some((min_x, min_y, max_x, max_y)) => {
            if min_x >= max_x || min_y >= max_y {
                return None;
            }
            Some(
                Rect {
                    x: min_x as i32,
                    y: min_y as i32,
                    w: (max_x - min_x) as i32,
                    h: (max_y - min_y) as i32,
                },
            )
        },
        None => None,
    }
}

/// What a plan's arithmetic needs of the saved geometry, where every window
/// has one: that the bounding rectangle and the widest gap, with the rounding
/// buffer on top, are representable.
pub open spec fn geometry_fits(windows: Seq<&WindowEntry>, indices: Seq<usize>) -> bool {
    all_placed(windows) ==> {
        &&& bounding_fits(windows)
        &&& gaps_within(indexed(windows, indices), i32::MAX - GAP_ROUNDING_BUFFER)
    }
}

/// Whether a plan can be computed for the windows at all: their edges, spans
/// and gaps fit the coordinate type.
pub fn geometry_in_range(windows: &[&WindowEntry], global_indices: &[usize]) -> (r: bool)
    ensures
        r == geometry_fits(windows@, global_indices@),
{
    let (min_x, min_y, max_x, max_y) = match extremes(windows) {
        Some(found) => found,
        None => {
            return true;
        },
    };
    let ghost rs = rects(windows@);
    let limit: i64 = i32::MAX as i64;
    for i in 0..windows.len()
        invariant
            all_placed(windows@),
            rs == rects(windows@),
            limit == i32::MAX,
            forall|j: int| 0 <= j < i ==> (#[trigger] rs[j]).fits(),
    {
        let w = windows[i];
        assert(placed(windows@[i as int]));
        match (w.position, w.size) {
            (Some((x, y)), Some((ww, hh))) => {
                let right: i64 = x as i64 + ww as i64;
                let bottom: i64 = y as i64 + hh as i64;
                assert(rs[i as int].end(true) == right && rs[i as int].end(false) == bottom);
                if right > limit || right < i32::MIN as i64 || bottom > limit || bottom
                    < i32::MIN as i64 {
                    assert(!rs[i as int].fits());
                    return false;
                }
            },
            _ => {},
        }
    }
    if max_x > min_x && max_y > min_y && (max_x - min_x > limit || max_y - min_y > limit) {
        return false;
    }
    assert(bounding_fits(windows@));
    proof {
        let n = indexed(windows@, global_indices@).len() as int;
        assert forall|i: int| 0 <= i < windows@.take(n).len() implies placed(
            #[trigger] windows@.take(n)[i],
        ) by {
            assert(windows@.take(n)[i] == windows@[i]);
        }
    }
    match extract_indexed(windows, global_indices) {
        Some(ws) => {
            let gap: i64 = measure_widest_gap(ws.as_slice());
            proof {
                lemma_gaps_within(ws@, i32::MAX - GAP_ROUNDING_BUFFER);
            }
            gap <= limit - GAP_ROUNDING_BUFFER as i64
        },
        None => true,
    }
}

/// The two parts of `bounds` on either side of a line across the axis.
pub open spec fn split_rect(bounds: Rect, horizontal: bool, at: int) -> (Rect, Rect) {
    if horizontal {
        (
            Rect { w: (at - bounds.x) as i32, ..bounds },
            Rect { x: at as i32, w: (bounds.x + bounds.w - at) as i32, ..bounds },
        )
    } else {
        (
            Rect { h: (at - bounds.y) as i32, ..bounds },
            Rect { y: at as i32, h: (bounds.y + bounds.h - at) as i32, ..bounds },
        )
    }
}

/// Cut a rectangle in two at `split_at`.
pub fn split_bounds(bounds: Rect, split_axis_is_h: bool, split_at: i32) -> (r: (Rect, Rect))
    requires
        i32::MIN <= split_at - bounds.start(split_axis_is_h) <= i32::MAX,
        i32::MIN <= bounds.end(split_axis_is_h) - split_at <= i32::MAX,
    ensures
        r == split_rect(bounds, split_axis_is_h, split_at as int),
{
    if split_axis_is_h {
        let far: i64 = bounds.x as i64 + bounds.w as i64;
        (
            Rect {
                x: bounds.x,
                y: bounds.y,
                w: (split_at as i64 - bounds.x as i64) as i32,
                h: bounds.h,
            },
            Rect { x: split_at, y: bounds.y, w: (far - split_at as i64) as i32, h: bounds.h },
        )
    } else {
        let far: i64 = bounds.y as i64 + bounds.h as i64;
        (
            Rect {
                x: bounds.x,
                y: bounds.y,
                w: bounds.w,
                h: (split_at as i64 - bounds.y as i64) as i32,
            },
            Rect { x: bounds.x, y: split_at, w: bounds.w, h: (far - split_at as i64) as i32 },
        )
    }
}

/// The two parts of a rectangle meet at the line and make up the whole.
pub proof fn law_split_bounds_tile(bounds: Rect, horizontal: bool, at: i32)
    requires
        bounds.start(horizontal) <= at <= bounds.end(horizontal) <= i32::MAX,
    ensures
        ({
            let (a, b) = split_rect(bounds, horizontal, at as int);
            &&& a.start(horizontal) == bounds.start(horizontal)
            &&& a.end(horizontal) == at
            &&& b.start(horizontal) == at
            &&& b.end(horizontal) == bounds.end(horizontal)
            &&& a.extent(horizontal) + b.extent(horizontal) == bounds.extent(horizontal)
            &&& a.start(!horizontal) == bounds.start(!horizontal)
            &&& b.start(!horizontal) == bounds.start(!horizontal)
            &&& a.extent(!horizontal) == bounds.extent(!horizontal)
            &&& b.extent(!horizontal) == bounds.extent(!horizontal)
        }),
{
}

/// In strictly ascending order, so nothing occurs twice.
pub open spec fn ascending(v: Seq<i32>) -> bool {
    forall|i: int, j: int| 0 <= i < j < v.len() ==> v[i] < v[j]
}

/// Insert `x` at its place, unless it is there already.
fn insert_ascending(v: &mut Vec<i32>, x: i32)
    requires
        ascending(old(v)@),
    ensures
        ascending(final(v)@),
        forall|y: i32| #[trigger] final(v)@.contains(y) <==> old(v)@.contains(y) || y == x,
{
    let mut at: usize = 0;
    while at < v.len() && v[at] < x
        invariant
            at <= v@.len(),
            v@ == old(v)@,
            forall|j: int| 0 <= j < at ==> v@[j] < x,
        decreases v@.len() - at,
    {
        at = at + 1;
    }
    if at < v.len() && v[at] == x {
        return;
    }
    let ghost before = v@;
    v.insert(at, x);
    proof {
        assert forall|y: i32| #[trigger] v@.contains(y) <==> before.contains(y) || y == x by {
            if before.contains(y) {
                let i = choose|i: int| 0 <= i < before.len() && before[i] == y;
                if i < at {
                    assert(v@[i] == y);
                } else {
                    assert(v@[i + 1] == y);
                }
            }
            if y == x {
                assert(v@[at as int] == y);
            }
            if v@.contains(y) {
                let i = choose|i: int| 0 <= i < v@.len() && v@[i] == y;
                if i < at {
                    assert(before[i] == y);
                } else if i > at {
                    assert(before[i - 1] == y);
                }
            }
        }
    }
}

/// `v` is an edge of some window along the axis.
pub open spec fn is_edge(ws: Seq<IndexedWindow>, horizontal: bool, v: int) -> bool {
    exists|i: int|
        0 <= i < ws.len() && ((#[trigger] ws[i]).start(horizontal) == v || ws[i].end(horizontal)
            == v)
}

/// `a` and `b` are edges, in this order, with no edge between them.
pub open spec fn next_edges(ws: Seq<IndexedWindow>, horizontal: bool, a: int, b: int) -> bool {
    &&& a < b
    &&& is_edge(ws, horizontal, a)
    &&& is_edge(ws, horizontal, b)
    &&& forall|e: int| a < e < b ==> !#[trigger] is_edge(ws, horizontal, e)
}

/// `v` lies halfway between neighbouring edges at most `tolerance` apart.
pub open spec fn is_gap_midpoint(
    ws: Seq<IndexedWindow>,
    horizontal: bool,
    tolerance: int,
    v: int,
) -> bool {
    exists|a: int, b: int| #[trigger]
        next_edges(ws, horizontal, a, b) && b - a <= tolerance && v == a + (b - a) / 2
}

/// `v` is a place where a split may be tried.
pub open spec fn is_candidate(
    ws: Seq<IndexedWindow>,
    horizontal: bool,
    tolerance: int,
    v: int,
) -> bool {
    is_edge(ws, horizontal, v) || is_gap_midpoint(ws, horizontal, tolerance, v)
}

proof fn lemma_is_edge_take(ws: Seq<IndexedWindow>, horizontal: bool, k: int, v: int)
    requires
        0 <= k < ws.len(),
    ensures
        is_edge(ws.take(k + 1), horizontal, v) <==> is_edge(ws.take(k), horizontal, v)
            || ws[k].start(horizontal) == v || ws[k].end(horizontal) == v,
{
    let a = ws.take(k);
    let b = ws.take(k + 1);
    if is_edge(a, horizontal, v) {
        let i = choose|i: int|
            0 <= i < a.len() && ((#[trigger] a[i]).start(horizontal) == v || a[i].end(horizontal)
                == v);
        assert(b[i] == a[i]);
    }
    if ws[k].start(horizontal) == v || ws[k].end(horizontal) == v {
        assert(b[k] == ws[k]);
    }
    if is_edge(b, horizontal, v) {
        let i = choose|i: int|
            0 <= i < b.len() && ((#[trigger] b[i]).start(horizontal) == v || b[i].end(horizontal)
                == v);
        if i < k {
            assert(a[i] == b[i]);
        }
    }
}

/// The edges along one axis, in ascending order.
fn sorted_edges(indexed: &[IndexedWindow], horizontal: bool) -> (edges: Vec<i32>)
    requires
        edges_fit(indexed@),
    ensures
        ascending(edges@),
        forall|v: i32| #[trigger]
            edges@.contains(v) <==> is_edge(indexed@, horizontal, v as int),
{
    let mut edges: Vec<i32> = Vec::new();
    for i in 0..indexed.len()
        invariant
            edges_fit(indexed@),
            ascending(edges@),
            forall|v: i32| #[trigger]
                edges@.contains(v) <==> is_edge(indexed@.take(i as int), horizontal, v as int),
    {
        let iw = indexed[i];
        assert(indexed@[i as int].end(true) <= i32::MAX);
        let ghost before = edges@;
        if horizontal {
            insert_ascending(&mut edges, iw.x);
            insert_ascending(&mut edges, iw.x + iw.w);
        } else {
            insert_ascending(&mut edges, iw.y);
            insert_ascending(&mut edges, iw.y + iw.h);
        }
        proof {
            assert forall|v: i32| #[trigger]
                edges@.contains(v) <==> is_edge(
                    indexed@.take(i as int + 1),
                    horizontal,
                    v as int,
                ) by {
                assert(before.contains(v) <==> is_edge(
                    indexed@.take(i as int),
                    horizontal,
                    v as int,
                ));
                lemma_is_edge_take(indexed@, horizontal, i as int, v as int);
            }
        }
    }
    assert(indexed@.take(indexed@.len() as int) =~= indexed@);
    edges
}

/// `v` is the midpoint of one of the first `n` narrow steps in a list.
spec fn midpoint_among(edges: Seq<i32>, tolerance: int, n: int, v: int) -> bool {
    exists|k: int|
        0 <= k < n && edges[k + 1] - (#[trigger] edges[k]) <= tolerance && v == edges[k] + (
        edges[k + 1] - edges[k]) / 2
}

proof fn lemma_midpoints(
    ws: Seq<IndexedWindow>,
    horizontal: bool,
    tolerance: int,
    edges: Seq<i32>,
    v: int,
)
    requires
        edges_fit(ws),
        ascending(edges),
        forall|e: i32| #[trigger] edges.contains(e) <==> is_edge(ws, horizontal, e as int),
    ensures
        midpoint_among(edges, tolerance, edges.len() - 1, v) <==> is_gap_midpoint(
            ws,
            horizontal,
            tolerance,
            v,
        ),
{
    if midpoint_among(edges, tolerance, edges.len() - 1, v) {
        let k = choose|k: int|
            0 <= k < edges.len() - 1 && edges[k + 1] - (#[trigger] edges[k]) <= tolerance && v
                == edges[k] + (edges[k + 1] - edges[k]) / 2;
        let a = edges[k];
        let b = edges[k + 1];
        assert(edges.contains(a) && edges.contains(b));
        assert forall|e: int| a < e < b implies !#[trigger] is_edge(ws, horizontal, e) by {
            if is_edge(ws, horizontal, e) {
                assert(edges.contains(e as i32));
                let q = choose|q: int| 0 <= q < edges.len() && edges[q] == e as i32;
                if q <= k {
                    assert(edges[q] <= edges[k]);
                } else {
                    assert(edges[q] >= edges[k + 1]);
                }
            }
        }
        assert(next_edges(ws, horizontal, a as int, b as int));
    }
    if is_gap_midpoint(ws, horizontal, tolerance, v) {
        let (a, b) = choose|a: int, b: int| #[trigger]
            next_edges(ws, horizontal, a, b) && b - a <= tolerance && v == a + (b - a) / 2;
        lemma_edge_fits(ws, horizontal, a);
        lemma_edge_fits(ws, horizontal, b);
        assert(edges.contains(a as i32) && edges.contains(b as i32));
        let p = choose|p: int| 0 <= p < edges.len() && edges[p] == a as i32;
        let q = choose|q: int| 0 <= q < edges.len() && edges[q] == b as i32;
        if q <= p {
            assert(edges[q] <= edges[p]);
        }
        if q > p + 1 {
            let e = edges[p + 1];
            assert(edges[p] < e < edges[q]);
            assert(edges.contains(e));
            assert(is_edge(ws, horizontal, e as int));
        }
        assert(edges[p + 1] - edges[p] <= tolerance);
    }
}

proof fn lemma_edge_fits(ws: Seq<IndexedWindow>, horizontal: bool, v: int)
    requires
        edges_fit(ws),
        is_edge(ws, horizontal, v),
    ensures
        i32::MIN <= v <= i32::MAX,
{
    let i = choose|i: int|
        0 <= i < ws.len() && ((#[trigger] ws[i]).start(horizontal) == v || ws[i].end(horizontal)
            == v);
    assert(i32::MIN <= ws[i].end(true) <= i32::MAX && i32::MIN <= ws[i].end(false) <= i32::MAX);
}

/// Collect split-edge candidates along one axis, including gap midpoints
/// that account for Hyprland's `gaps_in`.
pub fn split_candidates(indexed: &[IndexedWindow], horizontal: bool, tolerance: i32) -> (r: Vec<
    i32,
>)
    requires
        edges_fit(indexed@),
    ensures
        ascending(r@),
        forall|v: i32| #[trigger]
            r@.contains(v) <==> is_candidate(indexed@, horizontal, tolerance as int, v as int),
{
    let edges = sorted_edges(indexed, horizontal);
    let mut candidates: Vec<i32> = edges.clone();
    assert(candidates@ =~= edges@);
    let mut k: usize = 0;
    while k + 1 < edges.len()
        invariant
            ascending(edges@),
            ascending(candidates@),
            k == 0 || k < edges@.len(),
            edges@.len() <= usize::MAX,
            forall|v: i32| #[trigger]
                candidates@.contains(v) <==> edges@.contains(v) || midpoint_among(
                    edges@,
                    tolerance as int,
                    k as int,
                    v as int,
                ),
        decreases edges@.len() - k,
    {
        let a: i32 = edges[k];
        let b: i32 = edges[k + 1];
        let gap: i64 = b as i64 - a as i64;
        let ghost before = candidates@;
        if gap > 0 && gap <= tolerance as i64 {
            let mid: i32 = (a as i64 + gap / 2) as i32;
            insert_ascending(&mut candidates, mid);
        }
        proof {
            assert(a < b);
            assert forall|v: i32| #[trigger]
                candidates@.contains(v) <==> edges@.contains(v) || midpoint_among(
                    edges@,
                    tolerance as int,
                    k as int + 1,
                    v as int,
                ) by {
                assert(before.contains(v) <==> edges@.contains(v) || midpoint_among(
                    edges@,
                    tolerance as int,
                    k as int,
                    v as int,
                ));
                if midpoint_among(edges@, tolerance as int, k as int + 1, v as int) {
                    let m = choose|m: int|
                        0 <= m < k + 1 && edges@[m + 1] - (#[trigger] edges@[m]) <= tolerance && v
                            == edges@[m] + (edges@[m + 1] - edges@[m]) / 2;
                    if m < k {
                        assert(edges@[m + 1] - edges@[m] <= tolerance);
                    }
                }
                if midpoint_among(edges@, tolerance as int, k as int, v as int) {
                    let m = choose|m: int|
                        0 <= m < k && edges@[m + 1] - (#[trigger] edges@[m]) <= tolerance && v
                            == edges@[m] + (edges@[m + 1] - edges@[m]) / 2;
                    assert(edges@[m + 1] - edges@[m] <= tolerance);
                }
            }
        }
        k = k + 1;
    }
    proof {
        assert forall|v: i32| #[trigger]
            candidates@.contains(v) <==> is_candidate(
                indexed@,
                horizontal,
                tolerance as int,
                v as int,
            ) by {
            lemma_midpoints(indexed@, horizontal, tolerance as int, edges@, v as int);
            if edges@.len() == 0 {
                assert(!midpoint_among(edges@, tolerance as int, 0, v as int));
                assert(!midpoint_among(edges@, tolerance as int, -1, v as int));
            }
        }
    }
    candidates
}

/// The window ends at the split line, give or take the tolerance.
pub open spec fn goes_first(iw: IndexedWindow, horizontal: bool, tolerance: int, at: int) -> bool {
    iw.end(horizontal) <= at + tolerance
}

/// The window ends past the split line and starts at it, give or take the
/// tolerance.
pub open spec fn goes_second(iw: IndexedWindow, horizontal: bool, tolerance: int, at: int) -> bool {
    !goes_first(iw, horizontal, tolerance, at) && iw.start(horizontal) >= at - tolerance
}

/// The windows before the split line, in order.
pub open spec fn firsts(
    ws: Seq<IndexedWindow>,
    horizontal: bool,
    tolerance: int,
    at: int,
) -> Seq<IndexedWindow> {
    ws.filter(|iw: IndexedWindow| goes_first(iw, horizontal, tolerance, at))
}

/// The windows past the split line, in order.
pub open spec fn seconds(
    ws: Seq<IndexedWindow>,
    horizontal: bool,
    tolerance: int,
    at: int,
) -> Seq<IndexedWindow> {
    ws.filter(|iw: IndexedWindow| goes_second(iw, horizontal, tolerance, at))
}

/// No window straddles the line, and there are windows on both sides.
pub open spec fn separates(
    ws: Seq<IndexedWindow>,
    horizontal: bool,
    tolerance: int,
    at: int,
) -> bool {
    &&& forall|i: int|
        0 <= i < ws.len() ==> goes_first(#[trigger] ws[i], horizontal, tolerance, at)
            || goes_second(ws[i], horizontal, tolerance, at)
    &&& exists|i: int| 0 <= i < ws.len() && goes_first(#[trigger] ws[i], horizontal, tolerance, at)
    &&& exists|i: int| 0 <= i < ws.len() && goes_second(#[trigger] ws[i], horizontal, tolerance, at)
}

pub open spec fn idx_of(ws: Seq<IndexedWindow>) -> Seq<usize> {
    Seq::new(ws.len(), |i: int| ws[i].idx)
}

pub(crate) proof fn lemma_groups_take(
    ws: Seq<IndexedWindow>,
    horizontal: bool,
    tolerance: int,
    at: int,
    k: int,
)
    requires
        0 <= k < ws.len(),
    ensures
        firsts(ws.take(k + 1), horizontal, tolerance, at) == if goes_first(
            ws[k],
            horizontal,
            tolerance,
            at,
        ) {
            firsts(ws.take(k), horizontal, tolerance, at).push(ws[k])
        } else {
            firsts(ws.take(k), horizontal, tolerance, at)
        },
        seconds(ws.take(k + 1), horizontal, tolerance, at) == if goes_second(
            ws[k],
            horizontal,
            tolerance,
            at,
        ) {
            seconds(ws.take(k), horizontal, tolerance, at).push(ws[k])
        } else {
            seconds(ws.take(k), horizontal, tolerance, at)
        },
{
    assert(ws.take(k + 1).drop_last() =~= ws.take(k));
    assert(ws.take(k + 1).last() == ws[k]);
    reveal(Seq::filter);
}

/// Every separated window goes to exactly one side, so each side is smaller
/// than the whole.
pub proof fn lemma_groups_sizes(ws: Seq<IndexedWindow>, horizontal: bool, tolerance: int, at: int)
    requires
        separates(ws, horizontal, tolerance, at),
    ensures
        0 < firsts(ws, horizontal, tolerance, at).len() < ws.len(),
        0 < seconds(ws, horizontal, tolerance, at).len() < ws.len(),
        firsts(ws, horizontal, tolerance, at).len() + seconds(ws, horizontal, tolerance, at).len()
            == ws.len(),
{
    lemma_groups_total(ws, horizontal, tolerance, at, ws.len() as int);
    assert(ws.take(ws.len() as int) =~= ws);
    let a = choose|i: int|
        0 <= i < ws.len() && goes_first(#[trigger] ws[i], horizontal, tolerance, at);
    let b = choose|i: int|
        0 <= i < ws.len() && goes_second(#[trigger] ws[i], horizontal, tolerance, at);
    let p = |iw: IndexedWindow| goes_first(iw, horizontal, tolerance, at);
    let q = |iw: IndexedWindow| goes_second(iw, horizontal, tolerance, at);
    ws.lemma_filter_contains(p, a);
    ws.lemma_filter_contains(q, b);
    assert(firsts(ws, horizontal, tolerance, at).contains(ws[a]));
    assert(seconds(ws, horizontal, tolerance, at).contains(ws[b]));
}

proof fn lemma_groups_total(
    ws: Seq<IndexedWindow>,
    horizontal: bool,
    tolerance: int,
    at: int,
    k: int,
)
    requires
        0 <= k <= ws.len(),
        forall|i: int|
            0 <= i < ws.len() ==> goes_first(#[trigger] ws[i], horizontal, tolerance, at)
                || goes_second(ws[i], horizontal, tolerance, at),
    ensures
        firsts(ws.take(k), horizontal, tolerance, at).len() + seconds(
            ws.take(k),
            horizontal,
            tolerance,
            at,
        ).len() == k,
    decreases k,
{
    if k > 0 {
        lemma_groups_total(ws, horizontal, tolerance, at, k - 1);
        lemma_groups_take(ws, horizontal, tolerance, at, k - 1);
        assert(goes_first(ws[k - 1], horizontal, tolerance, at) || goes_second(
            ws[k - 1],
            horizontal,
            tolerance,
            at,
        ));
    } else {
        reveal(Seq::filter);
    }
}

/// The two groups on either side of a split line, or `None` if a window
/// straddles the line or a side is empty.
pub(crate) fn group_at(
    indexed: &[IndexedWindow],
    horizontal: bool,
    tolerance: i32,
    split_at: i32,
) -> (r: Option<(Vec<IndexedWindow>, Vec<IndexedWindow>)>)
    ensures
        r is Some <==> separates(indexed@, horizontal, tolerance as int, split_at as int),
        r matches Some((a, b)) ==> {
            &&& a@ == firsts(indexed@, horizontal, tolerance as int, split_at as int)
            &&& b@ == seconds(indexed@, horizontal, tolerance as int, split_at as int)
        },
{
    let mut first: Vec<IndexedWindow> = Vec::new();
    let mut second: Vec<IndexedWindow> = Vec::new();
    proof {
        reveal(Seq::filter);
    }
    for i in 0..indexed.len()
        invariant
            first@ == firsts(
                indexed@.take(i as int),
                horizontal,
                tolerance as int,
                split_at as int,
            ),
            second@ == seconds(
                indexed@.take(i as int),
                horizontal,
                tolerance as int,
                split_at as int,
            ),
            first@.len() == 0 <==> forall|j: int|
                0 <= j < i ==> !goes_first(
                    #[trigger] indexed@[j],
                    horizontal,
                    tolerance as int,
                    split_at as int,
                ),
            second@.len() == 0 <==> forall|j: int|
                0 <= j < i ==> !goes_second(
                    #[trigger] indexed@[j],
                    horizontal,
                    tolerance as int,
                    split_at as int,
                ),
            forall|j: int|
                0 <= j < i ==> goes_first(
                    #[trigger] indexed@[j],
                    horizontal,
                    tolerance as int,
                    split_at as int,
                ) || goes_second(indexed@[j], horizontal, tolerance as int, split_at as int),
    {
        let iw = indexed[i];
        proof {
            lemma_groups_take(
                indexed@,
                horizontal,
                tolerance as int,
                split_at as int,
                i as int,
            );
        }
        let (start, end): (i64, i64) = if horizontal {
            (iw.x as i64, iw.x as i64 + iw.w as i64)
        } else {
            (iw.y as i64, iw.y as i64 + iw.h as i64)
        };
        if end <= split_at as i64 + tolerance as i64 {
            first.push(iw);
        } else if start >= split_at as i64 - tolerance as i64 {
            second.push(iw);
        } else {
            assert(!goes_first(
                indexed@[i as int],
                horizontal,
                tolerance as int,
                split_at as int,
            ) && !goes_second(
                indexed@[i as int],
                horizontal,
                tolerance as int,
                split_at as int,
            ));
            return None;
        }
    }
    assert(indexed@.take(indexed@.len() as int) =~= indexed@);
    if first.len() == 0 || second.len() == 0 {
        return None;
    }
    Some((first, second))
}

/// The indices of the given windows, in order.
fn indices_of(ws: &Vec<IndexedWindow>) -> (r: Vec<usize>)
    ensures
        r@ == idx_of(ws@),
{
    let mut out: Vec<usize> = Vec::new();
    for i in 0..ws.len()
        invariant
            out@ == idx_of(ws@).take(i as int),
    {
        out.push(ws[i].idx);
        assert(out@ =~= idx_of(ws@).take(i as int + 1));
    }
    assert(idx_of(ws@).take(ws@.len() as int) =~= idx_of(ws@));
    out
}

/// Partition `indexed` windows into two groups along a split edge.
/// Returns `None` if any window straddles the split line.
pub fn partition_at(
    indexed: &[IndexedWindow],
    horizontal: bool,
    tolerance: i32,
    split_at: i32,
) -> (r: Option<(Vec<usize>, Vec<usize>)>)
    ensures
        r is Some <==> separates(indexed@, horizontal, tolerance as int, split_at as int),
        r matches Some((a, b)) ==> {
            &&& a@ == idx_of(firsts(indexed@, horizontal, tolerance as int, split_at as int))
            &&& b@ == idx_of(seconds(indexed@, horizontal, tolerance as int, split_at as int))
        },
{
    match group_at(indexed, horizontal, tolerance, split_at) {
        Some((first, second)) => Some((indices_of(&first), indices_of(&second))),
        None => None,
    }
}

} // verus!
