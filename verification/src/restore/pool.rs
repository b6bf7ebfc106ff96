//! Live windows that a restore may take over.
use crate::models::{
    HyprClient, TrackedWindow, TrackedWindowView, WindowEntry, WindowEntryView,
};
use crate::state::{normalize_address, normalized};
use crate::text::{contains_text, str_eq, texts};
use vstd::prelude::*;

verus! {

/// Windows already live at daemon startup, available to be adopted in place
/// of launching a duplicate. Only matters when the daemon restarts
/// mid-session: Hyprland itself always starts with zero windows, so a real
/// login/reboot leaves this pool empty.
pub struct LiveWindowPool {
    pub windows: Vec<TrackedWindow>,
    /// Addresses present in the daemon-startup snapshot, kept separately from
    /// `windows` (which is drained by `take_match`) so a live re-query can
    /// always tell "existed before this restore" apart from "appeared since".
    pub known_at_startup: Vec<String>,
    /// Addresses already handed out by `take_match` or
    /// `find_unclaimed_racing_window`, so the same live window is never
    /// adopted twice.
    pub claimed: Vec<String>,
}

#[verifier::ext_equal]
pub struct PoolView {
    pub windows: Seq<TrackedWindowView>,
    pub known: Set<Seq<char>>,
    pub claimed: Set<Seq<char>>,
}

pub open spec fn window_views(v: Seq<TrackedWindow>) -> Seq<TrackedWindowView> {
    Seq::new(v.len(), |i: int| v[i]@)
}

impl View for LiveWindowPool {
    type V = PoolView;

    open spec fn view(&self) -> PoolView {
        PoolView {
            windows: window_views(self.windows@),
            known: texts(self.known_at_startup@).to_set(),
            claimed: texts(self.claimed@).to_set(),
        }
    }
}

/// The normalized addresses of the given windows.
pub open spec fn addresses_of(ws: Seq<TrackedWindowView>) -> Set<Seq<char>> {
    Set::new(|a: Seq<char>| exists|i: int| 0 <= i < ws.len() && a == normalized((#[trigger] ws[i]).address))
}

/// The pool at the start of a restore.
pub open spec fn fresh_pool(ws: Seq<TrackedWindowView>) -> PoolView {
    PoolView { windows: ws, known: addresses_of(ws), claimed: Set::empty() }
}

/// The live window can stand for the saved one: same app, same workspace.
pub open spec fn stands_for(w: TrackedWindowView, e: WindowEntryView) -> bool {
    w.app_id == e.app_id && w.workspace == e.workspace
}

/// Squared distance from a live window to the saved position, or 0 where
/// none was saved.
pub open spec fn distance_sq(live: (i32, i32), saved: Option<(i32, i32)>) -> int {
    match saved {
        Some((x, y)) => (live.0 - x) * (live.0 - x) + (live.1 - y) * (live.1 - y),
        None => 0,
    }
}

/// Window `i` is the first of the nearest ones that can stand for the entry.
pub open spec fn is_best_match(ws: Seq<TrackedWindowView>, e: WindowEntryView, i: int) -> bool {
    &&& 0 <= i < ws.len()
    &&& stands_for(ws[i], e)
    &&& forall|j: int|
        0 <= j < ws.len() && stands_for(#[trigger] ws[j], e) ==> {
            &&& distance_sq(ws[i].position, e.position) <= distance_sq(ws[j].position, e.position)
            &&& j < i ==> distance_sq(ws[i].position, e.position) < distance_sq(
                ws[j].position,
                e.position,
            )
        }
}

/// The live window that the entry takes over, if there is one.
pub open spec fn best_match(ws: Seq<TrackedWindowView>, e: WindowEntryView) -> Option<int> {
    if exists|i: int| is_best_match(ws, e, i) {
        Some(choose|i: int| is_best_match(ws, e, i))
    } else {
        None
    }
}

/// The pool after the entry took over a window, and that window.
pub open spec fn take(pool: PoolView, e: WindowEntryView) -> (PoolView, Option<TrackedWindowView>) {
    match best_match(pool.windows, e) {
        Some(i) => (
            PoolView {
                windows: pool.windows.remove(i),
                claimed: pool.claimed.insert(normalized(pool.windows[i].address)),
                ..pool
            },
            Some(pool.windows[i]),
        ),
        None => (pool, None),
    }
}

/// The client appeared since startup, nobody has claimed it, and it is of the
/// given class.
pub open spec fn is_racing(pool: PoolView, c: HyprClient, app_id: Seq<char>) -> bool {
    &&& c.class@ == app_id
    &&& !pool.known.contains(normalized(c.address@))
    &&& !pool.claimed.contains(normalized(c.address@))
}

/// The address of the first racing client from `k` on.
pub open spec fn racing_from(
    pool: PoolView,
    clients: Seq<HyprClient>,
    app_id: Seq<char>,
    k: int,
) -> Option<Seq<char>>
    decreases clients.len() - k,
{
    if k < 0 || k >= clients.len() {
        None
    } else if is_racing(pool, clients[k], app_id) {
        Some(normalized(clients[k].address@))
    } else {
        racing_from(pool, clients, app_id, k + 1)
    }
}

/// The pool after a racing client was claimed, and its address.
pub open spec fn race(pool: PoolView, clients: Seq<HyprClient>, app_id: Seq<char>) -> (
    PoolView,
    Option<Seq<char>>,
) {
    match racing_from(pool, clients, app_id, 0) {
        Some(address) => (claim(pool, address), Some(address)),
        None => (pool, None),
    }
}

pub open spec fn claim(pool: PoolView, address: Seq<char>) -> PoolView {
    PoolView { claimed: pool.claimed.insert(address), ..pool }
}

fn position_distance_sq(live: (i32, i32), saved: Option<(i32, i32)>) -> (d: i128)
    ensures
        d == distance_sq(live, saved),
        d >= 0,
{
    match saved {
        Some((x, y)) => {
            let dx: i128 = live.0 as i128 - x as i128;
            let dy: i128 = live.1 as i128 - y as i128;
            proof {
                assert(0 <= dx * dx <= 0x1_0000_0000 * 0x1_0000_0000) by (nonlinear_arith)
                    requires
                        -0x1_0000_0000 <= dx <= 0x1_0000_0000,
                ;
                assert(0 <= dy * dy <= 0x1_0000_0000 * 0x1_0000_0000) by (nonlinear_arith)
                    requires
                        -0x1_0000_0000 <= dy <= 0x1_0000_0000,
                ;
            }
            dx * dx + dy * dy
        },
        None => 0,
    }
}

impl LiveWindowPool {
    pub fn new(windows: Vec<TrackedWindow>) -> (r: Self)
        ensures
            r@ == fresh_pool(window_views(windows@)),
            r.windows@ == windows@,
    {
        let mut known: Vec<String> = Vec::new();
        for i in 0..windows.len()
            invariant
                known@.len() == i,
                forall|j: int|
                    0 <= j < i ==> (#[trigger] known@[j])@ == normalized(windows@[j].address@),
        {
            known.push(normalize_address(windows[i].address.as_str()));
        }
        proof {
            let ws = window_views(windows@);
            let set = texts(known@).to_set();
            assert forall|a: Seq<char>| #[trigger] set.contains(a) <==> addresses_of(ws).contains(
                a,
            ) by {
                if set.contains(a) {
                    let i = choose|i: int| 0 <= i < known@.len() && texts(known@)[i] == a;
                    assert(known@[i]@ == normalized(windows@[i].address@));
                    assert(a == normalized(ws[i].address));
                }
                if addresses_of(ws).contains(a) {
                    let i = choose|i: int|
                        0 <= i < ws.len() && a == normalized((#[trigger] ws[i]).address);
                    assert(known@[i]@ == normalized(windows@[i].address@));
                    assert(texts(known@)[i] == a);
                }
            }
            assert(set =~= addresses_of(ws));
        }
        let r = LiveWindowPool { windows, known_at_startup: known, claimed: Vec::new() };
        assert(texts(r.claimed@).to_set() =~= Set::empty());
        r
    }

    /// Find and remove the best-matching live window for a plan entry: same
    /// `app_id` and workspace, breaking ties by nearest saved position. This
    /// only helps apps that always fork a fresh process (e.g. terminals):
    /// single-instance apps already avoid duplication via window-rule
    /// silent-activation.
    pub fn take_match(&mut self, entry: &WindowEntry) -> (r: Option<TrackedWindow>)
        ensures
            final(self)@ == take(old(self)@, entry@).0,
            r is Some <==> take(old(self)@, entry@).1 is Some,
            r matches Some(w) ==> take(old(self)@, entry@).1 == Some(w@),
    {
        let ghost ws = window_views(self.windows@);
        let mut best: Option<usize> = None;
        let mut best_distance: i128 = 0;
        for i in 0..self.windows.len()
            invariant
                ws == window_views(self.windows@),
                best matches Some(b) ==> {
                    &&& b < i
                    &&& stands_for(ws[b as int], entry@)
                    &&& best_distance == distance_sq(ws[b as int].position, entry@.position)
                    &&& forall|j: int|
                        0 <= j < i && stands_for(#[trigger] ws[j], entry@) ==> {
                            &&& best_distance <= distance_sq(ws[j].position, entry@.position)
                            &&& j < b ==> best_distance < distance_sq(
                                ws[j].position,
                                entry@.position,
                            )
                        }
                },
                best is None ==> forall|j: int|
                    0 <= j < i ==> !stands_for(#[trigger] ws[j], entry@),
        {
            let w = &self.windows[i];
            assert(ws[i as int] == w@);
            if str_eq(w.app_id.as_str(), entry.app_id.as_str()) && str_eq(
                w.workspace.as_str(),
                entry.workspace.as_str(),
            ) {
                let d: i128 = position_distance_sq(w.position, entry.position);
                let better = match best {
                    Some(_) => d < best_distance,
                    None => true,
                };
                if better {
                    best = Some(i);
                    best_distance = d;
                }
            }
        }
        match best {
            Some(i) => {
                proof {
                    assert(is_best_match(ws, entry@, i as int));
                    let c = choose|c: int| is_best_match(ws, entry@, c);
                    assert(c == i) by {
                        assert(stands_for(ws[c], entry@) && stands_for(ws[i as int], entry@));
                    }
                }
                let window = self.windows.remove(i);
                let address = normalize_address(window.address.as_str());
                let ghost before = texts(self.claimed@);
                self.claimed.push(address);
                proof {
                    assert(texts(self.claimed@) =~= before.push(address@));
                    before.lemma_push_to_set_commute(address@);
                    assert(window_views(self.windows@) =~= ws.remove(i as int));
                    assert(self@ =~= take(old(self)@, entry@).0);
                }
                Some(window)
            },
            None => {
                proof {
                    assert forall|c: int| !is_best_match(ws, entry@, c) by {
                        if is_best_match(ws, entry@, c) {
                            assert(!stands_for(ws[c], entry@));
                        }
                    }
                }
                None
            },
        }
    }

    /// Look through the live clients for a window of `app_id` that didn't
    /// exist at daemon startup and hasn't already been claimed. Catches an
    /// app that opened independently sometime after the startup snapshot was
    /// taken: an autostart entry can race ahead of, or during, the restore
    /// sequence.
    ///
    /// Deliberately does not filter by workspace like `take_match` does: the
    /// whole point is to catch a window that hasn't been moved to its target
    /// workspace yet (that's still the caller's job). This assumes any
    /// matching live window that appeared since startup is this entry's
    /// instance, the same heuristic `take_match` already relies on.
    pub fn find_unclaimed_racing_window(
        &mut self,
        clients: &Vec<HyprClient>,
        app_id: &str,
    ) -> (r: Option<String>)
        ensures
            final(self)@ == race(old(self)@, clients@, app_id@).0,
            r is Some <==> race(old(self)@, clients@, app_id@).1 is Some,
            r matches Some(a) ==> race(old(self)@, clients@, app_id@).1 == Some(a@),
    {
        for k in 0..clients.len()
            invariant
                self@ == old(self)@,
                racing_from(self@, clients@, app_id@, 0) == racing_from(
                    self@,
                    clients@,
                    app_id@,
                    k as int,
                ),
        {
            if str_eq(clients[k].class.as_str(), app_id) {
                let address = normalize_address(clients[k].address.as_str());
                proof {
                    lemma_texts_contains(self.known_at_startup@, address@);
                    lemma_texts_contains(self.claimed@, address@);
                }
                if !contains_text(&self.known_at_startup, address.as_str()) && !contains_text(
                    &self.claimed,
                    address.as_str(),
                ) {
                    self.mark(address.clone());
                    return Some(address);
                }
            }
        }
        None
    }

    fn mark(&mut self, address: String)
        ensures
            final(self)@ == claim(old(self)@, address@),
    {
        let ghost before = texts(self.claimed@);
        self.claimed.push(address);
        proof {
            assert(texts(self.claimed@) =~= before.push(address@));
            before.lemma_push_to_set_commute(address@);
            assert(self@ =~= claim(old(self)@, address@));
        }
    }

    /// Marks a window's address as claimed so a later plan entry for the
    /// same `app_id` never mistakes it for a racing autostart window via
    /// `find_unclaimed_racing_window`. Must be called for every window a
    /// plan entry ends up genuinely owning (not just adopted ones, which
    /// `find_unclaimed_racing_window` already claims), otherwise a second
    /// same-class entry (e.g. two terminal windows) steals the first
    /// entry's freshly-opened window instead of getting its own.
    pub fn mark_claimed(&mut self, addr: &str)
        ensures
            final(self)@ == claim(old(self)@, normalized(addr@)),
    {
        let address = normalize_address(addr);
        self.mark(address);
    }
}

proof fn lemma_texts_contains(v: Seq<String>, a: Seq<char>)
    ensures
        texts(v).contains(a) <==> texts(v).to_set().contains(a),
{
}

/// A claimed address is never handed out again as a racing window.
pub proof fn law_claimed_is_never_raced(
    pool: PoolView,
    clients: Seq<HyprClient>,
    app_id: Seq<char>,
    k: int,
)
    ensures
        racing_from(pool, clients, app_id, k) matches Some(a) ==> !pool.claimed.contains(a)
            && !pool.known.contains(a),
    decreases clients.len() - k,
{
    if 0 <= k < clients.len() && !is_racing(pool, clients[k], app_id) {
        law_claimed_is_never_raced(pool, clients, app_id, k + 1);
    }
}

/// Taking a window over removes exactly that window and claims its address;
/// what was claimed stays claimed, and what was known stays known.
pub proof fn law_take_claims(pool: PoolView, e: WindowEntryView)
    ensures
        ({
            let (after, taken) = take(pool, e);
            &&& pool.claimed.subset_of(after.claimed)
            &&& after.known == pool.known
            &&& taken matches Some(w) ==> {
                &&& stands_for(w, e)
                &&& pool.windows.contains(w)
                &&& after.claimed.contains(normalized(w.address))
                &&& after.windows.len() == pool.windows.len() - 1
            }
            &&& taken is None ==> after == pool
        }),
{
}

/// A live window of the same app on the same workspace is always taken over.
pub proof fn law_match_is_taken(pool: PoolView, e: WindowEntryView, i: int)
    requires
        0 <= i < pool.windows.len(),
        stands_for(pool.windows[i], e),
    ensures
        take(pool, e).1 is Some,
    decreases distance_sq(pool.windows[i].position, e.position), i,
{
    let ws = pool.windows;
    if !is_best_match(ws, e, i) {
        let j = choose|j: int|
            0 <= j < ws.len() && stands_for(#[trigger] ws[j], e) && !(distance_sq(
                ws[i].position,
                e.position,
            ) <= distance_sq(ws[j].position, e.position) && (j < i ==> distance_sq(
                ws[i].position,
                e.position,
            ) < distance_sq(ws[j].position, e.position)));
        lemma_distance_nonnegative(ws[j].position, e.position);
        law_match_is_taken(pool, e, j);
    }
}

proof fn lemma_distance_nonnegative(live: (i32, i32), saved: Option<(i32, i32)>)
    ensures
        distance_sq(live, saved) >= 0,
{
    match saved {
        Some((x, y)) => {
            let dx = live.0 - x;
            let dy = live.1 - y;
            assert(dx * dx >= 0) by (nonlinear_arith);
            assert(dy * dy >= 0) by (nonlinear_arith);
        },
        None => {},
    }
}

} // verus!
