//! The windows that are open right now.
use crate::collections::StringMap;
use crate::config::Config;
use crate::models::{HyprClient, TrackedWindow, TrackedWindowView};
use crate::patterns::{compiles, is_match, is_valid, matches_somewhere};
use crate::text::{is_empty, lowercase, texts, to_lowercase, trim_start_matches, without_leading};
use vstd::prelude::*;

verus! {

/// A window address without its `0x`, in lowercase.
pub open spec fn normalized(address: Seq<char>) -> Seq<char> {
    lowercase(without_leading(address, "0x"@))
}

/// The form of a window address under which windows are found again: events
/// and queries differ in prefix and case.
pub fn normalize_address(addr: &str) -> (r: String)
    ensures
        r@ == normalized(addr@),
{
    proof {
        reveal_strlit("0x");
    }
    to_lowercase(trim_start_matches(addr, "0x"))
}

/// An address means the same with and without its `0x`.
pub proof fn law_prefix_is_immaterial(address: Seq<char>)
    ensures
        normalized("0x"@ + address) == normalized(address),
{
    reveal_strlit("0x");
    let full = "0x"@ + address;
    assert(full.take(2) =~= "0x"@);
    assert(full.skip(2) =~= address);
}

/// The patterns among the given ones that are regular expressions, in order.
pub open spec fn usable(patterns: Seq<Seq<char>>) -> Seq<Seq<char>> {
    patterns.filter(|p: Seq<char>| compiles(p))
}

pub open spec fn matches_any(patterns: Seq<Seq<char>>, class: Seq<char>) -> bool {
    exists|i: int|
        0 <= i < patterns.len() && compiles(#[trigger] patterns[i]) && matches_somewhere(
            patterns[i],
            class,
        )
}

/// The tracked windows, by normalized address, and which classes are tracked.
pub struct StateManager {
    windows: StringMap<TrackedWindow>,
    exclude_patterns: Vec<String>,
    include_patterns: Vec<String>,
}

#[verifier::ext_equal]
pub struct StateView {
    pub windows: Map<Seq<char>, TrackedWindowView>,
    pub exclude: Seq<Seq<char>>,
    pub include_only: Seq<Seq<char>>,
}

pub open spec fn tracked_views(m: Map<Seq<char>, TrackedWindow>) -> Map<
    Seq<char>,
    TrackedWindowView,
> {
    m.map_values(|w: TrackedWindow| w@)
}

impl View for StateManager {
    type V = StateView;

    closed spec fn view(&self) -> StateView {
        StateView {
            windows: tracked_views(self.windows@),
            exclude: texts(self.exclude_patterns@),
            include_only: texts(self.include_patterns@),
        }
    }
}

impl StateView {
    /// Windows of the class are tracked: the class has a name, no exclude
    /// pattern matches it, and an include pattern does if there are any.
    pub open spec fn tracks(self, class: Seq<char>) -> bool {
        &&& class.len() > 0
        &&& !matches_any(self.exclude, class)
        &&& self.include_only.len() > 0 ==> matches_any(self.include_only, class)
    }

    pub open spec fn with(self, w: TrackedWindowView) -> StateView {
        StateView { windows: self.windows.insert(normalized(w.address), w), ..self }
    }

    pub open spec fn without(self, address: Seq<char>) -> StateView {
        StateView { windows: self.windows.remove(normalized(address)), ..self }
    }

    /// The window at an address, if it is tracked.
    pub open spec fn window(self, address: Seq<char>) -> Option<TrackedWindowView> {
        if self.windows.dom().contains(normalized(address)) {
            Some(self.windows[normalized(address)])
        } else {
            None
        }
    }

    /// The window at an address, if it is tracked, is now this one.
    pub open spec fn replaced(self, address: Seq<char>, w: TrackedWindowView) -> StateView {
        if self.window(address) is Some {
            StateView { windows: self.windows.insert(normalized(address), w), ..self }
        } else {
            self
        }
    }

    pub open spec fn moved(self, address: Seq<char>, workspace: Seq<char>) -> StateView {
        self.replaced(
            address,
            TrackedWindowView { workspace, ..self.windows[normalized(address)] },
        )
    }

    pub open spec fn floated(self, address: Seq<char>, floating: bool) -> StateView {
        self.replaced(
            address,
            TrackedWindowView { floating, ..self.windows[normalized(address)] },
        )
    }

    pub open spec fn measured(self, c: HyprClient) -> StateView {
        self.replaced(
            c.address@,
            TrackedWindowView {
                position: c.at,
                size: c.size,
                ..self.windows[normalized(c.address@)]
            },
        )
    }

    /// Every tracked window among the clients has its live geometry.
    pub open spec fn refreshed(self, clients: Seq<HyprClient>) -> StateView
        decreases clients.len(),
    {
        if clients.len() == 0 {
            self
        } else {
            self.refreshed(clients.drop_last()).measured(clients.last())
        }
    }
}

fn keep_usable(patterns: &Vec<String>) -> (r: Vec<String>)
    ensures
        texts(r@) == usable(texts(patterns@)),
{
    let mut out: Vec<String> = Vec::new();
    let ghost all = texts(patterns@);
    let ghost p = |p: Seq<char>| compiles(p);
    proof {
        reveal(Seq::filter);
        assert(texts(out@) =~= seq![]);
    }
    for i in 0..patterns.len()
        invariant
            all == texts(patterns@),
            p == (|p: Seq<char>| compiles(p)),
            texts(out@) == all.take(i as int).filter(p),
    {
        proof {
            reveal(Seq::filter);
            assert(all.take(i as int + 1).drop_last() =~= all.take(i as int));
            assert(all.take(i as int + 1).last() == patterns@[i as int]@);
        }
        if is_valid(patterns[i].as_str()) {
            let ghost before = texts(out@);
            out.push(patterns[i].clone());
            assert(texts(out@) =~= before.push(patterns@[i as int]@));
        }
    }
    assert(all.take(patterns@.len() as int) =~= all);
    out
}

fn any_matches(patterns: &Vec<String>, class: &str) -> (r: bool)
    ensures
        r == matches_any(texts(patterns@), class@),
{
    let ghost all = texts(patterns@);
    for i in 0..patterns.len()
        invariant
            all == texts(patterns@),
            forall|j: int|
                0 <= j < i ==> !(compiles(#[trigger] all[j]) && matches_somewhere(all[j], class@)),
    {
        assert(all[i as int] == patterns@[i as int]@);
        if is_match(patterns[i].as_str(), class) {
            return true;
        }
    }
    false
}

impl StateManager {
    /// Every address is tracked once.
    pub closed spec fn wf(&self) -> bool {
        self.windows.wf()
    }

    /// The normalized addresses in the order in which the windows are listed.
    pub closed spec fn order(&self) -> Seq<Seq<char>> {
        self.windows.keys()
    }

    /// Nothing is tracked yet. Patterns that are no regular expressions are
    /// left out.
    pub fn new(config: &Config) -> (r: Self)
        ensures
            r.wf(),
            r@ == (StateView {
                windows: Map::empty(),
                exclude: usable(texts(config.rules.exclude@)),
                include_only: usable(texts(config.rules.include_only@)),
            }),
    {
        let r = StateManager {
            windows: StringMap::new(),
            exclude_patterns: keep_usable(&config.rules.exclude),
            include_patterns: keep_usable(&config.rules.include_only),
        };
        assert(tracked_views(r.windows@) =~= Map::empty());
        r
    }

    pub fn should_track(&self, class: &str) -> (r: bool)
        ensures
            r == self@.tracks(class@),
    {
        if is_empty(class) {
            return false;
        }
        if any_matches(&self.exclude_patterns, class) {
            return false;
        }
        if self.include_patterns.len() > 0 {
            return any_matches(&self.include_patterns, class);
        }
        true
    }

    pub fn add(&mut self, window: TrackedWindow)
        requires
            old(self).wf(),
        ensures
            final(self).wf(),
            final(self)@ == old(self)@.with(window@),
    {
        let key = normalize_address(window.address.as_str());
        let ghost before = self.windows@;
        self.windows.insert(key, window);
        assert(tracked_views(self.windows@) =~= tracked_views(before).insert(
            normalized(window@.address),
            window@,
        ));
    }

    pub fn remove(&mut self, address: &str) -> (r: Option<TrackedWindow>)
        requires
            old(self).wf(),
        ensures
            final(self).wf(),
            final(self)@ == old(self)@.without(address@),
            r is Some <==> old(self)@.window(address@) is Some,
            r matches Some(w) ==> old(self)@.window(address@) == Some(w@),
    {
        let key = normalize_address(address);
        let ghost before = self.windows@;
        let r = self.windows.remove(key.as_str());
        assert(tracked_views(self.windows@) =~= tracked_views(before).remove(
            normalized(address@),
        ));
        r
    }

    fn put(&mut self, key: String, window: TrackedWindow)
        requires
            old(self).wf(),
        ensures
            final(self).wf(),
            final(self)@ == (StateView {
                windows: old(self)@.windows.insert(key@, window@),
                ..old(self)@
            }),
    {
        let ghost before = self.windows@;
        self.windows.insert(key, window);
        assert(tracked_views(self.windows@) =~= tracked_views(before).insert(key@, window@));
    }

    fn find(&self, key: &str) -> (r: Option<TrackedWindow>)
        requires
            self.wf(),
        ensures
            r is Some <==> self@.windows.dom().contains(key@),
            r matches Some(w) ==> self@.windows[key@] == w@,
    {
        match self.windows.get(key) {
            Some(w) => Some(w.clone()),
            None => None,
        }
    }

    pub fn update_workspace(&mut self, address: &str, workspace: &str)
        requires
            old(self).wf(),
        ensures
            final(self).wf(),
            final(self)@ == old(self)@.moved(address@, workspace@),
    {
        let key = normalize_address(address);
        match self.find(key.as_str()) {
            Some(w) => {
                let mut w = w;
                w.workspace = workspace.to_owned();
                self.put(key, w);
            },
            None => {},
        }
    }

    pub fn update_floating(&mut self, address: &str, floating: bool)
        requires
            old(self).wf(),
        ensures
            final(self).wf(),
            final(self)@ == old(self)@.floated(address@, floating),
    {
        let key = normalize_address(address);
        match self.find(key.as_str()) {
            Some(w) => {
                let mut w = w;
                w.floating = floating;
                self.put(key, w);
            },
            None => {},
        }
    }

    /// Take over the live position and size of every tracked window. Hyprland
    /// emits no events for tiled resize/position changes.
    pub fn refresh_geometry(&mut self, clients: &Vec<HyprClient>)
        requires
            old(self).wf(),
        ensures
            final(self).wf(),
            final(self)@ == old(self)@.refreshed(clients@),
    {
        for i in 0..clients.len()
            invariant
                self.wf(),
                self@ == old(self)@.refreshed(clients@.take(i as int)),
        {
            let c = &clients[i];
            proof {
                let t = clients@.take(i as int + 1);
                assert(t.drop_last() =~= clients@.take(i as int));
                assert(t.last() == clients@[i as int]);
            }
            let key = normalize_address(c.address.as_str());
            match self.find(key.as_str()) {
                Some(w) => {
                    let mut w = w;
                    w.position = c.at;
                    w.size = c.size;
                    self.put(key, w);
                },
                None => {},
            }
        }
        assert(clients@.take(clients@.len() as int) =~= clients@);
    }

    /// All tracked windows.
    pub fn windows(&self) -> (r: Vec<&TrackedWindow>)
        requires
            self.wf(),
        ensures
            self.order().no_duplicates(),
            forall|k: Seq<char>| #[trigger]
                self.order().contains(k) <==> self@.windows.dom().contains(k),
            r@.len() == self.order().len(),
            forall|i: int|
                0 <= i < r@.len() ==> (#[trigger] r@[i])@ == self@.windows[self.order()[i]],
    {
        let mut out: Vec<&TrackedWindow> = Vec::new();
        proof {
            self.windows.lemma_keys();
            assert(self@.windows.dom() =~= self.windows@.dom());
        }
        let n: usize = self.windows.len();
        for i in 0..n
            invariant
                self.wf(),
                n == self.order().len(),
                out@.len() == i,
                forall|j: int|
                    0 <= j < i ==> (#[trigger] out@[j])@ == self@.windows[self.order()[j]],
        {
            let (_, w) = self.windows.entry(i);
            out.push(w);
        }
        out
    }

    pub fn window_count(&self) -> (r: usize)
        requires
            self.wf(),
        ensures
            r == self@.windows.dom().len(),
            r == self.order().len(),
    {
        assert(self@.windows.dom() =~= self.windows@.dom());
        self.windows.len()
    }
}

/// A window that was added is found under its address in any spelling with
/// the same normal form, and removing it leaves the others as they were.
pub proof fn law_added_window_is_found(s: StateView, w: TrackedWindowView, address: Seq<char>)
    requires
        normalized(address) == normalized(w.address),
    ensures
        s.with(w).window(address) == Some(w),
        s.with(w).without(address) == s.without(address),
        s.with(w).without(address).window(address) is None,
{
    assert(s.with(w).without(address).windows =~= s.without(address).windows);
}

/// Every window is filed under its own address.
pub open spec fn is_filed(s: StateView) -> bool {
    forall|key: Seq<char>| #[trigger]
        s.windows.dom().contains(key) ==> normalized(s.windows[key].address) == key
}

/// Every change to the state leaves each window filed under its own address.
pub proof fn law_windows_stay_filed(
    s: StateView,
    w: TrackedWindowView,
    address: Seq<char>,
    workspace: Seq<char>,
    floating: bool,
    clients: Seq<HyprClient>,
)
    requires
        is_filed(s),
    ensures
        is_filed(s.with(w)),
        is_filed(s.without(address)),
        is_filed(s.moved(address, workspace)),
        is_filed(s.floated(address, floating)),
        is_filed(s.refreshed(clients)),
    decreases clients.len(),
{
    if clients.len() > 0 {
        law_windows_stay_filed(s, w, address, workspace, floating, clients.drop_last());
        let t = s.refreshed(clients.drop_last());
        assert(is_filed(t.measured(clients.last())));
    }
}

/// Updates touch nothing but the window they are about, and no update adds or
/// removes one.
pub proof fn law_updates_are_local(
    s: StateView,
    address: Seq<char>,
    other: Seq<char>,
    workspace: Seq<char>,
    floating: bool,
)
    requires
        normalized(other) != normalized(address),
    ensures
        s.moved(address, workspace).window(other) == s.window(other),
        s.floated(address, floating).window(other) == s.window(other),
        s.moved(address, workspace).windows.dom() == s.windows.dom(),
        s.floated(address, floating).windows.dom() == s.windows.dom(),
{
    assert(s.moved(address, workspace).windows.dom() =~= s.windows.dom());
    assert(s.floated(address, floating).windows.dom() =~= s.windows.dom());
}

/// Refreshing the geometry changes positions and sizes only.
pub proof fn law_refresh_changes_geometry_only(
    s: StateView,
    clients: Seq<HyprClient>,
    key: Seq<char>,
)
    ensures
        s.refreshed(clients).windows.dom() == s.windows.dom(),
        s.refreshed(clients).exclude == s.exclude,
        s.refreshed(clients).include_only == s.include_only,
        s.windows.dom().contains(key) ==> s.refreshed(clients).windows[key] == (
        TrackedWindowView {
            position: s.refreshed(clients).windows[key].position,
            size: s.refreshed(clients).windows[key].size,
            ..s.windows[key]
        }),
    decreases clients.len(),
{
    if clients.len() > 0 {
        law_refresh_changes_geometry_only(s, clients.drop_last(), key);
        let t = s.refreshed(clients.drop_last());
        assert(t.measured(clients.last()).windows.dom() =~= t.windows.dom());
    }
}

} // verus!
