//! From window classes to launch commands.
pub mod cwd;
pub mod cwd_laws;
pub mod desktop;
pub mod entry_laws;
pub mod flatpak;
pub mod proc;
pub mod process_laws;
pub mod profile;

use crate::collections::StringMap;
use crate::config::{text_map, Config};
use crate::models::{clone_opt, opt_text};
use crate::patterns::{compiles, is_match, is_valid, matches_somewhere};
use crate::resolver::desktop::{found, index_of_files, DesktopFile, DesktopIndex, DesktopIndexView};
use crate::resolver::flatpak::{detect_flatpak_app, flatpak_app};
use crate::resolver::proc::{args_command, resolve_from_proc, text_args};
use crate::text::{contains, is_empty, occurs, replace, replaced};
use vstd::prelude::*;
use vstd::string::StringExecFns;

verus! {

/// A launch command for the window classes that match a pattern.
#[derive(Debug)]
pub struct PatternOverride {
    pub pattern: String,
    pub command: String,
}

/// What is known of a window's process: the contents of its files, where they
/// can be read, and whether the program on its command line can be found by
/// its bare name.
#[derive(Debug)]
pub struct Evidence {
    pub cgroup: Option<String>,
    pub flatpak_info: Option<String>,
    pub cmdline: Option<Vec<u8>>,
    pub installed: bool,
}

/// Finds the command that launches a window's application. Results are cached
/// per window class.
pub struct AppResolver {
    desktop_index: DesktopIndex,
    cache: StringMap<Option<String>>,
    exact_overrides: StringMap<String>,
    pattern_overrides: Vec<PatternOverride>,
}

#[verifier::ext_equal]
pub struct ResolverView {
    pub index: DesktopIndexView,
    pub cache: Map<Seq<char>, Option<Seq<char>>>,
    pub exact: Map<Seq<char>, Seq<char>>,
    pub patterns: Seq<(Seq<char>, Seq<char>)>,
}

pub open spec fn pattern_views(v: Seq<PatternOverride>) -> Seq<(Seq<char>, Seq<char>)> {
    Seq::new(v.len(), |i: int| (v[i].pattern@, v[i].command@))
}

pub open spec fn cache_view(m: Map<Seq<char>, Option<String>>) -> Map<
    Seq<char>,
    Option<Seq<char>>,
> {
    m.map_values(|o: Option<String>| opt_text(o))
}

impl View for AppResolver {
    type V = ResolverView;

    closed spec fn view(&self) -> ResolverView {
        ResolverView {
            index: self.desktop_index@,
            cache: cache_view(self.cache@),
            exact: text_map(self.exact_overrides@),
            patterns: pattern_views(self.pattern_overrides@),
        }
    }
}

/// The override's key is a pattern, not a class.
pub open spec fn is_glob(key: Seq<char>) -> bool {
    occurs(key, "*"@) || occurs(key, "?"@)
}

/// The regular expression for a pattern: `*` for any text, `?` for any
/// character.
pub open spec fn glob_regex(key: Seq<char>) -> Seq<char> {
    replaced(replaced(key, '*', ".*"@), '?', "."@)
}

/// The overrides for whole classes.
pub open spec fn exact_part(overrides: Map<Seq<char>, Seq<char>>) -> Map<Seq<char>, Seq<char>> {
    Map::new(|k: Seq<char>| overrides.dom().contains(k) && !is_glob(k), |k: Seq<char>| overrides[k])
}

/// The overrides for patterns that compile, in the order of the keys.
pub open spec fn pattern_part(
    keys: Seq<Seq<char>>,
    overrides: Map<Seq<char>, Seq<char>>,
) -> Seq<(Seq<char>, Seq<char>)>
    decreases keys.len(),
{
    if keys.len() == 0 {
        seq![]
    } else {
        let rest = pattern_part(keys.drop_last(), overrides);
        let k = keys.last();
        if is_glob(k) && compiles(glob_regex(k)) {
            rest.push((glob_regex(k), overrides[k]))
        } else {
            rest
        }
    }
}

/// A command, unless it is empty: an empty override skips the class.
pub open spec fn unless_empty(command: Seq<char>) -> Option<Seq<char>> {
    if command.len() > 0 {
        Some(command)
    } else {
        None
    }
}

/// The command of the first pattern from `k` on that matches.
pub open spec fn pattern_command_from(
    patterns: Seq<(Seq<char>, Seq<char>)>,
    class: Seq<char>,
    k: int,
) -> Option<Seq<char>>
    decreases patterns.len() - k,
{
    if k < 0 || k >= patterns.len() {
        None
    } else if compiles(patterns[k].0) && matches_somewhere(patterns[k].0, class) {
        Some(patterns[k].1)
    } else {
        pattern_command_from(patterns, class, k + 1)
    }
}

/// What is known of a class without looking at a process: an override for the
/// class, else one for a pattern that it matches, else a desktop entry. The
/// inner `None` means that the class is skipped.
pub open spec fn configured(v: ResolverView, class: Seq<char>) -> Option<Option<Seq<char>>> {
    if v.exact.dom().contains(class) {
        Some(unless_empty(v.exact[class]))
    } else {
        match pattern_command_from(v.patterns, class, 0) {
            Some(command) => Some(unless_empty(command)),
            None => match found(v.index, class) {
                Some(entry) => Some(Some(entry.exec_line)),
                None => None,
            },
        }
    }
}

/// What a process tells of its launch command: the Flatpak application that
/// it belongs to, else its own command line.
pub open spec fn from_process(pid: i64, e: Evidence) -> Option<Seq<char>> {
    if pid <= 0 {
        None
    } else {
        match flatpak_app(opt_text(e.cgroup), opt_text(e.flatpak_info)) {
            Some(id) => Some("flatpak run "@ + id),
            None => match e.cmdline {
                Some(raw) => args_command(text_args(raw@), e.installed),
                None => None,
            },
        }
    }
}

/// The launch command of a class that is not in the cache.
pub open spec fn uncached(
    v: ResolverView,
    class: Seq<char>,
    pid: i64,
    e: Evidence,
) -> Option<Seq<char>> {
    match configured(v, class) {
        Some(result) => result,
        None => from_process(pid, e),
    }
}

/// The resolver after a query, and the answer.
pub open spec fn resolved(v: ResolverView, class: Seq<char>, pid: i64, e: Evidence) -> (
    ResolverView,
    Option<Seq<char>>,
) {
    if class.len() == 0 {
        (v, None)
    } else if v.cache.dom().contains(class) {
        (v, v.cache[class])
    } else {
        let result = uncached(v, class, pid, e);
        (ResolverView { cache: v.cache.insert(class, result), ..v }, result)
    }
}

fn nonempty(command: &String) -> (r: Option<String>)
    ensures
        opt_text(r) == unless_empty(command@),
{
    if is_empty(command.as_str()) {
        None
    } else {
        Some(command.clone())
    }
}

impl AppResolver {
    /// Each table holds each key once.
    pub closed spec fn wf(&self) -> bool {
        self.desktop_index.wf() && self.cache.wf() && self.exact_overrides.wf()
    }

    /// A resolver for the configured overrides and the given desktop files.
    /// Patterns that do not compile are left out.
    pub fn new(config: &Config, files: &Vec<DesktopFile>) -> (r: Self)
        requires
            config.overrides.wf(),
        ensures
            r.wf(),
            r@.index == index_of_files(files@),
            r@.cache == Map::<Seq<char>, Option<Seq<char>>>::empty(),
            r@.exact == exact_part(text_map(config.overrides@)),
            r@.patterns == pattern_part(config.overrides.keys(), text_map(config.overrides@)),
    {
        let desktop_index = DesktopIndex::build(files);
        let mut exact_overrides: StringMap<String> = StringMap::new();
        let mut pattern_overrides: Vec<PatternOverride> = Vec::new();
        let ghost keys = config.overrides.keys();
        let ghost all = text_map(config.overrides@);
        proof {
            config.overrides.lemma_keys();
            assert(pattern_views(pattern_overrides@) =~= seq![]);
        }
        let n: usize = config.overrides.len();
        for i in 0..n
            invariant
                config.overrides.wf(),
                n == keys.len(),
                keys == config.overrides.keys(),
                all == text_map(config.overrides@),
                keys.no_duplicates(),
                exact_overrides.wf(),
                forall|k: Seq<char>| #[trigger]
                    exact_overrides@.dom().contains(k) <==> keys.take(i as int).contains(k)
                        && !is_glob(k),
                forall|k: Seq<char>| #[trigger]
                    exact_overrides@.dom().contains(k) ==> exact_overrides@[k]@ == all[k],
                pattern_views(pattern_overrides@) == pattern_part(keys.take(i as int), all),
        {
            let (key, cmd) = config.overrides.entry(i);
            proof {
                let t = keys.take(i as int + 1);
                assert(t.drop_last() =~= keys.take(i as int));
                assert(t.last() == key@);
                assert(all[key@] == cmd@);
                assert forall|k: Seq<char>| #[trigger] t.contains(k) <==> keys.take(
                    i as int,
                ).contains(k) || k == key@ by {
                    if keys.take(i as int).contains(k) {
                        let j = choose|j: int|
                            0 <= j < keys.take(i as int).len() && keys.take(i as int)[j] == k;
                        assert(t[j] == k);
                    }
                    if k == key@ {
                        assert(t[i as int] == k);
                    }
                    if t.contains(k) {
                        let j = choose|j: int| 0 <= j < t.len() && t[j] == k;
                        if j < i {
                            assert(keys.take(i as int)[j] == k);
                        }
                    }
                }
            }
            if contains(key.as_str(), "*") || contains(key.as_str(), "?") {
                let stars = replace(key.as_str(), '*', ".*");
                let pattern = replace(stars.as_str(), '?', ".");
                if is_valid(pattern.as_str()) {
                    let ghost before = pattern_views(pattern_overrides@);
                    pattern_overrides.push(PatternOverride { pattern, command: cmd.clone() });
                    assert(pattern_views(pattern_overrides@) =~= before.push(
                        (glob_regex(key@), cmd@),
                    ));
                }
            } else {
                exact_overrides.insert(key.clone(), cmd.clone());
            }
        }
        let r = AppResolver {
            desktop_index,
            cache: StringMap::new(),
            exact_overrides,
            pattern_overrides,
        };
        proof {
            assert(keys.take(n as int) =~= keys);
            assert(cache_view(r.cache@) =~= Map::empty());
            assert(text_map(r.exact_overrides@) =~= exact_part(all)) by {
                assert forall|k: Seq<char>| #[trigger]
                    exact_part(all).dom().contains(k) <==> r.exact_overrides@.dom().contains(
                        k,
                    ) by {
                    assert(keys.contains(k) <==> config.overrides@.dom().contains(k));
                }
            }
        }
        r
    }

    /// How many applications have a desktop entry.
    pub fn entry_count(&self) -> (r: usize)
        requires
            self.wf(),
        ensures
            r == self@.index.desktop_id.dom().len(),
    {
        self.desktop_index.len()
    }

    /// Whether the answer for a class is known without looking at a process.
    pub fn is_settled(&self, class: &str) -> (r: bool)
        requires
            self.wf(),
        ensures
            r == (class@.len() == 0 || self@.cache.dom().contains(class@) || configured(
                self@,
                class@,
            ) is Some),
    {
        assert(self@.cache.dom() =~= self.cache@.dom());
        is_empty(class) || self.cache.contains_key(class) || self.lookup_configured(
            class,
        ).is_some()
    }

    fn lookup_configured(&self, class: &str) -> (r: Option<Option<String>>)
        requires
            self.wf(),
        ensures
            r is Some <==> configured(self@, class@) is Some,
            r matches Some(result) ==> configured(self@, class@) == Some(opt_text(result)),
    {
        // 1. Exact overrides
        match self.exact_overrides.get(class) {
            Some(cmd) => {
                return Some(nonempty(cmd));
            },
            None => {},
        }
        // 2. Pattern overrides
        for k in 0..self.pattern_overrides.len()
            invariant
                self.wf(),
                !self@.exact.dom().contains(class@),
                pattern_command_from(self@.patterns, class@, 0) == pattern_command_from(
                    self@.patterns,
                    class@,
                    k as int,
                ),
        {
            let ov = &self.pattern_overrides[k];
            assert(self@.patterns[k as int] == (ov.pattern@, ov.command@));
            if is_match(ov.pattern.as_str(), class) {
                return Some(nonempty(&ov.command));
            }
        }
        // 3. XDG .desktop file lookup
        match self.desktop_index.lookup(class) {
            Some(entry) => Some(Some(entry.exec_line.clone())),
            None => None,
        }
    }

    /// Resolve a window class and its process to a launch command.
    /// Returns `None` if the app cannot be resolved.
    pub fn resolve(&mut self, class: &str, pid: i64, evidence: &Evidence) -> (r: Option<String>)
        requires
            old(self).wf(),
        ensures
            final(self).wf(),
            (final(self)@, opt_text(r)) == resolved(old(self)@, class@, pid, *evidence),
    {
        if is_empty(class) {
            return None;
        }
        match self.cache.get(class) {
            Some(cached) => {
                return clone_opt(cached);
            },
            None => {},
        }
        let result = self.resolve_uncached(class, pid, evidence);
        let ghost before = self.cache@;
        self.cache.insert(class.to_owned(), clone_opt(&result));
        proof {
            assert(cache_view(self.cache@) =~= cache_view(before).insert(
                class@,
                opt_text(result),
            ));
            assert(self@ =~= resolved(old(self)@, class@, pid, *evidence).0);
        }
        result
    }

    fn resolve_uncached(&self, class: &str, pid: i64, evidence: &Evidence) -> (r: Option<String>)
        requires
            self.wf(),
        ensures
            opt_text(r) == uncached(self@, class@, pid, *evidence),
    {
        match self.lookup_configured(class) {
            Some(result) => {
                return result;
            },
            None => {},
        }
        if pid <= 0 {
            return None;
        }
        // 4. Flatpak detection via cgroup
        match detect_flatpak_app(&evidence.cgroup, &evidence.flatpak_info) {
            Some(id) => {
                let mut cmd = "flatpak run ".to_owned();
                cmd.append(id.as_str());
                Some(cmd)
            },
            // 5. Command line fallback
            None => match &evidence.cmdline {
                Some(raw) => resolve_from_proc(raw.as_slice(), evidence.installed),
                None => None,
            },
        }
    }
}

/// A class is resolved once: whatever is asked of it later, with whatever
/// process, the answer is the same and the resolver does not change.
pub proof fn law_answers_are_cached(
    v: ResolverView,
    class: Seq<char>,
    pid: i64,
    e: Evidence,
    later_pid: i64,
    later: Evidence,
)
    ensures
        ({
            let (after, answer) = resolved(v, class, pid, e);
            resolved(after, class, later_pid, later) == (after, answer)
        }),
{
}

/// Resolving one class does not change the answer for another.
pub proof fn law_classes_are_independent(
    v: ResolverView,
    class: Seq<char>,
    pid: i64,
    e: Evidence,
    other: Seq<char>,
    other_pid: i64,
    other_e: Evidence,
)
    requires
        other != class,
    ensures
        resolved(resolved(v, class, pid, e).0, other, other_pid, other_e).1 == resolved(
            v,
            other,
            other_pid,
            other_e,
        ).1,
{
}

/// The order in which a class is resolved: an override for it, an override for
/// a pattern that it matches, a desktop entry, the Flatpak application of its
/// process, the command line of its process. An empty override skips the class.
pub proof fn law_resolution_order(v: ResolverView, class: Seq<char>, pid: i64, e: Evidence)
    requires
        class.len() > 0,
        !v.cache.dom().contains(class),
    ensures
        ({
            let answer = resolved(v, class, pid, e).1;
            let pattern = pattern_command_from(v.patterns, class, 0);
            let entry = found(v.index, class);
            let flatpak = flatpak_app(opt_text(e.cgroup), opt_text(e.flatpak_info));
            if v.exact.dom().contains(class) {
                answer == unless_empty(v.exact[class])
            } else if pattern is Some {
                answer == unless_empty(pattern->0)
            } else if entry is Some {
                answer == Some(entry->0.exec_line)
            } else if pid <= 0 {
                answer is None
            } else if flatpak is Some {
                answer == Some("flatpak run "@ + flatpak->0)
            } else {
                answer == match e.cmdline {
                    Some(raw) => args_command(text_args(raw@), e.installed),
                    None => None,
                }
            }
        }),
{
}

} // verus!
