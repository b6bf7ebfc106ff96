//! Settings, and their defaults.
use crate::collections::StringMap;
use crate::ipc::client::opt_view;
use crate::paths::{join_path, joined_path};
use crate::text::{after_prefix, strip_prefix, texts};
use vstd::prelude::*;

verus! {

/// What the user has configured, with defaults for the rest.
pub struct Config {
    pub general: GeneralConfig,
    pub rules: RulesConfig,
    /// Launch commands by window class, or by class pattern.
    pub overrides: StringMap<String>,
}

#[derive(Debug)]
pub struct GeneralConfig {
    /// Seconds between periodic saves.
    pub save_interval: u64,
    pub session_dir: String,
    pub restore_on_start: bool,
    pub per_window_launch: bool,
    pub restore_geometry: bool,
    pub restore_layout: bool,
}

#[derive(Debug)]
pub struct RulesConfig {
    /// Patterns of window classes that are never tracked.
    pub exclude: Vec<String>,
    /// Patterns of window classes that are tracked; all are, if there is none.
    pub include_only: Vec<String>,
}

pub struct GeneralView {
    pub save_interval: u64,
    pub session_dir: Seq<char>,
    pub restore_on_start: bool,
    pub per_window_launch: bool,
    pub restore_geometry: bool,
    pub restore_layout: bool,
}

impl View for GeneralConfig {
    type V = GeneralView;

    open spec fn view(&self) -> GeneralView {
        GeneralView {
            save_interval: self.save_interval,
            session_dir: self.session_dir@,
            restore_on_start: self.restore_on_start,
            per_window_launch: self.per_window_launch,
            restore_geometry: self.restore_geometry,
            restore_layout: self.restore_layout,
        }
    }
}

pub open spec fn general_defaults() -> GeneralView {
    GeneralView {
        save_interval: 120,
        session_dir: "~/.local/share/hyprresume"@,
        restore_on_start: true,
        per_window_launch: true,
        restore_geometry: true,
        restore_layout: true,
    }
}

pub open spec fn exclude_defaults() -> Seq<Seq<char>> {
    seq!["^xdg-desktop-portal.*"@, "^org\\.kde\\.polkit.*"@]
}

/// The settings of the `[general]` section as they stand in a file.
#[derive(Debug)]
pub struct RawGeneral {
    pub save_interval: Option<u64>,
    pub session_dir: Option<String>,
    pub restore_on_start: Option<bool>,
    pub per_window_launch: Option<bool>,
    pub restore_geometry: Option<bool>,
    pub restore_layout: Option<bool>,
}

/// The settings of the `[rules]` section as they stand in a file.
#[derive(Debug)]
pub struct RawRules {
    pub exclude: Option<Vec<String>>,
    pub include_only: Option<Vec<String>>,
}

/// The settings as they stand in a file.
#[derive(Debug)]
pub struct RawConfig {
    pub general: Option<RawGeneral>,
    pub rules: Option<RawRules>,
    pub overrides: Vec<(String, String)>,
}

pub open spec fn or_default<T>(o: Option<T>, default: T) -> T {
    match o {
        Some(v) => v,
        None => default,
    }
}

/// A section with its defaults filled in.
pub open spec fn completed(raw: RawGeneral) -> GeneralView {
    let d = general_defaults();
    GeneralView {
        save_interval: or_default(raw.save_interval, d.save_interval),
        session_dir: match raw.session_dir {
            Some(dir) => dir@,
            None => d.session_dir,
        },
        restore_on_start: or_default(raw.restore_on_start, d.restore_on_start),
        per_window_launch: or_default(raw.per_window_launch, d.per_window_launch),
        restore_geometry: or_default(raw.restore_geometry, d.restore_geometry),
        restore_layout: or_default(raw.restore_layout, d.restore_layout),
    }
}

/// The overrides as a map. Of two with the same key the later one counts.
pub open spec fn override_map(pairs: Seq<(String, String)>) -> Map<Seq<char>, Seq<char>>
    decreases pairs.len(),
{
    if pairs.len() == 0 {
        Map::empty()
    } else {
        override_map(pairs.drop_last()).insert(pairs.last().0@, pairs.last().1@)
    }
}

/// What a map to texts says.
pub open spec fn text_map(m: Map<Seq<char>, String>) -> Map<Seq<char>, Seq<char>> {
    m.map_values(|s: String| s@)
}

/// What the user has configured, with defaults for the rest.
#[verifier::ext_equal]
pub struct ConfigView {
    pub general: GeneralView,
    pub exclude: Seq<Seq<char>>,
    pub include_only: Seq<Seq<char>>,
    pub overrides: Map<Seq<char>, Seq<char>>,
}

impl View for Config {
    type V = ConfigView;

    open spec fn view(&self) -> ConfigView {
        ConfigView {
            general: self.general@,
            exclude: texts(self.rules.exclude@),
            include_only: texts(self.rules.include_only@),
            overrides: text_map(self.overrides@),
        }
    }
}

/// The settings without a file.
pub open spec fn defaults() -> ConfigView {
    ConfigView {
        general: general_defaults(),
        exclude: exclude_defaults(),
        include_only: seq![],
        overrides: Map::empty(),
    }
}

/// The settings in a file, where there is one; defaults fill in what the file
/// leaves out, and stand for a missing file.
pub open spec fn loaded(found: Option<RawConfig>) -> ConfigView {
    match found {
        Some(raw) => ConfigView {
            general: match raw.general {
                Some(g) => completed(g),
                None => general_defaults(),
            },
            exclude: match raw.rules {
                Some(RawRules { exclude: Some(v), .. }) => texts(v@),
                _ => exclude_defaults(),
            },
            include_only: match raw.rules {
                Some(RawRules { include_only: Some(v), .. }) => texts(v@),
                _ => seq![],
            },
            overrides: override_map(raw.overrides@),
        },
        None => defaults(),
    }
}

/// An empty file, and one with empty sections, mean the same as none.
pub proof fn law_empty_file_means_defaults(raw: RawConfig)
    requires
        raw.general matches Some(g) ==> {
            &&& g.save_interval is None
            &&& g.session_dir is None
            &&& g.restore_on_start is None
            &&& g.per_window_launch is None
            &&& g.restore_geometry is None
            &&& g.restore_layout is None
        },
        raw.rules matches Some(r) ==> r.exclude is None && r.include_only is None,
        raw.overrides@.len() == 0,
    ensures
        loaded(Some(raw)) == loaded(None),
{
    assert(loaded(Some(raw)) =~= loaded(None));
}

pub fn default_save_interval() -> (r: u64)
    ensures
        r == general_defaults().save_interval,
{
    120
}

pub fn default_session_dir() -> (r: String)
    ensures
        r@ == general_defaults().session_dir,
{
    "~/.local/share/hyprresume".to_owned()
}

pub fn default_true() -> (r: bool)
    ensures
        r,
{
    true
}

pub fn default_excludes() -> (r: Vec<String>)
    ensures
        texts(r@) == exclude_defaults(),
{
    let mut v: Vec<String> = Vec::new();
    v.push("^xdg-desktop-portal.*".to_owned());
    v.push("^org\\.kde\\.polkit.*".to_owned());
    assert(texts(v@) =~= exclude_defaults());
    v
}

impl Default for RulesConfig {
    fn default() -> (r: Self)
        ensures
            texts(r.exclude@) == exclude_defaults(),
            r.include_only@.len() == 0,
    {
        RulesConfig { exclude: default_excludes(), include_only: Vec::new() }
    }
}

impl Default for Config {
    fn default() -> (r: Self)
        ensures
            r.overrides.wf(),
            r@ == defaults(),
    {
        let r = Config {
            general: Self::default_general(),
            rules: RulesConfig::default(),
            overrides: StringMap::new(),
        };
        assert(r@ =~= defaults());
        r
    }
}

fn complete_general(raw: RawGeneral) -> (r: GeneralConfig)
    ensures
        r@ == completed(raw),
{
    GeneralConfig {
        save_interval: match raw.save_interval {
            Some(v) => v,
            None => default_save_interval(),
        },
        session_dir: match raw.session_dir {
            Some(v) => v,
            None => default_session_dir(),
        },
        restore_on_start: match raw.restore_on_start {
            Some(v) => v,
            None => default_true(),
        },
        per_window_launch: match raw.per_window_launch {
            Some(v) => v,
            None => default_true(),
        },
        restore_geometry: match raw.restore_geometry {
            Some(v) => v,
            None => default_true(),
        },
        restore_layout: match raw.restore_layout {
            Some(v) => v,
            None => default_true(),
        },
    }
}

fn complete_rules(raw: RawRules) -> (r: RulesConfig)
    ensures
        texts(r.exclude@) == match raw.exclude {
            Some(v) => texts(v@),
            None => exclude_defaults(),
        },
        texts(r.include_only@) == match raw.include_only {
            Some(v) => texts(v@),
            None => seq![],
        },
{
    let none: Vec<String> = Vec::new();
    assert(texts(none@) =~= seq![]);
    RulesConfig {
        exclude: match raw.exclude {
            Some(v) => v,
            None => default_excludes(),
        },
        include_only: match raw.include_only {
            Some(v) => v,
            None => none,
        },
    }
}

/// The directory that a configured one stands for: a leading `~` is the
/// user's home, or `/tmp` where that is unknown.
pub open spec fn expanded(dir: Seq<char>, home: Option<Seq<char>>) -> Seq<char> {
    match after_prefix(dir, "~"@) {
        Some(rest) => {
            let base = match home {
                Some(h) => h,
                None => "/tmp"@,
            };
            let below = match after_prefix(rest, "/"@) {
                Some(b) => b,
                None => rest,
            };
            joined_path(base, below)
        },
        None => dir,
    }
}

/// Where the configuration is, below the user's configuration directory.
pub open spec fn path_below(config_dir: Option<Seq<char>>) -> Seq<char> {
    let base = match config_dir {
        Some(dir) => dir,
        None => "~/.config"@,
    };
    joined_path(joined_path(base, "hypr"@), "hyprresume.toml"@)
}

/// The directory of the session files, given the setting and the user's home
/// directory.
pub open spec fn sessions_below(setting: Seq<char>, home: Option<Seq<char>>) -> Seq<char> {
    joined_path(expanded(setting, home), "sessions"@)
}

impl Config {
    pub fn default_general() -> (r: GeneralConfig)
        ensures
            r@ == general_defaults(),
    {
        GeneralConfig {
            save_interval: default_save_interval(),
            session_dir: default_session_dir(),
            restore_on_start: true,
            per_window_launch: true,
            restore_geometry: true,
            restore_layout: true,
        }
    }

    /// The configuration in a file, where there is one; defaults fill in what
    /// the file leaves out, and stand for a missing file.
    pub fn load(found: Option<RawConfig>) -> (r: Self)
        ensures
            r.overrides.wf(),
            r@ == loaded(found),
    {
        match found {
            None => Self::default(),
            Some(raw) => {
                let RawConfig { general, rules, overrides: pairs } = raw;
                let general = match general {
                    Some(g) => complete_general(g),
                    None => Self::default_general(),
                };
                let rules = match rules {
                    Some(rules) => complete_rules(rules),
                    None => {
                        let d = RulesConfig::default();
                        assert(texts(d.include_only@) =~= seq![]);
                        d
                    },
                };
                let mut overrides: StringMap<String> = StringMap::new();
                assert(text_map(overrides@) =~= Map::empty());
                for i in 0..pairs.len()
                    invariant
                        overrides.wf(),
                        text_map(overrides@) == override_map(pairs@.take(i as int)),
                {
                    let ghost before = overrides@;
                    overrides.insert(pairs[i].0.clone(), pairs[i].1.clone());
                    proof {
                        let t = pairs@.take(i as int + 1);
                        assert(t.drop_last() =~= pairs@.take(i as int));
                        assert(text_map(overrides@) =~= text_map(before).insert(
                            pairs@[i as int].0@,
                            pairs@[i as int].1@,
                        ));
                    }
                }
                assert(pairs@.take(pairs@.len() as int) =~= pairs@);
                Config { general, rules, overrides }
            },
        }
    }

    /// Where the configuration is, below the user's configuration directory.
    pub fn default_path(config_dir: Option<&str>) -> (r: String)
        ensures
            r@ == joined_path(
                joined_path(
                    match config_dir {
                        Some(dir) => dir@,
                        None => "~/.config"@,
                    },
                    "hypr"@,
                ),
                "hyprresume.toml"@,
            ),
            r@ == path_below(opt_view(config_dir)),
    {
        let base = match config_dir {
            Some(dir) => dir,
            None => "~/.config",
        };
        let hypr = join_path(base, "hypr");
        join_path(hypr.as_str(), "hyprresume.toml")
    }

    /// The directory of the session files, given the user's home directory.
    pub fn session_dir(&self, home: Option<&str>) -> (r: String)
        ensures
            r@ == joined_path(expanded(self.general.session_dir@, opt_view(home)), "sessions"@),
            r@ == sessions_below(self.general.session_dir@, opt_view(home)),
    {
        let raw = self.general.session_dir.as_str();
        match strip_prefix(raw, "~") {
            Some(rest) => {
                let base = match home {
                    Some(h) => h,
                    None => "/tmp",
                };
                let below = match strip_prefix(rest, "/") {
                    Some(b) => b,
                    None => rest,
                };
                let dir = join_path(base, below);
                join_path(dir.as_str(), "sessions")
            },
            None => join_path(raw, "sessions"),
        }
    }
}

} // verus!
