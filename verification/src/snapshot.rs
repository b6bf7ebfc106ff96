//! Sessions on their way to disk and back.
use crate::config::{expanded, Config};
use crate::ipc::client::opt_view;
use crate::models::{
    clone_opt, entry_views, opt_text, SessionFile, SessionMeta, TrackedWindow, TrackedWindowView,
    WindowEntry, WindowEntryView,
};
use crate::paths::{base_name, extension, extension_of, file_name, join_path, joined_path};
use crate::state::StateManager;
use crate::text::{contains, is_empty, occurs, starts_with, starts_with_seq, str_eq};
use vstd::prelude::*;
use vstd::string::StringExecFns;

verus! {

/// The session that the daemon saves and restores, and that is meant where none
/// is named.
pub const LAST_SESSION: &'static str = "last";

/// Why a session name is refused.
#[derive(Debug)]
pub enum NameError {
    Empty,
    /// The name could leave the session directory, or hide in it.
    Invalid(String),
}

/// The name stays inside the session directory, in plain sight.
pub open spec fn is_safe(name: Seq<char>) -> bool {
    &&& !occurs(name, "/"@)
    &&& !occurs(name, "\\"@)
    &&& !occurs(name, "\0"@)
    &&& !starts_with_seq(name, "."@)
    &&& !occurs(name, ".."@)
}

/// The name can name a session.
pub open spec fn is_session_name(name: Seq<char>) -> bool {
    name.len() > 0 && is_safe(name)
}

impl NameError {
    /// The error for a name that cannot name a session.
    pub open spec fn is_for(self, name: Seq<char>) -> bool {
        match self {
            NameError::Empty => name.len() == 0,
            NameError::Invalid(s) => name.len() > 0 && s@ == name,
        }
    }

    pub open spec fn message(self) -> Seq<char> {
        match self {
            NameError::Empty => "session name cannot be empty"@,
            NameError::Invalid(name) => "invalid session name '"@ + name@
                + "': must not contain path separators or start with '.'"@,
        }
    }

    pub fn to_string(&self) -> (r: String)
        ensures
            r@ == self.message(),
    {
        match self {
            NameError::Empty => "session name cannot be empty".to_owned(),
            NameError::Invalid(name) => {
                let mut s = "invalid session name '".to_owned();
                s.append(name.as_str());
                s.append("': must not contain path separators or start with '.'");
                s
            },
        }
    }
}

/// Accept a session name, or say why not.
pub fn sanitize_session_name(name: &str) -> (r: Result<&str, NameError>)
    ensures
        r is Ok <==> is_session_name(name@),
        r matches Ok(s) ==> s@ == name@,
        r matches Err(e) ==> e.is_for(name@),
{
    if is_empty(name) {
        return Err(NameError::Empty);
    }
    if contains(name, "/") || contains(name, "\\") || contains(name, "\0") || starts_with(
        name,
        ".",
    ) || contains(name, "..") {
        return Err(NameError::Invalid(name.to_owned()));
    }
    Ok(name)
}

/// A tracked window as it is saved: the geometry only of a floating one.
pub open spec fn entry_of(w: TrackedWindowView, cwd: Option<Seq<char>>) -> WindowEntryView {
    WindowEntryView {
        app_id: w.app_id,
        launch_cmd: w.launch_cmd,
        workspace: w.workspace,
        monitor: if w.monitor.len() > 0 {
            Some(w.monitor)
        } else {
            None
        },
        floating: w.floating,
        fullscreen: w.fullscreen,
        position: if w.floating {
            Some(w.position)
        } else {
            None
        },
        size: if w.floating {
            Some(w.size)
        } else {
            None
        },
        cwd,
        profile: w.profile,
    }
}

pub fn window_to_entry(w: &TrackedWindow, cwd: Option<String>) -> (r: WindowEntry)
    ensures
        r@ == entry_of(w@, opt_text(cwd)),
{
    WindowEntry {
        app_id: w.app_id.clone(),
        launch_cmd: w.launch_cmd.clone(),
        workspace: w.workspace.clone(),
        monitor: if is_empty(w.monitor.as_str()) {
            None
        } else {
            Some(w.monitor.clone())
        },
        floating: w.floating,
        fullscreen: w.fullscreen,
        position: if w.floating {
            Some(w.position)
        } else {
            None
        },
        size: if w.floating {
            Some(w.size)
        } else {
            None
        },
        cwd,
        profile: clone_opt(&w.profile),
    }
}

/// Window `i` is saved: it can be launched, and unless every window is saved,
/// no earlier one that can be launched is of the same app.
pub open spec fn is_kept(ws: Seq<TrackedWindowView>, per_window: bool, i: int) -> bool {
    &&& ws[i].launch_cmd.len() > 0
    &&& per_window || forall|j: int|
        0 <= j < i && (#[trigger] ws[j]).launch_cmd.len() > 0 ==> ws[j].app_id != ws[i].app_id
}

/// The working directory that was found for window `i`.
pub open spec fn cwd_at(cwds: Seq<Option<String>>, i: int) -> Option<Seq<char>> {
    if 0 <= i < cwds.len() {
        opt_text(cwds[i])
    } else {
        None
    }
}

/// The entries for the first `n` windows.
pub open spec fn kept_entries(
    ws: Seq<TrackedWindowView>,
    cwds: Seq<Option<String>>,
    per_window: bool,
    n: nat,
) -> Seq<WindowEntryView>
    decreases n,
{
    if n == 0 {
        seq![]
    } else {
        let rest = kept_entries(ws, cwds, per_window, (n - 1) as nat);
        if is_kept(ws, per_window, n - 1) {
            rest.push(entry_of(ws[n - 1], cwd_at(cwds, n - 1)))
        } else {
            rest
        }
    }
}

/// The views of the given windows.
pub open spec fn listed(v: Seq<&TrackedWindow>) -> Seq<TrackedWindowView> {
    Seq::new(v.len(), |i: int| v[i]@)
}

/// A session to be written: first to the temporary file, which then takes the
/// place of the final one.
#[derive(Debug)]
pub struct Save {
    pub session: SessionFile,
    pub final_path: String,
    pub tmp_path: String,
}

pub struct SnapshotEngine {
    session_dir: String,
    per_window_launch: bool,
}

/// The file of a session.
pub open spec fn session_file(dir: Seq<char>, name: Seq<char>) -> Seq<char> {
    joined_path(dir, name + ".toml"@)
}

/// The file that a session is written to before it takes its place.
pub open spec fn temporary_file(dir: Seq<char>, name: Seq<char>) -> Seq<char> {
    joined_path(dir, "."@ + name + ".toml.tmp"@)
}

/// A file in the session directory counts as a session.
pub open spec fn is_session_path(path: Seq<char>) -> bool {
    match base_name(path) {
        Some(name) => extension_of(name) == Some("toml"@) && !starts_with_seq(name, "."@),
        None => false,
    }
}

/// A file in the session directory: its path, and the name and time of the
/// session in it where it can be read.
#[derive(Debug)]
pub struct SessionListing {
    pub path: String,
    pub meta: Option<SessionMeta>,
}

/// The sessions among the files, in order.
pub open spec fn sessions_in(files: Seq<SessionListing>) -> Seq<(Seq<char>, i64)>
    decreases files.len(),
{
    if files.len() == 0 {
        seq![]
    } else {
        let rest = sessions_in(files.drop_last());
        match files.last().meta {
            Some(meta) => if is_session_path(files.last().path@) {
                rest.push((meta.name@, meta.timestamp))
            } else {
                rest
            },
            None => rest,
        }
    }
}

/// How many of the leading sessions are at least as recent.
pub open spec fn recent_prefix(v: Seq<(Seq<char>, i64)>, timestamp: i64) -> nat
    decreases v.len(),
{
    if v.len() > 0 && v[0].1 >= timestamp {
        1 + recent_prefix(v.skip(1), timestamp)
    } else {
        0
    }
}

/// The session placed behind those that are at least as recent.
pub open spec fn placed_by_time(v: Seq<(Seq<char>, i64)>, s: (Seq<char>, i64)) -> Seq<
    (Seq<char>, i64),
> {
    v.insert(recent_prefix(v, s.1) as int, s)
}

/// The most recent first; of the same time, in the given order.
pub open spec fn by_recency(v: Seq<(Seq<char>, i64)>) -> Seq<(Seq<char>, i64)>
    decreases v.len(),
{
    if v.len() == 0 {
        seq![]
    } else {
        placed_by_time(by_recency(v.drop_last()), v.last())
    }
}

pub open spec fn session_views(v: Seq<(String, i64)>) -> Seq<(Seq<char>, i64)> {
    Seq::new(v.len(), |i: int| (v[i].0@, v[i].1))
}

pub(crate) proof fn lemma_recent_prefix(v: Seq<(Seq<char>, i64)>, timestamp: i64)
    ensures
        recent_prefix(v, timestamp) <= v.len(),
        forall|i: int| 0 <= i < recent_prefix(v, timestamp) ==> (#[trigger] v[i]).1 >= timestamp,
        recent_prefix(v, timestamp) < v.len() ==> v[recent_prefix(v, timestamp) as int].1
            < timestamp,
    decreases v.len(),
{
    if v.len() > 0 && v[0].1 >= timestamp {
        let t = v.skip(1);
        lemma_recent_prefix(t, timestamp);
        assert forall|i: int| 0 <= i < recent_prefix(v, timestamp) implies (#[trigger] v[i]).1
            >= timestamp by {
            if i > 0 {
                assert(t[i - 1] == v[i]);
            }
        }
        if recent_prefix(t, timestamp) < t.len() {
            assert(t[recent_prefix(t, timestamp) as int] == v[recent_prefix(
                v,
                timestamp,
            ) as int]);
        }
    }
}

fn insert_by_time(v: &mut Vec<(String, i64)>, name: String, timestamp: i64)
    ensures
        session_views(final(v)@) == placed_by_time(session_views(old(v)@), (name@, timestamp)),
{
    let ghost all = session_views(v@);
    let mut at: usize = 0;
    assert(all.skip(0) =~= all);
    while at < v.len() && v[at].1 >= timestamp
        invariant
            all == session_views(v@),
            v@ == old(v)@,
            at <= v@.len(),
            recent_prefix(all, timestamp) == at + recent_prefix(all.skip(at as int), timestamp),
        decreases v@.len() - at,
    {
        proof {
            let t = all.skip(at as int);
            assert(t[0] == all[at as int]);
            assert(t.skip(1) =~= all.skip(at + 1));
        }
        at = at + 1;
    }
    proof {
        let t = all.skip(at as int);
        if at < v@.len() {
            assert(t[0] == all[at as int]);
        }
    }
    v.insert(at, (name, timestamp));
    assert(session_views(v@) =~= all.insert(at as int, (name@, timestamp)));
}

impl SnapshotEngine {
    pub closed spec fn spec_dir(&self) -> Seq<char> {
        self.session_dir@
    }

    pub closed spec fn spec_per_window(&self) -> bool {
        self.per_window_launch
    }

    /// The engine that a configuration asks for, given the user's home
    /// directory.
    pub fn new(config: &Config, home: Option<&str>) -> (r: Self)
        ensures
            r.spec_dir() == joined_path(
                expanded(config.general.session_dir@, opt_view(home)),
                "sessions"@,
            ),
            r.spec_per_window() == config.general.per_window_launch,
    {
        SnapshotEngine {
            session_dir: config.session_dir(home),
            per_window_launch: config.general.per_window_launch,
        }
    }

    pub fn new_with_dir(session_dir: String, per_window_launch: bool) -> (r: Self)
        ensures
            r.spec_dir() == session_dir@,
            r.spec_per_window() == per_window_launch,
    {
        SnapshotEngine { session_dir, per_window_launch }
    }

    /// The file of a session.
    fn path_of(&self, name: &str) -> (r: String)
        ensures
            r@ == session_file(self.spec_dir(), name@),
    {
        let mut file = name.to_owned();
        file.append(".toml");
        join_path(self.session_dir.as_str(), file.as_str())
    }

    /// The session that the tracked windows make, at the given time, and where
    /// it is written. `cwds` holds the working directories that were found for
    /// the windows, in the order in which the state lists them.
    pub fn save(
        &self,
        state: &StateManager,
        cwds: &Vec<Option<String>>,
        name: &str,
        timestamp: i64,
    ) -> (r: Result<Save, NameError>)
        requires
            state.wf(),
        ensures
            r is Ok <==> is_session_name(name@),
            r matches Err(e) ==> e.is_for(name@),
            r matches Ok(save) ==> {
                let ws = Seq::new(
                    state.order().len(),
                    |i: int| state@.windows[state.order()[i]],
                );
                &&& save.session.session.name@ == name@
                &&& save.session.session.timestamp == timestamp
                &&& entry_views(save.session.windows@) == kept_entries(
                    ws,
                    cwds@,
                    self.spec_per_window(),
                    ws.len(),
                )
                &&& save.final_path@ == session_file(self.spec_dir(), name@)
                &&& save.tmp_path@ == temporary_file(self.spec_dir(), name@)
            },
    {
        let name = match sanitize_session_name(name) {
            Ok(name) => name,
            Err(e) => {
                return Err(e);
            },
        };
        let windows = state.windows();
        let ghost ws = Seq::new(state.order().len(), |i: int| state@.windows[state.order()[i]]);
        assert(listed(windows@) =~= ws);
        let entries = self.entries(&windows, cwds);
        let mut tmp = ".".to_owned();
        tmp.append(name);
        tmp.append(".toml.tmp");
        Ok(
            Save {
                session: SessionFile {
                    session: SessionMeta { name: name.to_owned(), timestamp },
                    windows: entries,
                },
                final_path: self.path_of(name),
                tmp_path: join_path(self.session_dir.as_str(), tmp.as_str()),
            },
        )
    }

    /// The entries that are saved for the given windows.
    pub fn entries(&self, windows: &Vec<&TrackedWindow>, cwds: &Vec<Option<String>>) -> (r: Vec<
        WindowEntry,
    >)
        ensures
            entry_views(r@) == kept_entries(
                listed(windows@),
                cwds@,
                self.spec_per_window(),
                windows@.len(),
            ),
    {
        let ghost ws = listed(windows@);
        let mut out: Vec<WindowEntry> = Vec::new();
        assert(entry_views(out@) =~= seq![]);
        for i in 0..windows.len()
            invariant
                ws == listed(windows@),
                entry_views(out@) == kept_entries(ws, cwds@, self.spec_per_window(), i as nat),
        {
            let w = windows[i];
            assert(ws[i as int] == w@);
            if !is_empty(w.launch_cmd.as_str()) && (self.per_window_launch || !is_repeat(
                windows,
                i,
            )) {
                let cwd = if i < cwds.len() {
                    clone_opt(&cwds[i])
                } else {
                    None
                };
                let entry = window_to_entry(w, cwd);
                let ghost before = entry_views(out@);
                out.push(entry);
                assert(entry_views(out@) =~= before.push(entry@));
            }
        }
        out
    }

    /// Where a session is read from.
    pub fn load(&self, name: &str) -> (r: Result<String, NameError>)
        ensures
            r is Ok <==> is_session_name(name@),
            r matches Ok(path) ==> path@ == session_file(self.spec_dir(), name@),
            r matches Err(e) ==> e.is_for(name@),
    {
        match sanitize_session_name(name) {
            Ok(name) => Ok(self.path_of(name)),
            Err(e) => Err(e),
        }
    }

    /// The sessions among the files of the session directory, the most recent
    /// first.
    pub fn list(files: &Vec<SessionListing>) -> (r: Vec<(String, i64)>)
        ensures
            session_views(r@) == by_recency(sessions_in(files@)),
    {
        let mut out: Vec<(String, i64)> = Vec::new();
        assert(session_views(out@) =~= seq![]);
        for i in 0..files.len()
            invariant
                session_views(out@) == by_recency(sessions_in(files@.take(i as int))),
        {
            let f = &files[i];
            proof {
                let t = files@.take(i as int + 1);
                assert(t.drop_last() =~= files@.take(i as int));
                assert(t.last() == files@[i as int]);
            }
            match &f.meta {
                Some(meta) => {
                    if names_session(f.path.as_str()) {
                        proof {
                            let rest = sessions_in(files@.take(i as int));
                            let s = (meta.name@, meta.timestamp);
                            assert(rest.push(s).drop_last() =~= rest);
                        }
                        insert_by_time(&mut out, meta.name.clone(), meta.timestamp);
                    }
                },
                None => {},
            }
        }
        assert(files@.take(files@.len() as int) =~= files@);
        out
    }

    /// The file whose removal deletes a session.
    pub fn delete(&self, name: &str) -> (r: Result<String, NameError>)
        ensures
            r is Ok <==> is_session_name(name@),
            r matches Ok(path) ==> path@ == session_file(self.spec_dir(), name@),
            r matches Err(e) ==> e.is_for(name@),
    {
        self.load(name)
    }

    /// Whether a session exists, given whether its file does.
    pub fn has_session(&self, name: &str, file_is_there: bool) -> (r: bool)
        ensures
            r == (is_session_name(name@) && file_is_there),
    {
        sanitize_session_name(name).is_ok() && file_is_there
    }

    pub fn session_dir(&self) -> (r: &str)
        ensures
            r@ == self.spec_dir(),
    {
        self.session_dir.as_str()
    }
}

/// Whether an earlier window that can be launched is of the same app.
fn is_repeat(windows: &Vec<&TrackedWindow>, i: usize) -> (r: bool)
    requires
        i < windows@.len(),
    ensures
        r == exists|j: int|
            0 <= j < i && (#[trigger] listed(windows@)[j]).launch_cmd.len() > 0 && listed(
                windows@,
            )[j].app_id == listed(windows@)[i as int].app_id,
{
    let ghost ws = listed(windows@);
    for j in 0..i
        invariant
            i < windows@.len(),
            ws == listed(windows@),
            forall|k: int|
                0 <= k < j && (#[trigger] ws[k]).launch_cmd.len() > 0 ==> ws[k].app_id
                    != ws[i as int].app_id,
    {
        assert(ws[j as int] == windows@[j as int]@);
        if !is_empty(windows[j].launch_cmd.as_str()) && str_eq(
            windows[j].app_id.as_str(),
            windows[i].app_id.as_str(),
        ) {
            assert(ws[j as int].launch_cmd.len() > 0);
            return true;
        }
    }
    false
}

/// Whether a file in the session directory counts as a session.
pub fn names_session(path: &str) -> (r: bool)
    ensures
        r == is_session_path(path@),
{
    match file_name(path) {
        Some(name) => match extension(name) {
            Some(ext) => str_eq(ext, "toml") && !starts_with(name, "."),
            None => false,
        },
        None => false,
    }
}

/// The list of sessions has every session once, and the times never rise.
pub proof fn law_list_is_sorted(v: Seq<(Seq<char>, i64)>)
    ensures
        by_recency(v).to_multiset() == v.to_multiset(),
        forall|i: int, j: int|
            0 <= i <= j < by_recency(v).len() ==> by_recency(v)[i].1 >= by_recency(v)[j].1,
    decreases v.len(),
{
    broadcast use vstd::seq_lib::group_to_multiset_ensures;

    if v.len() > 0 {
        let rest = by_recency(v.drop_last());
        let s = v.last();
        law_list_is_sorted(v.drop_last());
        let k = recent_prefix(rest, s.1) as int;
        lemma_recent_prefix(rest, s.1);
        let all = by_recency(v);
        vstd::seq_lib::to_multiset_insert(rest, k, s);
        assert(v =~= v.drop_last().push(s));
        assert forall|i: int, j: int| 0 <= i <= j < all.len() implies all[i].1 >= all[j].1 by {
            let i0 = if i < k {
                i
            } else {
                i - 1
            };
            let j0 = if j < k {
                j
            } else {
                j - 1
            };
            if i == k && j == k {
            } else if i == k {
                assert(all[j] == rest[j0]);
                assert(rest[k].1 >= rest[j0].1);
            } else if j == k {
                assert(all[i] == rest[i0]);
            } else {
                assert(all[i] == rest[i0] && all[j] == rest[j0]);
                assert(rest[i0].1 >= rest[j0].1);
            }
        }
    }
}

/// A session name that is accepted keeps its file in the session directory:
/// what is appended to the directory holds no separator.
pub proof fn law_names_cannot_escape(dir: Seq<char>, name: Seq<char>)
    requires
        is_session_name(name),
    ensures
        forall|i: int| 0 <= i < name.len() ==> name[i] != '/',
        dir.len() > 0 && dir.last() != '/' ==> session_file(dir, name) == dir + "/"@ + (name
            + ".toml"@) && temporary_file(dir, name) == dir + "/"@ + ("."@ + name + ".toml.tmp"@),
{
    reveal_strlit("/");
    reveal_strlit(".");
    reveal_strlit(".toml");
    reveal_strlit(".toml.tmp");
    assert forall|i: int| 0 <= i < name.len() implies name[i] != '/' by {
        if name[i] == '/' {
            assert(name.subrange(i, i + 1) =~= "/"@);
            assert(crate::text::occurs_at(name, "/"@, i));
        }
    }
    assert((name + ".toml"@)[0] == name[0]);
    assert(("."@ + name + ".toml.tmp"@)[0] == '.');
}

/// The last session can be saved: its name is accepted.
pub(crate) proof fn lemma_last_session_is_named()
    ensures
        is_session_name(LAST_SESSION@),
{
    reveal_strlit("last");
    reveal_strlit("/");
    reveal_strlit("\\");
    reveal_strlit("\0");
    reveal_strlit(".");
    reveal_strlit("..");
    let name = LAST_SESSION@;
    assert forall|pat: Seq<char>, i: int|
        pat.len() > 0 && !name.contains(pat[0]) implies !#[trigger] crate::text::occurs_at(
        name,
        pat,
        i,
    ) by {
        if crate::text::occurs_at(name, pat, i) {
            assert(name.subrange(i, i + pat.len())[0] == name[i]);
        }
    }
    assert(name.take(1)[0] == 'l');
}

proof fn lemma_kept_member(
    ws: Seq<TrackedWindowView>,
    cwds: Seq<Option<String>>,
    per_window: bool,
    n: nat,
    i: int,
)
    requires
        0 <= i < n,
        is_kept(ws, per_window, i),
    ensures
        kept_entries(ws, cwds, per_window, n).contains(entry_of(ws[i], cwd_at(cwds, i))),
    decreases n,
{
    let all = kept_entries(ws, cwds, per_window, n);
    let rest = kept_entries(ws, cwds, per_window, (n - 1) as nat);
    let e = entry_of(ws[i], cwd_at(cwds, i));
    if i == n - 1 {
        assert(all[rest.len() as int] == e);
    } else {
        lemma_kept_member(ws, cwds, per_window, (n - 1) as nat, i);
        let k = choose|k: int| 0 <= k < rest.len() && rest[k] == e;
        assert(all[k] == e);
    }
}

proof fn lemma_first_of_app(
    ws: Seq<TrackedWindowView>,
    per_window: bool,
    i: int,
) -> (j: int)
    requires
        0 <= i < ws.len(),
        ws[i].launch_cmd.len() > 0,
    ensures
        0 <= j <= i,
        is_kept(ws, per_window, j),
        ws[j].app_id == ws[i].app_id,
    decreases i,
{
    if is_kept(ws, per_window, i) {
        i
    } else {
        let k = choose|k: int|
            0 <= k < i && (#[trigger] ws[k]).launch_cmd.len() > 0 && ws[k].app_id == ws[i].app_id;
        lemma_first_of_app(ws, per_window, k)
    }
}

/// Every app with a window that can be launched is saved; if every window is
/// saved, each of those windows is.
pub proof fn law_no_app_is_lost(
    ws: Seq<TrackedWindowView>,
    cwds: Seq<Option<String>>,
    per_window: bool,
    i: int,
)
    requires
        0 <= i < ws.len(),
        ws[i].launch_cmd.len() > 0,
    ensures
        exists|e: WindowEntryView| #[trigger]
            kept_entries(ws, cwds, per_window, ws.len()).contains(e) && e.app_id == ws[i].app_id,
        per_window ==> kept_entries(ws, cwds, per_window, ws.len()).contains(
            entry_of(ws[i], cwd_at(cwds, i)),
        ),
{
    let j = lemma_first_of_app(ws, per_window, i);
    lemma_kept_member(ws, cwds, per_window, ws.len(), j);
    assert(kept_entries(ws, cwds, per_window, ws.len()).contains(
        entry_of(ws[j], cwd_at(cwds, j)),
    ));
    if per_window {
        lemma_kept_member(ws, cwds, per_window, ws.len(), i);
    }
}

proof fn lemma_kept_source(
    ws: Seq<TrackedWindowView>,
    cwds: Seq<Option<String>>,
    n: nat,
    a: int,
) -> (i: int)
    requires
        0 <= a < kept_entries(ws, cwds, false, n).len(),
    ensures
        0 <= i < n,
        is_kept(ws, false, i),
        kept_entries(ws, cwds, false, n)[a].app_id == ws[i].app_id,
    decreases n,
{
    let rest = kept_entries(ws, cwds, false, (n - 1) as nat);
    if a < rest.len() {
        assert(kept_entries(ws, cwds, false, n)[a] == rest[a]);
        lemma_kept_source(ws, cwds, (n - 1) as nat, a)
    } else {
        n - 1
    }
}

/// Unless every window is saved, no app is saved twice.
pub proof fn law_apps_are_saved_once(
    ws: Seq<TrackedWindowView>,
    cwds: Seq<Option<String>>,
    n: nat,
    a: int,
    b: int,
)
    requires
        0 <= a < b < kept_entries(ws, cwds, false, n).len(),
    ensures
        kept_entries(ws, cwds, false, n)[a].app_id != kept_entries(ws, cwds, false, n)[b].app_id,
    decreases n,
{
    let all = kept_entries(ws, cwds, false, n);
    let rest = kept_entries(ws, cwds, false, (n - 1) as nat);
    if b < rest.len() {
        law_apps_are_saved_once(ws, cwds, (n - 1) as nat, a, b);
        assert(all[a] == rest[a] && all[b] == rest[b]);
    } else {
        assert(all[a] == rest[a]);
        let i = lemma_kept_source(ws, cwds, (n - 1) as nat, a);
        assert(ws[i].launch_cmd.len() > 0);
    }
}

} // verus!
