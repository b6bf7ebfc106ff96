//! What is saved and found again.
use crate::models::{opt_text, TrackedWindow, TrackedWindowView, WindowEntry, WindowEntryView};
use crate::paths::{
    base_name, extension_of, joined_path, last_component, stem_of, without_trailing,
};
use crate::snapshot::{
    by_recency, cwd_at, entry_of, is_kept, is_session_name, is_session_path, kept_entries,
    lemma_recent_prefix, recent_prefix, session_file, sessions_in, temporary_file, SessionListing,
};
use crate::text::{cut_last, lacks, last_at, lemma_cut_last, occurs, occurs_at};
use vstd::prelude::*;

verus! {

/// The entry is the window as it was, with the directory that was found for
/// it. A tiled window has no geometry of its own; a floating one keeps both
/// its position and its size. The monitor is kept where it is known.
pub open spec fn is_saved_as(
    w: TrackedWindowView,
    cwd: Option<Seq<char>>,
    e: WindowEntryView,
) -> bool {
    &&& e.app_id == w.app_id
    &&& e.launch_cmd == w.launch_cmd
    &&& e.workspace == w.workspace
    &&& e.floating == w.floating
    &&& e.fullscreen == w.fullscreen
    &&& e.profile == w.profile
    &&& e.cwd == cwd
    &&& w.floating ==> e.position == Some(w.position) && e.size == Some(w.size)
    &&& !w.floating ==> e.position is None && e.size is None
    &&& w.monitor.len() > 0 ==> e.monitor == Some(w.monitor)
    &&& w.monitor.len() == 0 ==> e.monitor is None
}

/// A window is saved as it is.
pub proof fn law_window_is_saved_as_it_is(w: TrackedWindowView, cwd: Option<Seq<char>>)
    ensures
        is_saved_as(w, cwd, entry_of(w, cwd)),
{
}

/// What a tracked window and a saved one say of themselves is what they hold.
pub proof fn law_views_show_the_fields(w: TrackedWindow, e: WindowEntry)
    ensures
        w@.address == w.address@,
        w@.app_id == w.app_id@,
        w@.launch_cmd == w.launch_cmd@,
        w@.workspace == w.workspace@,
        w@.monitor == w.monitor@,
        w@.position == w.position,
        w@.size == w.size,
        w@.floating == w.floating,
        w@.fullscreen == w.fullscreen,
        w@.pid == w.pid,
        w@.profile == opt_text(w.profile),
        e@.app_id == e.app_id@,
        e@.launch_cmd == e.launch_cmd@,
        e@.workspace == e.workspace@,
        e@.monitor == opt_text(e.monitor),
        e@.floating == e.floating,
        e@.fullscreen == e.fullscreen,
        e@.position == e.position,
        e@.size == e.size,
        e@.cwd == opt_text(e.cwd),
        e@.profile == opt_text(e.profile),
{
}

/// The indices are in ascending order.
pub open spec fn is_ascending(src: Seq<int>) -> bool {
    forall|i: int, j: int| 0 <= i < j < src.len() ==> src[i] < src[j]
}

/// The windows at these places, and no others of the first `n`, are those to be
/// saved: the ones with a command, or, if each app is saved once, the first of
/// each app that has one.
pub open spec fn are_to_be_saved(
    ws: Seq<TrackedWindowView>,
    per_window: bool,
    n: int,
    src: Seq<int>,
) -> bool {
    &&& is_ascending(src)
    &&& forall|k: int|
        0 <= k < src.len() ==> 0 <= #[trigger] src[k] < n && ws[src[k]].launch_cmd.len() > 0
    &&& forall|i: int|
        0 <= i < n && ws[i].launch_cmd.len() > 0 && !(#[trigger] src.contains(i)) ==> !per_window
            && exists|k: int|
            0 <= k < src.len() && #[trigger] src[k] < i && ws[src[k]].app_id == ws[i].app_id
    &&& !per_window ==> forall|j: int, k: int|
        0 <= j < k < src.len() ==> ws[#[trigger] src[j]].app_id != ws[#[trigger] src[k]].app_id
}

/// Each window that is to be saved has its entry, in the order of the windows,
/// and there are no other entries.
pub proof fn law_session_holds_the_windows(
    ws: Seq<TrackedWindowView>,
    cwds: Seq<Option<String>>,
    per_window: bool,
    n: nat,
)
    requires
        n <= ws.len(),
    ensures
        exists|src: Seq<int>| #[trigger]
            are_to_be_saved(ws, per_window, n as int, src) && src.len() == kept_entries(
                ws,
                cwds,
                per_window,
                n,
            ).len() && forall|k: int|
                0 <= k < src.len() ==> is_saved_as(
                    ws[#[trigger] src[k]],
                    cwd_at(cwds, src[k]),
                    kept_entries(ws, cwds, per_window, n)[k],
                ),
    decreases n,
{
    let all = kept_entries(ws, cwds, per_window, n);
    if n == 0 {
        let src = Seq::<int>::empty();
        assert(are_to_be_saved(ws, per_window, 0, src));
    } else {
        let m = (n - 1) as nat;
        law_session_holds_the_windows(ws, cwds, per_window, m);
        let rest = kept_entries(ws, cwds, per_window, m);
        let old_src = choose|src: Seq<int>| #[trigger]
            are_to_be_saved(ws, per_window, m as int, src) && src.len() == rest.len() && forall|
                k: int,
            |
                0 <= k < src.len() ==> is_saved_as(
                    ws[#[trigger] src[k]],
                    cwd_at(cwds, src[k]),
                    rest[k],
                );
        let last = n - 1;
        if is_kept(ws, per_window, last) {
            let src = old_src.push(last);
            lemma_saved_grows(ws, per_window, m as int, old_src);
            assert forall|k: int| 0 <= k < src.len() implies is_saved_as(
                ws[#[trigger] src[k]],
                cwd_at(cwds, src[k]),
                all[k],
            ) by {
                if k < old_src.len() {
                    assert(src[k] == old_src[k]);
                    assert(all[k] == rest[k]);
                } else {
                    law_window_is_saved_as_it_is(ws[last], cwd_at(cwds, last));
                }
            }
            assert(are_to_be_saved(ws, per_window, n as int, src));
        } else {
            let src = old_src;
            assert forall|i: int|
                0 <= i < n && ws[i].launch_cmd.len() > 0 && !(
                #[trigger] src.contains(i)) implies !per_window && exists|k: int|
                0 <= k < src.len() && #[trigger] src[k] < i && ws[src[k]].app_id == ws[i].app_id by {
                if i == last {
                    let j = choose|j: int|
                        0 <= j < last && (#[trigger] ws[j]).launch_cmd.len() > 0 && ws[j].app_id
                            == ws[last].app_id;
                    if src.contains(j) {
                        let k = choose|k: int| 0 <= k < src.len() && src[k] == j;
                        assert(src[k] < last);
                    } else {
                        let k = choose|k: int|
                            0 <= k < src.len() && #[trigger] src[k] < j && ws[src[k]].app_id
                                == ws[j].app_id;
                        assert(src[k] < last);
                    }
                }
            }
            assert(are_to_be_saved(ws, per_window, n as int, src));
        }
    }
}

proof fn lemma_saved_grows(
    ws: Seq<TrackedWindowView>,
    per_window: bool,
    last: int,
    src: Seq<int>,
)
    requires
        0 <= last < ws.len(),
        are_to_be_saved(ws, per_window, last, src),
        is_kept(ws, per_window, last),
    ensures
        are_to_be_saved(ws, per_window, last + 1, src.push(last)),
{
    let all = src.push(last);
    assert forall|i: int, j: int| 0 <= i < j < all.len() implies all[i] < all[j] by {
        assert(all[i] == src[i]);
        if j < src.len() {
            assert(all[j] == src[j]);
        }
    }
    assert forall|k: int| 0 <= k < all.len() implies 0 <= #[trigger] all[k] < last + 1
        && ws[all[k]].launch_cmd.len() > 0 by {
        if k < src.len() {
            assert(all[k] == src[k]);
        }
    }
    assert forall|i: int|
        0 <= i < last + 1 && ws[i].launch_cmd.len() > 0 && !(
        #[trigger] all.contains(i)) implies !per_window && exists|k: int|
        0 <= k < all.len() && #[trigger] all[k] < i && ws[all[k]].app_id == ws[i].app_id by {
        assert(all[src.len() as int] == last);
        assert(i != last);
        if src.contains(i) {
            let k = choose|k: int| 0 <= k < src.len() && src[k] == i;
            assert(all[k] == i);
        }
        assert(!src.contains(i));
        let k = choose|k: int|
            0 <= k < src.len() && #[trigger] src[k] < i && ws[src[k]].app_id == ws[i].app_id;
        assert(all[k] == src[k]);
    }
    if !per_window {
        assert forall|j: int, k: int| 0 <= j < k < all.len() implies ws[#[trigger] all[j]].app_id
            != ws[#[trigger] all[k]].app_id by {
            assert(all[j] == src[j]);
            if k < src.len() {
                assert(all[k] == src[k]);
            } else {
                assert(ws[src[j]].launch_cmd.len() > 0);
            }
        }
    }
}

/// A name is accepted if it is not empty, does not begin with a dot, and has no
/// slash, backslash, zero or pair of dots in it.
pub proof fn law_session_names(name: Seq<char>)
    ensures
        is_session_name(name) <==> {
            &&& name.len() > 0
            &&& name[0] != '.'
            &&& forall|i: int|
                0 <= i < name.len() ==> #[trigger] name[i] != '/' && name[i] != '\\' && name[i]
                    != '\0'
            &&& forall|i: int|
                0 <= i < name.len() - 1 ==> !(#[trigger] name[i] == '.' && name[i + 1] == '.')
        },
{
    reveal_strlit("/");
    reveal_strlit("\\");
    reveal_strlit("\0");
    reveal_strlit(".");
    reveal_strlit("..");
    assert forall|c: char| lacks(name, c) <==> !#[trigger] occurs(name, seq![c]) by {
        if occurs(name, seq![c]) {
            let i = choose|i: int| occurs_at(name, seq![c], i);
            assert(name.subrange(i, i + 1)[0] == name[i]);
            assert(name[i] == c);
        }
        if !lacks(name, c) {
            let i = choose|i: int| 0 <= i < name.len() && name[i] == c;
            assert(name.subrange(i, i + 1) =~= seq![c]);
            assert(occurs_at(name, seq![c], i));
        }
    }
    assert("/"@ =~= seq!['/']);
    assert("\\"@ =~= seq!['\\']);
    assert("\0"@ =~= seq!['\0']);
    assert("."@ =~= seq!['.']);
    let pair = ".."@;
    if occurs(name, pair) {
        let i = choose|i: int| occurs_at(name, pair, i);
        assert(name.subrange(i, i + 2)[0] == name[i]);
        assert(name.subrange(i, i + 2)[1] == name[i + 1]);
        assert(name[i] == '.' && name[i + 1] == '.');
    }
    if exists|i: int| 0 <= i < name.len() - 1 && (#[trigger] name[i] == '.' && name[i + 1] == '.') {
        let i = choose|i: int|
            0 <= i < name.len() - 1 && (#[trigger] name[i] == '.' && name[i + 1] == '.');
        assert(name.subrange(i, i + 2) =~= pair);
        assert(occurs_at(name, pair, i));
    }
    if name.len() > 0 {
        assert(name.take(1)[0] == name[0]);
        if name[0] == '.' {
            assert(name.take(1) =~= "."@);
        }
    }
}

pub(crate) proof fn lemma_cut_last_before(head: Seq<char>, c: char, tail: Seq<char>)
    requires
        lacks(tail, c),
    ensures
        cut_last(head + seq![c] + tail, seq![c]) == Some((head, tail)),
{
    let s = head + seq![c] + tail;
    let n = head.len() as int;
    let pat = seq![c];
    assert(s.subrange(n, n + 1) =~= pat);
    assert forall|j: int| n < j implies !occurs_at(s, pat, j) by {
        if occurs_at(s, pat, j) {
            assert(s.subrange(j, j + 1)[0] == s[j]);
            assert(s[j] == tail[j - n - 1]);
        }
    }
    assert(last_at(s, pat, n));
    lemma_cut_last(s, pat, n);
    assert(s.take(n) =~= head);
    assert(s.skip(n + 1) =~= tail);
}

pub(crate) proof fn lemma_no_cut(s: Seq<char>, c: char)
    requires
        lacks(s, c),
    ensures
        cut_last(s, seq![c]) is None,
{
    if occurs(s, seq![c]) {
        let i = choose|i: int| occurs_at(s, seq![c], i);
        assert(s.subrange(i, i + 1)[0] == s[i]);
    }
}

/// A name in a directory is the base name of the path to it.
pub proof fn law_joined_path_ends_in_the_name(dir: Seq<char>, name: Seq<char>)
    requires
        name.len() > 0,
        lacks(name, '/'),
        name != "."@,
        name != ".."@,
    ensures
        base_name(joined_path(dir, name)) == Some(name),
{
    reveal_strlit("/");
    reveal_strlit(".");
    reveal_strlit("..");
    assert("/"@ =~= seq!['/']);
    let p = joined_path(dir, name);
    assert(p.last() == name.last());
    if p.len() >= 2 && p.last() == '.' && p[p.len() - 2] == '/' {
        if name.len() >= 2 {
            assert(p[p.len() - 2] == name[name.len() - 2]);
        } else {
            assert(name =~= "."@);
        }
    }
    assert(without_trailing(p) == p);
    if dir.len() == 0 {
        assert(p =~= name);
        lemma_no_cut(name, '/');
    } else if dir.last() == '/' {
        assert(p =~= dir.drop_last() + seq!['/'] + name);
        lemma_cut_last_before(dir.drop_last(), '/', name);
    } else {
        assert(p =~= dir + seq!['/'] + name);
        lemma_cut_last_before(dir, '/', name);
    }
}

/// A path that is joined to a directory begins with the directory and ends with
/// the path, one slash apart; an absolute path stands alone.
pub proof fn law_joining_paths(dir: Seq<char>, rest: Seq<char>)
    requires
        dir.len() > 0,
        rest.len() > 0,
    ensures
        rest[0] != '/' && dir.last() != '/' ==> joined_path(dir, rest) == dir + seq!['/'] + rest,
        rest[0] != '/' && dir.last() == '/' ==> joined_path(dir, rest) == dir + rest,
        rest[0] == '/' ==> joined_path(dir, rest) == rest,
{
    reveal_strlit("/");
    assert("/"@ =~= seq!['/']);
}

/// The extension is what follows the last dot of a name, unless that begins
/// it; the stem is what comes before.
pub proof fn law_extension_follows_the_last_dot(stem: Seq<char>, ext: Seq<char>)
    requires
        stem.len() > 0,
        lacks(ext, '.'),
    ensures
        extension_of(stem + seq!['.'] + ext) == Some(ext),
        stem_of(stem + seq!['.'] + ext) == stem,
        extension_of(seq!['.'] + ext) is None,
        stem_of(seq!['.'] + ext) == seq!['.'] + ext,
        extension_of(ext) is None,
        stem_of(ext) == ext,
{
    reveal_strlit(".");
    assert("."@ =~= seq!['.']);
    lemma_cut_last_before(stem, '.', ext);
    lemma_cut_last_before(seq![], '.', ext);
    assert(Seq::<char>::empty() + seq!['.'] + ext =~= seq!['.'] + ext);
    lemma_no_cut(ext, '.');
}

/// The last component of a path is what follows its last slash.
pub proof fn law_last_component(head: Seq<char>, name: Seq<char>)
    requires
        lacks(name, '/'),
    ensures
        last_component(head + seq!['/'] + name) == name,
        last_component(name) == name,
{
    reveal_strlit("/");
    assert("/"@ =~= seq!['/']);
    lemma_cut_last_before(head, '/', name);
    lemma_no_cut(name, '/');
}

/// A session that was saved is among those that are listed, and the file that
/// it was first written to is not.
pub proof fn law_saved_sessions_are_listed(dir: Seq<char>, name: Seq<char>)
    requires
        is_session_name(name),
    ensures
        is_session_path(session_file(dir, name)),
        !is_session_path(temporary_file(dir, name)),
        session_file(dir, name) != temporary_file(dir, name),
        base_name(session_file(dir, name)) == Some(name + ".toml"@),
{
    law_session_names(name);
    reveal_strlit(".toml");
    reveal_strlit("toml");
    reveal_strlit(".toml.tmp");
    reveal_strlit(".");
    reveal_strlit("..");
    let file = name + ".toml"@;
    let temp = "."@ + name + ".toml.tmp"@;
    assert(lacks(file, '/'));
    assert(lacks(temp, '/'));
    law_joined_path_ends_in_the_name(dir, file);
    law_joined_path_ends_in_the_name(dir, temp);
    assert(file =~= name + seq!['.'] + "toml"@);
    law_extension_follows_the_last_dot(name, "toml"@);
    assert(file.take(1)[0] == name[0]);
    assert(temp.take(1) =~= "."@);
}

/// A file is listed by the name and the time that stand in it.
pub open spec fn listed_as(f: SessionListing) -> (Seq<char>, i64) {
    ((f.meta->0).name@, (f.meta->0).timestamp)
}

/// The sessions are those of the readable files with the extension `toml` that
/// are in plain sight, in the order of the files.
pub proof fn law_sessions_are_read_from_the_files(files: Seq<SessionListing>)
    ensures
        sessions_in(files) == files.filter(
            |f: SessionListing| f.meta is Some && is_session_path(f.path@),
        ).map_values(|f: SessionListing| listed_as(f)),
    decreases files.len(),
{
    let p = |f: SessionListing| f.meta is Some && is_session_path(f.path@);
    let g = |f: SessionListing| listed_as(f);
    reveal(Seq::filter);
    if files.len() > 0 {
        law_sessions_are_read_from_the_files(files.drop_last());
        let rest = files.drop_last().filter(p);
        if p(files.last()) {
            assert(rest.push(files.last()).map_values(g) =~= rest.map_values(g).push(
                g(files.last()),
            ));
        }
    } else {
        assert(files.filter(p).map_values(g) =~= seq![]);
    }
}

proof fn lemma_filter_concat<A>(a: Seq<A>, b: Seq<A>, p: spec_fn(A) -> bool)
    ensures
        (a + b).filter(p) == a.filter(p) + b.filter(p),
    decreases b.len(),
{
    reveal(Seq::filter);
    if b.len() == 0 {
        assert(a + b =~= a);
        assert(a.filter(p) + b.filter(p) =~= a.filter(p));
    } else {
        lemma_filter_concat(a, b.drop_last(), p);
        assert((a + b).drop_last() =~= a + b.drop_last());
        assert((a + b).last() == b.last());
        assert((a + b).filter(p) =~= a.filter(p) + b.filter(p));
    }
}

proof fn lemma_filter_none<A>(a: Seq<A>, p: spec_fn(A) -> bool)
    requires
        forall|i: int| 0 <= i < a.len() ==> !p(#[trigger] a[i]),
    ensures
        a.filter(p) == Seq::<A>::empty(),
    decreases a.len(),
{
    reveal(Seq::filter);
    if a.len() > 0 {
        lemma_filter_none(a.drop_last(), p);
        assert(!p(a[a.len() - 1]));
    }
}

/// Sessions of the same time are listed in the order in which they were found.
pub proof fn law_listing_is_stable(v: Seq<(Seq<char>, i64)>, time: i64)
    ensures
        by_recency(v).filter(|s: (Seq<char>, i64)| s.1 == time) == v.filter(
            |s: (Seq<char>, i64)| s.1 == time,
        ),
    decreases v.len(),
{
    let p = |s: (Seq<char>, i64)| s.1 == time;
    if v.len() > 0 {
        let rest = by_recency(v.drop_last());
        let s = v.last();
        law_listing_is_stable(v.drop_last(), time);
        crate::snapshot::law_list_is_sorted(v.drop_last());
        let k = recent_prefix(rest, s.1) as int;
        lemma_recent_prefix(rest, s.1);
        let (a, b) = (rest.take(k), rest.skip(k));
        assert(a + b =~= rest);
        assert(by_recency(v) =~= a + seq![s] + b);
        lemma_filter_concat(a, b, p);
        lemma_filter_concat(a + seq![s], b, p);
        lemma_filter_concat(a, seq![s], p);
        lemma_filter_concat(v.drop_last(), seq![s], p);
        assert(v =~= v.drop_last() + seq![s]);
        if s.1 == time {
            assert forall|i: int| 0 <= i < b.len() implies !p(#[trigger] b[i]) by {
                assert(b[i] == rest[k + i]);
                assert(rest[k].1 >= rest[k + i].1);
            }
            lemma_filter_none(b, p);
            assert(a.filter(p) + seq![s].filter(p) + b.filter(p) =~= a.filter(p) + b.filter(p)
                + seq![s].filter(p));
        } else {
            assert forall|i: int| 0 <= i < seq![s].len() implies !p(#[trigger] seq![s][i]) by {}
            lemma_filter_none(seq![s], p);
            assert(a.filter(p) + seq![s].filter(p) + b.filter(p) =~= a.filter(p) + b.filter(p));
            assert(rest.filter(p) + seq![s].filter(p) =~= rest.filter(p));
        }
    }
}

} // verus!
