//! Flatpak applications, as the kernel and the sandbox name them.
use crate::text::{
    after_prefix, all_digits, before_suffix, cut_last, is_all_digits, is_empty,
    lemma_pieces_nonempty, lines, pieces, rsplit_once, split, strip_prefix, strip_suffix,
    text_lines, trim, trimmed, views,
};
use crate::paths::last_component;
use vstd::prelude::*;

verus! {

/// A scope's name without its trailing process id.
pub open spec fn without_pid(s: Seq<char>) -> Seq<char> {
    match cut_last(s, "-"@) {
        Some((head, tail)) => if all_digits(tail) {
            head
        } else {
            s
        },
        None => s,
    }
}

/// The application in a cgroup line, if the line ends in a Flatpak scope such
/// as `app-flatpak-org.mozilla.firefox-12345.scope`.
pub open spec fn scope_app(line: Seq<char>) -> Option<Seq<char>> {
    let scope = last_component(pieces(line, "::"@).last());
    match after_prefix(scope, "app-flatpak-"@) {
        Some(rest) => match before_suffix(rest, ".scope"@) {
            Some(name) => Some(without_pid(name)),
            None => None,
        },
        None => None,
    }
}

pub fn extract_flatpak_id(cgroup_line: &str) -> (r: Option<String>)
    ensures
        r is Some <==> scope_app(cgroup_line@) is Some,
        r matches Some(id) ==> scope_app(cgroup_line@) == Some(id@),
{
    proof {
        reveal_strlit("::");
        lemma_pieces_nonempty(cgroup_line@, "::"@);
    }
    let parts = split(cgroup_line, "::");
    assert(views(parts@).last() == parts@[parts@.len() - 1]@);
    let line = parts[parts.len() - 1];
    let scope = match rsplit_once(line, "/") {
        Some((_, tail)) => tail,
        None => line,
    };
    let rest = match strip_prefix(scope, "app-flatpak-") {
        Some(rest) => rest,
        None => {
            return None;
        },
    };
    let name = match strip_suffix(rest, ".scope") {
        Some(name) => name,
        None => {
            return None;
        },
    };
    // Remove the trailing PID: "org.mozilla.firefox-12345" -> "org.mozilla.firefox"
    match rsplit_once(name, "-") {
        Some((head, tail)) => {
            if is_all_digits(tail) {
                return Some(head.to_owned());
            }
        },
        None => {},
    }
    Some(name.to_owned())
}

/// The first application in the cgroup lines from `k` on.
pub open spec fn scope_app_from(rows: Seq<Seq<char>>, k: int) -> Option<Seq<char>>
    decreases rows.len() - k,
{
    if k < 0 || k >= rows.len() {
        None
    } else {
        match scope_app(rows[k]) {
            Some(id) => Some(id),
            None => scope_app_from(rows, k + 1),
        }
    }
}

/// The first non-empty name in the lines of a `.flatpak-info` file from `k`
/// on.
pub open spec fn info_name_from(rows: Seq<Seq<char>>, k: int) -> Option<Seq<char>>
    decreases rows.len() - k,
{
    if k < 0 || k >= rows.len() {
        None
    } else {
        match after_prefix(rows[k], "name="@) {
            Some(value) => if trimmed(value).len() > 0 {
                Some(trimmed(value))
            } else {
                info_name_from(rows, k + 1)
            },
            None => info_name_from(rows, k + 1),
        }
    }
}

/// The application of a process, by its cgroups, else by the file mounted in
/// its sandbox. A process without cgroups has none.
pub open spec fn flatpak_app(cgroup: Option<Seq<char>>, info: Option<Seq<char>>) -> Option<
    Seq<char>,
> {
    match cgroup {
        None => None,
        Some(content) => match scope_app_from(text_lines(content), 0) {
            Some(id) => Some(id),
            None => match info {
                Some(text) => info_name_from(text_lines(text), 0),
                None => None,
            },
        },
    }
}

/// Detect if a process is running inside a Flatpak sandbox: `cgroup` and
/// `info` are the contents of its `cgroup` and `.flatpak-info` files, where
/// they can be read. Returns the Flatpak application ID if found.
pub fn detect_flatpak_app(cgroup: &Option<String>, info: &Option<String>) -> (r: Option<String>)
    ensures
        r is Some <==> flatpak_app(
            crate::models::opt_text(*cgroup),
            crate::models::opt_text(*info),
        ) is Some,
        r matches Some(id) ==> flatpak_app(
            crate::models::opt_text(*cgroup),
            crate::models::opt_text(*info),
        ) == Some(id@),
{
    let content = match cgroup {
        Some(content) => content,
        None => {
            return None;
        },
    };
    match first_scope_app(content.as_str()) {
        Some(id) => Some(id),
        None => match info {
            Some(text) => first_info_name(text.as_str()),
            None => None,
        },
    }
}

fn first_scope_app(content: &str) -> (r: Option<String>)
    ensures
        r is Some <==> scope_app_from(text_lines(content@), 0) is Some,
        r matches Some(id) ==> scope_app_from(text_lines(content@), 0) == Some(id@),
{
    let rows = lines(content);
    let ghost all = text_lines(content@);
    for k in 0..rows.len()
        invariant
            views(rows@) == all,
            all == text_lines(content@),
            scope_app_from(all, 0) == scope_app_from(all, k as int),
    {
        assert(all[k as int] == rows@[k as int]@);
        match extract_flatpak_id(rows[k]) {
            Some(id) => {
                return Some(id);
            },
            None => {},
        }
    }
    None
}

fn first_info_name(text: &str) -> (r: Option<String>)
    ensures
        r is Some <==> info_name_from(text_lines(text@), 0) is Some,
        r matches Some(id) ==> info_name_from(text_lines(text@), 0) == Some(id@),
{
    let rows = lines(text);
    let ghost all = text_lines(text@);
    for k in 0..rows.len()
        invariant
            views(rows@) == all,
            all == text_lines(text@),
            info_name_from(all, 0) == info_name_from(all, k as int),
    {
        assert(all[k as int] == rows@[k as int]@);
        match strip_prefix(rows[k], "name=") {
            Some(value) => {
                let name = trim(value);
                if !is_empty(name) {
                    return Some(name.to_owned());
                }
            },
            None => {},
        }
    }
    None
}

} // verus!
