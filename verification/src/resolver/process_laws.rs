//! What processes and their command lines tell.
use super::flatpak::{flatpak_app, info_name_from, scope_app, scope_app_from};
use super::proc::{
    args_command, base_or_empty, is_interpreter_name, lookup_places, program_from,
};
use super::profile::{
    chromium_flag_from, family_of, firefox_flags, firefox_flags_from, flags_of,
    flatpak_family_from, is_chromium_app, is_chromium_name, is_firefox_app, is_firefox_name,
    profile_of, BrowserFamily,
};
use crate::paths::{base_name, joined_path};
use crate::snapshot_laws::{
    law_joined_path_ends_in_the_name, law_last_component, lemma_cut_last_before, lemma_no_cut,
};
use crate::text::{
    after_prefix, all_digits, is_digit, lacks, lemma_cut_after, lowercase, occurs, occurs_at,
    pieces, starts_with_seq, text_lines, trimmed, words,
};
use crate::text_laws::law_affixes_come_off;
use vstd::prelude::*;

verus! {

/// The argument begins with a dash.
pub open spec fn is_flag(arg: Seq<char>) -> bool {
    arg.len() > 0 && arg[0] == '-'
}

pub proof fn lemma_begins_with(s: Seq<char>, pat: Seq<char>, c: char)
    requires
        pat == seq![c],
    ensures
        starts_with_seq(s, pat) <==> s.len() > 0 && s[0] == c,
{
    if s.len() > 0 {
        assert(s.take(1)[0] == s[0]);
        if s[0] == c {
            assert(s.take(1) =~= pat);
        }
    }
}

pub proof fn lemma_holds(s: Seq<char>, pat: Seq<char>, c: char)
    requires
        pat == seq![c],
    ensures
        occurs(s, pat) <==> s.contains(c),
{
    if occurs(s, pat) {
        let i = choose|i: int| occurs_at(s, pat, i);
        assert(s.subrange(i, i + 1)[0] == s[i]);
    }
    if s.contains(c) {
        let i = choose|i: int| 0 <= i < s.len() && s[i] == c;
        assert(s.subrange(i, i + 1) =~= pat);
        assert(occurs_at(s, pat, i));
    }
}

pub proof fn lemma_within(a: Seq<char>, pat: Seq<char>, b: Seq<char>)
    ensures
        occurs(a + pat + b, pat),
{
    let s = a + pat + b;
    let n = a.len() as int;
    assert(s.subrange(n, n + pat.len()) =~= pat);
    assert(occurs_at(s, pat, n));
}

/// The programs that run others.
pub open spec fn interpreters() -> Seq<Seq<char>> {
    seq![
        "python3"@,
        "python"@,
        "node"@,
        "electron"@,
        "ruby"@,
        "perl"@,
        "java"@,
        "sh"@,
        "bash"@,
        "zsh"@,
        "fish"@,
        "env"@,
    ]
}

proof fn lemma_interpreters(name: Seq<char>)
    ensures
        is_interpreter_name(name) <==> interpreters().contains(name),
{
    let all = interpreters();
    assert(all[0] == "python3"@ && all[1] == "python"@ && all[2] == "node"@ && all[3]
        == "electron"@ && all[4] == "ruby"@ && all[5] == "perl"@ && all[6] == "java"@ && all[7]
        == "sh"@ && all[8] == "bash"@ && all[9] == "zsh"@ && all[10] == "fish"@ && all[11]
        == "env"@);
}

/// The argument is neither a flag nor the name of an interpreter.
pub open spec fn names_a_program(arg: Seq<char>) -> bool {
    !is_flag(arg) && !interpreters().contains(base_or_empty(arg))
}

/// The program of a command line is its first argument that is neither a flag
/// nor an interpreter. It is launched by its bare name if that is installed, and
/// else as it was called. Without such an argument there is no command.
pub proof fn law_first_program_is_launched(args: Seq<Seq<char>>, i: int)
    ensures
        0 <= i < args.len() && names_a_program(args[i]) && (forall|j: int|
            0 <= j < i ==> !names_a_program(#[trigger] args[j])) ==> args_command(args, false)
            == Some(args[i]) && args_command(args, true) == Some(base_or_empty(args[i])),
        (forall|j: int| 0 <= j < args.len() ==> !names_a_program(#[trigger] args[j]))
            ==> args_command(args, false) is None && args_command(args, true) is None,
{
    lemma_program_from(args, 0, i);
}

proof fn lemma_program_from(args: Seq<Seq<char>>, k: int, i: int)
    requires
        0 <= k <= args.len(),
    ensures
        k <= i < args.len() && names_a_program(args[i]) && (forall|j: int|
            k <= j < i ==> !names_a_program(#[trigger] args[j])) ==> program_from(args, k) == Some(
            i,
        ),
        (forall|j: int| k <= j < args.len() ==> !names_a_program(#[trigger] args[j]))
            ==> program_from(args, k) is None,
    decreases args.len() - k,
{
    reveal_strlit("-");
    assert("-"@ =~= seq!['-']);
    if k < args.len() {
        lemma_interpreters(base_or_empty(args[k]));
        lemma_begins_with(args[k], "-"@, '-');
        lemma_program_from(args, k + 1, i);
    }
}

/// The bare name of a program is the last part of its path. It is looked for in
/// every directory of the search path, in order.
pub proof fn law_programs_are_looked_up(
    dir: Seq<char>,
    name: Seq<char>,
    path_var: Seq<char>,
    i: int,
)
    requires
        name.len() > 0,
        lacks(name, '/'),
        name != "."@,
        name != ".."@,
    ensures
        base_or_empty(joined_path(dir, name)) == name,
        base_or_empty(name) == name,
        lookup_places(path_var, name).len() == pieces(path_var, ":"@).len(),
        0 <= i < pieces(path_var, ":"@).len() && pieces(path_var, ":"@)[i].len() > 0 && pieces(
            path_var,
            ":"@,
        )[i].last() != '/' ==> lookup_places(path_var, name)[i] == pieces(path_var, ":"@)[i] + "/"@
            + name,
{
    law_joined_path_ends_in_the_name(dir, name);
    law_joined_path_ends_in_the_name(""@, name);
    reveal_strlit("");
    assert(joined_path(""@, name) =~= name);
}

/// A process in the scope of a Flatpak application belongs to the application:
/// what stands behind the id's last dash is the process id if it is a number, and
/// else a part of the id.
pub proof fn law_scope_names_the_application(
    head: Seq<char>,
    path: Seq<char>,
    id: Seq<char>,
    tail: Seq<char>,
)
    requires
        lacks(head, ':'),
        lacks(path, ':'),
        lacks(id, ':') && lacks(id, '/'),
        lacks(tail, ':') && lacks(tail, '/') && lacks(tail, '-'),
    ensures
        scope_app(
            head + "::"@ + (path + "/"@ + ("app-flatpak-"@ + (id + "-"@ + tail + ".scope"@))),
        ) == Some(
            if forall|i: int| 0 <= i < tail.len() ==> '0' <= #[trigger] tail[i] <= '9' {
                id
            } else {
                id + "-"@ + tail
            },
        ),
        scope_app(head + "::"@ + (path + "/"@ + ("app-flatpak-"@ + (tail + ".scope"@)))) == Some(
            tail,
        ),
{
    reveal_strlit("::");
    reveal_strlit("/");
    reveal_strlit("-");
    reveal_strlit("app-flatpak-");
    reveal_strlit(".scope");
    assert("/"@ =~= seq!['/']);
    assert("-"@ =~= seq!['-']);
    let name = id + "-"@ + tail;
    lemma_scope_app(head, path, name);
    lemma_scope_app(head, path, tail);
    lemma_cut_last_before(id, '-', tail);
    lemma_no_cut(tail, '-');
    if forall|i: int| 0 <= i < tail.len() ==> '0' <= #[trigger] tail[i] <= '9' {
        assert(all_digits(tail));
    } else if all_digits(tail) {
        assert forall|i: int| 0 <= i < tail.len() implies '0' <= #[trigger] tail[i] <= '9' by {
            assert(is_digit(tail[i]));
        }
    }
}

proof fn lemma_scope_app(head: Seq<char>, path: Seq<char>, name: Seq<char>)
    requires
        lacks(head, ':'),
        lacks(path, ':'),
        lacks(name, ':') && lacks(name, '/'),
    ensures
        scope_app(head + "::"@ + (path + "/"@ + ("app-flatpak-"@ + (name + ".scope"@)))) == Some(
            super::flatpak::without_pid(name),
        ),
{
    reveal_strlit("::");
    reveal_strlit("/");
    reveal_strlit("app-flatpak-");
    reveal_strlit(".scope");
    assert("/"@ =~= seq!['/']);
    let scope = "app-flatpak-"@ + (name + ".scope"@);
    let place = path + "/"@ + scope;
    let line = head + "::"@ + place;
    assert(lacks(scope, '/'));
    assert(lacks(place, ':'));
    lemma_cut_after(head, "::"@, place);
    if occurs(place, "::"@) {
        let i = choose|i: int| occurs_at(place, "::"@, i);
        assert(place.subrange(i, i + 2)[0] == place[i]);
    }
    assert(pieces(place, "::"@) =~= seq![place]);
    assert(pieces(line, "::"@) =~= seq![head, place]);
    law_last_component(path, scope);
    law_affixes_come_off(name + ".scope"@, "app-flatpak-"@);
    law_affixes_come_off(name, ".scope"@);
}

/// The line gives the name of an application.
pub open spec fn names_application(row: Seq<char>, name: Seq<char>) -> bool {
    exists|value: Seq<char>| row == #[trigger] ("name="@ + value) && trimmed(value) == name
        && name.len() > 0
}

/// A process belongs to the application of the first Flatpak scope among its
/// cgroups; else to the first that its sandbox names. One whose cgroups are not
/// known belongs to none.
pub proof fn law_first_application_counts(
    cgroup: Seq<char>,
    info: Seq<char>,
    i: int,
    k: int,
    name: Seq<char>,
)
    ensures
        ({
            let rows = text_lines(cgroup);
            let notes = text_lines(info);
            &&& 0 <= i < rows.len() && scope_app(rows[i]) is Some && (forall|j: int|
                0 <= j < i ==> scope_app(#[trigger] rows[j]) is None) ==> flatpak_app(
                Some(cgroup),
                Some(info),
            ) == scope_app(rows[i]) && flatpak_app(Some(cgroup), None) == scope_app(rows[i])
            &&& (forall|j: int| 0 <= j < rows.len() ==> scope_app(#[trigger] rows[j]) is None)
                ==> flatpak_app(Some(cgroup), None) is None
            &&& (forall|j: int| 0 <= j < rows.len() ==> scope_app(#[trigger] rows[j]) is None) && 0
                <= k < notes.len() && names_application(notes[k], name) && (forall|j: int, n:
                Seq<char>|
                0 <= j < k ==> !#[trigger] names_application(notes[j], n)) ==> flatpak_app(
                Some(cgroup),
                Some(info),
            ) == Some(name)
        }),
        flatpak_app(None, Some(info)) is None,
        flatpak_app(None, None) is None,
{
    lemma_scope_app_from(text_lines(cgroup), 0, i);
    lemma_info_name_from(text_lines(info), 0, k, name);
}

proof fn lemma_scope_app_from(rows: Seq<Seq<char>>, k: int, i: int)
    requires
        0 <= k <= rows.len(),
    ensures
        k <= i < rows.len() && scope_app(rows[i]) is Some && (forall|j: int|
            k <= j < i ==> scope_app(#[trigger] rows[j]) is None) ==> scope_app_from(rows, k)
            == scope_app(rows[i]),
        (forall|j: int| k <= j < rows.len() ==> scope_app(#[trigger] rows[j]) is None)
            ==> scope_app_from(rows, k) is None,
    decreases rows.len() - k,
{
    if k < rows.len() {
        lemma_scope_app_from(rows, k + 1, i);
    }
}

proof fn lemma_info_name_from(rows: Seq<Seq<char>>, from: int, k: int, name: Seq<char>)
    requires
        0 <= from <= rows.len(),
    ensures
        from <= k < rows.len() && names_application(rows[k], name) && (forall|j: int, n: Seq<char>|
            from <= j < k ==> !#[trigger] names_application(rows[j], n)) ==> info_name_from(
            rows,
            from,
        ) == Some(name),
    decreases rows.len() - from,
{
    if from <= k < rows.len() && names_application(rows[k], name) && (forall|
        j: int,
        n: Seq<char>,
    | from <= j < k ==> !#[trigger] names_application(rows[j], n)) {
        let row = rows[from];
        law_affixes_come_off(row, "name="@);
        if from == k {
            let value = choose|value: Seq<char>|
                row == #[trigger] ("name="@ + value) && trimmed(value) == name && name.len() > 0;
            law_affixes_come_off(value, "name="@);
        } else {
            if let Some(value) = after_prefix(row, "name="@) {
                assert("name="@ + value == row);
                assert(!names_application(rows[from], trimmed(value)));
            }
            lemma_info_name_from(rows, from + 1, k, name);
        }
    }
}

/// The browsers of the Firefox family.
pub open spec fn firefox_names() -> Seq<Seq<char>> {
    seq![
        "firefox"@,
        "firefox-esr"@,
        "floorp"@,
        "librewolf"@,
        "waterfox"@,
        "zen"@,
        "zen-browser"@,
    ]
}

/// The browsers of the Chromium family.
pub open spec fn chromium_names() -> Seq<Seq<char>> {
    seq![
        "chromium"@,
        "chromium-browser"@,
        "google-chrome"@,
        "google-chrome-stable"@,
        "brave"@,
        "brave-browser"@,
        "microsoft-edge"@,
        "vivaldi"@,
        "opera"@,
    ]
}

proof fn lemma_browsers(name: Seq<char>)
    ensures
        is_firefox_name(name) <==> firefox_names().contains(name),
        is_chromium_name(name) <==> chromium_names().contains(name),
{
    let f = firefox_names();
    let c = chromium_names();
    assert(f[0] == "firefox"@ && f[1] == "firefox-esr"@ && f[2] == "floorp"@ && f[3]
        == "librewolf"@ && f[4] == "waterfox"@ && f[5] == "zen"@ && f[6] == "zen-browser"@);
    assert(c[0] == "chromium"@ && c[1] == "chromium-browser"@ && c[2] == "google-chrome"@ && c[3]
        == "google-chrome-stable"@ && c[4] == "brave"@ && c[5] == "brave-browser"@ && c[6]
        == "microsoft-edge"@ && c[7] == "vivaldi"@ && c[8] == "opera"@);
}

/// A browser is known by its program's name, in whatever case, and its
/// arguments begin behind it.
pub proof fn law_browsers_are_known_by_name(args: Seq<Seq<char>>, base: Seq<char>)
    requires
        base_name(args[0]) == Some(base),
    ensures
        firefox_names().contains(lowercase(base)) ==> family_of(args) == Some(
            (BrowserFamily::Firefox, 1int),
        ),
        chromium_names().contains(lowercase(base)) && !firefox_names().contains(lowercase(base))
            ==> family_of(args) == Some((BrowserFamily::Chromium, 1int)),
        !firefox_names().contains(lowercase(base)) && !chromium_names().contains(lowercase(base))
            && lowercase(base) != "flatpak"@ ==> family_of(args) is None,
{
    lemma_browsers(lowercase(base));
}

/// The argument can be an application's id: not a flag, not `run`, and with a
/// dot in it.
pub open spec fn can_be_application(arg: Seq<char>) -> bool {
    !is_flag(arg) && arg != "run"@ && arg.contains('.')
}

/// Of the arguments of `flatpak` the first that can be an application decides,
/// and the browser's own arguments begin behind it.
pub proof fn law_first_application_decides(args: Seq<Seq<char>>, base: Seq<char>, k: int)
    requires
        base_name(args[0]) == Some(base),
        lowercase(base) == "flatpak"@,
    ensures
        1 <= k < args.len() && can_be_application(args[k]) && (forall|j: int|
            1 <= j < k ==> !can_be_application(#[trigger] args[j])) ==> family_of(args) == (
        if is_firefox_app(lowercase(args[k])) {
            Some((BrowserFamily::Firefox, k + 1))
        } else if is_chromium_app(lowercase(args[k])) {
            Some((BrowserFamily::Chromium, k + 1))
        } else {
            None
        }),
        (forall|j: int| 1 <= j < args.len() ==> !can_be_application(#[trigger] args[j]))
            ==> family_of(args) is None,
{
    reveal_strlit("flatpak");
    reveal_strlit("firefox");
    reveal_strlit("firefox-esr");
    reveal_strlit("floorp");
    reveal_strlit("librewolf");
    reveal_strlit("waterfox");
    reveal_strlit("zen");
    reveal_strlit("zen-browser");
    reveal_strlit("chromium");
    reveal_strlit("chromium-browser");
    reveal_strlit("google-chrome");
    reveal_strlit("google-chrome-stable");
    reveal_strlit("brave");
    reveal_strlit("brave-browser");
    reveal_strlit("microsoft-edge");
    reveal_strlit("vivaldi");
    reveal_strlit("opera");
    assert("flatpak"@.len() == 7 && "flatpak"@[1] == 'l');
    assert("firefox"@[1] == 'i' && "vivaldi"@[1] == 'i');
    assert("firefox-esr"@.len() == 11 && "floorp"@.len() == 6 && "librewolf"@.len() == 9);
    assert("waterfox"@.len() == 8 && "zen"@.len() == 3 && "zen-browser"@.len() == 11);
    assert(!is_firefox_name("flatpak"@));
    assert(!is_chromium_name("flatpak"@));
    lemma_flatpak_family(args, 1, k);
}

proof fn lemma_flatpak_family(args: Seq<Seq<char>>, from: int, k: int)
    requires
        1 <= from,
    ensures
        from <= k < args.len() && can_be_application(args[k]) && (forall|j: int|
            from <= j < k ==> !can_be_application(#[trigger] args[j])) ==> flatpak_family_from(
            args,
            from,
        ) == (if is_firefox_app(lowercase(args[k])) {
            Some((BrowserFamily::Firefox, k + 1))
        } else if is_chromium_app(lowercase(args[k])) {
            Some((BrowserFamily::Chromium, k + 1))
        } else {
            None
        }),
        (forall|j: int| from <= j < args.len() ==> !can_be_application(#[trigger] args[j]))
            ==> flatpak_family_from(args, from) is None,
    decreases args.len() - from,
{
    reveal_strlit("-");
    reveal_strlit(".");
    assert("-"@ =~= seq!['-']);
    assert("."@ =~= seq!['.']);
    if from < args.len() {
        lemma_begins_with(args[from], "-"@, '-');
        lemma_holds(args[from], "."@, '.');
        lemma_flatpak_family(args, from + 1, k);
    }
}

/// What marks an application of the Firefox family, wherever it stands.
pub open spec fn firefox_marks() -> Seq<Seq<char>> {
    seq!["firefox"@, "zen_browser"@, "floorp"@, "librewolf"@, "waterfox"@]
}

/// What marks an application of the Chromium family, wherever it stands.
pub open spec fn chromium_marks() -> Seq<Seq<char>> {
    seq!["chrom"@, "brave"@, "vivaldi"@]
}

/// An application belongs to a family if the family's mark stands somewhere in
/// its id, or if one of the parts between dots is a browser of the family; and
/// only then.
pub proof fn law_applications_of_a_family(
    a: Seq<char>,
    mark: Seq<char>,
    b: Seq<char>,
    id: Seq<char>,
    i: int,
)
    ensures
        firefox_marks().contains(mark) ==> is_firefox_app(a + mark + b),
        chromium_marks().contains(mark) ==> is_chromium_app(a + mark + b),
        0 <= i < pieces(id, "."@).len() && firefox_names().contains(pieces(id, "."@)[i])
            ==> is_firefox_app(id),
        0 <= i < pieces(id, "."@).len() && chromium_names().contains(pieces(id, "."@)[i])
            ==> is_chromium_app(id),
        is_firefox_app(id) ==> (exists|k: int|
            0 <= k < firefox_marks().len() && occurs(id, #[trigger] firefox_marks()[k])) || (
        exists|k: int|
            0 <= k < pieces(id, "."@).len() && firefox_names().contains(
                #[trigger] pieces(id, "."@)[k],
            )),
        is_chromium_app(id) ==> (exists|k: int|
            0 <= k < chromium_marks().len() && occurs(id, #[trigger] chromium_marks()[k])) || (
        exists|k: int|
            0 <= k < pieces(id, "."@).len() && chromium_names().contains(
                #[trigger] pieces(id, "."@)[k],
            )),
{
    let f = firefox_marks();
    let c = chromium_marks();
    lemma_within(a, mark, b);
    assert(f[0] == "firefox"@ && f[1] == "zen_browser"@ && f[2] == "floorp"@ && f[3]
        == "librewolf"@ && f[4] == "waterfox"@);
    assert(c[0] == "chrom"@ && c[1] == "brave"@ && c[2] == "vivaldi"@);
    if 0 <= i < pieces(id, "."@).len() {
        lemma_browsers(pieces(id, "."@)[i]);
    }
    if exists|k: int| 0 <= k < pieces(id, "."@).len() && is_firefox_name(
        #[trigger] pieces(id, "."@)[k],
    ) {
        let k = choose|k: int|
            0 <= k < pieces(id, "."@).len() && is_firefox_name(#[trigger] pieces(id, "."@)[k]);
        lemma_browsers(pieces(id, "."@)[k]);
    }
    if exists|k: int| 0 <= k < pieces(id, "."@).len() && is_chromium_name(
        #[trigger] pieces(id, "."@)[k],
    ) {
        let k = choose|k: int|
            0 <= k < pieces(id, "."@).len() && is_chromium_name(#[trigger] pieces(id, "."@)[k]);
        lemma_browsers(pieces(id, "."@)[k]);
    }
}

/// The argument has to do with a profile: it names one, or asks for one.
pub open spec fn is_about_profile(arg: Seq<char>) -> bool {
    (arg.len() >= 2 && arg[0] == '-' && arg[1] == 'P') || arg == "-profile"@ || arg == "--profile"@
}

/// The argument asks for an instance of its own.
pub open spec fn asks_apart(arg: Seq<char>) -> bool {
    arg == "-no-remote"@ || arg == "--no-remote"@
}

/// One of the arguments from `i` on asks for an instance of its own.
pub open spec fn some_asks_apart(args: Seq<Seq<char>>, i: int) -> bool {
    exists|j: int| i <= j < args.len() && asks_apart(#[trigger] args[j])
}

proof fn lemma_plain_arguments(
    args: Seq<Seq<char>>,
    i: int,
    profile: Option<Seq<char>>,
    apart: bool,
)
    requires
        0 <= i <= args.len(),
        forall|j: int| i <= j < args.len() ==> !is_about_profile(#[trigger] args[j]),
    ensures
        firefox_flags_from(args, i, profile, apart) == match profile {
            Some(flag) => Some(
                if apart || some_asks_apart(args, i) {
                    "-no-remote "@ + flag
                } else {
                    flag
                },
            ),
            None => None,
        },
    decreases args.len() - i,
{
    reveal_strlit("-P");
    if i < args.len() {
        let arg = args[i];
        assert(!is_about_profile(args[i]));
        if starts_with_seq(arg, "-P"@) {
            assert(arg.take(2)[0] == arg[0] && arg.take(2)[1] == arg[1]);
        }
        let now = apart || asks_apart(arg);
        lemma_plain_arguments(args, i + 1, profile, now);
        assert(some_asks_apart(args, i) <==> asks_apart(arg) || some_asks_apart(args, i + 1)) by {
            if some_asks_apart(args, i) {
                let j = choose|j: int| i <= j < args.len() && asks_apart(#[trigger] args[j]);
                if j > i {
                    assert(some_asks_apart(args, i + 1));
                }
            }
            if asks_apart(args[i]) {
                assert(some_asks_apart(args, i));
            }
        }
    }
}

/// A Firefox that is given a profile by name or by path, in two arguments or
/// attached to `-P`, is restored with it, and in an instance of its own if any
/// argument asks for one. Arguments that have nothing to do with profiles are left
/// out, wherever they stand. Without a profile there are no flags.
pub proof fn law_profile_is_kept(
    before: Seq<Seq<char>>,
    value: Seq<char>,
    after: Seq<Seq<char>>,
    start: int,
)
    requires
        0 <= start <= before.len(),
        forall|j: int| 0 <= j < before.len() ==> !is_about_profile(#[trigger] before[j]),
        forall|j: int| 0 <= j < after.len() ==> !is_about_profile(#[trigger] after[j]),
    ensures
        ({
            let args = before + seq!["-P"@, value] + after;
            firefox_flags_from(args, start, None, false) == Some(
                firefox_flags(
                    value,
                    false,
                    some_asks_apart(before, start) || some_asks_apart(after, 0),
                ),
            )
        }),
        ({
            let args = before + seq!["-profile"@, value] + after;
            firefox_flags_from(args, start, None, false) == Some(
                firefox_flags(
                    value,
                    true,
                    some_asks_apart(before, start) || some_asks_apart(after, 0),
                ),
            )
        }),
        ({
            let args = before + seq!["--profile"@, value] + after;
            firefox_flags_from(args, start, None, false) == Some(
                firefox_flags(
                    value,
                    true,
                    some_asks_apart(before, start) || some_asks_apart(after, 0),
                ),
            )
        }),
        value.len() > 0 ==> ({
            let args = before + seq!["-P"@ + value] + after;
            firefox_flags_from(args, start, None, false) == Some(
                firefox_flags(
                    value,
                    false,
                    some_asks_apart(before, start) || some_asks_apart(after, 0),
                ),
            )
        }),
        firefox_flags_from(before, start, None, false) is None,
        firefox_flags(value, false, false) == "-P "@ + value,
        firefox_flags(value, true, false) == "-profile "@ + value,
        firefox_flags(value, false, true) == "-no-remote -P "@ + value,
        firefox_flags(value, true, true) == "-no-remote -profile "@ + value,
{
    reveal_strlit("-P ");
    reveal_strlit("-profile ");
    reveal_strlit("-no-remote ");
    reveal_strlit("-no-remote -P ");
    reveal_strlit("-no-remote -profile ");
    assert("-no-remote "@ + "-P "@ =~= "-no-remote -P "@);
    assert("-no-remote "@ + "-profile "@ =~= "-no-remote -profile "@);
    assert("-no-remote "@ + ("-P "@ + value) =~= "-no-remote "@ + "-P "@ + value);
    assert("-no-remote "@ + ("-profile "@ + value) =~= "-no-remote "@ + "-profile "@ + value);
    reveal_strlit("-P");
    reveal_strlit("-profile");
    reveal_strlit("--profile");
    reveal_strlit("-no-remote");
    reveal_strlit("--no-remote");
    assert("-profile"@[1] == 'p' && "--profile"@[1] == '-' && "-P"@[1] == 'P');
    assert("-no-remote"@[1] == 'n' && "--no-remote"@[1] == '-');
    let n = before.len() as int;
    lemma_plain_arguments(before, start, None, false);
    lemma_up_to(before, seq!["-P"@, value] + after, start, false);
    lemma_up_to(before, seq!["-profile"@, value] + after, start, false);
    lemma_up_to(before, seq!["--profile"@, value] + after, start, false);
    lemma_up_to(before, seq!["-P"@ + value] + after, start, false);
    let apart = some_asks_apart(before, start);
    lemma_behind(before, seq!["-P"@, value], after, Some("-P "@ + value), apart);
    lemma_behind(before, seq!["-profile"@, value], after, Some("-profile "@ + value), apart);
    lemma_behind(before, seq!["--profile"@, value], after, Some("-profile "@ + value), apart);
    lemma_behind(before, seq!["-P"@ + value], after, Some("-P "@ + value), apart);
    let a = before + seq!["-P"@, value] + after;
    assert(a =~= before + (seq!["-P"@, value] + after));
    assert(a[n] == "-P"@ && a[n + 1] == value);
    let b = before + seq!["-profile"@, value] + after;
    assert(b =~= before + (seq!["-profile"@, value] + after));
    assert(b[n] == "-profile"@ && b[n + 1] == value);
    let c = before + seq!["--profile"@, value] + after;
    assert(c =~= before + (seq!["--profile"@, value] + after));
    assert(c[n] == "--profile"@ && c[n + 1] == value);
    let d = before + seq!["-P"@ + value] + after;
    assert(d =~= before + (seq!["-P"@ + value] + after));
    assert(d[n] == "-P"@ + value);
    law_affixes_come_off(value, "-P"@);
    if value.len() > 0 {
        assert(("-P"@ + value).len() > 2);
        assert(("-P"@ + value)[1] == 'P');
    }
}

/// The arguments before the first that is about a profile only tell whether an
/// instance of its own is asked for.
proof fn lemma_up_to(before: Seq<Seq<char>>, rest: Seq<Seq<char>>, i: int, apart: bool)
    requires
        0 <= i <= before.len(),
        forall|j: int| 0 <= j < before.len() ==> !is_about_profile(#[trigger] before[j]),
    ensures
        firefox_flags_from(before + rest, i, None, apart) == firefox_flags_from(
            before + rest,
            before.len() as int,
            None,
            apart || some_asks_apart(before, i),
        ),
    decreases before.len() - i,
{
    reveal_strlit("-P");
    if i < before.len() {
        let arg = before[i];
        assert((before + rest)[i] == arg);
        assert(!is_about_profile(before[i]));
        if starts_with_seq(arg, "-P"@) {
            assert(arg.take(2)[0] == arg[0] && arg.take(2)[1] == arg[1]);
        }
        lemma_up_to(before, rest, i + 1, apart || asks_apart(arg));
        assert(some_asks_apart(before, i) <==> asks_apart(arg) || some_asks_apart(
            before,
            i + 1,
        )) by {
            if some_asks_apart(before, i) {
                let j = choose|j: int| i <= j < before.len() && asks_apart(#[trigger] before[j]);
                if j > i {
                    assert(some_asks_apart(before, i + 1));
                }
            }
            if asks_apart(before[i]) {
                assert(some_asks_apart(before, i));
            }
        }
    }
}

proof fn lemma_behind(
    before: Seq<Seq<char>>,
    middle: Seq<Seq<char>>,
    after: Seq<Seq<char>>,
    profile: Option<Seq<char>>,
    apart: bool,
)
    requires
        forall|j: int| 0 <= j < after.len() ==> !is_about_profile(#[trigger] after[j]),
    ensures
        ({
            let args = before + middle + after;
            let n = (before.len() + middle.len()) as int;
            firefox_flags_from(args, n, profile, apart) == match profile {
                Some(flag) => Some(
                    if apart || some_asks_apart(after, 0) {
                        "-no-remote "@ + flag
                    } else {
                        flag
                    },
                ),
                None => None,
            }
        }),
{
    let args = before + middle + after;
    let n = (before.len() + middle.len()) as int;
    assert forall|j: int| n <= j < args.len() implies !is_about_profile(#[trigger] args[j]) by {
        assert(args[j] == after[j - n]);
    }
    lemma_plain_arguments(args, n, profile, apart);
    if some_asks_apart(args, n) {
        let j = choose|j: int| n <= j < args.len() && asks_apart(#[trigger] args[j]);
        assert(asks_apart(after[j - n]));
    }
    if some_asks_apart(after, 0) {
        let j = choose|j: int| 0 <= j < after.len() && asks_apart(#[trigger] after[j]);
        assert(asks_apart(args[n + j]));
    }
}

/// Of two profiles on a command line the last one counts.
pub proof fn law_last_profile_counts(
    args: Seq<Seq<char>>,
    i: int,
    value: Seq<char>,
    earlier: Option<Seq<char>>,
    other: Option<Seq<char>>,
    apart: bool,
)
    requires
        0 <= i < args.len() - 1,
        args[i] == "-P"@ || args[i] == "-profile"@ || args[i] == "--profile"@,
    ensures
        firefox_flags_from(args, i, earlier, apart) == firefox_flags_from(args, i, other, apart),
{
}

/// A Chromium is restored with the first profile directory among its own
/// arguments.
pub proof fn law_first_directory_is_kept(args: Seq<Seq<char>>, start: int, i: int)
    requires
        0 <= start <= args.len(),
    ensures
        start <= i < args.len() && (exists|v: Seq<char>| args[i] == #[trigger] (
        "--profile-directory="@ + v)) && (forall|j: int, v: Seq<char>|
            start <= j < i ==> #[trigger] args[j] != #[trigger] ("--profile-directory="@ + v))
            ==> chromium_flag_from(args, start) == Some(args[i]),
        (forall|j: int, v: Seq<char>|
            start <= j < args.len() ==> #[trigger] args[j] != #[trigger] ("--profile-directory="@
                + v)) ==> chromium_flag_from(args, start) is None,
    decreases args.len() - start,
{
    if start < args.len() {
        law_affixes_come_off(args[start], "--profile-directory="@);
        if let Some(v) = after_prefix(args[start], "--profile-directory="@) {
            assert("--profile-directory="@ + v == args[start]);
        }
        if start == i && exists|v: Seq<char>| args[i] == #[trigger] ("--profile-directory="@ + v) {
            let v = choose|v: Seq<char>| args[i] == #[trigger] ("--profile-directory="@ + v);
            law_affixes_come_off(v, "--profile-directory="@);
        }
        law_first_directory_is_kept(args, start + 1, i);
    }
}

/// The profile flags are those of the browser's family, read behind its
/// command. A command line in a single argument is taken apart at its blanks.
pub proof fn law_flags_follow_the_family(args: Seq<Seq<char>>, line: Seq<char>, start: int)
    requires
        args.len() > 0,
    ensures
        family_of(args) == Some((BrowserFamily::Firefox, start)) && firefox_flags_from(
            args,
            start,
            None,
            false,
        ) is Some ==> profile_of(args) == firefox_flags_from(args, start, None, false),
        family_of(args) == Some((BrowserFamily::Chromium, start)) && chromium_flag_from(
            args,
            start,
        ) is Some ==> profile_of(args) == chromium_flag_from(args, start),
        args.len() > 1 && family_of(args) is None ==> profile_of(args) is None,
        line.contains(' ') && flags_of(seq![line]) is None ==> profile_of(seq![line]) == flags_of(
            words(line),
        ),
        profile_of(Seq::<Seq<char>>::empty()) is None,
{
    reveal_strlit(" ");
    assert(" "@ =~= seq![' ']);
    lemma_holds(line, " "@, ' ');
}

} // verus!
