//! What desktop entries and overrides come to.
use super::desktop::{
    app_id_from, applications_in, cleaned, command_words, entry_in, exec_name, file_entry,
    first_lines, found, id_of, index_of_files, is_env_setting, is_field_code, is_flatpak_entry,
    search_dirs, settings_from, simplified, with_line, DesktopFile, DesktopIndexView, EntryLines,
};
use super::process_laws::{lemma_begins_with, lemma_holds, lemma_within};
use super::{exact_part, glob_regex, is_glob, pattern_command_from, pattern_part, unless_empty};
use crate::models::DesktopEntryView;
use crate::paths::{base_name, joined_path};
use crate::patterns::{compiles, escaped, is_meta, matches_somewhere};
use crate::snapshot_laws::{law_extension_follows_the_last_dot, law_joined_path_ends_in_the_name};
use crate::text::{
    after_prefix, is_word, joined, lacks, lemma_words_of_joined, lowercase, occurs, pieces,
    replaced, same_ignoring_case, starts_with_seq, text_lines, trimmed, words,
};
use crate::text_laws::{law_affixes_come_off, law_replacing_goes_by_character};
use vstd::prelude::*;

verus! {

/// The word belongs to the command: it begins neither with `%` nor with `@@`.
pub open spec fn is_kept(w: Seq<char>) -> bool {
    !(w.len() > 0 && w[0] == '%') && !(w.len() > 1 && w[0] == '@' && w[1] == '@')
}

/// The word sets a variable: it holds `=` and does not begin with a dash.
pub open spec fn sets_variable(w: Seq<char>) -> bool {
    w.contains('=') && !(w.len() > 0 && w[0] == '-')
}

proof fn lemma_kinds_of_words(w: Seq<char>)
    ensures
        is_field_code(w) <==> !is_kept(w),
        is_env_setting(w) <==> sets_variable(w),
{
    reveal_strlit("%");
    reveal_strlit("@@");
    reveal_strlit("=");
    reveal_strlit("-");
    assert("%"@ =~= seq!['%']);
    assert("="@ =~= seq!['=']);
    assert("-"@ =~= seq!['-']);
    lemma_begins_with(w, "%"@, '%');
    lemma_begins_with(w, "-"@, '-');
    lemma_holds(w, "="@, '=');
    if w.len() > 1 {
        assert(w.take(2)[0] == w[0] && w.take(2)[1] == w[1]);
        if w[0] == '@' && w[1] == '@' {
            assert(w.take(2) =~= "@@"@);
        }
    }
}

/// A clean Exec line is the command behind the variables that are set for it,
/// without the words that stand for files and addresses.
pub proof fn law_exec_lines_are_cleaned(settings: Seq<Seq<char>>, command: Seq<Seq<char>>)
    requires
        forall|i: int|
            0 <= i < settings.len() ==> is_word(#[trigger] settings[i]) && sets_variable(
                settings[i],
            ),
        forall|i: int| 0 <= i < command.len() ==> is_word(#[trigger] command[i]),
        command.len() > 0 ==> !sets_variable(command[0]),
    ensures
        cleaned(joined(settings + command, " "@)) == joined(
            command.filter(|w: Seq<char>| is_kept(w)),
            " "@,
        ),
{
    let ws = settings + command;
    assert forall|i: int| 0 <= i < ws.len() implies is_word(#[trigger] ws[i]) by {
        if i < settings.len() {
            assert(ws[i] == settings[i]);
        } else {
            assert(ws[i] == command[i - settings.len()]);
        }
    }
    lemma_words_of_joined(ws);
    lemma_settings(settings, command, 0);
    assert(ws.skip(settings.len() as int) =~= command);
    let p = |w: Seq<char>| !is_field_code(w);
    let q = |w: Seq<char>| is_kept(w);
    assert forall|w: Seq<char>| #[trigger] p(w) == q(w) by {
        lemma_kinds_of_words(w);
    }
    assert(p =~= q);
    assert(command_words(ws) == command.filter(p));
}

proof fn lemma_settings(settings: Seq<Seq<char>>, command: Seq<Seq<char>>, k: int)
    requires
        0 <= k <= settings.len(),
        forall|i: int| 0 <= i < settings.len() ==> sets_variable(#[trigger] settings[i]),
        command.len() > 0 ==> !sets_variable(command[0]),
    ensures
        settings_from(settings + command, k) == settings.len(),
    decreases settings.len() - k,
{
    let ws = settings + command;
    if k < settings.len() {
        assert(ws[k] == settings[k]);
        lemma_kinds_of_words(ws[k]);
        lemma_settings(settings, command, k + 1);
    } else if command.len() > 0 {
        assert(ws[k] == command[0]);
        lemma_kinds_of_words(ws[k]);
    }
}

/// The word can be an application's id: it holds a dot and no `=`, and is
/// neither a flag nor a path.
pub open spec fn can_be_id(w: Seq<char>) -> bool {
    w.contains('.') && !w.contains('=') && !(w.len() > 0 && (w[0] == '-' || w[0] == '/'))
}

/// A Flatpak's command runs the first word that can be an application's id, or
/// else the entry's own id, if that has a dot.
pub proof fn law_flatpak_commands_are_short(line: Seq<char>, id: Seq<char>, k: int)
    ensures
        ({
            let ws = words(line);
            &&& 0 <= k < ws.len() && can_be_id(ws[k]) && (forall|j: int|
                0 <= j < k ==> !can_be_id(#[trigger] ws[j])) ==> simplified(line, id) == Some(
                "flatpak run "@ + ws[k],
            )
            &&& (forall|j: int| 0 <= j < ws.len() ==> !can_be_id(#[trigger] ws[j]))
                ==> simplified(line, id) == if id.contains('.') {
                Some("flatpak run "@ + id)
            } else {
                None
            }
        }),
{
    reveal_strlit(".");
    assert("."@ =~= seq!['.']);
    lemma_app_id_from(words(line), 0, id, k);
    lemma_holds(id, "."@, '.');
    if 0 <= k < words(line).len() {
        lemma_holds(words(line)[k], "."@, '.');
    }
}

proof fn lemma_app_id_from(ws: Seq<Seq<char>>, from: int, id: Seq<char>, k: int)
    requires
        0 <= from <= ws.len(),
    ensures
        from <= k < ws.len() && can_be_id(ws[k]) && (forall|j: int|
            from <= j < k ==> !can_be_id(#[trigger] ws[j])) ==> app_id_from(ws, from, id) == ws[k],
        (forall|j: int| from <= j < ws.len() ==> !can_be_id(#[trigger] ws[j])) ==> app_id_from(
            ws,
            from,
            id,
        ) == id,
    decreases ws.len() - from,
{
    reveal_strlit(".");
    reveal_strlit("-");
    reveal_strlit("/");
    reveal_strlit("=");
    assert("."@ =~= seq!['.']);
    assert("-"@ =~= seq!['-']);
    assert("/"@ =~= seq!['/']);
    assert("="@ =~= seq!['=']);
    if from < ws.len() {
        let w = ws[from];
        lemma_holds(w, "."@, '.');
        lemma_holds(w, "="@, '=');
        lemma_begins_with(w, "-"@, '-');
        lemma_begins_with(w, "/"@, '/');
        lemma_app_id_from(ws, from + 1, id, k);
    }
}

/// A program is known by the name of its file; one that `flatpak` runs, by the
/// last word of the command, if that can be an id.
pub proof fn law_programs_are_known_by_name(line: Seq<char>)
    ensures
        ({
            let ws = words(line);
            &&& ws.len() == 0 ==> exec_name(line) is None
            &&& ws.len() > 0 && occurs(ws[0], "flatpak"@) && ws.last().contains('.') && !(
            ws.last().len() > 0 && ws.last()[0] == '-') ==> exec_name(line) == Some(ws.last())
            &&& ws.len() > 0 && (!occurs(ws[0], "flatpak"@) || !ws.last().contains('.') || (
            ws.last().len() > 0 && ws.last()[0] == '-')) ==> exec_name(line) == base_name(ws[0])
        }),
{
    reveal_strlit(".");
    reveal_strlit("-");
    assert("."@ =~= seq!['.']);
    assert("-"@ =~= seq!['-']);
    let ws = words(line);
    if ws.len() > 0 {
        lemma_holds(ws.last(), "."@, '.');
        lemma_begins_with(ws.last(), "-"@, '-');
    }
}

/// What each line of a desktop file adds: a heading opens or closes the entry's
/// section; within it, the command, the window class and whether the entry is
/// hidden are set, each by its own key; all else is passed over.
pub proof fn law_lines_of_an_entry(e: EntryLines, raw: Seq<char>, v: Seq<char>)
    ensures
        ({
            let line = trimmed(raw);
            let t = with_line(e, raw);
            &&& line.len() > 0 && line[0] == '[' ==> {
                &&& t.in_entry == (line == "[Desktop Entry]"@)
                &&& t.exec_line == e.exec_line
                &&& t.wm_class == e.wm_class
                &&& t.no_display == e.no_display
            }
            &&& !(line.len() > 0 && line[0] == '[') ==> t.in_entry == e.in_entry
            &&& !e.in_entry && !(line.len() > 0 && line[0] == '[') ==> t == e
            &&& e.in_entry && line == "Exec="@ + v ==> {
                &&& t.exec_line == Some(cleaned(v))
                &&& t.wm_class == e.wm_class
                &&& t.no_display == e.no_display
            }
            &&& e.in_entry && line == "StartupWMClass="@ + v ==> {
                &&& t.exec_line == e.exec_line
                &&& t.wm_class == Some(v)
                &&& t.no_display == e.no_display
            }
            &&& e.in_entry && line == "NoDisplay="@ + v ==> {
                &&& t.exec_line == e.exec_line
                &&& t.wm_class == e.wm_class
                &&& t.no_display == same_ignoring_case(trimmed(v), "true"@)
            }
            &&& (forall|u: Seq<char>|
                line != "Exec="@ + u && line != "StartupWMClass="@ + u && line
                    != #[trigger] ("NoDisplay="@ + u)) && !(line.len() > 0 && line[0] == '[')
                ==> t == e
        }),
{
    reveal_strlit("[");
    reveal_strlit("Exec=");
    reveal_strlit("StartupWMClass=");
    reveal_strlit("NoDisplay=");
    assert("["@ =~= seq!['[']);
    let line = trimmed(raw);
    lemma_begins_with(line, "["@, '[');
    law_affixes_come_off(v, "Exec="@);
    law_affixes_come_off(v, "StartupWMClass="@);
    law_affixes_come_off(v, "NoDisplay="@);
    law_affixes_come_off(line, "Exec="@);
    law_affixes_come_off(line, "StartupWMClass="@);
    law_affixes_come_off(line, "NoDisplay="@);
    assert("Exec="@[0] == 'E' && "StartupWMClass="@[0] == 'S' && "NoDisplay="@[0] == 'N');
    if starts_with_seq(line, "Exec="@) {
        assert(line.take(5)[0] == line[0]);
        let u = line.skip(5);
        assert("NoDisplay="@ + u != line);
    }
    if starts_with_seq(line, "StartupWMClass="@) {
        assert(line.take(15)[0] == line[0]);
        let u = line.skip(15);
        assert("NoDisplay="@ + u != line);
    }
    if starts_with_seq(line, "NoDisplay="@) {
        assert(line.take(10)[0] == line[0]);
    }
}

/// A desktop file is read line by line, from the first to the last; at first
/// nothing is known.
pub proof fn law_files_are_read_in_order(rows: Seq<Seq<char>>, row: Seq<char>)
    ensures
        first_lines(rows.push(row), rows.len() + 1) == with_line(
            first_lines(rows, rows.len()),
            row,
        ),
        !first_lines(rows, 0).in_entry,
        first_lines(rows, 0).exec_line is None,
        first_lines(rows, 0).wm_class is None,
        !first_lines(rows, 0).no_display,
{
    lemma_first_lines(rows, row, rows.len());
    assert(rows.push(row)[rows.len() as int] == row);
}

proof fn lemma_first_lines(rows: Seq<Seq<char>>, row: Seq<char>, n: nat)
    requires
        n <= rows.len(),
    ensures
        first_lines(rows.push(row), n) == first_lines(rows, n),
    decreases n,
{
    if n > 0 {
        lemma_first_lines(rows, row, (n - 1) as nat);
        assert(rows.push(row)[n - 1] == rows[n - 1]);
    }
}

/// The entry holds what its file says. There is none without a command, nor for
/// a hidden application without a window class. A Flatpak's command is its short
/// form, if it has one.
pub proof fn law_entry_is_what_the_file_says(content: Seq<char>, path: Seq<char>)
    ensures
        ({
            let rows = text_lines(content);
            let e = first_lines(rows, rows.len());
            let entry = entry_in(content, path);
            &&& e.exec_line is None ==> entry is None
            &&& e.no_display && e.wm_class is None ==> entry is None
            &&& e.exec_line matches Some(command) ==> !(e.no_display && e.wm_class is None) ==> {
                &&& entry matches Some(x)
                &&& x.startup_wm_class == e.wm_class
                &&& x.desktop_id == id_of(path)
                &&& !is_flatpak_entry(command, path) ==> x.exec_line == command
                &&& is_flatpak_entry(command, path) && simplified(command, x.desktop_id) is Some
                    ==> Some(x.exec_line) == simplified(command, x.desktop_id)
                &&& simplified(command, x.desktop_id) is None ==> x.exec_line == command
            }
        }),
{
}

/// An entry belongs to a Flatpak if `flatpak` runs it or if it was exported by
/// Flatpak.
pub proof fn law_flatpak_entries(a: Seq<char>, b: Seq<char>, command: Seq<char>, path: Seq<char>)
    ensures
        is_flatpak_entry("flatpak run"@ + a, path),
        is_flatpak_entry("/usr/bin/flatpak "@ + a, path),
        is_flatpak_entry(command, a + "flatpak/exports/share/applications"@ + b),
        is_flatpak_entry(command, path) ==> occurs(path, "flatpak/exports/share/applications"@)
            || (exists|v: Seq<char>| command == #[trigger] ("flatpak run"@ + v)) || (exists|
            v: Seq<char>,
        | command == #[trigger] ("/usr/bin/flatpak "@ + v)),
{
    law_affixes_come_off(a, "flatpak run"@);
    law_affixes_come_off(a, "/usr/bin/flatpak "@);
    law_affixes_come_off(command, "flatpak run"@);
    law_affixes_come_off(command, "/usr/bin/flatpak "@);
    lemma_within(a, "flatpak/exports/share/applications"@, b);
    if let Some(v) = after_prefix(command, "flatpak run"@) {
        assert(command == "flatpak run"@ + v);
    }
    if let Some(v) = after_prefix(command, "/usr/bin/flatpak "@) {
        assert(command == "/usr/bin/flatpak "@ + v);
    }
}

/// A desktop file holds the entry that its name stands for; a file with another
/// extension holds none.
pub proof fn law_desktop_files_hold_entries(
    dir: Seq<char>,
    stem: Seq<char>,
    ext: Seq<char>,
    f: DesktopFile,
)
    requires
        stem.len() > 0,
        lacks(stem, '/'),
        lacks(ext, '/'),
        lacks(ext, '.'),
        ext.len() > 0,
        f.path@ == joined_path(dir, stem + seq!['.'] + ext),
    ensures
        id_of(f.path@) == stem,
        ext == "desktop"@ ==> file_entry(f) == entry_in(f.content@, f.path@),
        ext != "desktop"@ ==> file_entry(f) is None,
{
    reveal_strlit(".");
    reveal_strlit("..");
    let name = stem + seq!['.'] + ext;
    assert(lacks(name, '/'));
    assert(name.len() >= 3);
    law_joined_path_ends_in_the_name(dir, name);
    law_extension_follows_the_last_dot(stem, ext);
}

/// By what an entry is filed.
pub enum Filing {
    Class,
    Id,
    Program,
}

/// The key under which an entry is filed, if it has one.
pub open spec fn filed_under(e: DesktopEntryView, by: Filing) -> Option<Seq<char>> {
    match by {
        Filing::Class => match e.startup_wm_class {
            Some(class) => Some(lowercase(class)),
            None => None,
        },
        Filing::Id => Some(lowercase(e.desktop_id)),
        Filing::Program => match exec_name(e.exec_line) {
            Some(name) => Some(lowercase(name)),
            None => None,
        },
    }
}

pub open spec fn table(index: DesktopIndexView, by: Filing) -> Map<Seq<char>, DesktopEntryView> {
    match by {
        Filing::Class => index.wm_class,
        Filing::Id => index.desktop_id,
        Filing::Program => index.exec_basename,
    }
}

/// File `i` has an entry under the key.
pub open spec fn has_key(files: Seq<DesktopFile>, i: int, by: Filing, key: Seq<char>) -> bool {
    file_entry(files[i]) matches Some(e) && filed_under(e, by) == Some(key)
}

/// Every entry is filed by its window class, its id and its program, and of
/// those with one key the first counts.
pub proof fn law_first_entry_counts(files: Seq<DesktopFile>, i: int, by: Filing, key: Seq<char>)
    ensures
        0 <= i < files.len() && has_key(files, i, by, key) && (forall|j: int|
            0 <= j < i ==> !#[trigger] has_key(files, j, by, key)) ==> {
            &&& table(index_of_files(files), by).dom().contains(key)
            &&& Some(table(index_of_files(files), by)[key]) == file_entry(files[i])
        },
        (forall|j: int| 0 <= j < files.len() ==> !#[trigger] has_key(files, j, by, key))
            ==> !table(index_of_files(files), by).dom().contains(key),
    decreases files.len(),
{
    if files.len() > 0 {
        let head = files.drop_last();
        let last = files.len() - 1;
        law_first_entry_counts(head, i, by, key);
        assert forall|j: int| 0 <= j < head.len() implies #[trigger] has_key(head, j, by, key)
            == has_key(files, j, by, key) by {
            assert(head[j] == files[j]);
        }
        if forall|j: int| 0 <= j < last ==> !#[trigger] has_key(files, j, by, key) {
            assert forall|j: int| 0 <= j < head.len() implies !#[trigger] has_key(
                head,
                j,
                by,
                key,
            ) by {
                assert(!has_key(files, j, by, key));
            }
        }
        if 0 <= i < last && has_key(files, i, by, key) && (forall|j: int|
            0 <= j < i ==> !#[trigger] has_key(files, j, by, key)) {
            assert(has_key(head, i, by, key));
            assert forall|j: int| 0 <= j < i implies !#[trigger] has_key(head, j, by, key) by {
                assert(!has_key(files, j, by, key));
            }
        }
        assert(!has_key(files, last, by, key) ==> table(index_of_files(files), by).dom().contains(
            key,
        ) == table(index_of_files(head), by).dom().contains(key));
    }
}

/// A class finds the entry that gives it as its window class; else the one with
/// that id; else the one with that program. Case does not matter.
pub proof fn law_lookup_order(index: DesktopIndexView, class: Seq<char>)
    ensures
        ({
            let key = lowercase(class);
            let by_class = table(index, Filing::Class);
            let by_id = table(index, Filing::Id);
            let by_program = table(index, Filing::Program);
            &&& by_class.dom().contains(key) ==> found(index, class) == Some(by_class[key])
            &&& !by_class.dom().contains(key) && by_id.dom().contains(key) ==> found(index, class)
                == Some(by_id[key])
            &&& !by_class.dom().contains(key) && !by_id.dom().contains(key)
                && by_program.dom().contains(key) ==> found(index, class) == Some(by_program[key])
            &&& !by_class.dom().contains(key) && !by_id.dom().contains(key)
                && !by_program.dom().contains(key) ==> found(index, class) is None
        }),
{
}

/// Desktop files are looked for in the user's directory first, then in the
/// system's, by default in two; then where Flatpak exports them, for the system
/// and for the user.
pub proof fn law_search_order(home: Seq<char>, dirs: Seq<char>, i: int)
    requires
        home.len() > 0,
        home.last() != '/',
    ensures
        search_dirs(Some(home), None) == seq![
            home + "/applications"@,
            "/usr/local/share/applications"@,
            "/usr/share/applications"@,
            "/var/lib/flatpak/exports/share/applications"@,
            home + "/flatpak/exports/share/applications"@,
        ],
        search_dirs(None, None) == seq![
            "/usr/local/share/applications"@,
            "/usr/share/applications"@,
            "/var/lib/flatpak/exports/share/applications"@,
        ],
        search_dirs(Some(home), Some(dirs)).len() == pieces(dirs, ":"@).len() + 3,
        search_dirs(Some(home), Some(dirs))[0] == home + "/applications"@,
        0 <= i < pieces(dirs, ":"@).len() ==> search_dirs(Some(home), Some(dirs))[i + 1]
            == joined_path(pieces(dirs, ":"@)[i], "applications"@),
        search_dirs(Some(home), Some(dirs))[pieces(dirs, ":"@).len() as int + 1]
            == "/var/lib/flatpak/exports/share/applications"@,
        search_dirs(Some(home), Some(dirs)).last() == home
            + "/flatpak/exports/share/applications"@,
{
    reveal_strlit("/");
    reveal_strlit("applications");
    reveal_strlit("flatpak");
    reveal_strlit("exports");
    reveal_strlit("share");
    reveal_strlit("/applications");
    reveal_strlit("/flatpak/exports/share/applications");
    let own = joined_path(home, "applications"@);
    assert(own =~= home + "/applications"@);
    let a = joined_path(home, "flatpak"@);
    let b = joined_path(a, "exports"@);
    let c = joined_path(b, "share"@);
    let d = joined_path(c, "applications"@);
    assert(a =~= home + "/"@ + "flatpak"@);
    assert(a.last() == 'k');
    assert(b =~= a + "/"@ + "exports"@);
    assert(b.last() == 's');
    assert(c =~= b + "/"@ + "share"@);
    assert(c.last() == 'e');
    assert(d =~= c + "/"@ + "applications"@);
    assert("/"@ + "flatpak"@ + "/"@ + "exports"@ + "/"@ + "share"@ + "/"@ + "applications"@
        =~= "/flatpak/exports/share/applications"@);
    assert(d =~= home + ("/"@ + "flatpak"@ + "/"@ + "exports"@ + "/"@ + "share"@ + "/"@
        + "applications"@));
    let n = pieces(dirs, ":"@).len() as int;
    let all = search_dirs(Some(home), Some(dirs));
    assert(applications_in(pieces(dirs, ":"@)).len() == n);
    assert(search_dirs(Some(home), None) =~= seq![
        home + "/applications"@,
        "/usr/local/share/applications"@,
        "/usr/share/applications"@,
        "/var/lib/flatpak/exports/share/applications"@,
        home + "/flatpak/exports/share/applications"@,
    ]);
    assert(search_dirs(None, None) =~= seq![
        "/usr/local/share/applications"@,
        "/usr/share/applications"@,
        "/var/lib/flatpak/exports/share/applications"@,
    ]);
    assert(all.len() == n + 3);
}

/// The key of an override is a pattern if it holds `*` or `?`. The regular
/// expression for it has `.*` for the one, `.` for the other, and every other
/// character as it is.
pub proof fn law_patterns_become_expressions(a: Seq<char>, b: Seq<char>, c: char)
    ensures
        is_glob(a) <==> a.contains('*') || a.contains('?'),
        glob_regex(a + b) == glob_regex(a) + glob_regex(b),
        glob_regex(seq!['*']) == seq!['.', '*'],
        glob_regex(seq!['?']) == seq!['.'],
        c != '*' && c != '?' ==> glob_regex(seq![c]) == seq![c],
{
    reveal_strlit("*");
    reveal_strlit("?");
    reveal_strlit(".");
    reveal_strlit(".*");
    assert("*"@ =~= seq!['*']);
    assert("?"@ =~= seq!['?']);
    assert("."@ =~= seq!['.']);
    assert(".*"@ =~= seq!['.', '*']);
    lemma_holds(a, "*"@, '*');
    lemma_holds(a, "?"@, '?');
    law_replacing_goes_by_character(a, b, '*', ".*"@);
    law_replacing_goes_by_character(
        replaced(a, '*', ".*"@),
        replaced(b, '*', ".*"@),
        '?',
        "."@,
    );
    law_replacing_goes_by_character(seq!['.'], seq!['*'], '?', "."@);
    assert(seq!['.'] + seq!['*'] =~= seq!['.', '*']);
    assert(replaced(seq!['?'], '*', ".*"@) == seq!['?']);
    assert(replaced(seq!['.'], '?', "."@) == seq!['.']);
    assert(replaced(seq!['*'], '?', "."@) == seq!['*']);
    if c != '*' && c != '?' {
        assert(replaced(seq![c], '*', ".*"@) == seq![c]);
        assert(replaced(seq![c], '?', "."@) == seq![c]);
    }
}

/// An override for a class is kept with its command; one for a pattern that
/// compiles too, behind those of earlier keys; and no others.
pub proof fn law_overrides_are_kept(
    overrides: Map<Seq<char>, Seq<char>>,
    keys: Seq<Seq<char>>,
    key: Seq<char>,
)
    ensures
        exact_part(overrides).dom().contains(key) <==> overrides.dom().contains(key)
            && !key.contains('*') && !key.contains('?'),
        exact_part(overrides).dom().contains(key) ==> exact_part(overrides)[key] == overrides[key],
        pattern_part(seq![], overrides).len() == 0,
        pattern_part(keys.push(key), overrides) == if (key.contains('*') || key.contains('?'))
            && compiles(glob_regex(key)) {
            pattern_part(keys, overrides).push((glob_regex(key), overrides[key]))
        } else {
            pattern_part(keys, overrides)
        },
{
    law_patterns_become_expressions(key, key, ' ');
    assert(keys.push(key).drop_last() =~= keys);
}

/// The first pattern that a class matches gives its command. An empty command
/// is none.
pub proof fn law_first_pattern_counts(
    patterns: Seq<(Seq<char>, Seq<char>)>,
    class: Seq<char>,
    i: int,
    command: Seq<char>,
)
    ensures
        0 <= i < patterns.len() && compiles(patterns[i].0) && matches_somewhere(
            patterns[i].0,
            class,
        ) && (forall|j: int|
            0 <= j < i ==> !(compiles((#[trigger] patterns[j]).0) && matches_somewhere(
                patterns[j].0,
                class,
            ))) ==> pattern_command_from(patterns, class, 0) == Some(patterns[i].1),
        (forall|j: int|
            0 <= j < patterns.len() ==> !(compiles((#[trigger] patterns[j]).0)
                && matches_somewhere(patterns[j].0, class))) ==> pattern_command_from(
            patterns,
            class,
            0,
        ) is None,
        command.len() > 0 ==> unless_empty(command) == Some(command),
        command.len() == 0 ==> unless_empty(command) is None,
{
    lemma_pattern_command(patterns, class, 0, i);
}

proof fn lemma_pattern_command(
    patterns: Seq<(Seq<char>, Seq<char>)>,
    class: Seq<char>,
    k: int,
    i: int,
)
    requires
        0 <= k <= patterns.len(),
    ensures
        k <= i < patterns.len() && compiles(patterns[i].0) && matches_somewhere(
            patterns[i].0,
            class,
        ) && (forall|j: int|
            k <= j < i ==> !(compiles((#[trigger] patterns[j]).0) && matches_somewhere(
                patterns[j].0,
                class,
            ))) ==> pattern_command_from(patterns, class, k) == Some(patterns[i].1),
        (forall|j: int|
            k <= j < patterns.len() ==> !(compiles((#[trigger] patterns[j]).0)
                && matches_somewhere(patterns[j].0, class))) ==> pattern_command_from(
            patterns,
            class,
            k,
        ) is None,
    decreases patterns.len() - k,
{
    if k < patterns.len() {
        lemma_pattern_command(patterns, class, k + 1, i);
    }
}

/// Escaping goes character by character: one with a meaning in a regular
/// expression gets a backslash, letters, digits and blanks stay.
pub proof fn law_escaping_goes_by_character(a: Seq<char>, b: Seq<char>, c: char)
    ensures
        escaped(a + b) == escaped(a) + escaped(b),
        "\\.+*?()|[]{}^$#&-~"@.contains(c) ==> escaped(seq![c]) == seq!['\\', c],
        !"\\.+*?()|[]{}^$#&-~"@.contains(c) ==> escaped(seq![c]) == seq![c],
    decreases b.len(),
{
    assert(seq![c].drop_last() =~= Seq::<char>::empty());
    assert(escaped(Seq::<char>::empty()) =~= seq![]);
    lemma_meta(c);
    if b.len() == 0 {
        assert(a + b =~= a);
        assert(escaped(a) + escaped(b) =~= escaped(a));
    } else {
        law_escaping_goes_by_character(a, b.drop_last(), c);
        assert((a + b).drop_last() =~= a + b.drop_last());
        assert(escaped(a + b) =~= escaped(a) + escaped(b));
    }
    assert(escaped(seq![c]) =~= if is_meta(c) {
        seq!['\\', c]
    } else {
        seq![c]
    });
}

proof fn lemma_meta(c: char)
    ensures
        is_meta(c) <==> "\\.+*?()|[]{}^$#&-~"@.contains(c),
{
    reveal_strlit("\\.+*?()|[]{}^$#&-~");
    let all = "\\.+*?()|[]{}^$#&-~"@;
    assert(all.len() == 18);
    assert(all[0] == '\\' && all[1] == '.' && all[2] == '+' && all[3] == '*' && all[4] == '?'
        && all[5] == '(' && all[6] == ')' && all[7] == '|' && all[8] == '[' && all[9] == ']'
        && all[10] == '{' && all[11] == '}' && all[12] == '^' && all[13] == '$' && all[14] == '#'
        && all[15] == '&' && all[16] == '-' && all[17] == '~');
}

} // verus!
