//! Desktop entries and the index by which windows find theirs.
use crate::collections::StringMap;
use crate::models::{DesktopEntry, DesktopEntryView};
use crate::ipc::client::opt_view;
use crate::paths::{
    base_name, extension, extension_of, file_name, file_stem, join_path, joined_path, stem_of,
};
use crate::text::{
    after_prefix, contains, eq_ignore_ascii_case, is_word, join, joined, lemma_kept_words,
    lemma_words_are_words, lemma_words_of_joined, lines, lowercase, occurs, pieces,
    same_ignoring_case, split, split_whitespace, starts_with, starts_with_seq, str_eq, strip_prefix,
    text_lines, texts, to_lowercase, trim, trimmed, views, words,
};
use vstd::prelude::*;
use vstd::string::StringExecFns;

verus! {

/// The word sets an environment variable.
pub open spec fn is_env_setting(word: Seq<char>) -> bool {
    occurs(word, "="@) && !starts_with_seq(word, "-"@)
}

/// The word is a field code such as `%u`, or a file-forwarding marker such as
/// `@@u`.
pub open spec fn is_field_code(word: Seq<char>) -> bool {
    starts_with_seq(word, "%"@) || starts_with_seq(word, "@@"@)
}

/// How many environment settings the words begin with, from `k` on.
pub open spec fn settings_from(ws: Seq<Seq<char>>, k: int) -> int
    decreases ws.len() - k,
{
    if k < 0 || k >= ws.len() {
        ws.len() as int
    } else if is_env_setting(ws[k]) {
        settings_from(ws, k + 1)
    } else {
        k
    }
}

pub open spec fn command_words(ws: Seq<Seq<char>>) -> Seq<Seq<char>> {
    ws.skip(settings_from(ws, 0)).filter(|w: Seq<char>| !is_field_code(w))
}

/// An Exec line without environment settings, field codes and markers, its
/// words one space apart.
pub open spec fn cleaned(line: Seq<char>) -> Seq<char> {
    joined(command_words(words(line)), " "@)
}

/// Strip field codes (%f, %F, %u, %U, etc.), env var prefixes,
/// and Flatpak file-forwarding markers (@@, @@u, @@f, etc.) from Exec lines.
pub fn clean_exec_line(line: &str) -> (r: String)
    ensures
        r@ == cleaned(line@),
{
    let parts = split_whitespace(line);
    let ghost ws = words(line@);
    let mut start: usize = 0;
    while start < parts.len() && contains(parts[start], "=") && !starts_with(parts[start], "-")
        invariant
            views(parts@) == ws,
            start <= parts@.len(),
            settings_from(ws, 0) == settings_from(ws, start as int),
        decreases parts@.len() - start,
    {
        assert(ws[start as int] == parts@[start as int]@);
        start = start + 1;
    }
    proof {
        if start < parts@.len() {
            assert(ws[start as int] == parts@[start as int]@);
        }
        reveal(Seq::filter);
    }
    let ghost tail = ws.skip(start as int);
    let ghost p = |w: Seq<char>| !is_field_code(w);
    let mut kept: Vec<&str> = Vec::new();
    assert(views(kept@) =~= tail.take(0).filter(p));
    for i in start..parts.len()
        invariant
            views(parts@) == ws,
            start <= parts@.len(),
            tail == ws.skip(start as int),
            p == (|w: Seq<char>| !is_field_code(w)),
            views(kept@) == tail.take(i - start).filter(p),
    {
        proof {
            reveal(Seq::filter);
            assert(tail.take(i - start + 1).drop_last() =~= tail.take(i - start));
            assert(tail.take(i - start + 1).last() == parts@[i as int]@);
        }
        if !starts_with(parts[i], "%") && !starts_with(parts[i], "@@") {
            let ghost before = views(kept@);
            kept.push(parts[i]);
            assert(views(kept@) =~= before.push(parts@[i as int]@));
        }
    }
    assert(tail.take(parts@.len() - start) =~= tail);
    join(&kept, " ")
}

/// The word can be a Flatpak app id.
pub open spec fn is_app_id(word: Seq<char>) -> bool {
    &&& occurs(word, "."@)
    &&& !starts_with_seq(word, "-"@)
    &&& !starts_with_seq(word, "/"@)
    &&& !occurs(word, "="@)
}

/// The first app id among the words from `k` on, or the given one.
pub open spec fn app_id_from(ws: Seq<Seq<char>>, k: int, otherwise: Seq<char>) -> Seq<char>
    decreases ws.len() - k,
{
    if k < 0 || k >= ws.len() {
        otherwise
    } else if is_app_id(ws[k]) {
        ws[k]
    } else {
        app_id_from(ws, k + 1, otherwise)
    }
}

/// `flatpak run <app-id>`, where an app id can be found.
pub open spec fn simplified(line: Seq<char>, desktop_id: Seq<char>) -> Option<Seq<char>> {
    let app_id = app_id_from(words(line), 0, desktop_id);
    if occurs(app_id, "."@) {
        Some("flatpak run "@ + app_id)
    } else {
        None
    }
}

fn find_app_id<'a>(line: &'a str, otherwise: &'a str) -> (r: &'a str)
    ensures
        r@ == app_id_from(words(line@), 0, otherwise@),
{
    let parts = split_whitespace(line);
    let ghost ws = words(line@);
    for k in 0..parts.len()
        invariant
            views(parts@) == ws,
            ws == words(line@),
            app_id_from(ws, 0, otherwise@) == app_id_from(ws, k as int, otherwise@),
    {
        assert(ws[k as int] == parts@[k as int]@);
        let token = parts[k];
        if contains(token, ".") && !starts_with(token, "-") && !starts_with(token, "/")
            && !contains(token, "=") {
            return token;
        }
    }
    otherwise
}

/// Simplify a verbose flatpak Exec line to just `flatpak run <app-id>`.
pub fn simplify_flatpak_exec(line: &str, desktop_id: &str) -> (r: Option<String>)
    ensures
        r is Some <==> simplified(line@, desktop_id@) is Some,
        r matches Some(cmd) ==> simplified(line@, desktop_id@) == Some(cmd@),
{
    let app_id = find_app_id(line, desktop_id);
    if contains(app_id, ".") {
        let mut cmd = "flatpak run ".to_owned();
        cmd.append(app_id);
        Some(cmd)
    } else {
        None
    }
}

/// The name by which an Exec line's program is known: the app id that
/// `flatpak` runs, or the file name of the program.
pub open spec fn exec_name(line: Seq<char>) -> Option<Seq<char>> {
    let ws = words(line);
    if ws.len() == 0 {
        None
    } else if occurs(ws[0], "flatpak"@) && occurs(ws.last(), "."@) && !starts_with_seq(
        ws.last(),
        "-"@,
    ) {
        Some(ws.last())
    } else {
        base_name(ws[0])
    }
}

/// Extract the basename of the executable from an Exec line.
pub fn exec_basename_of(line: &str) -> (r: Option<String>)
    ensures
        r is Some <==> exec_name(line@) is Some,
        r matches Some(name) ==> exec_name(line@) == Some(name@),
{
    let parts = split_whitespace(line);
    assert(views(parts@) == words(line@));
    if parts.len() == 0 {
        assert(words(line@).len() == 0);
        return None;
    }
    let first = parts[0];
    let last = parts[parts.len() - 1];
    assert(words(line@)[0] == first@);
    assert(words(line@).last() == last@);
    // Handle "flatpak run org.foo.Bar"
    if contains(first, "flatpak") && contains(last, ".") && !starts_with(last, "-") {
        return Some(last.to_owned());
    }
    match file_name(first) {
        Some(name) => Some(name.to_owned()),
        None => None,
    }
}

/// What the lines of a desktop file say so far.
pub struct EntryLines {
    pub in_entry: bool,
    pub exec_line: Option<Seq<char>>,
    pub wm_class: Option<Seq<char>>,
    pub no_display: bool,
}

/// What one more line adds. Only the `[Desktop Entry]` section counts, and the
/// last value of a key.
pub open spec fn with_line(e: EntryLines, raw: Seq<char>) -> EntryLines {
    let line = trimmed(raw);
    if starts_with_seq(line, "["@) {
        EntryLines { in_entry: line == "[Desktop Entry]"@, ..e }
    } else if !e.in_entry {
        e
    } else if after_prefix(line, "Exec="@) is Some {
        EntryLines { exec_line: Some(cleaned(after_prefix(line, "Exec="@)->0)), ..e }
    } else if after_prefix(line, "StartupWMClass="@) is Some {
        EntryLines { wm_class: after_prefix(line, "StartupWMClass="@), ..e }
    } else if after_prefix(line, "NoDisplay="@) is Some {
        EntryLines {
            no_display: same_ignoring_case(
                trimmed(after_prefix(line, "NoDisplay="@)->0),
                "true"@,
            ),
            ..e
        }
    } else {
        e
    }
}

/// What the first `n` lines say.
pub open spec fn first_lines(rows: Seq<Seq<char>>, n: nat) -> EntryLines
    decreases n,
{
    if n == 0 || n > rows.len() {
        EntryLines { in_entry: false, exec_line: None, wm_class: None, no_display: false }
    } else {
        with_line(first_lines(rows, (n - 1) as nat), rows[n - 1])
    }
}

/// The id of the entry in a desktop file: the file's name without extension.
pub open spec fn id_of(path: Seq<char>) -> Seq<char> {
    match base_name(path) {
        Some(name) => stem_of(name),
        None => ""@,
    }
}

/// The entry belongs to a Flatpak application.
pub open spec fn is_flatpak_entry(exec_line: Seq<char>, path: Seq<char>) -> bool {
    ||| starts_with_seq(exec_line, "/usr/bin/flatpak "@)
    ||| starts_with_seq(exec_line, "flatpak run"@)
    ||| occurs(path, "flatpak/exports/share/applications"@)
}

/// The entry in a desktop file. There is none without an Exec line, nor for a
/// hidden application that names no window class.
pub open spec fn entry_in(content: Seq<char>, path: Seq<char>) -> Option<DesktopEntryView> {
    let rows = text_lines(content);
    let e = first_lines(rows, rows.len());
    match e.exec_line {
        None => None,
        Some(exec_line) => if e.no_display && e.wm_class is None {
            None
        } else {
            let command = if is_flatpak_entry(exec_line, path) {
                match simplified(exec_line, id_of(path)) {
                    Some(short) => short,
                    None => exec_line,
                }
            } else {
                exec_line
            };
            Some(
                DesktopEntryView {
                    exec_line: command,
                    startup_wm_class: e.wm_class,
                    desktop_id: id_of(path),
                },
            )
        },
    }
}

fn desktop_id_of(path: &str) -> (r: String)
    ensures
        r@ == id_of(path@),
{
    match file_name(path) {
        Some(name) => file_stem(name).to_owned(),
        None => "".to_owned(),
    }
}

/// Parse the contents of a `.desktop` file.
pub fn parse_desktop_content(content: &str, path: &str) -> (r: Option<DesktopEntry>)
    ensures
        r is Some <==> entry_in(content@, path@) is Some,
        r matches Some(entry) ==> entry_in(content@, path@) == Some(entry@),
{
    let mut exec_line: Option<String> = None;
    let mut startup_wm_class: Option<String> = None;
    let mut no_display = false;
    let mut in_desktop_entry = false;
    let rows = lines(content);
    let ghost all = text_lines(content@);
    for k in 0..rows.len()
        invariant
            views(rows@) == all,
            first_lines(all, k as nat) == (EntryLines {
                in_entry: in_desktop_entry,
                exec_line: crate::models::opt_text(exec_line),
                wm_class: crate::models::opt_text(startup_wm_class),
                no_display,
            }),
    {
        assert(all[k as int] == rows@[k as int]@);
        let line = trim(rows[k]);
        if starts_with(line, "[") {
            in_desktop_entry = str_eq(line, "[Desktop Entry]");
        } else if in_desktop_entry {
            match strip_prefix(line, "Exec=") {
                Some(value) => {
                    exec_line = Some(clean_exec_line(value));
                },
                None => match strip_prefix(line, "StartupWMClass=") {
                    Some(value) => {
                        startup_wm_class = Some(value.to_owned());
                    },
                    None => match strip_prefix(line, "NoDisplay=") {
                        Some(value) => {
                            no_display = eq_ignore_ascii_case(trim(value), "true");
                        },
                        None => {},
                    },
                },
            }
        }
    }
    let command = match exec_line {
        Some(line) => line,
        None => {
            return None;
        },
    };
    if no_display && startup_wm_class.is_none() {
        return None;
    }
    let desktop_id = desktop_id_of(path);
    let is_flatpak = starts_with(command.as_str(), "/usr/bin/flatpak ") || starts_with(
        command.as_str(),
        "flatpak run",
    ) || contains(path, "flatpak/exports/share/applications");
    let exec_line = if is_flatpak {
        match simplify_flatpak_exec(command.as_str(), desktop_id.as_str()) {
            Some(short) => short,
            None => command,
        }
    } else {
        command
    };
    Some(DesktopEntry { exec_line, startup_wm_class, desktop_id })
}

/// A desktop file: its path and its contents.
#[derive(Debug)]
pub struct DesktopFile {
    pub path: String,
    pub content: String,
}

/// The entry in a file, if the file is a desktop file with one.
pub open spec fn file_entry(f: DesktopFile) -> Option<DesktopEntryView> {
    match base_name(f.path@) {
        Some(name) => if extension_of(name) == Some("desktop"@) {
            entry_in(f.content@, f.path@)
        } else {
            None
        },
        None => None,
    }
}

/// Application entries by window class, by id and by program, all in
/// lowercase. Of two with the same key the first one counts.
pub struct DesktopIndex {
    wm_class: StringMap<DesktopEntry>,
    desktop_id: StringMap<DesktopEntry>,
    exec_basename: StringMap<DesktopEntry>,
}

#[verifier::ext_equal]
pub struct DesktopIndexView {
    pub wm_class: Map<Seq<char>, DesktopEntryView>,
    pub desktop_id: Map<Seq<char>, DesktopEntryView>,
    pub exec_basename: Map<Seq<char>, DesktopEntryView>,
}

/// What a table of entries says.
pub open spec fn table_view(m: Map<Seq<char>, DesktopEntry>) -> Map<Seq<char>, DesktopEntryView> {
    m.map_values(|e: DesktopEntry| e@)
}

impl View for DesktopIndex {
    type V = DesktopIndexView;

    closed spec fn view(&self) -> DesktopIndexView {
        DesktopIndexView {
            wm_class: table_view(self.wm_class@),
            desktop_id: table_view(self.desktop_id@),
            exec_basename: table_view(self.exec_basename@),
        }
    }
}

pub open spec fn empty_index() -> DesktopIndexView {
    DesktopIndexView {
        wm_class: Map::empty(),
        desktop_id: Map::empty(),
        exec_basename: Map::empty(),
    }
}

/// The table with one more entry, unless its key is taken.
pub open spec fn with_entry(
    table: Map<Seq<char>, DesktopEntryView>,
    key: Seq<char>,
    e: DesktopEntryView,
) -> Map<Seq<char>, DesktopEntryView> {
    if table.dom().contains(lowercase(key)) {
        table
    } else {
        table.insert(lowercase(key), e)
    }
}

/// The index with one more entry.
pub open spec fn indexed_with(index: DesktopIndexView, e: DesktopEntryView) -> DesktopIndexView {
    DesktopIndexView {
        wm_class: match e.startup_wm_class {
            Some(class) => with_entry(index.wm_class, class, e),
            None => index.wm_class,
        },
        desktop_id: with_entry(index.desktop_id, e.desktop_id, e),
        exec_basename: match exec_name(e.exec_line) {
            Some(name) => with_entry(index.exec_basename, name, e),
            None => index.exec_basename,
        },
    }
}

/// The index of the entries in the given files, in order.
pub open spec fn index_of_files(files: Seq<DesktopFile>) -> DesktopIndexView
    decreases files.len(),
{
    if files.len() == 0 {
        empty_index()
    } else {
        let rest = index_of_files(files.drop_last());
        match file_entry(files.last()) {
            Some(e) => indexed_with(rest, e),
            None => rest,
        }
    }
}

/// The entry for a window class: by class, else by id, else by program.
pub open spec fn found(index: DesktopIndexView, class: Seq<char>) -> Option<DesktopEntryView> {
    let key = lowercase(class);
    if index.wm_class.dom().contains(key) {
        Some(index.wm_class[key])
    } else if index.desktop_id.dom().contains(key) {
        Some(index.desktop_id[key])
    } else if index.exec_basename.dom().contains(key) {
        Some(index.exec_basename[key])
    } else {
        None
    }
}

fn add_entry(table: &mut StringMap<DesktopEntry>, key: &str, e: &DesktopEntry)
    requires
        old(table).wf(),
    ensures
        final(table).wf(),
        table_view(final(table)@) == with_entry(table_view(old(table)@), key@, e@),
{
    let lower = to_lowercase(key);
    if !table.contains_key(lower.as_str()) {
        let ghost before = table@;
        table.insert(lower, e.clone());
        assert(table_view(table@) =~= table_view(before).insert(lowercase(key@), e@));
    }
}

impl DesktopIndex {
    /// Every table holds each key once.
    pub closed spec fn wf(&self) -> bool {
        self.wm_class.wf() && self.desktop_id.wf() && self.exec_basename.wf()
    }

    /// Index the entries of the given desktop files.
    pub fn build(files: &Vec<DesktopFile>) -> (r: Self)
        ensures
            r.wf(),
            r@ == index_of_files(files@),
    {
        let mut r = DesktopIndex {
            wm_class: StringMap::new(),
            desktop_id: StringMap::new(),
            exec_basename: StringMap::new(),
        };
        proof {
            assert(table_view(r.wm_class@) =~= Map::empty());
            assert(r@ =~= empty_index());
        }
        for i in 0..files.len()
            invariant
                r.wf(),
                r@ == index_of_files(files@.take(i as int)),
        {
            proof {
                let t = files@.take(i as int + 1);
                assert(t.drop_last() =~= files@.take(i as int));
                assert(t.last() == files@[i as int]);
            }
            match read_entry(&files[i]) {
                Some(e) => r.add(&e),
                None => {},
            }
        }
        assert(files@.take(files@.len() as int) =~= files@);
        r
    }

    fn add(&mut self, e: &DesktopEntry)
        requires
            old(self).wf(),
        ensures
            final(self).wf(),
            final(self)@ == indexed_with(old(self)@, e@),
    {
        match &e.startup_wm_class {
            Some(class) => add_entry(&mut self.wm_class, class.as_str(), e),
            None => {},
        }
        add_entry(&mut self.desktop_id, e.desktop_id.as_str(), e);
        match exec_basename_of(e.exec_line.as_str()) {
            Some(name) => add_entry(&mut self.exec_basename, name.as_str(), e),
            None => {},
        }
    }

    /// How many applications are known.
    pub fn len(&self) -> (r: usize)
        requires
            self.wf(),
        ensures
            r == self@.desktop_id.dom().len(),
    {
        assert(self@.desktop_id.dom() =~= self.desktop_id@.dom());
        self.desktop_id.len()
    }

    /// Look up a window class -> `DesktopEntry` using the resolution chain.
    pub fn lookup(&self, class: &str) -> (r: Option<&DesktopEntry>)
        requires
            self.wf(),
        ensures
            r is Some <==> found(self@, class@) is Some,
            r matches Some(e) ==> found(self@, class@) == Some(e@),
    {
        let lower = to_lowercase(class);
        match self.wm_class.get(lower.as_str()) {
            Some(e) => Some(e),
            None => match self.desktop_id.get(lower.as_str()) {
                Some(e) => Some(e),
                None => self.exec_basename.get(lower.as_str()),
            },
        }
    }
}

/// The applications directories below the given data directories.
pub open spec fn applications_in(dirs: Seq<Seq<char>>) -> Seq<Seq<char>> {
    Seq::new(dirs.len(), |i: int| joined_path(dirs[i], "applications"@))
}

/// Where desktop files are looked for, in order: the user's applications; the
/// system's, by `XDG_DATA_DIRS` or by default; then Flatpak exports, the
/// system's and the user's.
pub open spec fn search_dirs(
    data_home: Option<Seq<char>>,
    xdg_data_dirs: Option<Seq<char>>,
) -> Seq<Seq<char>> {
    let own = match data_home {
        Some(home) => seq![joined_path(home, "applications"@)],
        None => seq![],
    };
    let system = match xdg_data_dirs {
        Some(dirs) => applications_in(pieces(dirs, ":"@)),
        None => seq!["/usr/local/share/applications"@, "/usr/share/applications"@],
    };
    let exports = seq!["/var/lib/flatpak/exports/share/applications"@];
    let own_exports = match data_home {
        Some(home) => seq![
            joined_path(
                joined_path(joined_path(joined_path(home, "flatpak"@), "exports"@), "share"@),
                "applications"@,
            ),
        ],
        None => seq![],
    };
    own + system + exports + own_exports
}

/// Where desktop files are looked for, given the user's data directory and
/// the value of `XDG_DATA_DIRS`, where they are set.
pub fn app_dirs(data_home: Option<&str>, xdg_data_dirs: Option<&str>) -> (r: Vec<String>)
    ensures
        texts(r@) == search_dirs(opt_view(data_home), opt_view(xdg_data_dirs)),
{
    let mut out: Vec<String> = Vec::new();
    match data_home {
        Some(home) => {
            out.push(join_path(home, "applications"));
        },
        None => {},
    }
    let ghost own = texts(out@);
    proof {
        match data_home {
            Some(home) => {
                assert(own =~= seq![joined_path(home@, "applications"@)]);
            },
            None => {
                assert(own =~= seq![]);
            },
        }
    }
    match xdg_data_dirs {
        Some(dirs) => {
            proof {
                reveal_strlit(":");
            }
            let parts = split(dirs, ":");
            let ghost system = applications_in(pieces(dirs@, ":"@));
            assert(own + system.take(0) =~= own);
            for i in 0..parts.len()
                invariant
                    views(parts@) == pieces(dirs@, ":"@),
                    system == applications_in(pieces(dirs@, ":"@)),
                    texts(out@) == own + system.take(i as int),
            {
                assert(views(parts@)[i as int] == parts@[i as int]@);
                let ghost before = texts(out@);
                out.push(join_path(parts[i], "applications"));
                assert(texts(out@) =~= before.push(system[i as int]));
                assert(texts(out@) =~= own + system.take(i as int + 1));
            }
            assert(system.take(parts@.len() as int) =~= system);
        },
        None => {
            out.push("/usr/local/share/applications".to_owned());
            out.push("/usr/share/applications".to_owned());
            assert(texts(out@) =~= own + seq![
                "/usr/local/share/applications"@,
                "/usr/share/applications"@,
            ]);
        },
    }
    // Flatpak export directories
    out.push("/var/lib/flatpak/exports/share/applications".to_owned());
    match data_home {
        Some(home) => {
            let flatpak = join_path(home, "flatpak");
            let exports = join_path(flatpak.as_str(), "exports");
            let share = join_path(exports.as_str(), "share");
            out.push(join_path(share.as_str(), "applications"));
        },
        None => {},
    }
    assert(texts(out@) =~= search_dirs(opt_view(data_home), opt_view(xdg_data_dirs)));
    out
}

fn read_entry(f: &DesktopFile) -> (r: Option<DesktopEntry>)
    ensures
        r is Some <==> file_entry(*f) is Some,
        r matches Some(e) ==> file_entry(*f) == Some(e@),
{
    match file_name(f.path.as_str()) {
        Some(name) => match extension(name) {
            Some(ext) => {
                if str_eq(ext, "desktop") {
                    parse_desktop_content(f.content.as_str(), f.path.as_str())
                } else {
                    None
                }
            },
            None => None,
        },
        None => None,
    }
}

/// The words of a clean Exec line are the words of the line behind its
/// environment settings; none of them is a field code or a marker.
pub proof fn law_clean_lines_have_no_field_codes(line: Seq<char>)
    ensures
        words(cleaned(line)) == command_words(words(line)),
        forall|i: int|
            0 <= i < words(cleaned(line)).len() ==> !is_field_code(
                #[trigger] words(cleaned(line))[i],
            ),
{
    let ws = words(line);
    let n = settings_from(ws, 0);
    let p = |w: Seq<char>| !is_field_code(w);
    lemma_words_are_words(line);
    lemma_settings_bounds(ws, 0);
    assert forall|i: int| 0 <= i < ws.skip(n).len() implies is_word(#[trigger] ws.skip(n)[i]) by {
        assert(is_word(ws[i + n]));
    }
    lemma_kept_words(ws.skip(n), p);
    lemma_words_of_joined(command_words(ws));
}

proof fn lemma_settings_bounds(ws: Seq<Seq<char>>, k: int)
    requires
        0 <= k <= ws.len(),
    ensures
        k <= settings_from(ws, k) <= ws.len(),
    decreases ws.len() - k,
{
    if k < ws.len() && is_env_setting(ws[k]) {
        lemma_settings_bounds(ws, k + 1);
    }
}

} // verus!
