//! Browser profiles on command lines.
use super::proc::{cmdline_args, text_args};
use crate::paths::{base_name, file_name};
use crate::text::{
    after_prefix, contains, is_empty, is_word, lemma_words_of_pair, lemma_words_of_word, lowercase,
    occurs, pieces, split, split_whitespace, starts_with, starts_with_seq, str_eq, strip_prefix,
    texts, to_lowercase, views, words,
};
use vstd::prelude::*;
use vstd::string::StringExecFns;

verus! {

pub open spec fn is_firefox_name(name: Seq<char>) -> bool {
    name == "firefox"@ || name == "firefox-esr"@ || name == "floorp"@ || name == "librewolf"@
        || name == "waterfox"@ || name == "zen"@ || name == "zen-browser"@
}

pub open spec fn is_chromium_name(name: Seq<char>) -> bool {
    name == "chromium"@ || name == "chromium-browser"@ || name == "google-chrome"@ || name
        == "google-chrome-stable"@ || name == "brave"@ || name == "brave-browser"@ || name
        == "microsoft-edge"@ || name == "vivaldi"@ || name == "opera"@
}

fn is_firefox(name: &str) -> (r: bool)
    ensures
        r == is_firefox_name(name@),
{
    str_eq(name, "firefox") || str_eq(name, "firefox-esr") || str_eq(name, "floorp") || str_eq(
        name,
        "librewolf",
    ) || str_eq(name, "waterfox") || str_eq(name, "zen") || str_eq(name, "zen-browser")
}

fn is_chromium(name: &str) -> (r: bool)
    ensures
        r == is_chromium_name(name@),
{
    str_eq(name, "chromium") || str_eq(name, "chromium-browser") || str_eq(name, "google-chrome")
        || str_eq(name, "google-chrome-stable") || str_eq(name, "brave") || str_eq(
        name,
        "brave-browser",
    ) || str_eq(name, "microsoft-edge") || str_eq(name, "vivaldi") || str_eq(name, "opera")
}

#[derive(Debug, Clone, Copy, PartialEq, Eq, Structural)]
pub enum BrowserFamily {
    Firefox,
    Chromium,
}

/// A lowercase Flatpak app id names a browser of the Firefox family.
pub open spec fn is_firefox_app(lower: Seq<char>) -> bool {
    ||| exists|i: int|
        0 <= i < pieces(lower, "."@).len() && is_firefox_name(#[trigger] pieces(lower, "."@)[i])
    ||| occurs(lower, "firefox"@)
    ||| occurs(lower, "zen_browser"@)
    ||| occurs(lower, "floorp"@)
    ||| occurs(lower, "librewolf"@)
    ||| occurs(lower, "waterfox"@)
}

/// A lowercase Flatpak app id names a browser of the Chromium family.
pub open spec fn is_chromium_app(lower: Seq<char>) -> bool {
    ||| exists|i: int|
        0 <= i < pieces(lower, "."@).len() && is_chromium_name(#[trigger] pieces(lower, "."@)[i])
    ||| occurs(lower, "chrom"@)
    ||| occurs(lower, "brave"@)
    ||| occurs(lower, "vivaldi"@)
}

/// The family of the app in `flatpak run [options] <app.id> [args...]`, and
/// where its own arguments begin. Only the first app id counts.
pub open spec fn flatpak_family_from(args: Seq<Seq<char>>, k: int) -> Option<(BrowserFamily, int)>
    decreases args.len() - k,
{
    if k < 0 || k >= args.len() {
        None
    } else if starts_with_seq(args[k], "-"@) || args[k] == "run"@ || !occurs(args[k], "."@) {
        flatpak_family_from(args, k + 1)
    } else if is_firefox_app(lowercase(args[k])) {
        Some((BrowserFamily::Firefox, k + 1))
    } else if is_chromium_app(lowercase(args[k])) {
        Some((BrowserFamily::Chromium, k + 1))
    } else {
        None
    }
}

/// The family of the browser that a command line starts, and where the
/// browser's own arguments begin.
pub open spec fn family_of(args: Seq<Seq<char>>) -> Option<(BrowserFamily, int)> {
    match base_name(args[0]) {
        Some(base) => {
            let name = lowercase(base);
            if is_firefox_name(name) {
                Some((BrowserFamily::Firefox, 1))
            } else if is_chromium_name(name) {
                Some((BrowserFamily::Chromium, 1))
            } else if name == "flatpak"@ {
                flatpak_family_from(args, 1)
            } else {
                None
            }
        },
        None => None,
    }
}

/// The Firefox profile flags from argument `i` on: `-P <name>`,
/// `-profile <path>`, the last one counting, and the companion `-no-remote`
/// needed for multi-profile sessions.
pub open spec fn firefox_flags_from(
    args: Seq<Seq<char>>,
    i: int,
    profile: Option<Seq<char>>,
    no_remote: bool,
) -> Option<Seq<char>>
    decreases args.len() - i,
{
    if i >= args.len() {
        match profile {
            Some(flag) => if no_remote {
                Some("-no-remote "@ + flag)
            } else {
                Some(flag)
            },
            None => None,
        }
    } else if args[i] == "-P"@ && i + 1 < args.len() {
        firefox_flags_from(args, i + 2, Some("-P "@ + args[i + 1]), no_remote)
    } else if (args[i] == "--profile"@ || args[i] == "-profile"@) && i + 1 < args.len() {
        firefox_flags_from(args, i + 2, Some("-profile "@ + args[i + 1]), no_remote)
    } else {
        let attached = match after_prefix(args[i], "-P"@) {
            Some(name) => if name.len() > 0 {
                Some("-P "@ + name)
            } else {
                profile
            },
            None => profile,
        };
        firefox_flags_from(
            args,
            i + 1,
            attached,
            no_remote || args[i] == "-no-remote"@ || args[i] == "--no-remote"@,
        )
    }
}

/// The first Chromium profile flag from argument `i` on.
pub open spec fn chromium_flag_from(args: Seq<Seq<char>>, i: int) -> Option<Seq<char>>
    decreases args.len() - i,
{
    if i < 0 || i >= args.len() {
        None
    } else if starts_with_seq(args[i], "--profile-directory="@) {
        Some(args[i])
    } else {
        chromium_flag_from(args, i + 1)
    }
}

/// The profile flags on a command line with at least one argument.
pub open spec fn flags_of(args: Seq<Seq<char>>) -> Option<Seq<char>> {
    match family_of(args) {
        Some((BrowserFamily::Firefox, start)) => firefox_flags_from(args, start, None, false),
        Some((BrowserFamily::Chromium, start)) => chromium_flag_from(args, start),
        None => None,
    }
}

/// A lone argument with spaces in it has words, too.
pub open spec fn has_words(args: Seq<Seq<char>>) -> bool {
    args.len() == 1 && occurs(args[0], " "@) ==> words(args[0]).len() > 0
}

/// The profile flags on a command line. One that was joined into a single
/// argument is taken apart if nothing is found in it as it stands.
pub open spec fn profile_of(args: Seq<Seq<char>>) -> Option<Seq<char>> {
    if args.len() == 0 {
        None
    } else if flags_of(args) is Some {
        flags_of(args)
    } else if args.len() == 1 && occurs(args[0], " "@) {
        flags_of(words(args[0]))
    } else {
        None
    }
}

/// Whether the command line is more than a lone argument of blanks.
pub fn is_proper_command(args: &[String]) -> (r: bool)
    ensures
        r == has_words(texts(args@)),
{
    if args.len() != 1 {
        return true;
    }
    assert(texts(args@)[0] == args@[0]@);
    if !contains(args[0].as_str(), " ") {
        return true;
    }
    let ws = split_whitespace(args[0].as_str());
    assert(views(ws@).len() == ws@.len());
    ws.len() > 0
}

/// Detect browser profile arguments on the command line of a process: the
/// contents of its `cmdline` file.
///
/// Returns the profile flags to append to the launch command at restore time,
/// e.g. `"-P work"` or `"--profile-directory=Profile 1"`.
pub fn detect_browser_profile(pid: i64, raw: &[u8]) -> (r: Option<String>)
    requires
        pid > 0 ==> has_words(text_args(raw@)),
    ensures
        pid <= 0 ==> r is None,
        pid > 0 ==> (r is Some <==> profile_of(text_args(raw@)) is Some),
        r matches Some(flags) ==> profile_of(text_args(raw@)) == Some(flags@),
{
    if pid <= 0 {
        return None;
    }
    let args = cmdline_args(raw);
    detect_profile_from_args(args.as_slice())
}

/// A command line that is a lone argument of blanks.
#[derive(Debug, Clone, Copy, PartialEq, Eq, Structural)]
pub struct BlankCommand;

/// Detect browser profile arguments on the command line of a process, unless
/// that is a lone argument of blanks.
pub fn check_browser_profile(pid: i64, raw: &[u8]) -> (r: Result<Option<String>, BlankCommand>)
    ensures
        r is Err <==> pid > 0 && !has_words(text_args(raw@)),
        r matches Ok(found) ==> crate::models::opt_text(found) == if pid > 0 {
            profile_of(text_args(raw@))
        } else {
            None
        },
{
    if pid > 0 {
        let args = cmdline_args(raw);
        if !is_proper_command(args.as_slice()) {
            return Err(BlankCommand);
        }
    }
    Ok(detect_browser_profile(pid, raw))
}

/// Detect browser profile flags from a parsed command line.
///
/// Some launchers (e.g. Arch's chromium wrapper) produce a single-arg cmdline
/// where all tokens are joined with spaces.  When that happens, re-split on
/// whitespace so classification and extraction still work.
pub fn detect_profile_from_args(args: &[String]) -> (r: Option<String>)
    requires
        has_words(texts(args@)),
    ensures
        r is Some <==> profile_of(texts(args@)) is Some,
        r matches Some(flags) ==> profile_of(texts(args@)) == Some(flags@),
{
    if args.len() == 0 {
        return None;
    }
    match try_detect(args) {
        Some(flags) => {
            return Some(flags);
        },
        None => {},
    }
    assert(texts(args@)[0] == args@[0]@);
    if args.len() == 1 && contains(args[0].as_str(), " ") {
        let ws = split_whitespace(args[0].as_str());
        let mut split_args: Vec<String> = Vec::new();
        for i in 0..ws.len()
            invariant
                texts(split_args@) == views(ws@).take(i as int),
        {
            let ghost before = texts(split_args@);
            split_args.push(ws[i].to_owned());
            assert(texts(split_args@) =~= before.push(ws@[i as int]@));
            assert(texts(split_args@) =~= views(ws@).take(i as int + 1));
        }
        assert(texts(split_args@) =~= words(args@[0]@));
        assert(split_args@.len() == texts(split_args@).len());
        return try_detect(split_args.as_slice());
    }
    None
}

fn try_detect(args: &[String]) -> (r: Option<String>)
    requires
        args@.len() > 0,
    ensures
        r is Some <==> flags_of(texts(args@)) is Some,
        r matches Some(flags) ==> flags_of(texts(args@)) == Some(flags@),
{
    match classify_browser(args) {
        Some((BrowserFamily::Firefox, start)) => extract_firefox_profile(args, start),
        Some((BrowserFamily::Chromium, start)) => extract_chromium_profile(args, start),
        None => None,
    }
}

/// Identify whether the command is a known browser and which family it belongs to.
/// Returns the family and the index where browser-specific args begin.
fn classify_browser(args: &[String]) -> (r: Option<(BrowserFamily, usize)>)
    requires
        args@.len() > 0,
    ensures
        match r {
            Some((family, start)) => family_of(texts(args@)) == Some((family, start as int))
                && start <= args@.len(),
            None => family_of(texts(args@)) is None,
        },
{
    assert(texts(args@)[0] == args@[0]@);
    let base = match file_name(args[0].as_str()) {
        Some(base) => base,
        None => {
            return None;
        },
    };
    let basename = to_lowercase(base);
    let name = basename.as_str();
    if is_firefox(name) {
        Some((BrowserFamily::Firefox, 1))
    } else if is_chromium(name) {
        Some((BrowserFamily::Chromium, 1))
    } else if str_eq(name, "flatpak") {
        classify_flatpak_browser(args)
    } else {
        None
    }
}

/// For `flatpak run [options] <app.id> [browser args...]`, identify the
/// browser family from the app ID and return the arg start index.
fn classify_flatpak_browser(args: &[String]) -> (r: Option<(BrowserFamily, usize)>)
    requires
        args@.len() > 0,
    ensures
        match r {
            Some((family, start)) => flatpak_family_from(texts(args@), 1) == Some(
                (family, start as int),
            ) && start <= args@.len(),
            None => flatpak_family_from(texts(args@), 1) is None,
        },
{
    let mut k: usize = 1;
    while k < args.len()
        invariant
            1 <= k <= args@.len(),
            flatpak_family_from(texts(args@), 1) == flatpak_family_from(texts(args@), k as int),
        decreases args@.len() - k,
    {
        assert(texts(args@)[k as int] == args@[k as int]@);
        let arg = args[k].as_str();
        if !(starts_with(arg, "-") || str_eq(arg, "run") || !contains(arg, ".")) {
            let lower = to_lowercase(arg);
            if firefox_app(lower.as_str()) {
                return Some((BrowserFamily::Firefox, k + 1));
            }
            if chromium_app(lower.as_str()) {
                return Some((BrowserFamily::Chromium, k + 1));
            }
            return None;
        }
        k = k + 1;
    }
    None
}

fn firefox_app(lower: &str) -> (r: bool)
    ensures
        r == is_firefox_app(lower@),
{
    proof {
        reveal_strlit(".");
    }
    let segments = split(lower, ".");
    let ghost all = pieces(lower@, "."@);
    for i in 0..segments.len()
        invariant
            views(segments@) == all,
            all == pieces(lower@, "."@),
            forall|j: int| 0 <= j < i ==> !is_firefox_name(#[trigger] all[j]),
    {
        assert(all[i as int] == segments@[i as int]@);
        if is_firefox(segments[i]) {
            assert(is_firefox_name(pieces(lower@, "."@)[i as int]));
            return true;
        }
    }
    contains(lower, "firefox") || contains(lower, "zen_browser") || contains(lower, "floorp")
        || contains(lower, "librewolf") || contains(lower, "waterfox")
}

fn chromium_app(lower: &str) -> (r: bool)
    ensures
        r == is_chromium_app(lower@),
{
    proof {
        reveal_strlit(".");
    }
    let segments = split(lower, ".");
    let ghost all = pieces(lower@, "."@);
    for i in 0..segments.len()
        invariant
            views(segments@) == all,
            all == pieces(lower@, "."@),
            forall|j: int| 0 <= j < i ==> !is_chromium_name(#[trigger] all[j]),
    {
        assert(all[i as int] == segments@[i as int]@);
        if is_chromium(segments[i]) {
            assert(is_chromium_name(pieces(lower@, "."@)[i as int]));
            return true;
        }
    }
    contains(lower, "chrom") || contains(lower, "brave") || contains(lower, "vivaldi")
}

fn flag_with(flag: &str, value: &str) -> (r: String)
    ensures
        r@ == flag@ + value@,
{
    let mut s = flag.to_owned();
    s.append(value);
    s
}

/// Extract Firefox-family profile flags: `-P <name>`, `-profile <path>`,
/// and the companion `-no-remote` flag needed for multi-profile sessions.
fn extract_firefox_profile(args: &[String], start: usize) -> (r: Option<String>)
    requires
        start <= args@.len(),
    ensures
        r is Some <==> firefox_flags_from(texts(args@), start as int, None, false) is Some,
        r matches Some(flags) ==> firefox_flags_from(texts(args@), start as int, None, false)
            == Some(flags@),
{
    let mut profile: Option<String> = None;
    let mut no_remote = false;
    let mut i: usize = start;
    let ghost all = texts(args@);
    while i < args.len()
        invariant
            all == texts(args@),
            i <= args@.len(),
            firefox_flags_from(all, start as int, None, false) == firefox_flags_from(
                all,
                i as int,
                crate::models::opt_text(profile),
                no_remote,
            ),
        decreases args@.len() - i,
    {
        assert(all[i as int] == args@[i as int]@);
        let arg = args[i].as_str();
        let has_next = i + 1 < args.len();
        if has_next && str_eq(arg, "-P") {
            assert(all[i + 1] == args@[i + 1]@);
            profile = Some(flag_with("-P ", args[i + 1].as_str()));
            i = i + 2;
        } else if has_next && (str_eq(arg, "--profile") || str_eq(arg, "-profile")) {
            assert(all[i + 1] == args@[i + 1]@);
            profile = Some(flag_with("-profile ", args[i + 1].as_str()));
            i = i + 2;
        } else {
            // `-Pname` (no space): only valid for the short form
            match strip_prefix(arg, "-P") {
                Some(name) => {
                    if !is_empty(name) {
                        profile = Some(flag_with("-P ", name));
                    }
                },
                None => {},
            }
            if str_eq(arg, "-no-remote") || str_eq(arg, "--no-remote") {
                no_remote = true;
            }
            i = i + 1;
        }
    }
    match profile {
        Some(flag) => {
            if no_remote {
                Some(flag_with("-no-remote ", flag.as_str()))
            } else {
                Some(flag)
            }
        },
        None => None,
    }
}

/// Extract Chromium-family profile flag: `--profile-directory=<name>`.
fn extract_chromium_profile(args: &[String], start: usize) -> (r: Option<String>)
    requires
        start <= args@.len(),
    ensures
        r is Some <==> chromium_flag_from(texts(args@), start as int) is Some,
        r matches Some(flag) ==> chromium_flag_from(texts(args@), start as int) == Some(flag@),
{
    let mut i: usize = start;
    while i < args.len()
        invariant
            start <= i <= args@.len(),
            chromium_flag_from(texts(args@), start as int) == chromium_flag_from(
                texts(args@),
                i as int,
            ),
        decreases args@.len() - i,
    {
        assert(texts(args@)[i as int] == args@[i as int]@);
        if starts_with(args[i].as_str(), "--profile-directory=") {
            return Some(args[i].clone());
        }
        i = i + 1;
    }
    None
}

/// The flags for a Firefox profile, given by name or by path.
pub open spec fn firefox_flags(value: Seq<char>, by_path: bool, no_remote: bool) -> Seq<char> {
    let flag = if by_path {
        "-profile "@ + value
    } else {
        "-P "@ + value
    };
    if no_remote {
        "-no-remote "@ + flag
    } else {
        flag
    }
}

/// The flags that are detected for a browser of the Firefox family are those
/// of a profile.
pub proof fn law_firefox_flags_name_a_profile(
    args: Seq<Seq<char>>,
    i: int,
    profile: Option<Seq<char>>,
    no_remote: bool,
)
    requires
        profile matches Some(flag) ==> exists|value: Seq<char>, by_path: bool|
            flag == #[trigger] firefox_flags(value, by_path, false),
    ensures
        firefox_flags_from(args, i, profile, no_remote) matches Some(flags) ==> exists|
            value: Seq<char>,
            by_path: bool,
            apart: bool,
        | flags == #[trigger] firefox_flags(value, by_path, apart),
    decreases args.len() - i,
{
    if i >= args.len() {
        if let Some(flag) = profile {
            let (value, by_path) = choose|value: Seq<char>, by_path: bool|
                flag == #[trigger] firefox_flags(value, by_path, false);
            assert(flag == firefox_flags(value, by_path, false));
            assert("-no-remote "@ + flag == firefox_flags(value, by_path, true));
        }
    } else if args[i] == "-P"@ && i + 1 < args.len() {
        assert("-P "@ + args[i + 1] == firefox_flags(args[i + 1], false, false));
        law_firefox_flags_name_a_profile(args, i + 2, Some("-P "@ + args[i + 1]), no_remote);
    } else if (args[i] == "--profile"@ || args[i] == "-profile"@) && i + 1 < args.len() {
        assert("-profile "@ + args[i + 1] == firefox_flags(args[i + 1], true, false));
        law_firefox_flags_name_a_profile(args, i + 2, Some("-profile "@ + args[i + 1]), no_remote);
    } else {
        let attached = match after_prefix(args[i], "-P"@) {
            Some(name) => if name.len() > 0 {
                Some("-P "@ + name)
            } else {
                profile
            },
            None => profile,
        };
        if let Some(name) = after_prefix(args[i], "-P"@) {
            assert("-P "@ + name == firefox_flags(name, false, false));
        }
        law_firefox_flags_name_a_profile(
            args,
            i + 1,
            attached,
            no_remote || args[i] == "-no-remote"@ || args[i] == "--no-remote"@,
        );
    }
}

proof fn lemma_flatpak_family_stays(head: Seq<Seq<char>>, tail: Seq<Seq<char>>, k: int)
    requires
        flatpak_family_from(head, k) is Some,
    ensures
        flatpak_family_from(head + tail, k) == flatpak_family_from(head, k),
    decreases head.len() - k,
{
    assert((head + tail)[k] == head[k]);
    if starts_with_seq(head[k], "-"@) || head[k] == "run"@ || !occurs(head[k], "."@) {
        lemma_flatpak_family_stays(head, tail, k + 1);
    }
}

proof fn lemma_family_stays(head: Seq<Seq<char>>, tail: Seq<Seq<char>>)
    requires
        head.len() > 0,
        family_of(head) is Some,
    ensures
        family_of(head + tail) == family_of(head),
{
    assert((head + tail)[0] == head[0]);
    if flatpak_family_from(head, 1) is Some {
        lemma_flatpak_family_stays(head, tail, 1);
    }
}

/// A Firefox that is launched with detected profile flags behind its command
/// shows the same profile, if the profile's name or path has no white space.
pub proof fn law_firefox_profile_is_found_again(
    command: Seq<char>,
    value: Seq<char>,
    by_path: bool,
    no_remote: bool,
)
    requires
        is_word(value),
        words(command).len() > 0,
        family_of(words(command)) == Some((BrowserFamily::Firefox, words(command).len() as int)),
    ensures
        profile_of(words(command + " "@ + firefox_flags(value, by_path, no_remote))) == Some(
            firefox_flags(value, by_path, no_remote),
        ),
{
    reveal_strlit(" ");
    reveal_strlit("-P");
    reveal_strlit("-P ");
    reveal_strlit("-profile");
    reveal_strlit("--profile");
    reveal_strlit("-profile ");
    reveal_strlit("-no-remote");
    reveal_strlit("-no-remote ");
    let head = words(command);
    let n = head.len() as int;
    let flags = firefox_flags(value, by_path, no_remote);
    let option = if by_path {
        "-profile"@
    } else {
        "-P"@
    };
    let flag = firefox_flags(value, by_path, false);
    assert(flag =~= option + " "@ + value);
    lemma_words_of_word(option);
    lemma_words_of_word(value);
    lemma_words_of_pair(option, value);
    lemma_words_of_word("-no-remote"@);
    lemma_words_of_pair("-no-remote"@, flag);
    assert("-no-remote "@ + flag =~= "-no-remote"@ + " "@ + flag);
    let tail = words(flags);
    lemma_words_of_pair(command, flags);
    let args = head + tail;
    lemma_family_stays(head, tail);
    assert("-P"@ != "--profile"@ && "-P"@ != "-profile"@) by {
        assert("-P"@.len() != "-profile"@.len());
        assert("-P"@.len() != "--profile"@.len());
    }
    if no_remote {
        assert(tail =~= seq!["-no-remote"@, option, value]);
        assert(args[n] == "-no-remote"@ && args[n + 1] == option && args[n + 2] == value);
        assert("-no-remote"@.len() == 10);
        assert("-no-remote"@[1] == 'n' && "-profile"@[1] == 'p' && "--profile"@[1] == '-');
        assert(after_prefix("-no-remote"@, "-P"@) is None) by {
            if starts_with_seq("-no-remote"@, "-P"@) {
                assert("-no-remote"@.take(2)[1] == "-no-remote"@[1]);
            }
        }
        assert(firefox_flags_from(args, n + 3, Some(flag), true) == Some(flags));
        assert(firefox_flags_from(args, n + 1, None, true) == Some(flags));
    } else {
        assert(tail =~= seq![option, value]);
        assert(args[n] == option && args[n + 1] == value);
        assert(firefox_flags_from(args, n + 2, Some(flag), false) == Some(flags));
    }
}

/// A Chromium that is launched with a detected profile flag behind its command
/// shows the same profile, if the flag has no white space.
pub proof fn law_chromium_profile_is_found_again(command: Seq<char>, flag: Seq<char>)
    requires
        is_word(flag),
        starts_with_seq(flag, "--profile-directory="@),
        words(command).len() > 0,
        family_of(words(command)) == Some((BrowserFamily::Chromium, words(command).len() as int)),
    ensures
        profile_of(words(command + " "@ + flag)) == Some(flag),
{
    let head = words(command);
    lemma_words_of_word(flag);
    lemma_words_of_pair(command, flag);
    lemma_family_stays(head, seq![flag]);
    assert((head + seq![flag])[head.len() as int] == flag);
}

} // verus!
