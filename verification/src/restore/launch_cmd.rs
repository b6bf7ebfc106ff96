//! Command lines that bring a saved window back.
use crate::models::{WindowEntry, WindowEntryView};
use crate::paths::last_component;
use crate::text::{
    join, joined, lemma_kept_words, lemma_words_are_words, lemma_words_of_joined, replace, replaced,
    rsplit_once, split_whitespace, str_eq, views, words,
};
use vstd::prelude::*;
use vstd::string::StringExecFns;

verus! {

/// The working-directory flag of a known terminal, by binary name.
pub open spec fn flag_of(bin: Seq<char>) -> Option<Seq<char>> {
    if bin == "ghostty"@ {
        Some("--working-directory="@)
    } else if bin == "kitty"@ {
        Some("--directory="@)
    } else if bin == "alacritty"@ {
        Some("--working-directory="@)
    } else if bin == "wezterm"@ {
        Some("--cwd="@)
    } else if bin == "foot"@ {
        Some("--working-directory="@)
    } else if bin == "tilix"@ {
        Some("--working-directory="@)
    } else if bin == "terminator"@ {
        Some("--working-directory="@)
    } else {
        None
    }
}

/// A flag that forces single-instance behavior via D-Bus, which prevents
/// each launched process from being independent (breaking CWD).
pub open spec fn is_single_instance_flag(arg: Seq<char>) -> bool {
    arg == "--gtk-single-instance=true"@ || arg == "--single-instance"@
}

pub open spec fn independent_words(cmd: Seq<char>) -> Seq<Seq<char>> {
    words(cmd).filter(|arg: Seq<char>| !is_single_instance_flag(arg))
}

/// A command without its single-instance flags, its words one space apart.
pub open spec fn independent(cmd: Seq<char>) -> Seq<char> {
    joined(independent_words(cmd), " "@)
}

/// The working-directory flag for a command's binary, if it is a known
/// terminal.
pub open spec fn cwd_flag(cmd: Seq<char>) -> Option<Seq<char>> {
    if words(cmd).len() == 0 {
        None
    } else {
        flag_of(last_component(words(cmd)[0]))
    }
}

/// A text in single quotes for the shell.
pub open spec fn shell_quoted(s: Seq<char>) -> Seq<char> {
    "'"@ + replaced(s, '\'', "'\\''"@) + "'"@
}

/// The saved command with its profile flags.
pub open spec fn profiled(w: WindowEntryView) -> Seq<char> {
    match w.profile {
        Some(profile) => w.launch_cmd + " "@ + profile,
        None => w.launch_cmd,
    }
}

/// The shell script that runs a command in a directory.
pub open spec fn cd_script(cwd: Seq<char>, cmd: Seq<char>) -> Seq<char> {
    "cd "@ + shell_quoted(cwd) + " && exec "@ + cmd
}

/// The command line for `cmd` in the given directory, if there is one. A known
/// terminal takes the directory as a flag; any other command runs, in the form
/// `run`, through a shell that changes to it.
pub open spec fn line_in(cmd: Seq<char>, run: Seq<char>, cwd: Option<Seq<char>>) -> Seq<char> {
    match cwd {
        None => run,
        Some(cwd) => match cwd_flag(cmd) {
            Some(flag) => independent(cmd) + " "@ + flag + cwd,
            None => "sh -c "@ + shell_quoted(cd_script(cwd, run)),
        },
    }
}

/// The command that launches a saved window.
pub open spec fn launch_line(w: WindowEntryView) -> Seq<char> {
    line_in(profiled(w), profiled(w), w.cwd)
}

/// The command that launches a saved window as a process of its own.
pub open spec fn bsp_launch_line(w: WindowEntryView) -> Seq<char> {
    line_in(profiled(w), independent(profiled(w)), w.cwd)
}

fn is_single_instance(arg: &str) -> (r: bool)
    ensures
        r == is_single_instance_flag(arg@),
{
    str_eq(arg, "--gtk-single-instance=true") || str_eq(arg, "--single-instance")
}

/// A command without its single-instance flags.
pub fn strip_single_instance_flags(cmd: &str) -> (r: String)
    ensures
        r@ == independent(cmd@),
{
    let args = split_whitespace(cmd);
    let ghost all = words(cmd@);
    let ghost p = |arg: Seq<char>| !is_single_instance_flag(arg);
    let mut kept: Vec<&str> = Vec::new();
    proof {
        reveal(Seq::filter);
        assert(views(kept@) =~= seq![]);
    }
    for i in 0..args.len()
        invariant
            views(args@) == all,
            p == (|arg: Seq<char>| !is_single_instance_flag(arg)),
            views(kept@) == all.take(i as int).filter(p),
    {
        proof {
            reveal(Seq::filter);
            assert(all.take(i as int + 1).drop_last() =~= all.take(i as int));
            assert(all.take(i as int + 1).last() == args@[i as int]@);
        }
        if !is_single_instance(args[i]) {
            let ghost before = kept@;
            kept.push(args[i]);
            assert(views(kept@) =~= views(before).push(args@[i as int]@));
        }
    }
    assert(all.take(args@.len() as int) =~= all);
    join(&kept, " ")
}

/// Match the binary name in a launch command against known terminals
/// and return the appropriate `--working-directory=` style flag.
pub fn terminal_cwd_flag(launch_cmd: &str) -> (r: Option<&'static str>)
    ensures
        r is Some <==> cwd_flag(launch_cmd@) is Some,
        r matches Some(flag) ==> cwd_flag(launch_cmd@) == Some(flag@),
{
    let args = split_whitespace(launch_cmd);
    if args.len() == 0 {
        assert(words(launch_cmd@).len() == 0);
        return None;
    }
    assert(words(launch_cmd@)[0] == args@[0]@);
    let bin = match rsplit_once(args[0], "/") {
        Some((_, tail)) => tail,
        None => args[0],
    };
    if str_eq(bin, "ghostty") {
        Some("--working-directory=")
    } else if str_eq(bin, "kitty") {
        Some("--directory=")
    } else if str_eq(bin, "alacritty") {
        Some("--working-directory=")
    } else if str_eq(bin, "wezterm") {
        Some("--cwd=")
    } else if str_eq(bin, "foot") {
        Some("--working-directory=")
    } else if str_eq(bin, "tilix") {
        Some("--working-directory=")
    } else if str_eq(bin, "terminator") {
        Some("--working-directory=")
    } else {
        None
    }
}

/// A text in single quotes for the shell.
pub fn shell_escape(s: &str) -> (r: String)
    ensures
        r@ == shell_quoted(s@),
{
    let mut out = "'".to_owned();
    let inner = replace(s, '\'', "'\\''");
    out.append(inner.as_str());
    out.append("'");
    out
}

fn profiled_command(window: &WindowEntry) -> (r: String)
    ensures
        r@ == profiled(window@),
{
    let mut cmd = window.launch_cmd.clone();
    match &window.profile {
        Some(profile) => {
            cmd.append(" ");
            cmd.append(profile.as_str());
        },
        None => {},
    }
    cmd
}

fn build_line(cmd: &str, run: String, cwd: &Option<String>) -> (r: String)
    ensures
        r@ == line_in(
            cmd@,
            run@,
            match *cwd {
                Some(cwd) => Some(cwd@),
                None => None,
            },
        ),
{
    let cwd = match cwd {
        Some(cwd) => cwd,
        None => {
            return run;
        },
    };
    match terminal_cwd_flag(cmd) {
        Some(flag) => {
            let mut out = strip_single_instance_flags(cmd);
            out.append(" ");
            out.append(flag);
            out.append(cwd.as_str());
            out
        },
        None => {
            let dir = shell_escape(cwd.as_str());
            let mut script = "cd ".to_owned();
            script.append(dir.as_str());
            script.append(" && exec ");
            script.append(run.as_str());
            let quoted = shell_escape(script.as_str());
            let mut out = "sh -c ".to_owned();
            out.append(quoted.as_str());
            out
        },
    }
}

/// Build the exec command, injecting browser profile flags and/or saved CWD.
///
/// Profile flags (e.g. `-P work`, `--profile-directory=Profile 1`) are
/// appended to the base launch command before CWD handling, since browsers
/// and terminals are mutually exclusive in practice.
///
/// For known terminals: strips single-instance flags (so each launch is
/// its own process) and appends `--working-directory=<path>`.
/// For other apps with CWD: wraps with `cd <path> && exec <cmd>`.
pub fn build_launch_cmd(window: &WindowEntry) -> (r: String)
    ensures
        r@ == launch_line(window@),
{
    let cmd = profiled_command(window);
    build_line(cmd.as_str(), cmd.clone(), &window.cwd)
}

/// Build launch command for BSP restore: always strips single-instance flags
/// so each launch creates an independent process (critical for preselect to
/// work, since single-instance apps create windows in the existing process's
/// workspace, bypassing the preselection on the target workspace).
///
/// The flags are stripped from the command before it is wrapped, so that the
/// saved CWD stays as it is.
pub fn build_bsp_launch_cmd(window: &WindowEntry) -> (r: String)
    ensures
        r@ == bsp_launch_line(window@),
{
    let cmd = profiled_command(window);
    let run = strip_single_instance_flags(cmd.as_str());
    build_line(cmd.as_str(), run, &window.cwd)
}

/// How a shell reads a word that is made of single-quoted parts and escaped
/// characters: outside quotes nothing else may stand.
pub open spec fn shell_word(s: Seq<char>, in_quotes: bool) -> Option<Seq<char>>
    decreases s.len(),
{
    if s.len() == 0 {
        if in_quotes {
            None
        } else {
            Some(seq![])
        }
    } else if s[0] == '\'' {
        shell_word(s.skip(1), !in_quotes)
    } else if in_quotes {
        match shell_word(s.skip(1), true) {
            Some(rest) => Some(seq![s[0]] + rest),
            None => None,
        }
    } else if s[0] == '\\' && s.len() > 1 {
        match shell_word(s.skip(2), false) {
            Some(rest) => Some(seq![s[1]] + rest),
            None => None,
        }
    } else {
        None
    }
}

/// Reading on after the quoted form of a text gives the text and what follows.
proof fn lemma_quoted_is_read(s: Seq<char>, tail: Seq<char>)
    ensures
        shell_word(replaced(s, '\'', "'\\''"@) + tail, true) == match shell_word(tail, true) {
            Some(rest) => Some(s + rest),
            None => None,
        },
    decreases s.len(),
{
    let mark = "'\\''"@;
    if s.len() == 0 {
        assert(replaced(s, '\'', mark) + tail =~= tail);
        if let Some(rest) = shell_word(tail, true) {
            assert(s + rest =~= rest);
        }
    } else {
        let body = replaced(s.drop_last(), '\'', mark);
        let part = if s.last() == '\'' {
            mark
        } else {
            seq![s.last()]
        };
        assert(replaced(s, '\'', mark) + tail =~= body + (part + tail));
        lemma_quoted_is_read(s.drop_last(), part + tail);
        let after = shell_word(tail, true);
        if s.last() == '\'' {
            reveal_strlit("'\\''");
            let t = part + tail;
            assert(t.skip(1).skip(2) =~= seq!['\''] + tail);
            assert((seq!['\''] + tail).skip(1) =~= tail);
            assert(t[0] == '\'' && t.skip(1)[0] == '\\' && t.skip(1)[1] == '\'');
            assert(shell_word(seq!['\''] + tail, false) == after);
            assert(shell_word(t.skip(1), false) == match after {
                Some(rest) => Some(seq!['\''] + rest),
                None => None,
            });
        } else {
            assert((part + tail).skip(1) =~= tail);
        }
        if let Some(rest) = after {
            assert(s.drop_last() + (seq![s.last()] + rest) =~= s + rest);
        }
    }
}

/// Quoting for the shell is faithful: the quoted text is one word, and reads
/// as the text.
pub proof fn law_shell_reads_the_text(s: Seq<char>)
    ensures
        shell_word(shell_quoted(s), false) == Some(s),
{
    reveal_strlit("'");
    let tail = "'"@;
    let body = replaced(s, '\'', "'\\''"@);
    let q = shell_quoted(s);
    assert(q.skip(1) =~= body + tail);
    assert(q[0] == '\'');
    assert(tail.skip(1) =~= seq![]);
    assert(shell_word(Seq::<char>::empty(), false) == Some(Seq::<char>::empty()));
    assert(shell_word(tail, true) == Some(Seq::<char>::empty()));
    lemma_quoted_is_read(s, tail);
    assert(s + Seq::<char>::empty() =~= s);
}

/// A command that runs in a directory without being a known terminal is the
/// three words `sh`, `-c` and a script, whatever the directory is called and
/// whatever the command holds; in the script, the directory is one word.
pub proof fn law_shell_changes_to_the_directory(
    cmd: Seq<char>,
    run: Seq<char>,
    cwd: Seq<char>,
)
    requires
        cwd_flag(cmd) is None,
    ensures
        ({
            let line = line_in(cmd, run, Some(cwd));
            let script = "cd "@ + shell_quoted(cwd) + " && exec "@ + run;
            &&& line.take("sh -c "@.len() as int) == "sh -c "@
            &&& shell_word(line.skip("sh -c "@.len() as int), false) == Some(script)
            &&& shell_word(shell_quoted(cwd), false) == Some(cwd)
        }),
{
    let line = line_in(cmd, run, Some(cwd));
    let script = cd_script(cwd, run);
    law_shell_reads_the_text(script);
    law_shell_reads_the_text(cwd);
    assert(line.take("sh -c "@.len() as int) =~= "sh -c "@);
    assert(line.skip("sh -c "@.len() as int) =~= shell_quoted(script));
}

/// A tiled launch runs the saved command without its single-instance flags, in
/// the saved directory: stripping the flags touches nothing but the command.
pub proof fn law_bsp_launch_is_independent(w: WindowEntryView)
    ensures
        ({
            let cmd = independent(profiled(w));
            &&& forall|i: int|
                0 <= i < words(cmd).len() ==> !is_single_instance_flag(#[trigger] words(cmd)[i])
            &&& match w.cwd {
                None => bsp_launch_line(w) == cmd,
                Some(cwd) => match cwd_flag(profiled(w)) {
                    Some(flag) => bsp_launch_line(w) == cmd + " "@ + flag + cwd,
                    None => bsp_launch_line(w) == "sh -c "@ + shell_quoted(cd_script(cwd, cmd)),
                },
            }
        }),
{
    law_independent_commands_share_no_instance(profiled(w));
}

/// An independent command has no single-instance flag, and is otherwise the
/// same words; making it independent again changes nothing.
pub proof fn law_independent_commands_share_no_instance(cmd: Seq<char>)
    ensures
        words(independent(cmd)) == independent_words(cmd),
        forall|i: int|
            0 <= i < words(independent(cmd)).len() ==> !is_single_instance_flag(
                #[trigger] words(independent(cmd))[i],
            ),
        independent(independent(cmd)) == independent(cmd),
{
    let p = |arg: Seq<char>| !is_single_instance_flag(arg);
    let kept = independent_words(cmd);
    lemma_words_are_words(cmd);
    lemma_kept_words(words(cmd), p);
    lemma_words_of_joined(kept);
    lemma_filter_keeps_all(kept, p);
}

proof fn lemma_filter_keeps_all<A>(s: Seq<A>, p: spec_fn(A) -> bool)
    requires
        forall|i: int| 0 <= i < s.len() ==> p(#[trigger] s[i]),
    ensures
        s.filter(p) == s,
    decreases s.len(),
{
    reveal(Seq::filter);
    if s.len() > 0 {
        lemma_filter_keeps_all(s.drop_last(), p);
        assert(p(s[s.len() - 1]));
        assert(s =~= s.drop_last().push(s.last()));
    }
}

} // verus!
