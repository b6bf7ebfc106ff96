//! Working directories of shells.
use crate::text::{parse_i64, parsed_i64, split_whitespace, str_eq, trim, trimmed, views, words};
use vstd::prelude::*;

verus! {

/// What is known of a process: the contents of its `comm` file and the target
/// of its `cwd` link, where they can be read.
#[derive(Debug)]
pub struct Process {
    pub comm: Option<String>,
    pub cwd: Option<String>,
}

/// A process and its direct children.
#[derive(Debug)]
pub struct Parent {
    pub process: Process,
    pub children: Vec<Process>,
}

pub open spec fn is_shell_name(name: Seq<char>) -> bool {
    name == "bash"@ || name == "zsh"@ || name == "fish"@ || name == "sh"@ || name == "dash"@ || name
        == "ksh"@ || name == "tcsh"@ || name == "csh"@ || name == "nu"@ || name == "elvish"@ || name
        == "ion"@ || name == "xonsh"@
}

/// The process is a known shell.
pub open spec fn is_shell_process(p: Process) -> bool {
    p.comm matches Some(comm) && is_shell_name(trimmed(comm@))
}

/// The working directory of a shell, unless it is the root or unknown.
pub open spec fn shell_cwd(p: Process) -> Option<Seq<char>> {
    match p.cwd {
        Some(cwd) => if is_shell_process(p) && cwd@.len() > 0 && cwd@ != "/"@ {
            Some(cwd@)
        } else {
            None
        },
        None => None,
    }
}

/// The first shell directory among the processes from `k` on.
pub open spec fn shell_cwd_from(ps: Seq<Process>, k: int) -> Option<Seq<char>>
    decreases ps.len() - k,
{
    if k < 0 || k >= ps.len() {
        None
    } else {
        match shell_cwd(ps[k]) {
            Some(cwd) => Some(cwd),
            None => shell_cwd_from(ps, k + 1),
        }
    }
}

/// The first shell directory among the children from `k` on, each looked at
/// before its own children.
pub open spec fn family_cwd_from(children: Seq<Parent>, k: int) -> Option<Seq<char>>
    decreases children.len() - k,
{
    if k < 0 || k >= children.len() {
        None
    } else {
        match shell_cwd(children[k].process) {
            Some(cwd) => Some(cwd),
            None => match shell_cwd_from(children[k].children@, 0) {
                Some(cwd) => Some(cwd),
                None => family_cwd_from(children, k + 1),
            },
        }
    }
}

fn is_shell(p: &Process) -> (r: bool)
    ensures
        r == is_shell_process(*p),
{
    match &p.comm {
        Some(comm) => {
            let name = trim(comm.as_str());
            str_eq(name, "bash") || str_eq(name, "zsh") || str_eq(name, "fish") || str_eq(
                name,
                "sh",
            ) || str_eq(name, "dash") || str_eq(name, "ksh") || str_eq(name, "tcsh") || str_eq(
                name,
                "csh",
            ) || str_eq(name, "nu") || str_eq(name, "elvish") || str_eq(name, "ion") || str_eq(
                name,
                "xonsh",
            )
        },
        None => false,
    }
}

fn read_shell_cwd(p: &Process) -> (r: Option<String>)
    ensures
        r is Some <==> shell_cwd(*p) is Some,
        r matches Some(cwd) ==> shell_cwd(*p) == Some(cwd@),
{
    match &p.cwd {
        Some(cwd) => {
            if is_shell(p) && !crate::text::is_empty(cwd.as_str()) && !str_eq(cwd.as_str(), "/") {
                Some(cwd.clone())
            } else {
                None
            }
        },
        None => None,
    }
}

/// Resolve the working directory of a child shell process: the first known
/// shell among the children of the process, and their children (e.g. terminal
/// -> shell wrapper -> actual shell), that has a directory worth restoring.
pub fn resolve_shell_cwd(pid: i64, children: &Vec<Parent>) -> (r: Option<String>)
    ensures
        pid <= 0 ==> r is None,
        pid > 0 ==> (r is Some <==> family_cwd_from(children@, 0) is Some),
        r matches Some(cwd) ==> family_cwd_from(children@, 0) == Some(cwd@),
{
    if pid <= 0 {
        return None;
    }
    for k in 0..children.len()
        invariant
            pid > 0,
            family_cwd_from(children@, 0) == family_cwd_from(children@, k as int),
    {
        let child = &children[k];
        match read_shell_cwd(&child.process) {
            Some(cwd) => {
                return Some(cwd);
            },
            None => {},
        }
        // Check grandchildren (e.g. terminal -> shell wrapper -> actual shell)
        for j in 0..child.children.len()
            invariant
                pid > 0,
                k < children@.len(),
                child == &children@[k as int],
                shell_cwd(child.process) is None,
                family_cwd_from(children@, 0) == family_cwd_from(children@, k as int),
                shell_cwd_from(child.children@, 0) == shell_cwd_from(child.children@, j as int),
        {
            match read_shell_cwd(&child.children[j]) {
                Some(cwd) => {
                    return Some(cwd);
                },
                None => {},
            }
        }
    }
    None
}

/// The process ids among the first `n` words.
pub open spec fn pids_among(ws: Seq<Seq<char>>, n: nat) -> Seq<i64>
    decreases n,
{
    if n == 0 || n > ws.len() {
        seq![]
    } else {
        let rest = pids_among(ws, (n - 1) as nat);
        match parsed_i64(ws[n - 1]) {
            Some(pid) => rest.push(pid),
            None => rest,
        }
    }
}

/// The process ids in the contents of a `children` file.
pub fn child_pids(content: &str) -> (r: Vec<i64>)
    ensures
        r@ == pids_among(words(content@), words(content@).len()),
{
    let tokens = split_whitespace(content);
    let ghost ws = words(content@);
    let mut out: Vec<i64> = Vec::new();
    for k in 0..tokens.len()
        invariant
            views(tokens@) == ws,
            out@ == pids_among(ws, k as nat),
    {
        assert(ws[k as int] == tokens@[k as int]@);
        match parse_i64(tokens[k]) {
            Some(pid) => {
                out.push(pid);
            },
            None => {},
        }
    }
    out
}

} // verus!
