//! Launch commands from process command lines.
use crate::paths::{base_name, file_name, join_path, joined_path};
use crate::text::{pieces, split, starts_with, starts_with_seq, str_eq, texts, views};
use vstd::prelude::*;

verus! {

/// The text that bytes stand for, with replacement characters where they are
/// not UTF-8.
pub uninterp spec fn lossy_text(bytes: Seq<u8>) -> Seq<char>;

/// `String::from_utf8_lossy`: a text that depends on the bytes alone, and is
/// their decoding where they are valid UTF-8. What stands in place of invalid
/// bytes is not stated.
#[verifier::external_body]
pub(crate) fn from_utf8_lossy(bytes: &[u8]) -> (r: String)
    ensures
        r@ == lossy_text(bytes@),
        vstd::utf8::valid_utf8(bytes@) ==> r@ == vstd::utf8::decode_utf8(bytes@),
{
    String::from_utf8_lossy(bytes).to_string()
}

/// How many bytes come before the first zero.
pub open spec fn until_zero(raw: Seq<u8>) -> nat
    decreases raw.len(),
{
    if raw.len() > 0 && raw[0] != 0 {
        1 + until_zero(raw.skip(1))
    } else {
        0
    }
}

pub proof fn lemma_until_zero(raw: Seq<u8>)
    ensures
        until_zero(raw) <= raw.len(),
    decreases raw.len(),
{
    if raw.len() > 0 {
        lemma_until_zero(raw.skip(1));
    }
}

/// The non-empty arguments in a zero-separated command line.
pub open spec fn byte_args(raw: Seq<u8>) -> Seq<Seq<u8>>
    decreases raw.len(),
{
    if raw.len() == 0 {
        seq![]
    } else if raw[0] == 0 {
        byte_args(raw.skip(1))
    } else {
        let n = until_zero(raw) as int;
        proof {
            lemma_until_zero(raw);
        }
        seq![raw.take(n)] + byte_args(raw.skip(n))
    }
}

/// The arguments as texts.
pub open spec fn text_args(raw: Seq<u8>) -> Seq<Seq<char>> {
    Seq::new(byte_args(raw).len(), |i: int| lossy_text(byte_args(raw)[i]))
}

fn count_until_zero(raw: &[u8], from: usize) -> (n: usize)
    requires
        from <= raw@.len(),
    ensures
        n == until_zero(raw@.skip(from as int)),
        from + n <= raw@.len(),
{
    let len: usize = raw.len();
    let mut n: usize = 0;
    while from + n < len && raw[from + n] != 0
        invariant
            len == raw@.len(),
            from + n <= len,
            until_zero(raw@.skip(from as int)) == n + until_zero(raw@.skip(from + n)),
        decreases len - from - n,
    {
        proof {
            let t = raw@.skip(from + n);
            assert(t[0] == raw@[from + n]);
            assert(t.skip(1) =~= raw@.skip(from + n + 1));
        }
        n = n + 1;
    }
    proof {
        let t = raw@.skip(from + n);
        if from + n < len {
            assert(t[0] == raw@[from + n]);
        }
    }
    n
}

/// Split the contents of a `cmdline` file into its arguments.
pub fn cmdline_args(raw: &[u8]) -> (r: Vec<String>)
    ensures
        texts(r@) == text_args(raw@),
{
    let mut out: Vec<String> = Vec::new();
    let mut at: usize = 0;
    let ghost all = byte_args(raw@);
    let ghost mut done: Seq<Seq<u8>> = seq![];
    proof {
        assert(raw@.skip(0) =~= raw@);
        assert(seq![] + byte_args(raw@) =~= byte_args(raw@));
    }
    while at < raw.len()
        invariant
            at <= raw@.len(),
            all == byte_args(raw@),
            all == done + byte_args(raw@.skip(at as int)),
            out@.len() == done.len(),
            forall|i: int| 0 <= i < done.len() ==> (#[trigger] out@[i])@ == lossy_text(done[i]),
        decreases raw@.len() - at,
    {
        let ghost rest = raw@.skip(at as int);
        assert(rest[0] == raw@[at as int]);
        if raw[at] == 0 {
            assert(rest.skip(1) =~= raw@.skip(at + 1));
            at = at + 1;
        } else {
            let n: usize = count_until_zero(raw, at);
            let arg = from_utf8_lossy(vstd::slice::slice_subrange(raw, at, at + n));
            proof {
                assert(raw@.subrange(at as int, at + n) =~= rest.take(n as int));
                assert(rest.skip(n as int) =~= raw@.skip(at + n));
                assert(done + (seq![rest.take(n as int)] + byte_args(raw@.skip(at + n)))
                    =~= done.push(rest.take(n as int)) + byte_args(raw@.skip(at + n)));
                assert(n > 0);
                done = done.push(rest.take(n as int));
            }
            out.push(arg);
            at = at + n;
        }
    }
    proof {
        assert(raw@.skip(at as int) =~= seq![]);
        assert(all =~= done);
        assert(texts(out@) =~= text_args(raw@));
    }
    out
}

/// A program that runs another one, named by its arguments.
pub open spec fn is_interpreter_name(name: Seq<char>) -> bool {
    name == "python3"@ || name == "python"@ || name == "node"@ || name == "electron"@ || name
        == "ruby"@ || name == "perl"@ || name == "java"@ || name == "sh"@ || name == "bash"@ || name
        == "zsh"@ || name == "fish"@ || name == "env"@
}

fn is_interpreter(name: &str) -> (r: bool)
    ensures
        r == is_interpreter_name(name@),
{
    str_eq(name, "python3") || str_eq(name, "python") || str_eq(name, "node") || str_eq(
        name,
        "electron",
    ) || str_eq(name, "ruby") || str_eq(name, "perl") || str_eq(name, "java") || str_eq(
        name,
        "sh",
    ) || str_eq(name, "bash") || str_eq(name, "zsh") || str_eq(name, "fish") || str_eq(name, "env")
}

/// A path's final component, or nothing where it has none.
pub open spec fn base_or_empty(path: Seq<char>) -> Seq<char> {
    match base_name(path) {
        Some(name) => name,
        None => ""@,
    }
}

/// The argument comes before the program: an interpreter, or a flag.
pub open spec fn is_prelude(arg: Seq<char>) -> bool {
    is_interpreter_name(base_or_empty(arg)) || starts_with_seq(arg, "-"@)
}

/// The first argument from `k` on that is a program.
pub open spec fn program_from(args: Seq<Seq<char>>, k: int) -> Option<int>
    decreases args.len() - k,
{
    if k < 0 || k >= args.len() {
        None
    } else if is_prelude(args[k]) {
        program_from(args, k + 1)
    } else {
        Some(k)
    }
}

/// The command for a program: its bare name if that can be found, else the
/// program as it was called.
pub open spec fn command_for(program: Seq<char>, installed: bool) -> Seq<char> {
    if installed {
        base_or_empty(program)
    } else {
        program
    }
}

fn base_of<'a>(path: &'a str) -> (r: &'a str)
    ensures
        r@ == base_or_empty(path@),
{
    match file_name(path) {
        Some(name) => name,
        None => "",
    }
}

/// Which argument is the program.
pub fn program_index(args: &[String]) -> (r: Option<usize>)
    ensures
        r is Some <==> program_from(texts(args@), 0) is Some,
        r matches Some(i) ==> program_from(texts(args@), 0) == Some(i as int) && i < args@.len(),
{
    for k in 0..args.len()
        invariant
            program_from(texts(args@), 0) == program_from(texts(args@), k as int),
    {
        assert(texts(args@)[k as int] == args@[k as int]@);
        let arg = args[k].as_str();
        if !is_interpreter(base_of(arg)) && !starts_with(arg, "-") {
            return Some(k);
        }
    }
    None
}

/// The bare name of the program in a command line, by which it is looked up.
pub fn program_name(args: &[String]) -> (r: Option<String>)
    ensures
        r is Some <==> program_from(texts(args@), 0) is Some,
        r matches Some(name) ==> name@ == base_or_empty(
            texts(args@)[program_from(texts(args@), 0)->0],
        ),
{
    match program_index(args) {
        Some(i) => Some(base_of(args[i].as_str()).to_owned()),
        None => None,
    }
}

/// The launch command for a command line, given whether its program's bare
/// name can be found.
pub open spec fn args_command(args: Seq<Seq<char>>, installed: bool) -> Option<Seq<char>> {
    match program_from(args, 0) {
        Some(i) => Some(command_for(args[i], installed)),
        None => None,
    }
}

/// The launch command for a command line, given whether its program's bare
/// name can be found.
pub fn resolve_with_lookup(args: &[String], installed: bool) -> (r: Option<String>)
    ensures
        r is Some <==> args_command(texts(args@), installed) is Some,
        r matches Some(cmd) ==> args_command(texts(args@), installed) == Some(cmd@),
{
    match program_index(args) {
        Some(i) => {
            if installed {
                Some(base_of(args[i].as_str()).to_owned())
            } else {
                Some(args[i].clone())
            }
        },
        None => None,
    }
}

/// Given a parsed cmdline arg list, determine the launch command.
/// `which_fn` says whether a bare name can be found.
pub fn resolve_from_args<F: Fn(&str) -> bool>(args: &[String], which_fn: &F) -> (r: Option<String>)
    requires
        forall|name: &str| call_requires(*which_fn, (name,)),
    ensures
        program_from(texts(args@), 0) is None ==> r is None,
        program_from(texts(args@), 0) matches Some(i) ==> exists|name: &str, found: bool|
            name@ == base_or_empty(texts(args@)[i]) && #[trigger] call_ensures(
                *which_fn,
                (name,),
                found,
            ) && r is Some && r->0@ == command_for(texts(args@)[i], found),
{
    match program_index(args) {
        Some(i) => {
            let name = base_of(args[i].as_str());
            let found: bool = which_fn(name);
            assert(call_ensures(*which_fn, (name,), found));
            resolve_with_lookup(args, found)
        },
        None => None,
    }
}

/// The launch command for the contents of a `cmdline` file, given whether its
/// program's bare name can be found.
pub fn resolve_from_proc(raw: &[u8], installed: bool) -> (r: Option<String>)
    ensures
        r is Some <==> args_command(text_args(raw@), installed) is Some,
        r matches Some(cmd) ==> args_command(text_args(raw@), installed) == Some(cmd@),
{
    let args = cmdline_args(raw);
    resolve_with_lookup(args.as_slice(), installed)
}

/// The places where a bare name is looked for, in order.
pub open spec fn lookup_places(path_var: Seq<char>, name: Seq<char>) -> Seq<Seq<char>> {
    Seq::new(
        pieces(path_var, ":"@).len(),
        |i: int| joined_path(pieces(path_var, ":"@)[i], name),
    )
}

/// The files whose presence means that a bare name can be found.
pub fn which_candidates(path_var: &str, name: &str) -> (r: Vec<String>)
    ensures
        texts(r@) == lookup_places(path_var@, name@),
{
    proof {
        reveal_strlit(":");
    }
    let dirs = split(path_var, ":");
    let ghost all = lookup_places(path_var@, name@);
    let mut out: Vec<String> = Vec::new();
    for i in 0..dirs.len()
        invariant
            views(dirs@) == pieces(path_var@, ":"@),
            all == lookup_places(path_var@, name@),
            texts(out@) == all.take(i as int),
    {
        assert(views(dirs@)[i as int] == dirs@[i as int]@);
        let ghost before = texts(out@);
        out.push(join_path(dirs[i], name));
        assert(texts(out@) =~= before.push(all[i as int]));
        assert(texts(out@) =~= all.take(i as int + 1));
    }
    assert(all.take(dirs@.len() as int) =~= all);
    out
}

/// The contents of a `cmdline` file: the arguments, each with a zero behind it.
pub open spec fn command_bytes(args: Seq<Seq<u8>>) -> Seq<u8>
    decreases args.len(),
{
    if args.len() == 0 {
        seq![]
    } else {
        args[0] + seq![0u8] + command_bytes(args.skip(1))
    }
}

proof fn lemma_until_zero_of(arg: Seq<u8>, rest: Seq<u8>)
    requires
        forall|i: int| 0 <= i < arg.len() ==> #[trigger] arg[i] != 0,
    ensures
        until_zero(arg + seq![0u8] + rest) == arg.len(),
    decreases arg.len(),
{
    let raw = arg + seq![0u8] + rest;
    if arg.len() == 0 {
        assert(raw[0] == 0);
    } else {
        assert(raw[0] == arg[0]);
        assert(raw.skip(1) =~= arg.skip(1) + seq![0u8] + rest);
        lemma_until_zero_of(arg.skip(1), rest);
    }
}

/// Arguments that are not empty are read back from the command line that they
/// make.
pub proof fn law_arguments_are_read_back(args: Seq<Seq<u8>>)
    requires
        forall|i: int, j: int|
            0 <= i < args.len() && 0 <= j < args[i].len() ==> #[trigger] args[i][j] != 0,
        forall|i: int| 0 <= i < args.len() ==> (#[trigger] args[i]).len() > 0,
    ensures
        byte_args(command_bytes(args)) == args,
    decreases args.len(),
{
    if args.len() == 0 {
        assert(byte_args(command_bytes(args)) =~= args);
    } else {
        let arg = args[0];
        let rest = command_bytes(args.skip(1));
        let raw = command_bytes(args);
        let n = arg.len() as int;
        lemma_until_zero_of(arg, rest);
        assert(raw[0] == arg[0]);
        assert(raw.take(n) =~= arg);
        let tail = raw.skip(n);
        assert(tail[0] == 0);
        assert(tail.skip(1) =~= rest);
        assert(byte_args(tail) == byte_args(rest));
        assert forall|i: int, j: int|
            0 <= i < args.skip(1).len() && 0 <= j < args.skip(1)[i].len() implies #[trigger] args.skip(
            1,
        )[i][j] != 0 by {
            assert(args[i + 1][j] != 0);
        }
        law_arguments_are_read_back(args.skip(1));
        assert(byte_args(raw) =~= args);
    }
}

} // verus!
