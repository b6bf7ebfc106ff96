//! Unix paths as texts.
use crate::text::{cut_last, rsplit_once, str_eq, strip_suffix};
use vstd::prelude::*;
use vstd::string::StrSliceExecFns;
use vstd::string::StringExecFns;

verus! {

/// A path without what follows its last proper component: slashes, and `.`
/// components after a slash.
pub open spec fn without_trailing(s: Seq<char>) -> Seq<char>
    decreases s.len(),
{
    if s.len() >= 1 && s.last() == '/' {
        without_trailing(s.drop_last())
    } else if s.len() >= 2 && s.last() == '.' && s[s.len() - 2] == '/' {
        without_trailing(s.take(s.len() - 2))
    } else {
        s
    }
}

/// What follows the last slash.
pub open spec fn last_component(s: Seq<char>) -> Seq<char> {
    match cut_last(s, "/"@) {
        Some((_, tail)) => tail,
        None => s,
    }
}

/// The final component of a path, if it is an ordinary name.
pub open spec fn base_name(s: Seq<char>) -> Option<Seq<char>> {
    let t = without_trailing(s);
    let last = last_component(t);
    if t.len() == 0 || last == "."@ || last == ".."@ {
        None
    } else {
        Some(last)
    }
}

/// A file name up to its last dot, if that is not its first character.
pub open spec fn stem_of(name: Seq<char>) -> Seq<char> {
    match cut_last(name, "."@) {
        Some((head, _)) => if head.len() > 0 {
            head
        } else {
            name
        },
        None => name,
    }
}

/// A file name after its last dot, if that is not its first character.
pub open spec fn extension_of(name: Seq<char>) -> Option<Seq<char>> {
    match cut_last(name, "."@) {
        Some((head, tail)) => if head.len() > 0 {
            Some(tail)
        } else {
            None
        },
        None => None,
    }
}

/// A path followed by another: an absolute one stands alone.
pub open spec fn joined_path(base: Seq<char>, rest: Seq<char>) -> Seq<char> {
    if rest.len() > 0 && rest[0] == '/' {
        rest
    } else if base.len() > 0 && base.last() != '/' {
        base + "/"@ + rest
    } else {
        base + rest
    }
}

fn trim_trailing<'a>(s: &'a str) -> (r: &'a str)
    ensures
        r@ == without_trailing(s@),
{
    let mut rest = s;
    proof {
        reveal_strlit("/");
        reveal_strlit("/.");
    }
    loop
        invariant
            "/"@.len() == 1,
            "/"@[0] == '/',
            "/."@.len() == 2,
            "/."@[0] == '/',
            "/."@[1] == '.',
            without_trailing(rest@) == without_trailing(s@),
        decreases rest@.len(),
    {
        let ghost t = rest@;
        match strip_suffix(rest, "/") {
            Some(shorter) => {
                proof {
                    assert(t.skip(t.len() - 1)[0] == t.last());
                    assert(shorter@ =~= t.drop_last());
                }
                rest = shorter;
            },
            None => {
                proof {
                    if t.len() >= 1 && t.last() == '/' {
                        assert(t.skip(t.len() - 1) =~= "/"@);
                    }
                }
                match strip_suffix(rest, "/.") {
                    Some(shorter) => {
                        proof {
                            assert(t.skip(t.len() - 2)[0] == t[t.len() - 2]);
                            assert(t.skip(t.len() - 2)[1] == t.last());
                            assert(shorter@ =~= t.take(t.len() - 2));
                        }
                        rest = shorter;
                    },
                    None => {
                        proof {
                            if t.len() >= 2 && t.last() == '.' && t[t.len() - 2] == '/' {
                                assert(t.skip(t.len() - 2) =~= "/."@);
                            }
                        }
                        return rest;
                    },
                }
            },
        }
    }
}

/// The final component of a path, if it is an ordinary name.
pub fn file_name<'a>(path: &'a str) -> (r: Option<&'a str>)
    ensures
        r is Some <==> base_name(path@) is Some,
        r matches Some(name) ==> base_name(path@) == Some(name@),
{
    let t = trim_trailing(path);
    if t.unicode_len() == 0 {
        return None;
    }
    let last = match rsplit_once(t, "/") {
        Some((_, tail)) => tail,
        None => t,
    };
    if str_eq(last, ".") || str_eq(last, "..") {
        return None;
    }
    Some(last)
}

/// A file name without its extension.
pub fn file_stem<'a>(name: &'a str) -> (r: &'a str)
    ensures
        r@ == stem_of(name@),
{
    match rsplit_once(name, ".") {
        Some((head, _)) => if head.unicode_len() > 0 {
            head
        } else {
            name
        },
        None => name,
    }
}

/// A file name's extension.
pub fn extension<'a>(name: &'a str) -> (r: Option<&'a str>)
    ensures
        r is Some <==> extension_of(name@) is Some,
        r matches Some(ext) ==> extension_of(name@) == Some(ext@),
{
    match rsplit_once(name, ".") {
        Some((head, tail)) => if head.unicode_len() > 0 {
            Some(tail)
        } else {
            None
        },
        None => None,
    }
}

/// A path followed by another.
pub fn join_path(base: &str, rest: &str) -> (r: String)
    ensures
        r@ == joined_path(base@, rest@),
{
    if rest.unicode_len() > 0 && rest.get_char(0) == '/' {
        return rest.to_owned();
    }
    let n: usize = base.unicode_len();
    let mut out = base.to_owned();
    if n > 0 && base.get_char(n - 1) != '/' {
        out.append("/");
    }
    out.append(rest);
    out
}

} // verus!
