//! Operations on text, stated over sequences of characters.
use vstd::prelude::*;
use vstd::string::StrSliceExecFns;
use vstd::string::StringExecFns;

verus! {

/// `String::push` appends the character.
pub assume_specification[ String::push ](s: &mut String, c: char)
    ensures
        final(s)@ == old(s)@.push(c),
;

/// The lowercase form of a text.
pub uninterp spec fn lowercase(s: Seq<char>) -> Seq<char>;

/// `str::to_lowercase`: the text's lowercase form, which depends on the text
/// alone.
#[verifier::external_body]
pub(crate) fn to_lowercase(s: &str) -> (r: String)
    ensures
        r@ == lowercase(s@),
{
    s.to_lowercase()
}

/// A text in quotation marks, with its special characters escaped.
pub uninterp spec fn debug_form(s: Seq<char>) -> Seq<char>;

/// The `{:?}` form of a `str`, which depends on the text alone.
#[verifier::external_body]
pub(crate) fn debug_string(s: &str) -> (r: String)
    ensures
        r@ == debug_form(s@),
{
    format!("{s:?}")
}

/// The characters of a string, in order.
pub fn chars_of(s: &str) -> (v: Vec<char>)
    ensures
        v@ == s@,
{
    let mut v: Vec<char> = Vec::new();
    for c in it: s.chars()
        invariant
            v@ == it.seq().take(it.index() as int),
            it.seq() == s@,
    {
        v.push(c);
        proof {
            assert(it.seq().take(it.index() as int + 1) =~= it.seq().take(it.index() as int).push(
                it.seq()[it.index() as int],
            ));
        }
    }
    v
}

/// Whether two texts are the same.
pub fn str_eq(a: &str, b: &str) -> (r: bool)
    ensures
        r == (a@ == b@),
{
    a.to_owned() == b.to_owned()
}

pub fn is_empty(s: &str) -> (r: bool)
    ensures
        r == (s@.len() == 0),
{
    s.unicode_len() == 0
}

/// `pat` stands in `s` from index `i` on.
pub open spec fn occurs_at(s: Seq<char>, pat: Seq<char>, i: int) -> bool {
    0 <= i && i + pat.len() <= s.len() && s.subrange(i, i + pat.len()) == pat
}

/// `pat` stands somewhere in `s`.
pub open spec fn occurs(s: Seq<char>, pat: Seq<char>) -> bool {
    exists|i: int| occurs_at(s, pat, i)
}

/// The first place where `pat` stands in `s` is `i`.
pub open spec fn first_at(s: Seq<char>, pat: Seq<char>, i: int) -> bool {
    occurs_at(s, pat, i) && forall|j: int| 0 <= j < i ==> !occurs_at(s, pat, j)
}

/// The last place where `pat` stands in `s` is `i`.
pub open spec fn last_at(s: Seq<char>, pat: Seq<char>, i: int) -> bool {
    occurs_at(s, pat, i) && forall|j: int| i < j ==> !occurs_at(s, pat, j)
}

pub open spec fn starts_with_seq(s: Seq<char>, pat: Seq<char>) -> bool {
    pat.len() <= s.len() && s.take(pat.len() as int) == pat
}

pub open spec fn ends_with_seq(s: Seq<char>, pat: Seq<char>) -> bool {
    pat.len() <= s.len() && s.skip(s.len() - pat.len()) == pat
}

/// What follows the prefix `pat`, where `s` has it.
pub open spec fn after_prefix(s: Seq<char>, pat: Seq<char>) -> Option<Seq<char>> {
    if starts_with_seq(s, pat) {
        Some(s.skip(pat.len() as int))
    } else {
        None
    }
}

/// What precedes the suffix `pat`, where `s` has it.
pub open spec fn before_suffix(s: Seq<char>, pat: Seq<char>) -> Option<Seq<char>> {
    if ends_with_seq(s, pat) {
        Some(s.take(s.len() - pat.len()))
    } else {
        None
    }
}

/// The text before and after the first `pat`, where there is one.
pub open spec fn cut_first(s: Seq<char>, pat: Seq<char>) -> Option<(Seq<char>, Seq<char>)> {
    if occurs(s, pat) {
        let i = choose|i: int| first_at(s, pat, i);
        Some((s.take(i), s.skip(i + pat.len())))
    } else {
        None
    }
}

/// The text before and after the last `pat`, where there is one.
pub open spec fn cut_last(s: Seq<char>, pat: Seq<char>) -> Option<(Seq<char>, Seq<char>)> {
    if occurs(s, pat) {
        let i = choose|i: int| last_at(s, pat, i);
        Some((s.take(i), s.skip(i + pat.len())))
    } else {
        None
    }
}

/// The cut at a first occurrence.
pub proof fn lemma_cut_first(s: Seq<char>, pat: Seq<char>, i: int)
    requires
        first_at(s, pat, i),
    ensures
        cut_first(s, pat) == Some((s.take(i), s.skip(i + pat.len()))),
{
    assert(occurs_at(s, pat, i));
    let k = choose|k: int| first_at(s, pat, k);
    assert(k == i) by {
        if k < i {
            assert(!occurs_at(s, pat, k));
        } else if i < k {
            assert(!occurs_at(s, pat, i));
        }
    }
}

/// The character does not occur in the text.
pub open spec fn lacks(s: Seq<char>, c: char) -> bool {
    forall|i: int| 0 <= i < s.len() ==> s[i] != c
}

/// The cut behind a text that does not hold the pattern's first character.
pub proof fn lemma_cut_after(head: Seq<char>, pat: Seq<char>, tail: Seq<char>)
    requires
        pat.len() > 0,
        lacks(head, pat[0]),
    ensures
        cut_first(head + pat + tail, pat) == Some((head, tail)),
{
    let s = head + pat + tail;
    let n = head.len() as int;
    assert(s.subrange(n, n + pat.len()) =~= pat);
    assert forall|j: int| 0 <= j < n implies !occurs_at(s, pat, j) by {
        if occurs_at(s, pat, j) {
            assert(s.subrange(j, j + pat.len())[0] == s[j]);
            assert(s[j] == head[j]);
        }
    }
    assert(first_at(s, pat, n));
    lemma_cut_first(s, pat, n);
    assert(s.take(n) =~= head);
    assert(s.skip(n + pat.len()) =~= tail);
}

/// The cut at a last occurrence.
pub proof fn lemma_cut_last(s: Seq<char>, pat: Seq<char>, i: int)
    requires
        last_at(s, pat, i),
    ensures
        cut_last(s, pat) == Some((s.take(i), s.skip(i + pat.len()))),
{
    assert(occurs_at(s, pat, i));
    let k = choose|k: int| last_at(s, pat, k);
    assert(k == i) by {
        if k < i {
            assert(!occurs_at(s, pat, i));
        } else if i < k {
            assert(!occurs_at(s, pat, k));
        }
    }
}

fn matches_at(s: &Vec<char>, pat: &Vec<char>, i: usize) -> (r: bool)
    requires
        i + pat@.len() <= s@.len(),
    ensures
        r == occurs_at(s@, pat@, i as int),
{
    let ghost piece = s@.subrange(i as int, i + pat@.len());
    let len: usize = s.len();
    for k in 0..pat.len()
        invariant
            i + pat@.len() <= s@.len(),
            len == s@.len(),
            piece == s@.subrange(i as int, i + pat@.len()),
            forall|j: int| 0 <= j < k ==> s@[i + j] == #[trigger] pat@[j],
    {
        if s[i + k] != pat[k] {
            assert(piece[k as int] != pat@[k as int]);
            return false;
        }
    }
    assert(piece =~= pat@);
    true
}

/// Where `pat` first stands in `s`.
pub fn find(s: &str, pat: &str) -> (r: Option<usize>)
    ensures
        r is Some <==> occurs(s@, pat@),
        r matches Some(i) ==> first_at(s@, pat@, i as int) && cut_first(s@, pat@) == Some(
            (s@.take(i as int), s@.skip(i + pat@.len())),
        ),
{
    let sv = chars_of(s);
    let pv = chars_of(pat);
    let mut i: usize = 0;
    while i <= sv.len() && pv.len() <= sv.len() - i
        invariant
            sv@ == s@,
            pv@ == pat@,
            i <= sv@.len() + 1,
            forall|j: int| 0 <= j < i ==> !occurs_at(s@, pat@, j),
        decreases sv@.len() + 1 - i,
    {
        if matches_at(&sv, &pv, i) {
            proof {
                lemma_cut_first(s@, pat@, i as int);
            }
            return Some(i);
        }
        if i == sv.len() {
            assert(forall|j: int| j > i ==> !occurs_at(s@, pat@, j));
            return None;
        }
        i = i + 1;
    }
    None
}

/// Where `pat` last stands in `s`.
pub fn rfind(s: &str, pat: &str) -> (r: Option<usize>)
    ensures
        r is Some <==> occurs(s@, pat@),
        r matches Some(i) ==> last_at(s@, pat@, i as int) && cut_last(s@, pat@) == Some(
            (s@.take(i as int), s@.skip(i + pat@.len())),
        ),
{
    let sv = chars_of(s);
    let pv = chars_of(pat);
    if pv.len() > sv.len() {
        return None;
    }
    let mut i: usize = sv.len() - pv.len();
    loop
        invariant
            sv@ == s@,
            pv@ == pat@,
            i + pv@.len() <= sv@.len(),
            forall|j: int| i < j ==> !occurs_at(s@, pat@, j),
        decreases i,
    {
        if matches_at(&sv, &pv, i) {
            proof {
                lemma_cut_last(s@, pat@, i as int);
            }
            return Some(i);
        }
        if i == 0 {
            return None;
        }
        i = i - 1;
    }
}

/// The part of `s` before its character `n`.
fn upto<'a>(s: &'a str, n: usize) -> (r: &'a str)
    requires
        n <= s@.len(),
    ensures
        r@ == s@.take(n as int),
{
    s.substring_char(0, n)
}

/// The part of `s` from its character `n` on.
fn after<'a>(s: &'a str, n: usize) -> (r: &'a str)
    requires
        n <= s@.len(),
    ensures
        r@ == s@.skip(n as int),
{
    let len: usize = s.unicode_len();
    s.substring_char(n, len)
}

pub fn contains(s: &str, pat: &str) -> (r: bool)
    ensures
        r == occurs(s@, pat@),
{
    find(s, pat).is_some()
}

pub fn starts_with(s: &str, pat: &str) -> (r: bool)
    ensures
        r == starts_with_seq(s@, pat@),
{
    let n: usize = pat.unicode_len();
    if s.unicode_len() < n {
        return false;
    }
    str_eq(upto(s, n), pat)
}

pub fn ends_with(s: &str, pat: &str) -> (r: bool)
    ensures
        r == ends_with_seq(s@, pat@),
{
    let n: usize = pat.unicode_len();
    let len: usize = s.unicode_len();
    if len < n {
        return false;
    }
    str_eq(after(s, len - n), pat)
}

pub fn strip_prefix<'a>(s: &'a str, pat: &str) -> (r: Option<&'a str>)
    ensures
        r is Some <==> after_prefix(s@, pat@) is Some,
        r matches Some(rest) ==> after_prefix(s@, pat@) == Some(rest@),
{
    if starts_with(s, pat) {
        Some(after(s, pat.unicode_len()))
    } else {
        None
    }
}

pub fn strip_suffix<'a>(s: &'a str, pat: &str) -> (r: Option<&'a str>)
    ensures
        r is Some <==> before_suffix(s@, pat@) is Some,
        r matches Some(rest) ==> before_suffix(s@, pat@) == Some(rest@),
{
    if ends_with(s, pat) {
        Some(upto(s, s.unicode_len() - pat.unicode_len()))
    } else {
        None
    }
}

pub fn split_once<'a>(s: &'a str, pat: &str) -> (r: Option<(&'a str, &'a str)>)
    ensures
        r is Some <==> cut_first(s@, pat@) is Some,
        r matches Some((a, b)) ==> cut_first(s@, pat@) == Some((a@, b@)),
{
    let len: usize = s.unicode_len();
    match find(s, pat) {
        Some(i) => Some((upto(s, i), s.substring_char(i + pat.unicode_len(), len))),
        None => None,
    }
}

pub fn rsplit_once<'a>(s: &'a str, pat: &str) -> (r: Option<(&'a str, &'a str)>)
    ensures
        r is Some <==> cut_last(s@, pat@) is Some,
        r matches Some((a, b)) ==> cut_last(s@, pat@) == Some((a@, b@)),
{
    let len: usize = s.unicode_len();
    match rfind(s, pat) {
        Some(i) => Some((upto(s, i), s.substring_char(i + pat.unicode_len(), len))),
        None => None,
    }
}

/// `s` without any of its leading copies of `pat`.
pub open spec fn without_leading(s: Seq<char>, pat: Seq<char>) -> Seq<char>
    decreases s.len(),
{
    if pat.len() > 0 && starts_with_seq(s, pat) {
        without_leading(s.skip(pat.len() as int), pat)
    } else {
        s
    }
}

pub fn trim_start_matches<'a>(s: &'a str, pat: &str) -> (r: &'a str)
    requires
        pat@.len() > 0,
    ensures
        r@ == without_leading(s@, pat@),
{
    let mut rest = s;
    while starts_with(rest, pat)
        invariant
            pat@.len() > 0,
            without_leading(rest@, pat@) == without_leading(s@, pat@),
        decreases rest@.len(),
    {
        rest = after(rest, pat.unicode_len());
    }
    rest
}

/// Unicode's White_Space property.
pub open spec fn is_space(c: char) -> bool {
    ||| 0x9 <= c as u32 <= 0xd
    ||| c as u32 == 0x20
    ||| c as u32 == 0x85
    ||| c as u32 == 0xa0
    ||| c as u32 == 0x1680
    ||| 0x2000 <= c as u32 <= 0x200a
    ||| c as u32 == 0x2028
    ||| c as u32 == 0x2029
    ||| c as u32 == 0x202f
    ||| c as u32 == 0x205f
    ||| c as u32 == 0x3000
}

pub fn is_whitespace(c: char) -> (r: bool)
    ensures
        r == is_space(c),
{
    let n: u32 = c as u32;
    (0x9 <= n && n <= 0xd) || n == 0x20 || n == 0x85 || n == 0xa0 || n == 0x1680 || (0x2000 <= n
        && n <= 0x200a) || n == 0x2028 || n == 0x2029 || n == 0x202f || n == 0x205f || n == 0x3000
}

/// How many white-space characters `s` begins with.
pub open spec fn leading_spaces(s: Seq<char>) -> nat
    decreases s.len(),
{
    if s.len() > 0 && is_space(s[0]) {
        1 + leading_spaces(s.skip(1))
    } else {
        0
    }
}

/// How many characters other than white space `s` begins with.
pub open spec fn leading_word(s: Seq<char>) -> nat
    decreases s.len(),
{
    if s.len() > 0 && !is_space(s[0]) {
        1 + leading_word(s.skip(1))
    } else {
        0
    }
}

/// How many white-space characters `s` ends with.
pub open spec fn trailing_spaces(s: Seq<char>) -> nat
    decreases s.len(),
{
    if s.len() > 0 && is_space(s.last()) {
        1 + trailing_spaces(s.drop_last())
    } else {
        0
    }
}

pub open spec fn trimmed_start(s: Seq<char>) -> Seq<char> {
    s.skip(leading_spaces(s) as int)
}

pub open spec fn trimmed_end(s: Seq<char>) -> Seq<char> {
    s.take(s.len() - trailing_spaces(s))
}

/// `s` without white space at either end.
pub open spec fn trimmed(s: Seq<char>) -> Seq<char> {
    trimmed_end(trimmed_start(s))
}

pub proof fn lemma_leading_bounds(s: Seq<char>)
    ensures
        leading_spaces(s) <= s.len(),
        leading_word(s) <= s.len(),
        leading_spaces(s) < s.len() ==> !is_space(s[leading_spaces(s) as int]),
    decreases s.len(),
{
    if s.len() > 0 {
        lemma_leading_bounds(s.skip(1));
    }
}

fn count_leading(v: &Vec<char>, from: usize, space: bool) -> (n: usize)
    requires
        from <= v@.len(),
    ensures
        n <= v@.len() - from,
        space ==> n == leading_spaces(v@.skip(from as int)),
        !space ==> n == leading_word(v@.skip(from as int)),
{
    let mut n: usize = 0;
    let len: usize = v.len();
    proof {
        lemma_leading_bounds(v@.skip(from as int));
    }
    while from + n < len && is_whitespace(v[from + n]) == space
        invariant
            from + n <= v@.len(),
            len == v@.len(),
            space ==> leading_spaces(v@.skip(from as int)) == n + leading_spaces(
                v@.skip(from + n),
            ),
            !space ==> leading_word(v@.skip(from as int)) == n + leading_word(v@.skip(from + n)),
        decreases v@.len() - from - n,
    {
        proof {
            let t = v@.skip(from + n);
            assert(t[0] == v@[from + n]);
            assert(t.skip(1) =~= v@.skip(from + n + 1));
        }
        n = n + 1;
    }
    n
}

pub fn trim<'a>(s: &'a str) -> (r: &'a str)
    ensures
        r@ == trimmed(s@),
{
    let v = chars_of(s);
    assert(v@.skip(0) =~= v@);
    let lead: usize = count_leading(&v, 0, true);
    let ghost t = s@.skip(lead as int);
    let mut end: usize = v.len();
    proof {
        assert(t.take(t.len() as int) =~= t);
    }
    while end > lead && is_whitespace(v[end - 1])
        invariant
            v@ == s@,
            lead <= end <= v@.len(),
            t == s@.skip(lead as int),
            trailing_spaces(t) == (v@.len() - end) + trailing_spaces(t.take(end - lead)),
        decreases end,
    {
        proof {
            let u = t.take(end - lead);
            assert(u.last() == v@[end - 1]);
            assert(u.drop_last() =~= t.take(end - lead - 1));
        }
        end = end - 1;
    }
    proof {
        let u = t.take(end - lead);
        assert(trailing_spaces(u) == 0) by {
            if u.len() > 0 {
                assert(u.last() == v@[end - 1]);
            }
        }
        assert(s@.subrange(lead as int, end as int) =~= trimmed(s@));
    }
    s.substring_char(lead, end)
}

/// How many copies of `c` the text begins with.
pub open spec fn leading_copies(s: Seq<char>, c: char) -> nat
    decreases s.len(),
{
    if s.len() > 0 && s[0] == c {
        1 + leading_copies(s.skip(1), c)
    } else {
        0
    }
}

/// How many copies of `c` the text ends with.
pub open spec fn trailing_copies(s: Seq<char>, c: char) -> nat
    decreases s.len(),
{
    if s.len() > 0 && s.last() == c {
        1 + trailing_copies(s.drop_last(), c)
    } else {
        0
    }
}

/// `s` without the copies of `c` at either end.
pub open spec fn without_marks(s: Seq<char>, c: char) -> Seq<char> {
    let t = s.skip(leading_copies(s, c) as int);
    t.take(t.len() - trailing_copies(t, c))
}

pub fn trim_matches<'a>(s: &'a str, c: char) -> (r: &'a str)
    ensures
        r@ == without_marks(s@, c),
{
    let v = chars_of(s);
    let mut lead: usize = 0;
    assert(v@.skip(0) =~= v@);
    while lead < v.len() && v[lead] == c
        invariant
            v@ == s@,
            lead <= v@.len(),
            leading_copies(s@, c) == lead + leading_copies(v@.skip(lead as int), c),
        decreases v@.len() - lead,
    {
        proof {
            let t = v@.skip(lead as int);
            assert(t[0] == v@[lead as int]);
            assert(t.skip(1) =~= v@.skip(lead + 1));
        }
        lead = lead + 1;
    }
    let ghost t = s@.skip(lead as int);
    proof {
        if t.len() > 0 {
            assert(t[0] == v@[lead as int]);
        }
        assert(leading_copies(t, c) == 0);
        assert(t.take(t.len() as int) =~= t);
    }
    let mut end: usize = v.len();
    while end > lead && v[end - 1] == c
        invariant
            v@ == s@,
            lead <= end <= v@.len(),
            t == s@.skip(lead as int),
            trailing_copies(t, c) == (v@.len() - end) + trailing_copies(t.take(end - lead), c),
        decreases end,
    {
        proof {
            let u = t.take(end - lead);
            assert(u.last() == v@[end - 1]);
            assert(u.drop_last() =~= t.take(end - lead - 1));
        }
        end = end - 1;
    }
    proof {
        let u = t.take(end - lead);
        assert(trailing_copies(u, c) == 0) by {
            if u.len() > 0 {
                assert(u.last() == v@[end - 1]);
            }
        }
        assert(s@.subrange(lead as int, end as int) =~= without_marks(s@, c));
    }
    s.substring_char(lead, end)
}

/// The runs of characters other than white space, in order.
pub open spec fn words(s: Seq<char>) -> Seq<Seq<char>>
    decreases s.len(),
{
    let t = trimmed_start(s);
    let n = leading_word(t);
    if t.len() == 0 || n == 0 {
        seq![]
    } else {
        proof {
            lemma_leading_bounds(s);
            lemma_leading_bounds(t);
        }
        seq![t.take(n as int)] + words(t.skip(n as int))
    }
}

/// The views of the given slices.
pub open spec fn views(v: Seq<&str>) -> Seq<Seq<char>> {
    Seq::new(v.len(), |i: int| v[i]@)
}

/// The views of the given strings.
pub open spec fn texts(v: Seq<String>) -> Seq<Seq<char>> {
    Seq::new(v.len(), |i: int| v[i]@)
}

pub fn split_whitespace<'a>(s: &'a str) -> (r: Vec<&'a str>)
    ensures
        views(r@) == words(s@),
{
    let v = chars_of(s);
    let mut out: Vec<&'a str> = Vec::new();
    let mut at: usize = 0;
    proof {
        assert(v@.skip(0) =~= v@);
        assert(views(out@) =~= seq![]);
        assert(seq![] + words(v@) =~= words(v@));
    }
    while at < v.len()
        invariant
            v@ == s@,
            at <= v@.len(),
            words(s@) == views(out@) + words(v@.skip(at as int)),
        decreases v@.len() - at,
    {
        let ghost rest = v@.skip(at as int);
        let lead: usize = count_leading(&v, at, true);
        let ghost t = trimmed_start(rest);
        proof {
            lemma_leading_bounds(rest);
            assert(t =~= v@.skip(at + lead));
        }
        let start: usize = at + lead;
        let n: usize = count_leading(&v, start, false);
        if n == 0 {
            proof {
                assert(words(rest) =~= seq![]);
                assert(words(s@) =~= views(out@));
            }
            return out;
        }
        let word = s.substring_char(start, start + n);
        let ghost before = out@;
        out.push(word);
        proof {
            assert(word@ =~= t.take(n as int));
            assert(t.skip(n as int) =~= v@.skip(start + n));
            assert(views(out@) =~= views(before) + seq![word@]);
            assert(words(rest) == seq![t.take(n as int)] + words(t.skip(n as int)));
            assert(words(s@) =~= views(out@) + words(v@.skip(start + n)));
        }
        at = start + n;
    }
    proof {
        assert(v@.skip(at as int) =~= seq![]);
        assert(words(v@.skip(at as int)) =~= seq![]);
        assert(words(s@) =~= views(out@));
    }
    out
}

/// The first cut leaves less on the right than there was.
pub proof fn lemma_cut_first_shrinks(s: Seq<char>, pat: Seq<char>)
    requires
        pat.len() > 0,
        cut_first(s, pat) is Some,
    ensures
        (cut_first(s, pat)->0).1.len() < s.len(),
        (cut_first(s, pat)->0).0.len() < s.len(),
{
    let i = choose|i: int| occurs_at(s, pat, i);
    lemma_first_exists(s, pat, i);
}

/// Where a pattern occurs, it occurs for a first time.
pub proof fn lemma_first_exists(s: Seq<char>, pat: Seq<char>, i: int)
    requires
        occurs_at(s, pat, i),
    ensures
        exists|j: int| first_at(s, pat, j),
    decreases i,
{
    if exists|j: int| 0 <= j < i && occurs_at(s, pat, j) {
        let j = choose|j: int| 0 <= j < i && occurs_at(s, pat, j);
        lemma_first_exists(s, pat, j);
    } else {
        assert(first_at(s, pat, i));
    }
}

/// The texts between the occurrences of `pat`, in order.
pub open spec fn pieces(s: Seq<char>, pat: Seq<char>) -> Seq<Seq<char>>
    decreases s.len(),
{
    if pat.len() > 0 && cut_first(s, pat) is Some {
        let (head, tail) = cut_first(s, pat)->0;
        proof {
            lemma_cut_first_shrinks(s, pat);
        }
        seq![head] + pieces(tail, pat)
    } else {
        seq![s]
    }
}

pub proof fn lemma_pieces_nonempty(s: Seq<char>, pat: Seq<char>)
    ensures
        pieces(s, pat).len() > 0,
{
}

pub fn split<'a>(s: &'a str, pat: &str) -> (r: Vec<&'a str>)
    requires
        pat@.len() > 0,
    ensures
        views(r@) == pieces(s@, pat@),
{
    let mut out: Vec<&'a str> = Vec::new();
    let mut rest = s;
    assert(views(out@) + pieces(s@, pat@) =~= pieces(s@, pat@));
    loop
        invariant
            pat@.len() > 0,
            pieces(s@, pat@) == views(out@) + pieces(rest@, pat@),
        decreases rest@.len(),
    {
        let ghost before = out@;
        match split_once(rest, pat) {
            Some((head, tail)) => {
                out.push(head);
                proof {
                    lemma_cut_first_shrinks(rest@, pat@);
                    assert(views(out@) =~= views(before) + seq![head@]);
                    assert(views(before) + (seq![head@] + pieces(tail@, pat@)) =~= views(out@)
                        + pieces(tail@, pat@));
                }
                rest = tail;
            },
            None => {
                out.push(rest);
                proof {
                    assert(views(out@) =~= views(before) + seq![rest@]);
                }
                return out;
            },
        }
    }
}

/// A line without the carriage return before its end.
pub open spec fn without_return(s: Seq<char>) -> Seq<char> {
    if s.len() > 0 && s.last() == '\r' {
        s.drop_last()
    } else {
        s
    }
}

/// The lines of a text: each ends at a line feed, with or without a carriage
/// return before it, or at the end of the text.
pub open spec fn text_lines(s: Seq<char>) -> Seq<Seq<char>>
    decreases s.len(),
{
    if s.len() == 0 {
        seq![]
    } else if cut_first(s, seq!['\n']) is Some {
        let (head, tail) = cut_first(s, seq!['\n'])->0;
        proof {
            lemma_cut_first_shrinks(s, seq!['\n']);
        }
        seq![without_return(head)] + text_lines(tail)
    } else {
        seq![s]
    }
}

pub fn lines<'a>(s: &'a str) -> (r: Vec<&'a str>)
    ensures
        views(r@) == text_lines(s@),
{
    let mut out: Vec<&'a str> = Vec::new();
    let mut rest = s;
    proof {
        reveal_strlit("\n");
        reveal_strlit("\r");
        assert("\n"@ =~= seq!['\n']);
        assert(views(out@) + text_lines(s@) =~= text_lines(s@));
    }
    while rest.unicode_len() > 0
        invariant
            "\n"@ == seq!['\n'],
            "\r"@.len() == 1,
            "\r"@[0] == '\r',
            text_lines(s@) == views(out@) + text_lines(rest@),
        decreases rest@.len(),
    {
        let ghost before = out@;
        match split_once(rest, "\n") {
            Some((head, tail)) => {
                let line = match strip_suffix(head, "\r") {
                    Some(line) => line,
                    None => head,
                };
                proof {
                    lemma_cut_first_shrinks(rest@, seq!['\n']);
                    assert(line@ == without_return(head@)) by {
                        if head@.len() > 0 {
                            assert(head@.skip(head@.len() - 1)[0] == head@.last());
                            if head@.last() == '\r' {
                                assert(head@.skip(head@.len() - 1) =~= "\r"@);
                            }
                        }
                    }
                }
                out.push(line);
                proof {
                    assert(views(out@) =~= views(before) + seq![line@]);
                    assert(views(before) + (seq![line@] + text_lines(tail@)) =~= views(out@)
                        + text_lines(tail@));
                }
                rest = tail;
            },
            None => {
                out.push(rest);
                proof {
                    assert(views(out@) =~= views(before) + seq![rest@]);
                }
                return out;
            },
        }
    }
    assert(text_lines(s@) =~= views(out@));
    out
}

/// The texts with `sep` between neighbours.
pub open spec fn joined(v: Seq<Seq<char>>, sep: Seq<char>) -> Seq<char>
    decreases v.len(),
{
    if v.len() == 0 {
        seq![]
    } else if v.len() == 1 {
        v[0]
    } else {
        joined(v.drop_last(), sep) + sep + v.last()
    }
}

pub fn join(v: &Vec<&str>, sep: &str) -> (r: String)
    ensures
        r@ == joined(views(v@), sep@),
{
    let mut out = String::new();
    let ghost vs = views(v@);
    for i in 0..v.len()
        invariant
            vs == views(v@),
            out@ == joined(vs.take(i as int), sep@),
    {
        if i > 0 {
            out.append(sep);
        }
        out.append(v[i]);
        proof {
            let t = vs.take(i as int + 1);
            assert(t.drop_last() =~= vs.take(i as int));
            assert(t.last() == v@[i as int]@);
            assert(seq![] + v@[i as int]@ =~= v@[i as int]@);
        }
    }
    assert(vs.take(v@.len() as int) =~= vs);
    out
}

/// The text is not empty and has no white space.
pub open spec fn is_word(s: Seq<char>) -> bool {
    s.len() > 0 && forall|i: int| 0 <= i < s.len() ==> !is_space(#[trigger] s[i])
}

proof fn lemma_leading_word(w: Seq<char>, rest: Seq<char>)
    requires
        forall|i: int| 0 <= i < w.len() ==> !is_space(#[trigger] w[i]),
        rest.len() == 0 || is_space(rest[0]),
    ensures
        leading_word(w + rest) == w.len(),
    decreases w.len(),
{
    let s = w + rest;
    if w.len() == 0 {
        assert(s =~= rest);
    } else {
        assert(s[0] == w[0]);
        assert(s.skip(1) =~= w.skip(1) + rest);
        lemma_leading_word(w.skip(1), rest);
    }
}

pub(crate) proof fn lemma_word_before(w: Seq<char>, rest: Seq<char>)
    requires
        is_word(w),
        rest.len() == 0 || is_space(rest[0]),
    ensures
        words(w + rest) == seq![w] + words(rest),
{
    let s = w + rest;
    assert(s[0] == w[0]);
    assert(leading_spaces(s) == 0);
    assert(trimmed_start(s) =~= s);
    lemma_leading_word(w, rest);
    assert(s.take(w.len() as int) =~= w);
    assert(s.skip(w.len() as int) =~= rest);
}

pub(crate) proof fn lemma_words_after_space(rest: Seq<char>, c: char)
    requires
        is_space(c),
    ensures
        words(seq![c] + rest) == words(rest),
{
    let s = seq![c] + rest;
    assert(s.skip(1) =~= rest);
    lemma_leading_bounds(rest);
    assert(leading_spaces(s) == 1 + leading_spaces(rest));
    assert(trimmed_start(s) =~= trimmed_start(rest));
}

pub proof fn lemma_joined_front(v: Seq<Seq<char>>, sep: Seq<char>)
    requires
        v.len() >= 2,
    ensures
        joined(v, sep) == v[0] + sep + joined(v.skip(1), sep),
    decreases v.len(),
{
    if v.len() == 2 {
        assert(v.drop_last() =~= seq![v[0]]);
        assert(v.skip(1) =~= seq![v[1]]);
        assert(joined(v.drop_last(), sep) == v[0]);
        assert(joined(v.skip(1), sep) == v.last());
    } else {
        lemma_joined_front(v.drop_last(), sep);
        assert(v.drop_last().skip(1) =~= v.skip(1).drop_last());
        assert(joined(v, sep) =~= v[0] + sep + joined(v.skip(1), sep));
    }
}

/// Words that are joined by spaces are told apart again.
pub proof fn lemma_words_of_joined(v: Seq<Seq<char>>)
    requires
        forall|i: int| 0 <= i < v.len() ==> is_word(#[trigger] v[i]),
    ensures
        words(joined(v, " "@)) == v,
    decreases v.len(),
{
    reveal_strlit(" ");
    if v.len() == 0 {
        assert(words(joined(v, " "@)) =~= v);
    } else if v.len() == 1 {
        lemma_words_of_word(v[0]);
        assert(seq![v[0]] =~= v);
    } else {
        let tail = joined(v.skip(1), " "@);
        lemma_joined_front(v, " "@);
        assert(" "@ =~= seq![' ']);
        assert(v[0] + " "@ + tail =~= v[0] + (seq![' '] + tail));
        lemma_word_before(v[0], seq![' '] + tail);
        lemma_words_after_space(tail, ' ');
        lemma_words_of_joined(v.skip(1));
        assert(words(joined(v, " "@)) =~= v);
    }
}

/// Words are not empty and have no white space.
pub proof fn lemma_words_are_words(s: Seq<char>)
    ensures
        forall|i: int| 0 <= i < words(s).len() ==> is_word(#[trigger] words(s)[i]),
    decreases s.len(),
{
    let t = trimmed_start(s);
    let n = leading_word(t);
    lemma_leading_bounds(s);
    lemma_leading_bounds(t);
    if t.len() > 0 && n > 0 {
        lemma_words_are_words(t.skip(n as int));
        lemma_leading_word_has_no_space(t);
        assert forall|i: int| 0 <= i < words(s).len() implies is_word(#[trigger] words(s)[i]) by {
            if i == 0 {
                assert(words(s)[0] == t.take(n as int));
            } else {
                assert(words(s)[i] == words(t.skip(n as int))[i - 1]);
            }
        }
    }
}

/// Words that are kept are words, and the ones to be kept.
pub proof fn lemma_kept_words(s: Seq<Seq<char>>, p: spec_fn(Seq<char>) -> bool)
    requires
        forall|i: int| 0 <= i < s.len() ==> is_word(#[trigger] s[i]),
    ensures
        forall|i: int|
            0 <= i < s.filter(p).len() ==> is_word(#[trigger] s.filter(p)[i]) && p(s.filter(p)[i]),
    decreases s.len(),
{
    reveal(Seq::filter);
    if s.len() > 0 {
        let rest = s.drop_last();
        lemma_kept_words(rest, p);
        assert(is_word(s[s.len() - 1]));
        assert forall|i: int| 0 <= i < s.filter(p).len() implies is_word(#[trigger] s.filter(p)[i])
            && p(s.filter(p)[i]) by {
            if i < rest.filter(p).len() {
                assert(s.filter(p)[i] == rest.filter(p)[i]);
            }
        }
    }
}

proof fn lemma_leading_word_has_no_space(s: Seq<char>)
    ensures
        leading_word(s) <= s.len(),
        forall|i: int| 0 <= i < leading_word(s) ==> !is_space(#[trigger] s[i]),
        leading_word(s) < s.len() ==> is_space(s[leading_word(s) as int]),
    decreases s.len(),
{
    if s.len() > 0 && !is_space(s[0]) {
        let rest = s.skip(1);
        lemma_leading_word_has_no_space(rest);
        assert forall|i: int| 0 <= i < leading_word(s) implies !is_space(#[trigger] s[i]) by {
            if i > 0 {
                assert(s[i] == rest[i - 1]);
            }
        }
    }
}

/// The words of two texts with a space between them.
pub proof fn lemma_words_of_pair(a: Seq<char>, b: Seq<char>)
    ensures
        words(a + " "@ + b) == words(a) + words(b),
    decreases a.len(),
{
    reveal_strlit(" ");
    assert(" "@ =~= seq![' ']);
    let s = a + " "@ + b;
    if a.len() == 0 {
        assert(s =~= seq![' '] + b);
        lemma_words_after_space(b, ' ');
        assert(words(a) =~= seq![]);
        assert(words(a) + words(b) =~= words(b));
    } else if is_space(a[0]) {
        let rest = a.skip(1);
        assert(a =~= seq![a[0]] + rest);
        assert(s =~= seq![a[0]] + (rest + " "@ + b));
        lemma_words_after_space(rest, a[0]);
        lemma_words_after_space(rest + " "@ + b, a[0]);
        lemma_words_of_pair(rest, b);
    } else {
        lemma_leading_word_has_no_space(a);
        let n = leading_word(a) as int;
        let w = a.take(n);
        let rest = a.skip(n);
        assert(a =~= w + rest);
        assert(s =~= w + (rest + " "@ + b));
        lemma_word_before(w, rest);
        lemma_word_before(w, rest + " "@ + b);
        lemma_words_of_pair(rest, b);
        assert(words(s) =~= words(a) + words(b));
    }
}

/// A word is its only word.
pub proof fn lemma_words_of_word(w: Seq<char>)
    requires
        is_word(w),
    ensures
        words(w) == seq![w],
{
    lemma_word_before(w, seq![]);
    assert(w + seq![] =~= w);
    assert(words(Seq::<char>::empty()) =~= seq![]);
    assert(words(w) =~= seq![w]);
}

/// `s` with `to` in place of every `from`.
pub open spec fn replaced(s: Seq<char>, from: char, to: Seq<char>) -> Seq<char>
    decreases s.len(),
{
    if s.len() == 0 {
        seq![]
    } else {
        replaced(s.drop_last(), from, to) + if s.last() == from {
            to
        } else {
            seq![s.last()]
        }
    }
}

pub fn replace(s: &str, from: char, to: &str) -> (r: String)
    ensures
        r@ == replaced(s@, from, to@),
{
    let v = chars_of(s);
    let mut out = String::new();
    for i in 0..v.len()
        invariant
            v@ == s@,
            out@ == replaced(v@.take(i as int), from, to@),
    {
        proof {
            let t = v@.take(i as int + 1);
            assert(t.drop_last() =~= v@.take(i as int));
            assert(t.last() == v@[i as int]);
        }
        if v[i] == from {
            out.append(to);
        } else {
            out.push(v[i]);
            assert(out@ =~= replaced(v@.take(i as int), from, to@) + seq![v@[i as int]]);
        }
    }
    assert(v@.take(v@.len() as int) =~= v@);
    out
}

/// The decimal digit of a number below ten.
pub open spec fn digit(n: nat) -> char {
    (48 + n) as char
}

pub open spec fn is_digit(c: char) -> bool {
    '0' <= c <= '9'
}

/// A number's decimal digits.
pub open spec fn digits(n: nat) -> Seq<char>
    decreases n,
{
    if n < 10 {
        seq![digit(n)]
    } else {
        digits(n / 10).push(digit(n % 10))
    }
}

/// A number in decimal, with a minus sign where it is negative.
pub open spec fn decimal(n: int) -> Seq<char> {
    if n < 0 {
        seq!['-'] + digits((-n) as nat)
    } else {
        digits(n as nat)
    }
}

fn digit_char(n: u128) -> (c: char)
    requires
        n < 10,
    ensures
        c == digit(n as nat),
{
    match n {
        0 => '0',
        1 => '1',
        2 => '2',
        3 => '3',
        4 => '4',
        5 => '5',
        6 => '6',
        7 => '7',
        8 => '8',
        _ => '9',
    }
}

fn push_digits(out: &mut String, n: u128)
    ensures
        final(out)@ == old(out)@ + digits(n as nat),
    decreases n,
{
    if n >= 10 {
        push_digits(out, n / 10);
    }
    let ghost before = out@;
    out.push(digit_char(n % 10));
    proof {
        if n >= 10 {
            assert(out@ =~= old(out)@ + digits(n as nat));
        } else {
            assert(out@ =~= old(out)@ + seq![digit(n as nat)]);
        }
    }
}

/// A number in decimal.
pub fn int_to_string(n: i64) -> (r: String)
    ensures
        r@ == decimal(n as int),
{
    let mut out = String::new();
    if n < 0 {
        out.push('-');
        let size: u128 = (-(n as i128)) as u128;
        push_digits(&mut out, size);
        assert(out@ =~= seq!['-'] + digits((-n) as nat));
    } else {
        push_digits(&mut out, n as u128);
        assert(out@ =~= digits(n as nat));
    }
    out
}

/// A count in decimal.
pub fn count_to_string(n: usize) -> (r: String)
    ensures
        r@ == decimal(n as int),
{
    natural_to_string(n as u128)
}

/// A natural number in decimal.
pub fn natural_to_string(n: u128) -> (r: String)
    ensures
        r@ == decimal(n as int),
{
    let mut out = String::new();
    push_digits(&mut out, n);
    assert(out@ =~= digits(n as nat));
    out
}

pub open spec fn all_digits(s: Seq<char>) -> bool {
    forall|i: int| 0 <= i < s.len() ==> is_digit(#[trigger] s[i])
}

/// The value of a run of digits.
pub open spec fn digits_value(s: Seq<char>) -> nat
    decreases s.len(),
{
    if s.len() == 0 {
        0
    } else {
        10 * digits_value(s.drop_last()) + (s.last() as u32 - 48) as nat
    }
}

/// A number's digits are digits, and have the number for their value.
pub proof fn lemma_digits_are_read_back(n: nat)
    ensures
        all_digits(digits(n)),
        digits(n).len() > 0,
        digits_value(digits(n)) == n,
    decreases n,
{
    if n < 10 {
        let s = digits(n);
        assert(s.drop_last() =~= seq![]);
        assert(digits_value(seq![]) == 0);
        assert(s.last() == digit(n));
    } else {
        lemma_digits_are_read_back(n / 10);
        let s = digits(n);
        assert(s.drop_last() =~= digits(n / 10));
        assert(s.last() == digit(n % 10));
        assert(is_digit(digit(n % 10)));
        assert forall|i: int| 0 <= i < s.len() implies is_digit(#[trigger] s[i]) by {
            if i < s.len() - 1 {
                assert(s[i] == digits(n / 10)[i]);
            }
        }
    }
}

/// A number as it may be written: digits, at least one, after a sign or none.
pub open spec fn number_value(s: Seq<char>) -> Option<int> {
    let signed = s.len() > 0 && (s[0] == '-' || s[0] == '+');
    let body = if signed {
        s.skip(1)
    } else {
        s
    };
    if body.len() == 0 || !all_digits(body) {
        None
    } else if signed && s[0] == '-' {
        Some(-(digits_value(body) as int))
    } else {
        Some(digits_value(body) as int)
    }
}

/// The number that a text stands for, where it fits.
pub open spec fn parsed_i64(s: Seq<char>) -> Option<i64> {
    match number_value(s) {
        Some(n) => if i64::MIN <= n <= i64::MAX {
            Some(n as i64)
        } else {
            None
        },
        None => None,
    }
}

/// Whether every character is an ASCII digit.
pub fn is_all_digits(s: &str) -> (r: bool)
    ensures
        r == all_digits(s@),
{
    let v = chars_of(s);
    for i in 0..v.len()
        invariant
            v@ == s@,
            forall|j: int| 0 <= j < i ==> is_digit(#[trigger] s@[j]),
    {
        if !('0' <= v[i] && v[i] <= '9') {
            assert(!is_digit(s@[i as int]));
            return false;
        }
    }
    true
}

proof fn lemma_digits_value_grows(s: Seq<char>, k: int)
    requires
        0 <= k <= s.len(),
        all_digits(s),
    ensures
        digits_value(s.take(k)) <= digits_value(s),
    decreases s.len() - k,
{
    if k < s.len() {
        lemma_digits_value_grows(s, k + 1);
        assert(s.take(k + 1).drop_last() =~= s.take(k));
        assert(is_digit(s[k]));
    } else {
        assert(s.take(k) =~= s);
    }
}

/// Read a decimal number.
pub fn parse_i64(s: &str) -> (r: Option<i64>)
    ensures
        r == parsed_i64(s@),
{
    let len: usize = s.unicode_len();
    if len == 0 {
        return None;
    }
    let first: char = s.get_char(0);
    let signed: bool = first == '-' || first == '+';
    let body = if signed {
        s.substring_char(1, len)
    } else {
        s
    };
    let limit: u64 = if first == '-' {
        9223372036854775808
    } else {
        9223372036854775807
    };
    if body.unicode_len() == 0 || !is_all_digits(body) {
        return None;
    }
    let v = chars_of(body);
    let mut n: u64 = 0;
    for i in 0..v.len()
        invariant
            v@ == body@,
            all_digits(body@),
            n == digits_value(body@.take(i as int)),
            n <= limit,
            limit <= 9223372036854775808,
            digits_value(body@) > limit ==> parsed_i64(s@) is None,
    {
        let d: u64 = v[i] as u64 - 48;
        proof {
            assert(is_digit(body@[i as int]));
            assert(body@.take(i as int + 1).drop_last() =~= body@.take(i as int));
            lemma_digits_value_grows(body@, i as int + 1);
        }
        let next: u128 = n as u128 * 10 + d as u128;
        if next > limit as u128 {
            return None;
        }
        n = next as u64;
    }
    assert(body@.take(body@.len() as int) =~= body@);
    if first == '-' {
        Some((-(n as i128)) as i64)
    } else {
        Some(n as i64)
    }
}

/// An ASCII capital letter as its small one; any other character as it is.
pub open spec fn ascii_lower(c: char) -> char {
    if 'A' <= c <= 'Z' {
        (c as u32 + 32) as char
    } else {
        c
    }
}

/// The same but for the case of ASCII letters.
pub open spec fn same_ignoring_case(a: Seq<char>, b: Seq<char>) -> bool {
    a.len() == b.len() && forall|i: int|
        0 <= i < a.len() ==> ascii_lower(#[trigger] a[i]) == ascii_lower(b[i])
}

fn lower_code(c: char) -> (n: u32)
    ensures
        n == ascii_lower(c) as u32,
{
    if 'A' <= c && c <= 'Z' {
        c as u32 + 32
    } else {
        c as u32
    }
}

pub fn eq_ignore_ascii_case(a: &str, b: &str) -> (r: bool)
    ensures
        r == same_ignoring_case(a@, b@),
{
    let x = chars_of(a);
    let y = chars_of(b);
    if x.len() != y.len() {
        return false;
    }
    for i in 0..x.len()
        invariant
            x@ == a@,
            y@ == b@,
            x@.len() == y@.len(),
            forall|j: int| 0 <= j < i ==> ascii_lower(#[trigger] a@[j]) == ascii_lower(b@[j]),
    {
        if lower_code(x[i]) != lower_code(y[i]) {
            assert(ascii_lower(a@[i as int]) != ascii_lower(b@[i as int]));
            return false;
        }
    }
    true
}

pub open spec fn spaces(n: nat) -> Seq<char> {
    Seq::new(n, |i: int| ' ')
}

/// `s`, with spaces after it up to `width` characters.
pub open spec fn padded(s: Seq<char>, width: nat) -> Seq<char> {
    if s.len() >= width {
        s
    } else {
        s + spaces((width - s.len()) as nat)
    }
}

pub fn pad_right(s: &str, width: usize) -> (r: String)
    ensures
        r@ == padded(s@, width as nat),
{
    let mut out = s.to_owned();
    let mut n: usize = s.unicode_len();
    assert(out@ =~= s@ + spaces(0));
    let ghost start = s@.len();
    while n < width
        invariant
            start == s@.len(),
            start <= n,
            n <= width || n == start,
            out@ == s@ + spaces((n - start) as nat),
        decreases width - n,
    {
        out.push(' ');
        assert(out@ =~= s@ + spaces((n + 1 - start) as nat));
        n = n + 1;
    }
    assert(s@ + spaces(0) =~= s@);
    out
}

/// Whether one of the strings is the given text.
pub fn contains_text(v: &Vec<String>, s: &str) -> (r: bool)
    ensures
        r == texts(v@).contains(s@),
{
    for i in 0..v.len()
        invariant
            forall|j: int| 0 <= j < i ==> (#[trigger] v@[j])@ != s@,
    {
        if str_eq(v[i].as_str(), s) {
            assert(texts(v@)[i as int] == s@);
            return true;
        }
    }
    proof {
        assert(!texts(v@).contains(s@)) by {
            if texts(v@).contains(s@) {
                let j = choose|j: int| 0 <= j < texts(v@).len() && texts(v@)[j] == s@;
                assert(v@[j]@ == s@);
            }
        }
    }
    false
}

/// `a` comes before `b` in the order of their characters.
pub open spec fn comes_before(a: Seq<char>, b: Seq<char>) -> bool
    decreases b.len(),
{
    if b.len() == 0 {
        false
    } else if a.len() == 0 {
        true
    } else if a[0] != b[0] {
        a[0] < b[0]
    } else {
        comes_before(a.skip(1), b.skip(1))
    }
}

/// Of two different texts one comes before the other.
pub proof fn lemma_order_total(a: Seq<char>, b: Seq<char>)
    ensures
        comes_before(a, b) || comes_before(b, a) || a == b,
        !(comes_before(a, b) && comes_before(b, a)),
    decreases a.len() + b.len(),
{
    if a.len() > 0 && b.len() > 0 && a[0] == b[0] {
        lemma_order_total(a.skip(1), b.skip(1));
        if a.skip(1) == b.skip(1) {
            assert(a =~= seq![a[0]] + a.skip(1));
            assert(b =~= seq![b[0]] + b.skip(1));
        }
    } else if a.len() == 0 && b.len() == 0 {
        assert(a =~= b);
    }
}

pub proof fn lemma_order_transitive(a: Seq<char>, b: Seq<char>, c: Seq<char>)
    requires
        comes_before(a, b),
        comes_before(b, c),
    ensures
        comes_before(a, c),
    decreases c.len(),
{
    if a.len() > 0 && b.len() > 0 && c.len() > 0 && a[0] == b[0] && b[0] == c[0] {
        lemma_order_transitive(a.skip(1), b.skip(1), c.skip(1));
    }
}

/// Whether `a` comes before `b` in the order of their characters.
pub fn is_before(a: &str, b: &str) -> (r: bool)
    ensures
        r == comes_before(a@, b@),
{
    let x = chars_of(a);
    let y = chars_of(b);
    let mut i: usize = 0;
    proof {
        assert(x@.skip(0) =~= x@);
        assert(y@.skip(0) =~= y@);
    }
    while i < x.len() && i < y.len() && x[i] == y[i]
        invariant
            x@ == a@,
            y@ == b@,
            i <= x@.len(),
            i <= y@.len(),
            comes_before(a@, b@) == comes_before(x@.skip(i as int), y@.skip(i as int)),
        decreases x@.len() - i,
    {
        proof {
            assert(x@.skip(i as int).skip(1) =~= x@.skip(i + 1));
            assert(y@.skip(i as int).skip(1) =~= y@.skip(i + 1));
        }
        i = i + 1;
    }
    if i >= y.len() {
        false
    } else if i >= x.len() {
        true
    } else {
        x[i] < y[i]
    }
}

/// Every text comes before those after it.
pub open spec fn in_order(v: Seq<Seq<char>>) -> bool {
    forall|i: int, j: int| 0 <= i < j < v.len() ==> comes_before(#[trigger] v[i], #[trigger] v[j])
}

/// Insert a text at its place, unless it is there already.
pub fn insert_in_order(v: &mut Vec<String>, s: &str)
    requires
        in_order(texts(old(v)@)),
    ensures
        in_order(texts(final(v)@)),
        forall|t: Seq<char>| #[trigger]
            texts(final(v)@).contains(t) <==> texts(old(v)@).contains(t) || t == s@,
{
    let ghost before = texts(v@);
    let mut at: usize = 0;
    while at < v.len() && is_before(v[at].as_str(), s)
        invariant
            at <= v@.len(),
            before == texts(v@),
            v@ == old(v)@,
            forall|j: int| 0 <= j < at ==> comes_before(#[trigger] before[j], s@),
        decreases v@.len() - at,
    {
        assert(before[at as int] == v@[at as int]@);
        at = at + 1;
    }
    if at < v.len() && str_eq(v[at].as_str(), s) {
        assert(before[at as int] == s@);
        return;
    }
    v.insert(at, s.to_owned());
    proof {
        let after = texts(v@);
        assert(after =~= before.insert(at as int, s@));
        if at < before.len() {
            assert(before[at as int] == old(v)@[at as int]@);
            lemma_order_total(before[at as int], s@);
        }
        assert forall|j: int| at <= j < before.len() implies comes_before(
            s@,
            #[trigger] before[j],
        ) by {
            if j > at {
                assert(comes_before(before[at as int], before[j]));
                lemma_order_transitive(s@, before[at as int], before[j]);
            }
        }
        assert forall|i: int, j: int| 0 <= i < j < after.len() implies comes_before(
            #[trigger] after[i],
            #[trigger] after[j],
        ) by {
            let i0 = if i < at {
                i
            } else {
                i - 1
            };
            let j0 = if j < at {
                j
            } else {
                j - 1
            };
            if i == at {
                assert(after[j] == before[j0]);
            } else if j == at {
                assert(after[i] == before[i0]);
            } else {
                assert(after[i] == before[i0] && after[j] == before[j0]);
            }
        }
        assert forall|t: Seq<char>| #[trigger] after.contains(t) <==> before.contains(t) || t
            == s@ by {
            if before.contains(t) {
                let i = choose|i: int| 0 <= i < before.len() && before[i] == t;
                if i < at {
                    assert(after[i] == t);
                } else {
                    assert(after[i + 1] == t);
                }
            }
            if t == s@ {
                assert(after[at as int] == t);
            }
            if after.contains(t) {
                let i = choose|i: int| 0 <= i < after.len() && after[i] == t;
                if i < at {
                    assert(before[i] == t);
                } else if i > at {
                    assert(before[i - 1] == t);
                }
            }
        }
    }
}

} // verus!
