//! What the operations on text promise.
use crate::text::{
    after_prefix, ascii_lower, before_suffix, comes_before, cut_first, cut_last, decimal, digits,
    first_at, is_digit, is_space, is_word, joined, lacks, last_at, leading_copies, leading_spaces,
    lemma_cut_after, lemma_cut_first, lemma_cut_first_shrinks, lemma_cut_last,
    lemma_digits_are_read_back, lemma_first_exists, lemma_joined_front, lemma_leading_bounds,
    occurs, occurs_at, padded, parsed_i64, pieces, replaced, starts_with_seq, text_lines,
    trailing_copies, trailing_spaces, trimmed, trimmed_start, without_leading, without_marks,
    without_return,
};
use vstd::prelude::*;

verus! {

/// A number in decimal reads as the number.
pub proof fn law_numbers_are_read_back(n: i64)
    ensures
        parsed_i64(decimal(n as int)) == Some(n),
{
    if n < 0 {
        let m = (-n) as nat;
        lemma_digits_are_read_back(m);
        assert(decimal(n as int).skip(1) =~= digits(m));
    } else {
        lemma_digits_are_read_back(n as nat);
        let s = digits(n as nat);
        assert(is_digit(s[0]));
    }
}

/// A text with anything but digits after its sign is no number.
pub proof fn law_numbers_have_only_digits(s: Seq<char>, i: int)
    requires
        0 < i < s.len() || (i == 0 && s.len() > 0 && s[0] != '-' && s[0] != '+'),
        !('0' <= s[i] <= '9'),
    ensures
        parsed_i64(s) is None,
{
    if s[0] == '-' || s[0] == '+' {
        let body = s.skip(1);
        assert(body[i - 1] == s[i]);
        assert(!is_digit(body[i - 1]));
    } else {
        assert(!is_digit(s[i]));
    }
}

pub proof fn lemma_decimal_is_a_word(n: int)
    ensures
        is_word(decimal(n)),
{
    let m: nat = if n < 0 {
        (-n) as nat
    } else {
        n as nat
    };
    lemma_digits_are_read_back(m);
    let s = decimal(n);
    assert forall|i: int| 0 <= i < s.len() implies !is_space(#[trigger] s[i]) by {
        if n < 0 {
            if i > 0 {
                assert(s[i] == digits(m)[i - 1]);
                assert(is_digit(digits(m)[i - 1]));
            }
        } else {
            assert(is_digit(digits(m)[i]));
        }
    }
}

/// Every character is white space.
pub open spec fn is_blank(s: Seq<char>) -> bool {
    forall|i: int| 0 <= i < s.len() ==> is_space(#[trigger] s[i])
}

proof fn lemma_leading_are_spaces(s: Seq<char>)
    ensures
        leading_spaces(s) <= s.len(),
        is_blank(s.take(leading_spaces(s) as int)),
    decreases s.len(),
{
    lemma_leading_bounds(s);
    if s.len() > 0 && is_space(s[0]) {
        lemma_leading_are_spaces(s.skip(1));
        let n = leading_spaces(s) as int;
        assert forall|i: int| 0 <= i < n implies is_space(#[trigger] s.take(n)[i]) by {
            if i > 0 {
                assert(s.skip(1).take(n - 1)[i - 1] == s[i]);
            }
        }
    }
}

proof fn lemma_trailing_are_spaces(s: Seq<char>)
    ensures
        trailing_spaces(s) <= s.len(),
        is_blank(s.skip(s.len() - trailing_spaces(s))),
        trailing_spaces(s) < s.len() ==> !is_space(s[s.len() - 1 - trailing_spaces(s)]),
    decreases s.len(),
{
    if s.len() > 0 && is_space(s.last()) {
        let t = s.drop_last();
        lemma_trailing_are_spaces(t);
        let n = trailing_spaces(s) as int;
        assert forall|i: int| 0 <= i < n implies is_space(
            #[trigger] s.skip(s.len() - n)[i],
        ) by {
            if i < n - 1 {
                assert(t.skip(t.len() - (n - 1))[i] == s[s.len() - n + i]);
            }
        }
    }
}

/// Trimming takes away white space at both ends, all of it, and nothing else.
pub proof fn law_trimming_takes_white_space_away(s: Seq<char>)
    ensures
        exists|a: Seq<char>, b: Seq<char>| #[trigger]
            (a + trimmed(s) + b) == s && is_blank(a) && is_blank(b),
        trimmed(s).len() > 0 ==> !is_space(trimmed(s)[0]) && !is_space(trimmed(s).last()),
{
    let n = leading_spaces(s) as int;
    lemma_leading_bounds(s);
    lemma_leading_are_spaces(s);
    let t = trimmed_start(s);
    let m = trailing_spaces(t) as int;
    lemma_trailing_are_spaces(t);
    let a = s.take(n);
    let b = t.skip(t.len() - m);
    assert(a + trimmed(s) + b =~= s);
    assert(is_blank(a) && is_blank(b));
    if trimmed(s).len() > 0 {
        assert(trimmed(s)[0] == s[n]);
        assert(trimmed(s).last() == t[t.len() - 1 - m]);
    }
}

/// Blanks, tabs and line ends are white space; what can be seen is not.
pub proof fn law_white_space(c: char)
    ensures
        c == ' ' || c == '\t' || c == '\n' || c == '\r' ==> is_space(c),
        '!' <= c <= '~' ==> !is_space(c),
{
}

/// A cut at the first occurrence loses nothing, and nothing before it holds
/// the pattern.
pub proof fn law_first_cut(s: Seq<char>, pat: Seq<char>)
    requires
        pat.len() > 0,
    ensures
        match cut_first(s, pat) {
            Some((head, tail)) => {
                &&& head + pat + tail == s
                &&& !occurs((head + pat).drop_last(), pat)
            },
            None => forall|a: Seq<char>, b: Seq<char>| #[trigger] (a + pat + b) != s,
        },
{
    if occurs(s, pat) {
        let k = choose|k: int| occurs_at(s, pat, k);
        lemma_first_exists(s, pat, k);
        let i = choose|i: int| first_at(s, pat, i);
        lemma_cut_first(s, pat, i);
        let head = s.take(i);
        let t = (head + pat).drop_last();
        assert(head + pat + s.skip(i + pat.len()) =~= s) by {
            assert(s.subrange(i, i + pat.len()) == pat);
            assert forall|j: int| i <= j < i + pat.len() implies s[j] == pat[j - i] by {
                assert(s.subrange(i, i + pat.len())[j - i] == s[j]);
            }
        }
        assert forall|j: int| !occurs_at(t, pat, j) by {
            if occurs_at(t, pat, j) {
                assert(j < i);
                assert(s.subrange(j, j + pat.len()) =~= t.subrange(j, j + pat.len())) by {
                    assert forall|m: int| j <= m < j + pat.len() implies s[m] == t[m] by {
                        if m >= i {
                            assert(s.subrange(i, i + pat.len())[m - i] == s[m]);
                        }
                    }
                }
                assert(occurs_at(s, pat, j));
            }
        }
    } else {
        assert forall|a: Seq<char>, b: Seq<char>| #[trigger] (a + pat + b) != s by {
            if a + pat + b == s {
                assert(s.subrange(a.len() as int, (a.len() + pat.len()) as int) =~= pat);
                assert(occurs_at(s, pat, a.len() as int));
            }
        }
    }
}

proof fn lemma_last_exists(s: Seq<char>, pat: Seq<char>, i: int)
    requires
        occurs_at(s, pat, i),
    ensures
        exists|j: int| last_at(s, pat, j),
    decreases s.len() - i,
{
    if exists|j: int| i < j && occurs_at(s, pat, j) {
        let j = choose|j: int| i < j && occurs_at(s, pat, j);
        lemma_last_exists(s, pat, j);
    } else {
        assert(last_at(s, pat, i));
    }
}

/// A cut at the last occurrence loses nothing, and nothing after it holds the
/// pattern.
pub proof fn law_last_cut(s: Seq<char>, pat: Seq<char>)
    requires
        pat.len() > 0,
    ensures
        match cut_last(s, pat) {
            Some((head, tail)) => {
                &&& head + pat + tail == s
                &&& !occurs((pat + tail).skip(1), pat)
            },
            None => forall|a: Seq<char>, b: Seq<char>| #[trigger] (a + pat + b) != s,
        },
{
    if occurs(s, pat) {
        let k = choose|k: int| occurs_at(s, pat, k);
        lemma_last_exists(s, pat, k);
        let i = choose|i: int| last_at(s, pat, i);
        lemma_cut_last(s, pat, i);
        let head = s.take(i);
        let tail = s.skip(i + pat.len());
        assert forall|j: int| i <= j < i + pat.len() implies s[j] == pat[j - i] by {
            assert(s.subrange(i, i + pat.len())[j - i] == s[j]);
        }
        assert(head + pat + tail =~= s);
        let t = (pat + tail).skip(1);
        assert forall|j: int| !occurs_at(t, pat, j) by {
            if occurs_at(t, pat, j) {
                let at = i + 1 + j;
                assert(s.subrange(at, at + pat.len()) =~= t.subrange(j, j + pat.len())) by {
                    assert forall|m: int| j <= m < j + pat.len() implies s[i + 1 + m] == t[m] by {
                        assert(t[m] == (pat + tail)[m + 1]);
                    }
                }
                assert(occurs_at(s, pat, at));
            }
        }
    } else {
        assert forall|a: Seq<char>, b: Seq<char>| #[trigger] (a + pat + b) != s by {
            if a + pat + b == s {
                assert(s.subrange(a.len() as int, (a.len() + pat.len()) as int) =~= pat);
                assert(occurs_at(s, pat, a.len() as int));
            }
        }
    }
}

/// A prefix or a suffix that is put on can be taken off, and one that is taken
/// off can be put back.
pub proof fn law_affixes_come_off(s: Seq<char>, affix: Seq<char>)
    ensures
        after_prefix(affix + s, affix) == Some(s),
        before_suffix(s + affix, affix) == Some(s),
        after_prefix(s, affix) matches Some(t) ==> affix + t == s,
        before_suffix(s, affix) matches Some(t) ==> t + affix == s,
{
    assert((affix + s).take(affix.len() as int) =~= affix);
    assert((affix + s).skip(affix.len() as int) =~= s);
    assert((s + affix).skip((s + affix).len() - affix.len()) =~= affix);
    assert((s + affix).take((s + affix).len() - affix.len()) =~= s);
    if let Some(t) = after_prefix(s, affix) {
        assert(s.take(affix.len() as int) + s.skip(affix.len() as int) =~= s);
    }
    if let Some(t) = before_suffix(s, affix) {
        let n = s.len() - affix.len();
        assert(s.take(n) + s.skip(n) =~= s);
    }
}

/// The pieces of a text, put together again, make the text; no piece holds the
/// separator.
pub proof fn law_pieces_make_the_text(s: Seq<char>, pat: Seq<char>)
    requires
        pat.len() > 0,
    ensures
        pieces(s, pat).len() > 0,
        joined(pieces(s, pat), pat) == s,
        forall|i: int|
            0 <= i < pieces(s, pat).len() ==> !occurs(#[trigger] pieces(s, pat)[i], pat),
    decreases s.len(),
{
    law_first_cut(s, pat);
    match cut_first(s, pat) {
        Some((head, tail)) => {
            lemma_cut_first_shrinks(s, pat);
            law_pieces_make_the_text(tail, pat);
            let all = pieces(s, pat);
            let rest = pieces(tail, pat);
            assert(all == seq![head] + rest);
            assert(all.skip(1) =~= rest);
            lemma_joined_front(all, pat);
            assert(!occurs(head, pat)) by {
                let t = (head + pat).drop_last();
                if occurs(head, pat) {
                    let i = choose|i: int| occurs_at(head, pat, i);
                    assert(t.subrange(i, i + pat.len()) =~= head.subrange(i, i + pat.len()));
                    assert(occurs_at(t, pat, i));
                }
            }
            assert forall|i: int| 0 <= i < all.len() implies !occurs(#[trigger] all[i], pat) by {
                if i > 0 {
                    assert(all[i] == rest[i - 1]);
                }
            }
        },
        None => {},
    }
}

/// A line as it may stand in a text: without a line feed, and not ending in a
/// carriage return.
pub open spec fn is_line(s: Seq<char>) -> bool {
    lacks(s, '\n') && (s.len() > 0 ==> s.last() != '\r')
}

/// Lines that end in a line feed, with or without a carriage return before it,
/// are read back one by one.
pub proof fn law_lines_are_read_back(line: Seq<char>, rest: Seq<char>)
    requires
        is_line(line),
    ensures
        text_lines(line + seq!['\n'] + rest) == seq![line] + text_lines(rest),
        text_lines(line + seq!['\r', '\n'] + rest) == seq![line] + text_lines(rest),
        line.len() > 0 ==> text_lines(line) == seq![line],
        text_lines(seq![]) == Seq::<Seq<char>>::empty(),
{
    let feed = seq!['\n'];
    lemma_cut_after(line, feed, rest);
    let with_return = line.push('\r');
    lemma_cut_after(with_return, feed, rest);
    assert(line + seq!['\r', '\n'] + rest =~= with_return + feed + rest);
    assert(without_return(with_return) =~= line);
    if line.len() > 0 {
        if occurs(line, feed) {
            let i = choose|i: int| occurs_at(line, feed, i);
            assert(line.subrange(i, i + 1)[0] == line[i]);
        }
    }
}

/// Replacing goes character by character: the parts of a text are replaced on
/// their own, and a character becomes the replacement or stays.
pub proof fn law_replacing_goes_by_character(a: Seq<char>, b: Seq<char>, from: char, to: Seq<char>)
    ensures
        replaced(a + b, from, to) == replaced(a, from, to) + replaced(b, from, to),
        replaced(seq![from], from, to) == to,
        forall|c: char| c != from ==> #[trigger] replaced(seq![c], from, to) == seq![c],
    decreases b.len(),
{
    assert(replaced(Seq::<char>::empty(), from, to) =~= seq![]);
    if b.len() == 0 {
        assert(a + b =~= a);
        assert(replaced(a, from, to) + replaced(b, from, to) =~= replaced(a, from, to));
    } else {
        law_replacing_goes_by_character(a, b.drop_last(), from, to);
        assert((a + b).drop_last() =~= a + b.drop_last());
        assert((a + b).last() == b.last());
        assert(replaced(a + b, from, to) =~= replaced(a, from, to) + replaced(b, from, to));
    }
    assert(seq![from].drop_last() =~= seq![]);
    assert(seq![] + to =~= to);
    assert(replaced(seq![from], from, to) =~= to);
    assert forall|c: char| c != from implies #[trigger] replaced(seq![c], from, to) == seq![c] by {
        assert(seq![c].drop_last() =~= seq![]);
        assert(replaced(seq![c], from, to) =~= seq![c]);
    }
}

/// Two characters are the same but for case if they are the same, or are an
/// ASCII capital and its small letter.
pub proof fn law_case_is_of_ascii_letters(a: char, b: char)
    ensures
        ascii_lower(a) == ascii_lower(b) <==> a == b || ('A' <= a <= 'Z' && b as u32 == a as u32
            + 32) || ('A' <= b <= 'Z' && a as u32 == b as u32 + 32),
{
}

/// Padding keeps the text at the front and fills up with spaces to the width.
pub proof fn law_padding_fills_up(s: Seq<char>, width: nat)
    ensures
        padded(s, width).len() == if s.len() < width {
            width
        } else {
            s.len()
        },
        padded(s, width).take(s.len() as int) == s,
        forall|i: int|
            s.len() <= i < padded(s, width).len() ==> #[trigger] padded(s, width)[i] == ' ',
{
    assert(padded(s, width).take(s.len() as int) =~= s);
}

/// One text comes before another if it is a proper beginning of it, or has the
/// lesser character where the two first differ.
pub proof fn law_order_of_texts(a: Seq<char>, b: Seq<char>)
    ensures
        comes_before(a, b) <==> exists|k: int| #[trigger] differ_at(a, b, k),
    decreases b.len(),
{
    if b.len() == 0 {
    } else if a.len() == 0 {
        assert(a.take(0) =~= b.take(0));
        assert(differ_at(a, b, 0));
    } else if a[0] != b[0] {
        if a[0] < b[0] {
            assert(a.take(0) =~= b.take(0));
            assert(differ_at(a, b, 0));
        }
        if exists|k: int| #[trigger] differ_at(a, b, k) {
            let k = choose|k: int| #[trigger] differ_at(a, b, k);
            if k > 0 {
                assert(a.take(k)[0] == b.take(k)[0]);
            }
        }
    } else {
        let (x, y) = (a.skip(1), b.skip(1));
        law_order_of_texts(x, y);
        if comes_before(x, y) {
            let k = choose|k: int| #[trigger] differ_at(x, y, k);
            assert(a.take(k + 1) =~= seq![a[0]] + x.take(k));
            assert(b.take(k + 1) =~= seq![b[0]] + y.take(k));
            assert(differ_at(a, b, k + 1));
        }
        if exists|k: int| #[trigger] differ_at(a, b, k) {
            let k = choose|k: int| #[trigger] differ_at(a, b, k);
            assert(x.take(k - 1) =~= a.take(k).skip(1));
            assert(y.take(k - 1) =~= b.take(k).skip(1));
            assert(differ_at(x, y, k - 1));
        }
    }
}

/// The texts agree up to `k`, where the first has ended or has the lesser
/// character.
pub open spec fn differ_at(a: Seq<char>, b: Seq<char>, k: int) -> bool {
    &&& 0 <= k <= a.len()
    &&& k < b.len()
    &&& a.take(k) == b.take(k)
    &&& k < a.len() ==> a[k] < b[k]
}

/// Leading copies of a pattern are all taken away, and nothing else.
pub proof fn law_leading_copies_are_taken_away(s: Seq<char>, pat: Seq<char>)
    requires
        pat.len() > 0,
    ensures
        !starts_with_seq(without_leading(s, pat), pat),
        without_leading(pat + s, pat) == without_leading(s, pat),
        !starts_with_seq(s, pat) ==> without_leading(s, pat) == s,
    decreases s.len(),
{
    if starts_with_seq(s, pat) {
        law_leading_copies_are_taken_away(s.skip(pat.len() as int), pat);
    }
    assert((pat + s).take(pat.len() as int) =~= pat);
    assert((pat + s).skip(pat.len() as int) =~= s);
}

/// Marks around a text that neither begins nor ends with one come off.
pub proof fn law_marks_come_off(s: Seq<char>, c: char)
    requires
        s.len() > 0 ==> s[0] != c && s.last() != c,
    ensures
        without_marks(s, c) == s,
        s.len() > 0 ==> without_marks(seq![c] + s + seq![c], c) == s,
{
    assert(s.skip(0) =~= s);
    assert(s.take(s.len() as int) =~= s);
    if s.len() > 0 {
        let t = seq![c] + s + seq![c];
        assert(t.skip(1) =~= s + seq![c]);
        assert((s + seq![c])[0] == s[0]);
        assert(leading_copies(t.skip(1), c) == 0);
        assert(leading_copies(t, c) == 1);
        let u = s + seq![c];
        assert(u.drop_last() =~= s);
        assert(trailing_copies(u, c) == 1 + trailing_copies(s, c));
        assert(trailing_copies(s, c) == 0);
        assert(u.take(u.len() - 1) =~= s);
    }
}

} // verus!
