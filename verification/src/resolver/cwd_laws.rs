//! What finding a shell's directory comes to.
use super::cwd::{
    family_cwd_from, is_shell_name, pids_among, shell_cwd, shell_cwd_from, Parent, Process,
};
use crate::text::{decimal, is_word, joined, lemma_words_of_joined, parsed_i64, trimmed, words};
use crate::text_laws::{law_numbers_are_read_back, lemma_decimal_is_a_word};
use vstd::prelude::*;

verus! {

/// The shells that are known by name.
pub open spec fn known_shells() -> Seq<Seq<char>> {
    seq![
        "bash"@,
        "zsh"@,
        "fish"@,
        "sh"@,
        "dash"@,
        "ksh"@,
        "tcsh"@,
        "csh"@,
        "nu"@,
        "elvish"@,
        "ion"@,
        "xonsh"@,
    ]
}

/// Exactly the listed names are shells.
pub proof fn law_shells_are_the_known_ones(name: Seq<char>)
    ensures
        is_shell_name(name) <==> known_shells().contains(name),
{
    let all = known_shells();
    assert(all[0] == "bash"@ && all[1] == "zsh"@ && all[2] == "fish"@ && all[3] == "sh"@ && all[4]
        == "dash"@ && all[5] == "ksh"@ && all[6] == "tcsh"@ && all[7] == "csh"@ && all[8] == "nu"@
        && all[9] == "elvish"@ && all[10] == "ion"@ && all[11] == "xonsh"@);
}

/// The process is a known shell in a directory that is known and not the root.
pub open spec fn is_worth_restoring(p: Process) -> bool {
    &&& p.comm matches Some(comm) && known_shells().contains(trimmed(comm@))
    &&& p.cwd matches Some(cwd) && cwd@.len() > 0 && cwd@ != "/"@
}

/// The children of a process and their children: each child before its own.
pub open spec fn family(children: Seq<Parent>) -> Seq<Process>
    decreases children.len(),
{
    if children.len() == 0 {
        seq![]
    } else {
        family(children.drop_last()).push(children.last().process) + children.last().children@
    }
}

/// `found` is the directory of the first process worth restoring, if there is
/// one.
pub open spec fn is_first_directory(ps: Seq<Process>, found: Option<Seq<char>>) -> bool {
    match found {
        Some(cwd) => exists|i: int|
            0 <= i < ps.len() && is_worth_restoring(#[trigger] ps[i]) && (ps[i].cwd->0)@ == cwd
                && forall|j: int| 0 <= j < i ==> !is_worth_restoring(#[trigger] ps[j]),
        None => forall|i: int| 0 <= i < ps.len() ==> !is_worth_restoring(#[trigger] ps[i]),
    }
}

proof fn lemma_worth(p: Process)
    ensures
        shell_cwd(p) is Some <==> is_worth_restoring(p),
        shell_cwd(p) matches Some(cwd) ==> cwd == (p.cwd->0)@,
{
    if let Some(comm) = p.comm {
        law_shells_are_the_known_ones(trimmed(comm@));
    }
}

proof fn lemma_first_of_rest(ps: Seq<Process>, k: int)
    requires
        0 <= k <= ps.len(),
        forall|j: int| 0 <= j < k ==> !is_worth_restoring(#[trigger] ps[j]),
    ensures
        is_first_directory(ps, shell_cwd_from(ps, k)),
    decreases ps.len() - k,
{
    if k < ps.len() {
        lemma_worth(ps[k]);
        if shell_cwd(ps[k]) is None {
            lemma_first_of_rest(ps, k + 1);
        } else {
            assert(is_worth_restoring(ps[k]));
        }
    }
}

/// How many processes come before those of child `k`.
spec fn before(children: Seq<Parent>, k: int) -> int {
    family(children.take(k)).len() as int
}

proof fn lemma_family_at(children: Seq<Parent>, k: int)
    requires
        0 <= k < children.len(),
    ensures
        before(children, k + 1) == before(children, k) + 1 + children[k].children@.len(),
        before(children, k + 1) <= family(children).len(),
        family(children)[before(children, k)] == children[k].process,
        forall|j: int|
            0 <= j < children[k].children@.len() ==> family(children)[before(children, k) + 1 + j]
                == #[trigger] children[k].children@[j],
    decreases children.len(),
{
    let rest = children.drop_last();
    if k == children.len() - 1 {
        assert(children.take(k) =~= rest);
        assert(children.take(k + 1) =~= children);
    } else {
        lemma_family_at(rest, k);
        assert(rest.take(k) =~= children.take(k));
        assert(rest.take(k + 1) =~= children.take(k + 1));
        assert(rest[k] == children[k]);
        let b = before(children, k);
        assert(family(children)[b] == family(rest)[b]);
        assert forall|j: int| 0 <= j < children[k].children@.len() implies family(children)[b + 1
            + j] == #[trigger] children[k].children@[j] by {
            assert(family(children)[b + 1 + j] == family(rest)[b + 1 + j]);
        }
    }
}

proof fn lemma_family_from(children: Seq<Parent>, k: int)
    requires
        0 <= k <= children.len(),
        forall|j: int|
            0 <= j < before(children, k) ==> !is_worth_restoring(#[trigger] family(children)[j]),
    ensures
        is_first_directory(family(children), family_cwd_from(children, k)),
    decreases children.len() - k,
{
    let all = family(children);
    if k == children.len() {
        assert(children.take(k) =~= children);
    } else {
        let b = before(children, k);
        let child = children[k];
        lemma_family_at(children, k);
        lemma_worth(child.process);
        lemma_first_of_rest(child.children@, 0);
        if shell_cwd(child.process) is Some {
            assert(is_worth_restoring(all[b]));
        } else {
            match shell_cwd_from(child.children@, 0) {
                Some(cwd) => {
                    let own = child.children@;
                    let i = choose|i: int|
                        0 <= i < own.len() && is_worth_restoring(#[trigger] own[i]) && (
                        own[i].cwd->0)@ == cwd && forall|j: int|
                            0 <= j < i ==> !is_worth_restoring(#[trigger] own[j]);
                    assert(all[b + 1 + i] == own[i]);
                    assert forall|j: int| 0 <= j < b + 1 + i implies !is_worth_restoring(
                        #[trigger] all[j],
                    ) by {
                        if j > b {
                            assert(all[j] == own[j - b - 1]);
                        }
                    }
                    assert(is_worth_restoring(all[b + 1 + i]));
                },
                None => {
                    assert forall|j: int| 0 <= j < before(children, k + 1) implies !(
                    is_worth_restoring(#[trigger] all[j])) by {
                        if j > b {
                            assert(all[j] == child.children@[j - b - 1]);
                        }
                    }
                    lemma_family_from(children, k + 1);
                },
            }
        }
    }
}

/// The directory that is found is that of the first known shell with a
/// directory worth restoring, among all children and all of their children; and
/// where there is such a shell, one is found.
pub proof fn law_first_shell_gives_the_directory(children: Seq<Parent>)
    ensures
        is_first_directory(family(children), family_cwd_from(children, 0)),
{
    assert(children.take(0) =~= seq![]);
    lemma_family_from(children, 0);
}

/// Process ids, as texts.
pub open spec fn shown_pids(pids: Seq<i64>) -> Seq<Seq<char>> {
    Seq::new(pids.len(), |i: int| decimal(pids[i] as int))
}

proof fn lemma_pids_read_back(pids: Seq<i64>, n: nat)
    requires
        n <= pids.len(),
    ensures
        pids_among(shown_pids(pids), n) == pids.take(n as int),
    decreases n,
{
    if n > 0 {
        lemma_pids_read_back(pids, (n - 1) as nat);
        law_numbers_are_read_back(pids[n - 1]);
        assert(pids.take(n as int) =~= pids.take(n - 1).push(pids[n - 1]));
    } else {
        assert(pids.take(0) =~= seq![]);
    }
}

/// Every process id in a `children` file is read, in order.
pub proof fn law_children_are_read_back(pids: Seq<i64>)
    ensures
        ({
            let content = joined(shown_pids(pids), " "@);
            pids_among(words(content), words(content).len()) == pids
        }),
{
    let texts = shown_pids(pids);
    assert forall|i: int| 0 <= i < texts.len() implies is_word(
        #[trigger] texts[i],
    ) by {
        lemma_decimal_is_a_word(pids[i] as int);
    }
    lemma_words_of_joined(texts);
    lemma_pids_read_back(pids, pids.len());
    assert(pids.take(pids.len() as int) =~= pids);
}

/// Words that are not numbers are passed over.
pub proof fn law_other_words_are_passed_over(ws: Seq<Seq<char>>, n: nat)
    requires
        0 < n <= ws.len(),
        parsed_i64(ws[n - 1]) is None,
    ensures
        pids_among(ws, n) == pids_among(ws, (n - 1) as nat),
{
}

} // verus!
