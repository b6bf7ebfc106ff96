//! What holds between the launches of a restore.
use super::command::{disable_args, CommandView};
use super::launch::{
    first_free, is_first_free, launch_next, launching, rule_name, slug, LaunchModeView,
    LaunchOutcomeView, LaunchStageView, LaunchStepView, LaunchView, LedgerView,
};
use super::machine_laws::law_launch_claims_its_window;
use super::run::{
    begin_task, current, fresh, go_on, restore_next, Begun, RestoreEngine, RestoreStageView,
    RestoreView,
};
use super::turn::Answer;
use crate::models::{TrackedWindowView, WindowEntry, WindowEntryView};
use crate::state::normalized;
use crate::text::{digits, is_digit, lemma_digits_are_read_back};
use vstd::prelude::*;

verus! {

/// A launch after the answers, taken one by one: the ledger, and the outcome if
/// the launch is over.
pub open spec fn launched(
    w: WindowEntryView,
    l: LaunchView,
    led: LedgerView,
    answers: Seq<Answer>,
) -> (LedgerView, Option<LaunchOutcomeView>)
    decreases answers.len(),
{
    if answers.len() == 0 {
        (led, None)
    } else {
        let (after, step) = launch_next(w, l, led, answers[0]);
        match step {
            LaunchStepView::Going(next, _) => launched(w, next, after, answers.skip(1)),
            LaunchStepView::Over(_, outcome) => (after, Some(outcome)),
        }
    }
}

/// The normalized address of the window that a launch ended with. An adopted
/// window's address is reported in this form.
pub open spec fn window_at(outcome: Option<LaunchOutcomeView>) -> Option<Seq<char>> {
    match outcome {
        Some(LaunchOutcomeView::Opened(address)) => Some(normalized(address)),
        Some(LaunchOutcomeView::Adopted(address)) => Some(address),
        _ => None,
    }
}

/// No answer reports the window at the given address as newly opened.
pub open spec fn never_opens(answers: Seq<Answer>, address: Seq<char>) -> bool {
    forall|i: int|
        0 <= i < answers.len() ==> ((#[trigger] answers[i]).window() matches Some(a) ==> normalized(
            a,
        ) != address)
}

/// A launch keeps every claim, and claims the window that it ends with.
pub proof fn law_claims_are_kept(
    w: WindowEntryView,
    l: LaunchView,
    led: LedgerView,
    answers: Seq<Answer>,
)
    ensures
        ({
            let (after, outcome) = launched(w, l, led, answers);
            &&& led.pool.claimed.subset_of(after.pool.claimed)
            &&& window_at(outcome) matches Some(a) ==> after.pool.claimed.contains(a)
        }),
    decreases answers.len(),
{
    if answers.len() > 0 {
        law_launch_claims_its_window(w, l, led, answers[0]);
        let (after, step) = launch_next(w, l, led, answers[0]);
        match step {
            LaunchStepView::Going(next, _) => {
                law_claims_are_kept(w, next, after, answers.skip(1));
            },
            LaunchStepView::Over(_, outcome) => {},
        }
    }
}

/// A step never ends with a claimed window, unless that window is reported as
/// newly opened.
pub proof fn law_claimed_windows_are_left_alone(
    w: WindowEntryView,
    l: LaunchView,
    led: LedgerView,
    answer: Answer,
)
    requires
        answer.window() matches Some(a) ==> !led.pool.claimed.contains(normalized(a)),
        l.stage matches LaunchStageView::Splash(first) ==> !led.pool.claimed.contains(
            normalized(first),
        ),
    ensures
        ({
            let (after, step) = launch_next(w, l, led, answer);
            match step {
                LaunchStepView::Over(_, outcome) => window_at(Some(outcome)) matches Some(a)
                    ==> !led.pool.claimed.contains(a),
                LaunchStepView::Going(next, _) => {
                    &&& after.pool == led.pool
                    &&& next.stage matches LaunchStageView::Splash(first)
                        ==> !after.pool.claimed.contains(normalized(first))
                },
            }
        }),
{
    law_launch_claims_its_window(w, l, led, answer);
}

proof fn lemma_launch_avoids(
    w: WindowEntryView,
    l: LaunchView,
    led: LedgerView,
    answers: Seq<Answer>,
    address: Seq<char>,
)
    requires
        led.pool.claimed.contains(address),
        never_opens(answers, address),
        l.stage matches LaunchStageView::Splash(first) ==> normalized(first) != address,
    ensures
        window_at(launched(w, l, led, answers).1) != Some(address),
    decreases answers.len(),
{
    if answers.len() > 0 {
        let answer = answers[0];
        law_launch_claims_its_window(w, l, led, answer);
        let (after, step) = launch_next(w, l, led, answer);
        match step {
            LaunchStepView::Going(next, _) => {
                let rest = answers.skip(1);
                assert forall|i: int| 0 <= i < rest.len() implies ((#[trigger] rest[i]).window() matches Some(
                    a,
                ) ==> normalized(a) != address) by {
                    assert(rest[i] == answers[i + 1]);
                }
                lemma_launch_avoids(w, next, after, rest, address);
            },
            LaunchStepView::Over(_, outcome) => {},
        }
    }
}

/// Two saved windows get two windows: if a launch ended with a window and its
/// claim still stands, no later launch ends with that window, whatever is
/// reported to it, as long as the window is not reported as newly opened again.
pub proof fn law_launches_share_no_window(
    first: (WindowEntryView, LaunchModeView, LedgerView, Seq<Answer>),
    second: (WindowEntryView, LaunchModeView, LedgerView, Seq<Answer>),
    address: Seq<char>,
)
    requires
        ({
            let (after, outcome) = launched(first.0, launching(first.1).0, first.2, first.3);
            &&& window_at(outcome) == Some(address)
            &&& after.pool.claimed.subset_of(second.2.pool.claimed)
        }),
        never_opens(second.3, address),
    ensures
        window_at(launched(second.0, launching(second.1).0, second.2, second.3).1) != Some(address),
{
    law_claims_are_kept(first.0, launching(first.1).0, first.2, first.3);
    lemma_launch_avoids(second.0, launching(second.1).0, second.2, second.3, address);
}

proof fn lemma_go_on_keeps_claims(v: RestoreView, sent: Seq<CommandView>)
    ensures
        v.ledger.pool.claimed.subset_of(go_on(v, sent).0.ledger.pool.claimed),
    decreases v.plan.tasks.len() - v.begun,
{
    if 0 <= v.begun < v.plan.tasks.len() {
        let w = RestoreView { begun: v.begun + 1, ..v };
        match begin_task(w, w.task(), sent) {
            Begun::Over(x) => {
                lemma_go_on_keeps_claims(x, sent);
            },
            Begun::Waits(x, t) => {},
        }
    }
}

/// A claim stands as long as the restore goes on.
pub proof fn law_restore_keeps_claims(v: RestoreView, answer: Answer)
    ensures
        v.ledger.pool.claimed.subset_of(restore_next(v, answer).0.ledger.pool.claimed),
{
    assert forall|x: RestoreView, sent: Seq<CommandView>|
        x.ledger.pool.claimed.subset_of((#[trigger] go_on(x, sent)).0.ledger.pool.claimed) by {
        lemma_go_on_keeps_claims(x, sent);
    }
    if let RestoreStageView::Launching(l) = v.stage {
        let w = v.at(RestoreStageView::Done);
        law_launch_claims_its_window(v.windows[current(w) as int]@, l, v.ledger, answer);
    }
}

/// Rules with different numbers have different names, whatever their apps.
pub proof fn law_rule_names_tell_the_number(a: Seq<char>, j: int, b: Seq<char>, k: int)
    requires
        0 <= j,
        0 <= k,
        rule_name(a, j) == rule_name(b, k),
    ensures
        j == k,
{
    lemma_digits_are_read_back(j as nat);
    lemma_digits_are_read_back(k as nat);
    reveal_strlit("-");
    let (x, y) = (digits(j as nat), digits(k as nat));
    let (s, t) = (rule_name(a, j), rule_name(b, k));
    let head = "hypr-persist-"@;
    assert(s =~= head + slug(a) + seq!['-'] + x);
    assert(t =~= head + slug(b) + seq!['-'] + y);
    let n = s.len();
    if x.len() < y.len() {
        assert(s[n - x.len() - 1] == '-');
        assert(t[n - x.len() - 1] == y[y.len() - x.len() - 1]);
        assert(is_digit(y[y.len() - x.len() - 1]));
    } else if y.len() < x.len() {
        assert(t[n - y.len() - 1] == '-');
        assert(s[n - y.len() - 1] == x[x.len() - y.len() - 1]);
        assert(is_digit(x[x.len() - y.len() - 1]));
    } else {
        assert(s.skip(n - x.len()) =~= x);
        assert(t.skip(n - y.len()) =~= y);
    }
}

/// There are no more taken numbers in a row than there are rules.
pub(crate) proof fn lemma_taken_are_few(
    rules: Seq<Seq<char>>,
    app_id: Seq<char>,
    from: int,
    to: int,
)
    requires
        0 <= from <= to,
        forall|m: int| from <= m < to ==> rules.contains(#[trigger] rule_name(app_id, m)),
    ensures
        to - from <= rules.len(),
    decreases to - from,
{
    if from < to {
        let name = rule_name(app_id, from);
        assert(rules.contains(name));
        let i = choose|i: int| 0 <= i < rules.len() && rules[i] == name;
        let rest = rules.remove(i);
        assert forall|m: int| from + 1 <= m < to implies rest.contains(
            #[trigger] rule_name(app_id, m),
        ) by {
            let other = rule_name(app_id, m);
            if other == name {
                law_rule_names_tell_the_number(app_id, m, app_id, from);
            }
            assert(rules.contains(other));
            let j = choose|j: int| 0 <= j < rules.len() && rules[j] == other;
            if j < i {
                assert(rest[j] == other);
            } else {
                assert(rest[j - 1] == other);
            }
        }
        lemma_taken_are_few(rest, app_id, from + 1, to);
    }
}

pub(crate) proof fn lemma_first_free_unique(
    rules: Seq<Seq<char>>,
    app_id: Seq<char>,
    from: int,
    m: int,
    n: int,
)
    requires
        is_first_free(rules, app_id, from, m),
        is_first_free(rules, app_id, from, n),
    ensures
        m == n,
{
    if m < n {
        assert(rules.contains(rule_name(app_id, m)));
    }
    if n < m {
        assert(rules.contains(rule_name(app_id, n)));
    }
}

proof fn lemma_some_number_is_free(
    rules: Seq<Seq<char>>,
    app_id: Seq<char>,
    from: int,
    n: int,
)
    requires
        0 <= from <= n,
        forall|m: int| from <= m < n ==> rules.contains(#[trigger] rule_name(app_id, m)),
    ensures
        exists|k: int| is_first_free(rules, app_id, from, k),
    decreases from + rules.len() - n,
{
    lemma_taken_are_few(rules, app_id, from, n);
    if rules.contains(rule_name(app_id, n)) {
        lemma_taken_are_few(rules, app_id, from, n + 1);
        lemma_some_number_is_free(rules, app_id, from, n + 1);
    } else {
        assert(is_first_free(rules, app_id, from, n));
    }
}

/// A rule takes the number that it is given, unless a rule that is kept has the
/// name; then it takes the first after it that makes a name of its own.
pub proof fn law_rule_takes_the_first_free_number(
    rules: Seq<Seq<char>>,
    app_id: Seq<char>,
    from: int,
)
    requires
        0 <= from,
    ensures
        is_first_free(rules, app_id, from, first_free(rules, app_id, from)),
        !rules.contains(rule_name(app_id, from)) ==> first_free(rules, app_id, from) == from,
{
    lemma_some_number_is_free(rules, app_id, from, from);
    if !rules.contains(rule_name(app_id, from)) {
        assert(is_first_free(rules, app_id, from, from));
        lemma_first_free_unique(rules, app_id, from, from, first_free(rules, app_id, from));
    }
}

/// The rules that are kept belong to the pending windows, one each, and no two
/// have the same name.
pub open spec fn rules_are_apart(led: LedgerView) -> bool {
    &&& led.named >= 0
    &&& led.active_rules.len() == led.pending.len()
    &&& forall|i: int|
        0 <= i < led.pending.len() ==> (#[trigger] led.pending[i]).rule_name == led.active_rules[i]
    &&& led.active_rules.no_duplicates()
}

/// The rule of a launch under way is none of those that are kept.
pub open spec fn has_own_rule(l: LaunchView, led: LedgerView) -> bool {
    !(l.stage is Probe) ==> !led.active_rules.contains(l.rule_name)
}

proof fn lemma_next_name_is_new(led: LedgerView, app_id: Seq<char>)
    ensures
        forall|from: int|
            from >= 0 ==> !led.active_rules.contains(
                rule_name(app_id, #[trigger] first_free(led.active_rules, app_id, from)),
            ),
{
    assert forall|from: int| from >= 0 implies !led.active_rules.contains(
        rule_name(app_id, #[trigger] first_free(led.active_rules, app_id, from)),
    ) by {
        law_rule_takes_the_first_free_number(led.active_rules, app_id, from);
    }
}

proof fn lemma_disable_args_name_the_rule(a: Seq<char>, b: Seq<char>)
    requires
        disable_args(a) == disable_args(b),
    ensures
        a == b,
{
    let (head, tail) = ("windowrule["@, "]:enable false"@);
    let (s, t) = (disable_args(a), disable_args(b));
    assert(s.len() == head.len() + a.len() + tail.len());
    assert(t.len() == head.len() + b.len() + tail.len());
    assert(a =~= s.subrange(head.len() as int, (head.len() + a.len()) as int));
    assert(b =~= t.subrange(head.len() as int, (head.len() + b.len()) as int));
}

/// The rule of a window that timed out is kept alive for the watcher: no later
/// launch gives its own rule that name, and none disables it.
pub proof fn law_kept_rules_are_left_alone(
    w: WindowEntryView,
    l: LaunchView,
    led: LedgerView,
    answer: Answer,
    i: int,
)
    requires
        rules_are_apart(led),
        has_own_rule(l, led),
        0 <= i < led.active_rules.len(),
    ensures
        ({
            let (after, step) = launch_next(w, l, led, answer);
            let disable = CommandView::Keyword(disable_args(led.active_rules[i]));
            &&& after.active_rules.len() >= led.active_rules.len()
            &&& after.active_rules[i] == led.active_rules[i]
            &&& match step {
                LaunchStepView::Going(next, turn) => {
                    &&& next.rule_name != led.active_rules[i]
                    &&& !turn.commands.contains(disable)
                },
                LaunchStepView::Over(sent, _) => !sent.contains(disable),
            }
        }),
{
    let rule = led.active_rules[i];
    let (after, step) = launch_next(w, l, led, answer);
    lemma_next_name_is_new(led, w.app_id);
    assert(led.active_rules.contains(rule));
    if disable_args(l.rule_name) == disable_args(rule) {
        lemma_disable_args_name_the_rule(l.rule_name, rule);
    }
}

/// A launch keeps the rules apart, and its own rule from those that are kept.
pub proof fn law_rules_stay_apart(
    w: WindowEntryView,
    l: LaunchView,
    led: LedgerView,
    answer: Answer,
)
    requires
        rules_are_apart(led),
        has_own_rule(l, led),
    ensures
        ({
            let (after, step) = launch_next(w, l, led, answer);
            &&& rules_are_apart(after)
            &&& step matches LaunchStepView::Going(next, _) ==> has_own_rule(next, after)
        }),
{
    let (after, step) = launch_next(w, l, led, answer);
    lemma_next_name_is_new(led, w.app_id);
    if l.stage is Reprobe {
        let rules = after.active_rules;
        if rules.len() > led.active_rules.len() {
            assert(rules == led.active_rules.push(l.rule_name));
            assert forall|i: int, j: int|
                0 <= i < rules.len() && 0 <= j < rules.len() && i != j implies rules[i]
                != rules[j] by {
                if i < rules.len() - 1 {
                    assert(led.active_rules.contains(rules[i]));
                }
                if j < rules.len() - 1 {
                    assert(led.active_rules.contains(rules[j]));
                }
            }
        }
    }
}

/// What holds of the rules of a restore at every turn.
pub open spec fn rules_in_order(v: RestoreView) -> bool {
    &&& rules_are_apart(v.ledger)
    &&& v.stage matches RestoreStageView::Launching(l) ==> has_own_rule(l, v.ledger)
}

proof fn lemma_go_on_keeps_rules(v: RestoreView, sent: Seq<CommandView>)
    requires
        rules_are_apart(v.ledger),
    ensures
        rules_in_order(go_on(v, sent).0),
    decreases v.plan.tasks.len() - v.begun,
{
    if 0 <= v.begun < v.plan.tasks.len() {
        let w = RestoreView { begun: v.begun + 1, ..v };
        match begin_task(w, w.task(), sent) {
            Begun::Over(x) => {
                lemma_go_on_keeps_rules(x, sent);
            },
            Begun::Waits(x, t) => {},
        }
    }
}

/// A restore begins with its rules in order, and every answer keeps them so.
pub proof fn law_restore_keeps_rules_in_order(
    engine: RestoreEngine,
    windows: Seq<WindowEntry>,
    live: Seq<TrackedWindowView>,
    v: RestoreView,
    answer: Answer,
)
    ensures
        rules_in_order(fresh(engine, windows, live)),
        rules_in_order(v) ==> rules_in_order(restore_next(v, answer).0),
{
    if rules_in_order(v) {
        assert forall|x: RestoreView, sent: Seq<CommandView>|
            rules_are_apart(x.ledger) implies rules_in_order((#[trigger] go_on(x, sent)).0) by {
            lemma_go_on_keeps_rules(x, sent);
        }
        if let RestoreStageView::Launching(l) = v.stage {
            let w = v.at(RestoreStageView::Done);
            law_rules_stay_apart(v.windows[current(w) as int]@, l, v.ledger, answer);
        }
    }
}

} // verus!
