//! What command lines are made of.
use super::launch_cmd::{
    cwd_flag, independent, independent_words, is_single_instance_flag, launch_line, profiled,
};
use crate::models::WindowEntryView;
use crate::paths::last_component;
use crate::text::{is_word, joined, lemma_words_of_joined, words};
use vstd::prelude::*;

verus! {

/// The terminals that can be told a directory, and how.
pub open spec fn known_terminals() -> Seq<(Seq<char>, Seq<char>)> {
    seq![
        ("ghostty"@, "--working-directory="@),
        ("kitty"@, "--directory="@),
        ("alacritty"@, "--working-directory="@),
        ("wezterm"@, "--cwd="@),
        ("foot"@, "--working-directory="@),
        ("tilix"@, "--working-directory="@),
        ("terminator"@, "--working-directory="@),
    ]
}

/// A known terminal, wherever it is installed, is told its directory by its own
/// flag; no other program is.
pub proof fn law_terminals_have_a_flag(cmd: Seq<char>, i: int)
    ensures
        words(cmd).len() > 0 && 0 <= i < known_terminals().len() && last_component(words(cmd)[0])
            == known_terminals()[i].0 ==> cwd_flag(cmd) == Some(known_terminals()[i].1),
        words(cmd).len() > 0 && (forall|j: int|
            0 <= j < known_terminals().len() ==> last_component(words(cmd)[0])
                != (#[trigger] known_terminals()[j]).0) ==> cwd_flag(cmd) is None,
        words(cmd).len() == 0 ==> cwd_flag(cmd) is None,
{
    reveal_strlit("ghostty");
    reveal_strlit("kitty");
    reveal_strlit("alacritty");
    reveal_strlit("wezterm");
    reveal_strlit("foot");
    reveal_strlit("tilix");
    reveal_strlit("terminator");
    let all = known_terminals();
    assert("ghostty"@[0] == 'g' && "wezterm"@[0] == 'w');
    assert("kitty"@[0] == 'k' && "tilix"@[0] == 't');
    assert("ghostty"@.len() == 7 && "kitty"@.len() == 5 && "alacritty"@.len() == 9);
    assert("wezterm"@.len() == 7 && "foot"@.len() == 4 && "tilix"@.len() == 5);
    assert("terminator"@.len() == 10);
    assert(all[0] == ("ghostty"@, "--working-directory="@));
    assert(all[1] == ("kitty"@, "--directory="@));
    assert(all[2] == ("alacritty"@, "--working-directory="@));
    assert(all[3] == ("wezterm"@, "--cwd="@));
    assert(all[4] == ("foot"@, "--working-directory="@));
    assert(all[5] == ("tilix"@, "--working-directory="@));
    assert(all[6] == ("terminator"@, "--working-directory="@));
}

/// The two flags that tie a program to a running instance are left out, and
/// every other word stays, in its place.
pub proof fn law_only_instance_flags_are_left_out(
    before: Seq<Seq<char>>,
    word: Seq<char>,
)
    requires
        forall|i: int| 0 <= i < before.len() ==> is_word(#[trigger] before[i]),
        is_word(word),
    ensures
        ({
            let line = joined(before.push(word), " "@);
            let head = words(independent(joined(before, " "@)));
            words(independent(line)) == if word == "--single-instance"@ || word
                == "--gtk-single-instance=true"@ {
                head
            } else {
                head.push(word)
            }
        }),
        independent(joined(Seq::<Seq<char>>::empty(), " "@)).len() == 0,
{
    let all = before.push(word);
    assert forall|i: int| 0 <= i < all.len() implies is_word(#[trigger] all[i]) by {
        if i < before.len() {
            assert(all[i] == before[i]);
        }
    }
    lemma_words_of_joined(all);
    lemma_words_of_joined(before);
    lemma_words_of_joined(Seq::<Seq<char>>::empty());
    super::launch_cmd::law_independent_commands_share_no_instance(joined(all, " "@));
    super::launch_cmd::law_independent_commands_share_no_instance(joined(before, " "@));
    reveal(Seq::filter);
    assert(all.drop_last() =~= before);
    let p = |arg: Seq<char>| !is_single_instance_flag(arg);
    assert(all.filter(p) == if p(word) {
        before.filter(p).push(word)
    } else {
        before.filter(p)
    });
    assert(independent_words(joined(all, " "@)) == all.filter(p));
    assert(independent_words(joined(Seq::<Seq<char>>::empty(), " "@)) =~= seq![]);
}

/// A window is launched by its saved command, with its profile's flags behind
/// it; without a directory by nothing else, and a terminal with its directory behind
/// that.
pub proof fn law_launches_use_the_saved_command(w: WindowEntryView)
    ensures
        w.profile is None ==> profiled(w) == w.launch_cmd,
        w.profile matches Some(profile) ==> profiled(w) == w.launch_cmd + " "@ + profile,
        w.cwd is None ==> launch_line(w) == profiled(w),
        w.cwd matches Some(cwd) ==> cwd_flag(profiled(w)) matches Some(flag) ==> launch_line(w)
            == independent(profiled(w)) + " "@ + flag + cwd,
{
}

} // verus!
