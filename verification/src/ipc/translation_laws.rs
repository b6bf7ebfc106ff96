//! What translating dispatches into Lua promises.
use super::lua_compat::{
    lua_dispatch, name_and_rest, quoted, window_call, TranslateErrorView,
};
use crate::text::{
    after_prefix, cut_last, debug_form, lacks, last_at, lemma_cut_after, lemma_cut_last, occurs,
    occurs_at, starts_with_seq,
};
use crate::text_laws::law_affixes_come_off;
use vstd::prelude::*;

verus! {

/// The dispatchers that can be translated.
pub open spec fn known_dispatchers() -> Seq<Seq<char>> {
    seq![
        "focuswindow"@,
        "setfloating"@,
        "closewindow"@,
        "fullscreen"@,
        "movetoworkspacesilent"@,
        "movewindowpixel"@,
        "resizewindowpixel"@,
        "layoutmsg"@,
        "moveworkspacetomonitor"@,
        "workspace"@,
        "exec"@,
    ]
}

proof fn lemma_names()
    ensures
        known_dispatchers().no_duplicates(),
        forall|i: int| 0 <= i < 11 ==> lacks(#[trigger] known_dispatchers()[i], ' '),
{
    reveal_strlit("focuswindow");
    reveal_strlit("setfloating");
    reveal_strlit("closewindow");
    reveal_strlit("fullscreen");
    reveal_strlit("movetoworkspacesilent");
    reveal_strlit("movewindowpixel");
    reveal_strlit("resizewindowpixel");
    reveal_strlit("layoutmsg");
    reveal_strlit("moveworkspacetomonitor");
    reveal_strlit("workspace");
    reveal_strlit("exec");
    let all = known_dispatchers();
    assert(all[0].len() == 11 && all[1].len() == 11 && all[2].len() == 11);
    assert(all[0][0] == 'f' && all[1][0] == 's' && all[2][0] == 'c');
    assert(all[3].len() == 10 && all[4].len() == 21 && all[5].len() == 15 && all[6].len() == 17);
    assert(all[7].len() == 9 && all[8].len() == 22 && all[9].len() == 9 && all[10].len() == 4);
    assert(all[7][0] == 'l' && all[9][0] == 'w');
    assert forall|i: int, j: int| 0 <= i < j < 11 implies #[trigger] all[i] != #[trigger] all[j] by {
        assert(all[i].len() != all[j].len() || all[i][0] != all[j][0]);
    }
}

proof fn lemma_call(name: Seq<char>, rest: Seq<char>)
    requires
        lacks(name, ' '),
    ensures
        name_and_rest(name + " "@ + rest) == (name, rest),
{
    reveal_strlit(" ");
    lemma_cut_after(name, " "@, rest);
}

/// A dispatcher that is not known is refused, by its name and its arguments.
pub proof fn law_unknown_dispatchers_are_refused(name: Seq<char>, rest: Seq<char>)
    requires
        lacks(name, ' '),
        !known_dispatchers().contains(name),
    ensures
        lua_dispatch(name + " "@ + rest) == Err::<Seq<char>, TranslateErrorView>(
            TranslateErrorView::UnknownDispatcher(name, rest),
        ),
        lua_dispatch(name) == Err::<Seq<char>, TranslateErrorView>(
            TranslateErrorView::UnknownDispatcher(name, ""@),
        ),
{
    reveal_strlit(" ");
    lemma_call(name, rest);
    let all = known_dispatchers();
    assert(all[0] == "focuswindow"@ && all[1] == "setfloating"@ && all[2] == "closewindow"@
        && all[3] == "fullscreen"@ && all[4] == "movetoworkspacesilent"@ && all[5]
        == "movewindowpixel"@ && all[6] == "resizewindowpixel"@ && all[7] == "layoutmsg"@ && all[8]
        == "moveworkspacetomonitor"@ && all[9] == "workspace"@ && all[10] == "exec"@);
    assert forall|i: int| 0 <= i < 11 implies name != #[trigger] all[i] by {
        if name == all[i] {
            assert(all.contains(name));
        }
    }
    if occurs(name, " "@) {
        let i = choose|i: int| occurs_at(name, " "@, i);
        assert(name.subrange(i, i + 1)[0] == name[i]);
    }
}

/// The three dispatchers that take a window take its selector as it is, and
/// refuse anything else.
pub proof fn law_windows_are_selected_by_address(rest: Seq<char>, address: Seq<char>)
    ensures
        lua_dispatch("focuswindow"@ + " "@ + ("address:"@ + address)) == Ok::<
            Seq<char>,
            TranslateErrorView,
        >("hl.dsp.focus({ window = \"address:"@ + address + "\" })"@),
        lua_dispatch("setfloating"@ + " "@ + ("address:"@ + address)) == Ok::<
            Seq<char>,
            TranslateErrorView,
        >("hl.dsp.window.float({ window = \"address:"@ + address + "\" })"@),
        lua_dispatch("closewindow"@ + " "@ + ("address:"@ + address)) == Ok::<
            Seq<char>,
            TranslateErrorView,
        >("hl.dsp.window.close({ window = \"address:"@ + address + "\" })"@),
        (forall|a: Seq<char>| rest != #[trigger] ("address:"@ + a)) ==> {
            let refused = Err::<Seq<char>, TranslateErrorView>(
                TranslateErrorView::NotAnAddress(rest),
            );
            &&& lua_dispatch("focuswindow"@ + " "@ + rest) == refused
            &&& lua_dispatch("setfloating"@ + " "@ + rest) == refused
            &&& lua_dispatch("closewindow"@ + " "@ + rest) == refused
        },
{
    let selector = "address:"@ + address;
    lemma_names();
    let all = known_dispatchers();
    assert(all[0] == "focuswindow"@ && all[1] == "setfloating"@ && all[2] == "closewindow"@);
    lemma_call(all[0], selector);
    lemma_call(all[1], selector);
    lemma_call(all[2], selector);
    lemma_call(all[0], rest);
    lemma_call(all[1], rest);
    lemma_call(all[2], rest);
    law_affixes_come_off(address, "address:"@);
    law_affixes_come_off(rest, "address:"@);
    if let Some(a) = after_prefix(rest, "address:"@) {
        assert("address:"@ + a == rest);
    }
    reveal_strlit("address:");
    reveal_strlit("({ window = \"");
    reveal_strlit("hl.dsp.focus");
    reveal_strlit("hl.dsp.window.float");
    reveal_strlit("hl.dsp.window.close");
    reveal_strlit("hl.dsp.focus({ window = \"address:");
    reveal_strlit("hl.dsp.window.float({ window = \"address:");
    reveal_strlit("hl.dsp.window.close({ window = \"address:");
    let opening = "({ window = \""@ + "address:"@;
    assert("hl.dsp.focus"@ + opening =~= "hl.dsp.focus({ window = \"address:"@);
    assert("hl.dsp.window.float"@ + opening =~= "hl.dsp.window.float({ window = \"address:"@);
    assert("hl.dsp.window.close"@ + opening =~= "hl.dsp.window.close({ window = \"address:"@);
    assert(window_call("hl.dsp.focus"@, selector) =~= "hl.dsp.focus"@ + opening + address
        + "\" })"@);
    assert(window_call("hl.dsp.window.float"@, selector) =~= "hl.dsp.window.float"@ + opening
        + address + "\" })"@);
    assert(window_call("hl.dsp.window.close"@, selector) =~= "hl.dsp.window.close"@ + opening
        + address + "\" })"@);
}

/// Making a window fullscreen, or moving it to a workspace, keeps the mode or
/// the workspace that stands before the comma, and refuses what has no comma or no
/// selector behind it.
pub proof fn law_placements_keep_their_argument(
    leading: Seq<char>,
    address: Seq<char>,
    tail: Seq<char>,
)
    requires
        lacks(leading, ','),
    ensures
        lua_dispatch("fullscreen"@ + " "@ + (leading + ","@ + ("address:"@ + address))) == Ok::<
            Seq<char>,
            TranslateErrorView,
        >(
            "hl.dsp.window.fullscreen({ window = \""@ + ("address:"@ + address) + "\", mode = "@
                + leading + " })"@,
        ),
        lua_dispatch("movetoworkspacesilent"@ + " "@ + (leading + ","@ + ("address:"@ + address)))
            == Ok::<Seq<char>, TranslateErrorView>(
            "hl.dsp.window.move({ window = \""@ + ("address:"@ + address) + "\", workspace = \""@
                + leading + "\" })"@,
        ),
        lua_dispatch("fullscreen"@ + " "@ + leading) == Err::<Seq<char>, TranslateErrorView>(
            TranslateErrorView::NoComma(leading),
        ),
        lua_dispatch("movetoworkspacesilent"@ + " "@ + leading) == Err::<
            Seq<char>,
            TranslateErrorView,
        >(TranslateErrorView::NoComma(leading)),
        (forall|a: Seq<char>| tail != #[trigger] ("address:"@ + a)) ==> {
            let refused = Err::<Seq<char>, TranslateErrorView>(
                TranslateErrorView::NoAddressAfterComma(tail),
            );
            &&& lua_dispatch("fullscreen"@ + " "@ + (leading + ","@ + tail)) == refused
            &&& lua_dispatch("movetoworkspacesilent"@ + " "@ + (leading + ","@ + tail)) == refused
        },
{
    reveal_strlit(",");
    let selector = "address:"@ + address;
    lemma_names();
    let all = known_dispatchers();
    assert(all[0] == "focuswindow"@ && all[1] == "setfloating"@ && all[2] == "closewindow"@
        && all[3] == "fullscreen"@ && all[4] == "movetoworkspacesilent"@);
    lemma_call(all[3], leading + ","@ + selector);
    lemma_call(all[4], leading + ","@ + selector);
    lemma_call(all[3], leading + ","@ + tail);
    lemma_call(all[4], leading + ","@ + tail);
    lemma_call(all[3], leading);
    lemma_call(all[4], leading);
    lemma_cut_after(leading, ","@, selector);
    lemma_cut_after(leading, ","@, tail);
    law_affixes_come_off(address, "address:"@);
    law_affixes_come_off(tail, "address:"@);
    if let Some(a) = after_prefix(tail, "address:"@) {
        assert("address:"@ + a == tail);
    }
    if occurs(leading, ","@) {
        let i = choose|i: int| occurs_at(leading, ","@, i);
        assert(leading.subrange(i, i + 1)[0] == leading[i]);
    }
}

/// A position or a size keeps its two numbers in their order, and its selector;
/// a size also tells whether it is exact. What has no selector or only one number
/// is refused.
pub proof fn law_geometry_keeps_its_numbers(a: Seq<char>, b: Seq<char>, address: Seq<char>)
    requires
        lacks(a, ' '),
        lacks(a, ',') && lacks(b, ','),
        lacks(address, ','),
        a != "exact"@,
    ensures
        ({
            let rest = a + " "@ + b + ",address:"@ + address;
            let moved = Ok::<Seq<char>, TranslateErrorView>(
                "hl.dsp.window.move({ window = \"address:"@ + address + "\", x = "@ + a
                    + ", y = "@ + b + " })"@,
            );
            &&& lua_dispatch("movewindowpixel"@ + " "@ + rest) == moved
            &&& lua_dispatch("movewindowpixel"@ + " "@ + ("exact "@ + rest)) == moved
            &&& lua_dispatch("resizewindowpixel"@ + " "@ + rest) == Ok::<
                Seq<char>,
                TranslateErrorView,
            >(
                "hl.dsp.window.resize({ window = \"address:"@ + address + "\", x = "@ + a
                    + ", y = "@ + b + ", exact = "@ + "false"@ + " })"@,
            )
            &&& lua_dispatch("resizewindowpixel"@ + " "@ + ("exact "@ + rest)) == Ok::<
                Seq<char>,
                TranslateErrorView,
            >(
                "hl.dsp.window.resize({ window = \"address:"@ + address + "\", x = "@ + a
                    + ", y = "@ + b + ", exact = "@ + "true"@ + " })"@,
            )
            &&& lua_dispatch("movewindowpixel"@ + " "@ + (a + ",address:"@ + address)) == Err::<
                Seq<char>,
                TranslateErrorView,
            >(TranslateErrorView::MovePosition(a))
            &&& lua_dispatch("resizewindowpixel"@ + " "@ + (a + ",address:"@ + address)) == Err::<
                Seq<char>,
                TranslateErrorView,
            >(TranslateErrorView::ResizeSize(a))
            &&& lua_dispatch("movewindowpixel"@ + " "@ + a) == Err::<
                Seq<char>,
                TranslateErrorView,
            >(TranslateErrorView::MoveSelector(a))
            &&& lua_dispatch("resizewindowpixel"@ + " "@ + a) == Err::<
                Seq<char>,
                TranslateErrorView,
            >(TranslateErrorView::ResizeSelector(a))
        }),
{
    reveal_strlit(" ");
    reveal_strlit(",address:");
    reveal_strlit("exact");
    reveal_strlit("exact ");
    let pair = a + " "@ + b;
    let rest = a + " "@ + b + ",address:"@ + address;
    let lone = a + ",address:"@ + address;
    lemma_names();
    let all = known_dispatchers();
    assert(all[0] == "focuswindow"@ && all[1] == "setfloating"@ && all[2] == "closewindow"@
        && all[3] == "fullscreen"@ && all[4] == "movetoworkspacesilent"@ && all[5]
        == "movewindowpixel"@ && all[6] == "resizewindowpixel"@);
    lemma_call(all[5], rest);
    lemma_call(all[6], rest);
    lemma_call(all[5], "exact "@ + rest);
    lemma_call(all[6], "exact "@ + rest);
    lemma_call(all[5], lone);
    lemma_call(all[6], lone);
    lemma_call(all[5], a);
    lemma_call(all[6], a);
    law_affixes_come_off(rest, "exact "@);
    lemma_not_exact(a, " "@ + b + ",address:"@ + address);
    lemma_not_exact(a, ",address:"@ + address);
    lemma_not_exact(a, Seq::<char>::empty());
    assert(rest =~= a + (" "@ + b + ",address:"@ + address));
    assert(lone =~= a + (",address:"@ + address));
    assert(a =~= a + Seq::<char>::empty());
    lemma_selector(pair, address);
    lemma_selector(a, address);
    lemma_cut_after(a, " "@, b);
    if occurs(a, " "@) {
        let i = choose|i: int| occurs_at(a, " "@, i);
        assert(a.subrange(i, i + 1)[0] == a[i]);
    }
    if occurs(a, ",address:"@) {
        let i = choose|i: int| occurs_at(a, ",address:"@, i);
        assert(a.subrange(i, i + 9)[0] == a[i]);
    }
}

proof fn lemma_not_exact(a: Seq<char>, tail: Seq<char>)
    requires
        lacks(a, ' '),
        a != "exact"@,
        tail.len() == 0 || tail[0] == ' ' || tail[0] == ',',
    ensures
        after_prefix(a + tail, "exact "@) is None,
{
    reveal_strlit("exact");
    reveal_strlit("exact ");
    let s = a + tail;
    if starts_with_seq(s, "exact "@) {
        assert forall|k: int| 0 <= k < 6 implies s[k] == "exact "@[k] by {
            assert(s.take(6)[k] == s[k]);
        }
        if a.len() > 5 {
            assert(s[5] == a[5]);
        } else if a.len() == 5 {
            assert forall|k: int| 0 <= k < 5 implies a[k] == "exact"@[k] by {
                assert(s[k] == a[k]);
            }
            assert(a =~= "exact"@);
        } else {
            assert(s[a.len() as int] == tail[0]);
        }
    }
}

proof fn lemma_selector(head: Seq<char>, address: Seq<char>)
    requires
        lacks(address, ','),
    ensures
        cut_last(head + ",address:"@ + address, ",address:"@) == Some((head, address)),
{
    reveal_strlit(",address:");
    let pat = ",address:"@;
    let s = head + pat + address;
    let n = head.len() as int;
    assert(s.subrange(n, n + 9) =~= pat);
    assert forall|j: int| n < j implies !occurs_at(s, pat, j) by {
        if occurs_at(s, pat, j) {
            assert(s.subrange(j, j + 9)[0] == s[j]);
            if j < n + 9 {
                assert(s[j] == pat[j - n]);
            } else {
                assert(s[j] == address[j - n - 9]);
            }
        }
    }
    assert(last_at(s, pat, n));
    lemma_cut_last(s, pat, n);
    assert(s.take(n) =~= head);
    assert(s.skip(n + 9) =~= address);
}

/// A workspace is bound to the monitor behind the first blank; a command and a
/// layout message are quoted whole; a workspace's name is taken as it is.
pub proof fn law_other_calls_keep_their_arguments(
    workspace: Seq<char>,
    monitor: Seq<char>,
    rest: Seq<char>,
)
    requires
        lacks(workspace, ' '),
    ensures
        lua_dispatch("moveworkspacetomonitor"@ + " "@ + (workspace + " "@ + monitor)) == Ok::<
            Seq<char>,
            TranslateErrorView,
        >(
            "hl.dsp.workspace.move({ workspace = \""@ + workspace + "\", monitor = \""@ + monitor
                + "\" })"@,
        ),
        lua_dispatch("moveworkspacetomonitor"@ + " "@ + workspace) == Err::<
            Seq<char>,
            TranslateErrorView,
        >(TranslateErrorView::NoMonitor(workspace)),
        lua_dispatch("layoutmsg"@ + " "@ + rest) == Ok::<Seq<char>, TranslateErrorView>(
            "hl.dsp.layout("@ + quoted(rest) + ")"@,
        ),
        lua_dispatch("exec"@ + " "@ + rest) == Ok::<Seq<char>, TranslateErrorView>(
            "hl.dsp.exec_cmd("@ + quoted(rest) + ")"@,
        ),
        lua_dispatch("workspace"@ + " "@ + rest) == Ok::<Seq<char>, TranslateErrorView>(
            "hl.dsp.workspace(\""@ + rest + "\")"@,
        ),
{
    reveal_strlit(" ");
    lemma_names();
    let all = known_dispatchers();
    assert(all[0] == "focuswindow"@ && all[1] == "setfloating"@ && all[2] == "closewindow"@
        && all[3] == "fullscreen"@ && all[4] == "movetoworkspacesilent"@ && all[5]
        == "movewindowpixel"@ && all[6] == "resizewindowpixel"@ && all[7] == "layoutmsg"@ && all[8]
        == "moveworkspacetomonitor"@ && all[9] == "workspace"@ && all[10] == "exec"@);
    lemma_call(all[8], workspace + " "@ + monitor);
    lemma_call(all[8], workspace);
    lemma_call(all[7], rest);
    lemma_call(all[9], rest);
    lemma_call(all[10], rest);
    lemma_cut_after(workspace, " "@, monitor);
    if occurs(workspace, " "@) {
        let i = choose|i: int| occurs_at(workspace, " "@, i);
        assert(workspace.subrange(i, i + 1)[0] == workspace[i]);
    }
}

/// Each refusal says what was expected and shows what was there.
pub proof fn law_refusals_say_why(s: Seq<char>, name: Seq<char>)
    ensures
        TranslateErrorView::NotAnAddress(s).message() == "expected `address:0x..`, got "@
            + debug_form(s),
        TranslateErrorView::NoComma(s).message() == "expected `<arg>,address:<addr>`, got "@
            + debug_form(s),
        TranslateErrorView::NoAddressAfterComma(s).message()
            == "expected `address:0x..` after comma, got "@ + debug_form(s),
        TranslateErrorView::MoveSelector(s).message()
            == "movewindowpixel: expected `<x> <y>,address:<addr>`, got "@ + debug_form(s),
        TranslateErrorView::MovePosition(s).message()
            == "movewindowpixel: expected `<x> <y>`, got "@ + debug_form(s),
        TranslateErrorView::ResizeSelector(s).message()
            == "resizewindowpixel: expected `<w> <h>,address:<addr>`, got "@ + debug_form(s),
        TranslateErrorView::ResizeSize(s).message()
            == "resizewindowpixel: expected `<w> <h>`, got "@ + debug_form(s),
        TranslateErrorView::NoMonitor(s).message()
            == "moveworkspacetomonitor: expected `<ws> <monitor>`, got "@ + debug_form(s),
        TranslateErrorView::UnknownDispatcher(name, s).message()
            == "lua_compat: no translation for dispatcher "@ + debug_form(name) + " (args: "@
            + debug_form(s) + ")"@,
{
}

} // verus!
