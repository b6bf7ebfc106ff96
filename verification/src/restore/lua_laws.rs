//! Every dispatch that a restore sends can be said in Lua.
use super::command::{
    bind_args, close_args, float_args, focus_args, fullscreen_args, move_args, nudge_args,
    position_args, preselect_args, resize_args, workspace_args,
};
use super::launch::{exec_args, LaunchModeView};
use crate::ipc::lua_compat::{
    lua_dispatch, name_and_rest, position_call, quoted, size_call, window_call,
    TranslateErrorView,
};
use crate::layout::dwindle::PreselDir;
use crate::layout::master::MasterOrientation;
use crate::models::WindowEntryView;
use crate::text::{
    after_prefix, cut_first, cut_last, decimal, lacks, last_at, lemma_cut_after, lemma_cut_last,
    occurs_at, starts_with_seq,
};
use vstd::prelude::*;

verus! {

proof fn lemma_call(name: Seq<char>, rest: Seq<char>)
    requires
        lacks(name, ' '),
    ensures
        name_and_rest(name + " "@ + rest) == (name, rest),
{
    reveal_strlit(" ");
    lemma_cut_after(name, " "@, rest);
}

proof fn lemma_address(address: Seq<char>)
    ensures
        starts_with_seq("address:0x"@ + address, "address:"@),
{
    reveal_strlit("address:0x");
    reveal_strlit("address:");
    let s = "address:0x"@ + address;
    assert(s.take(8) =~= "address:"@);
}

/// Focusing, floating and closing a window translate to calls on its address.
pub proof fn law_window_dispatches_translate(address: Seq<char>)
    ensures
        lua_dispatch(focus_args(address)) == Ok::<Seq<char>, TranslateErrorView>(
            window_call("hl.dsp.focus"@, "address:0x"@ + address),
        ),
        lua_dispatch(float_args(address)) == Ok::<Seq<char>, TranslateErrorView>(
            window_call("hl.dsp.window.float"@, "address:0x"@ + address),
        ),
        lua_dispatch(close_args(address)) == Ok::<Seq<char>, TranslateErrorView>(
            window_call("hl.dsp.window.close"@, "address:0x"@ + address),
        ),
{
    let selector = "address:0x"@ + address;
    lemma_address(address);
    reveal_strlit(" ");
    reveal_strlit("address:0x");
    reveal_strlit("focuswindow");
    reveal_strlit("setfloating");
    reveal_strlit("closewindow");
    reveal_strlit("focuswindow address:0x");
    reveal_strlit("setfloating address:0x");
    reveal_strlit("closewindow address:0x");
    assert(focus_args(address) =~= "focuswindow"@ + " "@ + selector);
    assert(float_args(address) =~= "setfloating"@ + " "@ + selector);
    assert(close_args(address) =~= "closewindow"@ + " "@ + selector);
    lemma_call("focuswindow"@, selector);
    lemma_call("setfloating"@, selector);
    lemma_call("closewindow"@, selector);
    assert("setfloating"@[0] != "focuswindow"@[0]);
    assert("closewindow"@[0] != "focuswindow"@[0]);
    assert("closewindow"@[0] != "setfloating"@[0]);
}

/// Moving a window to a workspace whose name has no comma translates, and so
/// does making it fullscreen.
pub proof fn law_placement_dispatches_translate(workspace: Seq<char>, address: Seq<char>)
    requires
        forall|i: int| 0 <= i < workspace.len() ==> workspace[i] != ',',
    ensures
        lua_dispatch(move_args(workspace, address)) == Ok::<Seq<char>, TranslateErrorView>(
            "hl.dsp.window.move({ window = \""@ + ("address:0x"@ + address) + "\", workspace = \""@
                + workspace + "\" })"@,
        ),
        lua_dispatch(fullscreen_args(address)) == Ok::<Seq<char>, TranslateErrorView>(
            "hl.dsp.window.fullscreen({ window = \""@ + ("address:0x"@ + address) + "\", mode = "@
                + "0"@ + " })"@,
        ),
{
    let selector = "address:0x"@ + address;
    lemma_address(address);
    reveal_strlit(" ");
    reveal_strlit(",");
    reveal_strlit("0");
    reveal_strlit("address:0x");
    reveal_strlit(",address:0x");
    reveal_strlit("focuswindow");
    reveal_strlit("setfloating");
    reveal_strlit("closewindow");
    reveal_strlit("fullscreen");
    reveal_strlit("movetoworkspacesilent");
    reveal_strlit("movetoworkspacesilent ");
    reveal_strlit("fullscreen 0,address:0x");
    let full = "0"@ + ","@ + selector;
    let moved = workspace + ","@ + selector;
    assert(fullscreen_args(address) =~= "fullscreen"@ + " "@ + full);
    assert(move_args(workspace, address) =~= "movetoworkspacesilent"@ + " "@ + moved);
    lemma_call("fullscreen"@, full);
    lemma_call("movetoworkspacesilent"@, moved);
    lemma_cut_after("0"@, ","@, selector);
    lemma_cut_after(workspace, ","@, selector);
    assert("fullscreen"@.len() == 10 && "focuswindow"@.len() == 11);
    assert("movetoworkspacesilent"@[0] == 'm');
}

proof fn lemma_has_space_and_selector(a: Seq<char>, b: Seq<char>, address: Seq<char>)
    ensures
        ({
            let s = a + " "@ + b + ",address:0x"@ + address;
            &&& cut_last(s, ",address:"@) is Some
            &&& cut_first((cut_last(s, ",address:"@)->0).0, " "@) is Some
        }),
{
    reveal_strlit(" ");
    reveal_strlit(",address:0x");
    reveal_strlit(",address:");
    let pat = ",address:"@;
    let s = a + " "@ + b + ",address:0x"@ + address;
    let n = (a.len() + 1 + b.len()) as int;
    assert(s.subrange(n, n + 9) =~= pat);
    assert(occurs_at(s, pat, n));
    lemma_last_exists(s, pat, n);
    let k = choose|k: int| last_at(s, pat, k);
    assert(k >= n);
    let head = s.take(k);
    assert(head.subrange(a.len() as int, a.len() as int + 1) =~= " "@);
    assert(occurs_at(head, " "@, a.len() as int));
}

proof fn lemma_last_exists(s: Seq<char>, pat: Seq<char>, i: int)
    requires
        occurs_at(s, pat, i),
    ensures
        exists|j: int| last_at(s, pat, j),
    decreases s.len() - i,
{
    if exists|j: int| i < j && occurs_at(s, pat, j) {
        let j = choose|j: int| i < j && occurs_at(s, pat, j);
        lemma_last_exists(s, pat, j);
    } else {
        assert(last_at(s, pat, i));
    }
}

/// The selector and the two numbers of a geometry dispatch are told apart.
proof fn lemma_parts_of_geometry(a: int, b: int, address: Seq<char>)
    requires
        lacks(address, ','),
    ensures
        ({
            let s = decimal(a) + " "@ + decimal(b) + ",address:0x"@ + address;
            &&& cut_last(s, ",address:"@) == Some(
                (decimal(a) + " "@ + decimal(b), "0x"@ + address),
            )
            &&& cut_first(decimal(a) + " "@ + decimal(b), " "@) == Some((decimal(a), decimal(b)))
        }),
{
    reveal_strlit(" ");
    reveal_strlit("0x");
    reveal_strlit(",address:0x");
    reveal_strlit(",address:");
    let pat = ",address:"@;
    let pair = decimal(a) + " "@ + decimal(b);
    let s = pair + ",address:0x"@ + address;
    let n = pair.len() as int;
    assert(s.subrange(n, n + 9) =~= pat);
    assert forall|j: int| n < j implies !occurs_at(s, pat, j) by {
        if occurs_at(s, pat, j) {
            assert(s.subrange(j, j + 9)[0] == s[j]);
            if j < n + 11 {
                assert(s[j] == ",address:0x"@[j - n]);
            } else {
                assert(s[j] == address[j - n - 11]);
            }
        }
    }
    assert(last_at(s, pat, n));
    lemma_cut_last(s, pat, n);
    assert(s.take(n) =~= pair);
    assert(s.skip(n + 9) =~= "0x"@ + address);
    lemma_decimal_has_no_space(a);
    lemma_cut_after(decimal(a), " "@, decimal(b));
}

proof fn lemma_geometry_names(rest: Seq<char>)
    ensures
        lua_dispatch("resizewindowpixel"@ + " "@ + rest) == size_call(rest),
        lua_dispatch("movewindowpixel"@ + " "@ + rest) == position_call(rest),
{
    reveal_strlit("focuswindow");
    reveal_strlit("setfloating");
    reveal_strlit("closewindow");
    reveal_strlit("fullscreen");
    reveal_strlit("movetoworkspacesilent");
    reveal_strlit("movewindowpixel");
    reveal_strlit("resizewindowpixel");
    lemma_call("resizewindowpixel"@, rest);
    lemma_call("movewindowpixel"@, rest);
    assert("resizewindowpixel"@[0] == 'r');
    assert("movewindowpixel"@[4] == 'w' && "movetoworkspacesilent"@[4] == 't');
}

/// The numbers and the selector of a geometry dispatch.
spec fn geometry_rest(a: int, b: int, address: Seq<char>) -> Seq<char> {
    decimal(a) + " "@ + decimal(b) + ",address:0x"@ + address
}

proof fn lemma_geometry_args(a: int, b: int, address: Seq<char>)
    ensures
        resize_args(a, b, address) == "resizewindowpixel"@ + " "@ + ("exact "@ + geometry_rest(
            a,
            b,
            address,
        )),
        nudge_args(a, b, address) == "resizewindowpixel"@ + " "@ + geometry_rest(a, b, address),
        position_args(a, b, address) == "movewindowpixel"@ + " "@ + ("exact "@ + geometry_rest(
            a,
            b,
            address,
        )),
{
    reveal_strlit(" ");
    reveal_strlit("exact ");
    reveal_strlit("movewindowpixel");
    reveal_strlit("resizewindowpixel");
    reveal_strlit("movewindowpixel exact ");
    reveal_strlit("resizewindowpixel exact ");
    reveal_strlit("resizewindowpixel ");
    let plain = geometry_rest(a, b, address);
    let exact = "exact "@ + plain;
    assert(resize_args(a, b, address) =~= "resizewindowpixel"@ + " "@ + exact);
    assert(nudge_args(a, b, address) =~= "resizewindowpixel"@ + " "@ + plain);
    assert(position_args(a, b, address) =~= "movewindowpixel"@ + " "@ + exact);
}

proof fn lemma_exact_prefix(a: int, b: int, address: Seq<char>)
    ensures
        after_prefix("exact "@ + geometry_rest(a, b, address), "exact "@) == Some(
            geometry_rest(a, b, address),
        ),
        after_prefix(geometry_rest(a, b, address), "exact "@) is None,
{
    reveal_strlit("exact ");
    let plain = geometry_rest(a, b, address);
    let exact = "exact "@ + plain;
    assert(exact.take(6) =~= "exact "@);
    assert(exact.skip(6) =~= plain);
    lemma_decimal_is_no_word(a);
    assert(plain[0] == decimal(a)[0]);
    if starts_with_seq(plain, "exact "@) {
        assert(plain.take(6)[0] == plain[0]);
    }
}

/// Giving a window a size or a position translates, whatever the numbers: to a
/// call on its address with the same numbers, if the address has no comma.
pub proof fn law_geometry_dispatches_translate(a: int, b: int, address: Seq<char>)
    ensures
        lua_dispatch(resize_args(a, b, address)) is Ok,
        lua_dispatch(nudge_args(a, b, address)) is Ok,
        lua_dispatch(position_args(a, b, address)) is Ok,
        lacks(address, ',') ==> {
            &&& lua_dispatch(resize_args(a, b, address)) == Ok::<Seq<char>, TranslateErrorView>(
                "hl.dsp.window.resize({ window = \"address:"@ + ("0x"@ + address) + "\", x = "@
                    + decimal(a) + ", y = "@ + decimal(b) + ", exact = "@ + "true"@ + " })"@,
            )
            &&& lua_dispatch(nudge_args(a, b, address)) == Ok::<Seq<char>, TranslateErrorView>(
                "hl.dsp.window.resize({ window = \"address:"@ + ("0x"@ + address) + "\", x = "@
                    + decimal(a) + ", y = "@ + decimal(b) + ", exact = "@ + "false"@ + " })"@,
            )
            &&& lua_dispatch(position_args(a, b, address)) == Ok::<Seq<char>, TranslateErrorView>(
                "hl.dsp.window.move({ window = \"address:"@ + ("0x"@ + address) + "\", x = "@
                    + decimal(a) + ", y = "@ + decimal(b) + " })"@,
            )
        },
{
    let plain = geometry_rest(a, b, address);
    lemma_geometry_args(a, b, address);
    lemma_geometry_names(plain);
    lemma_geometry_names("exact "@ + plain);
    lemma_exact_prefix(a, b, address);
    lemma_has_space_and_selector(decimal(a), decimal(b), address);
    if lacks(address, ',') {
        lemma_parts_of_geometry(a, b, address);
    }
}

proof fn lemma_digits_nonempty(n: nat)
    ensures
        crate::text::digits(n).len() > 0,
        '0' <= crate::text::digits(n)[0] <= '9',
    decreases n,
{
    if n >= 10 {
        lemma_digits_nonempty(n / 10);
        assert(crate::text::digits(n)[0] == crate::text::digits(n / 10)[0]);
    }
}

proof fn lemma_decimal_is_no_word(n: int)
    ensures
        decimal(n).len() > 0,
        decimal(n)[0] == '-' || '0' <= decimal(n)[0] <= '9',
{
    if n < 0 {
        lemma_digits_nonempty((-n) as nat);
    } else {
        lemma_digits_nonempty(n as nat);
    }
}

proof fn lemma_digits_have_no_space(n: nat)
    ensures
        lacks(crate::text::digits(n), ' '),
    decreases n,
{
    if n >= 10 {
        lemma_digits_have_no_space(n / 10);
    }
}

proof fn lemma_decimal_has_no_space(n: int)
    ensures
        lacks(decimal(n), ' '),
{
    if n < 0 {
        lemma_digits_have_no_space((-n) as nat);
    } else {
        lemma_digits_have_no_space(n as nat);
    }
}

spec fn is_window_name(name: Seq<char>) -> bool {
    name == "focuswindow"@ || name == "setfloating"@ || name == "closewindow"@ || name
        == "fullscreen"@ || name == "movetoworkspacesilent"@ || name == "movewindowpixel"@ || name
        == "resizewindowpixel"@
}

proof fn lemma_other_names()
    ensures
        !is_window_name("layoutmsg"@),
        !is_window_name("moveworkspacetomonitor"@),
        !is_window_name("workspace"@),
        !is_window_name("exec"@),
        "moveworkspacetomonitor"@ != "layoutmsg"@,
        "workspace"@ != "layoutmsg"@,
        "workspace"@ != "moveworkspacetomonitor"@,
        "exec"@ != "layoutmsg"@,
        "exec"@ != "moveworkspacetomonitor"@,
        "exec"@ != "workspace"@,
        lacks("layoutmsg"@, ' '),
        lacks("moveworkspacetomonitor"@, ' '),
        lacks("workspace"@, ' '),
        lacks("exec"@, ' '),
{
    reveal_strlit("focuswindow");
    reveal_strlit("setfloating");
    reveal_strlit("closewindow");
    reveal_strlit("fullscreen");
    reveal_strlit("movetoworkspacesilent");
    reveal_strlit("movewindowpixel");
    reveal_strlit("resizewindowpixel");
    reveal_strlit("layoutmsg");
    reveal_strlit("moveworkspacetomonitor");
    reveal_strlit("workspace");
    reveal_strlit("exec");
    assert("layoutmsg"@.len() == 9 && "workspace"@.len() == 9 && "exec"@.len() == 4);
    assert("layoutmsg"@[0] != "workspace"@[0]);
    assert("moveworkspacetomonitor"@.len() == 22);
}

/// Layout messages translate to the same message for the layout.
pub proof fn law_layout_messages_translate(message: Seq<char>)
    ensures
        lua_dispatch("layoutmsg"@ + " "@ + message) == Ok::<Seq<char>, TranslateErrorView>(
            "hl.dsp.layout("@ + quoted(message) + ")"@,
        ),
{
    lemma_other_names();
    lemma_call("layoutmsg"@, message);
}

/// The layout messages of a restore are layout messages.
pub proof fn law_restore_layout_messages(dir: PreselDir, orientation: MasterOrientation)
    ensures
        preselect_args(dir) == "layoutmsg"@ + " "@ + ("preselect "@ + dir.name()),
        "layoutmsg addmaster"@ == "layoutmsg"@ + " "@ + "addmaster"@,
        "layoutmsg orientation"@ + orientation.name() == "layoutmsg"@ + " "@ + ("orientation"@
            + orientation.name()),
{
    reveal_strlit(" ");
    reveal_strlit("layoutmsg");
    reveal_strlit("preselect ");
    reveal_strlit("addmaster");
    reveal_strlit("orientation");
    reveal_strlit("layoutmsg preselect ");
    reveal_strlit("layoutmsg addmaster");
    reveal_strlit("layoutmsg orientation");
    assert(preselect_args(dir) =~= "layoutmsg"@ + " "@ + ("preselect "@ + dir.name()));
    assert("layoutmsg addmaster"@ =~= "layoutmsg"@ + " "@ + "addmaster"@);
    assert("layoutmsg orientation"@ + orientation.name() =~= "layoutmsg"@ + " "@ + ("orientation"@
        + orientation.name()));
}

/// Workspace switches, launches and monitor bindings translate, whatever they
/// are about: a launch to a call with the same command, and a binding to one
/// with the same workspace and monitor, if the workspace's name has no space.
pub proof fn law_other_dispatches_translate(
    workspace: Seq<char>,
    monitor: Seq<char>,
    w: WindowEntryView,
    mode: LaunchModeView,
)
    ensures
        lua_dispatch(workspace_args(workspace)) == Ok::<Seq<char>, TranslateErrorView>(
            "hl.dsp.workspace(\""@ + workspace + "\")"@,
        ),
        lua_dispatch(exec_args(w, mode)) == Ok::<Seq<char>, TranslateErrorView>(
            "hl.dsp.exec_cmd("@ + quoted(exec_args(w, mode).skip("exec "@.len() as int)) + ")"@,
        ),
        lua_dispatch(bind_args(workspace, monitor)) is Ok,
        lacks(workspace, ' ') ==> lua_dispatch(bind_args(workspace, monitor)) == Ok::<
            Seq<char>,
            TranslateErrorView,
        >(
            "hl.dsp.workspace.move({ workspace = \""@ + workspace + "\", monitor = \""@ + monitor
                + "\" })"@,
        ),
{
    lemma_other_names();
    let command = exec_args(w, mode).skip(5);
    let home = workspace + " "@ + monitor;
    assert(workspace_args(workspace) =~= "workspace"@ + " "@ + workspace
        && exec_args(w, mode) =~= "exec"@ + " "@ + command && bind_args(workspace, monitor)
        =~= "moveworkspacetomonitor"@ + " "@ + home) by {
        reveal_strlit(" ");
        reveal_strlit("workspace");
        reveal_strlit("exec");
        reveal_strlit("exec ");
        reveal_strlit("exec [workspace ");
        reveal_strlit("workspace ");
        reveal_strlit("moveworkspacetomonitor");
        reveal_strlit("moveworkspacetomonitor ");
    }
    lemma_call("workspace"@, workspace);
    lemma_call("exec"@, command);
    lemma_call("moveworkspacetomonitor"@, home);
    reveal_strlit(" ");
    assert(home.subrange(workspace.len() as int, workspace.len() as int + 1) =~= " "@);
    assert(occurs_at(home, " "@, workspace.len() as int));
    if lacks(workspace, ' ') {
        lemma_cut_after(workspace, " "@, monitor);
    }
    assert("exec "@.len() == 5) by {
        reveal_strlit("exec ");
    }
}

} // verus!
