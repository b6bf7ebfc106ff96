//! What is sent for a window, word for word.
use super::command::{
    bind_args, binding, binds, close_args, disable_args, disabling, float_args, focus_args,
    fullscreen_args, home_of, move_args, nudge_args, placing, position_args, preselect_args,
    resize_args, shaping, workspace_args, CommandView,
};
use super::late::{late_applying, late_next, pending_from, LateView};
use super::launch::{
    launch_next, LaunchModeView, LaunchOutcomeView, LaunchStageView, LaunchStepView, LaunchView,
    LedgerView, MasterRole, PendingView, PlacementView,
};
use super::launch_cmd::{bsp_launch_line, launch_line};
use super::turn::{Answer, AskView};
use crate::ipc::event_listener::event_of;
use crate::layout::dwindle::PreselDir;
use crate::models::{HyprEventView, WindowEntry, WindowEntryView};
use crate::patterns::escaped;
use crate::text::{decimal, trimmed};
use vstd::prelude::*;

verus! {

/// The letter of a direction.
pub open spec fn letter(dir: PreselDir) -> Seq<char> {
    match dir {
        PreselDir::Right => seq!['r'],
        PreselDir::Bottom => seq!['d'],
    }
}

/// Window requests name the window by its address and carry their values in
/// the order in which the compositor takes them.
pub proof fn law_requests_read_as_meant(
    a: Seq<char>,
    ws: Seq<char>,
    monitor: Seq<char>,
    dir: PreselDir,
    x: int,
    y: int,
)
    ensures
        move_args(ws, a) == "movetoworkspacesilent "@ + ws + ",address:0x"@ + a,
        focus_args(a) == "focuswindow address:0x"@ + a,
        float_args(a) == "setfloating address:0x"@ + a,
        close_args(a) == "closewindow address:0x"@ + a,
        fullscreen_args(a) == "fullscreen 0,address:0x"@ + a,
        preselect_args(dir) == "layoutmsg preselect "@ + letter(dir),
        resize_args(x, y, a) == "resizewindowpixel exact "@ + decimal(x) + " "@ + decimal(y)
            + ",address:0x"@ + a,
        nudge_args(x, y, a) == "resizewindowpixel "@ + decimal(x) + " "@ + decimal(y)
            + ",address:0x"@ + a,
        position_args(x, y, a) == "movewindowpixel exact "@ + decimal(x) + " "@ + decimal(y)
            + ",address:0x"@ + a,
        workspace_args(ws) == "workspace "@ + ws,
        bind_args(ws, monitor) == "moveworkspacetomonitor "@ + ws + " "@ + monitor,
        disable_args(ws) == "windowrule["@ + ws + "]:enable false"@,
{
    reveal_strlit("r");
    reveal_strlit("d");
    assert("r"@ =~= seq!['r']);
    assert("d"@ =~= seq!['d']);
}

/// What settles the window at `a` in its slot: it is moved to the workspace,
/// focused and floated out; then the window at the anchor is focused, the side
/// is preselected, and the window settles.
pub open spec fn slot_requests(
    a: Seq<char>,
    ws: Seq<char>,
    anchor: Option<(Seq<char>, PreselDir)>,
) -> Seq<CommandView> {
    let out = seq![
        CommandView::Dispatch("movetoworkspacesilent "@ + ws + ",address:0x"@ + a),
        CommandView::Dispatch("focuswindow address:0x"@ + a),
        CommandView::Dispatch("setfloating address:0x"@ + a),
    ];
    match anchor {
        Some((other, dir)) => out + seq![
            CommandView::Dispatch("focuswindow address:0x"@ + other),
            CommandView::Dispatch("layoutmsg preselect "@ + letter(dir)),
            CommandView::Dispatch("setfloating address:0x"@ + a),
        ],
        None => out + seq![CommandView::Dispatch("setfloating address:0x"@ + a)],
    }
}

proof fn lemma_placing(a: Seq<char>, ws: Seq<char>, anchor: Option<(Seq<char>, PreselDir)>)
    ensures
        placing(a, ws, anchor) == slot_requests(a, ws, anchor),
{
    let dir = match anchor {
        Some((_, d)) => d,
        None => PreselDir::Right,
    };
    law_requests_read_as_meant(a, ws, ws, dir, 0, 0);
    assert(placing(a, ws, anchor) =~= slot_requests(a, ws, anchor));
}

/// `sent` ends with the given requests.
pub open spec fn ends_in(sent: Seq<CommandView>, tail: Seq<CommandView>) -> bool {
    sent.len() >= tail.len() && sent.skip(sent.len() - tail.len()) == tail
}

/// A window that a tiled launch ends with is settled beside the anchor of the
/// launch, on the side that the launch names.
pub proof fn law_tiled_window_settles_beside_the_anchor(
    w: WindowEntryView,
    l: LaunchView,
    led: LedgerView,
    answer: Answer,
    anchor: Option<(Seq<char>, PreselDir)>,
)
    requires
        l.mode == LaunchModeView::Bsp(anchor),
    ensures
        launch_next(w, l, led, answer).1 matches LaunchStepView::Over(sent, outcome)
            ==> match outcome {
            LaunchOutcomeView::Opened(a) => ends_in(sent, slot_requests(a, w.workspace, anchor)),
            LaunchOutcomeView::Adopted(a) => ends_in(sent, slot_requests(a, w.workspace, anchor)),
            _ => sent.len() == 0,
        },
{
    if let LaunchStepView::Over(sent, outcome) = launch_next(w, l, led, answer).1 {
        match outcome {
            LaunchOutcomeView::Opened(a) => {
                lemma_placing(a, w.workspace, anchor);
                let tail = slot_requests(a, w.workspace, anchor);
                assert(sent.skip(sent.len() - tail.len()) =~= tail);
            },
            LaunchOutcomeView::Adopted(a) => {
                lemma_placing(a, w.workspace, anchor);
                let tail = slot_requests(a, w.workspace, anchor);
                assert(sent.skip(sent.len() - tail.len()) =~= tail);
            },
            _ => {},
        }
    }
}

/// A window that a plain launch ends with is moved to its workspace, and
/// promoted to the master area where that is its role.
pub proof fn law_plain_window_is_moved_and_promoted(
    w: WindowEntryView,
    l: LaunchView,
    led: LedgerView,
    answer: Answer,
    role: MasterRole,
)
    requires
        l.mode == LaunchModeView::Plain(role),
    ensures
        launch_next(w, l, led, answer).1 matches LaunchStepView::Over(sent, outcome)
            ==> match outcome {
            LaunchOutcomeView::Opened(a) => ends_in(
                sent,
                if role is Promote {
                    seq![
                        CommandView::Dispatch(
                            "movetoworkspacesilent "@ + w.workspace + ",address:0x"@ + a,
                        ),
                        CommandView::Dispatch("layoutmsg addmaster"@),
                    ]
                } else {
                    seq![
                        CommandView::Dispatch(
                            "movetoworkspacesilent "@ + w.workspace + ",address:0x"@ + a,
                        ),
                    ]
                },
            ),
            LaunchOutcomeView::Adopted(a) => ends_in(
                sent,
                seq![
                    CommandView::Dispatch(
                        "movetoworkspacesilent "@ + w.workspace + ",address:0x"@ + a,
                    ),
                ],
            ),
            _ => sent.len() == 0,
        },
{
    if let LaunchStepView::Over(sent, outcome) = launch_next(w, l, led, answer).1 {
        match outcome {
            LaunchOutcomeView::Opened(a) => {
                let moved = CommandView::Dispatch(
                    "movetoworkspacesilent "@ + w.workspace + ",address:0x"@ + a,
                );
                let tail = if role is Promote {
                    seq![moved, CommandView::Dispatch("layoutmsg addmaster"@)]
                } else {
                    seq![moved]
                };
                assert(sent.skip(sent.len() - tail.len()) =~= tail);
            },
            LaunchOutcomeView::Adopted(a) => {
                let tail = seq![
                    CommandView::Dispatch(
                        "movetoworkspacesilent "@ + w.workspace + ",address:0x"@ + a,
                    ),
                ];
                assert(sent.skip(sent.len() - tail.len()) =~= tail);
            },
            _ => {},
        }
    }
}

/// A launch sets up a rule for the window's class and workspace, starts the
/// saved command, and waits for a window of the class. A request that is
/// refused ends it with the message; a start that is refused names the command.
pub proof fn law_launch_goes_step_by_step(
    w: WindowEntryView,
    l: LaunchView,
    led: LedgerView,
    answer: Answer,
)
    ensures
        ({
            let (after, step) = launch_next(w, l, led, answer);
            let refused = match answer {
                Answer::Failed(message) => Some(message@),
                _ => None,
            };
            match l.stage {
                LaunchStageView::Probe => step matches LaunchStepView::Going(next, turn) ==> {
                    &&& next.stage is ClassRule
                    &&& next.mode == l.mode
                    &&& turn.commands.len() == 0
                    &&& turn.ask == AskView::Send(
                        CommandView::Keyword(
                            "windowrule["@ + next.rule_name + "]:match:class ^("@ + escaped(
                                w.app_id,
                            ) + ")$"@,
                        ),
                    )
                },
                LaunchStageView::ClassRule => match refused {
                    Some(message) => step == LaunchStepView::Over(
                        seq![],
                        LaunchOutcomeView::Failed(message),
                    ) && after == led,
                    None => step matches LaunchStepView::Going(next, turn) && next.stage
                        is WorkspaceRule && next.rule_name == l.rule_name && next.mode == l.mode
                        && turn.commands.len() == 0 && turn.ask == AskView::Send(
                        CommandView::Keyword(
                            "windowrule["@ + l.rule_name + "]:workspace "@ + w.workspace
                                + " silent"@,
                        ),
                    ),
                },
                LaunchStageView::WorkspaceRule => match refused {
                    Some(message) => step == LaunchStepView::Over(
                        seq![],
                        LaunchOutcomeView::Failed(message),
                    ) && after == led,
                    None => step matches LaunchStepView::Going(next, turn) && next.stage is Start
                        && next.rule_name == l.rule_name && next.mode == l.mode
                        && turn.commands.len() == 0 && turn.ask == AskView::Send(
                        CommandView::Dispatch(
                            match l.mode {
                                LaunchModeView::Plain(_) => "exec [workspace "@ + w.workspace
                                    + " silent] "@ + launch_line(w),
                                LaunchModeView::Bsp(_) => "exec "@ + bsp_launch_line(w),
                            },
                        ),
                    ),
                },
                LaunchStageView::Start => if refused is Some {
                    step == LaunchStepView::Over(
                        seq![],
                        LaunchOutcomeView::Failed("launching "@ + w.launch_cmd),
                    ) && after == led
                } else {
                    step matches LaunchStepView::Going(next, turn) && next.stage is Opening
                        && next.rule_name == l.rule_name && next.mode == l.mode
                        && turn.commands.len() == 0 && turn.ask == (AskView::OpenEvent {
                        class: w.app_id,
                        splash: false,
                    })
                },
                LaunchStageView::Opening => match answer {
                    Answer::Window(a) => if l.mode == LaunchModeView::Plain(MasterRole::Outside) {
                        step matches LaunchStepView::Over(_, outcome) && outcome
                            == LaunchOutcomeView::Opened(a@)
                    } else {
                        step matches LaunchStepView::Going(next, turn) && next.stage
                            == LaunchStageView::Splash(a@) && next.rule_name == l.rule_name
                            && turn.ask == (AskView::OpenEvent { class: w.app_id, splash: true })
                    },
                    _ => step matches LaunchStepView::Going(next, turn) && next.stage is Reprobe
                        && next.rule_name == l.rule_name && turn.commands.len() == 0 && turn.ask
                        is Clients,
                },
                _ => step is Over,
            }
        }),
{
}

/// A tiled window that opened is moved to its workspace while it may still turn
/// out to be a splash.
pub proof fn law_splash_waits_on_its_workspace(
    w: WindowEntryView,
    l: LaunchView,
    led: LedgerView,
    address: String,
    anchor: Option<(Seq<char>, PreselDir)>,
)
    requires
        l.stage is Opening,
        l.mode == LaunchModeView::Bsp(anchor),
    ensures
        launch_next(w, l, led, Answer::Window(address)).1 matches LaunchStepView::Going(_, turn)
            && turn.commands == seq![
            CommandView::Keyword("windowrule["@ + l.rule_name + "]:enable false"@),
            CommandView::Dispatch(
                "movetoworkspacesilent "@ + w.workspace + ",address:0x"@ + address@,
            ),
        ],
{
}

/// A window that is handed over to the watcher is described by what was saved
/// of it, the rule that was set up for it, and how it is to be placed.
pub proof fn law_deferred_window_is_described(
    w: WindowEntryView,
    l: LaunchView,
    led: LedgerView,
    answer: Answer,
)
    requires
        launch_next(w, l, led, answer).1 matches LaunchStepView::Over(_, outcome) && outcome
            is Deferred,
    ensures
        ({
            let after = launch_next(w, l, led, answer).0;
            let p = after.pending.last();
            &&& after.pending.drop_last() == led.pending
            &&& after.active_rules == led.active_rules.push(l.rule_name)
            &&& p.app_id == w.app_id
            &&& p.workspace == w.workspace
            &&& p.floating == w.floating
            &&& p.fullscreen == w.fullscreen
            &&& p.position == w.position
            &&& p.size == w.size
            &&& p.rule_name == l.rule_name
            &&& match l.mode {
                LaunchModeView::Plain(role) => p.placement == if role is Promote {
                    PlacementView::MasterPromote
                } else {
                    PlacementView::Bare
                },
                LaunchModeView::Bsp(Some((anchor, dir))) => p.placement
                    == PlacementView::DwindleAnchor(anchor, dir),
                LaunchModeView::Bsp(None) => p.placement == PlacementView::Bare,
            }
        }),
{
    let after = launch_next(w, l, led, answer).0;
    assert(after.pending.drop_last() =~= led.pending);
}

/// The geometry requests for the window at `a`: float it, give it its size, then
/// its position; and make it fullscreen last.
pub open spec fn geometry_requests(
    geometry: Option<((i32, i32), (i32, i32))>,
    fullscreen: bool,
    a: Seq<char>,
) -> Seq<CommandView> {
    let floated = match geometry {
        Some(((x, y), (w, h))) => seq![
            CommandView::Dispatch("setfloating address:0x"@ + a),
            CommandView::Dispatch(
                "resizewindowpixel exact "@ + decimal(w as int) + " "@ + decimal(h as int)
                    + ",address:0x"@ + a,
            ),
            CommandView::Dispatch(
                "movewindowpixel exact "@ + decimal(x as int) + " "@ + decimal(y as int)
                    + ",address:0x"@ + a,
            ),
        ],
        None => seq![],
    };
    if fullscreen {
        floated + seq![CommandView::Dispatch("fullscreen 0,address:0x"@ + a)]
    } else {
        floated
    }
}

/// The saved position and size, if both are there.
pub open spec fn geometry_of(
    position: Option<(i32, i32)>,
    size: Option<(i32, i32)>,
) -> Option<((i32, i32), (i32, i32))> {
    match (position, size) {
        (Some(p), Some(s)) => Some((p, s)),
        _ => None,
    }
}

/// A floating window gets its saved geometry; any other only its fullscreen
/// state.
pub proof fn law_shaping_restores_the_geometry(
    floating: bool,
    fullscreen: bool,
    position: Option<(i32, i32)>,
    size: Option<(i32, i32)>,
    a: Seq<char>,
)
    ensures
        floating ==> shaping(floating, fullscreen, position, size, a) == geometry_requests(
            geometry_of(position, size),
            fullscreen,
            a,
        ),
        !floating ==> shaping(floating, fullscreen, position, size, a) == geometry_requests(
            None,
            fullscreen,
            a,
        ),
{
    assert(shaping(floating, fullscreen, position, size, a) =~= geometry_requests(
        if floating {
            geometry_of(position, size)
        } else {
            None
        },
        fullscreen,
        a,
    ));
}

/// What is sent for a late window: it goes to its workspace, a tiled one into its
/// slot or to the master area if that was planned; then a floating one gets its
/// geometry, where that is restored, and it is made fullscreen if it was.
pub open spec fn late_requests(
    p: PendingView,
    a: Seq<char>,
    restore_geometry: bool,
) -> Seq<CommandView> {
    let moved = CommandView::Dispatch(
        "movetoworkspacesilent "@ + p.workspace + ",address:0x"@ + a,
    );
    let placed = match p.placement {
        PlacementView::DwindleAnchor(anchor, dir) => if p.floating {
            seq![moved]
        } else {
            slot_requests(a, p.workspace, Some((anchor, dir)))
        },
        PlacementView::MasterPromote => if p.floating {
            seq![moved]
        } else {
            seq![moved, CommandView::Dispatch("layoutmsg addmaster"@)]
        },
        PlacementView::Bare => seq![moved],
    };
    placed + geometry_requests(
        if restore_geometry && p.floating {
            geometry_of(p.position, p.size)
        } else {
            None
        },
        p.fullscreen,
        a,
    )
}

/// The first pending window of the class that opened is the one that is served;
/// a line that opens no pending window's class changes nothing.
pub proof fn law_late_window_is_placed(v: LateView, line: Seq<char>)
    ensures
        ({
            let (after, sent) = late_next(v, line);
            match event_of(trimmed(line)) {
                HyprEventView::OpenWindow { address, class, .. } => {
                    if exists|i: int| 0 <= i < v.pending.len() && (#[trigger] v.pending[i]).app_id
                        == class {
                        exists|i: int| #[trigger]
                            is_first_of(v.pending, class, i) && sent == late_requests(
                                v.pending[i],
                                address,
                                v.restore_geometry,
                            ) && after.pending == v.pending.remove(i) && after.resolved_rules
                                == v.resolved_rules.push(v.pending[i].rule_name)
                                && after.all_rules == v.all_rules && after.restore_geometry
                                == v.restore_geometry
                    } else {
                        after == v && sent.len() == 0
                    }
                },
                _ => after == v && sent.len() == 0,
            }
        }),
{
    if let HyprEventView::OpenWindow { address, class, .. } = event_of(trimmed(line)) {
        lemma_first_of(v.pending, class, 0);
        match pending_from(v.pending, class, 0) {
            Some(i) => {
                let p = v.pending[i];
                lemma_late_requests(p, address, v.restore_geometry);
                assert(is_first_of(v.pending, class, i));
            },
            None => {},
        }
    }
}

/// Entry `i` is the first of the pending windows that has the class.
pub open spec fn is_first_of(pending: Seq<PendingView>, class: Seq<char>, i: int) -> bool {
    &&& 0 <= i < pending.len()
    &&& pending[i].app_id == class
    &&& forall|j: int| 0 <= j < i ==> (#[trigger] pending[j]).app_id != class
}

proof fn lemma_first_of(pending: Seq<PendingView>, class: Seq<char>, k: int)
    requires
        0 <= k <= pending.len(),
        forall|j: int| 0 <= j < k ==> (#[trigger] pending[j]).app_id != class,
    ensures
        match pending_from(pending, class, k) {
            Some(i) => is_first_of(pending, class, i),
            None => forall|j: int|
                0 <= j < pending.len() ==> (#[trigger] pending[j]).app_id != class,
        },
    decreases pending.len() - k,
{
    if k < pending.len() && pending[k].app_id != class {
        lemma_first_of(pending, class, k + 1);
    }
}

proof fn lemma_late_requests(p: PendingView, a: Seq<char>, restore_geometry: bool)
    ensures
        late_applying(p, a, restore_geometry) == late_requests(p, a, restore_geometry),
{
    law_shaping_restores_the_geometry(
        restore_geometry && p.floating,
        p.fullscreen,
        p.position,
        p.size,
        a,
    );
    if let PlacementView::DwindleAnchor(anchor, dir) = p.placement {
        lemma_placing(a, p.workspace, Some((anchor, dir)));
    }
    assert(late_applying(p, a, restore_geometry) =~= late_requests(p, a, restore_geometry));
}

/// A window's home is the workspace and the monitor that it was saved on.
pub proof fn law_home_is_where_it_was_saved(w: WindowEntry)
    ensures
        match w.monitor {
            Some(m) => m@.len() > 0 ==> home_of(w) == Some((w.workspace@, m@)),
            None => home_of(w) is None,
        },
        home_of(w) matches Some((ws, m)) ==> m.len() > 0 && ws == w.workspace@,
{
}

/// No workspace is bound to the same monitor twice.
pub proof fn law_homes_are_bound_once(
    windows: Seq<WindowEntry>,
    available: Seq<Seq<char>>,
)
    ensures
        forall|i: int, j: int|
            0 <= i < j < binders(windows, available).len() ==> home_of(
                windows[#[trigger] binders(windows, available)[i]],
            ) != home_of(windows[#[trigger] binders(windows, available)[j]]),
        binding(windows, available).len() == binders(windows, available).len(),
        forall|i: int|
            0 <= i < binders(windows, available).len() ==> 0 <= #[trigger] binders(
                windows,
                available,
            )[i] < windows.len() && home_of(windows[binders(windows, available)[i]]) is Some,
    decreases windows.len(),
{
    if windows.len() > 0 {
        let head = windows.drop_last();
        law_homes_are_bound_once(head, available);
        let rest = binders(head, available);
        let all = binders(windows, available);
        let last = windows.len() - 1;
        assert forall|i: int| 0 <= i < all.len() implies 0 <= #[trigger] all[i] < windows.len()
            && home_of(windows[all[i]]) is Some by {
            if i < rest.len() {
                assert(all[i] == rest[i]);
                assert(head[rest[i]] == windows[rest[i]]);
            }
        }
        assert forall|i: int, j: int| 0 <= i < j < all.len() implies home_of(
            windows[#[trigger] all[i]],
        ) != home_of(windows[#[trigger] all[j]]) by {
            assert(all[i] == rest[i]);
            assert(head[rest[i]] == windows[rest[i]]);
            if j < rest.len() {
                assert(all[j] == rest[j]);
                assert(head[rest[j]] == windows[rest[j]]);
            } else {
                assert(binds(windows, available, last));
                assert(0 <= rest[i] < last);
                assert(home_of(windows[rest[i]]) != home_of(windows[last]));
            }
        }
    }
}

/// The windows for whose homes a request goes out.
pub open spec fn binders(windows: Seq<WindowEntry>, available: Seq<Seq<char>>) -> Seq<int>
    decreases windows.len(),
{
    if windows.len() == 0 {
        seq![]
    } else {
        let rest = binders(windows.drop_last(), available);
        let last = windows.len() - 1;
        if binds(windows, available, last) {
            rest.push(last)
        } else {
            rest
        }
    }
}

/// Rules are disabled one by one, in order.
pub proof fn law_rules_are_disabled_in_order(rules: Seq<Seq<char>>, i: int)
    requires
        0 <= i < rules.len(),
    ensures
        disabling(rules).len() == rules.len(),
        disabling(rules)[i] == CommandView::Keyword(
            "windowrule["@ + rules[i] + "]:enable false"@,
        ),
{
}

} // verus!
