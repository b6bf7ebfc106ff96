//! Windows that appear after the restore is over.
use super::command::{
    add_command, add_commands, commands, disable_all_rules, disabling, move_args,
    move_to_workspace, place_window_in_bsp_slot, placing, shape_window, shaping, Command,
    CommandView,
};
use super::launch::{pending_views, PendingView, PendingWindow, PlacementHint, PlacementView};
use crate::ipc::event_listener::{event_of, parse_event};
use crate::models::{HyprEvent, HyprEventView};
use crate::text::{contains_text, str_eq, texts, trim, trimmed};
use vstd::prelude::*;

verus! {

/// What moves a late window to its place.
pub open spec fn late_placing(pw: PendingView, address: Seq<char>) -> Seq<CommandView> {
    let moved = seq![CommandView::Dispatch(move_args(pw.workspace, address))];
    if pw.floating {
        moved
    } else {
        match pw.placement {
            PlacementView::DwindleAnchor(anchor, dir) => placing(
                address,
                pw.workspace,
                Some((anchor, dir)),
            ),
            PlacementView::MasterPromote => moved.push(
                CommandView::Dispatch("layoutmsg addmaster"@),
            ),
            PlacementView::Bare => moved,
        }
    }
}

/// What is done about a late window: it goes to its place, gets its geometry
/// if it floats and geometry is restored, and is made fullscreen if it was.
pub open spec fn late_applying(
    pw: PendingView,
    address: Seq<char>,
    restore_geometry: bool,
) -> Seq<CommandView> {
    late_placing(pw, address) + shaping(
        restore_geometry && pw.floating,
        pw.fullscreen,
        pw.position,
        pw.size,
        address,
    )
}

/// Place a window that appeared late.
pub fn apply_late_window(pw: &PendingWindow, address: &str, restore_geometry: bool) -> (r: Vec<
    Command,
>)
    ensures
        commands(r@) == late_applying(pw@, address@, restore_geometry),
{
    let mut out: Vec<Command> = Vec::new();
    assert(commands(out@) =~= seq![]);
    match (&pw.placement, pw.floating) {
        (PlacementHint::DwindleAnchor(anchor, dir), false) => {
            let place = Some((anchor.clone(), *dir));
            let rest = place_window_in_bsp_slot(address, pw.workspace.as_str(), &place);
            add_commands(&mut out, rest);
        },
        (PlacementHint::MasterPromote, false) => {
            add_command(&mut out, move_to_workspace(pw.workspace.as_str(), address));
            add_command(&mut out, Command::Dispatch("layoutmsg addmaster".to_owned()));
        },
        _ => {
            add_command(&mut out, move_to_workspace(pw.workspace.as_str(), address));
        },
    }
    assert(commands(out@) =~= late_placing(pw@, address@));
    let shape = shape_window(
        restore_geometry && pw.floating,
        pw.fullscreen,
        pw.position,
        pw.size,
        address,
    );
    add_commands(&mut out, shape);
    out
}

/// Watches for windows that didn't appear during the main restore loop. Keeps
/// their Hyprland window rules active until every pending window appears or
/// the grace period expires.
#[derive(Debug)]
pub struct LateWatcher {
    pub pending: Vec<PendingWindow>,
    pub all_rules: Vec<String>,
    pub resolved_rules: Vec<String>,
    pub restore_geometry: bool,
}

#[verifier::ext_equal]
pub struct LateView {
    pub pending: Seq<PendingView>,
    pub all_rules: Seq<Seq<char>>,
    pub resolved_rules: Seq<Seq<char>>,
    pub restore_geometry: bool,
}

impl View for LateWatcher {
    type V = LateView;

    open spec fn view(&self) -> LateView {
        LateView {
            pending: pending_views(self.pending@),
            all_rules: texts(self.all_rules@),
            resolved_rules: texts(self.resolved_rules@),
            restore_geometry: self.restore_geometry,
        }
    }
}

/// The first pending window from `k` on that has the class.
pub open spec fn pending_from(pending: Seq<PendingView>, class: Seq<char>, k: int) -> Option<int>
    decreases pending.len() - k,
{
    if k < 0 || k >= pending.len() {
        None
    } else if pending[k].app_id == class {
        Some(k)
    } else {
        pending_from(pending, class, k + 1)
    }
}

/// The watcher after a line, and what is done about it: the first pending
/// window of the class that opened is placed, and its rule is resolved.
pub open spec fn late_next(v: LateView, line: Seq<char>) -> (LateView, Seq<CommandView>) {
    match event_of(trimmed(line)) {
        HyprEventView::OpenWindow { address, class, .. } => match pending_from(
            v.pending,
            class,
            0,
        ) {
            Some(i) => (
                LateView {
                    pending: v.pending.remove(i),
                    resolved_rules: v.resolved_rules.push(v.pending[i].rule_name),
                    ..v
                },
                late_applying(v.pending[i], address, v.restore_geometry),
            ),
            None => (v, seq![]),
        },
        _ => (v, seq![]),
    }
}

/// The rules that no late window has resolved.
pub open spec fn unresolved(v: LateView) -> Seq<Seq<char>> {
    v.all_rules.filter(|rule: Seq<char>| !v.resolved_rules.contains(rule))
}

/// What ends the watch: the resolved rules are disabled first, then all
/// others.
pub open spec fn late_ending(v: LateView) -> Seq<CommandView> {
    disabling(v.resolved_rules) + disabling(unresolved(v))
}

impl LateWatcher {
    pub fn new(pending: Vec<PendingWindow>, all_rules: Vec<String>, restore_geometry: bool) -> (r:
        Self)
        ensures
            r@ == (LateView {
                pending: pending_views(pending@),
                all_rules: texts(all_rules@),
                resolved_rules: seq![],
                restore_geometry,
            }),
    {
        let r = LateWatcher {
            pending,
            all_rules,
            resolved_rules: Vec::new(),
            restore_geometry,
        };
        assert(texts(r.resolved_rules@) =~= seq![]);
        r
    }

    /// Whether no window is expected any more.
    pub fn is_done(&self) -> (r: bool)
        ensures
            r == (self@.pending.len() == 0),
    {
        self.pending.len() == 0
    }

    /// Take a line from the event socket.
    pub fn on_line(&mut self, line: &str) -> (r: Vec<Command>)
        ensures
            (final(self)@, commands(r@)) == late_next(old(self)@, line@),
    {
        let none: Vec<Command> = Vec::new();
        assert(commands(none@) =~= seq![]);
        match parse_event(trim(line)) {
            HyprEvent::OpenWindow { address, class, .. } => {
                let n: usize = self.pending.len();
                for i in 0..n
                    invariant
                        n == self.pending@.len(),
                        self@ == old(self)@,
                        pending_from(self@.pending, class@, 0) == pending_from(
                            self@.pending,
                            class@,
                            i as int,
                        ),
                        event_of(trimmed(line@)) matches HyprEventView::OpenWindow {
                            address: a,
                            class: c,
                            ..
                        } && a == address@ && c == class@,
                {
                    if str_eq(self.pending[i].app_id.as_str(), class.as_str()) {
                        let pw = self.pending.remove(i);
                        let sent = apply_late_window(
                            &pw,
                            address.as_str(),
                            self.restore_geometry,
                        );
                        self.resolved_rules.push(pw.rule_name);
                        proof {
                            let v = old(self)@;
                            assert(pw@ == v.pending[i as int]);
                            assert(self@.pending =~= v.pending.remove(i as int));
                            assert(self@.resolved_rules =~= v.resolved_rules.push(
                                v.pending[i as int].rule_name,
                            ));
                            assert(self@ =~= late_next(v, line@).0);
                        }
                        return sent;
                    }
                }
                none
            },
            _ => none,
        }
    }

    /// End the watch. Whatever happened, no rule stays enabled.
    pub fn finish(&self) -> (r: Vec<Command>)
        ensures
            commands(r@) == late_ending(self@),
    {
        let mut out = disable_all_rules(&self.resolved_rules);
        let mut remaining: Vec<String> = Vec::new();
        let ghost p = |rule: Seq<char>| !self@.resolved_rules.contains(rule);
        let ghost all = self@.all_rules;
        proof {
            reveal(Seq::filter);
            assert(texts(remaining@) =~= seq![]);
        }
        for i in 0..self.all_rules.len()
            invariant
                all == self@.all_rules,
                p == (|rule: Seq<char>| !self@.resolved_rules.contains(rule)),
                texts(remaining@) == all.take(i as int).filter(p),
        {
            proof {
                reveal(Seq::filter);
                assert(all.take(i as int + 1).drop_last() =~= all.take(i as int));
                assert(all.take(i as int + 1).last() == self.all_rules@[i as int]@);
            }
            if !contains_text(&self.resolved_rules, self.all_rules[i].as_str()) {
                let ghost before = texts(remaining@);
                remaining.push(self.all_rules[i].clone());
                assert(texts(remaining@) =~= before.push(self.all_rules@[i as int]@));
            }
        }
        assert(all.take(self.all_rules@.len() as int) =~= all);
        let rest = disable_all_rules(&remaining);
        add_commands(&mut out, rest);
        out
    }
}

} // verus!
