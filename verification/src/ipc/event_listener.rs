//! Lines from Hyprland's event socket.
use crate::models::{HyprEvent, HyprEventView};
use crate::text::{
    cut_first, is_empty, lacks, lemma_cut_after, split_once, str_eq, trim, trimmed,
};
use vstd::prelude::*;

verus! {

/// The text before the first comma, and what follows it.
pub open spec fn comma(s: Seq<char>) -> Option<(Seq<char>, Seq<char>)> {
    cut_first(s, ","@)
}

/// `<address>,<workspace>,<class>,<title>`
pub open spec fn open_event(line: Seq<char>, data: Seq<char>) -> HyprEventView {
    match comma(data) {
        Some((address, rest)) => match comma(rest) {
            Some((workspace, tail)) => match comma(tail) {
                Some((class, _)) => HyprEventView::OpenWindow { address, workspace, class },
                None => HyprEventView::Unknown(line),
            },
            None => HyprEventView::Unknown(line),
        },
        None => HyprEventView::Unknown(line),
    }
}

/// `<address>,<workspace>`
pub open spec fn move_event(line: Seq<char>, data: Seq<char>) -> HyprEventView {
    match comma(data) {
        Some((address, workspace)) => HyprEventView::MoveWindow { address, workspace },
        None => HyprEventView::Unknown(line),
    }
}

/// `<address>,<workspace id>,<workspace>`, or without the id.
pub open spec fn move_event_v2(line: Seq<char>, data: Seq<char>) -> HyprEventView {
    match comma(data) {
        Some((address, rest)) => match comma(rest) {
            Some((_, workspace)) => HyprEventView::MoveWindow { address, workspace },
            None => move_event(line, data),
        },
        None => HyprEventView::Unknown(line),
    }
}

/// `<address>,<0 or 1>`
pub open spec fn floating_event(line: Seq<char>, data: Seq<char>) -> HyprEventView {
    match comma(data) {
        Some((address, mode)) => HyprEventView::ChangeFloatingMode {
            address,
            floating: trimmed(mode) == "1"@,
        },
        None => HyprEventView::Unknown(line),
    }
}

/// The event that a line reports: `<name>>><data>`.
pub open spec fn event_of(line: Seq<char>) -> HyprEventView {
    match cut_first(line, ">>"@) {
        Some((name, data)) => if name == "openwindow"@ {
            open_event(line, data)
        } else if name == "closewindow"@ {
            HyprEventView::CloseWindow { address: data }
        } else if name == "movewindowv2"@ {
            move_event_v2(line, data)
        } else if name == "movewindow"@ {
            move_event(line, data)
        } else if name == "changefloatingmode"@ {
            floating_event(line, data)
        } else if name == "fullscreen"@ {
            HyprEventView::Fullscreen { state: trimmed(data) == "1"@ }
        } else {
            HyprEventView::Unknown(line)
        },
        None => HyprEventView::Unknown(line),
    }
}

fn unknown(line: &str) -> (r: HyprEvent)
    ensures
        r@ == HyprEventView::Unknown(line@),
{
    HyprEvent::Unknown(line.to_owned())
}

fn parse_open(line: &str, data: &str) -> (r: HyprEvent)
    ensures
        r@ == open_event(line@, data@),
{
    match split_once(data, ",") {
        Some((address, rest)) => match split_once(rest, ",") {
            Some((workspace, tail)) => match split_once(tail, ",") {
                Some((class, _)) => HyprEvent::OpenWindow {
                    address: address.to_owned(),
                    workspace: workspace.to_owned(),
                    class: class.to_owned(),
                },
                None => unknown(line),
            },
            None => unknown(line),
        },
        None => unknown(line),
    }
}

fn parse_move(line: &str, data: &str) -> (r: HyprEvent)
    ensures
        r@ == move_event(line@, data@),
{
    match split_once(data, ",") {
        Some((address, workspace)) => HyprEvent::MoveWindow {
            address: address.to_owned(),
            workspace: workspace.to_owned(),
        },
        None => unknown(line),
    }
}

/// Parse one line from the event socket. What cannot be parsed comes back as
/// an unknown event with the whole line.
pub fn parse_event(line: &str) -> (r: HyprEvent)
    ensures
        r@ == event_of(line@),
{
    let (event, data) = match split_once(line, ">>") {
        Some(parts) => parts,
        None => {
            return unknown(line);
        },
    };
    if str_eq(event, "openwindow") {
        parse_open(line, data)
    } else if str_eq(event, "closewindow") {
        HyprEvent::CloseWindow { address: data.to_owned() }
    } else if str_eq(event, "movewindowv2") {
        match split_once(data, ",") {
            Some((address, rest)) => match split_once(rest, ",") {
                Some((_, workspace)) => HyprEvent::MoveWindow {
                    address: address.to_owned(),
                    workspace: workspace.to_owned(),
                },
                None => parse_move(line, data),
            },
            None => unknown(line),
        }
    } else if str_eq(event, "movewindow") {
        parse_move(line, data)
    } else if str_eq(event, "changefloatingmode") {
        match split_once(data, ",") {
            Some((address, mode)) => HyprEvent::ChangeFloatingMode {
                address: address.to_owned(),
                floating: str_eq(trim(mode), "1"),
            },
            None => unknown(line),
        }
    } else if str_eq(event, "fullscreen") {
        HyprEvent::Fullscreen { state: str_eq(trim(data), "1") }
    } else {
        unknown(line)
    }
}

/// The event in a line as it was read, white space around it aside; none in a
/// blank line.
pub open spec fn event_in(line: Seq<char>) -> Option<HyprEventView> {
    if trimmed(line).len() == 0 {
        None
    } else {
        Some(event_of(trimmed(line)))
    }
}

/// The event that a line just read reports, unless the line is blank.
pub fn listen_line(line: &str) -> (r: Option<HyprEvent>)
    ensures
        r is Some <==> event_in(line@) is Some,
        r matches Some(event) ==> event_in(line@) == Some(event@),
{
    let line = trim(line);
    if is_empty(line) {
        return None;
    }
    Some(parse_event(line))
}

/// The address at which a window of the class opened, if the event says so.
pub open spec fn opened_as(event: HyprEventView, class: Seq<char>) -> Option<Seq<char>> {
    match event {
        HyprEventView::OpenWindow { address, class: c, .. } => if c == class {
            Some(address)
        } else {
            None
        },
        _ => None,
    }
}

/// Whether an event is the opening of a window of the given class, and where.
pub fn opened_window(event: &HyprEvent, class: &str) -> (r: Option<String>)
    ensures
        r is Some <==> opened_as(event@, class@) is Some,
        r matches Some(address) ==> opened_as(event@, class@) == Some(address@),
{
    match event {
        HyprEvent::OpenWindow { address, class: c, .. } => {
            if str_eq(c.as_str(), class) {
                Some(address.clone())
            } else {
                None
            }
        },
        _ => None,
    }
}

/// An opened window is read back from its line, whatever its title holds.
pub proof fn law_open_event_is_read_back(
    address: Seq<char>,
    workspace: Seq<char>,
    class: Seq<char>,
    title: Seq<char>,
)
    requires
        lacks(address, ','),
        lacks(workspace, ','),
        lacks(class, ','),
    ensures
        event_of(
            "openwindow>>"@ + (address + ","@ + (workspace + ","@ + (class + ","@ + title))),
        ) == (HyprEventView::OpenWindow { address, workspace, class }),
{
    reveal_strlit("openwindow>>");
    reveal_strlit("openwindow");
    reveal_strlit(">>");
    reveal_strlit(",");
    let tail = class + ","@ + title;
    let rest = workspace + ","@ + tail;
    let data = address + ","@ + rest;
    assert("openwindow>>"@ + data =~= "openwindow"@ + ">>"@ + data);
    lemma_cut_after("openwindow"@, ">>"@, data);
    lemma_cut_after(address, ","@, rest);
    lemma_cut_after(workspace, ","@, tail);
    lemma_cut_after(class, ","@, title);
}

/// A closed window is read back from its line.
pub proof fn law_close_event_is_read_back(address: Seq<char>)
    ensures
        event_of("closewindow>>"@ + address) == (HyprEventView::CloseWindow { address }),
{
    reveal_strlit("closewindow>>");
    reveal_strlit("closewindow");
    reveal_strlit("openwindow");
    reveal_strlit(">>");
    assert("closewindow>>"@ + address =~= "closewindow"@ + ">>"@ + address);
    lemma_cut_after("closewindow"@, ">>"@, address);
    assert("closewindow"@.len() != "openwindow"@.len());
}

/// A moved window is read back from both of its lines.
pub proof fn law_move_event_is_read_back(
    address: Seq<char>,
    workspace: Seq<char>,
    workspace_id: Seq<char>,
)
    requires
        lacks(address, ','),
        lacks(workspace_id, ','),
    ensures
        event_of("movewindow>>"@ + (address + ","@ + workspace)) == (HyprEventView::MoveWindow {
            address,
            workspace,
        }),
        event_of("movewindowv2>>"@ + (address + ","@ + (workspace_id + ","@ + workspace))) == (
        HyprEventView::MoveWindow { address, workspace }),
{
    reveal_strlit("movewindow>>");
    reveal_strlit("movewindowv2>>");
    reveal_strlit("movewindow");
    reveal_strlit("movewindowv2");
    reveal_strlit("openwindow");
    reveal_strlit("closewindow");
    reveal_strlit(">>");
    reveal_strlit(",");
    let data = address + ","@ + workspace;
    let rest = workspace_id + ","@ + workspace;
    let data2 = address + ","@ + rest;
    assert("movewindow>>"@ + data =~= "movewindow"@ + ">>"@ + data);
    assert("movewindowv2>>"@ + data2 =~= "movewindowv2"@ + ">>"@ + data2);
    lemma_cut_after("movewindow"@, ">>"@, data);
    lemma_cut_after("movewindowv2"@, ">>"@, data2);
    lemma_cut_after(address, ","@, workspace);
    lemma_cut_after(address, ","@, rest);
    lemma_cut_after(workspace_id, ","@, workspace);
    assert("movewindow"@[0] != "openwindow"@[0]);
    assert("movewindow"@[0] != "closewindow"@[0]);
    assert("movewindow"@.len() != "movewindowv2"@.len());
    assert("movewindowv2"@[0] != "openwindow"@[0]);
    assert("movewindowv2"@[0] != "closewindow"@[0]);
}

} // verus!
