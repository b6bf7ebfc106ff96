//! Requests to the compositor.
use crate::layout::dwindle::PreselDir;
use crate::layout::Ratio;
use crate::models::{SessionFile, WindowEntry};
use crate::text::{contains_text, decimal, int_to_string, is_empty, str_eq, texts};
use vstd::prelude::*;
use vstd::string::StringExecFns;

verus! {

/// One request to the compositor.
#[derive(Debug)]
pub enum Command {
    Dispatch(String),
    Keyword(String),
    /// Set `master:mfact` to a share of the monitor. The share is counted from
    /// the far side when `far` is set.
    MasterFactor { share: Ratio, far: bool },
    /// Move the focused window's split from the middle to the given share.
    SplitRatio(Ratio),
}

pub enum CommandView {
    Dispatch(Seq<char>),
    Keyword(Seq<char>),
    MasterFactor { share: Ratio, far: bool },
    SplitRatio(Ratio),
}

impl View for Command {
    type V = CommandView;

    open spec fn view(&self) -> CommandView {
        match *self {
            Command::Dispatch(args) => CommandView::Dispatch(args@),
            Command::Keyword(args) => CommandView::Keyword(args@),
            Command::MasterFactor { share, far } => CommandView::MasterFactor { share, far },
            Command::SplitRatio(ratio) => CommandView::SplitRatio(ratio),
        }
    }
}

/// What a list of requests says.
pub open spec fn commands(v: Seq<Command>) -> Seq<CommandView> {
    Seq::new(v.len(), |i: int| v[i]@)
}

pub(crate) fn add_command(v: &mut Vec<Command>, c: Command)
    ensures
        commands(final(v)@) == commands(old(v)@).push(c@),
{
    v.push(c);
    assert(commands(v@) =~= commands(old(v)@).push(c@));
}

pub(crate) fn add_commands(v: &mut Vec<Command>, more: Vec<Command>)
    ensures
        commands(final(v)@) == commands(old(v)@) + commands(more@),
{
    let mut more = more;
    let ghost before = v@;
    let ghost tail = more@;
    v.append(&mut more);
    assert(commands(v@) =~= commands(before) + commands(tail));
}

/// `movetoworkspacesilent <workspace>,address:0x<address>`
pub open spec fn move_args(workspace: Seq<char>, address: Seq<char>) -> Seq<char> {
    "movetoworkspacesilent "@ + workspace + ",address:0x"@ + address
}

pub(crate) fn move_to_workspace(workspace: &str, address: &str) -> (r: Command)
    ensures
        r@ == CommandView::Dispatch(move_args(workspace@, address@)),
{
    let mut s = "movetoworkspacesilent ".to_owned();
    s.append(workspace);
    s.append(",address:0x");
    s.append(address);
    Command::Dispatch(s)
}

pub open spec fn focus_args(address: Seq<char>) -> Seq<char> {
    "focuswindow address:0x"@ + address
}

pub(crate) fn focus_window(address: &str) -> (r: Command)
    ensures
        r@ == CommandView::Dispatch(focus_args(address@)),
{
    let mut s = "focuswindow address:0x".to_owned();
    s.append(address);
    Command::Dispatch(s)
}

pub open spec fn float_args(address: Seq<char>) -> Seq<char> {
    "setfloating address:0x"@ + address
}

pub(crate) fn set_floating(address: &str) -> (r: Command)
    ensures
        r@ == CommandView::Dispatch(float_args(address@)),
{
    let mut s = "setfloating address:0x".to_owned();
    s.append(address);
    Command::Dispatch(s)
}

pub open spec fn close_args(address: Seq<char>) -> Seq<char> {
    "closewindow address:0x"@ + address
}

pub(crate) fn close_window(address: &str) -> (r: Command)
    ensures
        r@ == CommandView::Dispatch(close_args(address@)),
{
    let mut s = "closewindow address:0x".to_owned();
    s.append(address);
    Command::Dispatch(s)
}

pub open spec fn preselect_args(dir: PreselDir) -> Seq<char> {
    "layoutmsg preselect "@ + dir.name()
}

pub(crate) fn preselect(dir: PreselDir) -> (r: Command)
    ensures
        r@ == CommandView::Dispatch(preselect_args(dir)),
{
    let mut s = "layoutmsg preselect ".to_owned();
    let name = dir.to_string();
    s.append(name.as_str());
    Command::Dispatch(s)
}

/// `resizewindowpixel exact <w> <h>,address:0x<address>`
pub open spec fn resize_args(w: int, h: int, address: Seq<char>) -> Seq<char> {
    "resizewindowpixel exact "@ + decimal(w) + " "@ + decimal(h) + ",address:0x"@ + address
}

pub(crate) fn resize_exact(w: i32, h: i32, address: &str) -> (r: Command)
    ensures
        r@ == CommandView::Dispatch(resize_args(w as int, h as int, address@)),
{
    let mut s = "resizewindowpixel exact ".to_owned();
    let width = int_to_string(w as i64);
    let height = int_to_string(h as i64);
    s.append(width.as_str());
    s.append(" ");
    s.append(height.as_str());
    s.append(",address:0x");
    s.append(address);
    Command::Dispatch(s)
}

/// `resizewindowpixel <dw> <dh>,address:0x<address>`
pub open spec fn nudge_args(dw: int, dh: int, address: Seq<char>) -> Seq<char> {
    "resizewindowpixel "@ + decimal(dw) + " "@ + decimal(dh) + ",address:0x"@ + address
}

pub(crate) fn resize_by(dw: i64, dh: i64, address: &str) -> (r: Command)
    ensures
        r@ == CommandView::Dispatch(nudge_args(dw as int, dh as int, address@)),
{
    let mut s = "resizewindowpixel ".to_owned();
    let width = int_to_string(dw);
    let height = int_to_string(dh);
    s.append(width.as_str());
    s.append(" ");
    s.append(height.as_str());
    s.append(",address:0x");
    s.append(address);
    Command::Dispatch(s)
}

/// `movewindowpixel exact <x> <y>,address:0x<address>`
pub open spec fn position_args(x: int, y: int, address: Seq<char>) -> Seq<char> {
    "movewindowpixel exact "@ + decimal(x) + " "@ + decimal(y) + ",address:0x"@ + address
}

pub(crate) fn move_exact(x: i32, y: i32, address: &str) -> (r: Command)
    ensures
        r@ == CommandView::Dispatch(position_args(x as int, y as int, address@)),
{
    let mut s = "movewindowpixel exact ".to_owned();
    let across = int_to_string(x as i64);
    let down = int_to_string(y as i64);
    s.append(across.as_str());
    s.append(" ");
    s.append(down.as_str());
    s.append(",address:0x");
    s.append(address);
    Command::Dispatch(s)
}

pub open spec fn fullscreen_args(address: Seq<char>) -> Seq<char> {
    "fullscreen 0,address:0x"@ + address
}

pub(crate) fn fullscreen(address: &str) -> (r: Command)
    ensures
        r@ == CommandView::Dispatch(fullscreen_args(address@)),
{
    let mut s = "fullscreen 0,address:0x".to_owned();
    s.append(address);
    Command::Dispatch(s)
}

pub open spec fn workspace_args(workspace: Seq<char>) -> Seq<char> {
    "workspace "@ + workspace
}

pub(crate) fn switch_workspace(workspace: &str) -> (r: Command)
    ensures
        r@ == CommandView::Dispatch(workspace_args(workspace@)),
{
    let mut s = "workspace ".to_owned();
    s.append(workspace);
    Command::Dispatch(s)
}

/// `windowrule[<rule>]:enable false`
pub open spec fn disable_args(rule: Seq<char>) -> Seq<char> {
    "windowrule["@ + rule + "]:enable false"@
}

pub(crate) fn disable_rule(rule: &str) -> (r: Command)
    ensures
        r@ == CommandView::Keyword(disable_args(rule@)),
{
    let mut s = "windowrule[".to_owned();
    s.append(rule);
    s.append("]:enable false");
    Command::Keyword(s)
}

/// The requests that disable each of the rules, in order.
pub open spec fn disabling(rules: Seq<Seq<char>>) -> Seq<CommandView> {
    Seq::new(rules.len(), |i: int| CommandView::Keyword(disable_args(rules[i])))
}

/// Disable each of the given window rules.
pub fn disable_all_rules(rules: &Vec<String>) -> (r: Vec<Command>)
    ensures
        commands(r@) == disabling(texts(rules@)),
{
    let mut out: Vec<Command> = Vec::new();
    for i in 0..rules.len()
        invariant
            commands(out@) == disabling(texts(rules@)).take(i as int),
    {
        add_command(&mut out, disable_rule(rules[i].as_str()));
        assert(commands(out@) =~= disabling(texts(rules@)).take(i as int + 1));
    }
    assert(commands(out@) =~= disabling(texts(rules@)));
    out
}

/// What places a window in its BSP slot, beside an anchor if one is given.
pub open spec fn placing(
    address: Seq<char>,
    workspace: Seq<char>,
    anchor: Option<(Seq<char>, PreselDir)>,
) -> Seq<CommandView> {
    let float_out = seq![
        CommandView::Dispatch(move_args(workspace, address)),
        CommandView::Dispatch(focus_args(address)),
        CommandView::Dispatch(float_args(address)),
    ];
    let settle = CommandView::Dispatch(float_args(address));
    match anchor {
        Some((anchor_address, dir)) => float_out.push(
            CommandView::Dispatch(focus_args(anchor_address)),
        ).push(CommandView::Dispatch(preselect_args(dir))).push(settle),
        None => float_out.push(settle),
    }
}

/// What an anchor says.
pub open spec fn anchor_view(anchor: Option<(String, PreselDir)>) -> Option<
    (Seq<char>, PreselDir),
> {
    match anchor {
        Some((address, dir)) => Some((address@, dir)),
        None => None,
    }
}

/// Move an already-live window into its BSP-tree slot: workspace, then
/// float it out and settle it back in, preselecting against `anchor`
/// (focused and preselected as the very last step before settling)
/// if one is given.
///
/// Preselect must be issued immediately before the floating->tiled
/// transition that consumes it: issuing it earlier risks it being
/// cleared by an intervening tiling-state change. Deliberately does NOT
/// re-focus the window right before the final settle: refocusing there
/// breaks the preselect binding set up above.
pub fn place_window_in_bsp_slot(
    address: &str,
    workspace: &str,
    anchor: &Option<(String, PreselDir)>,
) -> (r: Vec<Command>)
    ensures
        commands(r@) == placing(address@, workspace@, anchor_view(*anchor)),
{
    let mut out: Vec<Command> = Vec::new();
    add_command(&mut out, move_to_workspace(workspace, address));
    add_command(&mut out, focus_window(address));
    add_command(&mut out, set_floating(address));
    match anchor {
        Some((anchor_address, dir)) => {
            add_command(&mut out, focus_window(anchor_address.as_str()));
            add_command(&mut out, preselect(*dir));
        },
        None => {},
    }
    add_command(&mut out, set_floating(address));
    assert(commands(out@) =~= placing(address@, workspace@, anchor_view(*anchor)));
    out
}

/// Float a window and give it its saved geometry, where there is one; then
/// make it fullscreen if it was.
pub open spec fn shaping(
    floating: bool,
    fullscreen: bool,
    position: Option<(i32, i32)>,
    size: Option<(i32, i32)>,
    address: Seq<char>,
) -> Seq<CommandView> {
    let floated = match (position, size) {
        (Some((x, y)), Some((w, h))) => if floating {
            seq![
                CommandView::Dispatch(float_args(address)),
                CommandView::Dispatch(resize_args(w as int, h as int, address)),
                CommandView::Dispatch(position_args(x as int, y as int, address)),
            ]
        } else {
            seq![]
        },
        _ => seq![],
    };
    if fullscreen {
        floated.push(CommandView::Dispatch(fullscreen_args(address)))
    } else {
        floated
    }
}

pub(crate) fn shape_window(
    floating: bool,
    make_fullscreen: bool,
    position: Option<(i32, i32)>,
    size: Option<(i32, i32)>,
    address: &str,
) -> (r: Vec<Command>)
    ensures
        commands(r@) == shaping(floating, make_fullscreen, position, size, address@),
{
    let mut out: Vec<Command> = Vec::new();
    if floating {
        match (position, size) {
            (Some((x, y)), Some((w, h))) => {
                add_command(&mut out, set_floating(address));
                add_command(&mut out, resize_exact(w, h, address));
                add_command(&mut out, move_exact(x, y, address));
            },
            _ => {},
        }
    }
    if make_fullscreen {
        add_command(&mut out, fullscreen(address));
    }
    assert(commands(out@) =~= shaping(floating, make_fullscreen, position, size, address@));
    out
}

/// `moveworkspacetomonitor <workspace> <monitor>`
pub open spec fn bind_args(workspace: Seq<char>, monitor: Seq<char>) -> Seq<char> {
    "moveworkspacetomonitor "@ + workspace + " "@ + monitor
}

/// The workspace and the monitor that an entry was saved on, if one is named.
pub open spec fn home_of(w: WindowEntry) -> Option<(Seq<char>, Seq<char>)> {
    match w.monitor {
        Some(monitor) => if monitor@.len() > 0 {
            Some((w.workspace@, monitor@))
        } else {
            None
        },
        None => None,
    }
}

/// Entry `k` is the first with its home, and its monitor is connected.
pub open spec fn binds(windows: Seq<WindowEntry>, available: Seq<Seq<char>>, k: int) -> bool {
    match home_of(windows[k]) {
        Some((_, monitor)) => available.contains(monitor) && forall|j: int|
            0 <= j < k ==> home_of(#[trigger] windows[j]) != home_of(windows[k]),
        None => false,
    }
}

/// The requests that move each workspace to the monitor it was saved on.
pub open spec fn binding(windows: Seq<WindowEntry>, available: Seq<Seq<char>>) -> Seq<CommandView>
    decreases windows.len(),
{
    if windows.len() == 0 {
        seq![]
    } else {
        let rest = binding(windows.drop_last(), available);
        let last = windows.len() - 1;
        if binds(windows, available, last) {
            let (workspace, monitor) = home_of(windows[last])->0;
            rest.push(CommandView::Dispatch(bind_args(workspace, monitor)))
        } else {
            rest
        }
    }
}

/// Whether an earlier entry has the same home.
fn home_seen(windows: &Vec<WindowEntry>, k: usize, monitor: &str) -> (r: bool)
    requires
        k < windows@.len(),
        home_of(windows@[k as int]) == Some((windows@[k as int].workspace@, monitor@)),
    ensures
        r == exists|j: int|
            0 <= j < k && home_of(#[trigger] windows@[j]) == home_of(windows@[k as int]),
{
    for j in 0..k
        invariant
            k < windows@.len(),
            home_of(windows@[k as int]) == Some((windows@[k as int].workspace@, monitor@)),
            forall|i: int|
                0 <= i < j ==> home_of(#[trigger] windows@[i]) != home_of(windows@[k as int]),
    {
        match &windows[j].monitor {
            Some(other) => {
                if !is_empty(other.as_str()) && str_eq(other.as_str(), monitor) && str_eq(
                    windows[j].workspace.as_str(),
                    windows[k].workspace.as_str(),
                ) {
                    assert(home_of(windows@[j as int]) == home_of(windows@[k as int]));
                    return true;
                }
            },
            None => {},
        }
    }
    false
}

/// Before restoring windows, move each workspace to the monitor it was
/// originally saved on. Only binds to monitors that are currently connected;
/// workspaces targeting unavailable monitors get default Hyprland placement
/// (typically the first available monitor).
pub fn bind_workspaces_to_monitors(session: &SessionFile, available: &Vec<String>) -> (r: Vec<
    Command,
>)
    ensures
        commands(r@) == binding(session.windows@, texts(available@)),
{
    let mut out: Vec<Command> = Vec::new();
    let windows = &session.windows;
    assert(commands(out@) =~= seq![]);
    for k in 0..windows.len()
        invariant
            commands(out@) == binding(windows@.take(k as int), texts(available@)),
    {
        proof {
            let t = windows@.take(k as int + 1);
            assert(t.drop_last() =~= windows@.take(k as int));
            assert(t[k as int] == windows@[k as int]);
            assert(forall|j: int| 0 <= j < k ==> #[trigger] t[j] == windows@[j]);
        }
        match &windows[k].monitor {
            Some(monitor) => {
                if !is_empty(monitor.as_str()) {
                    let seen = home_seen(windows, k, monitor.as_str());
                    let here = contains_text(available, monitor.as_str());
                    proof {
                        let t = windows@.take(k as int + 1);
                        assert(seen == exists|j: int|
                            0 <= j < k && home_of(#[trigger] t[j]) == home_of(t[k as int])) by {
                            if seen {
                                let j = choose|j: int|
                                    0 <= j < k && home_of(#[trigger] windows@[j]) == home_of(
                                        windows@[k as int],
                                    );
                                assert(home_of(t[j]) == home_of(t[k as int]));
                            } else {
                                assert forall|j: int| 0 <= j < k implies home_of(#[trigger] t[j])
                                    != home_of(t[k as int]) by {
                                    assert(home_of(windows@[j]) != home_of(windows@[k as int]));
                                }
                            }
                        }
                    }
                    if !seen && here {
                        let mut s = "moveworkspacetomonitor ".to_owned();
                        s.append(windows[k].workspace.as_str());
                        s.append(" ");
                        s.append(monitor.as_str());
                        add_command(&mut out, Command::Dispatch(s));
                    }
                }
            },
            None => {},
        }
    }
    assert(windows@.take(windows@.len() as int) =~= windows@);
    out
}

} // verus!
