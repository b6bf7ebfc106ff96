//! Shared data types.
use vstd::prelude::*;

verus! {

/// What an optional text says.
pub open spec fn opt_text(o: Option<String>) -> Option<Seq<char>> {
    match o {
        Some(s) => Some(s@),
        None => None,
    }
}

pub fn clone_opt(o: &Option<String>) -> (r: Option<String>)
    ensures
        r == *o,
{
    match o {
        Some(s) => Some(s.clone()),
        None => None,
    }
}

/// A live window, as it is tracked between snapshots.
#[derive(Debug)]
pub struct TrackedWindow {
    pub address: String,
    pub app_id: String,
    pub launch_cmd: String,
    pub workspace: String,
    /// Connector name of the monitor that holds the window; empty if unknown.
    pub monitor: String,
    pub position: (i32, i32),
    pub size: (i32, i32),
    pub floating: bool,
    pub fullscreen: bool,
    pub pid: i64,
    /// Browser profile flags found on the window's command line.
    pub profile: Option<String>,
}

pub struct TrackedWindowView {
    pub address: Seq<char>,
    pub app_id: Seq<char>,
    pub launch_cmd: Seq<char>,
    pub workspace: Seq<char>,
    pub monitor: Seq<char>,
    pub position: (i32, i32),
    pub size: (i32, i32),
    pub floating: bool,
    pub fullscreen: bool,
    pub pid: i64,
    pub profile: Option<Seq<char>>,
}

impl View for TrackedWindow {
    type V = TrackedWindowView;

    open spec fn view(&self) -> TrackedWindowView {
        TrackedWindowView {
            address: self.address@,
            app_id: self.app_id@,
            launch_cmd: self.launch_cmd@,
            workspace: self.workspace@,
            monitor: self.monitor@,
            position: self.position,
            size: self.size,
            floating: self.floating,
            fullscreen: self.fullscreen,
            pid: self.pid,
            profile: opt_text(self.profile),
        }
    }
}

impl Clone for TrackedWindow {
    fn clone(&self) -> (r: Self)
        ensures
            r == *self,
    {
        TrackedWindow {
            address: self.address.clone(),
            app_id: self.app_id.clone(),
            launch_cmd: self.launch_cmd.clone(),
            workspace: self.workspace.clone(),
            monitor: self.monitor.clone(),
            position: self.position,
            size: self.size,
            floating: self.floating,
            fullscreen: self.fullscreen,
            pid: self.pid,
            profile: clone_opt(&self.profile),
        }
    }
}

/// A saved session.
#[derive(Debug)]
pub struct SessionFile {
    pub session: SessionMeta,
    pub windows: Vec<WindowEntry>,
}

#[derive(Debug)]
pub struct SessionMeta {
    pub name: String,
    pub timestamp: i64,
}

impl Default for SessionMeta {
    fn default() -> (r: Self)
        ensures
            r.name@ == Seq::<char>::empty(),
            r.timestamp == 0,
    {
        SessionMeta { name: String::new(), timestamp: 0 }
    }
}

impl Default for SessionFile {
    fn default() -> (r: Self)
        ensures
            r.session.name@ == Seq::<char>::empty(),
            r.session.timestamp == 0,
            r.windows@.len() == 0,
    {
        SessionFile { session: SessionMeta::default(), windows: Vec::new() }
    }
}

/// A saved window: what to launch and where to put it.
#[derive(Debug)]
pub struct WindowEntry {
    pub app_id: String,
    pub launch_cmd: String,
    pub workspace: String,
    /// Connector name of the monitor that held the window's workspace.
    pub monitor: Option<String>,
    pub floating: bool,
    pub fullscreen: bool,
    pub position: Option<(i32, i32)>,
    pub size: Option<(i32, i32)>,
    /// Working directory to restore, where one was found.
    pub cwd: Option<String>,
    /// Browser profile flags to restore, where some were found.
    pub profile: Option<String>,
}

pub struct WindowEntryView {
    pub app_id: Seq<char>,
    pub launch_cmd: Seq<char>,
    pub workspace: Seq<char>,
    pub monitor: Option<Seq<char>>,
    pub floating: bool,
    pub fullscreen: bool,
    pub position: Option<(i32, i32)>,
    pub size: Option<(i32, i32)>,
    pub cwd: Option<Seq<char>>,
    pub profile: Option<Seq<char>>,
}

impl View for WindowEntry {
    type V = WindowEntryView;

    open spec fn view(&self) -> WindowEntryView {
        WindowEntryView {
            app_id: self.app_id@,
            launch_cmd: self.launch_cmd@,
            workspace: self.workspace@,
            monitor: opt_text(self.monitor),
            floating: self.floating,
            fullscreen: self.fullscreen,
            position: self.position,
            size: self.size,
            cwd: opt_text(self.cwd),
            profile: opt_text(self.profile),
        }
    }
}

impl Clone for WindowEntry {
    fn clone(&self) -> (r: Self)
        ensures
            r == *self,
    {
        WindowEntry {
            app_id: self.app_id.clone(),
            launch_cmd: self.launch_cmd.clone(),
            workspace: self.workspace.clone(),
            monitor: clone_opt(&self.monitor),
            floating: self.floating,
            fullscreen: self.fullscreen,
            position: self.position,
            size: self.size,
            cwd: clone_opt(&self.cwd),
            profile: clone_opt(&self.profile),
        }
    }
}

/// What a list of saved windows says.
pub open spec fn entry_views(v: Seq<WindowEntry>) -> Seq<WindowEntryView> {
    Seq::new(v.len(), |i: int| v[i]@)
}

/// Client data from `hyprctl clients -j`.
#[derive(Debug)]
pub struct HyprClient {
    pub address: String,
    pub class: String,
    pub pid: i64,
    pub workspace: HyprWorkspace,
    pub at: (i32, i32),
    pub size: (i32, i32),
    pub floating: bool,
    pub fullscreen_mode: i32,
}

#[derive(Debug)]
pub struct HyprWorkspace {
    pub name: String,
}

/// Monitor data from `hyprctl monitors -j`.
#[derive(Debug)]
pub struct HyprMonitor {
    pub id: i64,
    pub name: String,
}

/// Resolved desktop entry info from XDG `.desktop` files.
#[derive(Debug)]
pub struct DesktopEntry {
    /// The command line to start the application with.
    pub exec_line: String,
    pub startup_wm_class: Option<String>,
    pub desktop_id: String,
}

pub struct DesktopEntryView {
    pub exec_line: Seq<char>,
    pub startup_wm_class: Option<Seq<char>>,
    pub desktop_id: Seq<char>,
}

impl View for DesktopEntry {
    type V = DesktopEntryView;

    open spec fn view(&self) -> DesktopEntryView {
        DesktopEntryView {
            exec_line: self.exec_line@,
            startup_wm_class: opt_text(self.startup_wm_class),
            desktop_id: self.desktop_id@,
        }
    }
}

impl Clone for DesktopEntry {
    fn clone(&self) -> (r: Self)
        ensures
            r == *self,
    {
        DesktopEntry {
            exec_line: self.exec_line.clone(),
            startup_wm_class: clone_opt(&self.startup_wm_class),
            desktop_id: self.desktop_id.clone(),
        }
    }
}

/// Events from Hyprland socket2.
#[derive(Debug)]
pub enum HyprEvent {
    OpenWindow { address: String, workspace: String, class: String },
    CloseWindow { address: String },
    MoveWindow { address: String, workspace: String },
    ChangeFloatingMode { address: String, floating: bool },
    Fullscreen { state: bool },
    Unknown(String),
}

pub enum HyprEventView {
    OpenWindow { address: Seq<char>, workspace: Seq<char>, class: Seq<char> },
    CloseWindow { address: Seq<char> },
    MoveWindow { address: Seq<char>, workspace: Seq<char> },
    ChangeFloatingMode { address: Seq<char>, floating: bool },
    Fullscreen { state: bool },
    Unknown(Seq<char>),
}

impl View for HyprEvent {
    type V = HyprEventView;

    open spec fn view(&self) -> HyprEventView {
        match *self {
            HyprEvent::OpenWindow { address, workspace, class } => HyprEventView::OpenWindow {
                address: address@,
                workspace: workspace@,
                class: class@,
            },
            HyprEvent::CloseWindow { address } => HyprEventView::CloseWindow { address: address@ },
            HyprEvent::MoveWindow { address, workspace } => HyprEventView::MoveWindow {
                address: address@,
                workspace: workspace@,
            },
            HyprEvent::ChangeFloatingMode {
                address,
                floating,
            } => HyprEventView::ChangeFloatingMode { address: address@, floating },
            HyprEvent::Fullscreen { state } => HyprEventView::Fullscreen { state },
            HyprEvent::Unknown(line) => HyprEventView::Unknown(line@),
        }
    }
}

} // verus!
