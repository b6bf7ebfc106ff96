//! The exchange between a restore and the compositor: a turn is what to send
//! and what to find out next, an answer is what was found out.
use super::command::{commands, Command, CommandView};
use crate::layout::Ratio;
use crate::models::HyprClient;
use vstd::prelude::*;

verus! {

/// What a restore needs to know before it can go on.
#[derive(Debug)]
pub enum Ask {
    /// The names of the connected monitors.
    Monitors,
    /// Whether `misc:focus_on_activate` is set.
    FocusOption,
    /// The name of the active layout.
    Layout,
    /// The live clients.
    Clients,
    /// Whether this request succeeds, and its response.
    Send(Command),
    /// The address of the next window of this class to open: within the time
    /// that an app may take to appear, or, for a splash window's successor,
    /// within a short grace period.
    OpenEvent { class: String, splash: bool },
    /// The pixel extent that a share of a total comes to, rounded.
    Target { ratio: Ratio, total: i64 },
    /// Nothing, after this many milliseconds.
    Pause(u64),
    /// Nothing: the restore is over.
    Finished,
    /// Nothing: the restore was given up with this message.
    Aborted(String),
}

pub enum AskView {
    Monitors,
    FocusOption,
    Layout,
    Clients,
    Send(CommandView),
    OpenEvent { class: Seq<char>, splash: bool },
    Target { ratio: Ratio, total: i64 },
    Pause(u64),
    Finished,
    Aborted(Seq<char>),
}

impl View for Ask {
    type V = AskView;

    open spec fn view(&self) -> AskView {
        match *self {
            Ask::Monitors => AskView::Monitors,
            Ask::FocusOption => AskView::FocusOption,
            Ask::Layout => AskView::Layout,
            Ask::Clients => AskView::Clients,
            Ask::Send(command) => AskView::Send(command@),
            Ask::OpenEvent { class, splash } => AskView::OpenEvent { class: class@, splash },
            Ask::Target { ratio, total } => AskView::Target { ratio, total },
            Ask::Pause(ms) => AskView::Pause(ms),
            Ask::Finished => AskView::Finished,
            Ask::Aborted(message) => AskView::Aborted(message@),
        }
    }
}

/// Requests to send, whatever comes back, and then the question to answer.
#[derive(Debug)]
pub struct Turn {
    pub commands: Vec<Command>,
    pub ask: Ask,
}

#[verifier::ext_equal]
pub struct TurnView {
    pub commands: Seq<CommandView>,
    pub ask: AskView,
}

impl View for Turn {
    type V = TurnView;

    open spec fn view(&self) -> TurnView {
        TurnView { commands: commands(self.commands@), ask: self.ask@ }
    }
}

/// What was found out. An answer of another kind than the question asked for
/// counts as none.
#[derive(Debug)]
pub enum Answer {
    /// The query or the request failed, with this message.
    Failed(String),
    /// The request was sent, and this came back.
    Sent(String),
    Monitors(Vec<String>),
    Flag(bool),
    Text(String),
    Clients(Vec<HyprClient>),
    /// A window opened at this address.
    Window(String),
    Target(i32),
    Nothing,
}

impl Answer {
    /// The clients that were reported: none if the query failed.
    pub open spec fn clients(self) -> Seq<HyprClient> {
        match self {
            Answer::Clients(v) => v@,
            _ => seq![],
        }
    }

    /// The message of a failure.
    pub open spec fn failure(self) -> Option<Seq<char>> {
        match self {
            Answer::Failed(message) => Some(message@),
            _ => None,
        }
    }

    /// The address of the window that opened.
    pub open spec fn window(self) -> Option<Seq<char>> {
        match self {
            Answer::Window(address) => Some(address@),
            _ => None,
        }
    }
}

} // verus!
