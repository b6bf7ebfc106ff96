//! Getting one window onto its workspace: adopt it if it is there already,
//! else launch it and wait for it to appear.
use super::command::{
    add_command, add_commands, close_args, close_window, commands, disable_args, disable_rule,
    move_args, move_to_workspace, place_window_in_bsp_slot, placing, Command, CommandView,
};
use super::command::{anchor_view};
use super::launch_cmd::{bsp_launch_line, build_bsp_launch_cmd, build_launch_cmd, launch_line};
use super::launch_laws::{
    law_rule_takes_the_first_free_number, lemma_first_free_unique, lemma_taken_are_few,
};
use super::pool::{claim, race, LiveWindowPool, PoolView};
use super::turn::{Answer, Ask, AskView, Turn, TurnView};
use crate::layout::dwindle::PreselDir;
use crate::models::{HyprClient, WindowEntry, WindowEntryView};
use crate::patterns::{escape, escaped};
use crate::state::normalized;
use crate::text::{contains_text, decimal, natural_to_string, replace, replaced, texts};
use vstd::prelude::*;
use vstd::string::StringExecFns;

verus! {

/// How a late-appearing window should be finalized once it's handed off
/// from the main restore loop to the background watcher. Dwindle and
/// master placement are structurally different (BSP anchor/preselect vs.
/// master/stack promotion), so this is a variant per layout.
#[derive(Debug)]
pub enum PlacementHint {
    /// No special finalization beyond landing on the workspace: stack
    /// windows, the first master window, floating windows, and dwindle
    /// windows with no anchor.
    Bare,
    /// BSP-tree anchor sibling and preselect direction known at plan time.
    DwindleAnchor(String, PreselDir),
    /// Promote to the master slot once placed (an "extra master" window
    /// under the master layout, beyond the first).
    MasterPromote,
}

pub enum PlacementView {
    Bare,
    DwindleAnchor(Seq<char>, PreselDir),
    MasterPromote,
}

impl View for PlacementHint {
    type V = PlacementView;

    open spec fn view(&self) -> PlacementView {
        match *self {
            PlacementHint::Bare => PlacementView::Bare,
            PlacementHint::DwindleAnchor(address, dir) => PlacementView::DwindleAnchor(
                address@,
                dir,
            ),
            PlacementHint::MasterPromote => PlacementView::MasterPromote,
        }
    }
}

/// A window that was launched but didn't appear within the per-window timeout.
/// Handed off to the background watcher for deferred placement.
#[derive(Debug)]
pub struct PendingWindow {
    pub app_id: String,
    pub workspace: String,
    pub floating: bool,
    pub fullscreen: bool,
    pub position: Option<(i32, i32)>,
    pub size: Option<(i32, i32)>,
    pub rule_name: String,
    /// How to finalize this window's placement once it actually appears,
    /// known at plan time.
    pub placement: PlacementHint,
}

pub struct PendingView {
    pub app_id: Seq<char>,
    pub workspace: Seq<char>,
    pub floating: bool,
    pub fullscreen: bool,
    pub position: Option<(i32, i32)>,
    pub size: Option<(i32, i32)>,
    pub rule_name: Seq<char>,
    pub placement: PlacementView,
}

impl View for PendingWindow {
    type V = PendingView;

    open spec fn view(&self) -> PendingView {
        PendingView {
            app_id: self.app_id@,
            workspace: self.workspace@,
            floating: self.floating,
            fullscreen: self.fullscreen,
            position: self.position,
            size: self.size,
            rule_name: self.rule_name@,
            placement: self.placement@,
        }
    }
}

pub open spec fn pending_views(v: Seq<PendingWindow>) -> Seq<PendingView> {
    Seq::new(v.len(), |i: int| v[i]@)
}

/// Which role a window plays in a master-layout restore, if any. Governs
/// both whether the splash-supersede grace-period wait applies and whether
/// the window gets promoted to master once placed.
#[derive(Debug, Clone, Copy, PartialEq, Eq, Structural)]
pub enum MasterRole {
    /// Not part of a master-layout restore (floating, fallback): no
    /// splash-supersede check, no promotion.
    Outside,
    /// Master layout, but no promotion needed (the first master window, or
    /// a stack window): still gets the splash-supersede check.
    Plain,
    /// Master layout, needs `layoutmsg addmaster` once placed.
    Promote,
}

/// Result of attempting to get a window onto the target workspace, one way
/// or another.
#[derive(Debug)]
pub enum LaunchOutcome {
    /// An already-live window (racing autostart) was claimed instead of
    /// launching a duplicate.
    Adopted(String),
    /// The window was launched and its `OpenWindow` event observed normally.
    Opened(String),
    /// Nothing appeared in time; handed off to the late-window watcher.
    Deferred,
    /// The launch failed, with this message.
    Failed(String),
}

pub enum LaunchOutcomeView {
    Adopted(Seq<char>),
    Opened(Seq<char>),
    Deferred,
    Failed(Seq<char>),
}

impl View for LaunchOutcome {
    type V = LaunchOutcomeView;

    open spec fn view(&self) -> LaunchOutcomeView {
        match *self {
            LaunchOutcome::Adopted(address) => LaunchOutcomeView::Adopted(address@),
            LaunchOutcome::Opened(address) => LaunchOutcomeView::Opened(address@),
            LaunchOutcome::Deferred => LaunchOutcomeView::Deferred,
            LaunchOutcome::Failed(message) => LaunchOutcomeView::Failed(message@),
        }
    }
}

/// What the launches of one restore have in common.
pub struct Ledger {
    pub pool: LiveWindowPool,
    /// The rules of windows that have not appeared yet.
    pub active_rules: Vec<String>,
    pub pending: Vec<PendingWindow>,
    /// How many rules were named for BSP launches.
    pub named: usize,
}

#[verifier::ext_equal]
pub struct LedgerView {
    pub pool: PoolView,
    pub active_rules: Seq<Seq<char>>,
    pub pending: Seq<PendingView>,
    pub named: int,
}

impl View for Ledger {
    type V = LedgerView;

    open spec fn view(&self) -> LedgerView {
        LedgerView {
            pool: self.pool@,
            active_rules: texts(self.active_rules@),
            pending: pending_views(self.pending@),
            named: self.named as int,
        }
    }
}

/// How a window is launched and placed.
#[derive(Debug)]
pub enum LaunchMode {
    /// Silently onto its workspace, with a role in the master layout.
    Plain(MasterRole),
    /// Into its BSP slot, beside the anchor if one is given. Does not use
    /// `[workspace N silent]`, since the target workspace is the active one,
    /// and strips single-instance flags.
    Bsp(Option<(String, PreselDir)>),
}

pub enum LaunchModeView {
    Plain(MasterRole),
    Bsp(Option<(Seq<char>, PreselDir)>),
}

impl View for LaunchMode {
    type V = LaunchModeView;

    open spec fn view(&self) -> LaunchModeView {
        match *self {
            LaunchMode::Plain(role) => LaunchModeView::Plain(role),
            LaunchMode::Bsp(anchor) => LaunchModeView::Bsp(anchor_view(anchor)),
        }
    }
}

/// What a launch waits for.
#[derive(Debug)]
pub enum LaunchStage {
    /// The live clients, before anything is launched.
    Probe,
    /// The rule that matches the class.
    ClassRule,
    /// The rule that names the workspace.
    WorkspaceRule,
    /// The launch itself.
    Start,
    /// The window.
    Opening,
    /// A second window, which would make the first a splash.
    Splash(String),
    /// The live clients, after nothing appeared.
    Reprobe,
}

pub enum LaunchStageView {
    Probe,
    ClassRule,
    WorkspaceRule,
    Start,
    Opening,
    Splash(Seq<char>),
    Reprobe,
}

impl View for LaunchStage {
    type V = LaunchStageView;

    open spec fn view(&self) -> LaunchStageView {
        match *self {
            LaunchStage::Probe => LaunchStageView::Probe,
            LaunchStage::ClassRule => LaunchStageView::ClassRule,
            LaunchStage::WorkspaceRule => LaunchStageView::WorkspaceRule,
            LaunchStage::Start => LaunchStageView::Start,
            LaunchStage::Opening => LaunchStageView::Opening,
            LaunchStage::Splash(first) => LaunchStageView::Splash(first@),
            LaunchStage::Reprobe => LaunchStageView::Reprobe,
        }
    }
}

/// A launch under way.
#[derive(Debug)]
pub struct Launch {
    pub mode: LaunchMode,
    pub rule_name: String,
    pub stage: LaunchStage,
}

pub struct LaunchView {
    pub mode: LaunchModeView,
    pub rule_name: Seq<char>,
    pub stage: LaunchStageView,
}

impl View for Launch {
    type V = LaunchView;

    open spec fn view(&self) -> LaunchView {
        LaunchView { mode: self.mode@, rule_name: self.rule_name@, stage: self.stage@ }
    }
}

/// Where a launch stands after an answer.
#[derive(Debug)]
pub enum LaunchStep {
    Going(Launch, Turn),
    /// Over: send the requests, whatever comes back.
    Over(Vec<Command>, LaunchOutcome),
}

pub enum LaunchStepView {
    Going(LaunchView, TurnView),
    Over(Seq<CommandView>, LaunchOutcomeView),
}

impl View for LaunchStep {
    type V = LaunchStepView;

    open spec fn view(&self) -> LaunchStepView {
        match *self {
            LaunchStep::Going(launch, turn) => LaunchStepView::Going(launch@, turn@),
            LaunchStep::Over(v, outcome) => LaunchStepView::Over(commands(v@), outcome@),
        }
    }
}

/// An app id with dashes for dots and spaces.
pub open spec fn slug(app_id: Seq<char>) -> Seq<char> {
    replaced(replaced(app_id, '.', "-"@), ' ', "-"@)
}

pub open spec fn rule_name(app_id: Seq<char>, n: int) -> Seq<char> {
    "hypr-persist-"@ + slug(app_id) + "-"@ + decimal(n)
}

/// Number `n` is the first from `from` on that makes a name which no rule in the
/// list has.
pub open spec fn is_first_free(
    rules: Seq<Seq<char>>,
    app_id: Seq<char>,
    from: int,
    n: int,
) -> bool {
    &&& from <= n
    &&& !rules.contains(rule_name(app_id, n))
    &&& forall|m: int| from <= m < n ==> rules.contains(#[trigger] rule_name(app_id, m))
}

pub open spec fn first_free(rules: Seq<Seq<char>>, app_id: Seq<char>, from: int) -> int {
    choose|n: int| is_first_free(rules, app_id, from, n)
}

/// `windowrule[<rule>]:match:class ^(<class>)$`
pub open spec fn class_rule_args(rule: Seq<char>, app_id: Seq<char>) -> Seq<char> {
    "windowrule["@ + rule + "]:match:class ^("@ + escaped(app_id) + ")$"@
}

/// `windowrule[<rule>]:workspace <workspace> silent`
pub open spec fn workspace_rule_args(rule: Seq<char>, workspace: Seq<char>) -> Seq<char> {
    "windowrule["@ + rule + "]:workspace "@ + workspace + " silent"@
}

/// The dispatch that launches the window.
pub open spec fn exec_args(w: WindowEntryView, mode: LaunchModeView) -> Seq<char> {
    match mode {
        LaunchModeView::Plain(_) => "exec [workspace "@ + w.workspace + " silent] "@ + launch_line(
            w,
        ),
        LaunchModeView::Bsp(_) => "exec "@ + bsp_launch_line(w),
    }
}

/// What puts an adopted window in its place.
pub open spec fn adopting(
    w: WindowEntryView,
    mode: LaunchModeView,
    address: Seq<char>,
) -> Seq<CommandView> {
    match mode {
        LaunchModeView::Plain(_) => seq![
            CommandView::Dispatch(move_args(w.workspace, address)),
        ],
        LaunchModeView::Bsp(anchor) => placing(address, w.workspace, anchor),
    }
}

/// What puts a launched window in its place.
pub open spec fn settling(
    w: WindowEntryView,
    mode: LaunchModeView,
    address: Seq<char>,
) -> Seq<CommandView> {
    match mode {
        LaunchModeView::Plain(MasterRole::Promote) => seq![
            CommandView::Dispatch(move_args(w.workspace, address)),
            CommandView::Dispatch("layoutmsg addmaster"@),
        ],
        _ => adopting(w, mode, address),
    }
}

/// What the late-window watcher is to do with the window.
pub open spec fn hint_of(mode: LaunchModeView) -> PlacementView {
    match mode {
        LaunchModeView::Plain(MasterRole::Promote) => PlacementView::MasterPromote,
        LaunchModeView::Plain(_) => PlacementView::Bare,
        LaunchModeView::Bsp(Some((address, dir))) => PlacementView::DwindleAnchor(address, dir),
        LaunchModeView::Bsp(None) => PlacementView::Bare,
    }
}

pub open spec fn pending_of(w: WindowEntryView, l: LaunchView) -> PendingView {
    PendingView {
        app_id: w.app_id,
        workspace: w.workspace,
        floating: w.floating,
        fullscreen: w.fullscreen,
        position: w.position,
        size: w.size,
        rule_name: l.rule_name,
        placement: hint_of(l.mode),
    }
}

pub open spec fn asking(l: LaunchView, stage: LaunchStageView, ask: AskView) -> LaunchStepView {
    LaunchStepView::Going(LaunchView { stage, ..l }, TurnView { commands: seq![], ask })
}

/// The launch of a window, at its first question.
pub open spec fn launching(mode: LaunchModeView) -> (LaunchView, TurnView) {
    (
        LaunchView { mode, rule_name: seq![], stage: LaunchStageView::Probe },
        TurnView { commands: seq![], ask: AskView::Clients },
    )
}

/// The clients are known and nothing is launched yet: a racing window is
/// adopted, else the rule gets its name and the launch begins. A plain launch
/// numbers its rule by how many are kept, a BSP launch by how many BSP launches
/// came before. Where a rule that is kept has that name, the next number is
/// taken.
pub open spec fn after_probe(
    w: WindowEntryView,
    l: LaunchView,
    led: LedgerView,
    clients: Seq<HyprClient>,
) -> (LedgerView, LaunchStepView) {
    let (pool, found) = race(led.pool, clients, w.app_id);
    match found {
        Some(address) => (
            LedgerView { pool, ..led },
            LaunchStepView::Over(
                adopting(w, l.mode, address),
                LaunchOutcomeView::Adopted(address),
            ),
        ),
        None => {
            let (from, named) = match l.mode {
                LaunchModeView::Plain(_) => (led.active_rules.len() as int, led.named),
                LaunchModeView::Bsp(_) => (led.named, led.named + 1),
            };
            let rule = rule_name(w.app_id, first_free(led.active_rules, w.app_id, from));
            (
                LedgerView { named, ..led },
                asking(
                    LaunchView { rule_name: rule, ..l },
                    LaunchStageView::ClassRule,
                    AskView::Send(CommandView::Keyword(class_rule_args(rule, w.app_id))),
                ),
            )
        },
    }
}

/// The window appeared: its rule is disabled at once. Unless it stands
/// outside the layout, a second window may yet make it a splash.
pub open spec fn after_open(
    w: WindowEntryView,
    l: LaunchView,
    led: LedgerView,
    address: Seq<char>,
) -> (LedgerView, LaunchStepView) {
    let disable = CommandView::Keyword(disable_args(l.rule_name));
    match l.mode {
        LaunchModeView::Plain(MasterRole::Outside) => (
            LedgerView { pool: claim(led.pool, normalized(address)), ..led },
            LaunchStepView::Over(
                seq![disable] + settling(w, l.mode, address),
                LaunchOutcomeView::Opened(address),
            ),
        ),
        LaunchModeView::Plain(_) => (
            led,
            LaunchStepView::Going(
                LaunchView { stage: LaunchStageView::Splash(address), ..l },
                TurnView {
                    commands: seq![disable],
                    ask: AskView::OpenEvent { class: w.app_id, splash: true },
                },
            ),
        ),
        LaunchModeView::Bsp(_) => (
            led,
            LaunchStepView::Going(
                LaunchView { stage: LaunchStageView::Splash(address), ..l },
                TurnView {
                    commands: seq![
                        disable,
                        CommandView::Dispatch(move_args(w.workspace, address)),
                    ],
                    ask: AskView::OpenEvent { class: w.app_id, splash: true },
                },
            ),
        ),
    }
}

/// The grace period is over: a second window supersedes the first, which is
/// closed.
pub open spec fn after_splash(
    w: WindowEntryView,
    l: LaunchView,
    led: LedgerView,
    first: Seq<char>,
    second: Option<Seq<char>>,
) -> (LedgerView, LaunchStepView) {
    let (closing, address) = match second {
        Some(main) => (seq![CommandView::Dispatch(close_args(first))], main),
        None => (seq![], first),
    };
    (
        LedgerView { pool: claim(led.pool, normalized(address)), ..led },
        LaunchStepView::Over(
            closing + settling(w, l.mode, address),
            LaunchOutcomeView::Opened(address),
        ),
    )
}

/// Nothing appeared, and the clients were queried again: a racing window is
/// adopted and the rule disabled, else the window is left to the watcher and
/// its rule stays.
pub open spec fn after_reprobe(
    w: WindowEntryView,
    l: LaunchView,
    led: LedgerView,
    clients: Seq<HyprClient>,
) -> (LedgerView, LaunchStepView) {
    let (pool, found) = race(led.pool, clients, w.app_id);
    match found {
        Some(address) => (
            LedgerView { pool, ..led },
            LaunchStepView::Over(
                seq![CommandView::Keyword(disable_args(l.rule_name))] + adopting(
                    w,
                    l.mode,
                    address,
                ),
                LaunchOutcomeView::Adopted(address),
            ),
        ),
        None => (
            LedgerView {
                active_rules: led.active_rules.push(l.rule_name),
                pending: led.pending.push(pending_of(w, l)),
                ..led
            },
            LaunchStepView::Over(seq![], LaunchOutcomeView::Deferred),
        ),
    }
}

/// The next step of a launch.
pub open spec fn launch_next(w: WindowEntryView, l: LaunchView, led: LedgerView, answer: Answer) -> (
    LedgerView,
    LaunchStepView,
) {
    match l.stage {
        LaunchStageView::Probe => after_probe(w, l, led, answer.clients()),
        LaunchStageView::ClassRule => match answer.failure() {
            Some(message) => (
                led,
                LaunchStepView::Over(seq![], LaunchOutcomeView::Failed(message)),
            ),
            None => (
                led,
                asking(
                    l,
                    LaunchStageView::WorkspaceRule,
                    AskView::Send(
                        CommandView::Keyword(workspace_rule_args(l.rule_name, w.workspace)),
                    ),
                ),
            ),
        },
        LaunchStageView::WorkspaceRule => match answer.failure() {
            Some(message) => (
                led,
                LaunchStepView::Over(seq![], LaunchOutcomeView::Failed(message)),
            ),
            None => (
                led,
                asking(
                    l,
                    LaunchStageView::Start,
                    AskView::Send(CommandView::Dispatch(exec_args(w, l.mode))),
                ),
            ),
        },
        LaunchStageView::Start => match answer.failure() {
            Some(_) => (
                led,
                LaunchStepView::Over(
                    seq![],
                    LaunchOutcomeView::Failed("launching "@ + w.launch_cmd),
                ),
            ),
            None => (
                led,
                asking(
                    l,
                    LaunchStageView::Opening,
                    AskView::OpenEvent { class: w.app_id, splash: false },
                ),
            ),
        },
        LaunchStageView::Opening => match answer.window() {
            Some(address) => after_open(w, l, led, address),
            None => (led, asking(l, LaunchStageView::Reprobe, AskView::Clients)),
        },
        LaunchStageView::Splash(first) => after_splash(w, l, led, first, answer.window()),
        LaunchStageView::Reprobe => after_reprobe(w, l, led, answer.clients()),
    }
}

fn name_rule(app_id: &str, n: u128) -> (r: String)
    ensures
        r@ == rule_name(app_id@, n as int),
{
    let dotless = replace(app_id, '.', "-");
    let plain = replace(dotless.as_str(), ' ', "-");
    let number = natural_to_string(n);
    let mut s = "hypr-persist-".to_owned();
    s.append(plain.as_str());
    s.append("-");
    s.append(number.as_str());
    s
}

/// A name for a rule, with the first number from `from` on that no rule in the
/// list has.
fn free_name(rules: &Vec<String>, app_id: &str, from: usize) -> (r: String)
    ensures
        r@ == rule_name(app_id@, first_free(texts(rules@), app_id@, from as int)),
{
    let len: usize = rules.len();
    let limit: u128 = from as u128 + len as u128;
    let mut n: u128 = from as u128;
    let mut name = name_rule(app_id, n);
    while contains_text(rules, name.as_str())
        invariant
            from <= n <= limit,
            limit == from + rules@.len(),
            name@ == rule_name(app_id@, n as int),
            forall|m: int|
                from <= m < n ==> texts(rules@).contains(#[trigger] rule_name(app_id@, m)),
        decreases limit - n,
    {
        proof {
            lemma_taken_are_few(texts(rules@), app_id@, from as int, n + 1);
        }
        n = n + 1;
        name = name_rule(app_id, n);
    }
    proof {
        law_rule_takes_the_first_free_number(texts(rules@), app_id@, from as int);
        lemma_first_free_unique(
            texts(rules@),
            app_id@,
            from as int,
            n as int,
            first_free(texts(rules@), app_id@, from as int),
        );
    }
    name
}

fn class_rule(rule: &str, app_id: &str) -> (r: Command)
    ensures
        r@ == CommandView::Keyword(class_rule_args(rule@, app_id@)),
{
    let class_escaped = escape(app_id);
    let mut s = "windowrule[".to_owned();
    s.append(rule);
    s.append("]:match:class ^(");
    s.append(class_escaped.as_str());
    s.append(")$");
    Command::Keyword(s)
}

fn workspace_rule(rule: &str, workspace: &str) -> (r: Command)
    ensures
        r@ == CommandView::Keyword(workspace_rule_args(rule@, workspace@)),
{
    let mut s = "windowrule[".to_owned();
    s.append(rule);
    s.append("]:workspace ");
    s.append(workspace);
    s.append(" silent");
    Command::Keyword(s)
}

fn exec_command(window: &WindowEntry, mode: &LaunchMode) -> (r: Command)
    ensures
        r@ == CommandView::Dispatch(exec_args(window@, mode@)),
{
    match mode {
        LaunchMode::Plain(_) => {
            let line = build_launch_cmd(window);
            let mut s = "exec [workspace ".to_owned();
            s.append(window.workspace.as_str());
            s.append(" silent] ");
            s.append(line.as_str());
            Command::Dispatch(s)
        },
        LaunchMode::Bsp(_) => {
            let line = build_bsp_launch_cmd(window);
            let mut s = "exec ".to_owned();
            s.append(line.as_str());
            Command::Dispatch(s)
        },
    }
}

fn adopt(window: &WindowEntry, mode: &LaunchMode, address: &str) -> (r: Vec<Command>)
    ensures
        commands(r@) == adopting(window@, mode@, address@),
{
    match mode {
        LaunchMode::Plain(_) => {
            let mut out: Vec<Command> = Vec::new();
            add_command(&mut out, move_to_workspace(window.workspace.as_str(), address));
            assert(commands(out@) =~= adopting(window@, mode@, address@));
            out
        },
        LaunchMode::Bsp(anchor) => place_window_in_bsp_slot(
            address,
            window.workspace.as_str(),
            anchor,
        ),
    }
}

fn settle(window: &WindowEntry, mode: &LaunchMode, address: &str) -> (r: Vec<Command>)
    ensures
        commands(r@) == settling(window@, mode@, address@),
{
    let mut out = adopt(window, mode, address);
    match mode {
        LaunchMode::Plain(MasterRole::Promote) => {
            add_command(&mut out, Command::Dispatch("layoutmsg addmaster".to_owned()));
            assert(commands(out@) =~= settling(window@, mode@, address@));
        },
        _ => {},
    }
    out
}

fn hint(mode: &LaunchMode) -> (r: PlacementHint)
    ensures
        r@ == hint_of(mode@),
{
    match mode {
        LaunchMode::Plain(MasterRole::Promote) => PlacementHint::MasterPromote,
        LaunchMode::Plain(_) => PlacementHint::Bare,
        LaunchMode::Bsp(Some((address, dir))) => PlacementHint::DwindleAnchor(
            address.clone(),
            *dir,
        ),
        LaunchMode::Bsp(None) => PlacementHint::Bare,
    }
}

fn just(ask: Ask) -> (r: Turn)
    ensures
        r@ == (TurnView { commands: seq![], ask: ask@ }),
{
    let r = Turn { commands: Vec::new(), ask };
    assert(commands(r.commands@) =~= seq![]);
    r
}

fn over(outcome: LaunchOutcome) -> (r: LaunchStep)
    ensures
        r@ == LaunchStepView::Over(seq![], outcome@),
{
    let v: Vec<Command> = Vec::new();
    assert(commands(v@) =~= seq![]);
    LaunchStep::Over(v, outcome)
}

impl Ledger {
    /// Look for a racing window among the clients that were reported.
    fn find_racing(&mut self, answer: &Answer, app_id: &str) -> (r: Option<String>)
        ensures
            final(self)@.pool == race(old(self)@.pool, answer.clients(), app_id@).0,
            final(self).active_rules == old(self).active_rules,
            final(self).pending == old(self).pending,
            final(self).named == old(self).named,
            r is Some <==> race(old(self)@.pool, answer.clients(), app_id@).1 is Some,
            r matches Some(a) ==> race(old(self)@.pool, answer.clients(), app_id@).1 == Some(a@),
    {
        match answer {
            Answer::Clients(clients) => self.pool.find_unclaimed_racing_window(clients, app_id),
            _ => None,
        }
    }

    /// Leave a window to the watcher.
    fn defer(&mut self, rule: String, window: PendingWindow)
        ensures
            final(self)@ == (LedgerView {
                active_rules: old(self)@.active_rules.push(rule@),
                pending: old(self)@.pending.push(window@),
                ..old(self)@
            }),
    {
        self.active_rules.push(rule);
        self.pending.push(window);
        proof {
            assert(texts(self.active_rules@) =~= texts(old(self).active_rules@).push(rule@));
            assert(pending_views(self.pending@) =~= pending_views(old(self).pending@).push(
                window@,
            ));
            assert(self@ =~= LedgerView {
                active_rules: old(self)@.active_rules.push(rule@),
                pending: old(self)@.pending.push(window@),
                ..old(self)@
            });
        }
    }
}

impl Launch {
    /// Begin a launch. The live clients are asked for first: an app that is
    /// already there must not be launched twice.
    pub fn begin(mode: LaunchMode) -> (r: (Launch, Turn))
        ensures
            (r.0@, r.1@) == launching(mode@),
    {
        let rule_name = String::new();
        (Launch { mode, rule_name, stage: LaunchStage::Probe }, just(Ask::Clients))
    }

    /// Take an answer and go on with the launch.
    ///
    /// The rule is disabled immediately once the window appears so that a
    /// subsequent window of the same class never sees a stale rule. Only
    /// rules for timed-out windows are kept alive for the background watcher.
    pub fn next(self, window: &WindowEntry, ledger: &mut Ledger, answer: &Answer) -> (r: LaunchStep)
        requires
            self.stage is Probe ==> old(ledger).named < usize::MAX,
        ensures
            (final(ledger)@, r@) == launch_next(window@, self@, old(ledger)@, *answer),
    {
        let Launch { mode, rule_name, stage } = self;
        match stage {
            LaunchStage::Probe => Self::probed(mode, window, ledger, answer),
            LaunchStage::ClassRule => match answer {
                Answer::Failed(message) => over(LaunchOutcome::Failed(message.clone())),
                _ => {
                    let rule = workspace_rule(rule_name.as_str(), window.workspace.as_str());
                    LaunchStep::Going(
                        Launch { mode, rule_name, stage: LaunchStage::WorkspaceRule },
                        just(Ask::Send(rule)),
                    )
                },
            },
            LaunchStage::WorkspaceRule => match answer {
                Answer::Failed(message) => over(LaunchOutcome::Failed(message.clone())),
                _ => {
                    let launch = exec_command(window, &mode);
                    LaunchStep::Going(
                        Launch { mode, rule_name, stage: LaunchStage::Start },
                        just(Ask::Send(launch)),
                    )
                },
            },
            LaunchStage::Start => match answer {
                Answer::Failed(_) => {
                    let mut message = "launching ".to_owned();
                    message.append(window.launch_cmd.as_str());
                    over(LaunchOutcome::Failed(message))
                },
                _ => LaunchStep::Going(
                    Launch { mode, rule_name, stage: LaunchStage::Opening },
                    just(Ask::OpenEvent { class: window.app_id.clone(), splash: false }),
                ),
            },
            LaunchStage::Opening => match answer {
                Answer::Window(address) => Self::opened(mode, rule_name, window, ledger, address),
                _ => LaunchStep::Going(
                    Launch { mode, rule_name, stage: LaunchStage::Reprobe },
                    just(Ask::Clients),
                ),
            },
            LaunchStage::Splash(first) => {
                let mut out: Vec<Command> = Vec::new();
                assert(commands(out@) =~= seq![]);
                let address = match answer {
                    Answer::Window(main) => {
                        add_command(&mut out, close_window(first.as_str()));
                        main.clone()
                    },
                    _ => first,
                };
                let rest = settle(window, &mode, address.as_str());
                add_commands(&mut out, rest);
                ledger.pool.mark_claimed(address.as_str());
                proof {
                    let second = answer.window();
                    let (closing, _) = match second {
                        Some(main) => (seq![CommandView::Dispatch(close_args(first@))], main),
                        None => (seq![], first@),
                    };
                    assert(commands(out@) =~= closing + settling(window@, mode@, address@));
                }
                LaunchStep::Over(out, LaunchOutcome::Opened(address))
            },
            LaunchStage::Reprobe => {
                match ledger.find_racing(answer, window.app_id.as_str()) {
                    Some(address) => {
                        let mut out: Vec<Command> = Vec::new();
                        assert(commands(out@) =~= seq![]);
                        add_command(&mut out, disable_rule(rule_name.as_str()));
                        let rest = adopt(window, &mode, address.as_str());
                        add_commands(&mut out, rest);
                        assert(commands(out@) =~= seq![
                            CommandView::Keyword(disable_args(rule_name@)),
                        ] + adopting(window@, mode@, address@));
                        LaunchStep::Over(out, LaunchOutcome::Adopted(address))
                    },
                    None => {
                        let placement = hint(&mode);
                        ledger.defer(
                            rule_name.clone(),
                            PendingWindow {
                                app_id: window.app_id.clone(),
                                workspace: window.workspace.clone(),
                                floating: window.floating,
                                fullscreen: window.fullscreen,
                                position: window.position,
                                size: window.size,
                                rule_name,
                                placement,
                            },
                        );
                        over(LaunchOutcome::Deferred)
                    },
                }
            },
        }
    }

    fn probed(
        mode: LaunchMode,
        window: &WindowEntry,
        ledger: &mut Ledger,
        answer: &Answer,
    ) -> (r: LaunchStep)
        requires
            old(ledger).named < usize::MAX,
        ensures
            forall|rule: Seq<char>|
                (final(ledger)@, r@) == #[trigger] after_probe(
                    window@,
                    LaunchView { mode: mode@, rule_name: rule, stage: LaunchStageView::Probe },
                    old(ledger)@,
                    answer.clients(),
                ),
    {
        match ledger.find_racing(answer, window.app_id.as_str()) {
            Some(address) => {
                let out = adopt(window, &mode, address.as_str());
                LaunchStep::Over(out, LaunchOutcome::Adopted(address))
            },
            None => {
                let from: usize = match &mode {
                    LaunchMode::Plain(_) => ledger.active_rules.len(),
                    LaunchMode::Bsp(_) => {
                        let n: usize = ledger.named;
                        ledger.named = n + 1;
                        n
                    },
                };
                let rule_name = free_name(&ledger.active_rules, window.app_id.as_str(), from);
                let rule = class_rule(rule_name.as_str(), window.app_id.as_str());
                LaunchStep::Going(
                    Launch { mode, rule_name, stage: LaunchStage::ClassRule },
                    just(Ask::Send(rule)),
                )
            },
        }
    }

    fn opened(
        mode: LaunchMode,
        rule_name: String,
        window: &WindowEntry,
        ledger: &mut Ledger,
        address: &String,
    ) -> (r: LaunchStep)
        ensures
            (final(ledger)@, r@) == after_open(
                window@,
                LaunchView {
                    mode: mode@,
                    rule_name: rule_name@,
                    stage: LaunchStageView::Opening,
                },
                old(ledger)@,
                address@,
            ),
    {
        let mut out: Vec<Command> = Vec::new();
        assert(commands(out@) =~= seq![]);
        add_command(&mut out, disable_rule(rule_name.as_str()));
        match &mode {
            LaunchMode::Plain(MasterRole::Outside) => {
                let rest = settle(window, &mode, address.as_str());
                add_commands(&mut out, rest);
                ledger.pool.mark_claimed(address.as_str());
                assert(commands(out@) =~= seq![CommandView::Keyword(disable_args(rule_name@))]
                    + settling(window@, mode@, address@));
                return LaunchStep::Over(out, LaunchOutcome::Opened(address.clone()));
            },
            LaunchMode::Plain(_) => {
                assert(commands(out@) =~= seq![CommandView::Keyword(disable_args(rule_name@))]);
            },
            LaunchMode::Bsp(_) => {
                add_command(
                    &mut out,
                    move_to_workspace(window.workspace.as_str(), address.as_str()),
                );
                assert(commands(out@) =~= seq![
                    CommandView::Keyword(disable_args(rule_name@)),
                    CommandView::Dispatch(move_args(window@.workspace, address@)),
                ]);
            },
        }
        LaunchStep::Going(
            Launch { mode, rule_name, stage: LaunchStage::Splash(address.clone()) },
            Turn {
                commands: out,
                ask: Ask::OpenEvent { class: window.app_id.clone(), splash: true },
            },
        )
    }
}

} // verus!
