//! Corrections after placement: split ratios, sizes, fullscreen.
use super::command::{
    add_command, commands, focus_args, focus_window, fullscreen, fullscreen_args, nudge_args,
    resize_args, resize_by, resize_exact, Command, CommandView,
};
use super::turn::{Answer, Ask, AskView, Turn, TurnView};
use crate::ipc::client::{client_from, HyprCtl};
use crate::layout::dwindle::{PixelRatioStep, SplitDir, SplitRatioStep};
use crate::models::{HyprClient, WindowEntry};
use crate::text::{str_eq, trim, trimmed};
use vstd::prelude::*;

verus! {

/// How far a window may be from its saved extent, in pixels.
pub const TOLERANCE: i64 = 6;

/// Where the windows of a session ended up.
#[derive(Debug)]
pub struct Places {
    /// The address of each window that is open.
    pub addresses: Vec<Option<String>>,
    /// The windows that were adopted rather than launched.
    pub adopted: Vec<bool>,
}

#[verifier::ext_equal]
pub struct PlacesView {
    pub addresses: Seq<Option<Seq<char>>>,
    pub adopted: Seq<bool>,
}

pub open spec fn address_views(v: Seq<Option<String>>) -> Seq<Option<Seq<char>>> {
    Seq::new(v.len(), |i: int| crate::models::opt_text(v[i]))
}

impl View for Places {
    type V = PlacesView;

    open spec fn view(&self) -> PlacesView {
        PlacesView { addresses: address_views(self.addresses@), adopted: self.adopted@ }
    }
}

impl PlacesView {
    /// The address of a window, if it is open.
    pub open spec fn address(self, idx: int) -> Option<Seq<char>> {
        if 0 <= idx < self.addresses.len() {
            self.addresses[idx]
        } else {
            None
        }
    }

    pub open spec fn is_adopted(self, idx: int) -> bool {
        0 <= idx < self.adopted.len() && self.adopted[idx]
    }

    /// The window was opened by this restore.
    pub open spec fn is_own(self, idx: int) -> bool {
        self.address(idx) is Some && !self.is_adopted(idx)
    }
}

impl Places {
    fn address(&self, idx: usize) -> (r: Option<&String>)
        ensures
            r is Some <==> self@.address(idx as int) is Some,
            r matches Some(a) ==> self@.address(idx as int) == Some(a@),
    {
        if idx < self.addresses.len() {
            match &self.addresses[idx] {
                Some(a) => Some(a),
                None => None,
            }
        } else {
            None
        }
    }

    fn is_adopted(&self, idx: usize) -> (r: bool)
        ensures
            r == self@.is_adopted(idx as int),
    {
        idx < self.adopted.len() && self.adopted[idx]
    }
}

/// Where a correction stands after an answer.
pub enum Step<S> {
    Going(S, Turn),
    Over,
    /// The whole restore is given up.
    Abort(String),
}

pub enum StepView<V> {
    Going(V, TurnView),
    Over,
    Abort(Seq<char>),
}

impl<S: View> View for Step<S> {
    type V = StepView<S::V>;

    open spec fn view(&self) -> StepView<S::V> {
        match *self {
            Step::Going(s, turn) => StepView::Going(s@, turn@),
            Step::Over => StepView::Over,
            Step::Abort(message) => StepView::Abort(message@),
        }
    }
}

pub open spec fn only(ask: AskView) -> TurnView {
    TurnView { commands: seq![], ask }
}

fn just(ask: Ask) -> (r: Turn)
    ensures
        r@ == only(ask@),
{
    let r = Turn { commands: Vec::new(), ask };
    assert(commands(r.commands@) =~= seq![]);
    r
}

fn sending(command: Command, ask: Ask) -> (r: Turn)
    ensures
        r@ == (TurnView { commands: seq![command@], ask: ask@ }),
{
    let mut v: Vec<Command> = Vec::new();
    assert(commands(v@) =~= seq![]);
    add_command(&mut v, command);
    assert(commands(v@) =~= seq![command@]);
    Turn { commands: v, ask }
}

// ---------------------------------------------------------------------------
// Split ratios that a window can reach.

#[derive(Debug, Clone, Copy, PartialEq, Eq, Structural)]
pub enum RatioStage {
    /// The window gets the focus.
    Focus,
    /// Its split gets its ratio.
    Ratio,
    /// The layout settles.
    Settle,
}

/// Setting the split ratios, one after the other.
#[derive(Debug, Clone, Copy)]
pub struct RatioRun {
    pub at: usize,
    pub stage: RatioStage,
    /// Some ratio was set.
    pub applied: bool,
}

impl View for RatioRun {
    type V = RatioRun;

    open spec fn view(&self) -> RatioRun {
        *self
    }
}

/// The first step from `k` on whose window this restore opened.
pub open spec fn next_ratio(steps: Seq<SplitRatioStep>, places: PlacesView, k: int) -> Option<int>
    decreases steps.len() - k,
{
    if k < 0 || k >= steps.len() {
        None
    } else if places.is_own(steps[k].focus_window_idx as int) {
        Some(k)
    } else {
        next_ratio(steps, places, k + 1)
    }
}

/// Go on with the ratios from `k` on. Freshly created windows always start at
/// the default ratio of one half; adopted ones do not, so they are skipped.
pub open spec fn ratios_from(
    steps: Seq<SplitRatioStep>,
    places: PlacesView,
    k: int,
    applied: bool,
) -> StepView<RatioRun> {
    match next_ratio(steps, places, k) {
        Some(j) => StepView::Going(
            RatioRun { at: j as usize, stage: RatioStage::Focus, applied },
            only(
                AskView::Send(
                    CommandView::Dispatch(
                        focus_args(places.address(steps[j].focus_window_idx as int)->0),
                    ),
                ),
            ),
        ),
        None => if applied {
            StepView::Going(
                RatioRun { at: steps.len() as usize, stage: RatioStage::Settle, applied },
                only(AskView::Pause(30)),
            )
        } else {
            StepView::Over
        },
    }
}

/// The request went through.
pub open spec fn is_ok(answer: Answer) -> bool {
    answer matches Answer::Sent(response) && trimmed(response@) == "ok"@
}

pub open spec fn ratio_next(
    steps: Seq<SplitRatioStep>,
    places: PlacesView,
    run: RatioRun,
    answer: Answer,
) -> StepView<RatioRun> {
    if run.at >= steps.len() {
        StepView::Over
    } else {
        match run.stage {
            RatioStage::Focus => if answer.failure() is Some {
                ratios_from(steps, places, run.at + 1, run.applied)
            } else {
                StepView::Going(
                    RatioRun { stage: RatioStage::Ratio, ..run },
                    only(AskView::Send(CommandView::SplitRatio(steps[run.at as int].ratio))),
                )
            },
            RatioStage::Ratio => ratios_from(
                steps,
                places,
                run.at + 1,
                run.applied || is_ok(answer),
            ),
            RatioStage::Settle => StepView::Over,
        }
    }
}

fn response_ok(answer: &Answer) -> (r: bool)
    ensures
        r == is_ok(*answer),
{
    match answer {
        Answer::Sent(response) => str_eq(trim(response.as_str()), "ok"),
        _ => false,
    }
}

impl RatioRun {
    fn from(steps: &Vec<SplitRatioStep>, places: &Places, k: usize, applied: bool) -> (r: Step<
        RatioRun,
    >)
        requires
            k <= steps@.len(),
        ensures
            r@ == ratios_from(steps@, places@, k as int, applied),
    {
        let mut j: usize = k;
        while j < steps.len()
            invariant
                k <= j <= steps@.len(),
                next_ratio(steps@, places@, k as int) == next_ratio(steps@, places@, j as int),
            decreases steps@.len() - j,
        {
            let idx: usize = steps[j].focus_window_idx;
            if !places.is_adopted(idx) {
                match places.address(idx) {
                    Some(address) => {
                        return Step::Going(
                            RatioRun { at: j, stage: RatioStage::Focus, applied },
                            just(Ask::Send(focus_window(address.as_str()))),
                        );
                    },
                    None => {},
                }
            }
            j = j + 1;
        }
        if applied {
            Step::Going(
                RatioRun { at: steps.len(), stage: RatioStage::Settle, applied },
                just(Ask::Pause(30)),
            )
        } else {
            Step::Over
        }
    }

    /// Apply `layoutmsg splitratio <delta>` for each split node in the BSP
    /// tree that has a direct leaf child.
    pub fn begin(steps: &Vec<SplitRatioStep>, places: &Places) -> (r: Step<RatioRun>)
        ensures
            r@ == ratios_from(steps@, places@, 0, false),
    {
        Self::from(steps, places, 0, false)
    }

    pub fn next(self, steps: &Vec<SplitRatioStep>, places: &Places, answer: &Answer) -> (r: Step<
        RatioRun,
    >)
        ensures
            r@ == ratio_next(steps@, places@, self, *answer),
    {
        if self.at >= steps.len() {
            return Step::Over;
        }
        match self.stage {
            RatioStage::Focus => match answer {
                Answer::Failed(_) => Self::from(steps, places, self.at + 1, self.applied),
                _ => Step::Going(
                    RatioRun { at: self.at, stage: RatioStage::Ratio, applied: self.applied },
                    just(Ask::Send(Command::SplitRatio(steps[self.at].ratio))),
                ),
            },
            RatioStage::Ratio => {
                let ok = response_ok(answer);
                Self::from(steps, places, self.at + 1, self.applied || ok)
            },
            RatioStage::Settle => Step::Over,
        }
    }
}

// ---------------------------------------------------------------------------
// Split ratios that only a resize can reach.

#[derive(Debug, Clone, Copy, PartialEq, Eq, Structural)]
pub enum PixelStage {
    /// The live extent of the first side.
    First,
    /// The live extent of the second side; the first side has this one.
    Second(i32),
    /// The extent that the first side should have; it has this one.
    Target(i32),
    /// The layout settles after a resize.
    Settle,
}

/// Correcting split ratios by resizing, one resize in each pass.
#[derive(Debug)]
pub struct PixelRun {
    pub candidates: Vec<PixelRatioStep>,
    /// How far each candidate was off when it was last resized.
    pub last: Vec<Option<i64>>,
    pub pass: u128,
    pub at: usize,
    pub stage: PixelStage,
}

#[verifier::ext_equal]
pub struct PixelRunView {
    pub candidates: Seq<PixelRatioStep>,
    pub last: Seq<Option<i64>>,
    pub pass: int,
    pub at: int,
    pub stage: PixelStage,
}

impl View for PixelRun {
    type V = PixelRunView;

    open spec fn view(&self) -> PixelRunView {
        PixelRunView {
            candidates: self.candidates@,
            last: self.last@,
            pass: self.pass as int,
            at: self.at as int,
            stage: self.stage,
        }
    }
}

/// The splits with no adopted window at their leftmost leaves. An adopted
/// window's tree shape is already live and shouldn't be nudged.
pub open spec fn pixel_candidates(steps: Seq<PixelRatioStep>, places: PlacesView) -> Seq<
    PixelRatioStep,
> {
    steps.filter(
        |s: PixelRatioStep|
            !places.is_adopted(s.first_leaf_idx as int) && !places.is_adopted(
                s.second_leaf_idx as int,
            ),
    )
}

/// The first candidate from `k` on with both windows open.
pub open spec fn next_pixel(candidates: Seq<PixelRatioStep>, places: PlacesView, k: int) -> Option<
    int,
>
    decreases candidates.len() - k,
{
    if k < 0 || k >= candidates.len() {
        None
    } else if places.address(candidates[k].first_leaf_idx as int) is Some && places.address(
        candidates[k].second_leaf_idx as int,
    ) is Some {
        Some(k)
    } else {
        next_pixel(candidates, places, k + 1)
    }
}

/// Go on with a pass from candidate `k` on. A pass that finds nothing to
/// resize is the last.
pub open spec fn pixels_from(run: PixelRunView, places: PlacesView, k: int) -> StepView<
    PixelRunView,
> {
    match next_pixel(run.candidates, places, k) {
        Some(j) => StepView::Going(
            PixelRunView { at: j, stage: PixelStage::First, ..run },
            only(AskView::Clients),
        ),
        None => StepView::Over,
    }
}

pub open spec fn pixels_begin(steps: Seq<PixelRatioStep>, places: PlacesView) -> StepView<
    PixelRunView,
> {
    let candidates = pixel_candidates(steps, places);
    pixels_from(
        PixelRunView {
            candidates,
            last: Seq::new(candidates.len(), |i: int| None),
            pass: 0,
            at: 0,
            stage: PixelStage::First,
        },
        places,
        0,
    )
}

/// The extent of the live window along the split's axis.
pub open spec fn live_extent(
    clients: Seq<HyprClient>,
    address: Option<Seq<char>>,
    dir: SplitDir,
) -> Option<i32> {
    match address {
        Some(a) => match client_from(clients, a, 0) {
            Some(c) => Some(
                match dir {
                    SplitDir::Horizontal => c.size.0,
                    SplitDir::Vertical => c.size.1,
                },
            ),
            None => None,
        },
        None => None,
    }
}

/// The resize that moves a split by `delta` along its own axis only.
pub open spec fn pixel_nudge(dir: SplitDir, delta: int, address: Seq<char>) -> CommandView {
    match dir {
        SplitDir::Horizontal => CommandView::Dispatch(nudge_args(delta, 0, address)),
        SplitDir::Vertical => CommandView::Dispatch(nudge_args(0, delta, address)),
    }
}

pub open spec fn off(delta: int) -> bool {
    delta > TOLERANCE || delta < -TOLERANCE
}

pub open spec fn pixel_next(run: PixelRunView, places: PlacesView, answer: Answer) -> StepView<
    PixelRunView,
> {
    if run.at >= run.candidates.len() || run.at >= run.last.len() {
        StepView::Over
    } else {
        let step = run.candidates[run.at];
        match run.stage {
            PixelStage::First => match live_extent(
                answer.clients(),
                places.address(step.first_leaf_idx as int),
                step.dir,
            ) {
                Some(extent) => StepView::Going(
                    PixelRunView { stage: PixelStage::Second(extent), ..run },
                    only(AskView::Clients),
                ),
                None => pixels_from(run, places, run.at + 1),
            },
            PixelStage::Second(first) => match live_extent(
                answer.clients(),
                places.address(step.second_leaf_idx as int),
                step.dir,
            ) {
                Some(extent) => StepView::Going(
                    PixelRunView { stage: PixelStage::Target(first), ..run },
                    only(AskView::Target { ratio: step.ratio, total: (first + extent) as i64 }),
                ),
                None => pixels_from(run, places, run.at + 1),
            },
            PixelStage::Target(first) => match answer {
                Answer::Target(target) => {
                    let delta = target - first;
                    match places.address(step.first_leaf_idx as int) {
                        Some(address) => if off(delta) && run.last[run.at] != Some(delta as i64) {
                            StepView::Going(
                                PixelRunView {
                                    last: run.last.update(run.at, Some(delta as i64)),
                                    stage: PixelStage::Settle,
                                    ..run
                                },
                                TurnView {
                                    commands: seq![pixel_nudge(step.dir, delta, address)],
                                    ask: AskView::Pause(60),
                                },
                            )
                        } else {
                            pixels_from(run, places, run.at + 1)
                        },
                        None => pixels_from(run, places, run.at + 1),
                    }
                },
                _ => pixels_from(run, places, run.at + 1),
            },
            PixelStage::Settle => if run.pass <= run.candidates.len() {
                pixels_from(PixelRunView { pass: run.pass + 1, ..run }, places, 0)
            } else {
                StepView::Over
            },
        }
    }
}

fn extent_of(clients: &Vec<HyprClient>, address: Option<&String>, dir: SplitDir) -> (r: Option<i32>)
    ensures
        address matches Some(a) ==> r == live_extent(clients@, Some(a@), dir),
        address is None ==> r is None,
{
    match address {
        Some(a) => match HyprCtl::get_client_by_address(clients, a.as_str()) {
            Some(c) => match dir {
                SplitDir::Horizontal => Some(c.size.0),
                SplitDir::Vertical => Some(c.size.1),
            },
            None => None,
        },
        None => None,
    }
}

/// The live extent that an answer gives for a window.
fn answered_extent(answer: &Answer, address: Option<&String>, dir: SplitDir) -> (r: Option<i32>)
    ensures
        address matches Some(a) ==> r == live_extent(answer.clients(), Some(a@), dir),
        address is None ==> r is None,
{
    match answer {
        Answer::Clients(clients) => extent_of(clients, address, dir),
        _ => None,
    }
}

impl PixelRun {
    fn from(self, places: &Places, k: usize) -> (r: Step<PixelRun>)
        requires
            k <= self.candidates@.len(),
        ensures
            r@ == pixels_from(self@, places@, k as int),
    {
        let mut run = self;
        let mut j: usize = k;
        while j < run.candidates.len()
            invariant
                run == self,
                k <= j <= run.candidates@.len(),
                next_pixel(run.candidates@, places@, k as int) == next_pixel(
                    run.candidates@,
                    places@,
                    j as int,
                ),
            decreases run.candidates@.len() - j,
        {
            let step = run.candidates[j];
            if places.address(step.first_leaf_idx).is_some() && places.address(
                step.second_leaf_idx,
            ).is_some() {
                run.at = j;
                run.stage = PixelStage::First;
                return Step::Going(run, just(Ask::Clients));
            }
            j = j + 1;
        }
        Step::Over
    }

    /// Correct BSP split nodes that split ratios cannot reach: those
    /// whose two children are both internal sub-trees, so no single window
    /// is directly parented by the split. `resizewindowpixel` walks from the
    /// resized window up to the nearest ancestor split matching the resize
    /// axis, so resizing the leftmost leaf of one side by the delta needed to
    /// hit the split's saved ratio reaches exactly this split. Only the
    /// split's own axis is touched (the other delta is always 0) so this never
    /// also perturbs an orthogonal ancestor split.
    pub fn begin(steps: &Vec<PixelRatioStep>, places: &Places) -> (r: Step<PixelRun>)
        ensures
            r@ == pixels_begin(steps@, places@),
    {
        let mut candidates: Vec<PixelRatioStep> = Vec::new();
        let mut last: Vec<Option<i64>> = Vec::new();
        let ghost p = |s: PixelRatioStep|
            !places@.is_adopted(s.first_leaf_idx as int) && !places@.is_adopted(
                s.second_leaf_idx as int,
            );
        proof {
            reveal(Seq::filter);
        }
        for i in 0..steps.len()
            invariant
                p == (|s: PixelRatioStep|
                    !places@.is_adopted(s.first_leaf_idx as int) && !places@.is_adopted(
                        s.second_leaf_idx as int,
                    )),
                candidates@ == steps@.take(i as int).filter(p),
                last@ == Seq::new(candidates@.len(), |i: int| None::<i64>),
        {
            proof {
                reveal(Seq::filter);
                assert(steps@.take(i as int + 1).drop_last() =~= steps@.take(i as int));
                assert(steps@.take(i as int + 1).last() == steps@[i as int]);
            }
            let step = steps[i];
            if !places.is_adopted(step.first_leaf_idx) && !places.is_adopted(
                step.second_leaf_idx,
            ) {
                candidates.push(step);
                last.push(None);
                assert(last@ =~= Seq::new(candidates@.len(), |i: int| None::<i64>));
            }
        }
        assert(steps@.take(steps@.len() as int) =~= steps@);
        let run = PixelRun { candidates, last, pass: 0, at: 0, stage: PixelStage::First };
        assert(run.candidates@ == pixel_candidates(steps@, places@));
        run.from(places, 0)
    }

    pub fn next(self, places: &Places, answer: &Answer) -> (r: Step<PixelRun>)
        ensures
            r@ == pixel_next(self@, places@, *answer),
    {
        if self.at >= self.candidates.len() || self.at >= self.last.len() {
            return Step::Over;
        }
        let at: usize = self.at;
        let step = self.candidates[at];
        match self.stage {
            PixelStage::First => match answered_extent(
                answer,
                places.address(step.first_leaf_idx),
                step.dir,
            ) {
                Some(extent) => {
                    let mut run = self;
                    run.stage = PixelStage::Second(extent);
                    Step::Going(run, just(Ask::Clients))
                },
                None => self.from(places, at + 1),
            },
            PixelStage::Second(first) => match answered_extent(
                answer,
                places.address(step.second_leaf_idx),
                step.dir,
            ) {
                Some(extent) => {
                    let total: i64 = first as i64 + extent as i64;
                    let mut run = self;
                    run.stage = PixelStage::Target(first);
                    Step::Going(run, just(Ask::Target { ratio: step.ratio, total }))
                },
                None => self.from(places, at + 1),
            },
            PixelStage::Target(first) => match answer {
                Answer::Target(target) => {
                    let delta: i64 = *target as i64 - first as i64;
                    match places.address(step.first_leaf_idx) {
                        Some(address) => {
                            let stuck = match self.last[at] {
                                Some(before) => before == delta,
                                None => false,
                            };
                            if (delta > TOLERANCE || delta < -TOLERANCE) && !stuck {
                                let mut run = self;
                                run.last[at] = Some(delta);
                                run.stage = PixelStage::Settle;
                                let command = match step.dir {
                                    SplitDir::Horizontal => resize_by(delta, 0, address.as_str()),
                                    SplitDir::Vertical => resize_by(0, delta, address.as_str()),
                                };
                                Step::Going(run, sending(command, Ask::Pause(60)))
                            } else {
                                self.from(places, at + 1)
                            }
                        },
                        None => self.from(places, at + 1),
                    }
                },
                _ => self.from(places, at + 1),
            },
            PixelStage::Settle => {
                if self.pass <= self.candidates.len() as u128 {
                    let mut run = self;
                    run.pass = run.pass + 1;
                    run.from(places, 0)
                } else {
                    Step::Over
                }
            },
        }
    }
}

// ---------------------------------------------------------------------------
// Sizes of tiled windows.

#[derive(Debug, Clone, Copy, PartialEq, Eq, Structural)]
pub enum SizeStage {
    /// The live size of the window.
    Client,
    /// The layout settles after a resize.
    Settle,
}

/// Correcting the sizes of tiled windows, one resize in each pass.
#[derive(Debug)]
pub struct SizeRun {
    pub candidates: Vec<usize>,
    /// How far each candidate was off when it was last resized.
    pub last: Vec<Option<(i64, i64)>>,
    pub pass: u128,
    pub at: usize,
    pub stage: SizeStage,
}

#[verifier::ext_equal]
pub struct SizeRunView {
    pub candidates: Seq<usize>,
    pub last: Seq<Option<(i64, i64)>>,
    pub pass: int,
    pub at: int,
    pub stage: SizeStage,
}

impl View for SizeRun {
    type V = SizeRunView;

    open spec fn view(&self) -> SizeRunView {
        SizeRunView {
            candidates: self.candidates@,
            last: self.last@,
            pass: self.pass as int,
            at: self.at as int,
            stage: self.stage,
        }
    }
}

/// The windows below `n` that this restore opened, in order. Adopted windows
/// are skipped: they were already live, in whatever shape the current tree
/// gives them, so nudging them toward the saved size fights the tree's actual
/// layout instead of correcting anything.
pub open spec fn own_windows(places: PlacesView, n: nat) -> Seq<usize>
    decreases n,
{
    if n == 0 {
        seq![]
    } else {
        let rest = own_windows(places, (n - 1) as nat);
        if places.is_own(n - 1) {
            rest.push((n - 1) as usize)
        } else {
            rest
        }
    }
}

/// The saved size of a window.
pub open spec fn saved_size(windows: Seq<WindowEntry>, idx: int) -> Option<(i32, i32)> {
    if 0 <= idx < windows.len() {
        windows[idx].size
    } else {
        None
    }
}

/// The first candidate from `k` on that has a saved size.
pub open spec fn next_size(
    candidates: Seq<usize>,
    windows: Seq<WindowEntry>,
    k: int,
) -> Option<int>
    decreases candidates.len() - k,
{
    if k < 0 || k >= candidates.len() {
        None
    } else if saved_size(windows, candidates[k] as int) is Some {
        Some(k)
    } else {
        next_size(candidates, windows, k + 1)
    }
}

/// Go on with a pass from candidate `k` on. A pass that finds nothing to
/// resize is the last.
pub open spec fn sizes_from(run: SizeRunView, windows: Seq<WindowEntry>, k: int) -> StepView<
    SizeRunView,
> {
    match next_size(run.candidates, windows, k) {
        Some(j) => StepView::Going(
            SizeRunView { at: j, stage: SizeStage::Client, ..run },
            only(AskView::Clients),
        ),
        None => StepView::Over,
    }
}

pub open spec fn sizes_begin(windows: Seq<WindowEntry>, places: PlacesView) -> StepView<
    SizeRunView,
> {
    let candidates = own_windows(places, places.addresses.len());
    sizes_from(
        SizeRunView {
            candidates,
            last: Seq::new(candidates.len(), |i: int| None),
            pass: 0,
            at: 0,
            stage: SizeStage::Client,
        },
        windows,
        0,
    )
}

/// How far a live window is from its saved size.
pub open spec fn size_off(saved: (i32, i32), live: (i32, i32)) -> (i64, i64) {
    ((saved.0 - live.0) as i64, (saved.1 - live.1) as i64)
}

pub open spec fn size_next(
    run: SizeRunView,
    windows: Seq<WindowEntry>,
    places: PlacesView,
    answer: Answer,
) -> StepView<SizeRunView> {
    if run.at >= run.candidates.len() || run.at >= run.last.len() {
        StepView::Over
    } else {
        let idx = run.candidates[run.at] as int;
        match run.stage {
            SizeStage::Client => match (saved_size(windows, idx), places.address(idx)) {
                (Some(saved), Some(address)) => match client_from(answer.clients(), address, 0) {
                    Some(c) => {
                        let delta = size_off(saved, c.size);
                        if (off(delta.0 as int) || off(delta.1 as int)) && run.last[run.at] != Some(
                            delta,
                        ) {
                            StepView::Going(
                                SizeRunView {
                                    last: run.last.update(run.at, Some(delta)),
                                    stage: SizeStage::Settle,
                                    ..run
                                },
                                TurnView {
                                    commands: seq![
                                        CommandView::Dispatch(
                                            resize_args(saved.0 as int, saved.1 as int, address),
                                        ),
                                    ],
                                    ask: AskView::Pause(60),
                                },
                            )
                        } else {
                            sizes_from(run, windows, run.at + 1)
                        }
                    },
                    None => sizes_from(run, windows, run.at + 1),
                },
                _ => sizes_from(run, windows, run.at + 1),
            },
            SizeStage::Settle => if run.pass <= run.candidates.len() {
                sizes_from(SizeRunView { pass: run.pass + 1, ..run }, windows, 0)
            } else {
                StepView::Over
            },
        }
    }
}

fn size_of(windows: &Vec<WindowEntry>, idx: usize) -> (r: Option<(i32, i32)>)
    ensures
        r == saved_size(windows@, idx as int),
{
    if idx < windows.len() {
        windows[idx].size
    } else {
        None
    }
}

fn live_size(answer: &Answer, address: &str) -> (r: Option<(i32, i32)>)
    ensures
        r == match client_from(answer.clients(), address@, 0) {
            Some(c) => Some(c.size),
            None => None,
        },
{
    match answer {
        Answer::Clients(clients) => match HyprCtl::get_client_by_address(clients, address) {
            Some(c) => Some(c.size),
            None => None,
        },
        _ => None,
    }
}

impl SizeRun {
    fn from(self, windows: &Vec<WindowEntry>, k: usize) -> (r: Step<SizeRun>)
        requires
            k <= self.candidates@.len(),
        ensures
            r@ == sizes_from(self@, windows@, k as int),
    {
        let mut run = self;
        let mut j: usize = k;
        while j < run.candidates.len()
            invariant
                run == self,
                k <= j <= run.candidates@.len(),
                next_size(run.candidates@, windows@, k as int) == next_size(
                    run.candidates@,
                    windows@,
                    j as int,
                ),
            decreases run.candidates@.len() - j,
        {
            if size_of(windows, run.candidates[j]).is_some() {
                run.at = j;
                run.stage = SizeStage::Client;
                return Step::Going(run, just(Ask::Clients));
            }
            j = j + 1;
        }
        Step::Over
    }

    /// Resizes dispatch the saved *absolute* size (`resizewindowpixel exact`)
    /// rather than a delta computed from the current live size: it's always
    /// the same request regardless of how the live tree got perturbed in
    /// between.
    ///
    /// At most one window is resized per pass. `resizewindowpixel` walks up
    /// the BSP tree to the nearest ancestor split matching each axis, so
    /// correcting one window's width or height can silently correct a
    /// sibling sharing that same ancestor split too. Serializing to one
    /// resize per pass means a sibling whose mismatch was resolved as a side
    /// effect simply reads as already converged next pass, and only
    /// genuinely independent windows consume their own pass.
    pub fn begin(windows: &Vec<WindowEntry>, places: &Places) -> (r: Step<SizeRun>)
        ensures
            r@ == sizes_begin(windows@, places@),
    {
        let mut candidates: Vec<usize> = Vec::new();
        let mut last: Vec<Option<(i64, i64)>> = Vec::new();
        let n: usize = places.addresses.len();
        for i in 0..n
            invariant
                n == places@.addresses.len(),
                candidates@ == own_windows(places@, i as nat),
                last@ == Seq::new(candidates@.len(), |i: int| None::<(i64, i64)>),
        {
            if places.address(i).is_some() && !places.is_adopted(i) {
                candidates.push(i);
                last.push(None);
                assert(last@ =~= Seq::new(candidates@.len(), |i: int| None::<(i64, i64)>));
            }
        }
        let run = SizeRun { candidates, last, pass: 0, at: 0, stage: SizeStage::Client };
        run.from(windows, 0)
    }

    pub fn next(self, windows: &Vec<WindowEntry>, places: &Places, answer: &Answer) -> (r: Step<
        SizeRun,
    >)
        ensures
            r@ == size_next(self@, windows@, places@, *answer),
    {
        if self.at >= self.candidates.len() || self.at >= self.last.len() {
            return Step::Over;
        }
        let at: usize = self.at;
        let idx: usize = self.candidates[at];
        match self.stage {
            SizeStage::Client => match (size_of(windows, idx), places.address(idx)) {
                (Some((saved_w, saved_h)), Some(address)) => match live_size(
                    answer,
                    address.as_str(),
                ) {
                    Some((live_w, live_h)) => {
                        let dw: i64 = saved_w as i64 - live_w as i64;
                        let dh: i64 = saved_h as i64 - live_h as i64;
                        let stuck = match self.last[at] {
                            Some((bw, bh)) => bw == dw && bh == dh,
                            None => false,
                        };
                        if (dw > TOLERANCE || dw < -TOLERANCE || dh > TOLERANCE || dh
                            < -TOLERANCE) && !stuck {
                            let mut run = self;
                            run.last[at] = Some((dw, dh));
                            run.stage = SizeStage::Settle;
                            Step::Going(
                                run,
                                sending(
                                    resize_exact(saved_w, saved_h, address.as_str()),
                                    Ask::Pause(60),
                                ),
                            )
                        } else {
                            self.from(windows, at + 1)
                        }
                    },
                    None => self.from(windows, at + 1),
                },
                _ => self.from(windows, at + 1),
            },
            SizeStage::Settle => {
                if self.pass <= self.candidates.len() as u128 {
                    let mut run = self;
                    run.pass = run.pass + 1;
                    run.from(windows, 0)
                } else {
                    Step::Over
                }
            },
        }
    }
}

// ---------------------------------------------------------------------------
// Fullscreen.

/// Making windows fullscreen, one after the other.
#[derive(Debug, Clone, Copy)]
pub struct FullscreenRun {
    pub at: usize,
}

impl View for FullscreenRun {
    type V = FullscreenRun;

    open spec fn view(&self) -> FullscreenRun {
        *self
    }
}

/// The window was fullscreen, and this restore opened it. `fullscreen` is a
/// toggle, not a set: an adopted window that is fullscreen already would be
/// un-fullscreened by it.
pub open spec fn wants_fullscreen(
    windows: Seq<WindowEntry>,
    places: PlacesView,
    idx: int,
) -> bool {
    0 <= idx < windows.len() && windows[idx].fullscreen && places.is_own(idx)
}

/// Go on with the windows from `k` on.
pub open spec fn fullscreen_from(
    windows: Seq<WindowEntry>,
    places: PlacesView,
    k: int,
) -> StepView<FullscreenRun>
    decreases windows.len() - k,
{
    if k < 0 || k >= windows.len() {
        StepView::Over
    } else if wants_fullscreen(windows, places, k) {
        StepView::Going(
            FullscreenRun { at: k as usize },
            only(AskView::Send(CommandView::Dispatch(fullscreen_args(places.address(k)->0)))),
        )
    } else {
        fullscreen_from(windows, places, k + 1)
    }
}

pub open spec fn fullscreen_next(
    windows: Seq<WindowEntry>,
    places: PlacesView,
    run: FullscreenRun,
    answer: Answer,
) -> StepView<FullscreenRun> {
    match answer.failure() {
        Some(message) => StepView::Abort(message),
        None => fullscreen_from(windows, places, run.at + 1),
    }
}

impl FullscreenRun {
    fn from(windows: &Vec<WindowEntry>, places: &Places, k: usize) -> (r: Step<FullscreenRun>)
        ensures
            r@ == fullscreen_from(windows@, places@, k as int),
    {
        let mut i: usize = k;
        while i < windows.len()
            invariant
                fullscreen_from(windows@, places@, k as int) == fullscreen_from(
                    windows@,
                    places@,
                    i as int,
                ),
            decreases windows@.len() - i,
        {
            if windows[i].fullscreen && !places.is_adopted(i) {
                match places.address(i) {
                    Some(address) => {
                        return Step::Going(
                            FullscreenRun { at: i },
                            just(Ask::Send(fullscreen(address.as_str()))),
                        );
                    },
                    None => {},
                }
            }
            i = i + 1;
        }
        Step::Over
    }

    pub fn begin(windows: &Vec<WindowEntry>, places: &Places) -> (r: Step<FullscreenRun>)
        ensures
            r@ == fullscreen_from(windows@, places@, 0),
    {
        Self::from(windows, places, 0)
    }

    pub fn next(self, windows: &Vec<WindowEntry>, places: &Places, answer: &Answer) -> (r: Step<
        FullscreenRun,
    >)
        ensures
            r@ == fullscreen_next(windows@, places@, self, *answer),
    {
        match answer {
            Answer::Failed(message) => Step::Abort(message.clone()),
            _ => {
                if self.at < windows.len() {
                    Self::from(windows, places, self.at + 1)
                } else {
                    Step::Over
                }
            },
        }
    }
}

} // verus!
