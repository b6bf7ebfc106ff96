//! What the corrections after a restore come to.
use super::command::CommandView;
use super::converge::{
    fullscreen_from, fullscreen_next, next_pixel, next_ratio, next_size, own_windows,
    pixel_candidates, pixel_next, pixels_begin, pixels_from, ratio_next, ratios_from, size_next,
    sizes_begin, sizes_from, FullscreenRun, PixelRunView, PixelStage, PlacesView, RatioRun,
    RatioStage, SizeRunView, StepView,
};
use super::turn::{Answer, AskView, TurnView};
use crate::ipc::client::client_from;
use crate::layout::dwindle::{PixelRatioStep, SplitDir, SplitRatioStep};
use crate::models::{HyprClient, WindowEntry};
use crate::text::{decimal, trimmed, without_leading};
use vstd::prelude::*;

verus! {

/// The window is open at the address, and this restore opened it.
pub open spec fn is_own_at(places: PlacesView, idx: int, address: Seq<char>) -> bool {
    &&& 0 <= idx < places.addresses.len()
    &&& places.addresses[idx] == Some(address)
    &&& !(idx < places.adopted.len() && places.adopted[idx])
}

/// This restore opened the window.
pub open spec fn is_some_own(places: PlacesView, idx: int) -> bool {
    &&& 0 <= idx < places.addresses.len()
    &&& places.addresses[idx] is Some
    &&& !(idx < places.adopted.len() && places.adopted[idx])
}

proof fn lemma_own(places: PlacesView, idx: int)
    ensures
        places.is_own(idx) <==> is_some_own(places, idx),
{
}

proof fn lemma_next_ratio_is_first(steps: Seq<SplitRatioStep>, places: PlacesView, k: int)
    requires
        0 <= k,
    ensures
        match next_ratio(steps, places, k) {
            Some(j) => k <= j < steps.len() && is_some_own(
                places,
                steps[j].focus_window_idx as int,
            ) && forall|i: int|
                k <= i < j ==> !is_some_own(places, (#[trigger] steps[i]).focus_window_idx as int),
            None => forall|i: int|
                k <= i < steps.len() ==> !is_some_own(
                    places,
                    (#[trigger] steps[i]).focus_window_idx as int,
                ),
        },
    decreases steps.len() - k,
{
    if k < steps.len() {
        lemma_own(places, steps[k].focus_window_idx as int);
        if !places.is_own(steps[k].focus_window_idx as int) {
            lemma_next_ratio_is_first(steps, places, k + 1);
        }
    }
}

/// Split ratios are set in order, for every step whose window this restore
/// opened: the window is focused, then its split gets the ratio of the step. Once
/// some ratio was set, the layout is given time at the end.
pub proof fn law_every_own_ratio_is_set(
    steps: Seq<SplitRatioStep>,
    places: PlacesView,
    k: int,
    applied: bool,
)
    requires
        0 <= k,
        steps.len() <= usize::MAX,
    ensures
        match ratios_from(steps, places, k, applied) {
            StepView::Going(run, turn) => {
                &&& k <= run.at || run.at == steps.len()
                &&& forall|i: int|
                    k <= i < run.at && i < steps.len() ==> !is_some_own(
                        places,
                        (#[trigger] steps[i]).focus_window_idx as int,
                    )
                &&& run.applied == applied
                &&& if run.at < steps.len() {
                    let idx = steps[run.at as int].focus_window_idx as int;
                    &&& run.stage is Focus
                    &&& is_some_own(places, idx)
                    &&& turn == (TurnView {
                        commands: seq![],
                        ask: AskView::Send(
                            CommandView::Dispatch(
                                "focuswindow address:0x"@ + places.addresses[idx]->0,
                            ),
                        ),
                    })
                } else {
                    &&& applied
                    &&& turn == (TurnView { commands: seq![], ask: AskView::Pause(30) })
                }
            },
            StepView::Over => !applied && forall|i: int|
                k <= i < steps.len() ==> !is_some_own(
                    places,
                    (#[trigger] steps[i]).focus_window_idx as int,
                ),
            StepView::Abort(_) => false,
        },
{
    lemma_next_ratio_is_first(steps, places, k);
}

/// A window that got the focus has its split set to the ratio of its step; one
/// that could not get it is passed over. Only a ratio that went through counts.
pub proof fn law_focused_window_gets_its_ratio(
    steps: Seq<SplitRatioStep>,
    places: PlacesView,
    run: RatioRun,
    answer: Answer,
)
    requires
        run.at < steps.len(),
    ensures
        run.stage is Focus && !(answer is Failed) ==> ratio_next(steps, places, run, answer)
            == StepView::Going(
            RatioRun { at: run.at, stage: RatioStage::Ratio, applied: run.applied },
            TurnView {
                commands: seq![],
                ask: AskView::Send(CommandView::SplitRatio(steps[run.at as int].ratio)),
            },
        ),
        run.stage is Focus && answer is Failed ==> ratio_next(steps, places, run, answer)
            == ratios_from(steps, places, run.at + 1, run.applied),
        run.stage is Ratio ==> ratio_next(steps, places, run, answer) == ratios_from(
            steps,
            places,
            run.at + 1,
            run.applied || (answer matches Answer::Sent(response) && trimmed(response@) == "ok"@),
        ),
{
}

/// The client is the first of those with the address, whether written with `0x`
/// or without.
pub open spec fn is_client_at(clients: Seq<HyprClient>, address: Seq<char>, c: HyprClient) -> bool {
    exists|i: int|
        0 <= i < clients.len() && (#[trigger] clients[i]) == c && without_leading(
            c.address@,
            "0x"@,
        ) == without_leading(address, "0x"@) && forall|j: int|
            0 <= j < i ==> without_leading((#[trigger] clients[j]).address@, "0x"@)
                != without_leading(address, "0x"@)
}

/// A client is found by its address, the first of several, and only if there is
/// one.
pub proof fn law_client_is_found_by_address(clients: Seq<HyprClient>, address: Seq<char>)
    ensures
        match client_from(clients, address, 0) {
            Some(c) => is_client_at(clients, address, c),
            None => forall|j: int|
                0 <= j < clients.len() ==> without_leading((#[trigger] clients[j]).address@, "0x"@)
                    != without_leading(address, "0x"@),
        },
{
    lemma_client_from(clients, address, 0);
}

proof fn lemma_client_from(clients: Seq<HyprClient>, address: Seq<char>, k: int)
    requires
        0 <= k <= clients.len(),
        forall|j: int|
            0 <= j < k ==> without_leading((#[trigger] clients[j]).address@, "0x"@)
                != without_leading(address, "0x"@),
    ensures
        match client_from(clients, address, k) {
            Some(c) => is_client_at(clients, address, c),
            None => forall|j: int|
                0 <= j < clients.len() ==> without_leading((#[trigger] clients[j]).address@, "0x"@)
                    != without_leading(address, "0x"@),
        },
    decreases clients.len() - k,
{
    if k < clients.len() {
        if without_leading(clients[k].address@, "0x"@) == without_leading(address, "0x"@) {
            assert(is_client_at(clients, address, clients[k]));
        } else {
            lemma_client_from(clients, address, k + 1);
        }
    }
}

/// The side of the client along a split.
pub open spec fn side(c: HyprClient, dir: SplitDir) -> i32 {
    match dir {
        SplitDir::Horizontal => c.size.0,
        SplitDir::Vertical => c.size.1,
    }
}

/// A split that no window reaches is measured on both sides, along its own axis,
/// and its share of their sum is what the near side should have.
pub proof fn law_split_is_measured(run: PixelRunView, places: PlacesView, answer: Answer)
    requires
        0 <= run.at < run.candidates.len(),
        run.last.len() == run.candidates.len(),
    ensures
        ({
            let step = run.candidates[run.at];
            let (f, s) = (step.first_leaf_idx as int, step.second_leaf_idx as int);
            &&& run.stage is First && f < places.addresses.len() && places.addresses[f] is Some ==> (
            match client_from(answer.clients(), places.addresses[f]->0, 0) {
                Some(c) => pixel_next(run, places, answer) == StepView::Going(
                    PixelRunView { stage: PixelStage::Second(side(c, step.dir)), ..run },
                    TurnView { commands: seq![], ask: AskView::Clients },
                ),
                None => pixel_next(run, places, answer) == pixels_from(run, places, run.at + 1),
            })
            &&& run.stage matches PixelStage::Second(near) ==> s < places.addresses.len()
                && places.addresses[s] is Some ==> (match client_from(
                answer.clients(),
                places.addresses[s]->0,
                0,
            ) {
                Some(c) => pixel_next(run, places, answer) == StepView::Going(
                    PixelRunView { stage: PixelStage::Target(near), ..run },
                    TurnView {
                        commands: seq![],
                        ask: AskView::Target {
                            ratio: step.ratio,
                            total: (near + side(c, step.dir)) as i64,
                        },
                    },
                ),
                None => pixel_next(run, places, answer) == pixels_from(run, places, run.at + 1),
            })
        }),
{
}

/// A split that is off by more than six pixels is moved by what is missing on
/// its near side, along its own axis only, through the first window of that
/// side, unless it was off by as much the last time; one that is not is left
/// alone.
pub proof fn law_split_is_moved_to_its_share(
    run: PixelRunView,
    places: PlacesView,
    near: i32,
    target: i32,
    address: Seq<char>,
)
    requires
        0 <= run.at < run.candidates.len(),
        run.last.len() == run.candidates.len(),
        run.stage == PixelStage::Target(near),
        run.candidates[run.at].first_leaf_idx < places.addresses.len(),
        places.addresses[run.candidates[run.at].first_leaf_idx as int] == Some(address),
    ensures
        ({
            let missing = target - near;
            let after = pixel_next(run, places, Answer::Target(target));
            if (missing > 6 || missing < -6)
                && run.last[run.at] != Some(missing as i64) {
                &&& after matches StepView::Going(next, turn)
                &&& next.stage is Settle
                &&& next.at == run.at
                &&& next.last == run.last.update(run.at, Some(missing as i64))
                &&& turn == (TurnView {
                    commands: seq![
                        CommandView::Dispatch(
                            "resizewindowpixel "@ + (match run.candidates[run.at].dir {
                                SplitDir::Horizontal => decimal(missing) + " "@ + decimal(0),
                                SplitDir::Vertical => decimal(0) + " "@ + decimal(missing),
                            }) + ",address:0x"@ + address,
                        ),
                    ],
                    ask: AskView::Pause(60),
                })
            } else {
                after == pixels_from(run, places, run.at + 1)
            }
        }),
{
    let missing = target - near;
    let head = "resizewindowpixel "@;
    let tail = ",address:0x"@ + address;
    assert(head + decimal(missing) + " "@ + decimal(0) + ",address:0x"@ + address =~= head + (
    decimal(missing) + " "@ + decimal(0)) + ",address:0x"@ + address);
    assert(head + decimal(0) + " "@ + decimal(missing) + ",address:0x"@ + address =~= head + (
    decimal(0) + " "@ + decimal(missing)) + ",address:0x"@ + address);
}

proof fn lemma_next_pixel_is_first(candidates: Seq<PixelRatioStep>, places: PlacesView, k: int)
    requires
        0 <= k,
    ensures
        match next_pixel(candidates, places, k) {
            Some(j) => k <= j < candidates.len() && both_open(places, candidates[j]) && forall|
                i: int,
            |
                k <= i < j ==> !both_open(places, #[trigger] candidates[i]),
            None => forall|i: int|
                k <= i < candidates.len() ==> !both_open(places, #[trigger] candidates[i]),
        },
    decreases candidates.len() - k,
{
    if k < candidates.len() && !both_open(places, candidates[k]) {
        lemma_next_pixel_is_first(candidates, places, k + 1);
    }
}

/// The first windows of both sides of the split are open.
pub open spec fn both_open(places: PlacesView, step: PixelRatioStep) -> bool {
    &&& step.first_leaf_idx < places.addresses.len()
    &&& places.addresses[step.first_leaf_idx as int] is Some
    &&& step.second_leaf_idx < places.addresses.len()
    &&& places.addresses[step.second_leaf_idx as int] is Some
}

/// The window was adopted.
pub open spec fn was_adopted(places: PlacesView, idx: int) -> bool {
    0 <= idx < places.adopted.len() && places.adopted[idx]
}

/// Every split without an adopted window at its sides' beginnings is gone
/// through in order, as long as both of these windows are open; a pass starts
/// over until nothing is left to move.
pub proof fn law_every_split_is_gone_through(
    steps: Seq<PixelRatioStep>,
    places: PlacesView,
    run: PixelRunView,
    k: int,
    s: PixelRatioStep,
)
    requires
        0 <= k,
    ensures
        pixel_candidates(steps, places).contains(s) <==> steps.contains(s) && !was_adopted(
            places,
            s.first_leaf_idx as int,
        ) && !was_adopted(places, s.second_leaf_idx as int),
        match pixels_from(run, places, k) {
            StepView::Going(next, turn) => {
                &&& k <= next.at < run.candidates.len()
                &&& both_open(places, run.candidates[next.at])
                &&& forall|i: int|
                    k <= i < next.at ==> !both_open(places, #[trigger] run.candidates[i])
                &&& next.stage is First
                &&& next.candidates == run.candidates
                &&& next.last == run.last
                &&& next.pass == run.pass
                &&& turn == (TurnView { commands: seq![], ask: AskView::Clients })
            },
            StepView::Over => forall|i: int|
                k <= i < run.candidates.len() ==> !both_open(places, #[trigger] run.candidates[i]),
            StepView::Abort(_) => false,
        },
{
    lemma_next_pixel_is_first(run.candidates, places, k);
    let p = |t: PixelRatioStep|
        !places.is_adopted(t.first_leaf_idx as int) && !places.is_adopted(t.second_leaf_idx as int);
    if steps.contains(s) && p(s) {
        let i = choose|i: int| 0 <= i < steps.len() && steps[i] == s;
        steps.lemma_filter_contains(p, i);
    }
    if steps.filter(p).contains(s) {
        let i = choose|i: int| 0 <= i < steps.filter(p).len() && steps.filter(p)[i] == s;
        steps.lemma_filter_pred(p, i);
        steps.lemma_filter_contains_rev(p, s);
    }
}

/// Every window that this restore opened is a candidate for the size correction,
/// and no other.
pub proof fn law_own_windows_are_corrected(places: PlacesView, n: nat, idx: usize)
    requires
        n <= places.addresses.len(),
        n <= usize::MAX,
    ensures
        own_windows(places, n).contains(idx) <==> idx < n && is_some_own(places, idx as int),
    decreases n,
{
    if n > 0 {
        let m = (n - 1) as nat;
        law_own_windows_are_corrected(places, m, idx);
        let rest = own_windows(places, m);
        let all = own_windows(places, n);
        lemma_own(places, m as int);
        if rest.contains(idx) {
            let i = choose|i: int| 0 <= i < rest.len() && rest[i] == idx;
            assert(all[i] == idx);
        }
        if idx == m && places.is_own(m as int) {
            assert(all[rest.len() as int] == idx);
        }
        if all.contains(idx) {
            let i = choose|i: int| 0 <= i < all.len() && all[i] == idx;
            if i < rest.len() {
                assert(rest[i] == idx);
            }
        }
    }
}

proof fn lemma_next_size_is_first(candidates: Seq<usize>, windows: Seq<WindowEntry>, k: int)
    requires
        0 <= k,
    ensures
        match next_size(candidates, windows, k) {
            Some(j) => k <= j < candidates.len() && has_saved_size(windows, candidates[j] as int)
                && forall|i: int|
                k <= i < j ==> !has_saved_size(windows, #[trigger] candidates[i] as int),
            None => forall|i: int|
                k <= i < candidates.len() ==> !has_saved_size(
                    windows,
                    #[trigger] candidates[i] as int,
                ),
        },
    decreases candidates.len() - k,
{
    if k < candidates.len() && !has_saved_size(windows, candidates[k] as int) {
        lemma_next_size_is_first(candidates, windows, k + 1);
    }
}

pub open spec fn has_saved_size(windows: Seq<WindowEntry>, idx: int) -> bool {
    0 <= idx < windows.len() && windows[idx].size is Some
}

/// A window whose live size is off by more than six pixels in either direction
/// is asked to take its saved size, unless it was off by as much the last time;
/// one that is not is left alone.
pub proof fn law_wrong_sizes_are_corrected(
    run: SizeRunView,
    windows: Seq<WindowEntry>,
    places: PlacesView,
    answer: Answer,
    c: HyprClient,
    address: Seq<char>,
)
    requires
        0 <= run.at < run.candidates.len(),
        run.last.len() == run.candidates.len(),
        run.stage is Client,
        has_saved_size(windows, run.candidates[run.at] as int),
        run.candidates[run.at] < places.addresses.len(),
        places.addresses[run.candidates[run.at] as int] == Some(address),
        client_from(answer.clients(), address, 0) == Some(c),
    ensures
        ({
            let saved = windows[run.candidates[run.at] as int].size->0;
            let (dx, dy) = (saved.0 - c.size.0, saved.1 - c.size.1);
            let is_off = dx > 6 || dx < -6 || dy > 6 || dy < -6;
            let after = size_next(run, windows, places, answer);
            if is_off && run.last[run.at] != Some((dx as i64, dy as i64)) {
                &&& after matches StepView::Going(next, turn)
                &&& next.stage is Settle
                &&& next.last == run.last.update(run.at, Some((dx as i64, dy as i64)))
                &&& turn == (TurnView {
                    commands: seq![
                        CommandView::Dispatch(
                            "resizewindowpixel exact "@ + decimal(saved.0 as int) + " "@ + decimal(
                                saved.1 as int,
                            ) + ",address:0x"@ + address,
                        ),
                    ],
                    ask: AskView::Pause(60),
                })
            } else {
                after == sizes_from(run, windows, run.at + 1)
            }
        }),
{
}

/// Every candidate with a saved size is gone through, in order.
pub proof fn law_every_size_is_gone_through(run: SizeRunView, windows: Seq<WindowEntry>, k: int)
    requires
        0 <= k,
    ensures
        match sizes_from(run, windows, k) {
            StepView::Going(next, turn) => {
                &&& k <= next.at < run.candidates.len()
                &&& has_saved_size(windows, run.candidates[next.at] as int)
                &&& forall|i: int|
                    k <= i < next.at ==> !has_saved_size(
                        windows,
                        #[trigger] run.candidates[i] as int,
                    )
                &&& next.stage is Client
                &&& next.candidates == run.candidates
                &&& next.last == run.last
                &&& turn == (TurnView { commands: seq![], ask: AskView::Clients })
            },
            StepView::Over => forall|i: int|
                k <= i < run.candidates.len() ==> !has_saved_size(
                    windows,
                    #[trigger] run.candidates[i] as int,
                ),
            StepView::Abort(_) => false,
        },
{
    lemma_next_size_is_first(run.candidates, windows, k);
}

/// Corrections begin with nothing remembered, at the first candidate, and start
/// over after each request.
pub proof fn law_corrections_start_over(
    windows: Seq<WindowEntry>,
    places: PlacesView,
    steps: Seq<PixelRatioStep>,
    sizes: SizeRunView,
    pixels: PixelRunView,
    answer: Answer,
)
    ensures
        sizes_begin(windows, places) matches StepView::Going(run, _) ==> run.pass == 0
            && run.candidates == own_windows(places, places.addresses.len()) && forall|i: int|
            0 <= i < run.last.len() ==> (#[trigger] run.last[i]) is None,
        pixels_begin(steps, places) matches StepView::Going(run, _) ==> run.pass == 0
            && run.candidates == pixel_candidates(steps, places) && forall|i: int|
            0 <= i < run.last.len() ==> (#[trigger] run.last[i]) is None,
        sizes.stage is Settle && 0 <= sizes.at < sizes.candidates.len() && sizes.last.len()
            == sizes.candidates.len() && sizes.pass <= sizes.candidates.len() ==> size_next(
            sizes,
            windows,
            places,
            answer,
        ) == sizes_from(SizeRunView { pass: sizes.pass + 1, ..sizes }, windows, 0),
        pixels.stage is Settle && 0 <= pixels.at < pixels.candidates.len() && pixels.last.len()
            == pixels.candidates.len() && pixels.pass <= pixels.candidates.len() ==> pixel_next(
            pixels,
            places,
            answer,
        ) == pixels_from(PixelRunView { pass: pixels.pass + 1, ..pixels }, places, 0),
{
}

/// Every window that was fullscreen and that this restore opened is made
/// fullscreen again, in order; a request that is refused ends the restore.
pub proof fn law_every_fullscreen_window_is_made_so(
    windows: Seq<WindowEntry>,
    places: PlacesView,
    k: int,
)
    requires
        0 <= k,
        windows.len() <= usize::MAX,
    ensures
        match fullscreen_from(windows, places, k) {
            StepView::Going(run, turn) => {
                &&& k <= run.at < windows.len()
                &&& windows[run.at as int].fullscreen
                &&& is_some_own(places, run.at as int)
                &&& forall|i: int|
                    k <= i < run.at ==> !((#[trigger] windows[i]).fullscreen && is_some_own(
                        places,
                        i,
                    ))
                &&& turn == (TurnView {
                    commands: seq![],
                    ask: AskView::Send(
                        CommandView::Dispatch(
                            "fullscreen 0,address:0x"@ + places.addresses[run.at as int]->0,
                        ),
                    ),
                })
            },
            StepView::Over => forall|i: int|
                k <= i < windows.len() ==> !((#[trigger] windows[i]).fullscreen && is_some_own(
                    places,
                    i,
                )),
            StepView::Abort(_) => false,
        },
    decreases windows.len() - k,
{
    if k < windows.len() {
        lemma_own(places, k);
        if !(windows[k].fullscreen && places.is_own(k)) {
            law_every_fullscreen_window_is_made_so(windows, places, k + 1);
        }
    }
}

/// A fullscreen request that is refused ends the restore with its message; else
/// the next window follows.
pub proof fn law_refused_fullscreen_ends_the_restore(
    windows: Seq<WindowEntry>,
    places: PlacesView,
    run: FullscreenRun,
    answer: Answer,
)
    ensures
        fullscreen_next(windows, places, run, answer) == match answer {
            Answer::Failed(message) => StepView::Abort(message@),
            _ => fullscreen_from(windows, places, run.at + 1),
        },
{
}

} // verus!
