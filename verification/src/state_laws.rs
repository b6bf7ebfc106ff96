//! What tracking, settings and reports come to.
use crate::cli::{level_of, pid_from, row, summary, time_or_unknown};
use crate::config::{
    completed, expanded, general_defaults, loaded, override_map, path_below, sessions_below,
    RawConfig, RawGeneral,
};
use crate::daemon::{
    event_handled, opened_window, prepared, woken, EventAction, EventActionView, Occasion, Signal,
    Step, StepView, Trigger, TriggerView,
};
use crate::ipc::client::{
    instance_dir, is_switched_on, monitor_names, sockets_in, str_value, str_value_from,
};
use crate::ipc::event_listener::{event_in, event_of, opened_as};
use crate::models::{
    DesktopEntry, HyprClient, HyprEvent, HyprEventView, HyprMonitor, TrackedWindowView,
};
use crate::paths::{base_name, joined_path};
use crate::patterns::{compiles, matches_somewhere};
use crate::snapshot::{cwd_at, session_file, temporary_file, NameError, LAST_SESSION};
use crate::state::{normalized, usable, StateView};
use crate::text::{
    cut_first, decimal, is_word, lacks, lemma_cut_after, lemma_word_before,
    lemma_words_after_space, lemma_words_of_word, lowercase, occurs, text_lines, texts, trimmed, words,
};
use crate::text_laws::{
    is_line, law_affixes_come_off, law_lines_are_read_back, law_marks_come_off,
};
use vstd::prelude::*;

verus! {

/// A class is tracked if it has a name, no pattern excludes it, and, where only
/// some classes are wanted, a pattern wants it.
pub proof fn law_rules_decide_what_is_tracked(s: StateView, class: Seq<char>)
    ensures
        class.len() == 0 ==> !s.tracks(class),
        (exists|i: int|
            0 <= i < s.exclude.len() && compiles(#[trigger] s.exclude[i]) && matches_somewhere(
                s.exclude[i],
                class,
            )) ==> !s.tracks(class),
        s.include_only.len() > 0 && (forall|i: int|
            0 <= i < s.include_only.len() ==> !(compiles(#[trigger] s.include_only[i])
                && matches_somewhere(s.include_only[i], class))) ==> !s.tracks(class),
        class.len() > 0 && (forall|i: int|
            0 <= i < s.exclude.len() ==> !(compiles(#[trigger] s.exclude[i]) && matches_somewhere(
                s.exclude[i],
                class,
            ))) && (s.include_only.len() == 0 || exists|i: int|
            0 <= i < s.include_only.len() && compiles(#[trigger] s.include_only[i])
                && matches_somewhere(s.include_only[i], class)) ==> s.tracks(class),
{
    assert(s.tracks(class) ==> class.len() > 0);
}

/// Exactly the patterns that can be compiled are used.
pub proof fn law_usable_patterns(patterns: Seq<Seq<char>>, p: Seq<char>)
    ensures
        usable(patterns).contains(p) <==> patterns.contains(p) && compiles(p),
{
    let f = |q: Seq<char>| compiles(q);
    if patterns.contains(p) && compiles(p) {
        let i = choose|i: int| 0 <= i < patterns.len() && patterns[i] == p;
        patterns.lemma_filter_contains(f, i);
    }
    if usable(patterns).contains(p) {
        let i = choose|i: int| 0 <= i < usable(patterns).len() && usable(patterns)[i] == p;
        patterns.lemma_filter_pred(f, i);
        patterns.lemma_filter_contains_rev(f, p);
    }
}

/// Adding or removing a window leaves every other one as it is.
pub proof fn law_other_windows_stay(
    s: StateView,
    w: TrackedWindowView,
    address: Seq<char>,
    other: Seq<char>,
)
    requires
        normalized(other) != normalized(w.address),
        normalized(other) != normalized(address),
    ensures
        s.with(w).window(other) == s.window(other),
        s.without(address).window(other) == s.window(other),
        s.with(w).exclude == s.exclude,
        s.with(w).include_only == s.include_only,
        s.without(address).exclude == s.exclude,
        s.without(address).include_only == s.include_only,
{
}

/// The same window but for its workspace.
pub open spec fn differ_in_workspace(a: TrackedWindowView, b: TrackedWindowView) -> bool {
    &&& a.address == b.address && a.app_id == b.app_id && a.launch_cmd == b.launch_cmd
    &&& a.monitor == b.monitor && a.position == b.position && a.size == b.size
    &&& a.floating == b.floating && a.fullscreen == b.fullscreen
    &&& a.pid == b.pid && a.profile == b.profile
}

/// The same window but for whether it floats.
pub open spec fn differ_in_floating(a: TrackedWindowView, b: TrackedWindowView) -> bool {
    &&& a.address == b.address && a.app_id == b.app_id && a.launch_cmd == b.launch_cmd
    &&& a.monitor == b.monitor && a.position == b.position && a.size == b.size
    &&& a.workspace == b.workspace && a.fullscreen == b.fullscreen
    &&& a.pid == b.pid && a.profile == b.profile
}

/// What an event reports of a window is what is known of it afterwards, and
/// nothing else about it changes: a window that moves is on its new workspace, one
/// that changes its mode floats or does not, and one that closes is gone. A window
/// that opens is looked up if its class is tracked, under what the event says.
pub proof fn law_events_take_effect(
    s: StateView,
    address: Seq<char>,
    workspace: Seq<char>,
    class: Seq<char>,
    floating: bool,
)
    ensures
        ({
            let (t, action) = event_handled(s, HyprEventView::MoveWindow { address, workspace });
            &&& action is Nothing
            &&& match s.window(address) {
                Some(w) => t.window(address) matches Some(x) && x.workspace == workspace
                    && differ_in_workspace(x, w),
                None => t == s,
            }
        }),
        ({
            let (t, action) = event_handled(
                s,
                HyprEventView::ChangeFloatingMode { address, floating },
            );
            &&& action is Nothing
            &&& match s.window(address) {
                Some(w) => t.window(address) matches Some(x) && x.floating == floating
                    && differ_in_floating(x, w),
                None => t == s,
            }
        }),
        ({
            let (t, action) = event_handled(s, HyprEventView::CloseWindow { address });
            action is Nothing && t.window(address) is None
        }),
        event_handled(s, HyprEventView::OpenWindow { address, workspace, class }) == (
            s,
            if s.tracks(class) {
                EventActionView::Inspect { address, workspace, class }
            } else {
                EventActionView::Nothing
            },
        ),
        forall|state: bool| #[trigger]
            event_handled(s, HyprEventView::Fullscreen { state }) == (s, EventActionView::Nothing),
        event_handled(s, HyprEventView::Unknown(address)) == (s, EventActionView::Nothing),
{
}

/// A window that opened is tracked as the event and the look-up describe it. One
/// that could not be looked up has no process and no geometry.
pub proof fn law_opened_window_is_described(
    address: Seq<char>,
    workspace: Seq<char>,
    class: Seq<char>,
    client: Option<HyprClient>,
    launch_cmd: Option<Seq<char>>,
    profile: Option<Seq<char>>,
)
    ensures
        ({
            let w = opened_window(address, workspace, class, client, launch_cmd, profile);
            &&& w.address == address
            &&& w.workspace == workspace
            &&& w.app_id == class
            &&& w.profile == profile
            &&& w.monitor.len() == 0
            &&& match launch_cmd {
                Some(cmd) => w.launch_cmd == cmd,
                None => w.launch_cmd.len() == 0,
            }
            &&& match client {
                Some(c) => w.pid == c.pid && w.position == c.at && w.size == c.size && w.floating
                    == c.floating && (w.fullscreen <==> c.fullscreen_mode > 0),
                None => w.pid == -1 && w.position == (0i32, 0i32) && w.size == (0i32, 0i32)
                    && !w.floating && !w.fullscreen,
            }
        }),
{
}

/// The window that was found live is the one that its own event would describe.
pub proof fn law_live_window_is_described(
    c: HyprClient,
    launch_cmd: Option<Seq<char>>,
    profile: Option<Seq<char>>,
)
    ensures
        ({
            let w = crate::daemon::client_window(c, launch_cmd, profile);
            &&& w.address == c.address@
            &&& w.workspace == c.workspace.name@
            &&& w.app_id == c.class@
            &&& w.position == c.at
            &&& w.size == c.size
            &&& w.pid == c.pid
            &&& w.floating == c.floating
            &&& w.fullscreen == (c.fullscreen_mode > 0)
            &&& w.profile == profile
            &&& launch_cmd matches Some(cmd) ==> w.launch_cmd == cmd
        }),
{
}

/// The timer saves periodically, the user's signal at once, and a terminating
/// signal or the end of events for the last time.
pub proof fn law_what_wakes_the_daemon(s: StateView)
    ensures
        woken(s, TriggerView::SaveTimer).1 == (StepView::Save {
            session: LAST_SESSION@,
            occasion: Occasion::Periodic,
        }),
        woken(s, TriggerView::Signal(Signal::User1)).1 == (StepView::Save {
            session: LAST_SESSION@,
            occasion: Occasion::Manual,
        }),
        woken(s, TriggerView::Signal(Signal::Terminate)).1 == (StepView::SaveAndExit {
            session: LAST_SESSION@,
            occasion: Occasion::Final,
        }),
        woken(s, TriggerView::Signal(Signal::Interrupt)).1 == (StepView::SaveAndExit {
            session: LAST_SESSION@,
            occasion: Occasion::Final,
        }),
        woken(s, TriggerView::StreamEnded).1 == (StepView::SaveAndExit {
            session: LAST_SESSION@,
            occasion: Occasion::Final,
        }),
        woken(s, TriggerView::Signal(Signal::Other)).1 == StepView::Act(EventActionView::Nothing),
        LAST_SESSION@ == "last"@,
{
}

/// Client `i` is the last of those with its address.
pub open spec fn is_last_report(clients: Seq<HyprClient>, i: int) -> bool {
    &&& 0 <= i < clients.len()
    &&& forall|j: int|
        i < j < clients.len() ==> normalized((#[trigger] clients[j]).address@) != normalized(
            clients[i].address@,
        )
}

/// After a refresh, a tracked window that was reported has its live position and
/// size, and one that was not reported has those that it had.
pub proof fn law_refresh_takes_the_live_geometry(
    s: StateView,
    clients: Seq<HyprClient>,
    i: int,
    address: Seq<char>,
)
    ensures
        is_last_report(clients, i) && s.window(clients[i].address@) is Some ==> (s.refreshed(
            clients,
        ).window(clients[i].address@) matches Some(w) && w.position == clients[i].at && w.size
            == clients[i].size),
        (forall|j: int|
            0 <= j < clients.len() ==> normalized((#[trigger] clients[j]).address@) != normalized(
                address,
            )) ==> s.refreshed(clients).window(address) == s.window(address),
        s.refreshed(clients).windows.dom() == s.windows.dom(),
    decreases clients.len(),
{
    if clients.len() > 0 {
        let head = clients.drop_last();
        let t = s.refreshed(head);
        law_refresh_takes_the_live_geometry(s, head, i, address);
        assert(t.measured(clients.last()).windows.dom() =~= t.windows.dom());
        if is_last_report(clients, i) && i < clients.len() - 1 {
            assert(head[i] == clients[i]);
            assert forall|j: int| i < j < head.len() implies normalized(
                (#[trigger] head[j]).address@,
            ) != normalized(head[i].address@) by {
                assert(head[j] == clients[j]);
            }
            assert(is_last_report(head, i));
            assert(normalized(clients[clients.len() - 1].address@) != normalized(
                clients[i].address@,
            ));
        }
        if forall|j: int|
            0 <= j < clients.len() ==> normalized((#[trigger] clients[j]).address@) != normalized(
                address,
            ) {
            assert forall|j: int| 0 <= j < head.len() implies normalized(
                (#[trigger] head[j]).address@,
            ) != normalized(address) by {
                assert(head[j] == clients[j]);
            }
            assert(normalized(clients[clients.len() - 1].address@) != normalized(address));
        }
    }
}

/// Without settings, sessions are saved every two minutes below the user's data
/// directory, and everything is restored.
pub proof fn law_default_settings()
    ensures
        general_defaults().save_interval == 120,
        general_defaults().session_dir == "~/.local/share/hyprresume"@,
        general_defaults().restore_on_start,
        general_defaults().per_window_launch,
        general_defaults().restore_geometry,
        general_defaults().restore_layout,
        loaded(None).exclude == seq!["^xdg-desktop-portal.*"@, "^org\\.kde\\.polkit.*"@],
        loaded(None).include_only.len() == 0,
        loaded(None).overrides == Map::<Seq<char>, Seq<char>>::empty(),
        loaded(None).general == general_defaults(),
{
}

/// What a file sets is kept, and only what it leaves out is filled in.
pub proof fn law_given_settings_are_kept(raw: RawGeneral)
    ensures
        ({
            let r = completed(raw);
            let d = general_defaults();
            &&& r.save_interval == match raw.save_interval {
                Some(x) => x,
                None => d.save_interval,
            }
            &&& r.session_dir == match raw.session_dir {
                Some(x) => x@,
                None => d.session_dir,
            }
            &&& r.restore_on_start == match raw.restore_on_start {
                Some(x) => x,
                None => d.restore_on_start,
            }
            &&& r.per_window_launch == match raw.per_window_launch {
                Some(x) => x,
                None => d.per_window_launch,
            }
            &&& r.restore_geometry == match raw.restore_geometry {
                Some(x) => x,
                None => d.restore_geometry,
            }
            &&& r.restore_layout == match raw.restore_layout {
                Some(x) => x,
                None => d.restore_layout,
            }
        }),
{
}

/// The sections of a file are kept, each where it is given; a section that is
/// missing has its defaults.
pub proof fn law_given_sections_are_kept(raw: RawConfig)
    ensures
        ({
            let c = loaded(Some(raw));
            let d = loaded(None);
            &&& match raw.general {
                Some(g) => c.general == completed(g),
                None => c.general == d.general,
            }
            &&& match raw.rules {
                Some(r) => {
                    &&& match r.exclude {
                        Some(v) => c.exclude == texts(v@),
                        None => c.exclude == d.exclude,
                    }
                    &&& match r.include_only {
                        Some(v) => c.include_only == texts(v@),
                        None => c.include_only == d.include_only,
                    }
                },
                None => c.exclude == d.exclude && c.include_only == d.include_only,
            }
            &&& c.overrides == override_map(raw.overrides@)
        }),
{
}

/// The command of an override is the last one that is given for its class, and
/// there are no other overrides.
pub proof fn law_last_override_counts(pairs: Seq<(String, String)>, i: int, class: Seq<char>)
    ensures
        0 <= i < pairs.len() && (forall|j: int|
            i < j < pairs.len() ==> (#[trigger] pairs[j]).0@ != pairs[i].0@) ==> override_map(
            pairs,
        ).dom().contains(pairs[i].0@) && override_map(pairs)[pairs[i].0@] == pairs[i].1@,
        override_map(pairs).dom().contains(class) <==> exists|j: int|
            0 <= j < pairs.len() && (#[trigger] pairs[j]).0@ == class,
    decreases pairs.len(),
{
    if pairs.len() > 0 {
        let head = pairs.drop_last();
        let last = pairs.len() - 1;
        law_last_override_counts(head, i, class);
        if 0 <= i < last && (forall|j: int|
            i < j < pairs.len() ==> (#[trigger] pairs[j]).0@ != pairs[i].0@) {
            assert(pairs[last].0@ != pairs[i].0@);
            assert forall|j: int| i < j < head.len() implies (#[trigger] head[j]).0@
                != head[i].0@ by {
                assert(head[j] == pairs[j]);
            }
        }
        if override_map(head).dom().contains(class) {
            let j = choose|j: int| 0 <= j < head.len() && (#[trigger] head[j]).0@ == class;
            assert(pairs[j].0@ == class);
        }
        if exists|j: int| 0 <= j < pairs.len() && (#[trigger] pairs[j]).0@ == class {
            let j = choose|j: int| 0 <= j < pairs.len() && (#[trigger] pairs[j]).0@ == class;
            if j < last {
                assert(head[j].0@ == class);
            }
        }
        assert(pairs[last].0@ == pairs.last().0@);
    }
}

/// A directory below `~` is below the user's home, or below `/tmp` where that is
/// not known; any other is what it says.
pub proof fn law_home_is_expanded(below: Seq<char>, home: Seq<char>, dir: Seq<char>)
    requires
        home.len() > 0,
        home.last() != '/',
        below.len() > 0,
        below[0] != '/',
        dir.len() == 0 || dir[0] != '~',
    ensures
        expanded("~/"@ + below, Some(home)) == home + "/"@ + below,
        expanded("~/"@ + below, None) == "/tmp/"@ + below,
        expanded(dir, Some(home)) == dir,
        expanded(dir, None) == dir,
{
    reveal_strlit("~/");
    reveal_strlit("~");
    reveal_strlit("/");
    reveal_strlit("/tmp");
    reveal_strlit("/tmp/");
    let s = "~/"@ + below;
    assert(s =~= "~"@ + ("/"@ + below));
    law_affixes_come_off("/"@ + below, "~"@);
    law_affixes_come_off(below, "/"@);
    assert("/tmp"@ + "/"@ + below =~= "/tmp/"@ + below);
    if dir.len() > 0 {
        assert(dir.take(1)[0] == dir[0]);
    }
}

/// Each window keeps the directory that was found for it.
pub proof fn law_directories_stay_with_their_windows(cwds: Seq<Option<String>>, i: int)
    ensures
        0 <= i < cwds.len() ==> match cwds[i] {
            Some(cwd) => cwd_at(cwds, i) == Some(cwd@),
            None => cwd_at(cwds, i) is None,
        },
        i >= cwds.len() ==> cwd_at(cwds, i) is None,
{
}

/// The process that is reported for a class is that of its first client.
pub proof fn law_first_client_of_a_class(clients: Seq<HyprClient>, class: Seq<char>, i: int)
    ensures
        0 <= i < clients.len() && clients[i].class@ == class && (forall|j: int|
            0 <= j < i ==> (#[trigger] clients[j]).class@ != class) ==> pid_from(clients, class, 0)
            == clients[i].pid,
        (forall|j: int| 0 <= j < clients.len() ==> (#[trigger] clients[j]).class@ != class)
            ==> pid_from(clients, class, 0) == -1,
{
    lemma_pid_from(clients, class, 0, i);
}

proof fn lemma_pid_from(clients: Seq<HyprClient>, class: Seq<char>, k: int, i: int)
    requires
        0 <= k <= clients.len(),
        0 <= i < clients.len() && clients[i].class@ == class && (forall|j: int|
            0 <= j < i ==> (#[trigger] clients[j]).class@ != class) ==> k <= i,
    ensures
        0 <= i < clients.len() && clients[i].class@ == class && (forall|j: int|
            0 <= j < i ==> (#[trigger] clients[j]).class@ != class) ==> pid_from(clients, class, k)
            == clients[i].pid,
        (forall|j: int| 0 <= j < clients.len() ==> (#[trigger] clients[j]).class@ != class)
            ==> pid_from(clients, class, k) == -1,
    decreases clients.len() - k,
{
    if k < clients.len() && clients[k].class@ != class {
        lemma_pid_from(clients, class, k + 1, i);
    }
}

/// A monitor goes by the name that was last reported for its id.
pub proof fn law_last_monitor_name_counts(monitors: Seq<HyprMonitor>, i: int)
    requires
        0 <= i < monitors.len(),
        forall|j: int| i < j < monitors.len() ==> (#[trigger] monitors[j]).id != monitors[i].id,
    ensures
        monitor_names(monitors).dom().contains(monitors[i].id),
        monitor_names(monitors)[monitors[i].id] == monitors[i].name@,
    decreases monitors.len(),
{
    let head = monitors.drop_last();
    let last = monitors.len() - 1;
    if i < last {
        assert(monitors[last].id != monitors[i].id);
        assert forall|j: int| i < j < head.len() implies (#[trigger] head[j]).id != head[i].id by {
            assert(head[j] == monitors[j]);
        }
        law_last_monitor_name_counts(head, i);
    }
}

/// The sockets of an instance are below `hypr` in the runtime directory.
pub proof fn law_instance_directory(signature: Seq<char>, runtime: Seq<char>)
    requires
        signature.len() > 0,
        signature[0] != '/',
        runtime.len() > 0,
        runtime.last() != '/',
    ensures
        instance_dir(signature, Some(runtime)) == runtime + "/hypr/"@ + signature,
        instance_dir(signature, None) == "/run/user/1000/hypr/"@ + signature,
{
    reveal_strlit("/hypr/");
    reveal_strlit("hypr");
    reveal_strlit("/");
    reveal_strlit("/run/user/1000");
    reveal_strlit("/run/user/1000/hypr/");
    assert(instance_dir(signature, Some(runtime)) =~= runtime + "/hypr/"@ + signature);
    assert(instance_dir(signature, None) =~= "/run/user/1000/hypr/"@ + signature);
}

/// The value of a string option is what stands in quotation marks after `str: `
/// on a line of its own, whatever follows.
pub proof fn law_option_value_is_read_back(value: Seq<char>, rest: Seq<char>)
    requires
        lacks(value, '\n'),
        lacks(value, '"'),
        value.len() > 0,
    ensures
        str_value("str: \""@ + value + "\"\n"@ + rest) == Some(value),
{
    let marked = seq!['"'] + value + seq!['"'];
    let line = "str: "@ + marked;
    let response = "str: \""@ + value + "\"\n"@ + rest;
    assert(response =~= line + seq!['\n'] + rest && is_line(line)) by {
        reveal_strlit("str: \"");
        reveal_strlit("\"\n");
        reveal_strlit("str: ");
        assert(response =~= line + seq!['\n'] + rest);
        assert(lacks(line, '\n'));
        assert(line.last() == '"');
    }
    law_lines_are_read_back(line, rest);
    lemma_value_of_a_line(value, text_lines(response));
}

proof fn lemma_value_of_a_line(value: Seq<char>, rows: Seq<Seq<char>>)
    requires
        lacks(value, '"'),
        value.len() > 0,
        rows.len() > 0,
        rows[0] == "str: "@ + (seq!['"'] + value + seq!['"']),
    ensures
        str_value_from(rows, 0) == Some(value),
{
    let marked = seq!['"'] + value + seq!['"'];
    law_affixes_come_off(marked, "str: "@);
    lemma_nothing_to_trim(marked);
    law_marks_come_off(value, '"');
}

proof fn lemma_nothing_to_trim(s: Seq<char>)
    requires
        s.len() > 0,
        !crate::text::is_space(s[0]),
        !crate::text::is_space(s.last()),
    ensures
        trimmed(s) == s,
{
    assert(s.skip(0) =~= s);
    assert(s.take(s.len() as int) =~= s);
}

/// A change of a window's mode, and of the fullscreen state, is read back from
/// its line.
pub proof fn law_mode_events_are_read_back(address: Seq<char>, on: bool)
    requires
        lacks(address, ','),
    ensures
        event_of(
            "changefloatingmode>>"@ + (address + ","@ + if on {
                "1"@
            } else {
                "0"@
            }),
        ) == (HyprEventView::ChangeFloatingMode { address, floating: on }),
        event_of("fullscreen>>"@ + if on {
            "1"@
        } else {
            "0"@
        }) == (HyprEventView::Fullscreen { state: on }),
{
    reveal_strlit("changefloatingmode>>");
    reveal_strlit("changefloatingmode");
    reveal_strlit("fullscreen>>");
    reveal_strlit("fullscreen");
    reveal_strlit("openwindow");
    reveal_strlit("closewindow");
    reveal_strlit("movewindow");
    reveal_strlit("movewindowv2");
    reveal_strlit(">>");
    reveal_strlit(",");
    reveal_strlit("1");
    reveal_strlit("0");
    let mode = if on {
        "1"@
    } else {
        "0"@
    };
    let data = address + ","@ + mode;
    assert("changefloatingmode>>"@ + data =~= "changefloatingmode"@ + ">>"@ + data);
    assert("fullscreen>>"@ + mode =~= "fullscreen"@ + ">>"@ + mode);
    lemma_cut_after("changefloatingmode"@, ">>"@, data);
    lemma_cut_after("fullscreen"@, ">>"@, mode);
    lemma_cut_after(address, ","@, mode);
    lemma_nothing_to_trim(mode);
    assert("1"@[0] != "0"@[0]);
    assert("changefloatingmode"@.len() == 18 && "movewindowv2"@.len() == 12);
    assert("fullscreen"@[0] == 'f' && "openwindow"@[0] == 'o' && "movewindow"@[0] == 'm'
        && "closewindow"@[0] == 'c');
}

/// A line that is not one of the known events is unknown, and kept whole.
pub proof fn law_other_lines_are_unknown(line: Seq<char>)
    ensures
        !occurs(line, ">>"@) ==> event_of(line) == HyprEventView::Unknown(line),
        cut_first(line, ">>"@) matches Some((name, data)) ==> name != "openwindow"@ && name
            != "closewindow"@ && name != "movewindow"@ && name != "movewindowv2"@ && name
            != "changefloatingmode"@ && name != "fullscreen"@ ==> event_of(line)
            == HyprEventView::Unknown(line),
        trimmed(line).len() > 0 ==> event_in(line) == Some(event_of(trimmed(line))),
        trimmed(line).len() == 0 ==> event_in(line) is None,
{
}

/// A window that opened is recognized by its class.
pub proof fn law_opened_windows_are_recognized(
    address: Seq<char>,
    workspace: Seq<char>,
    class: Seq<char>,
    wanted: Seq<char>,
)
    ensures
        opened_as(HyprEventView::OpenWindow { address, workspace, class }, wanted) == if class
            == wanted {
            Some(address)
        } else {
            None
        },
        opened_as(HyprEventView::CloseWindow { address }, wanted) is None,
        opened_as(HyprEventView::MoveWindow { address, workspace }, wanted) is None,
{
}

/// A row shows the name and then the time; a summary counts the restored windows
/// out of all, and the failed ones where there are any.
pub proof fn law_reports_show_their_values(
    name: Seq<char>,
    time: Seq<char>,
    restored: nat,
    failed: nat,
)
    ensures
        name.len() <= 20 ==> row(name, time).take(name.len() as int) == name,
        name.len() <= 20 && time.len() <= 24 ==> row(name, time).len() == 45 && row(
            name,
            time,
        ).subrange(21, 21 + time.len() as int) == time,
        summary(restored as int, 0) == "Restored "@ + decimal(restored as int) + "/"@ + decimal(
            restored as int,
        ) + " apps"@,
        failed > 0 ==> summary(restored as int, failed as int) == "Restored "@ + decimal(
            restored as int,
        ) + "/"@ + decimal((restored + failed) as int) + " apps ("@ + decimal(failed as int)
            + " failed)"@,
{
    reveal_strlit(" ");
    reveal_strlit(" apps");
    reveal_strlit(" (");
    reveal_strlit(" apps (");
    if name.len() <= 20 {
        assert(row(name, time).take(name.len() as int) =~= name);
        if time.len() <= 24 {
            assert(row(name, time).subrange(21, 21 + time.len() as int) =~= time);
        }
    }
    let head = "Restored "@ + decimal(restored as int) + "/"@ + decimal(
        (restored + failed) as int,
    );
    assert(" apps"@ + " ("@ =~= " apps ("@);
    assert(head + " apps"@ + " ("@ + decimal(failed as int) + " failed)"@ =~= head + " apps ("@
        + decimal(failed as int) + " failed)"@);
}

/// The configuration is `hypr/hyprresume.toml` below the user's configuration
/// directory, and the sessions are below the directory that is set.
pub proof fn law_places_of_files(dir: Seq<char>, home: Option<Seq<char>>)
    requires
        dir.len() > 0,
        dir.last() != '/',
        dir[0] != '~',
    ensures
        path_below(Some(dir)) == dir + "/hypr/hyprresume.toml"@,
        path_below(None) == "~/.config/hypr/hyprresume.toml"@,
        sessions_below(dir, home) == dir + "/sessions"@,
{
    reveal_strlit("/");
    reveal_strlit("~");
    reveal_strlit("hypr");
    reveal_strlit("hyprresume.toml");
    reveal_strlit("sessions");
    reveal_strlit("~/.config");
    reveal_strlit("/sessions");
    reveal_strlit("/hypr/hyprresume.toml");
    reveal_strlit("~/.config/hypr/hyprresume.toml");
    assert(dir.take(1)[0] == dir[0]);
    let below = joined_path(dir, "hypr"@);
    assert(below.last() == 'r');
    assert(path_below(Some(dir)) =~= dir + "/hypr/hyprresume.toml"@);
    let usual = joined_path("~/.config"@, "hypr"@);
    assert(usual.last() == 'r');
    assert(path_below(None) =~= "~/.config/hypr/hyprresume.toml"@);
    assert(sessions_below(dir, home) =~= dir + "/sessions"@);
}

/// The sockets of an instance are two files in its directory.
pub proof fn law_sockets_of_an_instance(dir: Seq<char>)
    requires
        dir.len() > 0,
        dir.last() != '/',
    ensures
        sockets_in(dir) == (dir + "/.socket.sock"@, dir + "/.socket2.sock"@),
{
    reveal_strlit("/");
    reveal_strlit(".socket.sock");
    reveal_strlit(".socket2.sock");
    reveal_strlit("/.socket.sock");
    reveal_strlit("/.socket2.sock");
    assert(sockets_in(dir).0 =~= dir + "/.socket.sock"@);
    assert(sockets_in(dir).1 =~= dir + "/.socket2.sock"@);
}

/// An option is on if `int: 1` stands somewhere in the response, and only then.
pub proof fn law_options_are_on(a: Seq<char>, b: Seq<char>, response: Seq<char>)
    ensures
        is_switched_on(a + "int: 1"@ + b),
        is_switched_on(response) ==> exists|x: Seq<char>, y: Seq<char>|
            response == #[trigger] (x + "int: 1"@ + y),
{
    crate::resolver::process_laws::lemma_within(a, "int: 1"@, b);
    if is_switched_on(response) {
        reveal_strlit("int: 1");
        let pat = "int: 1"@;
        let i = choose|i: int| crate::text::occurs_at(response, pat, i);
        let x = response.take(i);
        let y = response.skip(i + pat.len());
        assert forall|j: int| i <= j < i + pat.len() implies response[j] == pat[j - i] by {
            assert(response.subrange(i, i + pat.len())[j - i] == response[j]);
        }
        assert(x + pat + y =~= response);
    }
}

/// Nothing is saved while no window is tracked. Otherwise the windows get the
/// geometry of the live clients, where these are known, and are saved.
pub proof fn law_saves_are_up_to_date(
    s: StateView,
    clients: Seq<HyprClient>,
    i: int,
    address: Seq<char>,
)
    ensures
        prepared(s, None).0 == s,
        prepared(s, None).1 == (s.windows.dom().len() > 0),
        prepared(s, Some(clients)).1 == (s.windows.dom().len() > 0),
        s.windows.dom().len() == 0 ==> prepared(s, Some(clients)).0 == s,
        s.windows.dom().len() > 0 && is_last_report(clients, i) && s.window(clients[i].address@)
            is Some ==> (prepared(s, Some(clients)).0.window(clients[i].address@) matches Some(w)
            && w.position == clients[i].at && w.size == clients[i].size),
        (forall|j: int|
            0 <= j < clients.len() ==> normalized((#[trigger] clients[j]).address@) != normalized(
                address,
            )) ==> prepared(s, Some(clients)).0.window(address) == s.window(address),
{
    law_refresh_takes_the_live_geometry(s, clients, i, address);
}

/// A path's name does not change with slashes or `.` components behind it, and
/// a path that ends in `..` has none.
pub proof fn law_trailing_slashes_are_ignored(path: Seq<char>, dir: Seq<char>)
    ensures
        base_name(path + "/"@) == base_name(path),
        base_name(path + "/."@) == base_name(path),
        base_name(dir + "/.."@) is None,
{
    reveal_strlit("/");
    reveal_strlit("/.");
    reveal_strlit("/..");
    reveal_strlit("..");
    reveal_strlit(".");
    let a = path + "/"@;
    assert(a.last() == '/');
    assert(a.drop_last() =~= path);
    let b = path + "/."@;
    assert(b.last() == '.' && b[b.len() - 2] == '/');
    assert(b.take(b.len() - 2) =~= path);
    let c = dir + "/.."@;
    assert(c.last() == '.' && c[c.len() - 2] == '.');
    assert(c =~= dir + seq!['/'] + ".."@);
    crate::snapshot_laws::law_last_component(dir, ".."@);
}

/// Events, actions, triggers and steps are seen as they are.
pub proof fn law_events_are_seen(e: HyprEvent, a: EventAction, t: Trigger, s: Step)
    ensures
        e matches HyprEvent::OpenWindow { address, workspace, class } ==> e@ == (
        HyprEventView::OpenWindow { address: address@, workspace: workspace@, class: class@ }),
        e matches HyprEvent::CloseWindow { address } ==> e@ == (HyprEventView::CloseWindow {
            address: address@,
        }),
        e matches HyprEvent::MoveWindow { address, workspace } ==> e@ == (
        HyprEventView::MoveWindow { address: address@, workspace: workspace@ }),
        e matches HyprEvent::ChangeFloatingMode { address, floating } ==> e@ == (
        HyprEventView::ChangeFloatingMode { address: address@, floating }),
        e matches HyprEvent::Fullscreen { state } ==> e@ == (HyprEventView::Fullscreen { state }),
        e matches HyprEvent::Unknown(line) ==> e@ == HyprEventView::Unknown(line@),
        a is Nothing <==> a@ is Nothing,
        a matches EventAction::Inspect { address, workspace, class } ==> a@ == (
        EventActionView::Inspect { address: address@, workspace: workspace@, class: class@ }),
        t matches Trigger::Event(event) ==> t@ == TriggerView::Event(event@),
        t matches Trigger::Signal(signal) ==> t@ == TriggerView::Signal(signal),
        t is SaveTimer <==> t@ is SaveTimer,
        t is StreamEnded <==> t@ is StreamEnded,
        s matches Step::Act(action) ==> s@ == StepView::Act(action@),
        s matches Step::Save { session, occasion } ==> s@ == (StepView::Save {
            session: session@,
            occasion,
        }),
        s matches Step::SaveAndExit { session, occasion } ==> s@ == (StepView::SaveAndExit {
            session: session@,
            occasion,
        }),
{
}

/// A desktop entry is seen as it is.
pub proof fn law_entries_are_seen(e: DesktopEntry)
    ensures
        e@.exec_line == e.exec_line@,
        e@.desktop_id == e.desktop_id@,
        e.startup_wm_class is None ==> e@.startup_wm_class is None,
        e.startup_wm_class matches Some(class) ==> e@.startup_wm_class == Some(class@),
{
}

/// Words are what stands between white space, however much of it there is.
pub proof fn law_words_stand_between_white_space(w: Seq<char>, c: char, rest: Seq<char>)
    requires
        is_word(w),
        crate::text::is_space(c),
    ensures
        words(seq![c] + rest) == words(rest),
        words(w + (seq![c] + rest)) == seq![w] + words(rest),
        words(w) == seq![w],
        words(Seq::<char>::empty()).len() == 0,
{
    lemma_words_after_space(rest, c);
    lemma_word_before(w, seq![c] + rest);
    lemma_words_of_word(w);
}

/// An unknown time is called so, and a known one is shown.
pub proof fn law_times_are_shown(time: Seq<char>)
    ensures
        time_or_unknown(Some(time)) == time,
        time_or_unknown(None) == "unknown"@,
{
}

/// What is said of each occasion for a save.
pub proof fn law_occasions_are_named()
    ensures
        Occasion::Periodic.name() == "periodic"@,
        Occasion::Manual.name() == "manual"@,
        Occasion::Final.name() == "final"@,
{
}

/// A window floats, or the screen is full, if the mode that is reported is `1`,
/// with white space around it or not; any other mode means that it does not.
pub proof fn law_only_one_means_on(address: Seq<char>, mode: Seq<char>)
    requires
        lacks(address, ','),
    ensures
        event_of("changefloatingmode"@ + ">>"@ + (address + ","@ + mode)) == (
        HyprEventView::ChangeFloatingMode { address, floating: trimmed(mode) == seq!['1'] }),
        event_of("fullscreen"@ + ">>"@ + mode) == (HyprEventView::Fullscreen {
            state: trimmed(mode) == seq!['1'],
        }),
{
    reveal_strlit("changefloatingmode");
    reveal_strlit("fullscreen");
    reveal_strlit("openwindow");
    reveal_strlit("closewindow");
    reveal_strlit("movewindow");
    reveal_strlit("movewindowv2");
    reveal_strlit(">>");
    reveal_strlit(",");
    reveal_strlit("1");
    assert("1"@ =~= seq!['1']);
    lemma_cut_after("changefloatingmode"@, ">>"@, address + ","@ + mode);
    lemma_cut_after("fullscreen"@, ">>"@, mode);
    lemma_cut_after(address, ","@, mode);
    assert("changefloatingmode"@.len() == 18 && "movewindowv2"@.len() == 12);
    assert("fullscreen"@[0] == 'f' && "openwindow"@[0] == 'o' && "movewindow"@[0] == 'm'
        && "closewindow"@[0] == 'c');
}

/// A move in the long form may lack the workspace's id, and is then a move in
/// the short form. A line with too few parts is unknown.
pub proof fn law_short_lines(address: Seq<char>, workspace: Seq<char>)
    requires
        lacks(address, ','),
        lacks(workspace, ','),
    ensures
        event_of("movewindowv2"@ + ">>"@ + (address + ","@ + workspace)) == (
        HyprEventView::MoveWindow { address, workspace }),
        event_of("movewindow"@ + ">>"@ + address) is Unknown,
        event_of("movewindowv2"@ + ">>"@ + address) is Unknown,
        event_of("changefloatingmode"@ + ">>"@ + address) is Unknown,
        event_of("openwindow"@ + ">>"@ + address) is Unknown,
        event_of("openwindow"@ + ">>"@ + (address + ","@ + workspace)) is Unknown,
{
    reveal_strlit("changefloatingmode");
    reveal_strlit("openwindow");
    reveal_strlit("closewindow");
    reveal_strlit("movewindow");
    reveal_strlit("movewindowv2");
    reveal_strlit(">>");
    reveal_strlit(",");
    assert(","@ =~= seq![',']);
    let both = address + ","@ + workspace;
    lemma_cut_after("movewindowv2"@, ">>"@, both);
    lemma_cut_after("movewindowv2"@, ">>"@, address);
    lemma_cut_after("movewindow"@, ">>"@, address);
    lemma_cut_after("changefloatingmode"@, ">>"@, address);
    lemma_cut_after("openwindow"@, ">>"@, address);
    lemma_cut_after("openwindow"@, ">>"@, both);
    lemma_cut_after(address, ","@, workspace);
    crate::resolver::process_laws::lemma_holds(address, ","@, ',');
    crate::resolver::process_laws::lemma_holds(workspace, ","@, ',');
    assert("movewindowv2"@.len() == 12 && "movewindow"@.len() == 10 && "openwindow"@.len() == 10);
    assert("closewindow"@.len() == 11 && "changefloatingmode"@.len() == 18);
    assert("movewindow"@[0] == 'm' && "openwindow"@[0] == 'o');
}

/// Addresses are the same if they are so in lowercase, without what `0x` they
/// begin with.
pub proof fn law_addresses_are_told_apart(a: Seq<char>)
    ensures
        !(a.len() >= 2 && a[0] == '0' && a[1] == 'x') ==> normalized(a) == lowercase(a),
        normalized("0x"@ + a) == normalized(a),
{
    reveal_strlit("0x");
    if a.len() >= 2 {
        assert(a.take(2)[0] == a[0] && a.take(2)[1] == a[1]);
    }
    let b = "0x"@ + a;
    assert(b.take(2) =~= "0x"@);
    assert(b.skip(2) =~= a);
}

/// Each name that is refused is refused for its own reason.
pub proof fn law_refused_names(name: Seq<char>, s: String)
    ensures
        NameError::Empty.is_for(name) <==> name.len() == 0,
        NameError::Invalid(s).is_for(name) <==> name.len() > 0 && s@ == name,
        NameError::Empty.message() == "session name cannot be empty"@,
        NameError::Invalid(s).message() == "invalid session name '"@ + s@
            + "': must not contain path separators or start with '.'"@,
{
}

/// A session is a file of its name in the directory, and is first written to a
/// hidden one beside it.
pub proof fn law_files_of_a_session(dir: Seq<char>, name: Seq<char>)
    requires
        dir.len() > 0,
        dir.last() != '/',
        name.len() > 0,
        name[0] != '/',
    ensures
        session_file(dir, name) == dir + "/"@ + name + ".toml"@,
        temporary_file(dir, name) == dir + "/."@ + name + ".toml.tmp"@,
{
    reveal_strlit("/");
    reveal_strlit(".");
    reveal_strlit("/.");
    assert(session_file(dir, name) =~= dir + "/"@ + name + ".toml"@);
    assert(temporary_file(dir, name) =~= dir + "/."@ + name + ".toml.tmp"@);
}

/// Being quiet leaves errors only; each step of verbosity shows one level more.
pub proof fn law_verbosity(verbose: u8)
    ensures
        level_of(verbose, true) == "error"@,
        level_of(0, false) == "warn"@,
        level_of(1, false) == "info"@,
        level_of(2, false) == "debug"@,
        verbose > 2 ==> level_of(verbose, false) == "trace"@,
{
}

} // verus!
