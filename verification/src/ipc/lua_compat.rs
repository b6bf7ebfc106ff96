//! Translates classic `hyprctl dispatch` argument strings into the Lua call
//! syntax required when Hyprland is running a Lua config.
//!
//! On a Lua-config Hyprland instance, the `dispatch <args>` socket request is
//! evaluated as `return hl.dispatch(<args>)`: `<args>` must be valid Lua that
//! evaluates to a dispatcher (e.g. `hl.dsp.window.close()`), not a classic
//! space/comma-separated dispatcher string. `layoutmsg <msg>` is a generic
//! passthrough to the active layout plugin, so the same passthrough is used
//! for every `layoutmsg` message.
use crate::text::{
    cut_first, cut_last, debug_form, debug_string, replace, replaced, rsplit_once, split_once,
    starts_with, starts_with_seq, str_eq, strip_prefix, after_prefix,
};
use vstd::prelude::*;
use vstd::string::StringExecFns;

verus! {

/// Why a dispatch cannot be translated. Each variant holds the text that was
/// not as expected.
#[derive(Debug)]
pub enum TranslateError {
    /// Not an `address:` selector.
    NotAnAddress(String),
    /// No comma before an `address:` selector.
    NoComma(String),
    /// No `address:` selector after the comma.
    NoAddressAfterComma(String),
    /// `movewindowpixel` without an `address:` selector.
    MoveSelector(String),
    /// `movewindowpixel` without two coordinates.
    MovePosition(String),
    /// `resizewindowpixel` without an `address:` selector.
    ResizeSelector(String),
    /// `resizewindowpixel` without two extents.
    ResizeSize(String),
    /// `moveworkspacetomonitor` without a monitor.
    NoMonitor(String),
    /// A dispatcher without a translation, and its arguments.
    UnknownDispatcher(String, String),
}

pub enum TranslateErrorView {
    NotAnAddress(Seq<char>),
    NoComma(Seq<char>),
    NoAddressAfterComma(Seq<char>),
    MoveSelector(Seq<char>),
    MovePosition(Seq<char>),
    ResizeSelector(Seq<char>),
    ResizeSize(Seq<char>),
    NoMonitor(Seq<char>),
    UnknownDispatcher(Seq<char>, Seq<char>),
}

impl View for TranslateError {
    type V = TranslateErrorView;

    open spec fn view(&self) -> TranslateErrorView {
        match *self {
            TranslateError::NotAnAddress(s) => TranslateErrorView::NotAnAddress(s@),
            TranslateError::NoComma(s) => TranslateErrorView::NoComma(s@),
            TranslateError::NoAddressAfterComma(s) => TranslateErrorView::NoAddressAfterComma(s@),
            TranslateError::MoveSelector(s) => TranslateErrorView::MoveSelector(s@),
            TranslateError::MovePosition(s) => TranslateErrorView::MovePosition(s@),
            TranslateError::ResizeSelector(s) => TranslateErrorView::ResizeSelector(s@),
            TranslateError::ResizeSize(s) => TranslateErrorView::ResizeSize(s@),
            TranslateError::NoMonitor(s) => TranslateErrorView::NoMonitor(s@),
            TranslateError::UnknownDispatcher(name, args) => TranslateErrorView::UnknownDispatcher(
                name@,
                args@,
            ),
        }
    }
}

impl TranslateErrorView {
    pub open spec fn message(self) -> Seq<char> {
        match self {
            TranslateErrorView::NotAnAddress(s) => "expected `address:0x..`, got "@ + debug_form(s),
            TranslateErrorView::NoComma(s) => "expected `<arg>,address:<addr>`, got "@
                + debug_form(s),
            TranslateErrorView::NoAddressAfterComma(s) =>
                "expected `address:0x..` after comma, got "@ + debug_form(s),
            TranslateErrorView::MoveSelector(s) =>
                "movewindowpixel: expected `<x> <y>,address:<addr>`, got "@ + debug_form(s),
            TranslateErrorView::MovePosition(s) => "movewindowpixel: expected `<x> <y>`, got "@
                + debug_form(s),
            TranslateErrorView::ResizeSelector(s) =>
                "resizewindowpixel: expected `<w> <h>,address:<addr>`, got "@ + debug_form(s),
            TranslateErrorView::ResizeSize(s) => "resizewindowpixel: expected `<w> <h>`, got "@
                + debug_form(s),
            TranslateErrorView::NoMonitor(s) =>
                "moveworkspacetomonitor: expected `<ws> <monitor>`, got "@ + debug_form(s),
            TranslateErrorView::UnknownDispatcher(name, args) =>
                "lua_compat: no translation for dispatcher "@ + debug_form(name) + " (args: "@
                + debug_form(args) + ")"@,
        }
    }
}

fn describe(prefix: &str, s: &String) -> (r: String)
    ensures
        r@ == prefix@ + debug_form(s@),
{
    let mut out = prefix.to_owned();
    let shown = debug_string(s.as_str());
    out.append(shown.as_str());
    out
}

impl TranslateError {
    /// The error in words.
    pub fn to_string(&self) -> (r: String)
        ensures
            r@ == self@.message(),
    {
        match self {
            TranslateError::NotAnAddress(s) => describe("expected `address:0x..`, got ", s),
            TranslateError::NoComma(s) => describe("expected `<arg>,address:<addr>`, got ", s),
            TranslateError::NoAddressAfterComma(s) => describe(
                "expected `address:0x..` after comma, got ",
                s,
            ),
            TranslateError::MoveSelector(s) => describe(
                "movewindowpixel: expected `<x> <y>,address:<addr>`, got ",
                s,
            ),
            TranslateError::MovePosition(s) => describe(
                "movewindowpixel: expected `<x> <y>`, got ",
                s,
            ),
            TranslateError::ResizeSelector(s) => describe(
                "resizewindowpixel: expected `<w> <h>,address:<addr>`, got ",
                s,
            ),
            TranslateError::ResizeSize(s) => describe(
                "resizewindowpixel: expected `<w> <h>`, got ",
                s,
            ),
            TranslateError::NoMonitor(s) => describe(
                "moveworkspacetomonitor: expected `<ws> <monitor>`, got ",
                s,
            ),
            TranslateError::UnknownDispatcher(name, args) => {
                let mut out = describe("lua_compat: no translation for dispatcher ", name);
                let shown = debug_string(args.as_str());
                out.append(" (args: ");
                out.append(shown.as_str());
                out.append(")");
                out
            },
        }
    }
}

/// A text as a Lua string literal.
pub open spec fn quoted(s: Seq<char>) -> Seq<char> {
    "\""@ + replaced(replaced(s, '\\', "\\\\"@), '"', "\\\""@) + "\""@
}

/// `{ window = "<selector>" }` as the argument of a call.
pub open spec fn window_call(function: Seq<char>, selector: Seq<char>) -> Seq<char> {
    function + "({ window = \""@ + selector + "\" })"@
}

/// The dispatcher takes nothing but an address.
pub open spec fn address_call(function: Seq<char>, rest: Seq<char>) -> Result<
    Seq<char>,
    TranslateErrorView,
> {
    if starts_with_seq(rest, "address:"@) {
        Ok(window_call(function, rest))
    } else {
        Err(TranslateErrorView::NotAnAddress(rest))
    }
}

/// `<argument>,address:<address>`: the argument and the selector.
pub open spec fn argument_and_address(s: Seq<char>) -> Result<
    (Seq<char>, Seq<char>),
    TranslateErrorView,
> {
    match cut_first(s, ","@) {
        Some((leading, address)) => if starts_with_seq(address, "address:"@) {
            Ok((leading, address))
        } else {
            Err(TranslateErrorView::NoAddressAfterComma(address))
        },
        None => Err(TranslateErrorView::NoComma(s)),
    }
}

pub open spec fn fullscreen_call(rest: Seq<char>) -> Result<Seq<char>, TranslateErrorView> {
    match argument_and_address(rest) {
        Ok((mode, selector)) => Ok(
            "hl.dsp.window.fullscreen({ window = \""@ + selector + "\", mode = "@ + mode + " })"@,
        ),
        Err(e) => Err(e),
    }
}

pub open spec fn to_workspace_call(rest: Seq<char>) -> Result<Seq<char>, TranslateErrorView> {
    match argument_and_address(rest) {
        Ok((ws, selector)) => Ok(
            "hl.dsp.window.move({ window = \""@ + selector + "\", workspace = \""@ + ws + "\" })"@,
        ),
        Err(e) => Err(e),
    }
}

/// What follows `exact `, or the whole where it is absent.
pub open spec fn without_exact(rest: Seq<char>) -> Seq<char> {
    match after_prefix(rest, "exact "@) {
        Some(r) => r,
        None => rest,
    }
}

pub open spec fn position_call(rest: Seq<char>) -> Result<Seq<char>, TranslateErrorView> {
    let r = without_exact(rest);
    match cut_last(r, ",address:"@) {
        Some((xy, selector)) => match cut_first(xy, " "@) {
            Some((x, y)) => Ok(
                "hl.dsp.window.move({ window = \"address:"@ + selector + "\", x = "@ + x
                    + ", y = "@ + y + " })"@,
            ),
            None => Err(TranslateErrorView::MovePosition(xy)),
        },
        None => Err(TranslateErrorView::MoveSelector(r)),
    }
}

pub open spec fn size_call(rest: Seq<char>) -> Result<Seq<char>, TranslateErrorView> {
    let exact = if after_prefix(rest, "exact "@) is Some {
        "true"@
    } else {
        "false"@
    };
    let r = without_exact(rest);
    match cut_last(r, ",address:"@) {
        Some((wh, selector)) => match cut_first(wh, " "@) {
            Some((w, h)) => Ok(
                "hl.dsp.window.resize({ window = \"address:"@ + selector + "\", x = "@ + w
                    + ", y = "@ + h + ", exact = "@ + exact + " })"@,
            ),
            None => Err(TranslateErrorView::ResizeSize(wh)),
        },
        None => Err(TranslateErrorView::ResizeSelector(r)),
    }
}

pub open spec fn monitor_call(rest: Seq<char>) -> Result<Seq<char>, TranslateErrorView> {
    match cut_first(rest, " "@) {
        Some((ws, monitor)) => Ok(
            "hl.dsp.workspace.move({ workspace = \""@ + ws + "\", monitor = \""@ + monitor
                + "\" })"@,
        ),
        None => Err(TranslateErrorView::NoMonitor(rest)),
    }
}

/// The dispatcher's name and its arguments.
pub open spec fn name_and_rest(args: Seq<char>) -> (Seq<char>, Seq<char>) {
    match cut_first(args, " "@) {
        Some(parts) => parts,
        None => (args, ""@),
    }
}

/// The Lua expression for a classic dispatch, or why there is none.
pub open spec fn lua_dispatch(args: Seq<char>) -> Result<Seq<char>, TranslateErrorView> {
    let (name, rest) = name_and_rest(args);
    if name == "focuswindow"@ {
        address_call("hl.dsp.focus"@, rest)
    } else if name == "setfloating"@ {
        address_call("hl.dsp.window.float"@, rest)
    } else if name == "closewindow"@ {
        address_call("hl.dsp.window.close"@, rest)
    } else if name == "fullscreen"@ {
        fullscreen_call(rest)
    } else if name == "movetoworkspacesilent"@ {
        to_workspace_call(rest)
    } else if name == "movewindowpixel"@ {
        position_call(rest)
    } else if name == "resizewindowpixel"@ {
        size_call(rest)
    } else if name == "layoutmsg"@ {
        Ok("hl.dsp.layout("@ + quoted(rest) + ")"@)
    } else if name == "moveworkspacetomonitor"@ {
        monitor_call(rest)
    } else if name == "workspace"@ {
        Ok("hl.dsp.workspace(\""@ + rest + "\")"@)
    } else if name == "exec"@ {
        Ok("hl.dsp.exec_cmd("@ + quoted(rest) + ")"@)
    } else {
        Err(TranslateErrorView::UnknownDispatcher(name, rest))
    }
}

/// What a translation says.
pub open spec fn result_view(r: Result<String, TranslateError>) -> Result<
    Seq<char>,
    TranslateErrorView,
> {
    match r {
        Ok(s) => Ok(s@),
        Err(e) => Err(e@),
    }
}

/// Translate a classic `dispatch <args>` payload into the Lua expression the
/// socket expects when Hyprland is running a Lua config.
///
/// Returns an error (rather than a guessed translation) for dispatchers that
/// have no confirmed counterpart, so a missing mapping fails loudly instead of
/// silently sending malformed Lua.
pub fn translate_dispatch(args: &str) -> (r: Result<String, TranslateError>)
    ensures
        result_view(r) == lua_dispatch(args@),
{
    let (name, rest) = match split_once(args, " ") {
        Some(parts) => parts,
        None => (args, ""),
    };
    if str_eq(name, "focuswindow") {
        translate_address("hl.dsp.focus", rest)
    } else if str_eq(name, "setfloating") {
        translate_address("hl.dsp.window.float", rest)
    } else if str_eq(name, "closewindow") {
        translate_address("hl.dsp.window.close", rest)
    } else if str_eq(name, "fullscreen") {
        translate_fullscreen(rest)
    } else if str_eq(name, "movetoworkspacesilent") {
        translate_to_workspace(rest)
    } else if str_eq(name, "movewindowpixel") {
        translate_position(rest)
    } else if str_eq(name, "resizewindowpixel") {
        translate_size(rest)
    } else if str_eq(name, "layoutmsg") {
        let mut out = "hl.dsp.layout(".to_owned();
        let message = lua_quote(rest);
        out.append(message.as_str());
        out.append(")");
        Ok(out)
    } else if str_eq(name, "moveworkspacetomonitor") {
        translate_monitor(rest)
    } else if str_eq(name, "workspace") {
        let mut out = "hl.dsp.workspace(\"".to_owned();
        out.append(rest);
        out.append("\")");
        Ok(out)
    } else if str_eq(name, "exec") {
        let mut out = "hl.dsp.exec_cmd(".to_owned();
        let command = lua_quote(rest);
        out.append(command.as_str());
        out.append(")");
        Ok(out)
    } else {
        Err(TranslateError::UnknownDispatcher(name.to_owned(), rest.to_owned()))
    }
}

/// A dispatcher whose entire argument is a bare `address:0x...` selector.
fn translate_address(function: &str, rest: &str) -> (r: Result<String, TranslateError>)
    ensures
        result_view(r) == address_call(function@, rest@),
{
    if starts_with(rest, "address:") {
        let mut out = function.to_owned();
        out.append("({ window = \"");
        out.append(rest);
        out.append("\" })");
        Ok(out)
    } else {
        Err(TranslateError::NotAnAddress(rest.to_owned()))
    }
}

/// Split `"<leading>,address:0x.."` into the leading positional argument and
/// the full `address:0x..` selector.
fn split_leading_arg_and_address<'a>(s: &'a str) -> (r: Result<
    (&'a str, &'a str),
    TranslateError,
>)
    ensures
        match r {
            Ok((leading, address)) => argument_and_address(s@) == Ok::<
                (Seq<char>, Seq<char>),
                TranslateErrorView,
            >((leading@, address@)),
            Err(e) => argument_and_address(s@) == Err::<
                (Seq<char>, Seq<char>),
                TranslateErrorView,
            >(e@),
        },
{
    match split_once(s, ",") {
        Some((leading, address)) => {
            if starts_with(address, "address:") {
                Ok((leading, address))
            } else {
                Err(TranslateError::NoAddressAfterComma(address.to_owned()))
            }
        },
        None => Err(TranslateError::NoComma(s.to_owned())),
    }
}

fn translate_fullscreen(rest: &str) -> (r: Result<String, TranslateError>)
    ensures
        result_view(r) == fullscreen_call(rest@),
{
    match split_leading_arg_and_address(rest) {
        Ok((mode, selector)) => {
            let mut out = "hl.dsp.window.fullscreen({ window = \"".to_owned();
            out.append(selector);
            out.append("\", mode = ");
            out.append(mode);
            out.append(" })");
            Ok(out)
        },
        Err(e) => Err(e),
    }
}

fn translate_to_workspace(rest: &str) -> (r: Result<String, TranslateError>)
    ensures
        result_view(r) == to_workspace_call(rest@),
{
    match split_leading_arg_and_address(rest) {
        Ok((ws, selector)) => {
            let mut out = "hl.dsp.window.move({ window = \"".to_owned();
            out.append(selector);
            out.append("\", workspace = \"");
            out.append(ws);
            out.append("\" })");
            Ok(out)
        },
        Err(e) => Err(e),
    }
}

/// The absolute position is the default, so a leading `exact` says nothing.
fn translate_position(rest: &str) -> (r: Result<String, TranslateError>)
    ensures
        result_view(r) == position_call(rest@),
{
    let rest = match strip_prefix(rest, "exact ") {
        Some(stripped) => stripped,
        None => rest,
    };
    match rsplit_once(rest, ",address:") {
        Some((xy, selector)) => match split_once(xy, " ") {
            Some((x, y)) => {
                let mut out = "hl.dsp.window.move({ window = \"address:".to_owned();
                out.append(selector);
                out.append("\", x = ");
                out.append(x);
                out.append(", y = ");
                out.append(y);
                out.append(" })");
                Ok(out)
            },
            None => Err(TranslateError::MovePosition(xy.to_owned())),
        },
        None => Err(TranslateError::MoveSelector(rest.to_owned())),
    }
}

fn translate_size(rest: &str) -> (r: Result<String, TranslateError>)
    ensures
        result_view(r) == size_call(rest@),
{
    let (exact, rest) = match strip_prefix(rest, "exact ") {
        Some(stripped) => ("true", stripped),
        None => ("false", rest),
    };
    match rsplit_once(rest, ",address:") {
        Some((wh, selector)) => match split_once(wh, " ") {
            Some((w, h)) => {
                let mut out = "hl.dsp.window.resize({ window = \"address:".to_owned();
                out.append(selector);
                out.append("\", x = ");
                out.append(w);
                out.append(", y = ");
                out.append(h);
                out.append(", exact = ");
                out.append(exact);
                out.append(" })");
                Ok(out)
            },
            None => Err(TranslateError::ResizeSize(wh.to_owned())),
        },
        None => Err(TranslateError::ResizeSelector(rest.to_owned())),
    }
}

fn translate_monitor(rest: &str) -> (r: Result<String, TranslateError>)
    ensures
        result_view(r) == monitor_call(rest@),
{
    match split_once(rest, " ") {
        Some((ws, monitor)) => {
            let mut out = "hl.dsp.workspace.move({ workspace = \"".to_owned();
            out.append(ws);
            out.append("\", monitor = \"");
            out.append(monitor);
            out.append("\" })");
            Ok(out)
        },
        None => Err(TranslateError::NoMonitor(rest.to_owned())),
    }
}

/// Lua string literal, escaping backslashes/quotes.
pub fn lua_quote(s: &str) -> (r: String)
    ensures
        r@ == quoted(s@),
{
    let slashes = replace(s, '\\', "\\\\");
    let inner = replace(slashes.as_str(), '"', "\\\"");
    let mut out = "\"".to_owned();
    out.append(inner.as_str());
    out.append("\"");
    out
}

/// A text with each backslash taken as an escape for what follows it.
pub open spec fn unescaped(s: Seq<char>) -> Seq<char>
    decreases s.len(),
{
    if s.len() == 0 {
        seq![]
    } else if s[0] == '\\' && s.len() >= 2 {
        seq![s[1]] + unescaped(s.skip(2))
    } else {
        seq![s[0]] + unescaped(s.skip(1))
    }
}

/// No quotation mark stands in the text but behind a backslash that escapes
/// it, and no backslash is left at the end.
pub open spec fn is_closed(s: Seq<char>) -> bool
    decreases s.len(),
{
    if s.len() == 0 {
        true
    } else if s[0] == '\\' {
        s.len() >= 2 && is_closed(s.skip(2))
    } else {
        s[0] != '"' && is_closed(s.skip(1))
    }
}

proof fn lemma_closed_concat(a: Seq<char>, b: Seq<char>)
    requires
        is_closed(a),
    ensures
        unescaped(a + b) == unescaped(a) + unescaped(b),
        is_closed(b) ==> is_closed(a + b),
    decreases a.len(),
{
    if a.len() == 0 {
        assert(a + b =~= b);
        assert(unescaped(a) + unescaped(b) =~= unescaped(b));
    } else if a[0] == '\\' {
        lemma_closed_concat(a.skip(2), b);
        assert((a + b).skip(2) =~= a.skip(2) + b);
        assert(unescaped(a + b) =~= unescaped(a) + unescaped(b));
    } else {
        lemma_closed_concat(a.skip(1), b);
        assert((a + b).skip(1) =~= a.skip(1) + b);
        assert(unescaped(a + b) =~= unescaped(a) + unescaped(b));
    }
}

spec fn escape_of(c: char) -> Seq<char> {
    if c == '\\' {
        "\\\\"@
    } else if c == '"' {
        "\\\""@
    } else {
        seq![c]
    }
}

proof fn lemma_replaced_concat(a: Seq<char>, b: Seq<char>, from: char, to: Seq<char>)
    ensures
        replaced(a + b, from, to) == replaced(a, from, to) + replaced(b, from, to),
    decreases b.len(),
{
    if b.len() == 0 {
        assert(a + b =~= a);
        assert(replaced(a, from, to) + replaced(b, from, to) =~= replaced(a, from, to));
    } else {
        lemma_replaced_concat(a, b.drop_last(), from, to);
        assert((a + b).drop_last() =~= a + b.drop_last());
        assert((a + b).last() == b.last());
        assert(replaced(a + b, from, to) =~= replaced(a, from, to) + replaced(b, from, to));
    }
}

proof fn lemma_replaced_single(c: char, from: char, to: Seq<char>)
    ensures
        replaced(seq![c], from, to) == if c == from {
            to
        } else {
            seq![c]
        },
{
    assert(seq![c].drop_last() =~= seq![]);
    assert(replaced(seq![c].drop_last(), from, to) =~= seq![]);
    assert(replaced(seq![c], from, to) =~= if c == from {
        to
    } else {
        seq![c]
    });
}

/// A quoted text is one Lua string: nothing inside ends it early, and reading
/// its escapes gives the text back.
pub proof fn law_quoting_is_faithful(s: Seq<char>)
    ensures
        ({
            let inner = replaced(replaced(s, '\\', "\\\\"@), '"', "\\\""@);
            &&& quoted(s) == "\""@ + inner + "\""@
            &&& is_closed(inner)
            &&& unescaped(inner) == s
        }),
    decreases s.len(),
{
    let slash = "\\\\"@;
    let mark = "\\\""@;
    reveal_strlit("\\\\");
    reveal_strlit("\\\"");
    if s.len() == 0 {
        assert(unescaped(seq![]) =~= s);
    } else {
        let head = s.drop_last();
        let c = s.last();
        law_quoting_is_faithful(head);
        let inner_head = replaced(replaced(head, '\\', slash), '"', mark);
        let step = if c == '\\' {
            slash
        } else {
            seq![c]
        };
        assert(replaced(s, '\\', slash) == replaced(head, '\\', slash) + step);
        lemma_replaced_concat(replaced(head, '\\', slash), step, '"', mark);
        let piece = replaced(step, '"', mark);
        assert(piece =~= escape_of(c)) by {
            if c == '\\' {
                assert(slash =~= seq!['\\'] + seq!['\\']);
                lemma_replaced_concat(seq!['\\'], seq!['\\'], '"', mark);
                lemma_replaced_single('\\', '"', mark);
            } else {
                lemma_replaced_single(c, '"', mark);
            }
        }
        assert(is_closed(piece) && unescaped(piece) =~= seq![c]) by {
            reveal_with_fuel(is_closed, 3);
            reveal_with_fuel(unescaped, 3);
            assert(piece.skip(1).len() == piece.len() - 1);
            if piece.len() == 2 {
                assert(piece.skip(2) =~= seq![]);
            } else {
                assert(piece.skip(1) =~= seq![]);
            }
        }
        lemma_closed_concat(inner_head, piece);
        assert(unescaped(inner_head + piece) =~= s);
    }
}

} // verus!
