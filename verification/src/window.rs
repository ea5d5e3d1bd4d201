//! Opening a window: what to try, what to report and which status to return.

use vstd::prelude::*;
use vstd::string::*;

use crate::abi::{GPUI_STATUS_INTERNAL_PANIC, GPUI_STATUS_INVALID_HANDLE, GPUI_STATUS_OK};
use crate::reader::Float32;

verus! {

/// Which attempt at opening a window is under way.
#[derive(Clone, Copy, Debug, PartialEq, Eq, Structural)]
pub enum Attempt {
    First,
    /// After the Wayland display was taken out of the environment.
    Retry,
}

/// How an attempt ended.
#[derive(Clone, Copy, Debug, PartialEq, Eq, Structural)]
pub enum Outcome {
    /// The window was opened and closed again.
    Closed,
    /// The attempt panicked.
    Panicked,
}

/// What to do next.
#[derive(Clone, Copy, Debug, PartialEq, Eq, Structural)]
pub enum WindowStep {
    /// Open a window of this size on the tree of a view.
    Open { view: usize, width: Float32, height: Float32 },
    /// Report the panic, take the Wayland display out of the environment and
    /// try once more.
    RetryWithoutWayland,
    /// Report the panic and return the status.
    Fail(i32),
    /// Return the status.
    Done(i32),
}

/// How a run of a window starts. A negative view is refused before anything is
/// started.
pub fn gpui_run_window(view: i32, width: Float32, height: Float32) -> (step: WindowStep)
    ensures
        step == if view < 0 {
            WindowStep::Done(GPUI_STATUS_INVALID_HANDLE)
        } else {
            WindowStep::Open { view: view as usize, width, height }
        },
{
    if view < 0 {
        WindowStep::Done(GPUI_STATUS_INVALID_HANDLE)
    } else {
        WindowStep::Open { view: view as usize, width, height }
    }
}

/// What follows an attempt. `wayland` says whether a Wayland display is in the
/// environment.
pub open spec fn after_attempt(attempt: Attempt, outcome: Outcome, wayland: bool) -> WindowStep {
    match (outcome, attempt) {
        (Outcome::Closed, _) => WindowStep::Done(GPUI_STATUS_OK),
        (Outcome::Panicked, Attempt::First) => if wayland {
            WindowStep::RetryWithoutWayland
        } else {
            WindowStep::Fail(GPUI_STATUS_INTERNAL_PANIC)
        },
        (Outcome::Panicked, Attempt::Retry) => WindowStep::Fail(GPUI_STATUS_INTERNAL_PANIC),
    }
}

/// What follows an attempt.
pub fn run_window_with_fallback(attempt: Attempt, outcome: Outcome, wayland: bool) -> (step:
    WindowStep)
    ensures
        step == after_attempt(attempt, outcome, wayland),
{
    match (outcome, attempt) {
        (Outcome::Closed, _) => WindowStep::Done(GPUI_STATUS_OK),
        (Outcome::Panicked, Attempt::First) => if wayland {
            WindowStep::RetryWithoutWayland
        } else {
            WindowStep::Fail(GPUI_STATUS_INTERNAL_PANIC)
        },
        (Outcome::Panicked, Attempt::Retry) => WindowStep::Fail(GPUI_STATUS_INTERNAL_PANIC),
    }
}

/// What a panic of an attempt is reported as.
pub open spec fn panic_context(attempt: Attempt, wayland: bool) -> Seq<char> {
    match attempt {
        Attempt::First => if wayland {
            "gpui_run_window (Wayland attempt)"@
        } else {
            "gpui_run_window"@
        },
        Attempt::Retry => "gpui_run_window (X11 retry)"@,
    }
}

/// What a panic of an attempt is reported as.
pub fn attempt_context(attempt: Attempt, wayland: bool) -> (context: &'static str)
    ensures
        context@ == panic_context(attempt, wayland),
{
    match attempt {
        Attempt::First => if wayland {
            "gpui_run_window (Wayland attempt)"
        } else {
            "gpui_run_window"
        },
        Attempt::Retry => "gpui_run_window (X11 retry)",
    }
}

/// The status an exported function returns: its own, or that of a caught panic.
pub fn ffi_export(status: Option<i32>) -> (returned: i32)
    ensures
        returned == match status {
            Some(s) => s,
            None => GPUI_STATUS_INTERNAL_PANIC,
        },
{
    match status {
        Some(s) => s,
        None => GPUI_STATUS_INTERNAL_PANIC,
    }
}

/// The message of a panic: the payload if it is a string of either kind.
pub open spec fn message_of(literal: Option<Seq<char>>, owned: Option<Seq<char>>) -> Seq<char> {
    match (literal, owned) {
        (Some(message), _) => message,
        (None, Some(message)) => message,
        (None, None) => "non-string panic payload"@,
    }
}

/// The characters of a borrowed string that may be absent.
pub open spec fn str_chars(s: Option<&str>) -> Option<Seq<char>> {
    match s {
        Some(s) => Some(s@),
        None => None,
    }
}

/// The line that reports a panic. The payload of a panic is a string literal,
/// an owned string or something else.
pub fn report_panic(context: &str, literal: Option<&str>, owned: Option<&str>) -> (line: String)
    ensures
        line@ == "gpui-sys: panic in "@ + context@ + ": "@ + message_of(
            str_chars(literal),
            str_chars(owned),
        ),
{
    let message = match (literal, owned) {
        (Some(message), _) => message,
        (None, Some(message)) => message,
        (None, None) => "non-string panic payload",
    };
    "gpui-sys: panic in ".to_owned().concat(context).concat(": ").concat(message)
}

/// The status that a run of a window ends with, given how the attempts end.
pub open spec fn run_status(view: i32, first: Outcome, wayland: bool, retry: Outcome) -> i32 {
    if view < 0 {
        GPUI_STATUS_INVALID_HANDLE
    } else {
        match after_attempt(Attempt::First, first, wayland) {
            WindowStep::RetryWithoutWayland => match after_attempt(Attempt::Retry, retry, false) {
                WindowStep::Done(status) => status,
                WindowStep::Fail(status) => status,
                _ => arbitrary(),
            },
            WindowStep::Done(status) => status,
            WindowStep::Fail(status) => status,
            _ => arbitrary(),
        }
    }
}

/// A window is opened at most twice: the second attempt comes only after a
/// panic under Wayland, and whatever happens to it ends the run. The run ends
/// well exactly when an attempt did.
pub proof fn law_window_run_ends(view: i32, first: Outcome, wayland: bool, retry: Outcome)
    requires
        view >= 0,
    ensures
        after_attempt(Attempt::First, first, wayland) is RetryWithoutWayland <==> first is Panicked
            && wayland,
        after_attempt(Attempt::Retry, retry, wayland) !is RetryWithoutWayland,
        run_status(view, first, wayland, retry) == if first is Closed || (wayland
            && retry is Closed) {
            GPUI_STATUS_OK
        } else {
            GPUI_STATUS_INTERNAL_PANIC
        },
{
}

/// An attempt that ends well ends the run well. One that panics is tried again
/// exactly when it was the first and a Wayland display is in the environment,
/// and otherwise ends the run with the status of a caught panic.
pub proof fn law_attempts(attempt: Attempt, outcome: Outcome, wayland: bool)
    ensures
        outcome is Closed ==> after_attempt(attempt, outcome, wayland) == WindowStep::Done(0i32),
        outcome is Panicked && attempt is First && wayland ==> after_attempt(
            attempt,
            outcome,
            wayland,
        ) is RetryWithoutWayland,
        outcome is Panicked && !(attempt is First && wayland) ==> after_attempt(
            attempt,
            outcome,
            wayland,
        ) == WindowStep::Fail(-4i32),
{
}

/// A panic is reported with its own message wherever it has one, whatever the
/// message is.
pub proof fn law_panic_message(literal: Option<Seq<char>>, owned: Option<Seq<char>>)
    ensures
        literal matches Some(m) ==> message_of(literal, owned) == m,
        literal is None ==> (owned matches Some(m) ==> message_of(literal, owned) == m),
        literal is None && owned is None ==> message_of(literal, owned)
            == "non-string panic payload"@,
{
}

/// A retry is reported as one without Wayland; a first attempt is reported with
/// Wayland exactly when it was made with it. Every report names the call.
pub proof fn law_panic_contexts(attempt: Attempt, wayland: bool)
    ensures
        attempt is Retry ==> panic_context(attempt, wayland) == "gpui_run_window (X11 retry)"@,
        attempt is First && wayland ==> panic_context(attempt, wayland)
            == "gpui_run_window (Wayland attempt)"@,
        attempt is First && !wayland ==> panic_context(attempt, wayland) == "gpui_run_window"@,
        "gpui_run_window"@.is_prefix_of(panic_context(attempt, wayland)),
{
    reveal_strlit("gpui_run_window");
    reveal_strlit("gpui_run_window (X11 retry)");
    reveal_strlit("gpui_run_window (Wayland attempt)");
}

} // verus!
