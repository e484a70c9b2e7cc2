//! Bringing the main window up: which calls are made on it, and in what order.
//! A call that fails is never more than a reason to stop.
use vstd::prelude::*;

verus! {

/// A call on the main window.
#[derive(Clone, Copy, Debug, PartialEq, Eq, Structural)]
pub enum WindowCall {
    Unminimize,
    Show,
    Focus,
}

/// The call that follows one that ended in the given way. Showing follows
/// whether or not there was anything to unminimize; focus is asked for only
/// once the window shows.
pub open spec fn next_call(call: WindowCall, succeeded: bool) -> Option<WindowCall> {
    match call {
        WindowCall::Unminimize => Some(WindowCall::Show),
        WindowCall::Show => if succeeded {
            Some(WindowCall::Focus)
        } else {
            None
        },
        WindowCall::Focus => None,
    }
}

/// The first call at startup.
pub open spec fn first_at_startup(start_minimised: bool, window_found: bool) -> Option<WindowCall> {
    if start_minimised || !window_found {
        None
    } else {
        Some(WindowCall::Show)
    }
}

/// The first call when the details are asked for. The window may be hidden.
pub open spec fn first_for_details(window_found: bool) -> Option<WindowCall> {
    if window_found {
        Some(WindowCall::Unminimize)
    } else {
        None
    }
}

impl WindowCall {
    /// The call to make after this one.
    pub fn next(self, succeeded: bool) -> (r: Option<WindowCall>)
        ensures
            r == next_call(self, succeeded),
            r == Some(WindowCall::Focus) <==> self == WindowCall::Show && succeeded,
            r == Some(WindowCall::Show) <==> self == WindowCall::Unminimize,
            r != Some(WindowCall::Unminimize),
    {
        match self {
            WindowCall::Unminimize => Some(WindowCall::Show),
            WindowCall::Show => if succeeded {
                Some(WindowCall::Focus)
            } else {
                None
            },
            WindowCall::Focus => None,
        }
    }
}

/// Begins to show the main window at startup, unless the user wants it to stay
/// in the tray. The window starts out hidden, so nothing flashes up.
pub fn show_main_window_unless_minimised(start_minimised: bool, window_found: bool) -> (r: Option<
    WindowCall,
>)
    ensures
        r == first_at_startup(start_minimised, window_found),
        r is Some <==> !start_minimised && window_found,
        r is Some ==> r == Some(WindowCall::Show),
{
    if start_minimised || !window_found {
        None
    } else {
        Some(WindowCall::Show)
    }
}

/// Begins to bring the main window to the front.
pub fn show_details_window(window_found: bool) -> (r: Option<WindowCall>)
    ensures
        r == first_for_details(window_found),
        r is Some <==> window_found,
        r is Some ==> r == Some(WindowCall::Unminimize),
{
    if window_found {
        Some(WindowCall::Unminimize)
    } else {
        None
    }
}

/// How many calls can still come.
pub open spec fn calls_left(first: Option<WindowCall>) -> nat {
    match first {
        Some(WindowCall::Unminimize) => 3,
        Some(WindowCall::Show) => 2,
        Some(WindowCall::Focus) => 1,
        None => 0,
    }
}

/// The calls that are made from `first` on, when a call succeeds as `outcome`
/// tells.
pub open spec fn calls_from(
    first: Option<WindowCall>,
    outcome: spec_fn(WindowCall) -> bool,
) -> Seq<WindowCall>
    decreases calls_left(first),
{
    match first {
        Some(call) => seq![call] + calls_from(next_call(call, outcome(call)), outcome),
        None => seq![],
    }
}

/// At startup a minimised window is not touched at all. Otherwise, where there
/// is a window, it is shown once, and focus is asked for once, exactly if
/// showing succeeded.
pub proof fn lemma_startup_calls(
    start_minimised: bool,
    window_found: bool,
    outcome: spec_fn(WindowCall) -> bool,
)
    ensures
        calls_from(first_at_startup(start_minimised, window_found), outcome) == (
        if start_minimised || !window_found {
            seq![]
        } else if outcome(WindowCall::Show) {
            seq![WindowCall::Show, WindowCall::Focus]
        } else {
            seq![WindowCall::Show]
        }),
{
    reveal_with_fuel(calls_from, 3);
}

/// When the details are asked for, the window is unminimized and shown once
/// each, in this order, and focus is asked for once, exactly if showing
/// succeeded.
pub proof fn lemma_details_calls(window_found: bool, outcome: spec_fn(WindowCall) -> bool)
    ensures
        calls_from(first_for_details(window_found), outcome) == (if !window_found {
            seq![]
        } else if outcome(WindowCall::Show) {
            seq![WindowCall::Unminimize, WindowCall::Show, WindowCall::Focus]
        } else {
            seq![WindowCall::Unminimize, WindowCall::Show]
        }),
{
    reveal_with_fuel(calls_from, 4);
}

} // verus!
