//! When the event loop reloads metrics and polls logs, and what each key
//! action means for its timers.

use vstd::prelude::*;
use crate::app::{App, ScreenMode};
use crate::config::DisplayConfig;
use crate::keys::AppAction;

verus! {

/// Seconds between automatic metric reloads: the configured value, else 15.
pub open spec fn refresh_value(d: DisplayConfig) -> u64 {
    match d.refresh_secs {
        Some(n) => n,
        None => 15,
    }
}

/// What is due, given the nanoseconds since the last reload and since the
/// last log poll: a reload once the refresh interval has passed, and a log
/// poll once the poll interval has passed while the log screen is shown.
pub fn due_work(app: &App, since_reload_ns: u128, since_poll_ns: u128) -> (r: (bool, bool))
    ensures
        r.0 == (since_reload_ns >= refresh_value(app.display) * 1_000_000_000),
        r.1 == (app.screen == ScreenMode::Logs && since_poll_ns >= app.loki_poll_secs * 1_000_000_000),
{
    let refresh = app.refresh_secs();
    let poll = app.log_poll_secs();
    assert(refresh * 1_000_000_000 <= u128::MAX) by (nonlinear_arith)
        requires
            refresh <= u64::MAX,
    ;
    assert(poll * 1_000_000_000 <= u128::MAX) by (nonlinear_arith)
        requires
            poll <= u64::MAX,
    ;
    let reload_ns = (refresh as u128) * 1_000_000_000;
    let poll_ns = (poll as u128) * 1_000_000_000;
    (since_reload_ns >= reload_ns, app.is_logs_screen() && since_poll_ns >= poll_ns)
}

/// What a key action means for the event loop: whether the reload timer
/// restarts, whether the log poll timer restarts, and whether the loop ends.
pub fn after_action(a: AppAction) -> (r: (bool, bool, bool))
    ensures
        r == (a == AppAction::Reloaded, a == AppAction::LogsReloaded, a == AppAction::Quit),
{
    match a {
        AppAction::Continue => (false, false, false),
        AppAction::Reloaded => (true, false, false),
        AppAction::LogsReloaded => (false, true, false),
        AppAction::Quit => (false, false, true),
    }
}

} // verus!
