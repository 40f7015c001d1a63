//! What each key does on each screen of the dashboard.

use vstd::prelude::*;
use crate::app::{
    App, app_wf, current_key, filter_edited, flipped, history_label, loaded_status, moved,
    notice_view, reloaded, selected_target_view, selection_applied, toggled,
};
use crate::logs::{
    log_filter_edited, log_status, next_focus, option_advanced, previous_focus, stream_shown,
};
use crate::app::Request;
use crate::app::ScreenMode;

verus! {

/// A key, as the dashboard reads it.
#[derive(Clone, Copy, Debug, PartialEq, Eq, Structural)]
pub enum Key {
    Char(char),
    Esc,
    Enter,
    Tab,
    Left,
    Right,
    Up,
    Down,
    Backspace,
    Other,
}

/// A key press: the key and whether Control was held.
#[derive(Clone, Copy, Debug, PartialEq, Eq, Structural)]
pub struct KeyPress {
    pub key: Key,
    pub ctrl: bool,
}

/// What the event loop does after a key.
#[derive(Clone, Copy, Debug, PartialEq, Eq, Structural)]
pub enum AppAction {
    /// Go on.
    Continue,
    /// The metrics were reloaded: restart the reload timer.
    Reloaded,
    /// The logs were reloaded: restart the poll timer.
    LogsReloaded,
    /// Leave.
    Quit,
}

/// The action of a key on the log screen.
pub open spec fn log_key_action(k: Key) -> AppAction {
    if k == Key::Char('r') {
        AppAction::LogsReloaded
    } else if k == Key::Char('q') {
        AppAction::Quit
    } else {
        AppAction::Continue
    }
}

/// What a key does on the log screen: Esc goes back to the metrics, `/`
/// opens the log filter, Tab, Right and `l` focus the next pane, Left and `h`
/// the previous one, Down and `j` move the focused list down, Up and `k` up,
/// and `r` loads the host and log names again.
pub open spec fn log_key_effect(old: App, new: App, k: Key) -> bool {
    if k == Key::Esc {
        &&& new.status@ == loaded_status(old.metrics.len() as nat, selected_target_view(old), notice_view(old))
        &&& new == (App {
            log_filter_input_open: false,
            screen: ScreenMode::Metrics,
            status: new.status,
            target_notice: None,
            ..old
        })
    } else if k == Key::Char('/') {
        &&& new.status@ == "filter logs: "@ + old.log_filter_query@
        &&& new == (App { log_filter_input_open: true, status: new.status, ..old })
    } else if k == Key::Tab || k == Key::Right || k == Key::Char('l') {
        &&& new.log_focus == next_focus(old.log_focus)
        &&& new.status@ == "log pane focus: "@ + crate::app::focus_label(new.log_focus)
        &&& new == (App { log_focus: new.log_focus, status: new.status, ..old })
    } else if k == Key::Left || k == Key::Char('h') {
        &&& new.log_focus == previous_focus(old.log_focus)
        &&& new.status@ == "log pane focus: "@ + crate::app::focus_label(new.log_focus)
        &&& new == (App { log_focus: new.log_focus, status: new.status, ..old })
    } else if k == Key::Down || k == Key::Char('j') {
        option_advanced(old, new, 1)
    } else if k == Key::Up || k == Key::Char('k') {
        option_advanced(old, new, -1)
    } else if k == Key::Char('r') {
        if old.loki is None {
            stream_shown(old, new)
        } else {
            new == (App { pending: Some(Request::FetchLogHosts), ..old })
        }
    } else {
        new == old
    }
}

/// Handles a key on the log screen.
pub fn handle_log_key(app: &mut App, press: KeyPress) -> (r: AppAction)
    requires
        app_wf(*old(app)),
    ensures
        app_wf(*final(app)),
        r == log_key_action(press.key),
        log_key_effect(*old(app), *final(app), press.key),
{
    match press.key {
        Key::Esc => app.close_logs(),
        Key::Char('/') => app.open_log_filter_input(),
        Key::Tab | Key::Right | Key::Char('l') => app.next_log_focus(),
        Key::Left | Key::Char('h') => app.previous_log_focus(),
        Key::Down | Key::Char('j') => app.next_log_option(),
        Key::Up | Key::Char('k') => app.previous_log_option(),
        Key::Char('r') => {
            app.reload_logs_screen();
            return AppAction::LogsReloaded;
        },
        Key::Char('q') => {
            return AppAction::Quit;
        },
        _ => {},
    }
    AppAction::Continue
}

/// What a key does in the target picker: Esc closes it, Enter puts the
/// filter under its cursor in effect, Down and `j` move its cursor down, Up
/// and `k` up.
pub open spec fn picker_key_effect(old: App, new: App, k: Key) -> bool {
    if k == Key::Esc {
        &&& new.status@ == loaded_status(old.metrics.len() as nat, selected_target_view(old), notice_view(old))
        &&& new == (App { target_picker_open: false, status: new.status, target_notice: None, ..old })
    } else if k == Key::Enter {
        selection_applied(App { target_selected: old.target_cursor, target_picker_open: false, ..old }, new)
    } else if k == Key::Down || k == Key::Char('j') {
        new == (App {
            target_cursor: moved(old.target_cursor, old.target_options.len(), 1) as usize,
            ..old
        })
    } else if k == Key::Up || k == Key::Char('k') {
        new == (App {
            target_cursor: moved(old.target_cursor, old.target_options.len(), -1) as usize,
            ..old
        })
    } else {
        new == old
    }
}

/// Handles a key in the target picker.
pub fn handle_target_picker_key(app: &mut App, press: KeyPress) -> (r: AppAction)
    requires
        app_wf(*old(app)),
    ensures
        app_wf(*final(app)),
        r == if press.key == Key::Char('q') {
            AppAction::Quit
        } else {
            AppAction::Continue
        },
        picker_key_effect(*old(app), *final(app), press.key),
{
    match press.key {
        Key::Esc => app.close_target_picker(),
        Key::Enter => app.picker_apply(),
        Key::Down | Key::Char('j') => app.picker_next(),
        Key::Up | Key::Char('k') => app.picker_previous(),
        Key::Char('q') => {
            return AppAction::Quit;
        },
        _ => {},
    }
    AppAction::Continue
}

/// What a key does while the metric filter is edited: Esc and Enter close
/// the input, Backspace deletes a character, Control-U clears the filter,
/// and any other character is added to it.
pub open spec fn filter_key_effect(old: App, new: App, press: KeyPress) -> bool {
    match press.key {
        Key::Esc | Key::Enter => {
            &&& new.status@ == loaded_status(old.metrics.len() as nat, selected_target_view(old), notice_view(old))
            &&& new == (App { filter_input_open: false, status: new.status, target_notice: None, ..old })
        },
        Key::Backspace => {
            &&& filter_edited(
                old,
                new,
                if old.filter_query@.len() > 0 {
                    old.filter_query@.drop_last()
                } else {
                    old.filter_query@
                },
            )
            &&& new.status@ == "filter metrics: "@ + new.filter_query@
        },
        Key::Char(c) => if c == 'u' && press.ctrl {
            &&& filter_edited(old, new, seq![])
            &&& new.status@ == "filter cleared"@
        } else {
            &&& filter_edited(old, new, old.filter_query@.push(c))
            &&& new.status@ == "filter metrics: "@ + new.filter_query@
        },
        _ => new == old,
    }
}

/// Handles a key while the metric filter is edited.
pub fn handle_filter_key(app: &mut App, press: KeyPress) -> (r: AppAction)
    requires
        app_wf(*old(app)),
    ensures
        app_wf(*final(app)),
        r == AppAction::Continue,
        filter_key_effect(*old(app), *final(app), press),
{
    match press.key {
        Key::Esc | Key::Enter => app.close_filter_input(),
        Key::Backspace => app.pop_filter_char(),
        Key::Char(c) => {
            if c == 'u' && press.ctrl {
                app.clear_filter();
            } else {
                app.push_filter_char(c);
            }
        },
        _ => {},
    }
    AppAction::Continue
}

/// What a key does while the log filter is edited: Esc and Enter close the
/// input, Backspace deletes a character, Control-U clears the filter, and
/// any other character is added to it.
pub open spec fn log_filter_key_effect(old: App, new: App, press: KeyPress) -> bool {
    match press.key {
        Key::Esc | Key::Enter => {
            &&& new.status@ == log_status(old)
            &&& new == (App { log_filter_input_open: false, status: new.status, ..old })
        },
        Key::Backspace => {
            &&& log_filter_edited(
                old,
                new,
                if old.log_filter_query@.len() > 0 {
                    old.log_filter_query@.drop_last()
                } else {
                    old.log_filter_query@
                },
            )
            &&& new.status@ == "filter logs: "@ + new.log_filter_query@
        },
        Key::Char(c) => if c == 'u' && press.ctrl {
            &&& log_filter_edited(old, new, seq![])
            &&& new.status@ == "log filter cleared"@
        } else {
            &&& log_filter_edited(old, new, old.log_filter_query@.push(c))
            &&& new.status@ == "filter logs: "@ + new.log_filter_query@
        },
        _ => new == old,
    }
}

/// Handles a key while the log filter is edited.
pub fn handle_log_filter_key(app: &mut App, press: KeyPress) -> (r: AppAction)
    requires
        app_wf(*old(app)),
    ensures
        app_wf(*final(app)),
        r == AppAction::Continue,
        log_filter_key_effect(*old(app), *final(app), press),
{
    match press.key {
        Key::Esc | Key::Enter => app.close_log_filter_input(),
        Key::Backspace => app.pop_log_filter_char(),
        Key::Char(c) => {
            if c == 'u' && press.ctrl {
                app.clear_log_filter();
            } else {
                app.push_log_filter_char(c);
            }
        },
        _ => {},
    }
    AppAction::Continue
}

/// The action of a key on the metric screen.
pub open spec fn main_key_action(k: Key) -> AppAction {
    if k == Key::Char('q') {
        AppAction::Quit
    } else if k == Key::Char('l') {
        AppAction::LogsReloaded
    } else if k == Key::Char('r') {
        AppAction::Reloaded
    } else {
        AppAction::Continue
    }
}

/// What a key does on the metric screen: Down and `j` move the cursor down,
/// Up and `k` up, Space toggles the selection of the metric under the
/// cursor, `c` clears the selection, `h` switches the history view, `[` and
/// `]` put the previous and next target in effect, `t` opens the target
/// picker, `l` the log screen, `/` the filter input, and `r` reloads.
pub open spec fn main_key_effect(old: App, new: App, k: Key) -> bool {
    if k == Key::Down || k == Key::Char('j') {
        new == (App { cursor: moved(old.cursor, old.metrics.len(), 1) as usize, ..old })
    } else if k == Key::Up || k == Key::Char('k') {
        new == (App { cursor: moved(old.cursor, old.metrics.len(), -1) as usize, ..old })
    } else if k == Key::Char(' ') {
        match current_key(old) {
            None => new == old,
            Some(key) => {
                let name = old.metrics@[old.cursor as int].name@;
                &&& new.selected_metrics.deep_view() == toggled(old.selected_metrics.deep_view(), key)
                &&& new.status@ == if old.selected_metrics.deep_view().contains(key) {
                    "unselected "@ + name
                } else {
                    "selected "@ + name
                }
                &&& new == (App { selected_metrics: new.selected_metrics, status: new.status, ..old })
            },
        }
    } else if k == Key::Char('c') {
        &&& new.selected_metrics@.len() == 0
        &&& new.status@ == "selection cleared"@
        &&& new == (App { selected_metrics: new.selected_metrics, status: new.status, ..old })
    } else if k == Key::Char('h') {
        &&& new.history_view == flipped(old.history_view)
        &&& new.status@ == "history view: "@ + history_label(new.history_view)
        &&& new == (App { history_view: new.history_view, status: new.status, ..old })
    } else if k == Key::Char('[') || k == Key::Char(']') {
        let w = moved(old.target_selected, old.target_options.len(), if k == Key::Char(']') { 1 } else { -1 })
            as usize;
        selection_applied(App { target_selected: w, target_cursor: w, ..old }, new)
    } else if k == Key::Char('t') {
        &&& new.status@ == "select target and press Enter"@
        &&& new == (App {
            target_picker_open: true,
            target_cursor: old.target_selected,
            status: new.status,
            ..old
        })
    } else if k == Key::Char('l') {
        if old.loki is None {
            &&& new.status@ == "loki is not configured"@
            &&& new == (App { status: new.status, ..old })
        } else {
            &&& new.status@ == "loading loki labels"@
            &&& new == (App {
                filter_input_open: false,
                log_filter_input_open: false,
                target_picker_open: false,
                screen: ScreenMode::Logs,
                status: new.status,
                pending: Some(Request::FetchLogHosts),
                ..old
            })
        }
    } else if k == Key::Char('/') {
        &&& new.status@ == "filter metrics: "@ + old.filter_query@
        &&& new == (App { filter_input_open: true, status: new.status, ..old })
    } else if k == Key::Char('r') {
        reloaded(old, new)
    } else {
        new == old
    }
}

/// Handles a key on the metric screen.
pub fn handle_main_key(app: &mut App, press: KeyPress) -> (r: AppAction)
    requires
        app_wf(*old(app)),
    ensures
        app_wf(*final(app)),
        r == main_key_action(press.key),
        main_key_effect(*old(app), *final(app), press.key),
{
    match press.key {
        Key::Char('q') => {
            return AppAction::Quit;
        },
        Key::Down | Key::Char('j') => app.next(),
        Key::Up | Key::Char('k') => app.previous(),
        Key::Char(' ') => app.toggle_metric_selection(),
        Key::Char('c') => app.clear_metric_selection(),
        Key::Char('h') => app.toggle_history_view(),
        Key::Char('[') => app.previous_target(),
        Key::Char(']') => app.next_target(),
        Key::Char('t') => app.open_target_picker(),
        Key::Char('l') => {
            app.open_logs();
            return AppAction::LogsReloaded;
        },
        Key::Char('/') => app.open_filter_input(),
        Key::Char('r') => {
            app.reload();
            return AppAction::Reloaded;
        },
        _ => {},
    }
    AppAction::Continue
}

/// Which handler a key goes to: the log filter input, the log screen, the
/// target picker, the metric filter input, or the metric screen, in that
/// order of precedence.
pub open spec fn key_effect(old: App, new: App, press: KeyPress, r: AppAction) -> bool {
    if old.screen == ScreenMode::Logs && old.log_filter_input_open {
        r == AppAction::Continue && log_filter_key_effect(old, new, press)
    } else if old.screen == ScreenMode::Logs {
        r == log_key_action(press.key) && log_key_effect(old, new, press.key)
    } else if old.target_picker_open {
        r == (if press.key == Key::Char('q') {
            AppAction::Quit
        } else {
            AppAction::Continue
        }) && picker_key_effect(old, new, press.key)
    } else if old.filter_input_open {
        r == AppAction::Continue && filter_key_effect(old, new, press)
    } else {
        r == main_key_action(press.key) && main_key_effect(old, new, press.key)
    }
}

/// Handles a key press with the handler of the screen and input in front.
pub fn handle_key(app: &mut App, press: KeyPress) -> (r: AppAction)
    requires
        app_wf(*old(app)),
    ensures
        app_wf(*final(app)),
        key_effect(*old(app), *final(app), press, r),
{
    if app.is_logs_screen() && app.log_filter_input_open {
        handle_log_filter_key(app, press)
    } else if app.is_logs_screen() {
        handle_log_key(app, press)
    } else if app.target_picker_open {
        handle_target_picker_key(app, press)
    } else if app.filter_input_open {
        handle_filter_key(app, press)
    } else {
        handle_main_key(app, press)
    }
}

} // verus!
