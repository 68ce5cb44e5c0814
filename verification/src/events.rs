//! Key dispatch: one decoded key press drives one transition of the
//! navigation state machine, according to the current view.
//!
//! Decoding raw terminal events into a [`KeyPress`] is the event loop's
//! business; so is supplying the scroll bound, which depends on the
//! document shown and the terminal height at that moment.

use crate::app::{App, ViewMode};
use vstd::prelude::*;

verus! {

/// One decoded key press.  `Quit` stands for `q` and Ctrl-C, `Up` for the
/// up arrow and `k`, `Down` for the down arrow and `j`; `Other` is any key
/// without a binding.
#[derive(Debug, Clone, Copy, PartialEq, Eq, Structural)]
pub enum KeyPress {
    Quit,
    Up,
    Down,
    Enter,
    Esc,
    Tab,
    Other,
}

/// The session after the quit intent: it stops running, nothing else
/// changes.
pub open spec fn spec_quit(a: App) -> App {
    App { running: false, ..a }
}

/// The transition one key drives in the list view.
pub open spec fn spec_list_view_key(a: App, key: KeyPress) -> App {
    match key {
        KeyPress::Quit => spec_quit(a),
        KeyPress::Down => App::spec_next_item(a),
        KeyPress::Up => App::spec_previous_item(a),
        KeyPress::Enter => App::spec_enter_detail(a),
        _ => a,
    }
}

/// The transition one key drives in the detail view.
pub open spec fn spec_detail_view_key(a: App, key: KeyPress, max_scroll: usize) -> App {
    match key {
        KeyPress::Quit => spec_quit(a),
        KeyPress::Esc => App::spec_exit_detail(a),
        KeyPress::Tab => App::spec_next_tab_state(a),
        KeyPress::Down => App::spec_scroll_down(a, max_scroll),
        KeyPress::Up => App::spec_scroll_up(a),
        _ => a,
    }
}

/// The transition one key drives, whatever the view.
pub open spec fn spec_on_key(a: App, key: KeyPress, max_scroll: usize) -> App {
    match a.view_mode {
        ViewMode::List => spec_list_view_key(a, key),
        ViewMode::Detail { .. } => spec_detail_view_key(a, key, max_scroll),
    }
}

/// Ends the session: the event loop stops at its next turn.
pub fn quit(app: &mut App)
    ensures
        *final(app) == spec_quit(*old(app)),
{
    app.running = false;
}

/// Handles one key press in the list view.
pub fn handle_list_view_keys(app: &mut App, key: KeyPress)
    requires
        old(app).wf(),
    ensures
        *final(app) == spec_list_view_key(*old(app), key),
        final(app).wf(),
{
    match key {
        KeyPress::Quit => quit(app),
        KeyPress::Down => app.next_item(),
        KeyPress::Up => app.previous_item(),
        KeyPress::Enter => app.enter_detail_view(),
        _ => {},
    }
}

/// Handles one key press in the detail view.  `max_scroll` is the scroll
/// bound of the document shown, computed by the renderer.
pub fn handle_detail_view_keys(app: &mut App, key: KeyPress, max_scroll: usize)
    requires
        old(app).wf(),
    ensures
        *final(app) == spec_detail_view_key(*old(app), key, max_scroll),
        final(app).wf(),
{
    match key {
        KeyPress::Quit => quit(app),
        KeyPress::Esc => app.exit_detail_view(),
        KeyPress::Tab => app.next_tab(),
        KeyPress::Down => app.scroll_down(max_scroll),
        KeyPress::Up => app.scroll_up(),
        _ => {},
    }
}

/// Dispatches one key press according to the current view.
pub fn on_key_event(app: &mut App, key: KeyPress, max_scroll: usize)
    requires
        old(app).wf(),
    ensures
        *final(app) == spec_on_key(*old(app), key, max_scroll),
        final(app).wf(),
{
    match &app.view_mode {
        ViewMode::List => handle_list_view_keys(app, key),
        ViewMode::Detail { .. } => handle_detail_view_keys(app, key, max_scroll),
    }
}

} // verus!
