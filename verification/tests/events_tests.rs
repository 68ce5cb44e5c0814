use kiro_radar::app::{App, DetailTab, ViewMode};
use kiro_radar::events::{handle_detail_view_keys, handle_list_view_keys, on_key_event, quit, KeyPress};
use kiro_radar::finder::SpecSet;

fn test_spec(name: &str) -> SpecSet {
    SpecSet {
        name: name.to_string(),
        requirements: None,
        design: None,
        tasks: None,
        total_tasks: None,
        completed_tasks: None,
    }
}

#[test]
fn test_quit_stops_session() {
    let mut app = App::new(vec![test_spec("a")]);
    app.running = true;

    quit(&mut app);

    assert!(!app.running);
    assert_eq!(app.selected_index, Some(0));
}

#[test]
fn test_list_view_key_bindings() {
    let mut app = App::new(vec![test_spec("a"), test_spec("b")]);

    handle_list_view_keys(&mut app, KeyPress::Down);
    assert_eq!(app.selected_index, Some(1));

    handle_list_view_keys(&mut app, KeyPress::Up);
    assert_eq!(app.selected_index, Some(0));

    handle_list_view_keys(&mut app, KeyPress::Enter);
    assert_eq!(app.view_mode, ViewMode::Detail { spec_index: 0 });

    app.running = true;
    handle_list_view_keys(&mut app, KeyPress::Quit);
    assert!(!app.running);
}

#[test]
fn test_detail_view_key_bindings() {
    let mut app = App::new(vec![test_spec("a")]);
    app.enter_detail_view();

    handle_detail_view_keys(&mut app, KeyPress::Down, 2);
    assert_eq!(app.detail_scroll, 1);
    handle_detail_view_keys(&mut app, KeyPress::Down, 2);
    handle_detail_view_keys(&mut app, KeyPress::Down, 2);
    assert_eq!(app.detail_scroll, 2);

    handle_detail_view_keys(&mut app, KeyPress::Up, 2);
    assert_eq!(app.detail_scroll, 1);

    handle_detail_view_keys(&mut app, KeyPress::Tab, 2);
    assert_eq!(app.active_tab, DetailTab::Design);

    handle_detail_view_keys(&mut app, KeyPress::Esc, 2);
    assert_eq!(app.view_mode, ViewMode::List);
    assert_eq!(app.detail_scroll, 0);

    app.running = true;
    handle_detail_view_keys(&mut app, KeyPress::Quit, 2);
    assert!(!app.running);
}

#[test]
fn test_on_key_event_dispatches_by_view() {
    let mut app = App::new(vec![test_spec("a"), test_spec("b")]);

    // In the list view Down moves the selection.
    on_key_event(&mut app, KeyPress::Down, 9);
    assert_eq!(app.selected_index, Some(1));
    assert_eq!(app.detail_scroll, 0);

    // In the detail view the same key scrolls.
    on_key_event(&mut app, KeyPress::Enter, 9);
    on_key_event(&mut app, KeyPress::Down, 9);
    assert_eq!(app.detail_scroll, 1);
    assert_eq!(app.selected_index, Some(1));
}

#[test]
fn test_unbound_key_is_noop() {
    let mut app = App::new(vec![test_spec("a")]);
    app.running = true;

    on_key_event(&mut app, KeyPress::Other, 5);

    assert!(app.running);
    assert_eq!(app.selected_index, Some(0));
    assert_eq!(app.view_mode, ViewMode::List);
    assert_eq!(app.detail_scroll, 0);
}

#[test]
fn test_enter_is_noop_on_empty_collection() {
    let mut app = App::new(Vec::new());

    on_key_event(&mut app, KeyPress::Enter, 0);

    assert_eq!(app.view_mode, ViewMode::List);
    assert_eq!(app.selected_index, None);
}
