use kiro_radar::app::{App, ViewMode};
use kiro_radar::finder::SpecSet;
use kiro_radar::ui::{calculate_max_scroll, overall_progress};

fn counted_spec(name: &str, total: Option<usize>, completed: Option<usize>) -> SpecSet {
    SpecSet {
        name: name.to_string(),
        requirements: None,
        design: None,
        tasks: None,
        total_tasks: total,
        completed_tasks: completed,
    }
}

#[test]
fn test_max_scroll_long_document() {
    let mut app = App::new(vec![counted_spec("a", Some(0), Some(0))]);
    app.enter_detail_view();

    // Thirty lines shown twenty at a time leave ten below the fold.
    let text = "line\n".repeat(30);
    assert_eq!(calculate_max_scroll(&app, &Some(text), 20), 10);
}

#[test]
fn test_max_scroll_short_document() {
    let mut app = App::new(vec![counted_spec("a", Some(0), Some(0))]);
    app.enter_detail_view();

    assert_eq!(calculate_max_scroll(&app, &Some("one\ntwo".to_string()), 20), 0);
    assert_eq!(calculate_max_scroll(&app, &Some(String::new()), 20), 0);
}

#[test]
fn test_max_scroll_absent_document() {
    let mut app = App::new(vec![counted_spec("a", Some(0), Some(0))]);
    app.enter_detail_view();

    assert_eq!(calculate_max_scroll(&app, &None, 20), 0);
}

#[test]
fn test_max_scroll_list_view_is_zero() {
    let app = App::new(vec![counted_spec("a", Some(0), Some(0))]);

    let text = "line\n".repeat(30);
    assert_eq!(calculate_max_scroll(&app, &Some(text), 5), 0);
}

#[test]
fn test_max_scroll_invalid_index_is_zero() {
    let mut app = App::new(vec![counted_spec("a", Some(0), Some(0))]);
    app.view_mode = ViewMode::Detail { spec_index: 4 };

    let text = "line\n".repeat(30);
    assert_eq!(calculate_max_scroll(&app, &Some(text), 5), 0);
}

#[test]
fn test_max_scroll_counts_final_unterminated_line() {
    let mut app = App::new(vec![counted_spec("a", Some(0), Some(0))]);
    app.enter_detail_view();

    // Three lines, the last without a newline.
    assert_eq!(calculate_max_scroll(&app, &Some("a\nb\nc".to_string()), 1), 2);
}

#[test]
fn test_overall_progress_sums_counts() {
    let specs = vec![
        counted_spec("a", Some(10), Some(2)),
        counted_spec("b", Some(5), Some(3)),
        counted_spec("c", None, None),
    ];

    assert_eq!(overall_progress(&specs), (15, 5));
}

#[test]
fn test_overall_progress_empty() {
    assert_eq!(overall_progress(&Vec::new()), (0, 0));
}

#[test]
fn test_overall_progress_saturates() {
    let specs = vec![
        counted_spec("a", Some(usize::MAX), Some(1)),
        counted_spec("b", Some(3), Some(2)),
    ];

    assert_eq!(overall_progress(&specs), (usize::MAX, 3));
}
