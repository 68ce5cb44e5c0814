use kiro_radar::finder::SpecSet;
use kiro_radar::reader::{read_spec_content, read_spec_file};

fn spec_set(
    requirements: Option<&str>,
    design: Option<&str>,
    tasks: Option<&str>,
) -> SpecSet {
    SpecSet {
        name: "test-spec".to_string(),
        requirements: requirements.map(|p| p.to_string()),
        design: design.map(|p| p.to_string()),
        tasks: tasks.map(|p| p.to_string()),
        total_tasks: Some(0),
        completed_tasks: Some(0),
    }
}

#[test]
fn test_read_spec_file_none() {
    let result = read_spec_file(&None, None);
    assert_eq!(result, None);
}

#[test]
fn test_read_spec_file_not_exist() {
    // A recorded path whose read failed resolves to absent.
    let path = Some("/nonexistent/file.md".to_string());
    let result = read_spec_file(&path, None);
    assert_eq!(result, None);
}

#[test]
fn test_read_spec_file_success() {
    let path = Some("test.md".to_string());
    let result = read_spec_file(&path, Some("# Test Content".to_string()));
    assert!(result.is_some());
    assert_eq!(result.unwrap(), "# Test Content");
}

#[test]
fn test_read_spec_content_all_files() {
    let spec_set = spec_set(
        Some("test-spec/requirements.md"),
        Some("test-spec/design.md"),
        Some("test-spec/tasks.md"),
    );

    let content = read_spec_content(
        &spec_set,
        Some("# Requirements".to_string()),
        Some("# Design".to_string()),
        Some("# Tasks".to_string()),
    );

    assert!(content.requirements.is_some());
    assert_eq!(content.requirements.unwrap(), "# Requirements");
    assert!(content.design.is_some());
    assert_eq!(content.design.unwrap(), "# Design");
    assert!(content.tasks.is_some());
    assert_eq!(content.tasks.unwrap(), "# Tasks");
}

#[test]
fn test_read_spec_content_missing_files() {
    let spec_set = spec_set(None, None, None);

    let content = read_spec_content(&spec_set, None, None, None);

    assert!(content.requirements.is_none());
    assert!(content.design.is_none());
    assert!(content.tasks.is_none());
}

#[test]
fn test_read_spec_content_partial_files() {
    let spec_set = spec_set(
        Some("test-spec/requirements.md"),
        None,
        Some("/nonexistent/tasks.md"),
    );

    let content = read_spec_content(
        &spec_set,
        Some("# Requirements".to_string()),
        None,
        None,
    );

    assert!(content.requirements.is_some());
    assert_eq!(content.requirements.unwrap(), "# Requirements");
    assert!(content.design.is_none());
    assert!(content.tasks.is_none());
}

#[test]
fn test_read_spec_content_masks_unrecorded_reads() {
    // A read result for a document without a recorded path is discarded.
    let spec_set = spec_set(None, None, None);

    let content = read_spec_content(
        &spec_set,
        Some("stray".to_string()),
        Some("stray".to_string()),
        Some("stray".to_string()),
    );

    assert!(content.requirements.is_none());
    assert!(content.design.is_none());
    assert!(content.tasks.is_none());
}
