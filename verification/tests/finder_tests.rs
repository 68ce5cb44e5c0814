use kiro_radar::finder::{find_all_specs, SpecDirEntry};

fn entry(name: &str, is_dir: bool, has_requirements: bool, tasks: Option<&str>) -> SpecDirEntry {
    let base = format!(".kiro/specs/{}", name);
    SpecDirEntry {
        name: name.to_string(),
        is_dir,
        requirements_path: format!("{}/requirements.md", base),
        requirements_exists: has_requirements,
        design_path: format!("{}/design.md", base),
        design_exists: false,
        tasks_path: format!("{}/tasks.md", base),
        tasks_exists: tasks.is_some(),
        tasks_content: tasks.map(|t| t.to_string()),
    }
}

#[test]
fn test_find_all_specs_empty() {
    let result = find_all_specs(Vec::new());
    assert_eq!(result.len(), 0);
}

#[test]
fn test_find_all_specs_multiple() {
    // Discovered in creation order: user-auth first, dashboard second.
    let entries = vec![
        entry("user-auth", true, true, None),
        entry("dashboard", true, true, None),
    ];

    let result = find_all_specs(entries);

    assert_eq!(result.len(), 2);

    // sort check
    assert_eq!(result[0].name, "dashboard");
    assert_eq!(result[1].name, "user-auth");
}

#[test]
fn test_find_all_specs_order_independent() {
    // The same two specs handed over in either listing order sort alike.
    let one = find_all_specs(vec![
        entry("dashboard", true, true, None),
        entry("user-auth", true, true, None),
    ]);
    let other = find_all_specs(vec![
        entry("user-auth", true, true, None),
        entry("dashboard", true, true, None),
    ]);

    assert_eq!(one.len(), 2);
    assert_eq!(other.len(), 2);
    assert_eq!(one[0].name, other[0].name);
    assert_eq!(one[1].name, other[1].name);
    assert_eq!(one[0].name, "dashboard");
}

#[test]
fn test_find_all_specs_skips_files() {
    let entries = vec![
        entry("a-spec", true, false, None),
        entry("stray-file.md", false, false, None),
    ];

    let result = find_all_specs(entries);

    assert_eq!(result.len(), 1);
    assert_eq!(result[0].name, "a-spec");
}

#[test]
fn test_find_all_specs_counts_tasks() {
    let entries = vec![entry(
        "counted",
        true,
        false,
        Some("- [ ] one\n- [x] two\n"),
    )];

    let result = find_all_specs(entries);

    assert_eq!(result.len(), 1);
    assert_eq!(result[0].total_tasks, Some(2));
    assert_eq!(result[0].completed_tasks, Some(1));
    assert!(result[0].tasks.is_some());
    assert!(result[0].requirements.is_none());
    assert!(result[0].design.is_none());
}

#[test]
fn test_find_all_specs_tasks_absent() {
    // No tasks file: the counts are zero and no tasks path is recorded.
    let result = find_all_specs(vec![entry("bare", true, true, None)]);

    assert_eq!(result.len(), 1);
    assert_eq!(result[0].total_tasks, Some(0));
    assert_eq!(result[0].completed_tasks, Some(0));
    assert!(result[0].tasks.is_none());
    assert_eq!(
        result[0].requirements.as_deref(),
        Some(".kiro/specs/bare/requirements.md")
    );
}
