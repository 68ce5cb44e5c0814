use kiro_radar::parser::parse_tasks_file;

#[test]
fn test_parse_tasks_file_not_exist() {
    let (total, completed) = parse_tasks_file(&None);

    assert_eq!(total, 0);
    assert_eq!(completed, 0);
}

#[test]
fn test_parse_tasks_file_empty() {
    let (total, completed) = parse_tasks_file(&Some(String::new()));

    assert_eq!(total, 0);
    assert_eq!(completed, 0);
}

#[test]
fn test_parse_tasks_file() {
    let content = "- [ ] Task 1\n- [ ] Task 2\n  - [ ] Task 2.1\n  - [x] Task 2.2\n- [ ] Task 3";

    let (total, completed) = parse_tasks_file(&Some(content.to_string()));

    assert_eq!(total, 5);
    assert_eq!(completed, 1);
}

#[test]
fn test_parse_interleaved_items() {
    // Four items, two completed, nested at several depths among ignored lines.
    let content = "# Heading\n- [ ] A\n- [x] B\nplain text\n  - [x] C\n- [ ] D\n";

    let (total, completed) = parse_tasks_file(&Some(content.to_string()));

    assert_eq!(total, 4);
    assert_eq!(completed, 2);
}

#[test]
fn test_parse_counts_ignore_line_order() {
    let forward = "- [ ] A\n- [x] B\nnote\n  - [x] C";
    let backward = "  - [x] C\nnote\n- [x] B\n- [ ] A";

    assert_eq!(
        parse_tasks_file(&Some(forward.to_string())),
        parse_tasks_file(&Some(backward.to_string()))
    );
    assert_eq!(parse_tasks_file(&Some(forward.to_string())), (3, 2));
}

#[test]
fn test_parse_completed_never_exceeds_total() {
    let content = "- [x] done\n- [x] done too\n- [ ] open\ngarbage - [x] not at start";

    let (total, completed) = parse_tasks_file(&Some(content.to_string()));

    assert!(completed <= total);
    assert_eq!(total, 3);
    assert_eq!(completed, 2);
}

#[test]
fn test_parse_strict_markers_only() {
    // Uppercase X, missing space, wrong bracket spacing: none of these count.
    let content = "- [X] A\n-[ ] B\n- [] C\n- [  ] D\n* [x] E";

    let (total, completed) = parse_tasks_file(&Some(content.to_string()));

    assert_eq!(total, 0);
    assert_eq!(completed, 0);
}

#[test]
fn test_parse_bare_marker_counts() {
    // A marker with nothing after it is still an item.
    let (total, completed) = parse_tasks_file(&Some("- [ ]\n- [x]".to_string()));

    assert_eq!(total, 2);
    assert_eq!(completed, 1);
}

#[test]
fn test_parse_crlf_lines() {
    let (total, completed) = parse_tasks_file(&Some("- [x] A\r\n- [ ] B\r\n".to_string()));

    assert_eq!(total, 2);
    assert_eq!(completed, 1);
}
