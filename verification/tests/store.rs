use task_timer::state::AppState;

fn names(s: &AppState) -> Vec<String> {
    s.tasks.iter().map(|t| t.name.clone()).collect()
}

#[test]
fn add_task_appends_with_zero_time() {
    let mut s = AppState::new();
    assert!(s.add_task("Write Report".to_string()));
    assert_eq!(s.tasks.len(), 1);
    assert_eq!(s.tasks[0].name, "Write Report");
    assert_eq!(s.tasks[0].accumulated, 0);
    assert!(s.add_task("Review PR".to_string()));
    assert_eq!(s.tasks.len(), 2);
    assert_eq!(s.tasks[1].name, "Review PR");
    assert_eq!(s.tasks[1].accumulated, 0);
}

#[test]
fn add_task_rejects_empty_name() {
    let mut s = AppState::new();
    assert!(!s.add_task("".to_string()));
    assert_eq!(s.tasks.len(), 0);
}

#[test]
fn add_task_rejects_whitespace_name() {
    let mut s = AppState::new();
    assert!(!s.add_task("   \t\n".to_string()));
    assert_eq!(s.tasks.len(), 0);
}

#[test]
fn add_task_rejects_unicode_whitespace_name() {
    let mut s = AppState::new();
    assert!(!s.add_task("\u{000B}".to_string()));
    assert!(!s.add_task("\u{000C}\u{0085}".to_string()));
    assert!(!s.add_task("\u{00A0}\u{1680}\u{2003}\u{200A}".to_string()));
    assert!(!s.add_task("\u{2028}\u{2029}\u{202F}\u{205F}\u{3000}".to_string()));
    assert_eq!(s.tasks.len(), 0);
    assert!(s.add_task("\u{200B}".to_string()));
    assert_eq!(s.tasks.len(), 1);
}

#[test]
fn add_task_clears_draft() {
    let mut s = AppState::new();
    s.new_task_name = "Alpha".to_string();
    let name = s.new_task_name.clone();
    assert!(s.add_task(name));
    assert_eq!(s.new_task_name, "");
    assert_eq!(s.tasks[0].name, "Alpha");
}

#[test]
fn remove_selected_drops_task_and_selection() {
    let mut s = AppState::new();
    s.add_task("A".to_string());
    s.add_task("B".to_string());
    assert!(s.select_by_name(&"A".to_string()));
    assert!(s.remove_selected());
    assert_eq!(s.tasks.len(), 1);
    assert_eq!(s.selected, None);
    assert_eq!(names(&s), vec!["B".to_string()]);
}

#[test]
fn remove_without_selection_is_noop() {
    let mut s = AppState::new();
    s.add_task("A".to_string());
    assert!(!s.remove_selected());
    assert_eq!(s.tasks.len(), 1);
    assert_eq!(s.selected, None);
}

#[test]
fn select_by_name_finds_first_match() {
    let mut s = AppState::new();
    s.add_task("A".to_string());
    s.add_task("B".to_string());
    s.add_task("A".to_string());
    assert!(s.select_by_name(&"A".to_string()));
    assert_eq!(s.selected, Some(0));
    assert!(s.select_by_name(&"B".to_string()));
    assert_eq!(s.selected, Some(1));
}

#[test]
fn select_by_name_miss_leaves_selection() {
    let mut s = AppState::new();
    s.add_task("A".to_string());
    assert!(s.select_by_name(&"A".to_string()));
    assert!(!s.select_by_name(&"Z".to_string()));
    assert_eq!(s.selected, Some(0));
}

#[test]
fn tick_increments_only_selected_task() {
    let mut s = AppState::new();
    s.add_task("Write Report".to_string());
    s.add_task("Review PR".to_string());
    assert!(s.select_by_name(&"Review PR".to_string()));
    assert!(s.tick());
    assert_eq!(s.tasks[0].accumulated, 0);
    assert_eq!(s.tasks[1].accumulated, 1);
    assert_eq!(s.tasks[1].name, "Review PR");
    assert_eq!(s.selected, Some(1));
}

#[test]
fn tick_without_selection_changes_nothing() {
    let mut s = AppState::new();
    s.add_task("A".to_string());
    assert!(!s.tick());
    assert_eq!(s.tasks[0].accumulated, 0);
}
