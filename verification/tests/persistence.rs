use task_timer::codec::{load, load_or_default, save};
use task_timer::state::AppState;
use task_timer::timefmt::format_time;

fn same_state(a: &AppState, b: &AppState) -> bool {
    a.tasks.len() == b.tasks.len()
        && a.tasks.iter().zip(b.tasks.iter()).all(|(x, y)| {
            x.name == y.name && x.accumulated == y.accumulated
        })
        && a.selected == b.selected
        && a.new_task_name == b.new_task_name
}

fn is_default(s: &AppState) -> bool {
    s.tasks.is_empty() && s.selected == None && s.new_task_name.is_empty()
}

#[test]
fn save_empty_state_exact_text() {
    let s = AppState::new();
    assert_eq!(save(&s), "{\"tasks\":[],\"selected\":null,\"new_task_name\":\"\"}");
}

#[test]
fn save_one_task_exact_text() {
    let mut s = AppState::new();
    s.add_task("A".to_string());
    s.tasks[0].accumulated = 5;
    s.select_by_name(&"A".to_string());
    s.new_task_name = "dra ft".to_string();
    assert_eq!(
        save(&s),
        "{\"tasks\":[{\"name\":\"A\",\"accumulated\":5}],\"selected\":0,\"new_task_name\":\"dra ft\"}"
    );
}

#[test]
fn load_reads_saved_text() {
    let text = "{\"tasks\":[{\"name\":\"A\",\"accumulated\":5},{\"name\":\"B\",\"accumulated\":0}],\"selected\":1,\"new_task_name\":\"x\"}";
    let s = load(text);
    assert_eq!(s.tasks.len(), 2);
    assert_eq!(s.tasks[0].name, "A");
    assert_eq!(s.tasks[0].accumulated, 5);
    assert_eq!(s.tasks[1].name, "B");
    assert_eq!(s.selected, Some(1));
    assert_eq!(s.new_task_name, "x");
}

#[test]
fn round_trip_empty_state() {
    let s = AppState::new();
    assert!(same_state(&load(&save(&s)), &s));
}

#[test]
fn round_trip_full_state() {
    let mut s = AppState::new();
    s.add_task("Write Report".to_string());
    s.add_task("Review PR".to_string());
    s.select_by_name(&"Review PR".to_string());
    s.tick();
    s.new_task_name = "next one".to_string();
    assert!(same_state(&load(&save(&s)), &s));
}

#[test]
fn round_trip_name_with_quotes_and_backslashes() {
    let mut s = AppState::new();
    s.add_task("say \"hi\" \\ there".to_string());
    s.add_task("commas, [brackets] {braces}".to_string());
    let back = load(&save(&s));
    assert!(same_state(&back, &s));
    assert_eq!(back.tasks[0].name, "say \"hi\" \\ there");
}

#[test]
fn load_empty_text_gives_default() {
    assert!(is_default(&load("")));
}

#[test]
fn load_garbage_gives_default() {
    assert!(is_default(&load("not a document")));
    assert!(is_default(&load("{}")));
    assert!(is_default(&load("{\"tasks\":[],\"selected\":null")));
}

#[test]
fn load_trailing_junk_gives_default() {
    assert!(is_default(&load("{\"tasks\":[],\"selected\":null,\"new_task_name\":\"\"}junk")));
}

#[test]
fn load_selection_out_of_range_gives_default() {
    assert!(is_default(&load("{\"tasks\":[],\"selected\":0,\"new_task_name\":\"\"}")));
}

#[test]
fn load_missing_file_gives_default() {
    assert!(is_default(&load_or_default(None)));
    let s = load_or_default(Some("{\"tasks\":[],\"selected\":null,\"new_task_name\":\"y\"}"));
    assert_eq!(s.new_task_name, "y");
}

#[test]
fn end_to_end_scenario() {
    let mut s = AppState::new();
    s.add_task("Write Report".to_string());
    s.add_task("Review PR".to_string());
    assert!(s.select_by_name(&"Review PR".to_string()));
    s.tick();
    s.tick();
    s.tick();
    assert_eq!(s.tasks[1].name, "Review PR");
    assert_eq!(s.tasks[1].accumulated, 3);
    assert_eq!(format_time(s.tasks[1].accumulated), "00:00:03");
    assert_eq!(s.tasks[0].name, "Write Report");
    assert_eq!(s.tasks[0].accumulated, 0);
    assert_eq!(format_time(s.tasks[0].accumulated), "00:00:00");
    let persisted = save(&s);
    assert!(same_state(&load(&persisted), &s));
}
