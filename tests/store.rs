use quests::store::{encode_tasks, load_tasks, marker_str, new_record, parse_line, ParseError};
use quests::text::split_lines;
use quests::Task;

fn task(text: &str, finished: bool) -> Task {
    Task::new(text.to_string(), finished)
}

#[test]
fn markers_are_fixed_width() {
    assert_eq!(marker_str(true), "- [x]");
    assert_eq!(marker_str(false), "- [ ]");
}

#[test]
fn split_keeps_lines_and_drops_final_newline() {
    assert_eq!(split_lines("ab\ncd\n"), vec!["ab".to_string(), "cd".to_string()]);
    assert_eq!(split_lines("ab\ncd"), vec!["ab".to_string(), "cd".to_string()]);
    assert_eq!(split_lines("a\n\nb\n"), vec!["a".to_string(), "".to_string(), "b".to_string()]);
    assert!(split_lines("").is_empty());
}

#[test]
fn parse_finished_and_unfinished_lines() {
    assert_eq!(parse_line("- [x]read"), Some(task("read", true)));
    assert_eq!(parse_line("- [ ]write"), Some(task("write", false)));
    assert_eq!(parse_line("- [ ]"), Some(task("", false)));
    assert_eq!(parse_line("- [x]ünïcödé ✓"), Some(task("ünïcödé ✓", true)));
}

#[test]
fn parse_rejects_unmarked_and_short_lines() {
    assert_eq!(parse_line("- [y]x"), None);
    assert_eq!(parse_line("- ["), None);
    assert_eq!(parse_line(""), None);
    assert_eq!(parse_line("plain text"), None);
}

#[test]
fn load_reports_first_malformed_line() {
    assert_eq!(load_tasks("- [ ]a\nbad\nworse\n"), Err(ParseError { line: 1 }));
    assert_eq!(load_tasks("\n"), Err(ParseError { line: 0 }));
}

#[test]
fn load_empty_store_has_no_tasks() {
    assert_eq!(load_tasks(""), Ok(vec![]));
}

#[test]
fn load_reads_tasks_in_order() {
    let loaded = load_tasks("- [ ]a\n- [x]b\n- [ ]c\n").unwrap();
    assert_eq!(loaded, vec![task("a", false), task("b", true), task("c", false)]);
}

#[test]
fn save_then_load_round_trips() {
    let tasks = vec![
        task("buy milk", false),
        task("call - [x] mom", true),
        task("", false),
        task("日本語", true),
    ];
    let text = encode_tasks(&tasks);
    assert_eq!(text, "- [ ]buy milk\n- [x]call - [x] mom\n- [ ]\n- [x]日本語\n");
    assert_eq!(load_tasks(&text), Ok(tasks));
}

#[test]
fn encode_empty_list_is_empty_store() {
    assert_eq!(encode_tasks(&vec![]), "");
}

#[test]
fn adding_gives_unfinished_tasks_in_call_order() {
    let mut store = String::new();
    for text in ["one", "two", "three"] {
        store.push_str(&new_record(text));
    }
    assert_eq!(store, "- [ ]one\n- [ ]two\n- [ ]three\n");
    let loaded = load_tasks(&store).unwrap();
    assert_eq!(loaded, vec![task("one", false), task("two", false), task("three", false)]);
}

#[test]
fn new_record_accepts_empty_text() {
    assert_eq!(new_record(""), "- [ ]\n");
}
