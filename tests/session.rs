use quests::command::{action_for, Action, Command};
use quests::listing::{listing, Listed};
use quests::selection::{apply_selection, finish_session, order_for_selection, selection_items};
use quests::store::{load_tasks, new_record, ParseError};
use quests::{Style, Task};

fn task(text: &str, finished: bool) -> Task {
    Task::new(text.to_string(), finished)
}

#[test]
fn offered_order_puts_unfinished_first() {
    let tasks = vec![task("a", false), task("b", true), task("c", false)];
    let offered = order_for_selection(&tasks);
    assert_eq!(offered, vec![task("a", false), task("c", false), task("b", true)]);
}

#[test]
fn offered_order_is_stable_within_each_group() {
    let tasks = vec![task("x", true), task("a", false), task("y", true), task("b", false)];
    let offered = order_for_selection(&tasks);
    assert_eq!(
        offered,
        vec![task("a", false), task("b", false), task("x", true), task("y", true)]
    );
}

#[test]
fn untouched_selection_keeps_states_in_new_order() {
    let tasks = vec![task("a", false), task("b", true), task("c", false)];
    let offered = order_for_selection(&tasks);
    let saved = finish_session(&offered, Some(vec![2])).unwrap();
    assert_eq!(saved, "- [ ]a\n- [ ]c\n- [x]b\n");
}

#[test]
fn selection_sets_every_state() {
    let offered = vec![task("a", false), task("c", false), task("b", true)];
    let updated = apply_selection(&offered, &vec![0, 1]);
    assert_eq!(updated, vec![task("a", true), task("c", true), task("b", false)]);
}

#[test]
fn selection_ignores_positions_beyond_the_list() {
    let offered = vec![task("a", false)];
    let updated = apply_selection(&offered, &vec![5, 0, 0]);
    assert_eq!(updated, vec![task("a", true)]);
}

#[test]
fn cancelled_session_writes_nothing() {
    let offered = vec![task("a", false), task("b", true)];
    assert_eq!(finish_session(&offered, None), None);
}

#[test]
fn selection_items_load_and_order() {
    let items = selection_items("- [x]b\n- [ ]a\n").unwrap();
    assert_eq!(items, vec![task("a", false), task("b", true)]);
    assert_eq!(selection_items("- [x]b\nnope\n"), Err(ParseError { line: 1 }));
}

#[test]
fn add_list_toggle_list_scenario() {
    let mut store = String::new();
    store.push_str(&new_record("buy milk"));
    assert_eq!(store, "- [ ]buy milk\n");
    let shown = vec![Listed { line: "- [ ]buy milk".to_string(), style: Style::Unfinished }];
    assert_eq!(listing(&store, false), shown);
    assert_eq!(listing(&store, true), shown);

    let offered = selection_items(&store).unwrap();
    let saved = finish_session(&offered, Some(vec![0])).unwrap();
    assert_eq!(saved, "- [x]buy milk\n");
    assert_eq!(load_tasks(&saved), Ok(vec![task("buy milk", true)]));
    assert!(listing(&saved, false).is_empty());
}

#[test]
fn add_command_builds_its_record() {
    let action = action_for(Command::Add { quest: "buy milk".to_string() });
    assert_eq!(
        action,
        Action::Append { quest: "buy milk".to_string(), record: "- [ ]buy milk\n".to_string() }
    );
}

#[test]
fn list_commands_pick_their_listing() {
    assert_eq!(action_for(Command::List { all: false, interactive: false }), Action::ListUnfinished);
    assert_eq!(action_for(Command::List { all: true, interactive: false }), Action::ListAll);
    assert_eq!(action_for(Command::List { all: true, interactive: true }), Action::Interactive);
    assert_eq!(action_for(Command::List { all: false, interactive: true }), Action::Interactive);
}
