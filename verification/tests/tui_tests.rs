use td::tui::{modal_area, modification, new_task, Key, Modification, Pos, TuiState};
use td::store::{parse_todo_list, serialize_todo_list};
use td::Status;

fn entry(status: &str, task: &str) -> (String, String) {
    (status.to_string(), task.to_string())
}

fn pos(status: Status, mod_item: usize, modifier: Modification) -> Pos {
    Pos { status, mod_item: Some(mod_item), modifier }
}

fn sample() -> Vec<(String, String)> {
    vec![
        entry("[ ]", "a"),
        entry("[X]", "b"),
        entry("[ ]", "c"),
        entry("[-]", "d"),
        entry("[X]", "e"),
    ]
}

#[test]
fn switch_status_flips_and_back() {
    let mut p = pos(Status::Open, 3, Modification::Default);
    p.switch_status();
    assert_eq!(p.status, Status::Done);
    assert_eq!(p.mod_item, Some(3));
    p.switch_status().switch_status();
    assert_eq!(p.status, Status::Done);
    p.switch_status();
    assert_eq!(p.status, Status::Open);
}

#[test]
fn new_task_text_is_fixed() {
    assert_eq!(new_task(), "test2");
}

#[test]
fn modification_switches_marks() {
    let mut p = pos(Status::Open, 0, Modification::SwitchStatus);
    let l = modification(&mut p, sample());
    assert_eq!(l[0], entry("[X]", "a"));
    let mut p = pos(Status::Done, 1, Modification::SwitchStatus);
    let l = modification(&mut p, sample());
    assert_eq!(l[1], entry("[ ]", "b"));
    let mut p = pos(Status::Done, 3, Modification::SwitchStatus);
    let l = modification(&mut p, sample());
    assert_eq!(l[3], entry("[ ]", "d"));
    assert_eq!(l.len(), 5);
}

#[test]
fn switching_twice_restores() {
    let mut p = pos(Status::Open, 2, Modification::SwitchStatus);
    let once = modification(&mut p, sample());
    let twice = modification(&mut p, once);
    assert_eq!(twice, sample());
}

#[test]
fn delete_only_in_done_view() {
    let mut p = pos(Status::Open, 0, Modification::Delete);
    assert_eq!(modification(&mut p, sample()), sample());
    let mut p = pos(Status::Done, 1, Modification::Delete);
    let l = modification(&mut p, sample());
    assert_eq!(l, vec![entry("[ ]", "a"), entry("[ ]", "c"), entry("[-]", "d"), entry("[X]", "e")]);
    assert_eq!(p.mod_item, Some(1));
    assert!(p.modifier == Modification::Delete);
}

#[test]
fn rename_and_new_use_fixed_text() {
    let mut p = pos(Status::Open, 2, Modification::Rename);
    let l = modification(&mut p, sample());
    assert_eq!(l[2], entry("[ ]", "test2"));
    let mut p = pos(Status::Open, 0, Modification::New);
    let l = modification(&mut p, sample());
    assert_eq!(l.len(), 6);
    assert_eq!(l[5], entry("[ ]", "test2"));
}

#[test]
fn modification_out_of_range_or_negative_does_nothing() {
    let mut p = pos(Status::Done, 5, Modification::Delete);
    assert_eq!(modification(&mut p, sample()), sample());
    let mut p = Pos { status: Status::Open, mod_item: None, modifier: Modification::New };
    assert_eq!(modification(&mut p, sample()), sample());
    let mut p = Pos { status: Status::Done, mod_item: None, modifier: Modification::Delete };
    assert_eq!(modification(&mut p, sample()), sample());
    let mut p = Pos { status: Status::Done, mod_item: None, modifier: Modification::SwitchStatus };
    assert_eq!(modification(&mut p, sample()), sample());
    let mut p = pos(Status::Open, 0, Modification::New);
    assert_eq!(modification(&mut p, Vec::new()), Vec::<(String, String)>::new());
    let mut p = pos(Status::Open, 0, Modification::Default);
    assert_eq!(modification(&mut p, sample()), sample());
}

#[test]
fn visible_entries_follow_the_view() {
    let mut s = TuiState::new(sample());
    assert_eq!(s.visible_entries(), vec![0, 2]);
    s.pos.switch_status();
    assert_eq!(s.visible_entries(), vec![1, 4]);
}

#[test]
fn sync_selection_points_at_highlighted_row() {
    let mut s = TuiState::new(sample());
    s.selected = Some(1);
    s.sync_selection();
    assert_eq!(s.pos.mod_item, Some(2));
    s.pos.switch_status();
    s.sync_selection();
    assert_eq!(s.pos.mod_item, Some(4));
    s.selected = Some(7);
    s.sync_selection();
    assert_eq!(s.pos.mod_item, None);
}

#[test]
fn sync_selection_reaches_far_entries() {
    let mut list: Vec<(String, String)> = Vec::new();
    for _ in 0..200 {
        list.push(entry("[X]", "x"));
    }
    list.push(entry("[ ]", "open"));
    let mut s = TuiState::new(list);
    s.sync_selection();
    assert_eq!(s.pos.mod_item, Some(200));
    assert!(!s.handle_key(Key::Enter));
    assert_eq!(s.todo_list[200], entry("[X]", "open"));
    assert_eq!(s.todo_list[0], entry("[X]", "x"));
}

#[test]
fn enter_with_empty_view_changes_nothing() {
    // the open list is empty: drawing leaves no highlighted row
    let mut s = TuiState::new(vec![entry("[X]", "b")]);
    s.selected = None;
    s.sync_selection();
    assert_eq!(s.pos.mod_item, None);
    s.handle_key(Key::Enter);
    assert_eq!(s.todo_list, vec![entry("[X]", "b")]);
    // a stale row number that the shown list does not have selects nothing
    s.selected = Some(0);
    s.sync_selection();
    assert_eq!(s.pos.mod_item, None);
    s.handle_key(Key::Enter);
    assert!(s.handle_key(Key::Char('q')));
    assert_eq!(serialize_todo_list(&s.todo_list), "[X]\tb\n");
}

#[test]
fn delete_with_empty_done_view_keeps_open_task() {
    let mut s = TuiState::new(parse_todo_list("[ ]\ta\n"));
    s.sync_selection();
    assert_eq!(s.pos.mod_item, Some(0));
    s.handle_key(Key::Tab);
    s.sync_selection();
    assert_eq!(s.pos.mod_item, None);
    s.handle_key(Key::Char('d'));
    assert!(s.handle_key(Key::Char('q')));
    assert_eq!(serialize_todo_list(&s.todo_list), "[ ]\ta\n");
}

#[test]
fn navigation_keys() {
    let mut s = TuiState::new(sample());
    assert!(!s.handle_key(Key::Char('j')));
    assert_eq!(s.selected, Some(1));
    s.handle_key(Key::Char('G'));
    assert_eq!(s.selected, Some(4));
    s.handle_key(Key::Char('j'));
    assert_eq!(s.selected, Some(4));
    s.handle_key(Key::Char('k'));
    assert_eq!(s.selected, Some(3));
    s.handle_key(Key::Char('g'));
    assert_eq!(s.selected, Some(0));
    s.handle_key(Key::Char('k'));
    assert_eq!(s.selected, Some(0));
}

#[test]
fn without_highlight_up_down_do_nothing() {
    let mut s = TuiState::new(sample());
    s.selected = None;
    s.pos.mod_item = Some(3);
    s.sync_selection();
    assert_eq!(s.pos.mod_item, None);
    s.handle_key(Key::Char('j'));
    assert_eq!(s.selected, None);
    s.handle_key(Key::Char('k'));
    assert_eq!(s.selected, None);
    s.handle_key(Key::Char('G'));
    assert_eq!(s.selected, Some(4));
    s.selected = None;
    s.handle_key(Key::Char('g'));
    assert_eq!(s.selected, Some(0));
}

#[test]
fn view_keys_switch_the_shown_list() {
    let mut s = TuiState::new(sample());
    s.handle_key(Key::Char('h'));
    assert_eq!(s.pos.status, Status::Done);
    s.handle_key(Key::Char('l'));
    assert_eq!(s.pos.status, Status::Open);
    s.handle_key(Key::Tab);
    assert_eq!(s.pos.status, Status::Done);
    s.handle_key(Key::Tab);
    assert_eq!(s.pos.status, Status::Open);
    assert_eq!(s.todo_list, sample());
}

#[test]
fn enter_switches_the_entry_under_the_cursor() {
    let mut s = TuiState::new(sample());
    s.selected = Some(1);
    s.sync_selection();
    s.handle_key(Key::Enter);
    assert_eq!(s.todo_list[2], entry("[X]", "c"));
    assert!(s.pos.modifier == Modification::Default);
}

#[test]
fn add_rename_delete_keys() {
    let mut s = TuiState::new(sample());
    s.handle_key(Key::Char('a'));
    assert_eq!(s.todo_list.len(), 5);
    s.sync_selection();
    s.handle_key(Key::Char('a'));
    assert_eq!(s.todo_list.len(), 6);
    assert_eq!(s.todo_list[5], entry("[ ]", "test2"));
    assert!(s.pos.modifier == Modification::Default);
    s.handle_key(Key::Char('r'));
    assert_eq!(s.todo_list[0], entry("[ ]", "test2"));
    assert!(s.pos.modifier == Modification::Rename);
    s.handle_key(Key::Char('d'));
    assert_eq!(s.todo_list.len(), 6);
    s.handle_key(Key::Char('h'));
    s.sync_selection();
    assert_eq!(s.pos.mod_item, Some(1));
    s.handle_key(Key::Char('d'));
    assert_eq!(s.todo_list.len(), 5);
    assert_eq!(s.todo_list[1], entry("[ ]", "c"));
    assert!(s.pos.modifier == Modification::Default);
}

#[test]
fn other_keys_toggle_help_and_q_quits() {
    let mut s = TuiState::new(sample());
    assert!(!s.handle_key(Key::Char('x')));
    assert!(s.show_modal);
    assert!(!s.handle_key(Key::Other));
    assert!(!s.show_modal);
    assert!(s.handle_key(Key::Char('q')));
    assert_eq!(s.todo_list, sample());
    assert!(!s.show_modal);
}

#[test]
fn modal_area_is_centred() {
    let r = modal_area(100, 50);
    assert_eq!((r.x, r.y, r.width, r.height), (20, 20, 60, 10));
    let r = modal_area(81, 24);
    assert_eq!((r.x, r.y, r.width, r.height), (16, 10, 48, 4));
    let r = modal_area(0, 0);
    assert_eq!((r.x, r.y, r.width, r.height), (0, 0, 0, 0));
}

#[test]
fn saved_list_reads_back_after_edits() {
    let mut s = TuiState::new(sample());
    for key in [Key::Enter, Key::Char('a'), Key::Char('r'), Key::Char('h'), Key::Char('d')] {
        s.sync_selection();
        s.handle_key(key);
        assert_eq!(parse_todo_list(&serialize_todo_list(&s.todo_list)), s.todo_list);
    }
}
