use td::store::{parse_todo_list, serialize_todo_list};
use td::task::new_todo_line;
use td::{Status, Task};

fn entry(status: &str, task: &str) -> (String, String) {
    (status.to_string(), task.to_string())
}

#[test]
fn parse_splits_lines_at_first_tab() {
    let list = parse_todo_list("[ ]\tbuy milk\n[X]\twrite\tcode\n");
    assert_eq!(list, vec![entry("[ ]", "buy milk"), entry("[X]", "write\tcode")]);
}

#[test]
fn parse_skips_lines_without_tab() {
    let list = parse_todo_list("no tab here\n[ ]\tkept\n\n");
    assert_eq!(list, vec![entry("[ ]", "kept")]);
}

#[test]
fn parse_empty_text_gives_empty_list() {
    assert_eq!(parse_todo_list(""), Vec::<(String, String)>::new());
}

#[test]
fn parse_strips_crlf_but_keeps_bare_final_cr() {
    let list = parse_todo_list("[ ]\ta\r\n[X]\tb\r");
    assert_eq!(list, vec![entry("[ ]", "a"), entry("[X]", "b\r")]);
}

#[test]
fn parse_last_line_without_newline() {
    let list = parse_todo_list("[ ]\tfirst\n[-]\tlast");
    assert_eq!(list, vec![entry("[ ]", "first"), entry("[-]", "last")]);
}

#[test]
fn parse_keeps_unicode() {
    let list = parse_todo_list("[ ]\tcafé ☕\n");
    assert_eq!(list, vec![entry("[ ]", "café ☕")]);
}

#[test]
fn parse_empty_status_and_task() {
    let list = parse_todo_list("\t\n");
    assert_eq!(list, vec![entry("", "")]);
}

#[test]
fn serialize_writes_one_line_per_entry() {
    let list = vec![entry("[ ]", "a b"), entry("[X]", "c")];
    assert_eq!(serialize_todo_list(&list), "[ ]\ta b\n[X]\tc\n");
    assert_eq!(serialize_todo_list(&Vec::new()), "");
}

#[test]
fn serialized_list_reads_back() {
    let list = vec![entry("[ ]", "a"), entry("[X]", "b\tc"), entry("x", "")];
    let text = serialize_todo_list(&list);
    assert_eq!(parse_todo_list(&text), list);
}

#[test]
fn reread_after_save_is_unchanged() {
    let text = "junk\n[ ]\tone\r\n[X]\ttwo";
    let list = parse_todo_list(text);
    assert_eq!(parse_todo_list(&serialize_todo_list(&list)), list);
}

#[test]
fn added_line_reads_back_as_open_entry() {
    let old = "[X]\tdone\n";
    let todo = Task { task: "new one".to_string(), status: Status::Done };
    let line = new_todo_line(&todo);
    assert_eq!(line, "[ ]\tnew one\n");
    let text = format!("{old}{line}");
    assert_eq!(parse_todo_list(&text), vec![entry("[X]", "done"), entry("[ ]", "new one")]);
}

#[test]
fn build_joins_arguments_with_single_spaces() {
    let args: Vec<String> = vec!["td".to_string(), "write".to_string(), "docs".to_string()];
    let todo = Task::build(&args);
    assert_eq!(todo.task, "write docs");
    assert_eq!(todo.status, Status::Open);
}

#[test]
fn build_single_word() {
    let args: Vec<String> = vec!["td".to_string(), "a".to_string()];
    let todo = Task::build(&args);
    assert_eq!(todo.task, "a");
    assert_eq!(new_todo_line(&todo), "[ ]\ta\n");
}

#[test]
fn build_without_words_is_empty() {
    let only_program: Vec<String> = vec!["td".to_string()];
    assert_eq!(Task::build(&only_program).task, "");
    let nothing: Vec<String> = Vec::new();
    assert_eq!(Task::build(&nothing).task, "");
}

#[test]
fn quoted_and_unquoted_task_are_the_same() {
    let quoted: Vec<String> = vec!["td".to_string(), "new task".to_string()];
    let words: Vec<String> = vec!["td".to_string(), "new".to_string(), "task".to_string()];
    assert_eq!(Task::build(&quoted).task, "new task");
    assert_eq!(Task::build(&words).task, "new task");
    let line = new_todo_line(&Task::build(&words));
    assert_eq!(line, "[ ]\tnew task\n");
    assert_eq!(parse_todo_list(&line), vec![entry("[ ]", "new task")]);
}
