use todo_cli::codec::{decode_tasks, encode_tasks};
use todo_cli::store::{add_task, complete_task, remove_task, Task};

fn task(id: usize, description: &str, done: bool) -> Task {
    Task { id, description: description.to_string(), done }
}

#[test]
fn encode_writes_flag_bar_description_lines() {
    let tasks = vec![task(1, "a", true), task(2, "b", false)];
    assert_eq!(encode_tasks(&tasks), "1|a\n0|b");
}

#[test]
fn encode_empty_store_is_empty_text() {
    assert_eq!(encode_tasks(&Vec::new()), "");
}

#[test]
fn encode_keeps_bars_and_empty_descriptions() {
    let tasks = vec![task(1, "x|y", false), task(2, "", true)];
    assert_eq!(encode_tasks(&tasks), "0|x|y\n1|");
}

#[test]
fn decode_empty_text_is_empty_store() {
    assert!(decode_tasks("").is_empty());
}

#[test]
fn decode_reads_flags_and_descriptions() {
    let tasks = decode_tasks("1|a\n0|b");
    assert_eq!(tasks, vec![task(1, "a", true), task(2, "b", false)]);
}

#[test]
fn decode_splits_at_first_bar_only() {
    assert_eq!(decode_tasks("1|a|b|c"), vec![task(1, "a|b|c", true)]);
}

#[test]
fn decode_tolerates_malformed_lines() {
    let tasks = decode_tasks("abc\n2|x\n1\n|y\n");
    assert_eq!(
        tasks,
        vec![task(1, "", false), task(2, "x", false), task(3, "", true), task(4, "y", false)]
    );
}

#[test]
fn decode_normalises_crlf_and_ignores_final_newline() {
    assert_eq!(decode_tasks("1|a\r\n0|b\r\n"), vec![task(1, "a", true), task(2, "b", false)]);
    assert_eq!(decode_tasks("0|a\n"), vec![task(1, "a", false)]);
    assert_eq!(decode_tasks("0|a\r"), vec![task(1, "a\r", false)]);
}

#[test]
fn decode_keeps_blank_lines_as_tasks() {
    let tasks = decode_tasks("0|a\n\n1|b");
    assert_eq!(tasks, vec![task(1, "a", false), task(2, "", false), task(3, "b", true)]);
    assert_eq!(decode_tasks("\n"), vec![task(1, "", false)]);
}

#[test]
fn decode_ignores_stored_ids_and_handles_unicode() {
    let tasks = decode_tasks("1|café ☕\n0|naïve");
    assert_eq!(tasks, vec![task(1, "café ☕", true), task(2, "naïve", false)]);
}

#[test]
fn round_trip_keeps_descriptions_and_flags() {
    let tasks = vec![task(1, "walk | dog", true), task(2, "", false), task(3, "x", true)];
    let back = decode_tasks(&encode_tasks(&tasks));
    assert_eq!(back, tasks);
}

#[test]
fn round_trip_renumbers_ids() {
    let tasks = vec![task(5, "a", false), task(9, "b", true)];
    let back = decode_tasks(&encode_tasks(&tasks));
    assert_eq!(back, vec![task(1, "a", false), task(2, "b", true)]);
}

#[test]
fn newline_in_description_splits_on_decode() {
    let tasks = vec![task(1, "a\nb", false)];
    let back = decode_tasks(&encode_tasks(&tasks));
    assert_eq!(back, vec![task(1, "a", false), task(2, "", false)]);
}

#[test]
fn scenario_add_complete_remove_save_load() {
    let mut tasks: Vec<Task> = Vec::new();
    add_task(&mut tasks, "buy milk".to_string());
    assert_eq!(tasks, vec![task(1, "buy milk", false)]);
    add_task(&mut tasks, "walk dog".to_string());
    assert_eq!(tasks.iter().map(|t| t.id).collect::<Vec<_>>(), vec![1, 2]);
    assert!(complete_task(&mut tasks, 1));
    assert!(tasks[0].done);
    assert!(remove_task(&mut tasks, 1));
    assert_eq!(tasks, vec![task(1, "walk dog", false)]);
    let text = encode_tasks(&tasks);
    assert_eq!(text, "0|walk dog");
    assert_eq!(decode_tasks(&text), vec![task(1, "walk dog", false)]);
}
