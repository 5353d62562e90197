use todo_cli::listing::{list_tasks, task_row};
use todo_cli::store::Task;

#[test]
fn row_pads_small_ids_and_marks_done() {
    let t = Task { id: 1, description: "buy milk".to_string(), done: true };
    assert_eq!(task_row(&t), " 1 [x] buy milk");
}

#[test]
fn row_of_open_task_with_two_digit_id() {
    let t = Task { id: 12, description: "walk dog".to_string(), done: false };
    assert_eq!(task_row(&t), "12 [ ] walk dog");
    let t = Task { id: 305, description: String::new(), done: false };
    assert_eq!(task_row(&t), "305 [ ] ");
}

#[test]
fn list_empty_store_gives_no_rows() {
    assert!(list_tasks(&Vec::new()).is_empty());
}

#[test]
fn list_gives_rows_in_store_order() {
    let tasks = vec![
        Task { id: 1, description: "a".to_string(), done: false },
        Task { id: 2, description: "b".to_string(), done: true },
    ];
    assert_eq!(list_tasks(&tasks), vec![" 1 [ ] a".to_string(), " 2 [x] b".to_string()]);
}
