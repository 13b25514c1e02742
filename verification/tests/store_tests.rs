use todo_store::store::TaskStore;
use todo_store::task::Task;

fn task(title: &str, tag: &str, status: &str) -> Task {
    Task {
        id: 0,
        title: title.to_string(),
        tag: tag.to_string(),
        status: status.to_string(),
    }
}

#[test]
fn insert_then_list_contains_task() {
    let mut store = TaskStore::new();
    let id = store.insert_task(&task("Edit video", "gameplay", "Pending"));
    assert_eq!(id, 1);
    let rows = store.get_all_tasks();
    assert_eq!(rows.len(), 1);
    assert_eq!(rows[0].id, 1);
    assert_eq!(rows[0].title, "Edit video");
    assert_eq!(rows[0].tag, "gameplay");
    assert_eq!(rows[0].status, "Pending");

    let id2 = store.insert_task(&task("Write script", "guide", "Pending"));
    assert_eq!(id2, 2);
    let rows = store.get_all_tasks();
    assert_eq!(rows.len(), 2);
    assert_ne!(rows[0].id, rows[1].id);
}

#[test]
fn insert_ignores_input_id() {
    let mut store = TaskStore::new();
    let mut t = task("Record intro", "shorts", "Pending");
    t.id = 99;
    let id = store.insert_task(&t);
    assert_eq!(id, 1);
    let rows = store.get_all_tasks();
    assert_eq!(rows[0].id, 1);
}

#[test]
fn update_status_changes_only_that_row() {
    let mut store = TaskStore::new();
    store.insert_task(&task("Edit video", "gameplay", "Pending"));
    store.insert_task(&task("Write script", "guide", "In Progress"));
    store.update_task_status(1, "Uploaded");
    let rows = store.get_all_tasks();
    assert_eq!(rows.len(), 2);
    assert_eq!(rows[0].id, 1);
    assert_eq!(rows[0].title, "Edit video");
    assert_eq!(rows[0].tag, "gameplay");
    assert_eq!(rows[0].status, "Uploaded");
    assert_eq!(rows[1].id, 2);
    assert_eq!(rows[1].title, "Write script");
    assert_eq!(rows[1].tag, "guide");
    assert_eq!(rows[1].status, "In Progress");
}

#[test]
fn update_status_of_missing_id_is_silent_noop() {
    let mut store = TaskStore::new();
    store.insert_task(&task("Edit video", "gameplay", "Pending"));
    store.update_task_status(42, "Uploaded");
    let rows = store.get_all_tasks();
    assert_eq!(rows.len(), 1);
    assert_eq!(rows[0].status, "Pending");
}

#[test]
fn delete_existing_removes_exactly_one_row() {
    let mut store = TaskStore::new();
    store.insert_task(&task("Edit video", "gameplay", "Pending"));
    store.insert_task(&task("Write script", "guide", "Pending"));
    store.delete_task(1);
    let rows = store.get_all_tasks();
    assert_eq!(rows.len(), 1);
    assert_eq!(rows[0].id, 2);
    assert!(rows.iter().all(|t| t.id != 1));
}

#[test]
fn delete_missing_id_is_silent_noop() {
    let mut store = TaskStore::new();
    store.insert_task(&task("Edit video", "gameplay", "Pending"));
    store.delete_task(42);
    let rows = store.get_all_tasks();
    assert_eq!(rows.len(), 1);
    assert_eq!(rows[0].id, 1);
}

#[test]
fn ids_are_not_reused_after_delete() {
    let mut store = TaskStore::new();
    store.insert_task(&task("Edit video", "gameplay", "Pending"));
    store.insert_task(&task("Write script", "guide", "Pending"));
    store.delete_task(2);
    let id = store.insert_task(&task("Record intro", "shorts", "Pending"));
    assert_eq!(id, 3);
}

#[test]
fn empty_title_is_accepted_by_the_store() {
    let mut store = TaskStore::new();
    let id = store.insert_task(&task("", "gameplay", "Pending"));
    assert_eq!(id, 1);
    let rows = store.get_all_tasks();
    assert_eq!(rows[0].title, "");
}

#[test]
fn arbitrary_status_text_is_accepted() {
    let mut store = TaskStore::new();
    store.insert_task(&task("Edit video", "gameplay", "Pending"));
    store.update_task_status(1, "waiting on thumbnail");
    let rows = store.get_all_tasks();
    assert_eq!(rows[0].status, "waiting on thumbnail");
}

#[test]
fn scenario_insert_update_delete() {
    let mut store = TaskStore::new();
    store.insert_task(&task("Edit video", "gameplay", "Pending"));
    let rows = store.get_all_tasks();
    assert_eq!(rows.len(), 1);
    assert_eq!(rows[0].id, 1);
    assert_eq!(rows[0].title, "Edit video");
    assert_eq!(rows[0].tag, "gameplay");
    assert_eq!(rows[0].status, "Pending");

    store.insert_task(&task("Write script", "guide", "Pending"));
    let rows = store.get_all_tasks();
    assert_eq!(rows.len(), 2);
    let mut ids: Vec<i32> = rows.iter().map(|t| t.id).collect();
    ids.sort();
    assert_eq!(ids, vec![1, 2]);

    store.update_task_status(1, "Uploaded");
    let rows = store.get_all_tasks();
    let row1 = rows.iter().find(|t| t.id == 1).unwrap();
    let row2 = rows.iter().find(|t| t.id == 2).unwrap();
    assert_eq!(row1.status, "Uploaded");
    assert_eq!(row2.status, "Pending");
    assert_eq!(row2.title, "Write script");

    store.delete_task(2);
    let rows = store.get_all_tasks();
    assert_eq!(rows.len(), 1);
    assert_eq!(rows[0].id, 1);
    assert_eq!(rows[0].status, "Uploaded");
}

#[test]
fn next_id_advances_by_one_per_insert() {
    let mut store = TaskStore::new();
    assert_eq!(store.next_id(), 1);
    store.insert_task(&task("Edit video", "gameplay", "Pending"));
    assert_eq!(store.next_id(), 2);
    store.insert_task(&task("Write script", "guide", "Pending"));
    assert_eq!(store.next_id(), 3);
}

#[test]
fn from_rows_restores_a_saved_listing() {
    let mut store = TaskStore::new();
    store.insert_task(&task("Edit video", "gameplay", "Pending"));
    store.insert_task(&task("Write script", "guide", "In Progress"));
    let saved = store.get_all_tasks();

    let mut restored = TaskStore::from_rows(saved).unwrap();
    let rows = restored.get_all_tasks();
    assert_eq!(rows.len(), 2);
    assert_eq!(rows[0].id, 1);
    assert_eq!(rows[0].title, "Edit video");
    assert_eq!(rows[1].id, 2);
    assert_eq!(rows[1].status, "In Progress");

    let id = restored.insert_task(&task("Record intro", "shorts", "Pending"));
    assert_eq!(id, 3);
}

#[test]
fn from_rows_rejects_duplicate_ids() {
    let mut a = task("Edit video", "gameplay", "Pending");
    a.id = 7;
    let mut b = task("Write script", "guide", "Pending");
    b.id = 7;
    assert!(TaskStore::from_rows(vec![a, b]).is_none());
}

#[test]
fn from_rows_rejects_non_positive_id() {
    let mut a = task("Edit video", "gameplay", "Pending");
    a.id = 0;
    assert!(TaskStore::from_rows(vec![a]).is_none());
}

#[test]
fn from_rows_of_nothing_starts_ids_at_one() {
    let mut store = TaskStore::from_rows(Vec::new()).unwrap();
    let id = store.insert_task(&task("Edit video", "gameplay", "Pending"));
    assert_eq!(id, 1);
}

#[test]
fn from_rows_continues_past_the_largest_id() {
    let mut a = task("Edit video", "gameplay", "Pending");
    a.id = 5;
    let mut b = task("Write script", "guide", "Pending");
    b.id = 2;
    let mut store = TaskStore::from_rows(vec![a, b]).unwrap();
    let id = store.insert_task(&task("Record intro", "shorts", "Pending"));
    assert_eq!(id, 6);
}

#[test]
fn cloned_task_keeps_all_fields() {
    let mut t = task("Edit video", "gameplay", "Pending");
    t.id = 3;
    let c = t.clone();
    assert_eq!(c.id, 3);
    assert_eq!(c.title, "Edit video");
    assert_eq!(c.tag, "gameplay");
    assert_eq!(c.status, "Pending");
}
