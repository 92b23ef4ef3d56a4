use taskstore::store::TodoList;
use taskstore::task::Task;

fn add(list: &mut TodoList, descriptions: &[&str]) {
    let batch: Vec<String> = descriptions.iter().map(|d| d.to_string()).collect();
    list.add_task(batch);
}

#[test]
fn scenario_add_then_list() {
    let mut list = TodoList::new();
    add(&mut list, &["buy milk", "walk dog"]);
    let shown = list.list_tasks();
    assert_eq!(shown.len(), 2);
    assert_eq!(shown[0].id, 1);
    assert_eq!(shown[0].description, "buy milk");
    assert!(!shown[0].is_completed);
    assert_eq!(shown[1].id, 2);
    assert_eq!(shown[1].description, "walk dog");
    assert!(!shown[1].is_completed);
}

#[test]
fn scenario_complete_then_list() {
    let mut list = TodoList::new();
    add(&mut list, &["buy milk", "walk dog"]);
    list.complete_task(1);
    let shown = list.list_tasks();
    assert_eq!(shown.len(), 1);
    assert_eq!(shown[0].id, 2);
    assert_eq!(shown[0].description, "walk dog");
    assert!(!shown[0].is_completed);
}

#[test]
fn scenario_complete_unknown_on_empty() {
    let mut list = TodoList::new();
    list.complete_task(999);
    assert_eq!(list.count(), 0);
    assert_eq!(list.list_tasks().len(), 0);
}

#[test]
fn scenario_list_fresh_store() {
    let list = TodoList::new();
    assert_eq!(list.count(), 0);
    assert_eq!(list.list_tasks().len(), 0);
}

#[test]
fn ids_unique_across_batches() {
    let mut list = TodoList::new();
    add(&mut list, &["a", "b"]);
    add(&mut list, &["c", "d"]);
    assert_eq!(list.count(), 4);
    let mut ids = Vec::new();
    for i in 0..list.count() {
        ids.push(list.get(i).id);
    }
    assert_eq!(ids, vec![1, 2, 3, 4]);
    for i in 0..ids.len() {
        for j in 0..i {
            assert_ne!(ids[i], ids[j]);
        }
    }
}

fn snapshot(list: &TodoList) -> Vec<(usize, String, bool)> {
    let mut rows = Vec::new();
    for i in 0..list.count() {
        let t = list.get(i);
        rows.push((t.id, t.description.clone(), t.is_completed));
    }
    rows
}

#[test]
fn complete_twice_same_as_once() {
    let mut once = TodoList::new();
    add(&mut once, &["a", "b"]);
    once.complete_task(1);
    let mut twice = TodoList::new();
    add(&mut twice, &["a", "b"]);
    twice.complete_task(1);
    twice.complete_task(1);
    assert_eq!(snapshot(&once), snapshot(&twice));
}

#[test]
fn completion_is_monotonic() {
    let mut list = TodoList::new();
    add(&mut list, &["a", "b"]);
    list.complete_task(1);
    add(&mut list, &["c"]);
    list.complete_task(2);
    list.complete_task(999);
    assert!(list.get(0).is_completed);
    assert!(list.get(1).is_completed);
    assert!(!list.get(2).is_completed);
}

#[test]
fn complete_unknown_id_changes_nothing() {
    let mut list = TodoList::new();
    add(&mut list, &["a", "b"]);
    list.complete_task(1);
    let before = snapshot(&list);
    list.complete_task(42);
    assert_eq!(snapshot(&list), before);
    assert_eq!(list.count(), 2);
}

#[test]
fn add_empty_batch_changes_nothing() {
    let mut list = TodoList::new();
    add(&mut list, &["a"]);
    list.add_task(Vec::new());
    assert_eq!(list.count(), 1);
    assert_eq!(list.get(0).id, 1);
}

#[test]
fn from_rows_keeps_rows_and_assigns_fresh_ids() {
    let mut rows = Vec::new();
    rows.push(Task::new(1, "a"));
    let mut done = Task::new(5, "b");
    done.is_completed = true;
    rows.push(done);
    rows.push(Task::new(3, "c"));
    let mut list = TodoList::from_rows(rows).expect("distinct ids load");
    assert_eq!(list.count(), 3);
    assert_eq!(list.get(1).id, 5);
    assert!(list.get(1).is_completed);
    add(&mut list, &["d"]);
    assert_eq!(list.get(3).id, 6);
}

#[test]
fn from_rows_rejects_duplicate_ids() {
    let mut rows = Vec::new();
    rows.push(Task::new(7, "a"));
    rows.push(Task::new(7, "b"));
    assert!(TodoList::from_rows(rows).is_none());
}

#[test]
fn from_rows_rejects_id_at_limit() {
    let mut rows = Vec::new();
    rows.push(Task::new(usize::MAX, "a"));
    assert!(TodoList::from_rows(rows).is_none());
}

#[test]
fn task_new_starts_incomplete() {
    let t = Task::new(9, "water plants");
    assert_eq!(t.id, 9);
    assert_eq!(t.description, "water plants");
    assert!(!t.is_completed);
}
