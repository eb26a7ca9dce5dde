use salvo_core_runtime::store::{ListOptions, StoreError, Todo, TodoStore};
use salvo_core_runtime::todos::{create_todo, delete_todo, list_todos, new_store, update_todo};

fn todo(id: u64, text: &str, completed: bool) -> Todo {
    Todo { id, text: text.to_string(), completed }
}

fn ids(v: &Vec<Todo>) -> Vec<u64> {
    v.iter().map(|t| t.id).collect()
}

fn all(store: &TodoStore) -> Vec<Todo> {
    list_todos(store, ListOptions { offset: None, limit: None })
}

#[test]
fn todos_scenario() {
    let mut store = new_store();
    assert_eq!(create_todo(&mut store, todo(1, "buy milk", false)), 201);
    assert_eq!(create_todo(&mut store, todo(1, "buy milk", false)), 400);
    let listed = list_todos(&store, ListOptions { offset: None, limit: Some(1) });
    assert_eq!(listed.len(), 1);
    assert_eq!(listed[0].text, "buy milk");
    assert_eq!(delete_todo(&mut store, 1), 204);
    assert_eq!(delete_todo(&mut store, 1), 404);
}

#[test]
fn create_then_list_contains_record() {
    let mut store = TodoStore::new();
    assert_eq!(store.create(todo(7, "write", true)), Ok(()));
    let listed = store.list(0, usize::MAX);
    assert_eq!(ids(&listed), vec![7]);
    assert_eq!(listed[0].text, "write");
    assert!(listed[0].completed);
}

#[test]
fn duplicate_create_leaves_store_unchanged() {
    let mut store = TodoStore::new();
    assert_eq!(store.create(todo(1, "a", false)), Ok(()));
    assert_eq!(store.create(todo(1, "b", true)), Err(StoreError::DuplicateKey));
    let listed = all(&store);
    assert_eq!(listed.len(), 1);
    assert_eq!(listed[0].text, "a");
    assert!(!listed[0].completed);
}

#[test]
fn update_replaces_record() {
    let mut store = new_store();
    create_todo(&mut store, todo(1, "old", false));
    create_todo(&mut store, todo(2, "other", false));
    assert_eq!(update_todo(&mut store, 1, todo(1, "new", true)), 200);
    let listed = all(&store);
    assert_eq!(ids(&listed), vec![1, 2]);
    assert_eq!(listed[0].text, "new");
    assert!(listed[0].completed);
    assert_eq!(listed[1].text, "other");
}

#[test]
fn update_keeps_path_identifier() {
    let mut store = new_store();
    create_todo(&mut store, todo(1, "old", false));
    assert_eq!(store.update(1, todo(9, "moved", false)), Ok(()));
    assert_eq!(ids(&all(&store)), vec![1]);
}

#[test]
fn update_missing_reports_not_found() {
    let mut store = new_store();
    create_todo(&mut store, todo(1, "keep", false));
    assert_eq!(update_todo(&mut store, 5, todo(5, "x", true)), 404);
    assert_eq!(store.update(5, todo(5, "x", true)), Err(StoreError::NotFound));
    let listed = all(&store);
    assert_eq!(ids(&listed), vec![1]);
    assert_eq!(listed[0].text, "keep");
}

#[test]
fn delete_removes_only_match() {
    let mut store = new_store();
    for i in 1..=3u64 {
        create_todo(&mut store, todo(i, "t", false));
    }
    assert_eq!(store.delete(2), Ok(()));
    assert_eq!(ids(&all(&store)), vec![1, 3]);
    assert_eq!(store.delete(2), Err(StoreError::NotFound));
    assert_eq!(ids(&all(&store)), vec![1, 3]);
}

#[test]
fn delete_on_empty_store() {
    let mut store = new_store();
    assert_eq!(delete_todo(&mut store, 1), 404);
    assert_eq!(store.len(), 0);
}

#[test]
fn list_offset_and_limit() {
    let mut store = new_store();
    for i in 1..=5u64 {
        create_todo(&mut store, todo(i, "t", false));
    }
    let page = list_todos(&store, ListOptions { offset: Some(1), limit: Some(2) });
    assert_eq!(ids(&page), vec![2, 3]);
    let tail = list_todos(&store, ListOptions { offset: Some(3), limit: None });
    assert_eq!(ids(&tail), vec![4, 5]);
    let past = list_todos(&store, ListOptions { offset: Some(9), limit: Some(2) });
    assert!(past.is_empty());
    let none = store.list(0, 0);
    assert!(none.is_empty());
    let big = store.list(4, usize::MAX);
    assert_eq!(ids(&big), vec![5]);
}

#[test]
fn distinct_creates_all_succeed() {
    let mut store = new_store();
    let batch: Vec<Todo> = (1..=4u64).map(|i| todo(i, "t", false)).collect();
    let results = store.create_all(batch);
    assert_eq!(results, vec![Ok(()), Ok(()), Ok(()), Ok(())]);
    assert_eq!(ids(&all(&store)), vec![1, 2, 3, 4]);
}

#[test]
fn same_id_creates_one_succeeds() {
    let mut store = new_store();
    let batch: Vec<Todo> = (0..4).map(|i| todo(3, if i == 0 { "first" } else { "later" }, false)).collect();
    let results = store.create_all(batch);
    assert_eq!(
        results,
        vec![
            Ok(()),
            Err(StoreError::DuplicateKey),
            Err(StoreError::DuplicateKey),
            Err(StoreError::DuplicateKey)
        ]
    );
    let listed = all(&store);
    assert_eq!(ids(&listed), vec![3]);
    assert_eq!(listed[0].text, "first");
}

#[test]
fn duplicate_copies_fields() {
    let t = todo(4, "copy me", true);
    let d = t.duplicate();
    assert_eq!(d.id, 4);
    assert_eq!(d.text, "copy me");
    assert!(d.completed);
}
