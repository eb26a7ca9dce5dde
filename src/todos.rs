use vstd::prelude::*;
use crate::store::{
    ListOptions, Todo, TodoStore, TodoView, StoreError, create_outcome, update_outcome,
    delete_outcome, window, views,
};

verus! {

/// Status of a listing or a successful update.
pub const STATUS_OK: u16 = 200;

/// Status of a successful create.
pub const STATUS_CREATED: u16 = 201;

/// Status of a successful delete.
pub const STATUS_NO_CONTENT: u16 = 204;

/// Status of a create whose identifier is taken.
pub const STATUS_BAD_REQUEST: u16 = 400;

/// Status of an update or delete whose identifier is absent.
pub const STATUS_NOT_FOUND: u16 = 404;

/// The status that answers a create with result `r`.
pub open spec fn create_status(r: Result<(), StoreError>) -> u16 {
    if r is Ok { STATUS_CREATED } else { STATUS_BAD_REQUEST }
}

/// The status that answers an update with result `r`.
pub open spec fn update_status(r: Result<(), StoreError>) -> u16 {
    if r is Ok { STATUS_OK } else { STATUS_NOT_FOUND }
}

/// The status that answers a delete with result `r`.
pub open spec fn delete_status(r: Result<(), StoreError>) -> u16 {
    if r is Ok { STATUS_NO_CONTENT } else { STATUS_NOT_FOUND }
}

/// The offset that a listing uses: 0 when none is given.
pub open spec fn offset_of(opts: ListOptions) -> nat {
    match opts.offset {
        Some(o) => o as nat,
        None => 0,
    }
}

/// The limit that a listing uses: unbounded (the largest `usize`) when none is given.
pub open spec fn limit_of(opts: ListOptions) -> nat {
    match opts.limit {
        Some(l) => l as nat,
        None => usize::MAX as nat,
    }
}

/// A fresh, empty store.
pub fn new_store() -> (r: TodoStore)
    ensures
        r.wf(),
        r@ == Seq::<TodoView>::empty(),
{
    TodoStore::new()
}

/// Lists the records that `opts` selects: skip `offset`, then keep at most `limit`.
pub fn list_todos(store: &TodoStore, opts: ListOptions) -> (r: Vec<Todo>)
    ensures
        views(r@) == window(store@, offset_of(opts), limit_of(opts)),
{
    let offset: usize = match opts.offset {
        Some(o) => o,
        None => 0,
    };
    let limit: usize = match opts.limit {
        Some(l) => l,
        None => usize::MAX,
    };
    store.list(offset, limit)
}

/// Creates `todo`: 201 when its identifier was free, 400 (and no change) when taken.
pub fn create_todo(store: &mut TodoStore, todo: Todo) -> (status: u16)
    requires
        old(store).wf(),
    ensures
        final(store).wf(),
        final(store)@ == create_outcome(old(store)@, todo@).1,
        status == create_status(create_outcome(old(store)@, todo@).0),
{
    match store.create(todo) {
        Ok(()) => STATUS_CREATED,
        Err(_) => STATUS_BAD_REQUEST,
    }
}

/// Replaces the record `id` by `todo`: 200 when found, 404 (and no change) when absent.
pub fn update_todo(store: &mut TodoStore, id: u64, todo: Todo) -> (status: u16)
    requires
        old(store).wf(),
    ensures
        final(store).wf(),
        final(store)@ == update_outcome(old(store)@, id, todo@).1,
        status == update_status(update_outcome(old(store)@, id, todo@).0),
{
    match store.update(id, todo) {
        Ok(()) => STATUS_OK,
        Err(_) => STATUS_NOT_FOUND,
    }
}

/// Deletes the record `id`: 204 when found, 404 (and no change) when absent.
pub fn delete_todo(store: &mut TodoStore, id: u64) -> (status: u16)
    requires
        old(store).wf(),
    ensures
        final(store).wf(),
        final(store)@ == delete_outcome(old(store)@, id).1,
        status == delete_status(delete_outcome(old(store)@, id).0),
{
    match store.delete(id) {
        Ok(()) => STATUS_NO_CONTENT,
        Err(_) => STATUS_NOT_FOUND,
    }
}

} // verus!
