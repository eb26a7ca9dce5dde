use vstd::prelude::*;
use vstd::seq_lib::group_filter_ensures;

verus! {

/// One record of the store: a to-do item.
pub struct Todo {
    pub id: u64,
    pub text: String,
    pub completed: bool,
}

/// The mathematical value of a `Todo`.
pub struct TodoView {
    pub id: u64,
    pub text: Seq<char>,
    pub completed: bool,
}

impl View for Todo {
    type V = TodoView;

    open spec fn view(&self) -> TodoView {
        TodoView { id: self.id, text: self.text@, completed: self.completed }
    }
}

impl Todo {
    /// A copy of this record with the same id, text and flag.
    pub fn duplicate(&self) -> (r: Todo)
        ensures
            r@ == self@,
    {
        Todo { id: self.id, text: self.text.clone(), completed: self.completed }
    }
}

/// Paging options of a listing; a missing offset is 0, a missing limit is unbounded.
pub struct ListOptions {
    pub offset: Option<usize>,
    pub limit: Option<usize>,
}

/// Why a store operation was refused.
#[derive(PartialEq, Eq, Structural, Debug, Clone, Copy)]
pub enum StoreError {
    DuplicateKey,
    NotFound,
}

/// No two records share an identifier.
pub open spec fn ids_unique(s: Seq<TodoView>) -> bool {
    forall|i: int, j: int| 0 <= i < j < s.len() ==> #[trigger] s[i].id != #[trigger] s[j].id
}

/// Some record carries identifier `id`.
pub open spec fn has_id(s: Seq<TodoView>, id: u64) -> bool {
    exists|i: int| 0 <= i < s.len() && #[trigger] s[i].id == id
}

/// The records left after skipping `offset` of them and keeping at most `limit`.
pub open spec fn window(s: Seq<TodoView>, offset: nat, limit: nat) -> Seq<TodoView> {
    let start = if offset <= s.len() { offset as int } else { s.len() as int };
    let end = if start + limit <= s.len() { start + limit } else { s.len() as int };
    s.subrange(start, end)
}

/// The records of `s` whose identifier is not `id`, in their order.
pub open spec fn without_id(s: Seq<TodoView>, id: u64) -> Seq<TodoView> {
    s.filter(|t: TodoView| t.id != id)
}

/// `s` with every record of identifier `id` replaced by `r`.
pub open spec fn replaced(s: Seq<TodoView>, id: u64, r: TodoView) -> Seq<TodoView> {
    s.map_values(|t: TodoView| if t.id == id { r } else { t })
}

/// `t` carrying identifier `id`.
pub open spec fn with_id(t: TodoView, id: u64) -> TodoView {
    TodoView { id: id, ..t }
}

/// What `create` returns and the records it leaves.
pub open spec fn create_outcome(s: Seq<TodoView>, x: TodoView) -> (Result<(), StoreError>, Seq<TodoView>) {
    if has_id(s, x.id) {
        (Err(StoreError::DuplicateKey), s)
    } else {
        (Ok(()), s.push(x))
    }
}

/// What `update` returns and the records it leaves.
pub open spec fn update_outcome(s: Seq<TodoView>, id: u64, x: TodoView) -> (Result<(), StoreError>, Seq<TodoView>) {
    if has_id(s, id) {
        (Ok(()), replaced(s, id, with_id(x, id)))
    } else {
        (Err(StoreError::NotFound), s)
    }
}

/// What `delete` returns and the records it leaves.
pub open spec fn delete_outcome(s: Seq<TodoView>, id: u64) -> (Result<(), StoreError>, Seq<TodoView>) {
    if has_id(s, id) {
        (Ok(()), without_id(s, id))
    } else {
        (Err(StoreError::NotFound), s)
    }
}

/// The results and the records left by creating each of `xs` in turn, starting from `s`.
pub open spec fn creates_outcome(s: Seq<TodoView>, xs: Seq<TodoView>) -> (Seq<Result<(), StoreError>>, Seq<TodoView>)
    decreases xs.len(),
{
    if xs.len() == 0 {
        (Seq::empty(), s)
    } else {
        let prev = creates_outcome(s, xs.drop_last());
        let step = create_outcome(prev.1, xs.last());
        (prev.0.push(step.0), step.1)
    }
}

/// The values of a sequence of records.
pub open spec fn views(s: Seq<Todo>) -> Seq<TodoView> {
    s.map_values(|t: Todo| t@)
}

/// An in-memory collection of to-do records, kept in order of creation.
pub struct TodoStore {
    items: Vec<Todo>,
}

impl View for TodoStore {
    type V = Seq<TodoView>;

    closed spec fn view(&self) -> Seq<TodoView> {
        views(self.items@)
    }
}

impl TodoStore {
    /// Identifiers are unique within the store.
    pub open spec fn wf(&self) -> bool {
        ids_unique(self@)
    }

    /// An empty store.
    pub fn new() -> (r: TodoStore)
        ensures
            r.wf(),
            r@ == Seq::<TodoView>::empty(),
    {
        let r = TodoStore { items: Vec::new() };
        assert(r@ =~= Seq::<TodoView>::empty());
        r
    }

    /// Number of records held.
    pub fn len(&self) -> (r: usize)
        ensures
            r == self@.len(),
    {
        self.items.len()
    }

    /// Position of the record with identifier `id`, if any.
    fn position(&self, id: u64) -> (r: Option<usize>)
        ensures
            match r {
                Some(i) => i < self@.len() && self@[i as int].id == id,
                None => !has_id(self@, id),
            },
    {
        let mut i: usize = 0;
        while i < self.items.len()
            invariant
                i <= self.items.len(),
                self@.len() == self.items.len(),
                forall|k: int| 0 <= k < i ==> #[trigger] self@[k].id != id,
            decreases self.items.len() - i,
        {
            if self.items[i].id == id {
                return Some(i);
            }
            i = i + 1;
        }
        None
    }

    /// Copies of the records from position `offset` on, at most `limit` of them.
    pub fn list(&self, offset: usize, limit: usize) -> (r: Vec<Todo>)
        ensures
            views(r@) == window(self@, offset as nat, limit as nat),
    {
        let n = self.items.len();
        let start: usize = if offset <= n { offset } else { n };
        let end: usize = if limit <= n - start { start + limit } else { n };
        let mut out: Vec<Todo> = Vec::new();
        let mut i: usize = start;
        while i < end
            invariant
                start <= i <= end <= n,
                n == self.items.len(),
                self@.len() == n,
                views(out@) =~= self@.subrange(start as int, i as int),
            decreases end - i,
        {
            let ghost out0 = out@;
            let t = self.items[i].duplicate();
            out.push(t);
            assert(out@ == out0.push(t));
            assert(t@ == self@[i as int]);
            assert(views(out@) =~= views(out0).push(t@));
            assert(self@.subrange(start as int, i + 1) =~= self@.subrange(start as int, i as int).push(t@));
            i = i + 1;
            assert(views(out@) =~= self@.subrange(start as int, i as int));
        }
        out
    }

    /// Adds `todo` at the end unless its identifier is taken.
    pub fn create(&mut self, todo: Todo) -> (r: Result<(), StoreError>)
        requires
            old(self).wf(),
        ensures
            final(self).wf(),
            (r, final(self)@) == create_outcome(old(self)@, todo@),
    {
        match self.position(todo.id) {
            Some(_) => Err(StoreError::DuplicateKey),
            None => {
                let ghost before = self@;
                let ghost t = todo@;
                self.items.push(todo);
                assert(self@ =~= before.push(t));
                assert forall|i: int, j: int| 0 <= i < j < self@.len() implies
                    #[trigger] self@[i].id != #[trigger] self@[j].id by {
                    if j == before.len() {
                        assert(before[i].id == self@[i].id);
                    }
                }
                Ok(())
            },
        }
    }

    /// Replaces the record with identifier `id` by `todo`, which keeps identifier `id`.
    pub fn update(&mut self, id: u64, todo: Todo) -> (r: Result<(), StoreError>)
        requires
            old(self).wf(),
        ensures
            final(self).wf(),
            (r, final(self)@) == update_outcome(old(self)@, id, todo@),
    {
        match self.position(id) {
            None => Err(StoreError::NotFound),
            Some(i) => {
                let ghost before = self@;
                let todo = Todo { id: id, text: todo.text, completed: todo.completed };
                let ghost t = todo@;
                self.items.set(i, todo);
                assert(self@ =~= replaced(before, id, t)) by {
                    assert forall|k: int| 0 <= k < before.len() && k != i implies
                        #[trigger] before[k].id != id by {
                        if k < i {
                            assert(before[k].id != before[i as int].id);
                        } else {
                            assert(before[i as int].id != before[k].id);
                        }
                    }
                }
                assert(self@ =~= before.update(i as int, t));
                Ok(())
            },
        }
    }

    /// Removes every record with identifier `id`.
    pub fn delete(&mut self, id: u64) -> (r: Result<(), StoreError>)
        requires
            old(self).wf(),
        ensures
            final(self).wf(),
            (r, final(self)@) == delete_outcome(old(self)@, id),
    {
        let ghost before = self@;
        let mut kept: Vec<Todo> = Vec::new();
        let mut removed = false;
        let mut i: usize = 0;
        while i < self.items.len()
            invariant
                i <= self.items.len(),
                before == views(self.items@),
                ids_unique(before),
                views(kept@) == without_id(before.subrange(0, i as int), id),
                ids_unique(views(kept@)),
                forall|m: int| 0 <= m < kept@.len() ==> exists|k: int| 0 <= k < i
                    && (#[trigger] kept@[m])@.id == before[k].id,
                removed == has_id(before.subrange(0, i as int), id),
                !removed ==> views(kept@) =~= before.subrange(0, i as int),
            decreases self.items.len() - i,
        {
            let ghost pre = before.subrange(0, i as int);
            let ghost next = before.subrange(0, i as int + 1);
            let ghost kv = views(kept@);
            assert(next.drop_last() =~= pre);
            assert(next.last() == before[i as int]);
            assert(without_id(next, id) == if before[i as int].id != id {
                without_id(pre, id).push(before[i as int])
            } else {
                without_id(pre, id)
            }) by {
                reveal(Seq::filter);
            }
            let ghost kept0 = kept@;
            if self.items[i].id != id {
                kept.push(self.items[i].duplicate());
                let ghost kv2 = views(kept@);
                assert(kv2 =~= kv.push(before[i as int]));
                assert forall|a: int, b: int| 0 <= a < b < kv2.len() implies
                    #[trigger] kv2[a].id != #[trigger] kv2[b].id by {
                    if b == kv.len() {
                        assert(kv[a] == kept@[a]@);
                        let k = choose|k: int| 0 <= k < i && kept@[a]@.id == before[k].id;
                        assert(before[k].id != before[i as int].id);
                    } else {
                        assert(kv[a] == kv2[a] && kv[b] == kv2[b]);
                    }
                }
                assert forall|m: int| 0 <= m < kept@.len() implies exists|k: int| 0 <= k < i + 1
                    && (#[trigger] kept@[m])@.id == before[k].id by {
                    if m < kv.len() {
                        let k = choose|k: int| 0 <= k < i && kept0[m]@.id == before[k].id;
                        assert(kept@[m] == kept0[m]);
                    } else {
                        assert(kept@[m]@.id == before[i as int].id);
                    }
                }
            } else {
                removed = true;
            }
            assert(has_id(next, id) == (has_id(pre, id) || before[i as int].id == id)) by {
                if has_id(pre, id) {
                    let k = choose|k: int| 0 <= k < pre.len() && pre[k].id == id;
                    assert(next[k] == pre[k]);
                }
                if has_id(next, id) && before[i as int].id != id {
                    let k = choose|k: int| 0 <= k < next.len() && next[k].id == id;
                    assert(pre[k] == next[k]);
                }
                if before[i as int].id == id {
                    assert(next[i as int] == before[i as int]);
                }
            }
            i = i + 1;
            assert(!removed ==> views(kept@) =~= next);
        }
        self.items = kept;
        assert(before.subrange(0, before.len() as int) =~= before);
        if removed {
            Ok(())
        } else {
            Err(StoreError::NotFound)
        }
    }

    /// Creates each of `todos` in turn, as requests serialized by the store would, and
    /// returns each create's result.
    pub fn create_all(&mut self, todos: Vec<Todo>) -> (r: Vec<Result<(), StoreError>>)
        requires
            old(self).wf(),
        ensures
            final(self).wf(),
            (r@, final(self)@) == creates_outcome(old(self)@, views(todos@)),
    {
        let ghost before = self@;
        let mut results: Vec<Result<(), StoreError>> = Vec::new();
        let mut i: usize = 0;
        while i < todos.len()
            invariant
                i <= todos.len(),
                self.wf(),
                (results@, self@) == creates_outcome(before, views(todos@).subrange(0, i as int)),
            decreases todos.len() - i,
        {
            let ghost xs = views(todos@).subrange(0, i as int + 1);
            assert(xs.drop_last() =~= views(todos@).subrange(0, i as int));
            assert(xs.last() == todos@[i as int]@);
            let t = todos[i].duplicate();
            let r = self.create(t);
            results.push(r);
            i = i + 1;
        }
        assert(views(todos@).subrange(0, todos@.len() as int) =~= views(todos@));
        results
    }
}

/// A created record with a free identifier shows up in a listing of the whole store, and
/// creating it a second time is refused with `DuplicateKey`, leaving the store as it was.
pub proof fn lemma_create_round_trip(s: Seq<TodoView>, x: TodoView)
    requires
        ids_unique(s),
        !has_id(s, x.id),
        s.len() < usize::MAX,
    ensures
        create_outcome(s, x).0 == Ok::<(), StoreError>(()),
        window(create_outcome(s, x).1, 0, usize::MAX as nat).contains(x),
        create_outcome(create_outcome(s, x).1, x) == (
            Err::<(), StoreError>(StoreError::DuplicateKey),
            create_outcome(s, x).1,
        ),
{
    let s1 = s.push(x);
    assert(window(s1, 0, usize::MAX as nat) =~= s1);
    assert(s1[s.len() as int] == x);
    assert(has_id(s1, x.id));
}

/// A create whose identifier is taken is refused with `DuplicateKey` and changes nothing.
pub proof fn lemma_create_duplicate_unchanged(s: Seq<TodoView>, x: TodoView)
    requires
        has_id(s, x.id),
    ensures
        create_outcome(s, x) == (Err::<(), StoreError>(StoreError::DuplicateKey), s),
{
}

/// An update of a present identifier replaces its record: a full listing then holds the
/// new value, and every record with that identifier is the new value.
pub proof fn lemma_update_replaces(s: Seq<TodoView>, id: u64, y: TodoView)
    requires
        ids_unique(s),
        has_id(s, id),
        s.len() <= usize::MAX,
    ensures
        update_outcome(s, id, y).0 == Ok::<(), StoreError>(()),
        window(update_outcome(s, id, y).1, 0, usize::MAX as nat).contains(with_id(y, id)),
        forall|i: int| 0 <= i < update_outcome(s, id, y).1.len()
            && (#[trigger] update_outcome(s, id, y).1[i]).id == id
            ==> update_outcome(s, id, y).1[i] == with_id(y, id),
{
    let s1 = update_outcome(s, id, y).1;
    assert(window(s1, 0, usize::MAX as nat) =~= s1);
    let k = choose|k: int| 0 <= k < s.len() && s[k].id == id;
    assert(s1[k] == with_id(y, id));
}

/// An update of an absent identifier reports `NotFound` and changes nothing.
pub proof fn lemma_update_missing_unchanged(s: Seq<TodoView>, id: u64, y: TodoView)
    requires
        !has_id(s, id),
    ensures
        update_outcome(s, id, y) == (Err::<(), StoreError>(StoreError::NotFound), s),
{
}

/// A delete of a present identifier removes exactly the records with that identifier, and
/// a second delete of it reports `NotFound` and changes nothing.
pub proof fn lemma_delete_exact(s: Seq<TodoView>, id: u64)
    requires
        has_id(s, id),
    ensures
        delete_outcome(s, id).0 == Ok::<(), StoreError>(()),
        !has_id(delete_outcome(s, id).1, id),
        forall|t: TodoView| s.contains(t) && t.id != id ==> #[trigger] delete_outcome(s, id).1.contains(t),
        forall|t: TodoView| #[trigger] delete_outcome(s, id).1.contains(t) ==> s.contains(t) && t.id != id,
        delete_outcome(delete_outcome(s, id).1, id) == (
            Err::<(), StoreError>(StoreError::NotFound),
            delete_outcome(s, id).1,
        ),
{
    broadcast use group_filter_ensures;
    let p = |t: TodoView| t.id != id;
    let s1 = s.filter(p);
    assert(s1 == delete_outcome(s, id).1);
    assert(!has_id(s1, id)) by {
        if has_id(s1, id) {
            let k = choose|k: int| 0 <= k < s1.len() && s1[k].id == id;
            assert(p(s1[k]));
        }
    }
    assert forall|t: TodoView| s.contains(t) && t.id != id implies #[trigger] s1.contains(t) by {
        let k = choose|k: int| 0 <= k < s.len() && s[k] == t;
        assert(p(s[k]));
    }
    assert forall|t: TodoView| #[trigger] s1.contains(t) implies s.contains(t) && t.id != id by {
        s.lemma_filter_contains_rev(p, t);
        let k = choose|k: int| 0 <= k < s1.len() && s1[k] == t;
        assert(p(s1[k]));
    }
}

/// Creates with pairwise distinct identifiers, none of them already stored, all succeed,
/// and the store then holds every one of them after the records it had.
pub proof fn lemma_distinct_creates_all_succeed(s: Seq<TodoView>, xs: Seq<TodoView>)
    requires
        ids_unique(xs),
        forall|i: int| 0 <= i < xs.len() ==> !has_id(s, #[trigger] xs[i].id),
    ensures
        creates_outcome(s, xs).0 == Seq::new(xs.len(), |i: int| Ok::<(), StoreError>(())),
        creates_outcome(s, xs).1 == s + xs,
    decreases xs.len(),
{
    if xs.len() > 0 {
        let init = xs.drop_last();
        assert forall|i: int, j: int| 0 <= i < j < init.len() implies
            #[trigger] init[i].id != #[trigger] init[j].id by {
            assert(xs[i].id != xs[j].id);
        }
        assert forall|i: int| 0 <= i < init.len() implies !has_id(s, #[trigger] init[i].id) by {
            assert(init[i] == xs[i]);
        }
        lemma_distinct_creates_all_succeed(s, init);
        let x = xs.last();
        let mid = s + init;
        assert(!has_id(mid, x.id)) by {
            if has_id(mid, x.id) {
                let k = choose|k: int| 0 <= k < mid.len() && mid[k].id == x.id;
                if k < s.len() {
                    assert(s[k] == mid[k]);
                    assert(xs[xs.len() - 1] == x);
                } else {
                    assert(mid[k] == xs[k - s.len()]);
                    assert(xs[k - s.len()].id != xs[xs.len() - 1].id);
                }
            }
        }
        assert(mid.push(x) =~= s + xs);
        assert(creates_outcome(s, init).0.push(Ok::<(), StoreError>(())) =~= Seq::new(
            xs.len(),
            |i: int| Ok::<(), StoreError>(()),
        ));
    } else {
        assert(s + xs =~= s);
        assert(Seq::<Result<(), StoreError>>::empty() =~= Seq::new(
            xs.len(),
            |i: int| Ok::<(), StoreError>(()),
        ));
    }
}

/// Creates that all carry one identifier, absent from the store, give exactly one success:
/// the first; every later one is refused with `DuplicateKey`, and only the first is stored.
pub proof fn lemma_same_id_creates_one_succeeds(s: Seq<TodoView>, xs: Seq<TodoView>, id: u64)
    requires
        xs.len() > 0,
        forall|i: int| 0 <= i < xs.len() ==> (#[trigger] xs[i]).id == id,
        !has_id(s, id),
    ensures
        creates_outcome(s, xs).0.len() == xs.len(),
        creates_outcome(s, xs).0[0] == Ok::<(), StoreError>(()),
        forall|i: int| 0 < i < xs.len() ==> #[trigger] creates_outcome(s, xs).0[i]
            == Err::<(), StoreError>(StoreError::DuplicateKey),
        creates_outcome(s, xs).1 == s.push(xs[0]),
    decreases xs.len(),
{
    let init = xs.drop_last();
    if xs.len() == 1 {
        assert(init.len() == 0);
        assert(xs.last() == xs[0]);
    } else {
        assert forall|i: int| 0 <= i < init.len() implies (#[trigger] init[i]).id == id by {
            assert(init[i] == xs[i]);
        }
        lemma_same_id_creates_one_succeeds(s, init, id);
        let mid = s.push(xs[0]);
        assert(init[0] == xs[0]);
        assert(mid[s.len() as int] == xs[0]);
        assert(xs.last() == xs[xs.len() - 1]);
        assert(has_id(mid, xs.last().id));
    }
}

} // verus!
