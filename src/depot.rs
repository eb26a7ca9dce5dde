use vstd::prelude::*;

verus! {

/// A value kept in a depot, tagged with its shape.
pub enum DepotValue {
    Text(String),
    Number(i64),
    Flag(bool),
}

/// The mathematical value of a `DepotValue`.
pub enum ValueView {
    Text(Seq<char>),
    Number(i64),
    Flag(bool),
}

impl View for DepotValue {
    type V = ValueView;

    open spec fn view(&self) -> ValueView {
        match self {
            DepotValue::Text(s) => ValueView::Text(s@),
            DepotValue::Number(n) => ValueView::Number(*n),
            DepotValue::Flag(b) => ValueView::Flag(*b),
        }
    }
}

impl DepotValue {
    /// A copy of this value.
    pub fn duplicate(&self) -> (r: DepotValue)
        ensures
            r@ == self@,
    {
        match self {
            DepotValue::Text(s) => DepotValue::Text(s.clone()),
            DepotValue::Number(n) => DepotValue::Number(*n),
            DepotValue::Flag(b) => DepotValue::Flag(*b),
        }
    }
}

/// Per-request scratch space through which middleware hand values to the goal handler.
pub struct Depot {
    entries: Vec<(String, DepotValue)>,
    contents: Ghost<Map<Seq<char>, ValueView>>,
}

impl View for Depot {
    type V = Map<Seq<char>, ValueView>;

    closed spec fn view(&self) -> Map<Seq<char>, ValueView> {
        self.contents@
    }
}

impl Depot {
    /// The entries hold each key once and are exactly what the view maps.
    pub closed spec fn wf(&self) -> bool {
        &&& forall|i: int, j: int| 0 <= i < j < self.entries@.len() ==> #[trigger] self.entries@[i].0@
            != #[trigger] self.entries@[j].0@
        &&& forall|i: int| 0 <= i < self.entries@.len() ==> self.contents@.contains_key(
            #[trigger] self.entries@[i].0@,
        ) && self.contents@[self.entries@[i].0@] == self.entries@[i].1@
        &&& forall|k: Seq<char>| #[trigger] self.contents@.contains_key(k) ==> exists|i: int|
            0 <= i < self.entries@.len() && #[trigger] self.entries@[i].0@ == k
    }

    /// An empty depot.
    pub fn new() -> (r: Depot)
        ensures
            r.wf(),
            r@ == Map::<Seq<char>, ValueView>::empty(),
    {
        Depot { entries: Vec::new(), contents: Ghost(Map::empty()) }
    }

    /// Position of the entry with key `key`, if any.
    fn position(&self, key: &String) -> (r: Option<usize>)
        requires
            self.wf(),
        ensures
            match r {
                Some(i) => i < self.entries@.len() && self.entries@[i as int].0@ == key@,
                None => !self@.contains_key(key@),
            },
    {
        let mut i: usize = 0;
        while i < self.entries.len()
            invariant
                i <= self.entries.len(),
                self.wf(),
                forall|k: int| 0 <= k < i ==> #[trigger] self.entries@[k].0@ != key@,
            decreases self.entries.len() - i,
        {
            if self.entries[i].0 == *key {
                return Some(i);
            }
            i = i + 1;
        }
        None
    }

    /// Stores `value` under `key`, replacing what was there.
    pub fn insert(&mut self, key: String, value: DepotValue)
        requires
            old(self).wf(),
        ensures
            final(self).wf(),
            final(self)@ == old(self)@.insert(key@, value@),
    {
        let ghost k = key@;
        let ghost v = value@;
        let ghost before = self.entries@;
        match self.position(&key) {
            Some(i) => {
                self.entries.set(i, (key, value));
                self.contents = Ghost(self.contents@.insert(k, v));
                assert forall|a: int, b: int| 0 <= a < b < self.entries@.len() implies
                    #[trigger] self.entries@[a].0@ != #[trigger] self.entries@[b].0@ by {
                    assert(before[a].0@ != before[b].0@);
                }
                assert forall|q: Seq<char>| #[trigger] self.contents@.contains_key(q) implies exists|j: int|
                    0 <= j < self.entries@.len() && #[trigger] self.entries@[j].0@ == q by {
                    if q != k {
                        let j = choose|j: int| 0 <= j < before.len() && #[trigger] before[j].0@ == q;
                        assert(self.entries@[j].0@ == q);
                    } else {
                        assert(self.entries@[i as int].0@ == q);
                    }
                }
            },
            None => {
                self.entries.push((key, value));
                self.contents = Ghost(self.contents@.insert(k, v));
                let ghost n = before.len() as int;
                assert forall|a: int, b: int| 0 <= a < b < self.entries@.len() implies
                    #[trigger] self.entries@[a].0@ != #[trigger] self.entries@[b].0@ by {
                    if b == n {
                        assert(old(self)@.contains_key(before[a].0@));
                    } else {
                        assert(before[a].0@ != before[b].0@);
                    }
                }
                assert forall|a: int| 0 <= a < self.entries@.len() implies self.contents@.contains_key(
                    #[trigger] self.entries@[a].0@,
                ) && self.contents@[self.entries@[a].0@] == self.entries@[a].1@ by {
                    if a < n {
                        assert(old(self)@.contains_key(before[a].0@));
                    }
                }
                assert forall|q: Seq<char>| #[trigger] self.contents@.contains_key(q) implies exists|j: int|
                    0 <= j < self.entries@.len() && #[trigger] self.entries@[j].0@ == q by {
                    if q != k {
                        let j = choose|j: int| 0 <= j < before.len() && #[trigger] before[j].0@ == q;
                        assert(self.entries@[j].0@ == q);
                    } else {
                        assert(self.entries@[n].0@ == q);
                    }
                }
            },
        }
    }

    /// The value under `key`, if any.
    pub fn get(&self, key: &String) -> (r: Option<&DepotValue>)
        requires
            self.wf(),
        ensures
            r is Some <==> self@.contains_key(key@),
            r matches Some(v) ==> v@ == self@[key@],
    {
        match self.position(key) {
            Some(i) => Some(&self.entries[i].1),
            None => None,
        }
    }

    /// The text under `key`; `None` when the key is absent or holds another shape.
    pub fn get_text(&self, key: &String) -> (r: Option<String>)
        requires
            self.wf(),
        ensures
            r is Some <==> (self@.contains_key(key@) && self@[key@] is Text),
            r matches Some(s) ==> self@[key@] == ValueView::Text(s@),
    {
        match self.get(key) {
            Some(DepotValue::Text(s)) => Some(s.clone()),
            _ => None,
        }
    }
}

} // verus!
