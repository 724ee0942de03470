use vstd::prelude::*;

verus! {

/// A table from identities to objects. Each identity appears at most once;
/// an identity that is unknown or stale is simply absent.
pub struct Storage<T> {
    pub entries: Vec<(u64, T)>,
}

/// Whether `id` occurs among `entries`.
pub open spec fn has_key<T>(entries: Seq<(u64, T)>, id: u64) -> bool {
    exists|i: int| 0 <= i < entries.len() && #[trigger] entries[i].0 == id
}

/// The identities of `entries` are pairwise distinct.
pub open spec fn keys_unique<T>(entries: Seq<(u64, T)>) -> bool {
    forall|i: int, j: int|
        0 <= i < entries.len() && 0 <= j < entries.len() && i != j ==> #[trigger] entries[i].0
            != #[trigger] entries[j].0
}

/// The map that a list of entries with distinct identities stands for.
pub open spec fn map_of<T>(entries: Seq<(u64, T)>) -> Map<u64, T> {
    Map::new(
        |id: u64| has_key(entries, id),
        |id: u64| entries[choose|i: int| 0 <= i < entries.len() && #[trigger] entries[i].0 == id].1,
    )
}

/// With distinct identities, each entry is what the map holds for its identity.
pub proof fn lemma_map_of_entry<T>(entries: Seq<(u64, T)>, i: int)
    requires
        keys_unique(entries),
        0 <= i < entries.len(),
    ensures
        map_of(entries).contains_key(entries[i].0),
        map_of(entries)[entries[i].0] == entries[i].1,
{
    let id = entries[i].0;
    assert(has_key(entries, id));
    let j = choose|j: int| 0 <= j < entries.len() && #[trigger] entries[j].0 == id;
    assert(entries[j].0 == entries[i].0);
}

/// Replacing the object of one entry, identity kept, replaces it in the map.
pub proof fn lemma_map_of_update<T>(entries: Seq<(u64, T)>, i: int, v: T)
    requires
        keys_unique(entries),
        0 <= i < entries.len(),
    ensures
        keys_unique(entries.update(i, (entries[i].0, v))),
        map_of(entries.update(i, (entries[i].0, v))) == map_of(entries).insert(entries[i].0, v),
{
    let e2 = entries.update(i, (entries[i].0, v));
    assert forall|a: int, b: int|
        0 <= a < e2.len() && 0 <= b < e2.len() && a != b implies #[trigger] e2[a].0
            != #[trigger] e2[b].0 by {
        assert(e2[a].0 == entries[a].0);
        assert(e2[b].0 == entries[b].0);
    }
    assert forall|id: u64| has_key(e2, id) == has_key(entries, id) by {
        if has_key(e2, id) {
            let j = choose|j: int| 0 <= j < e2.len() && #[trigger] e2[j].0 == id;
            assert(entries[j].0 == id);
        }
        if has_key(entries, id) {
            let j = choose|j: int| 0 <= j < entries.len() && #[trigger] entries[j].0 == id;
            assert(e2[j].0 == id);
        }
    }
    assert forall|id: u64| #[trigger] map_of(e2).contains_key(id) implies map_of(e2)[id] == map_of(
        entries,
    ).insert(entries[i].0, v)[id] by {
        let j = choose|j: int| 0 <= j < e2.len() && #[trigger] e2[j].0 == id;
        lemma_map_of_entry(e2, j);
        if j != i {
            lemma_map_of_entry(entries, j);
        }
    }
    assert(map_of(e2) =~= map_of(entries).insert(entries[i].0, v));
}

/// Appending an entry with a new identity adds it to the map.
pub proof fn lemma_map_of_push<T>(entries: Seq<(u64, T)>, id: u64, v: T)
    requires
        keys_unique(entries),
        !has_key(entries, id),
    ensures
        keys_unique(entries.push((id, v))),
        map_of(entries.push((id, v))) == map_of(entries).insert(id, v),
{
    let e2 = entries.push((id, v));
    let n = entries.len() as int;
    assert forall|a: int, b: int|
        0 <= a < e2.len() && 0 <= b < e2.len() && a != b implies #[trigger] e2[a].0
            != #[trigger] e2[b].0 by {
        if a < n && b < n {
            assert(e2[a].0 == entries[a].0);
            assert(e2[b].0 == entries[b].0);
        } else if a < n {
            assert(e2[a].0 == entries[a].0);
        } else if b < n {
            assert(e2[b].0 == entries[b].0);
        }
    }
    assert forall|k: u64| has_key(e2, k) == (has_key(entries, k) || k == id) by {
        if has_key(e2, k) {
            let j = choose|j: int| 0 <= j < e2.len() && #[trigger] e2[j].0 == k;
            if j < n {
                assert(entries[j].0 == k);
            }
        }
        if has_key(entries, k) {
            let j = choose|j: int| 0 <= j < entries.len() && #[trigger] entries[j].0 == k;
            assert(e2[j].0 == k);
        }
        if k == id {
            assert(e2[n].0 == k);
        }
    }
    assert forall|k: u64| #[trigger] map_of(e2).contains_key(k) implies map_of(e2)[k] == map_of(
        entries,
    ).insert(id, v)[k] by {
        let j = choose|j: int| 0 <= j < e2.len() && #[trigger] e2[j].0 == k;
        lemma_map_of_entry(e2, j);
        if j < n {
            assert(entries[j] == e2[j]);
            lemma_map_of_entry(entries, j);
        }
    }
    assert(map_of(e2) =~= map_of(entries).insert(id, v));
}

impl<T> View for Storage<T> {
    type V = Map<u64, T>;

    open spec fn view(&self) -> Map<u64, T> {
        map_of(self.entries@)
    }
}

impl<T> Storage<T> {
    /// Each identity appears at most once.
    pub open spec fn wf(&self) -> bool {
        keys_unique(self.entries@)
    }

    /// An empty table.
    pub fn new() -> (r: Self)
        ensures
            r.wf(),
            r@ == Map::<u64, T>::empty(),
    {
        let r = Storage { entries: Vec::new() };
        assert(r@ =~= Map::<u64, T>::empty());
        r
    }

    /// Where `id` stands in the table, if it is present.
    pub fn index_of(&self, id: u64) -> (r: Option<usize>)
        requires
            self.wf(),
        ensures
            r.is_none() == !self@.contains_key(id),
            r matches Some(i) ==> i < self.entries@.len() && self.entries@[i as int].0 == id,
    {
        let mut i: usize = 0;
        while i < self.entries.len()
            invariant
                i <= self.entries@.len(),
                forall|j: int| 0 <= j < i ==> #[trigger] self.entries@[j].0 != id,
            decreases self.entries@.len() - i,
        {
            if self.entries[i].0 == id {
                return Some(i);
            }
            i = i + 1;
        }
        None
    }

    /// The object of `id`, if it is present.
    pub fn get(&self, id: u64) -> (r: Option<&T>)
        requires
            self.wf(),
        ensures
            r.is_none() == !self@.contains_key(id),
            r matches Some(v) ==> *v == self@[id],
    {
        match self.index_of(id) {
            Some(i) => {
                proof {
                    lemma_map_of_entry(self.entries@, i as int);
                }
                Some(&self.entries[i].1)
            },
            None => None,
        }
    }

    /// Puts `value` under `id`, replacing what was there.
    pub fn insert(&mut self, id: u64, value: T)
        requires
            old(self).wf(),
        ensures
            final(self).wf(),
            final(self)@ == old(self)@.insert(id, value),
    {
        match self.index_of(id) {
            Some(i) => {
                proof {
                    lemma_map_of_update(self.entries@, i as int, value);
                }
                self.entries.set(i, (id, value));
            },
            None => {
                proof {
                    lemma_map_of_push(self.entries@, id, value);
                }
                self.entries.push((id, value));
            },
        }
    }
}

} // verus!
