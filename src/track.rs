use vstd::prelude::*;

use crate::storage::{lemma_map_of_entry, Storage};

verus! {

/// The usage that `m` records for `id`: `None` when the resource is untracked.
pub open spec fn usage_of(m: Map<u64, u32>, id: u64) -> Option<u32> {
    if m.contains_key(id) {
        Some(m[id])
    } else {
        None
    }
}

/// A change of usage of one resource that needs synchronization.
#[derive(Clone, Copy, Debug, PartialEq, Eq)]
pub struct PendingTransition {
    pub id: u64,
    /// The usage before, `None` when the resource was untracked.
    pub before: Option<u32>,
    pub after: u32,
}

/// `t` is a transition that reconciling `head` into `base` calls for.
pub open spec fn is_transition(base: Map<u64, u32>, head: Map<u64, u32>, t: PendingTransition) -> bool {
    &&& head.contains_key(t.id)
    &&& t.after == head[t.id]
    &&& t.before == usage_of(base, t.id)
    &&& t.before != Some(t.after)
}

/// `r` holds one transition for each resource of `head` whose usage differs
/// from the one in `base`, and nothing else.
pub open spec fn transitions_exact(
    base: Map<u64, u32>,
    head: Map<u64, u32>,
    r: Seq<PendingTransition>,
) -> bool {
    &&& forall|k: int| 0 <= k < r.len() ==> is_transition(base, head, #[trigger] r[k])
    &&& forall|id: u64|
        #[trigger] head.contains_key(id) && usage_of(base, id) != Some(head[id]) ==> exists|k: int|
            0 <= k < r.len() && #[trigger] r[k].id == id
    &&& forall|a: int, b: int|
        0 <= a < r.len() && 0 <= b < r.len() && a != b ==> #[trigger] r[a].id != #[trigger] r[b].id
}

/// A reconciliation reports a resource if and only if `head` tracks it with
/// a usage other than the one `base` records for it (untracked in `base`
/// counting as different): no spurious and no missing transition.
pub proof fn lemma_transition_iff_changed(
    base: Map<u64, u32>,
    head: Map<u64, u32>,
    r: Seq<PendingTransition>,
    id: u64,
)
    requires
        transitions_exact(base, head, r),
    ensures
        (exists|k: int| 0 <= k < r.len() && #[trigger] r[k].id == id) <==> (head.contains_key(id)
            && usage_of(base, id) != Some(head[id])),
{
    if exists|k: int| 0 <= k < r.len() && #[trigger] r[k].id == id {
        let k = choose|k: int| 0 <= k < r.len() && #[trigger] r[k].id == id;
        assert(is_transition(base, head, r[k]));
    }
}

/// The identities of the first `n` entries.
pub open spec fn prefix_keys(entries: Seq<(u64, u32)>, n: int) -> Set<u64> {
    Set::new(|id: u64| exists|j: int| 0 <= j < n && #[trigger] entries[j].0 == id)
}

/// Usage tracker of a hazard-bearing category (buffers, textures): one usage
/// value per resource identity.
pub struct ResourceTracker {
    pub states: Storage<u32>,
}

impl View for ResourceTracker {
    type V = Map<u64, u32>;

    open spec fn view(&self) -> Map<u64, u32> {
        self.states@
    }
}

impl ResourceTracker {
    pub open spec fn wf(&self) -> bool {
        self.states.wf()
    }

    /// A tracker that tracks nothing.
    pub fn new() -> (r: Self)
        ensures
            r.wf(),
            r@ == Map::<u64, u32>::empty(),
    {
        ResourceTracker { states: Storage::new() }
    }

    /// The usage recorded for `id`, if it is tracked.
    pub fn query(&self, id: u64) -> (r: Option<u32>)
        requires
            self.wf(),
        ensures
            r == usage_of(self@, id),
    {
        match self.states.get(id) {
            Some(u) => Some(*u),
            None => None,
        }
    }

    /// Records `usage` for `id`.
    pub fn set(&mut self, id: u64, usage: u32)
        requires
            old(self).wf(),
        ensures
            final(self).wf(),
            final(self)@ == old(self)@.insert(id, usage),
    {
        self.states.insert(id, usage);
    }

    /// Reconciles `head` into this tracker: every usage of `head` replaces the
    /// one recorded here, and each resource whose usage changes (untracked
    /// counting as a usage of its own) yields exactly one transition.
    pub fn merge_replace(&mut self, head: &ResourceTracker) -> (r: Vec<PendingTransition>)
        requires
            old(self).wf(),
            head.wf(),
        ensures
            final(self).wf(),
            final(self)@ == old(self)@.union_prefer_right(head@),
            transitions_exact(old(self)@, head@, r@),
    {
        let ghost base = self@;
        let ghost entries = head.states.entries@;
        let mut r: Vec<PendingTransition> = Vec::new();
        let mut i: usize = 0;
        assert(self@ =~= base.union_prefer_right(head@.restrict(prefix_keys(entries, 0))));
        while i < head.states.entries.len()
            invariant
                head.wf(),
                entries == head.states.entries@,
                i <= entries.len(),
                self.wf(),
                self@ == base.union_prefer_right(head@.restrict(prefix_keys(entries, i as int))),
                forall|k: int|
                    0 <= k < r@.len() ==> is_transition(base, head@, #[trigger] r@[k])
                        && prefix_keys(entries, i as int).contains(r@[k].id),
                forall|j: int|
                    0 <= j < i && usage_of(base, #[trigger] entries[j].0) != Some(entries[j].1)
                        ==> exists|k: int| 0 <= k < r@.len() && #[trigger] r@[k].id == entries[j].0,
                forall|a: int, b: int|
                    0 <= a < r@.len() && 0 <= b < r@.len() && a != b ==> #[trigger] r@[a].id
                        != #[trigger] r@[b].id,
            decreases entries.len() - i,
        {
            let id = head.states.entries[i].0;
            let after = head.states.entries[i].1;
            proof {
                lemma_map_of_entry(entries, i as int);
                assert(!prefix_keys(entries, i as int).contains(id)) by {
                    if prefix_keys(entries, i as int).contains(id) {
                        let j = choose|j: int| 0 <= j < i && #[trigger] entries[j].0 == id;
                        assert(entries[j].0 == entries[i as int].0);
                    }
                }
            }
            let before = self.query(id);
            let changed = match before {
                Some(u) => u != after,
                None => true,
            };
            let ghost r_prev = r@;
            if changed {
                r.push(PendingTransition { id, before, after });
            }
            self.set(id, after);
            proof {
                let next = prefix_keys(entries, i + 1);
                assert(next =~= prefix_keys(entries, i as int).insert(id)) by {
                    assert(entries[i as int].0 == id);
                }
                assert(self@ =~= base.union_prefer_right(head@.restrict(next)));
                assert forall|k: int| 0 <= k < r@.len() implies is_transition(
                    base,
                    head@,
                    #[trigger] r@[k],
                ) && next.contains(r@[k].id) by {
                    if k < r_prev.len() {
                        assert(r@[k] == r_prev[k]);
                    }
                }
                assert forall|j: int|
                    0 <= j < i + 1 && usage_of(base, #[trigger] entries[j].0) != Some(entries[j].1)
                        implies exists|k: int| 0 <= k < r@.len() && #[trigger] r@[k].id == entries[j].0 by {
                    if j < i {
                        let k = choose|k: int| 0 <= k < r_prev.len() && #[trigger] r_prev[k].id == entries[j].0;
                        assert(r@[k] == r_prev[k]);
                    } else {
                        assert(r@[r_prev.len() as int].id == id);
                    }
                }
                assert forall|a: int, b: int|
                    0 <= a < r@.len() && 0 <= b < r@.len() && a != b implies #[trigger] r@[a].id
                        != #[trigger] r@[b].id by {
                    if a < r_prev.len() && b < r_prev.len() {
                        assert(r@[a] == r_prev[a]);
                        assert(r@[b] == r_prev[b]);
                    } else if a < r_prev.len() {
                        assert(r@[a] == r_prev[a]);
                    } else if b < r_prev.len() {
                        assert(r@[b] == r_prev[b]);
                    }
                }
            }
            i = i + 1;
        }
        proof {
            assert(head@.restrict(prefix_keys(entries, i as int)) =~= head@) by {
                assert forall|id: u64| head@.contains_key(id) implies prefix_keys(
                    entries,
                    i as int,
                ).contains(id) by {
                    let j = choose|j: int| 0 <= j < entries.len() && #[trigger] entries[j].0 == id;
                    assert(entries[j].0 == id);
                }
            }
            assert forall|id: u64|
                #[trigger] head@.contains_key(id) && usage_of(base, id) != Some(head@[id])
                    implies exists|k: int| 0 <= k < r@.len() && #[trigger] r@[k].id == id by {
                let j = choose|j: int| 0 <= j < entries.len() && #[trigger] entries[j].0 == id;
                lemma_map_of_entry(entries, j);
            }
        }
        r
    }
}

/// Membership tracker of a category that needs no diffing (views, bind
/// groups, samplers, pipelines, bundles): it only keeps resources alive.
pub struct MembershipTracker {
    pub ids: Vec<u64>,
}

impl View for MembershipTracker {
    type V = Set<u64>;

    open spec fn view(&self) -> Set<u64> {
        Set::new(|id: u64| self.ids@.contains(id))
    }
}

impl MembershipTracker {
    /// A tracker that holds nothing.
    pub fn new() -> (r: Self)
        ensures
            r@ == Set::<u64>::empty(),
    {
        let r = MembershipTracker { ids: Vec::new() };
        assert(r@ =~= Set::<u64>::empty());
        r
    }

    /// Whether `id` is held.
    pub fn contains(&self, id: u64) -> (r: bool)
        ensures
            r == self@.contains(id),
    {
        let mut i: usize = 0;
        while i < self.ids.len()
            invariant
                i <= self.ids@.len(),
                forall|j: int| 0 <= j < i ==> #[trigger] self.ids@[j] != id,
            decreases self.ids@.len() - i,
        {
            if self.ids[i] == id {
                return true;
            }
            i = i + 1;
        }
        false
    }

    /// Adds `id`.
    pub fn insert(&mut self, id: u64)
        ensures
            final(self)@ == old(self)@.insert(id),
    {
        if !self.contains(id) {
            self.ids.push(id);
            assert(self@ =~= old(self)@.insert(id)) by {
                assert(self.ids@[self.ids@.len() - 1] == id);
                assert forall|k: u64| old(self)@.contains(k) implies self@.contains(k) by {
                    let j = choose|j: int| 0 <= j < old(self).ids@.len() && old(self).ids@[j] == k;
                    assert(self.ids@[j] == k);
                }
                assert forall|k: u64| self@.contains(k) && k != id implies old(self)@.contains(k) by {
                    let j = choose|j: int| 0 <= j < self.ids@.len() && self.ids@[j] == k;
                    assert(old(self).ids@[j] == k);
                }
            }
        } else {
            assert(self@ =~= old(self)@.insert(id));
        }
    }

    /// Drops `id`.
    pub fn remove(&mut self, id: u64)
        ensures
            final(self)@ == old(self)@.remove(id),
    {
        let mut kept: Vec<u64> = Vec::new();
        let mut i: usize = 0;
        while i < self.ids.len()
            invariant
                i <= self.ids@.len(),
                forall|k: u64|
                    kept@.contains(k) <==> exists|j: int|
                        0 <= j < i && #[trigger] self.ids@[j] == k && k != id,
            decreases self.ids@.len() - i,
        {
            let x = self.ids[i];
            let ghost prev = kept@;
            if x != id {
                kept.push(x);
            }
            assert forall|k: u64|
                kept@.contains(k) <==> exists|j: int|
                    0 <= j < i + 1 && #[trigger] self.ids@[j] == k && k != id by {
                if kept@.contains(k) {
                    let m = choose|m: int| 0 <= m < kept@.len() && kept@[m] == k;
                    if m < prev.len() {
                        assert(prev[m] == k);
                        assert(prev.contains(k));
                        let j = choose|j: int| 0 <= j < i && #[trigger] self.ids@[j] == k && k != id;
                        assert(self.ids@[j] == k);
                    } else {
                        assert(self.ids@[i as int] == k);
                    }
                }
                if exists|j: int| 0 <= j < i + 1 && #[trigger] self.ids@[j] == k && k != id {
                    let j = choose|j: int| 0 <= j < i + 1 && #[trigger] self.ids@[j] == k && k != id;
                    if j < i {
                        assert(self.ids@[j] == k);
                        assert(prev.contains(k));
                        let m = choose|m: int| 0 <= m < prev.len() && prev[m] == k;
                        assert(kept@[m] == k);
                    } else {
                        assert(kept@[kept@.len() - 1] == k);
                    }
                }
            }
            i = i + 1;
        }
        self.ids = kept;
        assert(self@ =~= old(self)@.remove(id)) by {
            assert forall|k: u64| old(self)@.contains(k) && k != id implies self@.contains(k) by {
                let j = choose|j: int| 0 <= j < old(self).ids@.len() && old(self).ids@[j] == k;
                assert(old(self).ids@[j] == k);
            }
        }
    }

    /// Adds every resource of `head`, so that it stays alive as long as this
    /// tracker does.
    pub fn merge_extend(&mut self, head: &MembershipTracker)
        ensures
            final(self)@ == old(self)@.union(head@),
    {
        let mut i: usize = 0;
        while i < head.ids.len()
            invariant
                i <= head.ids@.len(),
                self@ == old(self)@.union(Set::new(|id: u64| exists|j: int| 0 <= j < i && #[trigger] head.ids@[j] == id)),
            decreases head.ids@.len() - i,
        {
            let ghost prev = self@;
            let id = head.ids[i];
            self.insert(id);
            proof {
                let s0 = Set::new(|k: u64| exists|j: int| 0 <= j < i && #[trigger] head.ids@[j] == k);
                let s1 = Set::new(|k: u64| exists|j: int| 0 <= j < i + 1 && #[trigger] head.ids@[j] == k);
                assert(s1 =~= s0.insert(id)) by {
                    assert(head.ids@[i as int] == id);
                }
                assert(self@ =~= old(self)@.union(s1));
            }
            i = i + 1;
        }
        proof {
            let s = Set::new(|k: u64| exists|j: int| 0 <= j < i && #[trigger] head.ids@[j] == k);
            assert(s =~= head@) by {
                assert forall|k: u64| head@.contains(k) implies s.contains(k) by {
                    let j = choose|j: int| 0 <= j < head.ids@.len() && head.ids@[j] == k;
                    assert(head.ids@[j] == k);
                }
            }
        }
    }
}

/// The usage trackers of one recording session, one per category.
pub struct TrackerSet {
    pub buffers: ResourceTracker,
    pub textures: ResourceTracker,
    pub views: MembershipTracker,
    pub bind_groups: MembershipTracker,
    pub samplers: MembershipTracker,
    pub compute_pipes: MembershipTracker,
    pub render_pipes: MembershipTracker,
    pub bundles: MembershipTracker,
}

impl TrackerSet {
    pub open spec fn wf(&self) -> bool {
        self.buffers.wf() && self.textures.wf()
    }

    /// Trackers that track nothing.
    pub fn new() -> (r: Self)
        ensures
            r.wf(),
            r.buffers@ == Map::<u64, u32>::empty(),
            r.textures@ == Map::<u64, u32>::empty(),
            r.views@ == Set::<u64>::empty(),
            r.bind_groups@ == Set::<u64>::empty(),
            r.samplers@ == Set::<u64>::empty(),
            r.compute_pipes@ == Set::<u64>::empty(),
            r.render_pipes@ == Set::<u64>::empty(),
            r.bundles@ == Set::<u64>::empty(),
    {
        TrackerSet {
            buffers: ResourceTracker::new(),
            textures: ResourceTracker::new(),
            views: MembershipTracker::new(),
            bind_groups: MembershipTracker::new(),
            samplers: MembershipTracker::new(),
            compute_pipes: MembershipTracker::new(),
            render_pipes: MembershipTracker::new(),
            bundles: MembershipTracker::new(),
        }
    }
}

/// `base` is what reconciling `head` into `before` leaves: usages replaced,
/// memberships united.
pub open spec fn reconciled(before: &TrackerSet, head: &TrackerSet, base: &TrackerSet) -> bool {
    &&& base.buffers@ == before.buffers@.union_prefer_right(head.buffers@)
    &&& base.textures@ == before.textures@.union_prefer_right(head.textures@)
    &&& base.views@ == before.views@.union(head.views@)
    &&& base.bind_groups@ == before.bind_groups@.union(head.bind_groups@)
    &&& base.samplers@ == before.samplers@.union(head.samplers@)
    &&& base.compute_pipes@ == before.compute_pipes@.union(head.compute_pipes@)
    &&& base.render_pipes@ == before.render_pipes@.union(head.render_pipes@)
    &&& base.bundles@ == before.bundles@.union(head.bundles@)
}

/// After reconciliation, every resource that `head` tracks has in `base` the
/// usage that `head` gives it, and every resource that `head` holds is held
/// by `base`.
pub proof fn lemma_reconciled_converges(before: &TrackerSet, head: &TrackerSet, base: &TrackerSet)
    requires
        reconciled(before, head, base),
    ensures
        forall|id: u64| #[trigger] head.buffers@.contains_key(id) ==> usage_of(base.buffers@, id) == Some(head.buffers@[id]),
        forall|id: u64| #[trigger] head.textures@.contains_key(id) ==> usage_of(base.textures@, id) == Some(head.textures@[id]),
        head.views@.subset_of(base.views@),
        head.bind_groups@.subset_of(base.bind_groups@),
        head.samplers@.subset_of(base.samplers@),
        head.compute_pipes@.subset_of(base.compute_pipes@),
        head.render_pipes@.subset_of(base.render_pipes@),
        head.bundles@.subset_of(base.bundles@),
{
}

} // verus!
