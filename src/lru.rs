use crate::recency::{Object, RecencyList};
use crate::sim_record::{spec_read_through, Access};
use std::collections::HashMap;
use vstd::prelude::*;

verus! {

broadcast use vstd::std_specs::hash::group_hash_axioms;

/// The sum of the sizes of `s`.
pub open spec fn total_size(s: Seq<Object>) -> int
    decreases s.len(),
{
    if s.len() == 0 {
        0
    } else {
        total_size(s.drop_last()) + s.last().size
    }
}

/// The object that a miss on `a` brings into the cache.
pub open spec fn object_of(a: Access) -> Object {
    Object { first_access: a.timestamp, key: a.key, size: a.size }
}

/// Whether some object of `s` has key `key`.
pub open spec fn holds_key(s: Seq<Object>, key: u64) -> bool {
    exists|i: int| 0 <= i < s.len() && s[i].key == key
}

/// A position of `s` whose object has key `key`.
pub open spec fn key_position(s: Seq<Object>, key: u64) -> int {
    choose|i: int| 0 <= i < s.len() && s[i].key == key
}

/// No two objects of `s` share a key.
pub open spec fn keys_distinct(s: Seq<Object>) -> bool {
    forall|i: int, j: int| 0 <= i < s.len() && 0 <= j < s.len() && i != j ==> s[i].key != s[j].key
}

/// Eviction from the tail while more than `budget` bytes are resident:
/// what stays, and the lifespan of each object evicted, in order of eviction.
pub open spec fn evict(s: Seq<Object>, budget: int, now: int) -> (Seq<Object>, Seq<int>)
    decreases s.len(),
{
    if s.len() > 0 && total_size(s) > budget {
        let (rest, spans) = evict(s.drop_last(), budget, now);
        (rest, seq![now - s.last().first_access] + spans)
    } else {
        (s, seq![])
    }
}

/// One access against cache contents `s` (head first) with budget `budget`:
/// the new contents and the lifespans recorded.
pub open spec fn step(s: Seq<Object>, budget: u64, a: Access) -> (Seq<Object>, Seq<int>) {
    if !spec_read_through(a) || a.size > budget {
        (s, seq![])
    } else if holds_key(s, a.key) {
        let i = key_position(s, a.key);
        (seq![s[i]] + s.remove(i), seq![])
    } else {
        let (rest, spans) = evict(s, budget as int, a.timestamp as int);
        (seq![object_of(a)] + rest, spans)
    }
}

/// A whole trace replayed from an empty cache: the final contents and every
/// lifespan recorded, in order.
pub open spec fn run(trace: Seq<Access>, budget: u64) -> (Seq<Object>, Seq<int>)
    decreases trace.len(),
{
    if trace.len() == 0 {
        (seq![], seq![])
    } else {
        let (s, spans) = run(trace.drop_last(), budget);
        let (s2, more) = step(s, budget, trace.last());
        (s2, spans + more)
    }
}

/// Timestamps never decrease along the trace.
pub open spec fn monotone(trace: Seq<Access>) -> bool {
    forall|i: int, j: int| 0 <= i <= j < trace.len() ==> trace[i].timestamp <= trace[j].timestamp
}

/// The recorded lifespans, as integers.
pub open spec fn spans_of(v: Seq<u64>) -> Seq<int> {
    v.map_values(|x: u64| x as int)
}

pub proof fn lemma_total_size_concat(a: Seq<Object>, b: Seq<Object>)
    ensures
        total_size(a + b) == total_size(a) + total_size(b),
    decreases b.len(),
{
    if b.len() > 0 {
        assert((a + b).drop_last() =~= a + b.drop_last());
        lemma_total_size_concat(a, b.drop_last());
    } else {
        assert(a + b =~= a);
    }
}

pub proof fn lemma_total_size_nonneg(s: Seq<Object>)
    ensures
        total_size(s) >= 0,
    decreases s.len(),
{
    if s.len() > 0 {
        lemma_total_size_nonneg(s.drop_last());
    }
}

/// Moving the object at `i` to the front leaves the total size unchanged.
pub proof fn lemma_total_size_move_front(s: Seq<Object>, i: int)
    requires
        0 <= i < s.len(),
    ensures
        total_size(seq![s[i]] + s.remove(i)) == total_size(s),
{
    let a = s.subrange(0, i);
    let b = s.subrange(i + 1, s.len() as int);
    assert(s =~= a + (seq![s[i]] + b));
    assert(s.remove(i) =~= a + b);
    assert(seq![s[i]] + s.remove(i) =~= seq![s[i]] + a + b);
    lemma_total_size_concat(a, seq![s[i]] + b);
    lemma_total_size_concat(seq![s[i]], b);
    lemma_total_size_concat(a, b);
    lemma_total_size_concat(seq![s[i]] + a, b);
    lemma_total_size_concat(seq![s[i]], a);
}

/// What eviction keeps is a prefix of what it started from, and at most
/// `budget` bytes of it.
pub proof fn lemma_evict_prefix(s: Seq<Object>, budget: int, now: int)
    requires
        budget >= 0,
    ensures
        evict(s, budget, now).0 =~= s.subrange(0, evict(s, budget, now).0.len() as int),
        evict(s, budget, now).0.len() <= s.len(),
        total_size(evict(s, budget, now).0) <= budget,
    decreases s.len(),
{
    if s.len() > 0 && total_size(s) > budget {
        lemma_evict_prefix(s.drop_last(), budget, now);
        let k = evict(s, budget, now).0.len() as int;
        assert(s.drop_last().subrange(0, k) =~= s.subrange(0, k));
    } else if s.len() == 0 {
        assert(total_size(s) == 0);
    }
}

/// A simulated LRU cache with a fixed budget in bytes.
pub struct LruCache {
    budget: u64,
    list: RecencyList,
    index: HashMap<u64, usize>,
    current_size: u128,
    latest: u64,
}

impl Object {
    pub fn new(access: &Access) -> (r: Object)
        ensures
            r == object_of(*access),
    {
        Object { first_access: access.timestamp, key: access.key, size: access.size }
    }
}

impl LruCache {
    /// The resident objects, most recently used first.
    pub closed spec fn view(&self) -> Seq<Object> {
        self.list.view()
    }

    pub closed spec fn spec_budget(&self) -> u64 {
        self.budget
    }

    pub closed spec fn spec_latest(&self) -> u64 {
        self.latest
    }

    pub closed spec fn spec_current_size(&self) -> u128 {
        self.current_size
    }

    pub closed spec fn wf(&self) -> bool {
        let v = self.list.view();
        let o = self.list.slots();
        &&& self.list.wf()
        &&& v.len() == o.len()
        &&& forall|i: int|
            0 <= i < v.len() ==> #[trigger] self.index@.contains_key(v[i].key) && self.index@[v[i].key]
                == o[i]
        &&& forall|k: u64| #[trigger] self.index@.contains_key(k) ==> holds_key(v, k)
        &&& self.current_size == total_size(v)
        &&& total_size(v) <= 2 * self.budget
        &&& forall|i: int| 0 <= i < v.len() ==> #[trigger] v[i].first_access <= self.latest
    }

    pub fn new(budget: u64) -> (r: LruCache)
        ensures
            r.wf(),
            r.view() == Seq::<Object>::empty(),
            r.spec_budget() == budget,
            r.spec_latest() == 0,
    {
        let list = RecencyList::new();
        let r = LruCache { budget, list, index: HashMap::new(), current_size: 0, latest: 0 };
        assert(r.index@ =~= Map::<u64, usize>::empty());
        r
    }

    pub fn budget(&self) -> (r: u64)
        ensures
            r == self.spec_budget(),
    {
        self.budget
    }

    /// The timestamp of the latest access taken; later accesses may not be
    /// earlier.
    pub fn latest(&self) -> (r: u64)
        ensures
            r == self.spec_latest(),
    {
        self.latest
    }

    /// Bytes resident now.
    pub fn current_size(&self) -> (r: u128)
        requires
            self.wf(),
        ensures
            r == total_size(self.view()),
            r == self.spec_current_size(),
    {
        self.current_size
    }

    proof fn lemma_keys_distinct(&self)
        requires
            self.wf(),
        ensures
            keys_distinct(self.view()),
    {
        let v = self.list.view();
        let o = self.list.slots();
        self.list.lemma_slots_distinct();
        assert forall|i: int, j: int|
            0 <= i < v.len() && 0 <= j < v.len() && i != j implies v[i].key != v[j].key by {
            assert(self.index@.contains_key(v[i].key));
            assert(self.index@.contains_key(v[j].key));
        }
    }

    /// Replays one access. Lifespans of the objects it evicts are appended to
    /// `lifespans`.
    pub fn access(&mut self, a: &Access, lifespans: &mut Vec<u64>)
        requires
            old(self).wf(),
            a.timestamp >= old(self).spec_latest(),
        ensures
            final(self).wf(),
            final(self).spec_budget() == old(self).spec_budget(),
            final(self).spec_latest() == a.timestamp,
            (final(self).view(), spans_of(final(lifespans)@)) == (
            step(old(self).view(), old(self).spec_budget(), *a).0,
            spans_of(old(lifespans)@) + step(old(self).view(), old(self).spec_budget(), *a).1),
            !spec_read_through(*a) || a.size > old(self).spec_budget() ==> final(self).view()
                == old(self).view() && final(lifespans)@ == old(lifespans)@,
            spec_read_through(*a) && a.size <= old(self).spec_budget() && holds_key(
                old(self).view(),
                a.key,
            ) ==> final(self).view()[0].key == a.key && final(self).view().drop_first()
                == old(self).view().remove(key_position(old(self).view(), a.key))
                && final(lifespans)@ == old(lifespans)@,
    {
        let ghost v0 = self.list.view();
        proof {
            self.lemma_keys_distinct();
        }
        self.latest = a.timestamp;
        if !a.is_valid_read_through() || a.size as u64 > self.budget {
            assert(spans_of(lifespans@) =~= spans_of(old(lifespans)@) + seq![]);
            return;
        }
        match self.index.get(&a.key) {
            Some(slot) => {
                let slot = *slot;
                let ghost i = choose|i: int| 0 <= i < v0.len() && v0[i].key == a.key;
                assert(self.index@.contains_key(v0[i].key));
                assert(holds_key(v0, a.key));
                assert(i == key_position(v0, a.key));
                let object = self.list.remove(slot, Ghost(i));
                let new_slot = self.list.push_front(object);
                self.index.insert(a.key, new_slot);
                proof {
                    lemma_total_size_move_front(v0, i);
                    let v = self.list.view();
                    let o = self.list.slots();
                    let o0 = old(self).list.slots();
                    assert(v =~= seq![v0[i]] + v0.remove(i));
                    assert(v.drop_first() =~= v0.remove(i));
                    assert forall|j: int| 0 <= j < v.len() implies #[trigger] self.index@.contains_key(
                        v[j].key,
                    ) && self.index@[v[j].key] == o[j] by {
                        if j > 0 {
                            let m = if j - 1 < i {
                                j - 1
                            } else {
                                j
                            };
                            assert(v[j] == v0[m] && o[j] == o0[m]);
                            assert(m != i);
                            assert(v0[m].key != v0[i].key);
                            assert(old(self).index@.contains_key(v0[m].key));
                            assert(old(self).index@[v0[m].key] == o0[m]);
                        }
                    }
                    assert forall|k: u64| #[trigger] self.index@.contains_key(k) implies holds_key(
                        v,
                        k,
                    ) by {
                        if k == a.key {
                            assert(v[0].key == k);
                        } else {
                            assert(old(self).index@.contains_key(k));
                            let m = choose|m: int| 0 <= m < v0.len() && v0[m].key == k;
                            if m < i {
                                assert(v[m + 1] == v0[m]);
                            } else {
                                assert(m != i);
                                assert(v[m] == v0[m]);
                            }
                        }
                    }
                    assert forall|j: int| 0 <= j < v.len() implies #[trigger] v[j].first_access
                        <= self.latest by {
                        if j > 0 {
                            if j - 1 < i {
                                assert(v[j] == v0[j - 1]);
                            } else {
                                assert(v[j] == v0[j]);
                            }
                        }
                    }
                }
                assert(spans_of(lifespans@) =~= spans_of(old(lifespans)@) + seq![]);
            },
            None => {
                assert(!holds_key(v0, a.key)) by {
                    if holds_key(v0, a.key) {
                        let m = choose|m: int| 0 <= m < v0.len() && v0[m].key == a.key;
                        assert(old(self).index@.contains_key(v0[m].key));
                    }
                }
                let ghost spans0 = spans_of(lifespans@);
                while self.current_size > self.budget as u128
                    invariant
                        self.wf(),
                        self.latest == a.timestamp,
                        self.budget == old(self).budget,
                        self.list.view().len() <= v0.len(),
                        self.list.view() =~= v0.subrange(0, self.list.view().len() as int),
                        evict(v0, self.budget as int, a.timestamp as int) == (
                        evict(self.list.view(), self.budget as int, a.timestamp as int).0,
                        spans_of(lifespans@).subrange(spans0.len() as int, spans_of(lifespans@).len() as int)
                            + evict(self.list.view(), self.budget as int, a.timestamp as int).1),
                        spans_of(lifespans@).subrange(0, spans0.len() as int) == spans0,
                        spans0.len() <= spans_of(lifespans@).len(),
                    decreases self.list.view().len(),
                {
                    let ghost v = self.list.view();
                    let ghost sp = spans_of(lifespans@);
                    assert(v.len() > 0) by {
                        if v.len() == 0 {
                            assert(total_size(v) == 0);
                        }
                    }
                    proof {
                        self.lemma_keys_distinct();
                        lemma_total_size_nonneg(v.drop_last());
                    }
                    let object = self.list.pop_back();
                    self.index.remove(&object.key);
                    self.current_size = self.current_size - object.size as u128;
                    let span = a.timestamp - object.first_access;
                    lifespans.push(span);
                    proof {
                        let nv = self.list.view();
                        let o = self.list.slots();
                        assert(nv =~= v.drop_last());
                        assert forall|j: int| 0 <= j < nv.len() implies #[trigger] self.index@.contains_key(
                            nv[j].key,
                        ) && self.index@[nv[j].key] == o[j] by {
                            assert(nv[j] == v[j]);
                            assert(v[j].key != v[v.len() - 1].key);
                        }
                        assert forall|k: u64| #[trigger] self.index@.contains_key(k) implies holds_key(
                            nv,
                            k,
                        ) by {
                            let m = choose|m: int| 0 <= m < v.len() && v[m].key == k;
                            assert(m != v.len() - 1);
                            assert(nv[m] == v[m]);
                        }
                        assert forall|j: int| 0 <= j < nv.len() implies #[trigger] nv[j].first_access
                            <= self.latest by {
                            assert(nv[j] == v[j]);
                        }
                        let nsp = spans_of(lifespans@);
                        assert(nsp =~= sp.push(span as int));
                        assert(nsp.subrange(0, spans0.len() as int) =~= sp.subrange(
                            0,
                            spans0.len() as int,
                        ));
                        assert(nsp.subrange(spans0.len() as int, nsp.len() as int) =~= sp.subrange(
                            spans0.len() as int,
                            sp.len() as int,
                        ).push(span as int));
                        assert(nv =~= v0.subrange(0, nv.len() as int));
                    }
                }
                proof {
                    lemma_evict_prefix(v0, self.budget as int, a.timestamp as int);
                }
                let ghost om = self.list.slots();
                let ghost vmid = self.list.view();
                let object = Object::new(a);
                let slot = self.list.push_front(object);
                self.index.insert(a.key, slot);
                self.current_size = self.current_size + a.size as u128;
                proof {
                    let vm = self.list.view().drop_first();
                    let v = self.list.view();
                    let o = self.list.slots();
                    assert(vm =~= v0.subrange(0, vm.len() as int));
                    assert(v =~= seq![object] + vm);
                    lemma_total_size_concat(seq![object], vm);
                    assert(total_size(seq![object]) == object.size) by {
                        assert(seq![object].drop_last() =~= Seq::<Object>::empty());
                        assert(total_size(Seq::<Object>::empty()) == 0);
                    }
                    assert forall|j: int| 0 <= j < v.len() implies #[trigger] self.index@.contains_key(
                        v[j].key,
                    ) && self.index@[v[j].key] == o[j] by {
                        if j > 0 {
                            assert(v[j] == vm[j - 1]);
                            assert(vm[j - 1] == v0[j - 1]);
                            assert(v0[j - 1].key != a.key);
                            assert(vmid[j - 1] == vm[j - 1]);
                            assert(o[j] == om[j - 1]);
                        }
                    }
                    assert forall|k: u64| #[trigger] self.index@.contains_key(k) implies holds_key(
                        v,
                        k,
                    ) by {
                        if k == a.key {
                            assert(v[0].key == k);
                        } else {
                            let m = choose|m: int| 0 <= m < vm.len() && vm[m].key == k;
                            assert(v[m + 1] == vm[m]);
                        }
                    }
                    assert forall|j: int| 0 <= j < v.len() implies #[trigger] v[j].first_access
                        <= self.latest by {
                        if j > 0 {
                            assert(v[j] == vm[j - 1]);
                        }
                    }
                    assert(spans_of(lifespans@) =~= spans0 + evict(v0, self.budget as int, a.timestamp as int).1);
                }
            },
        }
    }
}

} // verus!

verus! {

/// Replays `trace` through a fresh cache with budget `budget` and returns the
/// lifespans of the evicted objects, in order of eviction.
pub fn simulate(trace: &Vec<Access>, budget: u64) -> (r: Vec<u64>)
    requires
        monotone(trace@),
    ensures
        spans_of(r@) == run(trace@, budget).1,
        forall|i: int|
            0 <= i < r@.len() ==> #[trigger] r@[i] as int == run(trace@, budget).1[i] && run(
                trace@,
                budget,
            ).1[i] >= 0,
{
    proof {
        lemma_lifespans_nonneg(trace@, budget);
    }
    let mut cache = LruCache::new(budget);
    let mut lifespans: Vec<u64> = Vec::new();
    let mut i: usize = 0;
    assert(spans_of(lifespans@) =~= Seq::<int>::empty());
    assert(trace@.subrange(0, 0) =~= Seq::<Access>::empty());
    while i < trace.len()
        invariant
            i <= trace@.len(),
            monotone(trace@),
            cache.wf(),
            cache.spec_budget() == budget,
            i > 0 ==> cache.spec_latest() == trace@[i - 1].timestamp,
            i == 0 ==> cache.spec_latest() == 0,
            (cache.view(), spans_of(lifespans@)) == run(trace@.subrange(0, i as int), budget),
        decreases trace@.len() - i,
    {
        let a = &trace[i];
        cache.access(a, &mut lifespans);
        assert(trace@.subrange(0, i + 1).drop_last() =~= trace@.subrange(0, i as int));
        i = i + 1;
    }
    assert(trace@.subrange(0, i as int) =~= trace@);
    assert forall|k: int| 0 <= k < lifespans@.len() implies #[trigger] lifespans@[k] as int == run(
        trace@,
        budget,
    ).1[k] by {
        assert(spans_of(lifespans@)[k] == lifespans@[k] as int);
    }
    lifespans
}

/// A filtered access (not a read-through, or larger than the whole budget)
/// leaves the cache as it was and records nothing.
pub proof fn lemma_filtered_access_ignored(s: Seq<Object>, budget: u64, a: Access)
    requires
        !spec_read_through(a) || a.size > budget,
    ensures
        step(s, budget, a) == (s, Seq::<int>::empty()),
{
}

/// After a hit on a key, its object is at the head, and the other resident
/// objects keep their relative order.
pub proof fn lemma_hit_moves_to_front(s: Seq<Object>, budget: u64, a: Access, i: int)
    requires
        spec_read_through(a),
        a.size <= budget,
        keys_distinct(s),
        0 <= i < s.len(),
        s[i].key == a.key,
    ensures
        step(s, budget, a).0[0] == s[i],
        step(s, budget, a).0.drop_first() == s.remove(i),
        step(s, budget, a).1 == Seq::<int>::empty(),
{
    assert(holds_key(s, a.key));
    assert(key_position(s, a.key) == i);
    assert((seq![s[i]] + s.remove(i)).drop_first() =~= s.remove(i));
}

/// The eviction pass leaves at most `budget` bytes resident.
pub proof fn lemma_eviction_fits_budget(s: Seq<Object>, budget: u64, now: int)
    ensures
        total_size(evict(s, budget as int, now).0) <= budget,
{
    lemma_evict_prefix(s, budget as int, now);
}

/// Every object that eviction keeps was resident before.
proof fn lemma_evict_keeps_members(s: Seq<Object>, budget: int, now: int)
    requires
        budget >= 0,
    ensures
        forall|j: int|
            0 <= j < evict(s, budget, now).0.len() ==> #[trigger] evict(s, budget, now).0[j] == s[j],
        evict(s, budget, now).0.len() <= s.len(),
{
    lemma_evict_prefix(s, budget, now);
}

/// Lifespans recorded by eviction at time `now`: each is `now` less the first
/// access of an evicted object.
proof fn lemma_evict_spans(s: Seq<Object>, budget: int, now: int)
    requires
        forall|j: int| 0 <= j < s.len() ==> #[trigger] s[j].first_access <= now,
    ensures
        forall|j: int|
            0 <= j < evict(s, budget, now).1.len() ==> #[trigger] evict(s, budget, now).1[j] >= 0,
    decreases s.len(),
{
    if s.len() > 0 && total_size(s) > budget {
        lemma_evict_spans(s.drop_last(), budget, now);
        let (rest, spans) = evict(s.drop_last(), budget, now);
        assert forall|j: int|
            0 <= j < evict(s, budget, now).1.len() implies #[trigger] evict(s, budget, now).1[j]
            >= 0 by {
            if j > 0 {
                assert(evict(s, budget, now).1[j] == spans[j - 1]);
            }
        }
    }
}

/// The resident objects after a trace all entered at one of its timestamps,
/// no later than its last; what is resident fits in twice the budget.
proof fn lemma_run_residents(trace: Seq<Access>, budget: u64)
    requires
        monotone(trace),
    ensures
        forall|j: int|
            0 <= j < run(trace, budget).0.len() ==> trace.len() > 0
                && #[trigger] run(trace, budget).0[j].first_access <= trace.last().timestamp,
        total_size(run(trace, budget).0) <= 2 * budget,
        forall|j: int|
            0 <= j < run(trace, budget).1.len() ==> #[trigger] run(trace, budget).1[j] >= 0,
    decreases trace.len(),
{
    if trace.len() > 0 {
        let prev = trace.drop_last();
        let a = trace.last();
        assert(monotone(prev));
        lemma_run_residents(prev, budget);
        let (s, spans) = run(prev, budget);
        assert forall|j: int| 0 <= j < s.len() implies #[trigger] s[j].first_access
            <= a.timestamp by {
            assert(prev.last().timestamp <= a.timestamp);
        }
        lemma_total_size_nonneg(s);
        if !spec_read_through(a) || a.size > budget {
        } else if holds_key(s, a.key) {
            let i = key_position(s, a.key);
            lemma_total_size_move_front(s, i);
            let s2 = seq![s[i]] + s.remove(i);
            assert forall|j: int| 0 <= j < s2.len() implies #[trigger] s2[j].first_access
                <= a.timestamp by {
                if j > 0 {
                    if j - 1 < i {
                        assert(s2[j] == s[j - 1]);
                    } else {
                        assert(s2[j] == s[j]);
                    }
                }
            }
        } else {
            lemma_evict_keeps_members(s, budget as int, a.timestamp as int);
            lemma_evict_prefix(s, budget as int, a.timestamp as int);
            lemma_evict_spans(s, budget as int, a.timestamp as int);
            let (rest, more) = evict(s, budget as int, a.timestamp as int);
            let s2 = seq![object_of(a)] + rest;
            lemma_total_size_concat(seq![object_of(a)], rest);
            assert(total_size(seq![object_of(a)]) == a.size) by {
                assert(seq![object_of(a)].drop_last() =~= Seq::<Object>::empty());
                assert(total_size(Seq::<Object>::empty()) == 0);
            }
            assert(s2 =~= seq![object_of(a)] + rest);
            assert forall|j: int| 0 <= j < s2.len() implies #[trigger] s2[j].first_access
                <= a.timestamp by {
                if j > 0 {
                    assert(s2[j] == rest[j - 1]);
                    assert(rest[j - 1] == s[j - 1]);
                }
            }
            let all = spans + more;
            assert forall|j: int| 0 <= j < all.len() implies #[trigger] all[j] >= 0 by {
                if j >= spans.len() {
                    assert(all[j] == more[j - spans.len()]);
                }
            }
        }
    }
}

/// Every lifespan recorded over a trace with non-decreasing timestamps is
/// non-negative.
pub proof fn lemma_lifespans_nonneg(trace: Seq<Access>, budget: u64)
    requires
        monotone(trace),
    ensures
        forall|j: int| 0 <= j < run(trace, budget).1.len() ==> #[trigger] run(trace, budget).1[j] >= 0,
{
    lemma_run_residents(trace, budget);
}

/// Whatever the trace, at most twice the budget is resident after it: at most
/// the budget after each eviction pass, plus the object then brought in, which
/// is no larger than the budget.
pub proof fn lemma_resident_within_twice_budget(trace: Seq<Access>, budget: u64)
    requires
        monotone(trace),
    ensures
        total_size(run(trace, budget).0) <= 2 * budget,
{
    lemma_run_residents(trace, budget);
}

} // verus!
