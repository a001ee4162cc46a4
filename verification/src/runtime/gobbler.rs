use vstd::prelude::*;
use std::collections::{HashMap, HashSet};
use vstd::std_specs::hash::{spec_hash_keys_iter, spec_keys_iter};
use vstd::std_specs::iter::IteratorSpec;
use crate::runtime::value::{distinct_names, entry_refers, refers, Entries, IshValue};

verus! {

broadcast use {vstd::std_specs::hash::group_hash_axioms, vstd::seq_lib::group_seq_properties};

/// An object on the collected heap.
#[derive(Debug, Clone, PartialEq)]
pub enum HeapObject {
    Array(Vec<IshValue>),
    List(Vec<IshValue>),
    Dict(Vec<(String, IshValue)>),
    Object { class_name: String, properties: Vec<(String, IshValue)> },
}

impl HeapObject {
    /// A map's keys, and an object's property names, are distinct.
    pub open spec fn wf(self) -> bool {
        match self {
            HeapObject::Dict(e) => distinct_names(e@),
            HeapObject::Object { properties, .. } => distinct_names(properties@),
            _ => true,
        }
    }
}

/// Object `o` holds a reference to object `id`.
pub open spec fn points_to(o: HeapObject, id: usize) -> bool {
    match o {
        HeapObject::Array(v) => refers(v@, id),
        HeapObject::List(v) => refers(v@, id),
        HeapObject::Dict(e) => entry_refers(e@, id),
        HeapObject::Object { properties, .. } => entry_refers(properties@, id),
    }
}

/// Object `id` is a root of a collection: the value returned, a variable of some scope, a static
/// variable, or, in a minor collection, a remembered old object.
pub open spec fn rooted(
    stack: Seq<Entries>,
    statics: Seq<(String, IshValue)>,
    ret: Option<IshValue>,
    remembered: Set<usize>,
    major: bool,
    id: usize,
) -> bool {
    ||| ret == Some(IshValue::Reference(id))
    ||| exists|i: int| 0 <= i < stack.len() && #[trigger] entry_refers(stack[i]@, id)
    ||| entry_refers(statics, id)
    ||| (!major && remembered.contains(id))
}

/// The roots of a collection.
pub open spec fn roots(
    stack: Seq<Entries>,
    statics: Seq<(String, IshValue)>,
    ret: Option<IshValue>,
    remembered: Set<usize>,
    major: bool,
) -> Set<usize> {
    Set::new(|id: usize| rooted(stack, statics, ret, remembered, major, id))
}

/// Every object of `m` on `heap` refers only to ids in `m`.
pub open spec fn closed_under(heap: Map<usize, HeapObject>, m: Set<usize>) -> bool {
    forall|x: usize, y: usize|
        m.contains(x) && heap.contains_key(x) && #[trigger] points_to(heap[x], y) ==> m.contains(y)
}

/// The ids reachable from `roots` on `heap`: those in every set that holds the roots and is
/// closed under the references of the objects on `heap`.
pub open spec fn reachable(heap: Map<usize, HeapObject>, roots: Set<usize>) -> Set<usize> {
    Set::new(
        |y: usize|
            forall|m: Set<usize>| #[trigger] closed_under(heap, m) && roots.subset_of(m) ==> m.contains(y),
    )
}

/// A young object that a collection keeps and moves to the old heap: it is marked, and it has
/// an age that reaches three with this collection.
pub open spec fn promoted(
    young: Map<usize, HeapObject>,
    ages: Map<usize, u8>,
    marked: Set<usize>,
    id: usize,
) -> bool {
    &&& young.contains_key(id)
    &&& marked.contains(id)
    &&& ages.contains_key(id)
    &&& ages[id] + 1 >= 3
}

/// The ages after a collection marked `marked`: each marked young object is one older.
pub open spec fn aged(ages: Map<usize, u8>, young: Map<usize, HeapObject>, marked: Set<usize>) -> Map<
    usize,
    u8,
> {
    Map::new(
        |id: usize| ages.contains_key(id),
        |id: usize|
            if young.contains_key(id) && marked.contains(id) {
                (ages[id] + 1) as u8
            } else {
                ages[id]
            },
    )
}

/// `after` is `before` followed by one entry for each object of `ids` on `heap` that is a class
/// instance: its id, class name and properties; no id twice.
pub open spec fn finalized_from(
    before: Seq<(usize, String, Entries)>,
    after: Seq<(usize, String, Entries)>,
    heap: Map<usize, HeapObject>,
    ids: Set<usize>,
) -> bool {
    &&& before.len() <= after.len()
    &&& after.take(before.len() as int) == before
    &&& forall|k: int|
        before.len() <= k < after.len() ==> ids.contains(#[trigger] after[k].0) && heap.contains_key(
            after[k].0,
        ) && heap[after[k].0] == HeapObject::Object {
            class_name: after[k].1,
            properties: after[k].2,
        }
    &&& forall|id: usize|
        ids.contains(id) && heap.contains_key(id) && #[trigger] heap[id] is Object ==> exists|k: int|
            before.len() <= k < after.len() && after[k].0 == id
    &&& forall|k1: int, k2: int|
        before.len() <= k1 < k2 < after.len() ==> #[trigger] after[k1].0 != #[trigger] after[k2].0
}

/// The value an optional reference points to.
pub open spec fn deref_opt(o: Option<&IshValue>) -> Option<IshValue> {
    match o {
        Some(v) => Some(*v),
        None => None,
    }
}

/// After marking more ids (`m0` to `m1`), the work list went from `w0` to `w1`: it gained the
/// newly marked ids, each once; when marking only heap ids (`anywhere` false), it gained as
/// many as the unmarked heap ids lost.
spec fn queued(
    m0: Set<usize>,
    m1: Set<usize>,
    w0: Seq<usize>,
    w1: Seq<usize>,
    anywhere: bool,
    dom: Set<usize>,
) -> bool {
    &&& m0.subset_of(m1)
    &&& w1.len() >= w0.len()
    &&& forall|x: usize| #[trigger] w1.contains(x) <==> w0.contains(x) || (m1.contains(x) && !m0.contains(x))
    &&& (w0.no_duplicates() && (forall|x: usize| #[trigger] w0.contains(x) ==> m0.contains(x)))
        ==> w1.no_duplicates()
    &&& !anywhere ==> w1.len() + dom.difference(m1).len() == w0.len() + dom.difference(m0).len()
}

/// A generational mark-and-sweep collector of the objects that values refer to. New objects
/// go to the young heap; an object that survives three collections moves to the old heap. A
/// minor collection sweeps only the young heap, and takes the remembered old objects (those
/// written since the last major collection) as roots; a major one sweeps both heaps.
pub struct Gobbler {
    pub young_heap: HashMap<usize, HeapObject>,
    pub old_heap: HashMap<usize, HeapObject>,
    pub object_ages: HashMap<usize, u8>,
    pub remembered_set: HashSet<usize>,
    pub next_id: usize,
    pub allocations_since_minor: usize,
    pub minor_threshold: usize,
    pub major_threshold: usize,
}

impl Gobbler {
    /// Every object on the heap, young or old.
    pub open spec fn heap(&self) -> Map<usize, HeapObject> {
        self.old_heap@.union_prefer_right(self.young_heap@)
    }

    /// The two heaps are disjoint; every object was allocated (its id is below `next_id`) and is
    /// well formed; a young object has survived fewer than three collections.
    pub open spec fn wf(&self) -> bool {
        &&& self.young_heap@.dom().disjoint(self.old_heap@.dom())
        &&& forall|id: usize| #[trigger]
            self.heap().contains_key(id) ==> id < self.next_id && self.heap()[id].wf()
        &&& forall|id: usize|
            #[trigger] self.young_heap@.contains_key(id) && self.object_ages@.contains_key(id)
                ==> self.object_ages@[id] < 3
        &&& self.next_id >= 1
    }

    /// An empty collector; ids start at 1.
    pub fn new() -> (g: Self)
        ensures
            g.wf(),
            g.young_heap@ == Map::<usize, HeapObject>::empty(),
            g.old_heap@ == Map::<usize, HeapObject>::empty(),
            g.object_ages@ == Map::<usize, u8>::empty(),
            g.remembered_set@ == Set::<usize>::empty(),
            g.next_id == 1,
            g.allocations_since_minor == 0,
            g.minor_threshold == 1000,
            g.major_threshold == 10000,
    {
        let g = Gobbler {
            young_heap: HashMap::new(),
            old_heap: HashMap::new(),
            object_ages: HashMap::new(),
            remembered_set: HashSet::new(),
            next_id: 1,
            allocations_since_minor: 0,
            minor_threshold: 1000,
            major_threshold: 10000,
        };
        proof {
            assert(g.heap() =~= Map::<usize, HeapObject>::empty());
        }
        g
    }

    /// Puts `obj` on the young heap, with age 0, under a fresh id, which it gives.
    pub fn allocate(&mut self, obj: HeapObject) -> (id: usize)
        requires
            old(self).wf(),
            obj.wf(),
            old(self).next_id < usize::MAX,
            old(self).allocations_since_minor < usize::MAX,
        ensures
            final(self).wf(),
            id == old(self).next_id,
            !old(self).heap().contains_key(id),
            final(self).young_heap@ == old(self).young_heap@.insert(id, obj),
            final(self).old_heap@ == old(self).old_heap@,
            final(self).object_ages@ == old(self).object_ages@.insert(id, 0u8),
            final(self).remembered_set@ == old(self).remembered_set@,
            final(self).next_id == id + 1,
            final(self).allocations_since_minor == old(self).allocations_since_minor + 1,
            final(self).minor_threshold == old(self).minor_threshold,
            final(self).major_threshold == old(self).major_threshold,
    {
        let id = self.next_id;
        proof {
            assert(!old(self).heap().contains_key(id));
            assert(!old(self).old_heap@.contains_key(id));
        }
        self.next_id += 1;
        self.young_heap.insert(id, obj);
        self.object_ages.insert(id, 0);
        self.allocations_since_minor += 1;
        proof {
            assert(self.heap() =~= old(self).heap().insert(id, obj));
            assert(self.young_heap@.dom().disjoint(self.old_heap@.dom()));
            assert forall|k: usize| #[trigger] self.heap().contains_key(k) implies k < self.next_id
                && self.heap()[k].wf() by {
                if k != id {
                    assert(old(self).heap().contains_key(k));
                }
            }
        }
        id
    }

    /// The object `id`, young or old, if there is one.
    pub fn get(&self, id: usize) -> (r: Option<&HeapObject>)
        ensures
            match r {
                Some(o) => self.heap().contains_key(id) && *o == self.heap()[id],
                None => !self.heap().contains_key(id),
            },
    {
        match self.young_heap.get(&id) {
            Some(o) => Some(o),
            None => self.old_heap.get(&id),
        }
    }

    /// Writes `obj` as the object `id`, where there is one, and gives whether there was; an old
    /// object that is written joins the remembered set.
    pub fn set_object(&mut self, id: usize, obj: HeapObject) -> (found: bool)
        requires
            old(self).wf(),
            obj.wf(),
        ensures
            final(self).wf(),
            found == old(self).heap().contains_key(id),
            found ==> final(self).heap() == old(self).heap().insert(id, obj),
            !found ==> final(self).heap() == old(self).heap(),
            old(self).old_heap@.contains_key(id) ==> final(self).old_heap@ == old(
                self,
            ).old_heap@.insert(id, obj) && final(self).young_heap@ == old(self).young_heap@
                && final(self).remembered_set@ == old(self).remembered_set@.insert(id),
            !old(self).old_heap@.contains_key(id) ==> final(self).old_heap@ == old(
                self,
            ).old_heap@ && final(self).remembered_set@ == old(self).remembered_set@,
            old(self).young_heap@.contains_key(id) ==> final(self).young_heap@ == old(
                self,
            ).young_heap@.insert(id, obj),
            !old(self).heap().contains_key(id) ==> final(self).young_heap@ == old(
                self,
            ).young_heap@,
            final(self).object_ages@ == old(self).object_ages@,
            final(self).next_id == old(self).next_id,
            final(self).allocations_since_minor == old(self).allocations_since_minor,
            final(self).minor_threshold == old(self).minor_threshold,
            final(self).major_threshold == old(self).major_threshold,
    {
        if self.old_heap.contains_key(&id) {
            self.remembered_set.insert(id);
            self.old_heap.insert(id, obj);
            proof {
                assert(self.heap() =~= old(self).heap().insert(id, obj));
                assert(self.old_heap@.dom() =~= old(self).old_heap@.dom());
                assert forall|k: usize| #[trigger] self.heap().contains_key(k) implies k < self.next_id
                    && self.heap()[k].wf() by {
                    if k != id {
                        assert(old(self).heap().contains_key(k));
                    }
                }
            }
            true
        } else if self.young_heap.contains_key(&id) {
            self.young_heap.insert(id, obj);
            proof {
                assert(self.heap() =~= old(self).heap().insert(id, obj));
                assert(self.young_heap@.dom() =~= old(self).young_heap@.dom());
                assert forall|k: usize| #[trigger] self.heap().contains_key(k) implies k < self.next_id
                    && self.heap()[k].wf() by {
                    if k != id {
                        assert(old(self).heap().contains_key(k));
                    }
                }
            }
            true
        } else {
            false
        }
    }

    /// Drops the object `id` from both heaps, its age, and the remembered set.
    pub fn free(&mut self, id: usize)
        requires
            old(self).wf(),
        ensures
            final(self).wf(),
            final(self).young_heap@ == old(self).young_heap@.remove(id),
            final(self).old_heap@ == old(self).old_heap@.remove(id),
            final(self).heap() == old(self).heap().remove(id),
            final(self).object_ages@ == old(self).object_ages@.remove(id),
            final(self).remembered_set@ == old(self).remembered_set@.remove(id),
            final(self).next_id == old(self).next_id,
            final(self).allocations_since_minor == old(self).allocations_since_minor,
            final(self).minor_threshold == old(self).minor_threshold,
            final(self).major_threshold == old(self).major_threshold,
    {
        self.young_heap.remove(&id);
        self.old_heap.remove(&id);
        self.object_ages.remove(&id);
        self.remembered_set.remove(&id);
        proof {
            assert(self.heap() =~= old(self).heap().remove(id));
        }
    }
}

} // verus!

verus! {

/// The keys that a walk over `heap` gives are the ids on it, each once.
proof fn lemma_keys(heap: &HashMap<usize, HeapObject>)
    ensures
        spec_keys_iter(heap).remaining().no_duplicates(),
        forall|x: usize|
            heap@.contains_key(x) <==> exists|j: int|
                0 <= j < spec_keys_iter(heap).remaining().len()
                    && *spec_keys_iter(heap).remaining()[j] == x,
{
    let ks = spec_keys_iter(heap).remaining();
    assert(ks.unref().to_set() == heap@.dom());
    assert forall|x: usize| heap@.contains_key(x) implies exists|j: int|
        0 <= j < ks.len() && *ks[j] == x by {
        assert(ks.unref().to_set().contains(x));
        assert(ks.unref().contains(x));
        let j = choose|j: int| 0 <= j < ks.unref().len() && ks.unref()[j] == x;
        assert(*ks[j] == x);
    }
    assert forall|j: int| 0 <= j < ks.len() implies heap@.contains_key(*ks[j]) by {
        assert(ks.unref()[j] == *ks[j]);
        assert(ks.unref().contains(*ks[j]));
        assert(ks.unref().to_set().contains(*ks[j]));
    }
}

/// The ids on `heap` that are not marked, each once.
fn unmarked_keys(heap: &HashMap<usize, HeapObject>, marked: &HashSet<usize>) -> (r: Vec<usize>)
    ensures
        r@.no_duplicates(),
        forall|id: usize| r@.contains(id) <==> (heap@.contains_key(id) && !marked@.contains(id)),
{
    let ghost ks = spec_keys_iter(heap).remaining();
    proof {
        lemma_keys(heap);
    }
    let mut r: Vec<usize> = Vec::new();
    for id in it: heap.keys()
        invariant
            it.seq() == ks,
            ks.no_duplicates(),
            forall|x: usize|
                heap@.contains_key(x) <==> exists|j: int| 0 <= j < ks.len() && *ks[j] == x,
            r@.no_duplicates(),
            forall|x: usize|
                r@.contains(x) <==> (exists|j: int| 0 <= j < it.index() && *ks[j] == x)
                    && !marked@.contains(x),
    {
        let ghost i = it.index();
        let ghost r0 = r@;
        proof {
            assert(*id == *ks[i]);
        }
        if !marked.contains(id) {
            proof {
                assert(!r@.contains(*id));
            }
            r.push(*id);
        }
        proof {
            assert forall|x: usize|
                r@.contains(x) <==> (exists|j: int| 0 <= j < i + 1 && *ks[j] == x)
                    && !marked@.contains(x) by {
                if x == *id {
                    assert(*ks[i] == x);
                } else {
                    assert(r@ == r0 || r@ == r0.push(*id));
                    assert(r@.contains(x) <==> r0.contains(x));
                    if exists|j: int| 0 <= j < i + 1 && *ks[j] == x {
                        let j = choose|j: int| 0 <= j < i + 1 && *ks[j] == x;
                        assert(j < i);
                    }
                }
            }
        }
    }
    r
}

} // verus!

verus! {

/// The roots are reachable.
proof fn lemma_root_reachable(heap: Map<usize, HeapObject>, rs: Set<usize>, y: usize)
    requires
        rs.contains(y),
    ensures
        reachable(heap, rs).contains(y),
{
}

/// What a reachable object refers to is reachable.
proof fn lemma_step_reachable(heap: Map<usize, HeapObject>, rs: Set<usize>, x: usize, y: usize)
    requires
        reachable(heap, rs).contains(x),
        heap.contains_key(x),
        points_to(heap[x], y),
    ensures
        reachable(heap, rs).contains(y),
{
    assert forall|m: Set<usize>| #[trigger] closed_under(heap, m) && rs.subset_of(m) implies m.contains(
        y,
    ) by {
        assert(m.contains(x));
    }
}

/// Every set that holds the roots and is closed holds the reachable ids.
proof fn lemma_reachable_within(heap: Map<usize, HeapObject>, rs: Set<usize>, m: Set<usize>)
    requires
        closed_under(heap, m),
        rs.subset_of(m),
    ensures
        reachable(heap, rs).subset_of(m),
{
}

/// Marking in two steps is marking once.
proof fn lemma_queued_trans(
    m0: Set<usize>,
    m1: Set<usize>,
    m2: Set<usize>,
    w0: Seq<usize>,
    w1: Seq<usize>,
    w2: Seq<usize>,
    anywhere: bool,
    dom: Set<usize>,
)
    requires
        queued(m0, m1, w0, w1, anywhere, dom),
        queued(m1, m2, w1, w2, anywhere, dom),
    ensures
        queued(m0, m2, w0, w2, anywhere, dom),
{
    if w0.no_duplicates() && (forall|x: usize| #[trigger] w0.contains(x) ==> m0.contains(x)) {
        assert forall|x: usize| #[trigger] w1.contains(x) implies m1.contains(x) by {
            if w0.contains(x) {
                assert(m0.contains(x));
            }
        }
    }
}

/// The elements that a walk over `set` gives are its members, each once.
proof fn lemma_set_keys(set: &HashSet<usize>)
    ensures
        spec_hash_keys_iter(set).remaining().no_duplicates(),
        forall|x: usize|
            set@.contains(x) <==> exists|j: int|
                0 <= j < spec_hash_keys_iter(set).remaining().len()
                    && *spec_hash_keys_iter(set).remaining()[j] == x,
{
    let ks = spec_hash_keys_iter(set).remaining();
    assert(ks.unref().to_set() == set@);
    assert forall|x: usize| set@.contains(x) implies exists|j: int| 0 <= j < ks.len() && *ks[j] == x by {
        assert(ks.unref().to_set().contains(x));
        assert(ks.unref().contains(x));
        let j = choose|j: int| 0 <= j < ks.unref().len() && ks.unref()[j] == x;
        assert(*ks[j] == x);
    }
    assert forall|j: int| 0 <= j < ks.len() implies set@.contains(*ks[j]) by {
        assert(ks.unref()[j] == *ks[j]);
        assert(ks.unref().contains(*ks[j]));
        assert(ks.unref().to_set().contains(*ks[j]));
    }
}

/// Drops the objects `ids` from `heap`, with their ages and remembered marks, and adds each of
/// them that is a class instance to `finalized`.
fn sweep_ids(
    heap: &mut HashMap<usize, HeapObject>,
    ages: &mut HashMap<usize, u8>,
    remembered: &mut HashSet<usize>,
    ids: &Vec<usize>,
    finalized: &mut Vec<(usize, String, Entries)>,
)
    requires
        ids@.no_duplicates(),
    ensures
        final(heap)@ == old(heap)@.remove_keys(ids@.to_set()),
        final(ages)@ == old(ages)@.remove_keys(ids@.to_set()),
        final(remembered)@ == old(remembered)@.difference(ids@.to_set()),
        finalized_from(old(finalized)@, final(finalized)@, old(heap)@, ids@.to_set()),
{
    let ghost h0 = heap@;
    let ghost a0 = ages@;
    let ghost r0 = remembered@;
    let ghost f0 = finalized@;
    let mut i: usize = 0;
    proof {
        assert(ids@.take(0).to_set() =~= Set::<usize>::empty());
        assert(heap@ =~= h0.remove_keys(Set::<usize>::empty()));
        assert(ages@ =~= a0.remove_keys(Set::<usize>::empty()));
        assert(remembered@ =~= r0.difference(Set::<usize>::empty()));
        assert(finalized@.take(f0.len() as int) =~= f0);
    }
    while i < ids.len()
        invariant
            i <= ids@.len(),
            ids@.no_duplicates(),
            heap@ == h0.remove_keys(ids@.take(i as int).to_set()),
            ages@ == a0.remove_keys(ids@.take(i as int).to_set()),
            remembered@ == r0.difference(ids@.take(i as int).to_set()),
            finalized_from(f0, finalized@, h0, ids@.take(i as int).to_set()),
        decreases ids.len() - i,
    {
        let id = ids[i];
        let ghost done = ids@.take(i as int).to_set();
        let ghost next = ids@.take(i + 1).to_set();
        let ghost fb = finalized@;
        proof {
            assert(ids@.take(i + 1) =~= ids@.take(i as int).push(id));
            assert(next =~= done.insert(id));
            assert(!done.contains(id)) by {
                if done.contains(id) {
                    assert(ids@.take(i as int).contains(id));
                    let j = choose|j: int| 0 <= j < i && ids@.take(i as int)[j] == id;
                    assert(ids@[j] == ids@[i as int]);
                }
            }
        }
        match heap.remove(&id) {
            Some(HeapObject::Object { class_name, properties }) => {
                finalized.push((id, class_name, properties));
            },
            _ => {},
        }
        ages.remove(&id);
        remembered.remove(&id);
        proof {
            assert(heap@ =~= h0.remove_keys(next));
            assert(ages@ =~= a0.remove_keys(next));
            assert(remembered@ =~= r0.difference(next));
            assert(finalized@.take(f0.len() as int) =~= f0) by {
                assert(fb.take(f0.len() as int) == f0);
            }
            assert forall|x: usize|
                next.contains(x) && h0.contains_key(x) && #[trigger] h0[x] is Object implies exists|k: int|
                f0.len() <= k < finalized@.len() && finalized@[k].0 == x by {
                if x == id {
                    assert(finalized@[finalized@.len() - 1].0 == x);
                } else {
                    assert(done.contains(x));
                    let k = choose|k: int| f0.len() <= k < fb.len() && fb[k].0 == x;
                    assert(finalized@[k] == fb[k]);
                }
            }
            assert forall|k1: int, k2: int|
                f0.len() <= k1 < k2 < finalized@.len() implies #[trigger] finalized@[k1].0
                != #[trigger] finalized@[k2].0 by {
                if k2 == finalized@.len() - 1 && finalized@.len() > fb.len() {
                    assert(done.contains(fb[k1].0));
                    assert(finalized@[k1] == fb[k1]);
                } else {
                    assert(finalized@[k1] == fb[k1]);
                    assert(finalized@[k2] == fb[k2]);
                }
            }
            assert forall|k: int| f0.len() <= k < finalized@.len() implies next.contains(
                #[trigger] finalized@[k].0,
            ) && h0.contains_key(finalized@[k].0) && h0[finalized@[k].0] == HeapObject::Object {
                class_name: finalized@[k].1,
                properties: finalized@[k].2,
            } by {
                if k < fb.len() {
                    assert(finalized@[k] == fb[k]);
                }
            }
        }
        i += 1;
    }
    proof {
        assert(ids@.take(ids@.len() as int) =~= ids@);
    }
}

impl Gobbler {
    /// The heap's ids are finitely many.
    proof fn lemma_heap_finite(&self)
        ensures
            self.heap().dom().finite(),
    {
        assert(self.young_heap@.dom().finite());
        assert(self.old_heap@.dom().finite());
        assert(self.heap().dom() =~= self.old_heap@.dom().union(self.young_heap@.dom()));
    }

    /// Marks `id`, when `anywhere` holds or it is on the heap; queues it when it was not marked.
    fn mark(&self, id: usize, anywhere: bool, marked: &mut HashSet<usize>, worklist: &mut Vec<usize>)
        requires
            !anywhere ==> self.heap().dom().finite(),
        ensures
            final(marked)@ == (if anywhere || self.heap().contains_key(id) {
                old(marked)@.insert(id)
            } else {
                old(marked)@
            }),
            queued(old(marked)@, final(marked)@, old(worklist)@, final(worklist)@, anywhere, self.heap().dom()),
    {
        let ghost m0 = marked@;
        let ghost w0 = worklist@;
        if anywhere || self.young_heap.contains_key(&id) || self.old_heap.contains_key(&id) {
            if marked.insert(id) {
                worklist.push(id);
                proof {
                    if w0.no_duplicates() && (forall|x: usize| #[trigger] w0.contains(x) ==> m0.contains(x)) {
                        assert(!w0.contains(id));
                    }
                    if !anywhere {
                        let d = self.heap().dom();
                        assert(d.difference(marked@) =~= d.difference(m0).remove(id));
                        assert(d.difference(m0).contains(id));
                    }
                }
            } else {
                proof {
                    assert(marked@ =~= m0);
                }
            }
        }
    }

    /// Marks the ids that `vals` refer to (when `anywhere` holds, or they are on the heap).
    fn mark_values(
        &self,
        vals: &Vec<IshValue>,
        anywhere: bool,
        marked: &mut HashSet<usize>,
        worklist: &mut Vec<usize>,
    )
        requires
            !anywhere ==> self.heap().dom().finite(),
        ensures
            final(marked)@ == old(marked)@.union(
                Set::new(|y: usize| refers(vals@, y) && (anywhere || self.heap().contains_key(y))),
            ),
            queued(old(marked)@, final(marked)@, old(worklist)@, final(worklist)@, anywhere, self.heap().dom()),
    {
        let ghost m0 = marked@;
        let ghost w0 = worklist@;
        let mut i: usize = 0;
        proof {
            assert(m0.union(
                Set::new(|y: usize| refers(vals@.take(0), y) && (anywhere || self.heap().contains_key(y))),
            ) =~= m0);
        }
        while i < vals.len()
            invariant
                i <= vals@.len(),
                !anywhere ==> self.heap().dom().finite(),
                marked@ == m0.union(
                    Set::new(
                        |y: usize|
                            refers(vals@.take(i as int), y) && (anywhere || self.heap().contains_key(y)),
                    ),
                ),
                queued(m0, marked@, w0, worklist@, anywhere, self.heap().dom()),
            decreases vals.len() - i,
        {
            let ghost m1 = marked@;
            let ghost w1 = worklist@;
            match &vals[i] {
                IshValue::Reference(id) => self.mark(*id, anywhere, marked, worklist),
                _ => {},
            }
            proof {
                lemma_queued_trans(m0, m1, marked@, w0, w1, worklist@, anywhere, self.heap().dom());
                let ghost t0 = vals@.take(i as int);
                let ghost t1 = vals@.take(i + 1);
                assert(t1 =~= t0.push(vals@[i as int]));
                assert forall|y: usize|
                    refers(t1, y) <==> refers(t0, y) || vals@[i as int] == IshValue::Reference(y) by {
                    if refers(t1, y) {
                        let k = choose|k: int| 0 <= k < t1.len() && #[trigger] t1[k] == IshValue::Reference(y);
                        if k < i {
                            assert(t0[k] == IshValue::Reference(y));
                        }
                    }
                    if refers(t0, y) {
                        let k = choose|k: int| 0 <= k < t0.len() && #[trigger] t0[k] == IshValue::Reference(y);
                        assert(t1[k] == IshValue::Reference(y));
                    }
                    if vals@[i as int] == IshValue::Reference(y) {
                        assert(t1[i as int] == IshValue::Reference(y));
                    }
                }
                assert(marked@ =~= m0.union(
                    Set::new(
                        |y: usize|
                            refers(vals@.take(i + 1), y) && (anywhere || self.heap().contains_key(y)),
                    ),
                ));
            }
            i += 1;
        }
        proof {
            assert(vals@.take(vals@.len() as int) =~= vals@);
        }
    }

    /// Marks the ids that the values of `entries` refer to (when `anywhere` holds, or they are
    /// on the heap).
    fn mark_entries(
        &self,
        entries: &Entries,
        anywhere: bool,
        marked: &mut HashSet<usize>,
        worklist: &mut Vec<usize>,
    )
        requires
            !anywhere ==> self.heap().dom().finite(),
        ensures
            final(marked)@ == old(marked)@.union(
                Set::new(
                    |y: usize| entry_refers(entries@, y) && (anywhere || self.heap().contains_key(y)),
                ),
            ),
            queued(old(marked)@, final(marked)@, old(worklist)@, final(worklist)@, anywhere, self.heap().dom()),
    {
        let ghost m0 = marked@;
        let ghost w0 = worklist@;
        let mut i: usize = 0;
        proof {
            assert(m0.union(
                Set::new(
                    |y: usize| entry_refers(entries@.take(0), y) && (anywhere || self.heap().contains_key(y)),
                ),
            ) =~= m0);
        }
        while i < entries.len()
            invariant
                i <= entries@.len(),
                !anywhere ==> self.heap().dom().finite(),
                marked@ == m0.union(
                    Set::new(
                        |y: usize|
                            entry_refers(entries@.take(i as int), y) && (anywhere
                                || self.heap().contains_key(y)),
                    ),
                ),
                queued(m0, marked@, w0, worklist@, anywhere, self.heap().dom()),
            decreases entries.len() - i,
        {
            let ghost m1 = marked@;
            let ghost w1 = worklist@;
            match &entries[i].1 {
                IshValue::Reference(id) => self.mark(*id, anywhere, marked, worklist),
                _ => {},
            }
            proof {
                lemma_queued_trans(m0, m1, marked@, w0, w1, worklist@, anywhere, self.heap().dom());
                let ghost t0 = entries@.take(i as int);
                let ghost t1 = entries@.take(i + 1);
                assert(t1 =~= t0.push(entries@[i as int]));
                assert forall|y: usize|
                    entry_refers(t1, y) <==> entry_refers(t0, y) || entries@[i as int].1 == IshValue::Reference(y) by {
                    if entry_refers(t1, y) {
                        let k = choose|k: int| 0 <= k < t1.len() && #[trigger] t1[k].1 == IshValue::Reference(y);
                        if k < i {
                            assert(t0[k].1 == IshValue::Reference(y));
                        }
                    }
                    if entry_refers(t0, y) {
                        let k = choose|k: int| 0 <= k < t0.len() && #[trigger] t0[k].1 == IshValue::Reference(y);
                        assert(t1[k].1 == IshValue::Reference(y));
                    }
                    if entries@[i as int].1 == IshValue::Reference(y) {
                        assert(t1[i as int].1 == IshValue::Reference(y));
                    }
                }
                assert(marked@ =~= m0.union(
                    Set::new(
                        |y: usize|
                            entry_refers(entries@.take(i + 1), y) && (anywhere
                                || self.heap().contains_key(y)),
                    ),
                ));
            }
            i += 1;
        }
        proof {
            assert(entries@.take(entries@.len() as int) =~= entries@);
        }
    }
}

} // verus!

verus! {

impl Gobbler {
    /// Marks the roots of a collection and queues each of them once.
    fn mark_roots(
        &self,
        stack_roots: &[Entries],
        static_roots: &Entries,
        return_value: Option<&IshValue>,
        major: bool,
    ) -> (r: (HashSet<usize>, Vec<usize>))
        ensures
            r.0@ == roots(
                stack_roots@,
                static_roots@,
                deref_opt(return_value),
                self.remembered_set@,
                major,
            ),
            r.1@.no_duplicates(),
            forall|x: usize| r.1@.contains(x) <==> r.0@.contains(x),
    {
        let ghost dom = self.heap().dom();
        let ghost e = Set::<usize>::empty();
        let ghost w = Seq::<usize>::empty();
        let mut marked: HashSet<usize> = HashSet::new();
        let mut worklist: Vec<usize> = Vec::new();
        if let Some(IshValue::Reference(id)) = return_value {
            self.mark(*id, true, &mut marked, &mut worklist);
        }
        let ghost from_ret = marked@;
        proof {
            assert(from_ret =~= Set::new(|y: usize| deref_opt(return_value) == Some(IshValue::Reference(y))));
        }
        let mut i: usize = 0;
        while i < stack_roots.len()
            invariant
                i <= stack_roots@.len(),
                marked@ == from_ret.union(
                    Set::new(
                        |y: usize|
                            exists|k: int| 0 <= k < i && #[trigger] entry_refers(stack_roots@[k]@, y),
                    ),
                ),
                queued(e, marked@, w, worklist@, true, dom),
                e == Set::<usize>::empty(),
                w == Seq::<usize>::empty(),
            decreases stack_roots.len() - i,
        {
            let ghost m1 = marked@;
            let ghost w1 = worklist@;
            self.mark_entries(&stack_roots[i], true, &mut marked, &mut worklist);
            proof {
                lemma_queued_trans(e, m1, marked@, w, w1, worklist@, true, dom);
                assert(marked@ =~= from_ret.union(
                    Set::new(
                        |y: usize|
                            exists|k: int| 0 <= k < i + 1 && #[trigger] entry_refers(stack_roots@[k]@, y),
                    ),
                )) by {
                    assert forall|y: usize| marked@.contains(y) implies from_ret.contains(y) || exists|k: int|
                        0 <= k < i + 1 && #[trigger] entry_refers(stack_roots@[k]@, y) by {
                        if !m1.contains(y) && !from_ret.contains(y) {
                            assert(entry_refers(stack_roots@[i as int]@, y));
                        }
                    }
                }
            }
            i += 1;
        }
        let ghost m2 = marked@;
        let ghost w2 = worklist@;
        self.mark_entries(static_roots, true, &mut marked, &mut worklist);
        proof {
            lemma_queued_trans(e, m2, marked@, w, w2, worklist@, true, dom);
        }
        let ghost m3 = marked@;
        if !major {
            let ghost ks = spec_hash_keys_iter(&self.remembered_set).remaining();
            proof {
                lemma_set_keys(&self.remembered_set);
            }
            for id in it: self.remembered_set.iter()
                invariant
                    it.seq() == ks,
                    forall|x: usize|
                        self.remembered_set@.contains(x) <==> exists|j: int|
                            0 <= j < ks.len() && *ks[j] == x,
                    marked@ == m3.union(
                        Set::new(|y: usize| exists|j: int| 0 <= j < it.index() && *ks[j] == y),
                    ),
                    queued(e, marked@, w, worklist@, true, dom),
                    e == Set::<usize>::empty(),
                    w == Seq::<usize>::empty(),
            {
                let ghost j0 = it.index();
                let ghost m4 = marked@;
                let ghost w4 = worklist@;
                proof {
                    assert(*id == *ks[j0]);
                }
                self.mark(*id, true, &mut marked, &mut worklist);
                proof {
                    lemma_queued_trans(e, m4, marked@, w, w4, worklist@, true, dom);
                    assert(marked@ =~= m3.union(
                        Set::new(|y: usize| exists|j: int| 0 <= j < j0 + 1 && *ks[j] == y),
                    )) by {
                        assert forall|y: usize|
                            (exists|j: int| 0 <= j < j0 + 1 && *ks[j] == y) implies m4.contains(y) || y
                            == *id by {
                            let j = choose|j: int| 0 <= j < j0 + 1 && *ks[j] == y;
                            if j < j0 {
                                assert(m4.contains(y));
                            }
                        }
                    }
                }
            }
        }
        proof {
            assert(marked@ =~= roots(
                stack_roots@,
                static_roots@,
                deref_opt(return_value),
                self.remembered_set@,
                major,
            ));
        }
        (marked, worklist)
    }
}

} // verus!

verus! {

impl Gobbler {
    /// Marks everything reachable from the marked roots: takes ids off the work list and marks
    /// the heap objects that each one refers to, until the list is empty.
    fn trace(&self, marked: &mut HashSet<usize>, worklist: &mut Vec<usize>, Ghost(rs): Ghost<Set<usize>>)
        requires
            old(marked)@ == rs,
            old(worklist)@.no_duplicates(),
            forall|x: usize| old(worklist)@.contains(x) <==> old(marked)@.contains(x),
        ensures
            forall|id: usize|
                self.heap().contains_key(id) ==> (final(marked)@.contains(id) <==> reachable(
                    self.heap(),
                    rs,
                ).contains(id)),
    {
        let ghost h = self.heap();
        proof {
            self.lemma_heap_finite();
            assert forall|x: usize| #[trigger] marked@.contains(x) implies reachable(h, rs).contains(
                x,
            ) by {
                lemma_root_reachable(h, rs, x);
            }
        }
        while worklist.len() > 0
            invariant
                h == self.heap(),
                h.dom().finite(),
                rs.subset_of(marked@),
                forall|x: usize| #[trigger] marked@.contains(x) ==> reachable(h, rs).contains(x),
                forall|x: usize| #[trigger] worklist@.contains(x) ==> marked@.contains(x),
                worklist@.no_duplicates(),
                forall|x: usize, y: usize|
                    marked@.contains(x) && !worklist@.contains(x) && h.contains_key(x)
                        && #[trigger] points_to(h[x], y) && h.contains_key(y) ==> marked@.contains(y),
            decreases h.dom().difference(marked@).len(), worklist@.len(),
        {
            let ghost m0 = marked@;
            let ghost w0 = worklist@;
            let current_id = worklist.pop().unwrap();
            let ghost w1 = worklist@;
            proof {
                assert(w0 == w1.push(current_id));
                assert(!w1.contains(current_id)) by {
                    if w1.contains(current_id) {
                        let j = choose|j: int| 0 <= j < w1.len() && w1[j] == current_id;
                        assert(w0[j] == w0[w0.len() - 1]);
                    }
                }
                assert forall|x: usize| #[trigger] w1.contains(x) implies m0.contains(x) by {
                    assert(w0.contains(x));
                }
            }
            match self.get(current_id) {
                Some(obj) => {
                    match obj {
                        HeapObject::Array(v) => self.mark_values(v, false, marked, worklist),
                        HeapObject::List(v) => self.mark_values(v, false, marked, worklist),
                        HeapObject::Dict(e) => self.mark_entries(e, false, marked, worklist),
                        HeapObject::Object { properties, .. } => self.mark_entries(
                            properties,
                            false,
                            marked,
                            worklist,
                        ),
                    }
                    proof {
                        assert(marked@ =~= m0.union(
                            Set::new(
                                |y: usize|
                                    h.contains_key(current_id) && points_to(h[current_id], y)
                                        && h.contains_key(y),
                            ),
                        ));
                    }
                },
                None => {
                    proof {
                        assert(marked@ =~= m0.union(
                            Set::new(
                                |y: usize|
                                    h.contains_key(current_id) && points_to(h[current_id], y)
                                        && h.contains_key(y),
                            ),
                        ));
                    }
                },
            }
            proof {
                assert(queued(m0, marked@, w1, worklist@, false, h.dom()));
                assert(w0[w0.len() - 1] == current_id);
                assert(w0.contains(current_id));
                assert(m0.contains(current_id));
                assert forall|x: usize| #[trigger] marked@.contains(x) implies reachable(h, rs).contains(
                    x,
                ) by {
                    if !m0.contains(x) {
                        lemma_step_reachable(h, rs, current_id, x);
                    }
                }
                assert forall|x: usize, y: usize|
                    marked@.contains(x) && !worklist@.contains(x) && h.contains_key(x)
                        && #[trigger] points_to(h[x], y) && h.contains_key(y) implies marked@.contains(y) by {
                    if x != current_id {
                        assert(m0.contains(x));
                        assert(!w0.contains(x));
                        assert(m0.contains(y));
                    }
                }
                assert(h.dom().difference(marked@).len() <= h.dom().difference(m0).len());
            }
        }
        proof {
            let m = marked@.union(Set::new(|y: usize| !h.contains_key(y)));
            assert forall|x: usize, y: usize|
                m.contains(x) && h.contains_key(x) && #[trigger] points_to(h[x], y) implies m.contains(y) by {
                assert(marked@.contains(x));
                assert(!worklist@.contains(x));
            }
            assert(closed_under(h, m));
            lemma_reachable_within(h, rs, m);
        }
    }
}

} // verus!

verus! {

/// Finalizing in two steps, over disjoint sets of ids with the same objects, is finalizing once.
proof fn lemma_finalized_concat(
    f0: Seq<(usize, String, Entries)>,
    f1: Seq<(usize, String, Entries)>,
    f2: Seq<(usize, String, Entries)>,
    h1: Map<usize, HeapObject>,
    s1: Set<usize>,
    h2: Map<usize, HeapObject>,
    s2: Set<usize>,
    h: Map<usize, HeapObject>,
)
    requires
        finalized_from(f0, f1, h1, s1),
        finalized_from(f1, f2, h2, s2),
        s1.disjoint(s2),
        forall|id: usize| s1.contains(id) ==> (h1.contains_key(id) <==> h.contains_key(id)) && (
        h1.contains_key(id) ==> h1[id] == h[id]),
        forall|id: usize| s2.contains(id) ==> (h2.contains_key(id) <==> h.contains_key(id)) && (
        h2.contains_key(id) ==> h2[id] == h[id]),
    ensures
        finalized_from(f0, f2, h, s1.union(s2)),
{
    assert(f2.take(f0.len() as int) =~= f0) by {
        assert(f2.take(f1.len() as int) == f1);
        assert forall|k: int| 0 <= k < f0.len() implies f2[k] == f0[k] by {
            assert(f2.take(f1.len() as int)[k] == f2[k]);
            assert(f1.take(f0.len() as int)[k] == f1[k]);
        }
    }
    assert forall|k: int| f0.len() <= k < f1.len() implies f2[k] == f1[k] by {
        assert(f2.take(f1.len() as int)[k] == f2[k]);
    }
    assert forall|k: int|
        f0.len() <= k < f2.len() implies s1.union(s2).contains(#[trigger] f2[k].0) && h.contains_key(
        f2[k].0,
    ) && h[f2[k].0] == HeapObject::Object { class_name: f2[k].1, properties: f2[k].2 } by {
        if k < f1.len() {
            assert(f2[k] == f1[k]);
        }
    }
    assert forall|id: usize|
        s1.union(s2).contains(id) && h.contains_key(id) && #[trigger] h[id] is Object implies exists|k: int|
        f0.len() <= k < f2.len() && f2[k].0 == id by {
        if s1.contains(id) {
            assert(h1[id] is Object);
            let k = choose|k: int| f0.len() <= k < f1.len() && f1[k].0 == id;
            assert(f2[k] == f1[k]);
        } else {
            assert(h2[id] is Object);
        }
    }
    assert forall|k1: int, k2: int|
        f0.len() <= k1 < k2 < f2.len() implies #[trigger] f2[k1].0 != #[trigger] f2[k2].0 by {
        if k2 < f1.len() {
            assert(f2[k1] == f1[k1]);
            assert(f2[k2] == f1[k2]);
        } else if k1 < f1.len() {
            assert(f2[k1] == f1[k1]);
            assert(s1.contains(f2[k1].0));
            assert(s2.contains(f2[k2].0));
        }
    }
}

/// One of the first `n` keys of a walk is `x`.
spec fn among(ks: Seq<&usize>, n: int, x: usize) -> bool {
    exists|j: int| 0 <= j < n && *ks[j] == x
}

/// Walks the young objects: those not marked are to be swept; each marked one with an age
/// is a collection older, and those that reach age three are to move to the old heap.
fn plan_young(
    young: &HashMap<usize, HeapObject>,
    ages: &mut HashMap<usize, u8>,
    marked: &HashSet<usize>,
) -> (r: (Vec<usize>, Vec<usize>))
    requires
        forall|x: usize| #[trigger]
            young@.contains_key(x) && old(ages)@.contains_key(x) ==> old(ages)@[x] < 3,
    ensures
        r.0@.no_duplicates(),
        forall|id: usize|
            #[trigger] r.0@.contains(id) <==> (young@.contains_key(id) && !marked@.contains(id)),
        r.1@.no_duplicates(),
        forall|id: usize|
            #[trigger] r.1@.contains(id) <==> promoted(
                young@,
                old(ages)@,
                marked@,
                id,
            ),
        final(ages)@ == aged(
            old(ages)@,
            young@,
            marked@,
        ),
{
    let ghost ks = spec_keys_iter(young).remaining();
    let ghost a0 = ages@;
    let ghost y0 = young@;
    proof {
        lemma_keys(young);
        assert(ages@ =~= Map::new(
            |x: usize| a0.contains_key(x),
            |x: usize|
                if among(ks, 0, x) && marked@.contains(x) {
                    (a0[x] + 1) as u8
                } else {
                    a0[x]
                },
        ));
    }
    let mut to_sweep: Vec<usize> = Vec::new();
    let mut to_promote: Vec<usize> = Vec::new();
    for id in it: young.keys()
        invariant
            it.seq() == ks,
            ks.no_duplicates(),
            forall|x: usize| y0.contains_key(x) <==> among(ks, ks.len() as int, x),
            y0 == young@,
            forall|x: usize| #[trigger]
                y0.contains_key(x) && a0.contains_key(x) ==> a0[x] < 3,
            to_sweep@.no_duplicates(),
            forall|x: usize|
                to_sweep@.contains(x) <==> among(ks, it.index(), x)
                    && !marked@.contains(x),
            to_promote@.no_duplicates(),
            forall|x: usize|
                to_promote@.contains(x) <==> among(ks, it.index(), x)
                    && promoted(y0, a0, marked@, x),
            ages@ == Map::new(
                |x: usize| a0.contains_key(x),
                |x: usize|
                    if among(ks, it.index(), x) && marked@.contains(x) {
                        (a0[x] + 1) as u8
                    } else {
                        a0[x]
                    },
            ),
    {
        let ghost j0 = it.index();
        let ghost s0 = to_sweep@;
        let ghost p0 = to_promote@;
        let ghost ages_before = ages@;
        proof {
            assert(*id == *ks[j0]);
            assert(y0.contains_key(*id));
            assert(!among(ks, j0, *id)) by {
                if among(ks, j0, *id) {
                    let j = choose|j: int| 0 <= j < j0 && *ks[j] == *id;
                    assert(ks[j] == ks[j0]);
                }
            }
        }
        if !marked.contains(id) {
            to_sweep.push(*id);
        } else {
            match ages.get(id) {
                Some(age) => {
                    let new_age = *age + 1;
                    ages.insert(*id, new_age);
                    if new_age >= 3 {
                        proof {
                            assert(!to_promote@.contains(*id));
                        }
                        to_promote.push(*id);
                    }
                },
                None => {},
            }
        }
        proof {
            assert forall|x: usize|
                #[trigger] among(ks, j0 + 1, x) <==> among(ks, j0, x) || x == *id by {
                if among(ks, j0 + 1, x) {
                    let j = choose|j: int| 0 <= j < j0 + 1 && *ks[j] == x;
                    if j < j0 {
                    } else {
                        assert(x == *id);
                    }
                }
                if x == *id {
                    assert(*ks[j0] == x);
                }
            }
            assert(to_sweep@ == s0 || to_sweep@ == s0.push(*id));
            assert(to_promote@ == p0 || to_promote@ == p0.push(*id));
            assert(ages@ =~= Map::new(
                |x: usize| a0.contains_key(x),
                |x: usize|
                    if among(ks, j0 + 1, x) && marked@.contains(x) {
                        (a0[x] + 1) as u8
                    } else {
                        a0[x]
                    },
            ));
        }
    }
    proof {
        assert(ages@ =~= aged(a0, y0, marked@));
    }
    (to_sweep, to_promote)
}

impl Gobbler {
    /// Whether the next collection is a major one: the old heap holds more objects than the
    /// major threshold.
    pub open spec fn is_major(&self) -> bool {
        self.old_heap@.len() > self.major_threshold
    }

    /// Moves the young objects `ids` to the old heap.
    fn promote(&mut self, ids: &Vec<usize>)
        requires
            ids@.no_duplicates(),
            forall|id: usize| ids@.contains(id) ==> old(self).young_heap@.contains_key(id),
        ensures
            final(self).young_heap@ == old(self).young_heap@.remove_keys(ids@.to_set()),
            final(self).old_heap@ == old(self).old_heap@.union_prefer_right(
                old(self).young_heap@.restrict(ids@.to_set()),
            ),
            final(self).object_ages@ == old(self).object_ages@,
            final(self).remembered_set@ == old(self).remembered_set@,
            final(self).next_id == old(self).next_id,
            final(self).allocations_since_minor == old(self).allocations_since_minor,
            final(self).minor_threshold == old(self).minor_threshold,
            final(self).major_threshold == old(self).major_threshold,
    {
        let ghost y0 = self.young_heap@;
        let ghost o0 = self.old_heap@;
        let mut i: usize = 0;
        proof {
            assert(ids@.take(0).to_set() =~= Set::<usize>::empty());
            assert(self.young_heap@ =~= y0.remove_keys(Set::<usize>::empty()));
            assert(self.old_heap@ =~= o0.union_prefer_right(y0.restrict(Set::<usize>::empty())));
        }
        while i < ids.len()
            invariant
                i <= ids@.len(),
                ids@.no_duplicates(),
                forall|id: usize| ids@.contains(id) ==> y0.contains_key(id),
                self.young_heap@ == y0.remove_keys(ids@.take(i as int).to_set()),
                self.old_heap@ == o0.union_prefer_right(y0.restrict(ids@.take(i as int).to_set())),
                self.object_ages@ == old(self).object_ages@,
                self.remembered_set@ == old(self).remembered_set@,
                self.next_id == old(self).next_id,
                self.allocations_since_minor == old(self).allocations_since_minor,
                self.minor_threshold == old(self).minor_threshold,
                self.major_threshold == old(self).major_threshold,
            decreases ids.len() - i,
        {
            let id = ids[i];
            let ghost done = ids@.take(i as int).to_set();
            proof {
                assert(ids@.take(i + 1) =~= ids@.take(i as int).push(id));
                assert(ids@.take(i + 1).to_set() =~= done.insert(id));
                assert(ids@.contains(id));
                assert(!done.contains(id)) by {
                    if done.contains(id) {
                        assert(ids@.take(i as int).contains(id));
                        let j = choose|j: int| 0 <= j < i && ids@.take(i as int)[j] == id;
                        assert(ids@[j] == ids@[i as int]);
                    }
                }
            }
            match self.young_heap.remove(&id) {
                Some(obj) => {
                    self.old_heap.insert(id, obj);
                },
                None => {},
            }
            proof {
                assert(self.young_heap@ =~= y0.remove_keys(done.insert(id)));
                assert(self.old_heap@ =~= o0.union_prefer_right(y0.restrict(done.insert(id))));
            }
            i += 1;
        }
        proof {
            assert(ids@.take(ids@.len() as int) =~= ids@);
        }
    }
}

} // verus!

verus! {

/// The outcome of a collection of `g` that found `live` reachable: what each heap, the ages and
/// the remembered set become, and that `finalized` lists the class instances swept.
pub open spec fn collected(
    g: Gobbler,
    live: Set<usize>,
    major: bool,
    after: Gobbler,
    finalized: Seq<(usize, String, Entries)>,
) -> bool {
    let y = g.young_heap@;
    let o = g.old_heap@;
    let a = g.object_ages@;
    let swept = Set::new(
        |id: usize| (y.contains_key(id) || (major && o.contains_key(id))) && !live.contains(id),
    );
    let moved = Set::new(|id: usize| promoted(y, a, live, id));
    &&& after.young_heap@ == y.restrict(live).remove_keys(moved)
    &&& after.old_heap@ == (if major {
        o.restrict(live)
    } else {
        o
    }).union_prefer_right(y.restrict(moved))
    &&& after.object_ages@ == aged(a, y, live).remove_keys(swept)
    &&& after.remembered_set@ == (if major {
        Set::<usize>::empty()
    } else {
        g.remembered_set@.difference(swept)
    })
    &&& finalized_from(Seq::empty(), finalized, g.heap(), swept)
}

impl Gobbler {
    /// Collects garbage: marks what the roots reach (the value returned, the variables of each
    /// scope, the static variables, and, in a minor collection, the remembered old objects),
    /// sweeps the young objects not marked, moves young objects that reach age three to the old
    /// heap, and, in a major collection (the old heap holding more objects than the major
    /// threshold), sweeps the old objects not marked too and forgets the remembered set. Gives
    /// the class instances swept, with their properties, so that their destructors can run.
    pub fn collect(
        &mut self,
        stack_roots: &[Entries],
        static_roots: &Entries,
        return_value: Option<&IshValue>,
    ) -> (finalized: Vec<(usize, String, Entries)>)
        requires
            old(self).wf(),
        ensures
            final(self).wf(),
            collected(
                *old(self),
                reachable(
                    old(self).heap(),
                    roots(
                        stack_roots@,
                        static_roots@,
                        deref_opt(return_value),
                        old(self).remembered_set@,
                        old(self).is_major(),
                    ),
                ),
                old(self).is_major(),
                *final(self),
                finalized@,
            ),
            final(self).next_id == old(self).next_id,
            final(self).allocations_since_minor == 0,
            final(self).minor_threshold == old(self).minor_threshold,
            final(self).major_threshold == old(self).major_threshold,
    {
        let ghost g0 = *self;
        let major = self.old_heap.len() > self.major_threshold;
        let ghost rs = roots(
            stack_roots@,
            static_roots@,
            deref_opt(return_value),
            self.remembered_set@,
            major,
        );
        let ghost live = reachable(self.heap(), rs);
        let (mut marked, mut worklist) = self.mark_roots(
            stack_roots,
            static_roots,
            return_value,
            major,
        );
        self.trace(&mut marked, &mut worklist, Ghost(rs));
        let ghost y = g0.young_heap@;
        let ghost o = g0.old_heap@;
        let ghost a = g0.object_ages@;
        let ghost young_swept = Set::new(|id: usize| y.contains_key(id) && !live.contains(id));
        let ghost moved = Set::new(|id: usize| promoted(y, a, live, id));
        let mut finalized: Vec<(usize, String, Entries)> = Vec::new();
        let (young_to_sweep, young_to_promote) = plan_young(
            &self.young_heap,
            &mut self.object_ages,
            &marked,
        );
        proof {
            assert forall|id: usize| #[trigger] y.contains_key(id) implies (marked@.contains(id)
                <==> live.contains(id)) by {
                assert(g0.heap().contains_key(id));
            }
            assert forall|id: usize|
                young_to_sweep@.to_set().contains(id) <==> young_swept.contains(id) by {
                if y.contains_key(id) {
                    assert(marked@.contains(id) <==> live.contains(id));
                }
            }
            assert(young_to_sweep@.to_set() =~= young_swept);
            assert(young_to_promote@.to_set() =~= moved);
            assert(aged(a, y, marked@) =~= aged(a, y, live));
        }
        sweep_ids(
            &mut self.young_heap,
            &mut self.object_ages,
            &mut self.remembered_set,
            &young_to_sweep,
            &mut finalized,
        );
        let ghost f1 = finalized@;
        proof {
            assert forall|id: usize| young_to_promote@.contains(id) implies self.young_heap@.contains_key(
                id,
            ) by {
                assert(moved.contains(id));
            }
        }
        self.promote(&young_to_promote);
        let ghost o1 = self.old_heap@;
        if major {
            let old_to_sweep = unmarked_keys(&self.old_heap, &marked);
            let ghost old_swept = Set::new(|id: usize| o.contains_key(id) && !live.contains(id));
            proof {
                assert forall|id: usize| #[trigger] o1.contains_key(id) implies (marked@.contains(id)
                    <==> live.contains(id)) by {
                    if !o.contains_key(id) {
                        assert(moved.contains(id));
                    }
                }
                assert(old_to_sweep@.to_set() =~= old_swept);
            }
            sweep_ids(
                &mut self.old_heap,
                &mut self.object_ages,
                &mut self.remembered_set,
                &old_to_sweep,
                &mut finalized,
            );
            self.remembered_set.clear();
            proof {
                lemma_finalized_concat(
                    Seq::empty(),
                    f1,
                    finalized@,
                    y,
                    young_swept,
                    o1,
                    old_swept,
                    g0.heap(),
                );
            }
        }
        self.allocations_since_minor = 0;
        proof {
            let swept = Set::new(
                |id: usize| (y.contains_key(id) || (major && o.contains_key(id))) && !live.contains(id),
            );
            if major {
                assert(swept =~= young_swept.union(Set::new(|id: usize| o.contains_key(id) && !live.contains(id))));
            } else {
                assert(swept =~= young_swept);
            }
            assert(self.young_heap@ =~= y.restrict(live).remove_keys(moved));
            assert(self.old_heap@ =~= (if major {
                o.restrict(live)
            } else {
                o
            }).union_prefer_right(y.restrict(moved)));
            assert(self.object_ages@ =~= aged(a, y, live).remove_keys(swept));
            assert(self.heap().dom().subset_of(g0.heap().dom()));
            assert forall|id: usize| #[trigger] self.heap().contains_key(id) implies id < self.next_id
                && self.heap()[id].wf() by {
                assert(g0.heap().contains_key(id));
                assert(self.heap()[id] == g0.heap()[id]);
            }
            assert forall|id: usize|
                #[trigger] self.young_heap@.contains_key(id) && self.object_ages@.contains_key(id)
                    implies self.object_ages@[id] < 3 by {
                assert(y.contains_key(id) && live.contains(id) && !moved.contains(id));
            }
        }
        finalized
    }
}

} // verus!

verus! {

/// A collection keeps every reachable object, unchanged.
pub proof fn lemma_live_objects_survive(
    g: Gobbler,
    live: Set<usize>,
    major: bool,
    after: Gobbler,
    finalized: Seq<(usize, String, Entries)>,
    id: usize,
)
    requires
        g.wf(),
        collected(g, live, major, after, finalized),
        g.heap().contains_key(id),
        live.contains(id),
    ensures
        after.heap().contains_key(id),
        after.heap()[id] == g.heap()[id],
{
}

/// After a major collection, every object left is reachable.
pub proof fn lemma_major_leaves_only_live(
    g: Gobbler,
    live: Set<usize>,
    after: Gobbler,
    finalized: Seq<(usize, String, Entries)>,
    id: usize,
)
    requires
        g.wf(),
        collected(g, live, true, after, finalized),
        after.heap().contains_key(id),
    ensures
        live.contains(id),
{
}

/// A minor collection frees no old object.
pub proof fn lemma_minor_keeps_old(
    g: Gobbler,
    live: Set<usize>,
    after: Gobbler,
    finalized: Seq<(usize, String, Entries)>,
    id: usize,
)
    requires
        g.wf(),
        collected(g, live, false, after, finalized),
        g.old_heap@.contains_key(id),
    ensures
        after.old_heap@.contains_key(id),
        after.old_heap@[id] == g.old_heap@[id],
{
}

/// An object that is allocated is found under the id it was given.
pub proof fn lemma_allocated_found(before: Gobbler, after: Gobbler, id: usize, obj: HeapObject)
    requires
        after.young_heap@ == before.young_heap@.insert(id, obj),
        after.old_heap@ == before.old_heap@,
    ensures
        after.heap().contains_key(id),
        after.heap()[id] == obj,
{
}

} // verus!
