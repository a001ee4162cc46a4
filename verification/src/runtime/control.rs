use vstd::prelude::*;
use crate::lang::ast::{clone_opt_nodes, AstNode};
use crate::lang::registry::{class_keys, resolve_index, struct_keys, Registry, RegistryView};
use crate::lang::tree::{opt_trees, Tree};
use crate::runtime::assign::{clone_entries, clone_values};
use crate::runtime::gobbler::{Gobbler, HeapObject};
use crate::runtime::ops::{float_is_nan, float_key, same_value};
use crate::runtime::scope::clone_value;
use crate::runtime::value::{distinct_names, Entries, IshValue};
use crate::text::{chars_of, lit};

verus! {

/// Equality of values, as `switch` compares them: same kind and same content, floats by value
/// (a NaN equal to nothing, both zeros alike).
pub open spec fn value_eq(l: IshValue, r: IshValue) -> bool {
    match (l, r) {
        (IshValue::Int(a), IshValue::Int(b)) => a == b,
        (IshValue::Float(a), IshValue::Float(b)) => !float_is_nan(a) && !float_is_nan(b)
            && float_key(a) == float_key(b),
        _ => same_value(l, r),
    }
}

/// Whether a `switch` value equals a case value.
pub fn values_equal(l: &IshValue, r: &IshValue) -> (b: bool)
    ensures
        b == value_eq(*l, *r),
{
    match (l, r) {
        (IshValue::Int(a), IshValue::Int(b)) => *a == *b,
        (IshValue::Float(a), IshValue::Float(b)) => {
            if *a % 0x8000_0000 > 0x7f80_0000 || *b % 0x8000_0000 > 0x7f80_0000 {
                false
            } else {
                let ka: i64 = if *a >= 0x8000_0000 {
                    0x8000_0000i64 - *a as i64
                } else {
                    *a as i64
                };
                let kb: i64 = if *b >= 0x8000_0000 {
                    0x8000_0000i64 - *b as i64
                } else {
                    *b as i64
                };
                ka == kb
            }
        },
        (IshValue::String(a), IshValue::String(b)) => *a == *b,
        (IshValue::Char(a), IshValue::Char(b)) => *a == *b,
        (IshValue::Bool(a), IshValue::Bool(b)) => *a == *b,
        (IshValue::Null, IshValue::Null) => true,
        (IshValue::Reference(a), IshValue::Reference(b)) => *a == *b,
        (IshValue::TypeRef(a), IshValue::TypeRef(b)) => *a == *b,
        _ => false,
    }
}

/// The class instance that a `for` loop over a map gives for entry `(k, v)`: a `Pair` whose
/// `Key` is `k` and whose `Value` is `v`.
pub open spec fn is_pair(o: HeapObject, k: Seq<char>, v: IshValue) -> bool {
    o matches HeapObject::Object { class_name, properties } && class_name@ == "Pair"@
        && properties@.len() == 2 && properties@[0].0@ == "Key"@ && (properties@[0].1 matches IshValue::String(s) && s@ == k)
        && properties@[1].0@ == "Value"@ && properties@[1].1 == v
}

/// How many pairs a `for` loop over the value puts on the heap: one per entry of a map.
pub open spec fn pairs_needed(heap: Map<usize, HeapObject>, iterable: IshValue) -> nat {
    match iterable {
        IshValue::Reference(id) => if heap.contains_key(id) {
            match heap[id] {
                HeapObject::Dict(e) => e@.len(),
                _ => 0,
            }
        } else {
            0
        },
        _ => 0,
    }
}

/// The characters of a string as values.
pub open spec fn char_values(s: Seq<char>) -> Seq<IshValue>
    decreases s.len(),
{
    if s.len() == 0 {
        Seq::empty()
    } else {
        char_values(s.drop_last()).push(IshValue::Char(s.last()))
    }
}

/// The items a `for` loop runs over, but for the pairs of a map: the elements of an array or
/// list, none for an empty map, the characters of a string, else the value itself.
pub open spec fn plain_items(heap: Map<usize, HeapObject>, iterable: IshValue) -> Seq<IshValue> {
    match iterable {
        IshValue::Reference(id) => if heap.contains_key(id) {
            match heap[id] {
                HeapObject::Array(a) => a@,
                HeapObject::List(a) => a@,
                HeapObject::Dict(_) => Seq::empty(),
                _ => seq![iterable],
            }
        } else {
            seq![iterable]
        },
        IshValue::String(s) => char_values(s@),
        _ => seq![iterable],
    }
}

/// The heap `after` holds what `before` held, and, under the next `n` ids from `first` on, the
/// pairs of the entries `e`.
pub open spec fn pairs_added(
    before: Map<usize, HeapObject>,
    after: Map<usize, HeapObject>,
    first: usize,
    e: Seq<(String, IshValue)>,
    n: int,
) -> bool {
    &&& forall|id: usize| #[trigger]
        before.contains_key(id) ==> after.contains_key(id) && after[id] == before[id]
    &&& forall|id: usize| #[trigger]
        after.contains_key(id) ==> before.contains_key(id) || (first <= id < first + n)
    &&& forall|id: usize|
        #![trigger after[id]]
        #![trigger after.contains_key(id)]
        first <= id < first + n ==> after.contains_key(id) && is_pair(
            after[id],
            e[id - first].0@,
            e[id - first].1,
        )
}

fn pair_object(k: &String, v: &IshValue) -> (o: HeapObject)
    ensures
        is_pair(o, k@, *v),
        o.wf(),
{
    let mut props: Entries = Vec::new();
    props.push((lit("Key"), IshValue::String(k.clone())));
    props.push((lit("Value"), clone_value(v)));
    proof {
        reveal_strlit("Key");
        reveal_strlit("Value");
        assert(props@[0].0@ != props@[1].0@) by {
            assert(props@[0].0@.len() != props@[1].0@.len());
        }
    }
    HeapObject::Object { class_name: lit("Pair"), properties: props }
}

/// The items a `for` loop runs over: the elements of an array or list, the characters of a
/// string, for a map one `Pair` of key and value per entry (put on the heap, in the order of
/// the entries), else the value itself.
pub fn loop_items(heap: &mut Gobbler, iterable: &IshValue) -> (items: Vec<IshValue>)
    requires
        old(heap).wf(),
        old(heap).next_id + pairs_needed(old(heap).heap(), *iterable) < usize::MAX,
        old(heap).allocations_since_minor + pairs_needed(old(heap).heap(), *iterable) < usize::MAX,
    ensures
        final(heap).wf(),
        pairs_needed(old(heap).heap(), *iterable) == 0 ==> items@ == plain_items(
            old(heap).heap(),
            *iterable,
        ) && *final(heap) == *old(heap),
        pairs_needed(old(heap).heap(), *iterable) > 0 ==> (*iterable matches IshValue::Reference(id)
            && old(heap).heap()[id] matches HeapObject::Dict(e) && items@.len() == e@.len() && (
        forall|j: int|
            0 <= j < items@.len() ==> #[trigger] items@[j] == IshValue::Reference(
                (old(heap).next_id + j) as usize,
            )) && pairs_added(
            old(heap).heap(),
            final(heap).heap(),
            old(heap).next_id,
            e@,
            e@.len() as int,
        )),
{
    match iterable {
        IshValue::Reference(id) => {
            let found: Option<Result<Vec<IshValue>, Entries>> = match heap.get(*id) {
                Some(HeapObject::Array(a)) => Some(Ok(clone_values(a))),
                Some(HeapObject::List(a)) => Some(Ok(clone_values(a))),
                Some(HeapObject::Dict(e)) => Some(Err(clone_entries(e))),
                _ => None,
            };
            match found {
                None => {
                    let mut r: Vec<IshValue> = Vec::new();
                    r.push(IshValue::Reference(*id));
                    proof {
                        assert(r@ =~= seq![*iterable]);
                    }
                    r
                },
                Some(Ok(a)) => a,
                Some(Err(e)) => {
                    if e.len() == 0 {
                        let r: Vec<IshValue> = Vec::new();
                        proof {
                            assert(r@ =~= Seq::<IshValue>::empty());
                        }
                        return r;
                    }
                    let ghost h0 = heap.heap();
                    let ghost first = heap.next_id;
                    let mut items: Vec<IshValue> = Vec::new();
                    let mut i: usize = 0;
                    while i < e.len()
                        invariant
                            heap.wf(),
                            i <= e@.len(),
                            e@.len() == pairs_needed(old(heap).heap(), *iterable),
                            h0 == old(heap).heap(),
                            first == old(heap).next_id,
                            heap.next_id == first + i,
                            heap.allocations_since_minor == old(heap).allocations_since_minor + i,
                            old(heap).next_id + e@.len() < usize::MAX,
                            old(heap).allocations_since_minor + e@.len() < usize::MAX,
                            items@.len() == i,
                            forall|j: int|
                                0 <= j < i ==> #[trigger] items@[j] == IshValue::Reference(
                                    (first + j) as usize,
                                ),
                            pairs_added(h0, heap.heap(), first, e@, i as int),
                        decreases e.len() - i,
                    {
                        let o = pair_object(&e[i].0, &e[i].1);
                        let ghost before = heap.heap();
                        let ghost oo = o;
                        let nid = heap.allocate(o);
                        proof {
                            assert(heap.heap() =~= before.insert(nid, oo));
                            assert(nid == first + i);
                        }
                        items.push(IshValue::Reference(nid));
                        i += 1;
                        proof {
                            assert forall|j: int| 0 <= j < i implies #[trigger] items@[j]
                                == IshValue::Reference((first + j) as usize) by {
                                if j < i - 1 {
                                    assert(items@[j] == items@.drop_last()[j]);
                                }
                            }
                            assert forall|id: usize|
                                first <= id < first + i implies heap.heap().contains_key(id)
                                && is_pair(#[trigger] heap.heap()[id], e@[id - first].0@, e@[id - first].1) by {
                                if id != nid {
                                    assert(before.contains_key(id) && is_pair(before[id], e@[id - first].0@, e@[id - first].1));
                                }
                            }
                            assert forall|id: usize| #[trigger]
                                h0.contains_key(id) implies heap.heap().contains_key(id)
                                && heap.heap()[id] == h0[id] by {
                                assert(before.contains_key(id));
                            }
                            assert forall|id: usize| #[trigger]
                                heap.heap().contains_key(id) implies h0.contains_key(id) || (first
                                <= id < first + i) by {
                                if id != nid {
                                    assert(before.contains_key(id));
                                }
                            }
                        }
                    }
                    items
                },
            }
        },
        IshValue::String(s) => {
            let cs = chars_of(s.as_str());
            let mut items: Vec<IshValue> = Vec::new();
            let mut i: usize = 0;
            proof {
                assert(cs@.take(0) =~= Seq::<char>::empty());
                assert(items@ =~= char_values(cs@.take(0)));
            }
            while i < cs.len()
                invariant
                    i <= cs@.len(),
                    cs@ == s@,
                    items@ == char_values(cs@.take(i as int)),
                decreases cs.len() - i,
            {
                items.push(IshValue::Char(cs[i]));
                i += 1;
                proof {
                    assert(cs@.take(i as int).drop_last() =~= cs@.take(i - 1));
                }
            }
            proof {
                assert(cs@.take(cs@.len() as int) =~= cs@);
            }
            items
        },
        _ => {
            let mut r: Vec<IshValue> = Vec::new();
            r.push(clone_value(iterable));
            proof {
                assert(r@ =~= seq![*iterable]);
            }
            r
        },
    }
}

/// The destructor that runs for a swept instance of `class_name`, and the class it runs in:
/// those of the class so named, else of the struct so named; with neither, no destructor and
/// the name itself.
pub open spec fn finalizer_of(rv: RegistryView, class_name: Seq<char>) -> (Seq<char>, Option<Seq<Tree>>) {
    let ci = resolve_index(class_keys(rv.classes), class_name);
    let si = resolve_index(struct_keys(rv.structs), class_name);
    if ci >= 0 {
        (rv.classes[ci].qualified_name, rv.classes[ci].destructor)
    } else if si >= 0 {
        (rv.structs[si].qualified_name, rv.structs[si].destructor)
    } else {
        (class_name, None)
    }
}

/// The class to run in and the destructor body to run for a swept instance of `class_name`.
pub fn finalizer(registry: &Registry, class_name: &str) -> (r: (String, Option<Vec<AstNode>>))
    ensures
        r.0@ == finalizer_of(registry@, class_name@).0,
        opt_trees(r.1) == finalizer_of(registry@, class_name@).1,
{
    match registry.resolve_class(class_name) {
        Some(cd) => {
            let d = clone_opt_nodes(&cd.destructor);
            (cd.qualified_name.clone(), d)
        },
        None => match registry.resolve_struct(class_name) {
            Some(sd) => {
                let d = clone_opt_nodes(&sd.destructor);
                (sd.qualified_name.clone(), d)
            },
            None => (lit(class_name), None),
        },
    }
}

} // verus!
