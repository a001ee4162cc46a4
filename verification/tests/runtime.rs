use ish::runtime::gobbler::{Gobbler, HeapObject};
use ish::runtime::value::IshValue;

fn object(class: &str, props: Vec<(String, IshValue)>) -> HeapObject {
    HeapObject::Object { class_name: class.to_string(), properties: props }
}

#[test]
fn new_collector_is_empty() {
    let g = Gobbler::new();
    assert!(g.young_heap.is_empty());
    assert!(g.old_heap.is_empty());
    assert_eq!(g.next_id, 1);
    assert_eq!(g.minor_threshold, 1000);
    assert_eq!(g.major_threshold, 10000);
}

#[test]
fn allocate_gives_fresh_ids_and_get_finds_objects() {
    let mut g = Gobbler::new();
    let a = g.allocate(HeapObject::Array(vec![IshValue::Int(1)]));
    let b = g.allocate(HeapObject::List(vec![]));
    assert_eq!(a, 1);
    assert_eq!(b, 2);
    assert_eq!(g.get(a), Some(&HeapObject::Array(vec![IshValue::Int(1)])));
    assert_eq!(g.object_ages.get(&a), Some(&0));
    assert_eq!(g.allocations_since_minor, 2);
    assert_eq!(g.get(99), None);
}

#[test]
fn free_forgets_an_object() {
    let mut g = Gobbler::new();
    let a = g.allocate(HeapObject::List(vec![]));
    g.free(a);
    assert_eq!(g.get(a), None);
    assert!(g.object_ages.get(&a).is_none());
}

#[test]
fn collect_sweeps_unreachable_and_reports_instances() {
    let mut g = Gobbler::new();
    let kept = g.allocate(object("Keep", vec![]));
    let dropped = g.allocate(object("Drop", vec![("x".to_string(), IshValue::Int(3))]));
    let scope = vec![("k".to_string(), IshValue::Reference(kept))];
    let finalized = g.collect(&[scope], &vec![], None);
    assert_eq!(finalized, vec![(dropped, "Drop".to_string(), vec![("x".to_string(), IshValue::Int(3))])]);
    assert!(g.get(kept).is_some());
    assert!(g.get(dropped).is_none());
    assert_eq!(g.object_ages.get(&kept), Some(&1));
    assert_eq!(g.allocations_since_minor, 0);
}

#[test]
fn collect_follows_references_between_objects() {
    let mut g = Gobbler::new();
    let leaf = g.allocate(HeapObject::Array(vec![IshValue::Int(7)]));
    let mid = g.allocate(HeapObject::Dict(vec![("leaf".to_string(), IshValue::Reference(leaf))]));
    let top = g.allocate(HeapObject::List(vec![IshValue::Reference(mid)]));
    let unused = g.allocate(HeapObject::List(vec![IshValue::Reference(leaf)]));
    let finalized = g.collect(&[], &vec![], Some(&IshValue::Reference(top)));
    assert!(finalized.is_empty());
    assert!(g.get(leaf).is_some());
    assert!(g.get(mid).is_some());
    assert!(g.get(top).is_some());
    assert!(g.get(unused).is_none());
}

#[test]
fn survivors_move_to_the_old_heap_after_three_collections() {
    let mut g = Gobbler::new();
    let a = g.allocate(HeapObject::List(vec![]));
    let statics = vec![("s".to_string(), IshValue::Reference(a))];
    g.collect(&[], &statics, None);
    g.collect(&[], &statics, None);
    assert!(g.young_heap.contains_key(&a));
    g.collect(&[], &statics, None);
    assert!(!g.young_heap.contains_key(&a));
    assert!(g.old_heap.contains_key(&a));
    assert_eq!(g.object_ages.get(&a), Some(&3));
}

#[test]
fn minor_collection_keeps_old_objects_and_major_sweeps_them() {
    let mut g = Gobbler::new();
    let a = g.allocate(object("Old", vec![]));
    let statics = vec![("s".to_string(), IshValue::Reference(a))];
    for _ in 0..3 {
        g.collect(&[], &statics, None);
    }
    assert!(g.old_heap.contains_key(&a));
    let finalized = g.collect(&[], &vec![], None);
    assert!(finalized.is_empty());
    assert!(g.old_heap.contains_key(&a));
    g.major_threshold = 0;
    let finalized = g.collect(&[], &vec![], None);
    assert_eq!(finalized, vec![(a, "Old".to_string(), vec![])]);
    assert!(g.get(a).is_none());
}

#[test]
fn written_old_objects_are_remembered_as_roots() {
    let mut g = Gobbler::new();
    let old = g.allocate(HeapObject::List(vec![]));
    let statics = vec![("s".to_string(), IshValue::Reference(old))];
    for _ in 0..3 {
        g.collect(&[], &statics, None);
    }
    let young = g.allocate(HeapObject::List(vec![]));
    assert!(g.set_object(old, HeapObject::List(vec![IshValue::Reference(young)])));
    assert!(g.remembered_set.contains(&old));
    g.collect(&[], &vec![], None);
    assert!(g.get(young).is_some());
    assert!(!g.set_object(12345, HeapObject::List(vec![])));
}
