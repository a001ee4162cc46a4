use vstd::prelude::*;
use crate::error::IshError;
use crate::lang::config::{find_char, find_char_exec};
use crate::lang::registry::{
    class_keys, field_keys, field_named, last_index, resolve_index, struct_keys, FieldDef,
    FieldView, Registry, RegistryView,
};
use crate::runtime::gobbler::{Gobbler, HeapObject};
use crate::runtime::lookup::{
    access_message, access_ok, check_field, field_denied, has_path, path_name, static_key,
};
use crate::runtime::scope::{
    clone_value, entry_get, entry_value, holder, lemma_put_entry, put, put_entry, scan_this,
    set_entry, lemma_holder, Scopes,
};
use crate::runtime::value::{distinct_names, Entries, IshValue};
use crate::text::{chars_of, concat, lit, string_from, sub_chars};

verus! {

/// `after` is `entries` with `name` bound to `v`.
pub open spec fn put_named(
    entries: Seq<(String, IshValue)>,
    name: Seq<char>,
    v: IshValue,
    after: Seq<(String, IshValue)>,
) -> bool {
    exists|k: String| k@ == name && after == #[trigger] put_entry(entries, k, v)
}

/// Where an assignment writes.
pub enum Write {
    /// The binding of the variable in this scope.
    ToScope(int),
    /// The static variable under this key.
    ToStatic(Seq<char>),
    /// The entry, or property, under this key of this map or object.
    ToObject(usize, Seq<char>),
    /// The element at this position of this list.
    ToList(usize, int),
    /// Nowhere: the assignment fails with this message.
    Fails(Seq<char>),
    /// Nowhere, and the assignment succeeds.
    Skip,
    /// A property assignment that is done as a plain one.
    Plain,
}

/// Object `after` is `before`, a map or an object, with `key` bound to `v`.
pub open spec fn object_put(before: HeapObject, key: Seq<char>, v: IshValue, after: HeapObject) -> bool {
    match before {
        HeapObject::Dict(e) => after matches HeapObject::Dict(n) && put_named(e@, key, v, n@),
        HeapObject::Object { class_name, properties } => after matches HeapObject::Object {
            class_name: c2,
            properties: p2,
        } && c2 == class_name && put_named(properties@, key, v, p2@),
        _ => false,
    }
}

/// The scopes, static variables and heap after writing `v` as `w` says (`name` being the
/// variable assigned), and the result.
pub open spec fn written(
    w: Write,
    vars: Seq<Seq<(String, IshValue)>>,
    vars2: Seq<Seq<(String, IshValue)>>,
    statics: Seq<(String, IshValue)>,
    statics2: Seq<(String, IshValue)>,
    heap: Map<usize, HeapObject>,
    heap2: Map<usize, HeapObject>,
    name: Seq<char>,
    v: IshValue,
    res: Result<(), IshError>,
) -> bool {
    match w {
        Write::ToScope(h) => res is Ok && vars2 == vars.update(h, set_entry(vars[h], name, v))
            && statics2 == statics && heap2 == heap,
        Write::ToStatic(key) => res is Ok && vars2 == vars && put_named(statics, key, v, statics2)
            && heap2 == heap,
        Write::ToObject(id, key) => res is Ok && vars2 == vars && statics2 == statics
            && heap.contains_key(id) && heap2 == heap.insert(id, heap2[id]) && object_put(
            heap[id],
            key,
            v,
            heap2[id],
        ),
        Write::ToList(id, i) => res is Ok && vars2 == vars && statics2 == statics
            && heap.contains_key(id) && heap2 == heap.insert(id, heap2[id]) && (heap[id] matches HeapObject::List(o)
            && heap2[id] matches HeapObject::List(n) && n@ == o@.update(i, v)),
        Write::Fails(m) => (res matches Err(IshError::ExecutionError(x)) && x@ == m) && vars2
            == vars && statics2 == statics && heap2 == heap,
        Write::Skip => res is Ok && vars2 == vars && statics2 == statics && heap2 == heap,
        Write::Plain => res is Ok && vars2 == vars && statics2 == statics && heap2 == heap,
    }
}

/// Where `variable[index] = v` writes: into the list or map that the variable (in the
/// innermost scope binding it) refers to, a map under `key`, the index written out.
pub open spec fn index_write(
    vars: Seq<Seq<(String, IshValue)>>,
    heap: Map<usize, HeapObject>,
    variable: Seq<char>,
    index: IshValue,
    key: Seq<char>,
) -> Write {
    let h = holder(vars, vars.len() as int, variable);
    if h < 0 {
        Write::Fails("Variable "@ + variable + " not found"@)
    } else {
        match entry_value(vars[h], variable) {
            Some(IshValue::Reference(id)) => if !heap.contains_key(id) {
                Write::Skip
            } else {
                match heap[id] {
                    HeapObject::Array(_) => Write::Fails(
                        "Array is immutable. Use List for mutable ordered collections."@,
                    ),
                    HeapObject::List(items) => match index {
                        IshValue::Int(i) => if 0 <= i < items@.len() {
                            Write::ToList(id, i as int)
                        } else {
                            Write::Fails("Index out of bounds"@)
                        },
                        _ => Write::Fails("List index must be an integer"@),
                    },
                    HeapObject::Dict(_) => Write::ToObject(id, key),
                    HeapObject::Object { .. } => Write::Fails("Variable is not indexable"@),
                }
            },
            _ => Write::Fails("Variable is not indexable"@),
        }
    }
}

/// What comes before the first `.` of a name.
pub open spec fn head_part(v: Seq<char>) -> Seq<char> {
    v.subrange(0, find_char(v, '.', 0))
}

/// What comes between the first `.` of a name and the next one, or the end.
pub open spec fn second_part(v: Seq<char>) -> Seq<char> {
    let d = find_char(v, '.', 0);
    let e = find_char(v, '.', d + 1);
    v.subrange(
        d + 1,
        if e < 0 {
            v.len() as int
        } else {
            e
        },
    )
}

/// Where `object.property = v` writes: a property of the map or object that the variable
/// `object` refers to (in the innermost scope binding it; where no such object is on the
/// heap, the assignment is done as a plain one), else a static field, open to the caller, of
/// the class named `object`.
pub open spec fn property_write(
    rv: RegistryView,
    vars: Seq<Seq<(String, IshValue)>>,
    heap: Map<usize, HeapObject>,
    current: Option<Seq<char>>,
    variable: Seq<char>,
) -> Write {
    let obj = head_part(variable);
    let prop = second_part(variable);
    let h = holder(vars, vars.len() as int, obj);
    let target = if h >= 0 {
        match entry_value(vars[h], obj) {
            Some(IshValue::Reference(id)) => Some(id),
            _ => None,
        }
    } else {
        None
    };
    match target {
        Some(id) => if !heap.contains_key(id) {
            Write::Plain
        } else {
            match heap[id] {
                HeapObject::Dict(_) => Write::ToObject(id, prop),
                HeapObject::Object { class_name, .. } => {
                    let ci = resolve_index(class_keys(rv.classes), class_name@);
                    let si = resolve_index(struct_keys(rv.structs), class_name@);
                    let denied = if ci >= 0 {
                        field_denied(rv.classes[ci].fields, rv.classes[ci].qualified_name, current, prop)
                    } else if si >= 0 {
                        field_denied(rv.structs[si].fields, rv.structs[si].qualified_name, current, prop)
                    } else {
                        None
                    };
                    match denied {
                        Some(m) => Write::Fails(m),
                        None => Write::ToObject(id, prop),
                    }
                },
                _ => Write::Fails("Cannot assign property on non-object '"@ + obj + "'"@),
            }
        },
        None => {
            let ci = resolve_index(class_keys(rv.classes), obj);
            let fi = if ci >= 0 {
                last_index(field_keys(rv.classes[ci].fields), prop)
            } else {
                -1
            };
            if ci >= 0 && fi >= 0 {
                let f = rv.classes[ci].fields[fi];
                let qn = rv.classes[ci].qualified_name;
                if f.is_static {
                    if !access_ok(f.access, current, qn) {
                        Write::Fails(access_message(f.access, qn))
                    } else {
                        Write::ToStatic(static_key(qn, prop))
                    }
                } else {
                    Write::Fails("Cannot access instance field '"@ + prop + "' of '"@ + obj
                        + "' statically"@)
                }
            } else {
                Write::Fails("Object or class '"@ + obj + "' not found"@)
            }
        },
    }
}

/// The fields of the class (else struct) that code is running in.
pub open spec fn current_fields(rv: RegistryView, c: Seq<char>) -> Option<Seq<FieldView>> {
    let ci = resolve_index(class_keys(rv.classes), c);
    let si = resolve_index(struct_keys(rv.structs), c);
    if ci >= 0 {
        Some(rv.classes[ci].fields)
    } else if si >= 0 {
        Some(rv.structs[si].fields)
    } else {
        None
    }
}

/// A plain assignment to a field of the class or struct that code is running in.
pub open spec fn member_write(
    rv: RegistryView,
    vars: Seq<Seq<(String, IshValue)>>,
    heap: Map<usize, HeapObject>,
    current: Option<Seq<char>>,
    variable: Seq<char>,
) -> Option<Write> {
    match current {
        None => None,
        Some(c) => match current_fields(rv, c) {
            None => None,
            Some(fs) => {
                let fi = last_index(field_keys(fs), variable);
                if fi < 0 {
                    None
                } else if fs[fi].is_static {
                    Some(Write::ToStatic(static_key(c, variable)))
                } else {
                    match scan_this(vars, vars.len() as int, 0) {
                        Some(id) => if heap.contains_key(id) && heap[id] is Object {
                            Some(Write::ToObject(id, variable))
                        } else {
                            None
                        },
                        None => None,
                    }
                }
            },
        },
    }
}

/// Where `variable = v` writes: the innermost scope binding the variable, whether in sight or
/// not; else a field of the class or struct that code is running in; else a static variable
/// named by its full path; else the assignment fails.
pub open spec fn plain_write(
    rv: RegistryView,
    vars: Seq<Seq<(String, IshValue)>>,
    statics: Seq<(String, IshValue)>,
    heap: Map<usize, HeapObject>,
    current: Option<Seq<char>>,
    variable: Seq<char>,
) -> Write {
    let h = holder(vars, vars.len() as int, variable);
    if h >= 0 {
        Write::ToScope(h)
    } else {
        match member_write(rv, vars, heap, current, variable) {
            Some(w) => w,
            None => if has_path(variable) && entry_value(statics, variable) is Some {
                Write::ToStatic(variable)
            } else {
                Write::Fails("Variable '"@ + variable + "' is not declared. Use 'declare "@
                    + variable + " = ...' to declare it."@)
            },
        }
    }
}

/// Where an assignment to a variable that is not a declaration writes.
pub open spec fn assign_write(
    rv: RegistryView,
    vars: Seq<Seq<(String, IshValue)>>,
    statics: Seq<(String, IshValue)>,
    heap: Map<usize, HeapObject>,
    current: Option<Seq<char>>,
    variable: Seq<char>,
) -> Write {
    if find_char(variable, '.', 0) >= 0 {
        match property_write(rv, vars, heap, current, variable) {
            Write::Plain => plain_write(rv, vars, statics, heap, current, variable),
            w => w,
        }
    } else {
        plain_write(rv, vars, statics, heap, current, variable)
    }
}

pub(crate) fn clone_values(v: &Vec<IshValue>) -> (r: Vec<IshValue>)
    ensures
        r@ == v@,
{
    let mut r: Vec<IshValue> = Vec::new();
    let mut i: usize = 0;
    while i < v.len()
        invariant
            i <= v@.len(),
            r@ == v@.take(i as int),
        decreases v.len() - i,
    {
        r.push(clone_value(&v[i]));
        i += 1;
        proof {
            assert(r@ =~= v@.take(i as int));
        }
    }
    proof {
        assert(v@.take(v@.len() as int) =~= v@);
    }
    r
}

pub(crate) fn clone_entries(e: &Entries) -> (r: Entries)
    ensures
        r@ == e@,
{
    let mut r: Entries = Vec::new();
    let mut i: usize = 0;
    while i < e.len()
        invariant
            i <= e@.len(),
            r@ == e@.take(i as int),
        decreases e.len() - i,
    {
        r.push((e[i].0.clone(), clone_value(&e[i].1)));
        i += 1;
        proof {
            assert(r@ =~= e@.take(i as int));
        }
    }
    proof {
        assert(e@.take(e@.len() as int) =~= e@);
    }
    r
}

/// Binds `key` to `v` in the map or object `id`.
fn put_on_object(heap: &mut Gobbler, id: usize, key: String, v: IshValue)
    requires
        old(heap).wf(),
        old(heap).heap().contains_key(id),
        old(heap).heap()[id] is Dict || old(heap).heap()[id] is Object,
    ensures
        final(heap).wf(),
        final(heap).heap() == old(heap).heap().insert(id, final(heap).heap()[id]),
        object_put(old(heap).heap()[id], key@, v, final(heap).heap()[id]),
{
    let ghost k = key;
    let obj = match heap.get(id) {
        Some(HeapObject::Dict(e)) => {
            proof {
                assert(old(heap).heap()[id].wf());
                lemma_put_entry(e@, key, v);
            }
            let mut n = clone_entries(e);
            put(&mut n, key, v);
            HeapObject::Dict(n)
        },
        Some(HeapObject::Object { class_name, properties }) => {
            proof {
                assert(old(heap).heap()[id].wf());
                lemma_put_entry(properties@, key, v);
            }
            let mut n = clone_entries(properties);
            put(&mut n, key, v);
            HeapObject::Object { class_name: class_name.clone(), properties: n }
        },
        _ => {
            proof {
                assert(false);
            }
            HeapObject::Array(Vec::new())
        },
    };
    let ghost o = obj;
    heap.set_object(id, obj);
    proof {
        assert(final(heap).heap()[id] == o);
        match old(heap).heap()[id] {
            HeapObject::Dict(e) => {
                assert(o matches HeapObject::Dict(n) && n@ == put_entry(e@, k, v));
            },
            HeapObject::Object { properties, .. } => {
                assert(o matches HeapObject::Object { properties: n, .. } && n@ == put_entry(properties@, k, v));
            },
            _ => {},
        }
    }
}

/// Writes `v` as element `i` of the list `id`.
fn put_in_list(heap: &mut Gobbler, id: usize, i: usize, v: IshValue)
    requires
        old(heap).wf(),
        old(heap).heap().contains_key(id),
        old(heap).heap()[id] matches HeapObject::List(items) && i < items@.len(),
    ensures
        final(heap).wf(),
        final(heap).heap() == old(heap).heap().insert(id, final(heap).heap()[id]),
        old(heap).heap()[id] matches HeapObject::List(o) && final(heap).heap()[id] matches HeapObject::List(n)
            && n@ == o@.update(i as int, v),
{
    let obj = match heap.get(id) {
        Some(HeapObject::List(items)) => {
            let mut n = clone_values(items);
            n.set(i, v);
            HeapObject::List(n)
        },
        _ => {
            proof {
                assert(false);
            }
            HeapObject::Array(Vec::new())
        },
    };
    let ghost o = obj;
    heap.set_object(id, obj);
    proof {
        assert(final(heap).heap()[id] == o);
    }
}

fn fail_with(m: String) -> (r: Result<(), IshError>)
    ensures
        r matches Err(IshError::ExecutionError(x)) && x@ == m@,
{
    Err(IshError::ExecutionError(m))
}

/// `variable[index] = v`: writes `v` into the list, or the map (under `key`, the index written
/// out), that the variable refers to in the innermost scope binding it.
pub fn assign_index(
    scopes: &Scopes,
    heap: &mut Gobbler,
    variable: &str,
    index: &IshValue,
    key: String,
    v: IshValue,
) -> (res: Result<(), IshError>)
    requires
        old(heap).wf(),
    ensures
        final(heap).wf(),
        written(
            index_write(scopes.vars(), old(heap).heap(), variable@, *index, key@),
            scopes.vars(),
            scopes.vars(),
            Seq::empty(),
            Seq::empty(),
            old(heap).heap(),
            final(heap).heap(),
            variable@,
            v,
            res,
        ),
{
    proof {
        lemma_holder(scopes.vars(), scopes.vars().len() as int, variable@);
    }
    match scopes.innermost(variable) {
        None => {
            let m = concat(concat(lit("Variable "), variable), " not found");
            fail_with(m)
        },
        Some(IshValue::Reference(id)) => {
            let kind: u8 = match heap.get(id) {
                None => 0,
                Some(HeapObject::Array(_)) => 1,
                Some(HeapObject::List(items)) => match index {
                    IshValue::Int(i) => if *i >= 0 && (*i as usize) < items.len() {
                        2
                    } else {
                        3
                    },
                    _ => 4,
                },
                Some(HeapObject::Dict(_)) => 5,
                Some(HeapObject::Object { .. }) => 6,
            };
            if kind == 0 {
                Ok(())
            } else if kind == 1 {
                fail_with(lit("Array is immutable. Use List for mutable ordered collections."))
            } else if kind == 2 {
                let i: usize = match index {
                    IshValue::Int(i) => *i as usize,
                    _ => 0,
                };
                put_in_list(heap, id, i, v);
                Ok(())
            } else if kind == 3 {
                fail_with(lit("Index out of bounds"))
            } else if kind == 4 {
                fail_with(lit("List index must be an integer"))
            } else if kind == 5 {
                put_on_object(heap, id, key, v);
                Ok(())
            } else {
                fail_with(lit("Variable is not indexable"))
            }
        },
        Some(_) => fail_with(lit("Variable is not indexable")),
    }
}

fn put_static(statics: &mut Entries, key: String, v: IshValue)
    requires
        distinct_names(old(statics)@),
    ensures
        distinct_names(final(statics)@),
        put_named(old(statics)@, key@, v, final(statics)@),
{
    proof {
        lemma_put_entry(statics@, key, v);
    }
    let ghost k = key;
    put(statics, key, v);
    proof {
        assert(statics@ == put_entry(old(statics)@, k, v));
    }
}

/// `object.property = v`; nothing where it is done as a plain assignment.
fn assign_property(
    registry: &Registry,
    scopes: &Scopes,
    statics: &mut Entries,
    heap: &mut Gobbler,
    current_class: Option<&str>,
    vc: &Vec<char>,
    d: usize,
    v: &IshValue,
) -> (res: Option<Result<(), IshError>>)
    requires
        old(heap).wf(),
        distinct_names(old(statics)@),
        d == find_char(vc@, '.', 0),
        d < vc.len(),
    ensures
        final(heap).wf(),
        distinct_names(final(statics)@),
        res is None <==> property_write(
            registry@,
            scopes.vars(),
            old(heap).heap(),
            match current_class {
                Some(c) => Some(c@),
                None => None,
            },
            vc@,
        ) is Plain,
        res is None ==> *final(heap) == *old(heap) && final(statics)@ == old(statics)@,
        res matches Some(x) ==> written(
            property_write(
                registry@,
                scopes.vars(),
                old(heap).heap(),
                match current_class {
                    Some(c) => Some(c@),
                    None => None,
                },
                vc@,
            ),
            scopes.vars(),
            scopes.vars(),
            old(statics)@,
            final(statics)@,
            old(heap).heap(),
            final(heap).heap(),
            vc@,
            *v,
            x,
        ),
{
    let objc = sub_chars(vc, 0, d);
    let end = match find_char_exec(vc, '.', d + 1) {
        Some(e) => e,
        None => vc.len(),
    };
    let propc = sub_chars(vc, d + 1, end);
    let obj = string_from(&objc);
    let prop = string_from(&propc);
    proof {
        assert(obj@ == head_part(vc@));
        assert(prop@ == second_part(vc@));
    }
    proof {
        lemma_holder(scopes.vars(), scopes.vars().len() as int, obj@);
    }
    let target = match scopes.innermost(obj.as_str()) {
        Some(IshValue::Reference(id)) => Some(id),
        _ => None,
    };
    match target {
        Some(id) => {
            let kind: u8 = match heap.get(id) {
                None => 0,
                Some(HeapObject::Dict(_)) => 1,
                Some(HeapObject::Object { class_name, .. }) => {
                    let checked = match registry.resolve_class(class_name.as_str()) {
                        Some(cd) => check_field(&cd.fields, &cd.qualified_name, current_class, prop.as_str()),
                        None => match registry.resolve_struct(class_name.as_str()) {
                            Some(sd) => check_field(
                                &sd.fields,
                                &sd.qualified_name,
                                current_class,
                                prop.as_str(),
                            ),
                            None => Ok(()),
                        },
                    };
                    match checked {
                        Ok(()) => 1,
                        Err(e) => {
                            return Some(Err(e));
                        },
                    }
                },
                Some(_) => 2,
            };
            if kind == 0 {
                None
            } else if kind == 1 {
                put_on_object(heap, id, prop, clone_value(v));
                Some(Ok(()))
            } else {
                let m = concat(concat(lit("Cannot assign property on non-object '"), obj.as_str()), "'");
                Some(fail_with(m))
            }
        },
        None => {
            match registry.resolve_class(obj.as_str()) {
                Some(cd) => match field_named(&cd.fields, prop.as_str()) {
                    Some(f) => {
                        if f.is_static {
                            match Registry::check_access(&f.access, current_class, cd.qualified_name.as_str()) {
                                Err(e) => {
                                    return Some(Err(e));
                                },
                                Ok(()) => {},
                            }
                            let key = concat(concat(cd.qualified_name.clone(), "::"), prop.as_str());
                            put_static(statics, key, clone_value(v));
                            return Some(Ok(()));
                        } else {
                            let m = concat(
                                concat(
                                    concat(concat(lit("Cannot access instance field '"), prop.as_str()), "' of '"),
                                    obj.as_str(),
                                ),
                                "' statically",
                            );
                            return Some(fail_with(m));
                        }
                    },
                    None => {},
                },
                None => {},
            }
            let m = concat(concat(lit("Object or class '"), obj.as_str()), "' not found");
            Some(fail_with(m))
        },
    }
}

/// `variable = v`, where it is no declaration: `object.property = v` writes a property of the
/// map or object that `object` refers to, or a static field of the class so named (see
/// `property_write`); a plain name is written in the innermost scope binding it, else as a field
/// of the class or struct that code is running in, else as a static variable named by its full
/// path (see `plain_write`).
pub fn assign_variable(
    registry: &Registry,
    scopes: &mut Scopes,
    statics: &mut Entries,
    heap: &mut Gobbler,
    current_class: Option<&str>,
    variable: &str,
    v: IshValue,
) -> (res: Result<(), IshError>)
    requires
        old(scopes).wf(),
        distinct_names(old(statics)@),
        old(heap).wf(),
    ensures
        final(scopes).wf(),
        distinct_names(final(statics)@),
        final(heap).wf(),
        final(scopes).bases == old(scopes).bases,
        written(
            assign_write(
                registry@,
                old(scopes).vars(),
                old(statics)@,
                old(heap).heap(),
                match current_class {
                    Some(c) => Some(c@),
                    None => None,
                },
                variable@,
            ),
            old(scopes).vars(),
            final(scopes).vars(),
            old(statics)@,
            final(statics)@,
            old(heap).heap(),
            final(heap).heap(),
            variable@,
            v,
            res,
        ),
{
    let vc = chars_of(variable);
    match find_char_exec(&vc, '.', 0) {
        Some(d) => {
            match assign_property(registry, scopes, statics, heap, current_class, &vc, d, &v) {
                Some(r) => {
                    return r;
                },
                None => {},
            }
        },
        None => {},
    }
    if scopes.assign(variable, clone_value(&v)) {
        return Ok(());
    }
    match current_class {
        Some(c) => {
            let fields: Option<&Vec<FieldDef>> = match registry.resolve_class(c) {
                Some(cd) => Some(&cd.fields),
                None => match registry.resolve_struct(c) {
                    Some(sd) => Some(&sd.fields),
                    None => None,
                },
            };
            match fields {
                Some(fs) => match field_named(fs, variable) {
                    Some(f) => {
                        if f.is_static {
                            let key = concat(concat(lit(c), "::"), variable);
                            put_static(statics, key, v);
                            return Ok(());
                        }
                        match scopes.this_anywhere() {
                            Some(id) => {
                                let is_object = match heap.get(id) {
                                    Some(HeapObject::Object { .. }) => true,
                                    _ => false,
                                };
                                if is_object {
                                    put_on_object(heap, id, lit(variable), v);
                                    return Ok(());
                                }
                            },
                            None => {},
                        }
                    },
                    None => {},
                },
                None => {},
            }
        },
        None => {},
    }
    if path_name(&vc) && entry_get(statics, variable).is_some() {
        put_static(statics, lit(variable), v);
        return Ok(());
    }
    let m = concat(
        concat(concat(concat(lit("Variable '"), variable), "' is not declared. Use 'declare "), variable),
        " = ...' to declare it.",
    );
    fail_with(m)
}

} // verus!
