use vstd::prelude::*;
use crate::error::IshError;
use crate::lang::ast::AccessSpecifier;
use crate::lang::registry::{
    class_keys, enum_keys, field_keys, field_named, fields_view, last_index, resolve_index,
    struct_keys, FieldDef, FieldView, Registry, RegistryView,
};
use crate::runtime::gobbler::{Gobbler, HeapObject};
use crate::runtime::ops::{show, shown};
use crate::runtime::scope::{entry_get, entry_value, visible, visible_this, Scopes};
use crate::runtime::value::{Entries, IshValue};
use crate::text::{chars_eq_str, chars_of, concat, lit, string_eq_str};

verus! {

/// A value, or `null` where there is none.
pub open spec fn or_null(v: Option<IshValue>) -> IshValue {
    match v {
        Some(x) => x,
        None => IshValue::Null,
    }
}

/// Names that stand for a type of the runtime library.
pub open spec fn builtin_type(name: Seq<char>) -> bool {
    name == "string"@ || name == "char"@ || name == "List"@ || name == "Math"@ || name == "Time"@
        || name == "Str"@ || name == "FS"@ || name == "Net"@ || name == "OS"@ || name == "ExtProc"@
        || name == "CommandLine"@
}

/// A class or struct (by qualified name) or an enum (by name) is registered under this name.
pub open spec fn declares_name(rv: RegistryView, name: Seq<char>) -> bool {
    last_index(class_keys(rv.classes), name) >= 0 || last_index(struct_keys(rv.structs), name) >= 0
        || last_index(enum_keys(rv.enums), name) >= 0
}

/// `::` stands at position `i` of the name.
pub open spec fn path_sep_at(name: Seq<char>, i: int) -> bool {
    name[i] == ':' && name[i + 1] == ':'
}

/// The name holds `::`.
pub open spec fn has_path(name: Seq<char>) -> bool {
    exists|i: int| 0 <= i < name.len() - 1 && #[trigger] path_sep_at(name, i)
}

/// The key under which a static field is kept.
pub open spec fn static_key(qualified: Seq<char>, field: Seq<char>) -> Seq<char> {
    qualified + "::"@ + field
}

/// The value of field `name` of the class or struct with qualified name `qn` and fields
/// `fields`, as code of that class reads it unqualified: a static field from the static
/// variables, an instance field from the object `this` names. Nothing where it has no such
/// field, or where an instance field is read with no object in sight.
pub open spec fn member_of(
    fields: Seq<FieldView>,
    qn: Seq<char>,
    vars: Seq<Seq<(String, IshValue)>>,
    base: int,
    statics: Seq<(String, IshValue)>,
    heap: Map<usize, HeapObject>,
    name: Seq<char>,
) -> Option<IshValue> {
    let fi = last_index(field_keys(fields), name);
    if fi < 0 {
        None
    } else if fields[fi].is_static {
        Some(or_null(entry_value(statics, static_key(qn, name))))
    } else {
        match visible_this(vars, base) {
            Some(id) => if heap.contains_key(id) {
                match heap[id] {
                    HeapObject::Object { properties, .. } => Some(
                        or_null(entry_value(properties@, name)),
                    ),
                    _ => None,
                }
            } else {
                None
            },
            None => None,
        }
    }
}

/// A field of the current class (else struct) read unqualified.
pub open spec fn current_member(
    rv: RegistryView,
    current: Option<Seq<char>>,
    vars: Seq<Seq<(String, IshValue)>>,
    base: int,
    statics: Seq<(String, IshValue)>,
    heap: Map<usize, HeapObject>,
    name: Seq<char>,
) -> Option<IshValue> {
    match current {
        None => None,
        Some(c) => {
            let ci = resolve_index(class_keys(rv.classes), c);
            let from_class = if ci >= 0 {
                member_of(
                    rv.classes[ci].fields,
                    rv.classes[ci].qualified_name,
                    vars,
                    base,
                    statics,
                    heap,
                    name,
                )
            } else {
                None
            };
            match from_class {
                Some(v) => Some(v),
                None => {
                    let si = resolve_index(struct_keys(rv.structs), c);
                    if si >= 0 {
                        member_of(
                            rv.structs[si].fields,
                            rv.structs[si].qualified_name,
                            vars,
                            base,
                            statics,
                            heap,
                            name,
                        )
                    } else {
                        None
                    }
                },
            }
        },
    }
}

/// What reading a variable gives: the implicit marker itself; a type reference for a declared
/// type or a type of the runtime library; the value in sight; a field of the current class or
/// struct; a static variable named by its full path; else an error.
pub open spec fn variable_meets(
    rv: RegistryView,
    vars: Seq<Seq<(String, IshValue)>>,
    base: int,
    statics: Seq<(String, IshValue)>,
    heap: Map<usize, HeapObject>,
    current: Option<Seq<char>>,
    name: Seq<char>,
    res: Result<IshValue, IshError>,
) -> bool {
    if name == "___implicit___"@ {
        res matches Ok(IshValue::String(s)) && s@ == name
    } else if declares_name(rv, name) || builtin_type(name) {
        res matches Ok(IshValue::TypeRef(t)) && t@ == name
    } else {
        match visible(vars, base, name) {
            Some(v) => res == Ok::<IshValue, IshError>(v),
            None => match current_member(rv, current, vars, base, statics, heap, name) {
                Some(v) => res == Ok::<IshValue, IshError>(v),
                None => if has_path(name) && entry_value(statics, name) is Some {
                    res == Ok::<IshValue, IshError>(entry_value(statics, name).unwrap())
                } else {
                    res matches Err(IshError::ExecutionError(m)) && m@ == "Variable '"@ + name
                        + "' is not defined in this scope"@
                },
            },
        }
    }
}

/// A member of the access given is open to code of class `caller`.
pub open spec fn access_ok(access: AccessSpecifier, caller: Option<Seq<char>>, target: Seq<char>) -> bool {
    access == AccessSpecifier::Public || access == AccessSpecifier::Internal || (caller matches Some(
        c,
    ) && c == target)
}

/// The message given where a member of class `target` is closed to the caller.
pub open spec fn access_message(access: AccessSpecifier, target: Seq<char>) -> Seq<char> {
    if access == AccessSpecifier::Protected {
        "Cannot access protected member of '"@ + target + "' from outside its class hierarchy."@
    } else {
        "Cannot access private member of '"@ + target + "' from outside its class."@
    }
}

/// What looking a property up finds.
pub enum Found {
    /// The value.
    Value(IshValue),
    /// The empty string.
    Empty,
    /// An error with this message.
    Fails(Seq<char>),
    /// Nothing: the property does not exist on this value.
    Missing,
}

/// Where `x` first occurs in `xs`, from position `from` on, or -1.
pub open spec fn position(xs: Seq<Seq<char>>, x: Seq<char>, from: int) -> int
    decreases xs.len() - from,
{
    if from < 0 || from >= xs.len() {
        -1
    } else if xs[from] == x {
        from
    } else {
        position(xs, x, from + 1)
    }
}

/// A field read through the name `s` of its class or struct: static fields only, and only
/// where open to the caller.
pub open spec fn static_field(
    fields: Seq<FieldView>,
    qn: Seq<char>,
    s: Seq<char>,
    statics: Seq<(String, IshValue)>,
    current: Option<Seq<char>>,
    prop: Seq<char>,
) -> Found {
    let fi = last_index(field_keys(fields), prop);
    if fi < 0 {
        Found::Missing
    } else if fields[fi].is_static {
        if !access_ok(fields[fi].access, current, qn) {
            Found::Fails(access_message(fields[fi].access, qn))
        } else {
            Found::Value(or_null(entry_value(statics, static_key(qn, prop))))
        }
    } else {
        Found::Fails("Cannot access instance field '"@ + prop + "' of '"@ + s + "' statically"@)
    }
}

/// A property read through a name: a variant of the enum so named (its position), else a
/// static field of the class, else of the struct, so named.
pub open spec fn named_property(
    rv: RegistryView,
    statics: Seq<(String, IshValue)>,
    current: Option<Seq<char>>,
    s: Seq<char>,
    prop: Seq<char>,
) -> Found {
    let ei = last_index(enum_keys(rv.enums), s);
    if ei >= 0 {
        let vi = position(rv.enums[ei].variants, prop, 0);
        if vi >= 0 {
            Found::Value(IshValue::Int(vi as i32))
        } else {
            Found::Fails("Enum "@ + s + " does not have variant "@ + prop)
        }
    } else {
        let ci = resolve_index(class_keys(rv.classes), s);
        let from_class = if ci >= 0 {
            static_field(
                rv.classes[ci].fields,
                rv.classes[ci].qualified_name,
                s,
                statics,
                current,
                prop,
            )
        } else {
            Found::Missing
        };
        if !(from_class is Missing) {
            from_class
        } else {
            let si = resolve_index(struct_keys(rv.structs), s);
            if si >= 0 {
                static_field(
                    rv.structs[si].fields,
                    rv.structs[si].qualified_name,
                    s,
                    statics,
                    current,
                    prop,
                )
            } else {
                Found::Missing
            }
        }
    }
}

/// The access check on a field of an object's class or struct: the message where the field
/// exists and is closed to the caller.
pub open spec fn field_denied(
    fields: Seq<FieldView>,
    qn: Seq<char>,
    current: Option<Seq<char>>,
    prop: Seq<char>,
) -> Option<Seq<char>> {
    let fi = last_index(field_keys(fields), prop);
    if fi >= 0 && !access_ok(fields[fi].access, current, qn) {
        Some(access_message(fields[fi].access, qn))
    } else {
        None
    }
}

/// A property of the object `id`: a property of a class or struct instance (checked against
/// its class, else its struct), the length of an array or list, the size or an entry of a map.
pub open spec fn object_property(
    rv: RegistryView,
    heap: Map<usize, HeapObject>,
    current: Option<Seq<char>>,
    id: usize,
    prop: Seq<char>,
) -> Found {
    if !heap.contains_key(id) {
        Found::Missing
    } else {
        match heap[id] {
            HeapObject::Object { class_name, properties } => {
                let ci = resolve_index(class_keys(rv.classes), class_name@);
                let si = resolve_index(struct_keys(rv.structs), class_name@);
                let denied = if ci >= 0 {
                    field_denied(rv.classes[ci].fields, rv.classes[ci].qualified_name, current, prop)
                } else if si >= 0 {
                    field_denied(rv.structs[si].fields, rv.structs[si].qualified_name, current, prop)
                } else {
                    None
                };
                match denied {
                    Some(m) => Found::Fails(m),
                    None => Found::Value(or_null(entry_value(properties@, prop))),
                }
            },
            HeapObject::Array(items) => if prop == "Length"@ {
                Found::Value(IshValue::Int(items@.len() as i32))
            } else {
                Found::Missing
            },
            HeapObject::List(items) => if prop == "Length"@ {
                Found::Value(IshValue::Int(items@.len() as i32))
            } else {
                Found::Missing
            },
            HeapObject::Dict(entries) => if prop == "Count"@ {
                Found::Value(IshValue::Int(entries@.len() as i32))
            } else {
                Found::Value(or_null(entry_value(entries@, prop)))
            },
        }
    }
}

/// What reading `prop` of a value finds.
pub open spec fn property_of(
    rv: RegistryView,
    statics: Seq<(String, IshValue)>,
    heap: Map<usize, HeapObject>,
    current: Option<Seq<char>>,
    obj: IshValue,
    prop: Seq<char>,
) -> Found {
    match obj {
        IshValue::TypeRef(t) => if t@ == "string"@ && prop == "Empty"@ {
            Found::Empty
        } else {
            Found::Missing
        },
        IshValue::String(s) => named_property(rv, statics, current, s@, prop),
        IshValue::Reference(id) => object_property(rv, heap, current, id, prop),
        _ => Found::Missing,
    }
}

/// The value, or error, that reading `prop` of `obj` gives.
pub open spec fn property_meets(found: Found, obj: IshValue, prop: Seq<char>, res: Result<IshValue, IshError>) -> bool {
    match found {
        Found::Value(v) => res == Ok::<IshValue, IshError>(v),
        Found::Empty => res matches Ok(IshValue::String(t)) && t@.len() == 0,
        Found::Fails(m) => res matches Err(IshError::ExecutionError(x)) && x@ == m,
        Found::Missing => res matches Err(IshError::ExecutionError(x)) && x@
            == "Cannot access property '"@ + prop + "' on non-object value '"@ + shown(obj)
            + "'."@,
    }
}

fn builtin_type_name(name: &Vec<char>) -> (r: bool)
    ensures
        r == builtin_type(name@),
{
    chars_eq_str(name, "string") || chars_eq_str(name, "char") || chars_eq_str(name, "List")
        || chars_eq_str(name, "Math") || chars_eq_str(name, "Time") || chars_eq_str(name, "Str")
        || chars_eq_str(name, "FS") || chars_eq_str(name, "Net") || chars_eq_str(name, "OS")
        || chars_eq_str(name, "ExtProc") || chars_eq_str(name, "CommandLine")
}

pub(crate) fn path_name(name: &Vec<char>) -> (r: bool)
    ensures
        r == has_path(name@),
{
    let mut i: usize = 0;
    while i < name.len()
        invariant
            i <= name@.len(),
            forall|j: int| 0 <= j < i && j < name@.len() - 1 ==> !#[trigger] path_sep_at(name@, j),
        decreases name.len() - i,
    {
        if i + 1 < name.len() && name[i] == ':' && name[i + 1] == ':' {
            proof {
                assert(path_sep_at(name@, i as int));
            }
            return true;
        }
        i += 1;
    }
    false
}

fn static_value(statics: &Entries, qn: &String, name: &str) -> (r: IshValue)
    ensures
        r == or_null(entry_value(statics@, static_key(qn@, name@))),
{
    let key = concat(concat(qn.clone(), "::"), name);
    match entry_get(statics, key.as_str()) {
        Some(v) => v,
        None => IshValue::Null,
    }
}

fn member_value(
    fields: &Vec<FieldDef>,
    qn: &String,
    scopes: &Scopes,
    statics: &Entries,
    heap: &Gobbler,
    name: &str,
) -> (r: Option<IshValue>)
    requires
        scopes.base() != 0 ==> scopes.vars().len() > 0,
    ensures
        r == member_of(
            fields_view(fields@),
            qn@,
            scopes.vars(),
            scopes.base(),
            statics@,
            heap.heap(),
            name@,
        ),
{
    match field_named(fields, name) {
        None => None,
        Some(f) => {
            if f.is_static {
                Some(static_value(statics, qn, name))
            } else {
                match scopes.this_object() {
                    Some(id) => match heap.get(id) {
                        Some(obj) => match obj {
                            HeapObject::Object { properties, .. } => match entry_get(
                                properties,
                                name,
                            ) {
                                Some(v) => Some(v),
                                None => Some(IshValue::Null),
                            },
                            _ => None,
                        },
                        None => None,
                    },
                    None => None,
                }
            }
        },
    }
}

/// Reads a variable: the implicit marker gives itself; a declared type, or a type of the
/// runtime library, gives a type reference; else the value in sight (see `Scopes::lookup`);
/// else, in code of a class or struct, a field of it read unqualified; else a static variable
/// named by its full path; else an error.
pub fn variable_value(
    registry: &Registry,
    scopes: &Scopes,
    statics: &Entries,
    heap: &Gobbler,
    current_class: Option<&str>,
    name: &str,
) -> (res: Result<IshValue, IshError>)
    requires
        scopes.base() != 0 ==> scopes.vars().len() > 0,
    ensures
        variable_meets(
            registry@,
            scopes.vars(),
            scopes.base(),
            statics@,
            heap.heap(),
            match current_class {
                Some(c) => Some(c@),
                None => None,
            },
            name@,
            res,
        ),
{
    let nv = chars_of(name);
    if chars_eq_str(&nv, "___implicit___") {
        return Ok(IshValue::String(lit(name)));
    }
    if registry.declares(name) || builtin_type_name(&nv) {
        return Ok(IshValue::TypeRef(lit(name)));
    }
    match scopes.lookup(name) {
        Some(v) => {
            return Ok(v);
        },
        None => {},
    }
    match current_class {
        Some(c) => {
            let from_class = match registry.resolve_class(c) {
                Some(cd) => member_value(&cd.fields, &cd.qualified_name, scopes, statics, heap, name),
                None => None,
            };
            match from_class {
                Some(v) => {
                    return Ok(v);
                },
                None => {},
            }
            match registry.resolve_struct(c) {
                Some(sd) => match member_value(
                    &sd.fields,
                    &sd.qualified_name,
                    scopes,
                    statics,
                    heap,
                    name,
                ) {
                    Some(v) => {
                        return Ok(v);
                    },
                    None => {},
                },
                None => {},
            }
        },
        None => {},
    }
    if path_name(&nv) {
        match entry_get(statics, name) {
            Some(v) => {
                return Ok(v);
            },
            None => {},
        }
    }
    let m = concat(concat(lit("Variable '"), name), "' is not defined in this scope");
    Err(IshError::ExecutionError(m))
}

fn variant_position(variants: &Vec<String>, prop: &str) -> (r: Option<usize>)
    ensures
        match r {
            Some(k) => k as int == position(variants@.map_values(|s: String| s@), prop@, 0)
                && k < variants@.len(),
            None => position(variants@.map_values(|s: String| s@), prop@, 0) < 0,
        },
{
    let ghost vs = variants@.map_values(|s: String| s@);
    let mut i: usize = 0;
    while i < variants.len()
        invariant
            i <= variants@.len(),
            vs == variants@.map_values(|s: String| s@),
            position(vs, prop@, 0) == position(vs, prop@, i as int),
        decreases variants.len() - i,
    {
        if string_eq_str(&variants[i], prop) {
            return Some(i);
        }
        i += 1;
    }
    None
}

fn failed(m: String) -> (r: Result<IshValue, IshError>)
    ensures
        r matches Err(IshError::ExecutionError(x)) && x@ == m@,
{
    Err(IshError::ExecutionError(m))
}

fn static_property(
    fields: &Vec<FieldDef>,
    qn: &String,
    s: &String,
    statics: &Entries,
    current_class: Option<&str>,
    prop: &str,
) -> (r: Option<Result<IshValue, IshError>>)
    ensures
        static_field(
            fields_view(fields@),
            qn@,
            s@,
            statics@,
            match current_class {
                Some(c) => Some(c@),
                None => None,
            },
            prop@,
        ) is Missing <==> r is None,
        r matches Some(x) ==> property_meets(
            static_field(
                fields_view(fields@),
                qn@,
                s@,
                statics@,
                match current_class {
                    Some(c) => Some(c@),
                    None => None,
                },
                prop@,
            ),
            IshValue::String(*s),
            prop@,
            x,
        ),
{
    match field_named(fields, prop) {
        None => None,
        Some(f) => {
            if f.is_static {
                match Registry::check_access(&f.access, current_class, qn.as_str()) {
                    Err(e) => Some(Err(e)),
                    Ok(()) => Some(Ok(static_value(statics, qn, prop))),
                }
            } else {
                let m = concat(
                    concat(concat(concat(lit("Cannot access instance field '"), prop), "' of '"), s.as_str()),
                    "' statically",
                );
                Some(failed(m))
            }
        },
    }
}

pub(crate) fn check_field(
    fields: &Vec<FieldDef>,
    qn: &String,
    current_class: Option<&str>,
    prop: &str,
) -> (r: Result<(), IshError>)
    ensures
        match field_denied(
            fields_view(fields@),
            qn@,
            match current_class {
                Some(c) => Some(c@),
                None => None,
            },
            prop@,
        ) {
            Some(m) => r matches Err(IshError::ExecutionError(x)) && x@ == m,
            None => r is Ok,
        },
{
    match field_named(fields, prop) {
        None => Ok(()),
        Some(f) => Registry::check_access(&f.access, current_class, qn.as_str()),
    }
}

/// Reads property `prop` of a value: `string.Empty`; through a name, a variant of an enum (its
/// position) or a static field of a class or struct, open to the caller; of an object, a
/// property of a class or struct instance (open to the caller), the `Length` of an array or
/// list, the `Count` or an entry of a map; else an error that writes the value out. Gives
/// nothing where that error would write out a float, which the caller writes out.
pub fn property_value(
    registry: &Registry,
    statics: &Entries,
    heap: &Gobbler,
    current_class: Option<&str>,
    obj: &IshValue,
    prop: &str,
) -> (res: Option<Result<IshValue, IshError>>)
    ensures
        res is None <==> *obj is Float,
        res matches Some(x) ==> property_meets(
            property_of(
                registry@,
                statics@,
                heap.heap(),
                match current_class {
                    Some(c) => Some(c@),
                    None => None,
                },
                *obj,
                prop@,
            ),
            *obj,
            prop@,
            x,
        ),
{
    let pv = chars_of(prop);
    match obj {
        IshValue::Float(_) => {
            return None;
        },
        IshValue::TypeRef(t) => {
            if string_eq_str(t, "string") && chars_eq_str(&pv, "Empty") {
                return Some(Ok(IshValue::String(String::new())));
            }
        },
        IshValue::String(s) => {
            match registry.enum_named(s.as_str()) {
                Some(ed) => {
                    return match variant_position(&ed.variants, prop) {
                        Some(k) => Some(Ok(IshValue::Int(k as i32))),
                        None => {
                            let m = concat(
                                concat(concat(lit("Enum "), s.as_str()), " does not have variant "),
                                prop,
                            );
                            Some(failed(m))
                        },
                    };
                },
                None => {},
            }
            match registry.resolve_class(s.as_str()) {
                Some(cd) => match static_property(
                    &cd.fields,
                    &cd.qualified_name,
                    s,
                    statics,
                    current_class,
                    prop,
                ) {
                    Some(r) => {
                        return Some(r);
                    },
                    None => {},
                },
                None => {},
            }
            match registry.resolve_struct(s.as_str()) {
                Some(sd) => match static_property(
                    &sd.fields,
                    &sd.qualified_name,
                    s,
                    statics,
                    current_class,
                    prop,
                ) {
                    Some(r) => {
                        return Some(r);
                    },
                    None => {},
                },
                None => {},
            }
        },
        IshValue::Reference(id) => {
            match heap.get(*id) {
                Some(o) => match o {
                    HeapObject::Object { class_name, properties } => {
                        let checked = match registry.resolve_class(class_name.as_str()) {
                            Some(cd) => check_field(&cd.fields, &cd.qualified_name, current_class, prop),
                            None => match registry.resolve_struct(class_name.as_str()) {
                                Some(sd) => check_field(
                                    &sd.fields,
                                    &sd.qualified_name,
                                    current_class,
                                    prop,
                                ),
                                None => Ok(()),
                            },
                        };
                        return match checked {
                            Err(e) => Some(Err(e)),
                            Ok(()) => match entry_get(properties, prop) {
                                Some(v) => Some(Ok(v)),
                                None => Some(Ok(IshValue::Null)),
                            },
                        };
                    },
                    HeapObject::Array(items) => {
                        if chars_eq_str(&pv, "Length") {
                            return Some(Ok(IshValue::Int(items.len() as i32)));
                        }
                    },
                    HeapObject::List(items) => {
                        if chars_eq_str(&pv, "Length") {
                            return Some(Ok(IshValue::Int(items.len() as i32)));
                        }
                    },
                    HeapObject::Dict(entries) => {
                        if chars_eq_str(&pv, "Count") {
                            return Some(Ok(IshValue::Int(entries.len() as i32)));
                        }
                        return match entry_get(entries, prop) {
                            Some(v) => Some(Ok(v)),
                            None => Some(Ok(IshValue::Null)),
                        };
                    },
                },
                None => {},
            }
        },
        _ => {},
    }
    let text = show(obj);
    let m = concat(
        concat(concat(concat(lit("Cannot access property '"), prop), "' on non-object value '"), text.as_str()),
        "'.",
    );
    Some(failed(m))
}

} // verus!
