use vstd::prelude::*;
use crate::error::IshError;
use crate::lang::ast::Param;
use crate::lang::config::{find_char, find_char_exec};
use crate::lang::registry::{class_keys, resolve_index, struct_keys, Registry, RegistryView};
use crate::lang::tree::{param_tree, param_trees, ParamTree};
use crate::runtime::assign::clone_values;
use crate::runtime::gobbler::{Gobbler, HeapObject};
use crate::runtime::lookup::{access_message, access_ok};
use crate::runtime::scope::{clone_value, entry_value, holder, lemma_holder, Scopes};
use crate::runtime::value::IshValue;
use crate::text::{chars_eq_str, chars_of, concat, lit, string_from, sub_chars};

verus! {

/// What a parameter of a call is given.
pub enum Bound {
    /// The argument at its position.
    Value(IshValue),
    /// A variadic parameter: the arguments left, as an array.
    Rest(Seq<IshValue>),
    /// No argument left: the value of its default expression.
    Default,
    /// No argument left and no default: `null`.
    Missing,
}

/// What a parameter of a call is given (see `Bound`).
pub enum Binding {
    Value(IshValue),
    Rest(Vec<IshValue>),
    Default,
    Missing,
}

pub open spec fn bound(b: Binding) -> Bound {
    match b {
        Binding::Value(v) => Bound::Value(v),
        Binding::Rest(v) => Bound::Rest(v@),
        Binding::Default => Bound::Default,
        Binding::Missing => Bound::Missing,
    }
}

/// The bindings of the parameters from `i` on, the arguments from `k` on being left: each
/// parameter takes the next argument; a variadic one takes all the arguments left.
pub open spec fn bind_from(ps: Seq<ParamTree>, args: Seq<IshValue>, i: int, k: int) -> Seq<
    (Seq<char>, Bound),
>
    decreases ps.len() - i,
{
    if i < 0 || i >= ps.len() {
        Seq::empty()
    } else {
        let p = ps[i];
        if p.is_variadic {
            seq![(p.name, Bound::Rest(args.subrange(k, args.len() as int)))] + bind_from(
                ps,
                args,
                i + 1,
                args.len() as int,
            )
        } else if k < args.len() {
            seq![(p.name, Bound::Value(args[k]))] + bind_from(ps, args, i + 1, k + 1)
        } else if p.default_value is Some {
            seq![(p.name, Bound::Default)] + bind_from(ps, args, i + 1, k)
        } else {
            seq![(p.name, Bound::Missing)] + bind_from(ps, args, i + 1, k)
        }
    }
}

pub open spec fn bindings_view(r: Seq<(String, Binding)>) -> Seq<(Seq<char>, Bound)> {
    r.map_values(|e: (String, Binding)| (e.0@, bound(e.1)))
}

/// Binds the arguments of a call to the parameters, in order: each parameter takes the next
/// argument; a variadic one takes all the arguments left; a parameter left without argument
/// takes its default value where it has one, `null` otherwise.
pub fn bind_arguments(params: &Vec<Param>, args: &Vec<IshValue>) -> (r: Vec<(String, Binding)>)
    ensures
        bindings_view(r@) == bind_from(param_trees(params@), args@, 0, 0),
{
    let ghost ps = param_trees(params@);
    proof {
        crate::lang::tree::lemma_param_trees_len(params@);
    }
    let mut r: Vec<(String, Binding)> = Vec::new();
    let mut i: usize = 0;
    let mut k: usize = 0;
    proof {
        assert(bindings_view(r@) + bind_from(ps, args@, 0, 0) =~= bind_from(ps, args@, 0, 0));
    }
    while i < params.len()
        invariant
            i <= params@.len(),
            k <= args@.len(),
            ps == param_trees(params@),
            ps.len() == params@.len(),
            bindings_view(r@) + bind_from(ps, args@, i as int, k as int) == bind_from(
                ps,
                args@,
                0,
                0,
            ),
        decreases params.len() - i,
    {
        let p = &params[i];
        let ghost k_start = k;
        proof {
            crate::lang::tree::lemma_param_trees_index(params@, i as int);
        }
        let name = p.name.clone();
        let b = if p.is_variadic {
            let mut rest: Vec<IshValue> = Vec::new();
            let ghost k0 = k;
            while k < args.len()
                invariant
                    k0 <= k <= args@.len(),
                    rest@ == args@.subrange(k0 as int, k as int),
                decreases args.len() - k,
            {
                rest.push(clone_value(&args[k]));
                k += 1;
                proof {
                    assert(rest@ =~= args@.subrange(k0 as int, k as int));
                }
            }
            Binding::Rest(rest)
        } else if k < args.len() {
            let v = clone_value(&args[k]);
            k += 1;
            Binding::Value(v)
        } else if p.default_value.is_some() {
            Binding::Default
        } else {
            Binding::Missing
        };
        let ghost x = (name, b);
        let ghost before = bindings_view(r@);
        r.push((name, b));
        proof {
            assert(bindings_view(r@) =~= before.push((x.0@, bound(x.1))));
            assert(bindings_view(r@) + bind_from(ps, args@, i + 1, k as int) =~= before + bind_from(
                ps,
                args@,
                i as int,
                k_start as int,
            ));
        }
        i += 1;
    }
    r
}

/// What `new T(...)` makes.
pub enum NewKind {
    List,
    Dict,
    Class,
    Struct,
}

/// A type name without its generic arguments (what comes before `<`).
pub open spec fn generic_base(name: Seq<char>) -> Seq<char> {
    let i = find_char(name, '<', 0);
    if i < 0 {
        name
    } else {
        name.subrange(0, i)
    }
}

/// What `new class_name(...)` makes, or why it cannot: a list or map; else (with no initializer
/// block) an instance of the class, which must not be static, else of the struct so named,
/// either open to the caller.
pub open spec fn new_kind_of(
    rv: RegistryView,
    current: Option<Seq<char>>,
    class_name: Seq<char>,
    has_initializer: bool,
) -> Result<NewKind, Seq<char>> {
    let base = generic_base(class_name);
    if base == "List"@ {
        Ok(NewKind::List)
    } else if base == "Map"@ {
        Ok(NewKind::Dict)
    } else if has_initializer {
        Err("Initializer blocks are not supported for class/struct '"@ + class_name + "'"@)
    } else {
        let ci = resolve_index(class_keys(rv.classes), base);
        let si = resolve_index(struct_keys(rv.structs), base);
        if ci >= 0 {
            let c = rv.classes[ci];
            if c.is_static {
                Err("Cannot instantiate static class '"@ + class_name + "'."@)
            } else if !access_ok(c.access, current, c.qualified_name) {
                Err(access_message(c.access, c.qualified_name))
            } else {
                Ok(NewKind::Class)
            }
        } else if si >= 0 {
            let st = rv.structs[si];
            if !access_ok(st.access, current, st.qualified_name) {
                Err(access_message(st.access, st.qualified_name))
            } else {
                Ok(NewKind::Struct)
            }
        } else {
            Err("Class or Struct '"@ + class_name + "' is not defined."@)
        }
    }
}

fn fail_new(m: String) -> (r: Result<NewKind, IshError>)
    ensures
        r matches Err(IshError::ExecutionError(x)) && x@ == m@,
{
    Err(IshError::ExecutionError(m))
}

/// What `new class_name(...)` makes (see `new_kind_of`).
pub fn new_kind(
    registry: &Registry,
    current_class: Option<&str>,
    class_name: &str,
    has_initializer: bool,
) -> (r: Result<NewKind, IshError>)
    ensures
        match new_kind_of(
            registry@,
            match current_class {
                Some(c) => Some(c@),
                None => None,
            },
            class_name@,
            has_initializer,
        ) {
            Ok(k) => r == Ok::<NewKind, IshError>(k),
            Err(m) => r matches Err(IshError::ExecutionError(x)) && x@ == m,
        },
{
    let cv = chars_of(class_name);
    let bv = match find_char_exec(&cv, '<', 0) {
        Some(i) => sub_chars(&cv, 0, i),
        None => cv,
    };
    proof {
        if find_char(class_name@, '<', 0) < 0 {
            assert(bv@ == class_name@);
        }
    }
    if chars_eq_str(&bv, "List") {
        return Ok(NewKind::List);
    }
    if chars_eq_str(&bv, "Map") {
        return Ok(NewKind::Dict);
    }
    if has_initializer {
        return fail_new(concat(concat(lit("Initializer blocks are not supported for class/struct '"), class_name), "'"));
    }
    let base = string_from(&bv);
    match registry.resolve_class(base.as_str()) {
        Some(cd) => {
            if cd.is_static {
                return fail_new(concat(concat(lit("Cannot instantiate static class '"), class_name), "'."));
            }
            match Registry::check_access(&cd.access, current_class, cd.qualified_name.as_str()) {
                Err(e) => Err(e),
                Ok(()) => Ok(NewKind::Class),
            }
        },
        None => match registry.resolve_struct(base.as_str()) {
            Some(sd) => match Registry::check_access(&sd.access, current_class, sd.qualified_name.as_str()) {
                Err(e) => Err(e),
                Ok(()) => Ok(NewKind::Struct),
            },
            None => fail_new(concat(concat(lit("Class or Struct '"), class_name), "' is not defined.")),
        },
    }
}

/// A list after a call of one of its methods: `add` appends the first argument (if any),
/// `remove` drops the element at the position that the first argument gives (if it is an
/// integer in range), `clear` empties it; nothing for any other method.
pub open spec fn list_after(items: Seq<IshValue>, method: Seq<char>, args: Seq<IshValue>) -> Option<
    Seq<IshValue>,
> {
    if method == "add"@ {
        Some(
            if args.len() > 0 {
                items.push(args[0])
            } else {
                items
            },
        )
    } else if method == "remove"@ {
        Some(
            if args.len() > 0 {
                match args[0] {
                    IshValue::Int(i) => if 0 <= i < items.len() {
                        items.remove(i as int)
                    } else {
                        items
                    },
                    _ => items,
                }
            } else {
                items
            },
        )
    } else if method == "clear"@ {
        Some(Seq::empty())
    } else {
        None
    }
}

/// Calls a method of the list `id` (see `list_after`); any other method fails.
pub fn list_method(heap: &mut Gobbler, id: usize, method: &str, args: &Vec<IshValue>) -> (r: Result<
    (),
    IshError,
>)
    requires
        old(heap).wf(),
        old(heap).heap().contains_key(id),
        old(heap).heap()[id] is List,
    ensures
        final(heap).wf(),
        old(heap).heap()[id] matches HeapObject::List(items) && (match list_after(
            items@,
            method@,
            args@,
        ) {
            Some(n) => r is Ok && final(heap).heap() == old(heap).heap().insert(
                id,
                final(heap).heap()[id],
            ) && (final(heap).heap()[id] matches HeapObject::List(m) && m@ == n),
            None => (r matches Err(IshError::ExecutionError(x)) && x@ == "List has no method '"@
                + method@ + "'"@) && final(heap).heap() == old(heap).heap(),
        }),
{
    let mv = chars_of(method);
    let mut items = match heap.get(id) {
        Some(HeapObject::List(l)) => clone_values(l),
        _ => {
            proof {
                assert(false);
            }
            Vec::new()
        },
    };
    if chars_eq_str(&mv, "add") {
        if args.len() > 0 {
            items.push(clone_value(&args[0]));
        }
    } else if chars_eq_str(&mv, "remove") {
        if args.len() > 0 {
            match &args[0] {
                IshValue::Int(i) => {
                    if *i >= 0 && (*i as usize) < items.len() {
                        let _ = items.remove(*i as usize);
                    }
                },
                _ => {},
            }
        }
    } else if chars_eq_str(&mv, "clear") {
        items = Vec::new();
    } else {
        let m = concat(concat(lit("List has no method '"), method), "'");
        return Err(IshError::ExecutionError(m));
    }
    let ghost n = items@;
    heap.set_object(id, HeapObject::List(items));
    proof {
        assert(final(heap).heap()[id] matches HeapObject::List(m) && m@ == n);
    }
    Ok(())
}

/// The receiver of a method called without one: the value of `this` in the innermost scope
/// binding it, whether in sight or not; else, in code of a class, the class name; else an error.
pub fn implicit_receiver(scopes: &Scopes, current_class: Option<&str>, method: &str) -> (r: Result<
    IshValue,
    IshError,
>)
    ensures
        holder(scopes.vars(), scopes.vars().len() as int, "this"@) >= 0 ==> r == Ok::<
            IshValue,
            IshError,
        >(
            entry_value(
                scopes.vars()[holder(scopes.vars(), scopes.vars().len() as int, "this"@)],
                "this"@,
            ).unwrap(),
        ),
        holder(scopes.vars(), scopes.vars().len() as int, "this"@) < 0 ==> match current_class {
            Some(c) => r matches Ok(IshValue::String(s)) && s@ == c@,
            None => r matches Err(IshError::ExecutionError(x)) && x@ == "Implicit method call '"@
                + method@ + "' outside of class."@,
        },
{
    proof {
        lemma_holder(scopes.vars(), scopes.vars().len() as int, "this"@);
    }
    match scopes.innermost("this") {
        Some(v) => Ok(v),
        None => match current_class {
            Some(c) => Ok(IshValue::String(lit(c))),
            None => Err(
                IshError::ExecutionError(
                    concat(concat(lit("Implicit method call '"), method), "' outside of class."),
                ),
            ),
        },
    }
}

} // verus!
