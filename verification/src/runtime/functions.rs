use vstd::prelude::*;
use crate::lang::ast::{clone_node, clone_nodes, clone_params, AstNode, AstNodeKind, Param};
use crate::lang::registry::{
    class_keys, last_index, lemma_last_index, method_keys, methods_view, put, resolve_index,
    Registry, RegistryView,
};
use crate::lang::tree::{param_trees, tree, trees, ParamTree, Tree, TreeKind};
use crate::text::{concat, lit, string_eq_str};

verus! {

/// The names under which definitions are kept.
pub open spec fn def_keys(defs: Seq<(Seq<char>, Tree)>) -> Seq<Seq<char>> {
    defs.map_values(|d: (Seq<char>, Tree)| d.0)
}

/// The definitions after those of the methods `methods` of class `class_name` are added, each
/// under `class_name::method`; nodes that are no function are passed over.
pub open spec fn with_methods(
    defs: Seq<(Seq<char>, Tree)>,
    class_name: Seq<char>,
    methods: Seq<Tree>,
) -> Seq<(Seq<char>, Tree)>
    decreases methods.len(),
{
    if methods.len() == 0 {
        defs
    } else {
        let before = with_methods(defs, class_name, methods.drop_last());
        let m = methods.last();
        match m.kind {
            TreeKind::Function { name, .. } => put(
                before,
                def_keys(before),
                class_name + "::"@ + name,
                (class_name + "::"@ + name, m),
            ),
            _ => before,
        }
    }
}

/// The parameters and body of the function defined under `program`, if one is.
pub open spec fn defined_function(defs: Seq<(Seq<char>, Tree)>, program: Seq<char>) -> Option<
    (Seq<ParamTree>, Seq<Tree>),
> {
    let k = last_index(def_keys(defs), program);
    if k >= 0 {
        match defs[k].1.kind {
            TreeKind::Function { params, body, .. } => Some((params, body)),
            _ => None,
        }
    } else {
        None
    }
}

/// What a call of `program` runs: the parameters and body of the function defined under that
/// name, else of the method so named of the class that code is running in.
pub open spec fn callable(
    defs: Seq<(Seq<char>, Tree)>,
    rv: RegistryView,
    current: Option<Seq<char>>,
    program: Seq<char>,
) -> Option<(Seq<ParamTree>, Seq<Tree>)> {
    match defined_function(defs, program) {
        Some(d) => Some(d),
        None => match current {
            Some(c) => {
                let ci = resolve_index(class_keys(rv.classes), c);
                if ci >= 0 {
                    let ms = rv.classes[ci].methods;
                    let mi = last_index(method_keys(ms), program);
                    if mi >= 0 {
                        Some((ms[mi].params, ms[mi].body))
                    } else {
                        None
                    }
                } else {
                    None
                }
            },
            None => None,
        },
    }
}

/// The functions a running program has defined, by name (methods under `Class::method`).
pub struct Functions {
    pub entries: Vec<(String, AstNode)>,
}

impl Functions {
    /// The definitions as plain values.
    pub open spec fn defs(&self) -> Seq<(Seq<char>, Tree)> {
        self.entries@.map_values(|e: (String, AstNode)| (e.0@, tree(e.1)))
    }

    /// No function defined.
    pub fn new() -> (f: Self)
        ensures
            f.defs() == Seq::<(Seq<char>, Tree)>::empty(),
    {
        let f = Functions { entries: Vec::new() };
        proof {
            assert(f.defs() =~= Seq::<(Seq<char>, Tree)>::empty());
        }
        f
    }

    /// Defines `node` under `name`, replacing what was defined so.
    pub fn define(&mut self, name: String, node: AstNode)
        ensures
            final(self).defs() == put(
                old(self).defs(),
                def_keys(old(self).defs()),
                name@,
                (name@, tree(node)),
            ),
    {
        let ghost keys = def_keys(self.defs());
        let ghost d = (name@, tree(node));
        let mut i = self.entries.len();
        proof {
            assert(keys.take(i as int) =~= keys);
        }
        while i > 0
            invariant
                i <= self.entries@.len(),
                *self == *old(self),
                keys == def_keys(self.defs()),
                d == (name@, tree(node)),
                last_index(keys, name@) == last_index(keys.take(i as int), name@),
            decreases i,
        {
            proof {
                assert(keys.take(i as int).drop_last() =~= keys.take(i - 1));
                assert(keys[i - 1] == self.entries@[i - 1].0@);
            }
            if string_eq_str(&self.entries[i - 1].0, name.as_str()) {
                let ghost pair = (name, node);
                self.entries.set(i - 1, (name, node));
                proof {
                    assert(self.entries@ =~= old(self).entries@.update(i - 1, pair));
                    assert(self.defs() =~= old(self).defs().update(i - 1, d));
                }
                return;
            }
            i -= 1;
        }
        self.entries.push((name, node));
        proof {
            assert(self.defs() =~= old(self).defs().push(d));
        }
    }

    /// Defines the methods of class `class_name`, each under `class_name::method`.
    pub fn define_methods(&mut self, class_name: &str, methods: &Vec<AstNode>)
        ensures
            final(self).defs() == with_methods(old(self).defs(), class_name@, trees(methods@)),
    {
        let mut k: usize = 0;
        proof {
            assert(methods@.take(0) =~= Seq::<AstNode>::empty());
        }
        while k < methods.len()
            invariant
                k <= methods@.len(),
                self.defs() == with_methods(
                    old(self).defs(),
                    class_name@,
                    trees(methods@.take(k as int)),
                ),
            decreases methods.len() - k,
        {
            proof {
                assert(methods@.take(k + 1).drop_last() =~= methods@.take(k as int));
                assert(trees(methods@.take(k + 1)) == trees(methods@.take(k as int)).push(
                    tree(methods@[k as int]),
                ));
                assert(trees(methods@.take(k + 1)).drop_last() =~= trees(methods@.take(k as int)));
            }
            match &methods[k].kind {
                AstNodeKind::Function { name, .. } => {
                    let key = concat(concat(lit(class_name), "::"), name.as_str());
                    self.define(key, clone_node(&methods[k]));
                },
                _ => {},
            }
            k += 1;
        }
        proof {
            assert(methods@.take(methods@.len() as int) =~= methods@);
        }
    }

    /// Where `name` is defined.
    fn def_index(&self, name: &str) -> (r: Option<usize>)
        ensures
            match r {
                Some(j) => j == last_index(def_keys(self.defs()), name@) && j < self.entries@.len(),
                None => last_index(def_keys(self.defs()), name@) < 0,
            },
    {
        let ghost keys = def_keys(self.defs());
        let mut i = self.entries.len();
        proof {
            assert(keys.take(i as int) =~= keys);
        }
        while i > 0
            invariant
                i <= self.entries@.len(),
                keys == def_keys(self.defs()),
                last_index(keys, name@) == last_index(keys.take(i as int), name@),
            decreases i,
        {
            proof {
                assert(keys.take(i as int).drop_last() =~= keys.take(i - 1));
                assert(keys[i - 1] == self.entries@[i - 1].0@);
            }
            if string_eq_str(&self.entries[i - 1].0, name) {
                return Some(i - 1);
            }
            i -= 1;
        }
        proof {
            assert(keys.take(0) =~= Seq::<Seq<char>>::empty());
        }
        None
    }

    /// What a call of `program` runs: the parameters and body of the function defined under
    /// that name, else of the method so named of the class that code is running in.
    pub fn resolve_callable(&self, registry: &Registry, current_class: Option<&str>, program: &str) -> (r:
        Option<(Vec<Param>, Vec<AstNode>)>)
        ensures
            match r {
                Some((ps, b)) => callable(
                    self.defs(),
                    registry@,
                    match current_class {
                        Some(c) => Some(c@),
                        None => None,
                    },
                    program@,
                ) == Some((param_trees(ps@), trees(b@))),
                None => callable(
                    self.defs(),
                    registry@,
                    match current_class {
                        Some(c) => Some(c@),
                        None => None,
                    },
                    program@,
                ) is None,
            },
    {
        let found = self.def_index(program);
        match found {
            Some(j) => {
                proof {
                    assert(self.defs()[j as int] == (
                        self.entries@[j as int].0@,
                        tree(self.entries@[j as int].1),
                    ));
                }
                match &self.entries[j].1.kind {
                    AstNodeKind::Function { params, body, .. } => {
                        return Some((clone_params(params), clone_nodes(body)));
                    },
                    _ => {},
                }
            },
            None => {},
        }
        match current_class {
            Some(c) => match registry.resolve_class(c) {
                Some(cd) => {
                    let mut m = cd.methods.len();
                    let ghost mk = method_keys(methods_view(cd.methods@));
                    proof {
                        assert(mk.take(m as int) =~= mk);
                    }
                    let ghost ci = resolve_index(class_keys(registry@.classes), c@);
                    proof {
                        assert(cd@.methods == methods_view(cd.methods@));
                    }
                    while m > 0
                        invariant
                            ci >= 0,
                            cd@ == registry@.classes[ci],
                            ci == resolve_index(class_keys(registry@.classes), c@),
                            defined_function(self.defs(), program@) is None,
                            current_class == Some(c),
                            m <= cd.methods@.len(),
                            mk == method_keys(methods_view(cd.methods@)),
                            last_index(mk, program@) == last_index(mk.take(m as int), program@),
                        decreases m,
                    {
                        proof {
                            assert(mk.take(m as int).drop_last() =~= mk.take(m - 1));
                            assert(mk[m - 1] == cd.methods@[m - 1].name@);
                        }
                        if string_eq_str(&cd.methods[m - 1].name, program) {
                            let md = &cd.methods[m - 1];
                            proof {
                                assert(methods_view(cd.methods@)[m - 1] == md@);
                                assert(mk.take(m as int).last() == program@);
                                assert(last_index(mk, program@) == m - 1);
                            }
                            return Some((clone_params(&md.params), clone_nodes(&md.body)));
                        }
                        m -= 1;
                    }
                    proof {
                        assert(mk.take(0) =~= Seq::<Seq<char>>::empty());
                    }
                    None
                },
                None => None,
            },
            None => None,
        }
    }
}

/// A function just defined under a name is what a call of that name runs.
pub proof fn lemma_defined_is_called(
    defs: Seq<(Seq<char>, Tree)>,
    rv: RegistryView,
    current: Option<Seq<char>>,
    name: Seq<char>,
    t: Tree,
)
    ensures
        match t.kind {
            TreeKind::Function { params, body, .. } => callable(
                put(defs, def_keys(defs), name, (name, t)),
                rv,
                current,
                name,
            ) == Some((params, body)),
            _ => true,
        },
{
    let keys = def_keys(defs);
    let after = put(defs, keys, name, (name, t));
    lemma_last_index(keys, name);
    if last_index(keys, name) >= 0 {
        assert(def_keys(after) =~= keys);
    } else {
        assert(def_keys(after) =~= keys.push(name));
    }
}

} // verus!
