use vstd::prelude::*;
use crate::error::IshError;
use crate::text::{concat, lit};
use crate::lang::ast::{
    clone_ctor, clone_node, clone_nodes, clone_opt_nodes, clone_opt_string, clone_params,
    clone_strings, AccessSpecifier, AstNode, AstNodeKind, Param,
};
use crate::lang::tree::{
    ctor_tree, opt_trees, param_tree, param_trees, tree, trees, ParamTree, Tree, TreeKind,
};

verus! {

broadcast use vstd::std_specs::vec::group_vec_axioms;

/// A method as plain values.
pub struct MethodView {
    pub name: Seq<char>,
    pub access: AccessSpecifier,
    pub is_static: bool,
    pub params: Seq<ParamTree>,
    pub body: Seq<Tree>,
}

/// A field as plain values.
pub struct FieldView {
    pub name: Seq<char>,
    pub type_specifier: Option<Seq<char>>,
    pub access: AccessSpecifier,
    pub is_static: bool,
    pub default_value: Option<Tree>,
}

/// A class as plain values.
pub struct ClassView {
    pub name: Seq<char>,
    pub qualified_name: Seq<char>,
    pub access: AccessSpecifier,
    pub is_static: bool,
    pub methods: Seq<MethodView>,
    pub fields: Seq<FieldView>,
    pub constructor: Option<(AccessSpecifier, Seq<ParamTree>, Seq<Tree>)>,
    pub destructor: Option<Seq<Tree>>,
    pub base_class: Option<Seq<char>>,
}

/// A struct as plain values.
pub struct StructView {
    pub name: Seq<char>,
    pub qualified_name: Seq<char>,
    pub access: AccessSpecifier,
    pub fields: Seq<FieldView>,
    pub constructor: Option<(AccessSpecifier, Seq<ParamTree>, Seq<Tree>)>,
    pub destructor: Option<Seq<Tree>>,
}

/// An enum as plain values.
pub struct EnumView {
    pub name: Seq<char>,
    pub qualified_name: Seq<char>,
    pub access: AccessSpecifier,
    pub variants: Seq<Seq<char>>,
}

/// The registry as plain values.
pub struct RegistryView {
    pub classes: Seq<ClassView>,
    pub structs: Seq<StructView>,
    pub enums: Seq<EnumView>,
    pub namespaces: Seq<Seq<char>>,
    pub loaded_files: Seq<Seq<char>>,
    pub imports: Seq<Seq<char>>,
}

pub open spec fn opt_view(o: Option<String>) -> Option<Seq<char>> {
    match o {
        Some(s) => Some(s@),
        None => None,
    }
}

/// An optional default value as a plain value.
pub open spec fn default_tree(d: Option<Box<AstNode>>) -> Option<Tree> {
    match d {
        Some(b) => Some(tree(*b)),
        None => None,
    }
}

pub open spec fn strings_view(v: Seq<String>) -> Seq<Seq<char>> {
    v.map_values(|s: String| s@)
}

/// The index of the last key equal to `k`, or -1.
pub open spec fn last_index(keys: Seq<Seq<char>>, k: Seq<char>) -> int
    decreases keys.len(),
{
    if keys.len() == 0 {
        -1
    } else if keys.last() == k {
        keys.len() - 1
    } else {
        last_index(keys.drop_last(), k)
    }
}

/// Whether no key occurs twice.
pub open spec fn distinct(keys: Seq<Seq<char>>) -> bool {
    forall|i: int, j: int| 0 <= i < j < keys.len() ==> keys[i] != keys[j]
}

/// Map-like insertion: the entry with the same key is replaced in place, otherwise the new
/// entry is appended.
pub open spec fn put<T>(entries: Seq<T>, keys: Seq<Seq<char>>, k: Seq<char>, e: T) -> Seq<T> {
    let j = last_index(keys, k);
    if j >= 0 {
        entries.update(j, e)
    } else {
        entries.push(e)
    }
}

pub open spec fn method_keys(ms: Seq<MethodView>) -> Seq<Seq<char>> {
    ms.map_values(|m: MethodView| m.name)
}

pub open spec fn field_keys(fs: Seq<FieldView>) -> Seq<Seq<char>> {
    fs.map_values(|f: FieldView| f.name)
}

pub open spec fn class_keys(cs: Seq<ClassView>) -> Seq<Seq<char>> {
    cs.map_values(|c: ClassView| c.qualified_name)
}

pub open spec fn struct_keys(ss: Seq<StructView>) -> Seq<Seq<char>> {
    ss.map_values(|s: StructView| s.qualified_name)
}

pub open spec fn enum_keys(es: Seq<EnumView>) -> Seq<Seq<char>> {
    es.map_values(|e: EnumView| e.name)
}

/// The methods declared among `nodes` (the `Function` nodes), by name; a later method with the
/// same name replaces an earlier one.
pub open spec fn methods_of(nodes: Seq<AstNode>) -> Seq<MethodView>
    decreases nodes.len(),
{
    if nodes.len() == 0 {
        Seq::empty()
    } else {
        let prev = methods_of(nodes.drop_last());
        match nodes.last().kind {
            AstNodeKind::Function { name, params, body, access, is_static } => {
                let m = MethodView {
                    name: name@,
                    access,
                    is_static,
                    params: param_trees(params@),
                    body: trees(body@),
                };
                put(prev, method_keys(prev), name@, m)
            },
            _ => prev,
        }
    }
}

/// The fields declared among `nodes` (the `FieldDecl` nodes), by name; a later field with the
/// same name replaces an earlier one.
pub open spec fn fields_of(nodes: Seq<AstNode>) -> Seq<FieldView>
    decreases nodes.len(),
{
    if nodes.len() == 0 {
        Seq::empty()
    } else {
        let prev = fields_of(nodes.drop_last());
        match nodes.last().kind {
            AstNodeKind::FieldDecl { name, type_specifier, access, is_static, default_value } => {
                let f = FieldView {
                    name: name@,
                    type_specifier: opt_view(type_specifier),
                    access,
                    is_static,
                    default_value: default_tree(default_value),
                };
                put(prev, field_keys(prev), name@, f)
            },
            _ => prev,
        }
    }
}

/// The namespace path: the non-empty names of the open namespaces joined with `::`.
pub open spec fn joined(ns: Seq<Seq<char>>) -> Seq<char>
    decreases ns.len(),
{
    if ns.len() == 0 {
        Seq::empty()
    } else {
        let p = joined(ns.drop_last());
        let l = ns.last();
        if l.len() == 0 {
            p
        } else if p.len() == 0 {
            l
        } else {
            p + seq![':', ':'] + l
        }
    }
}

/// A name qualified by the namespace path, if there is one.
pub open spec fn qualified(ns: Seq<Seq<char>>, name: Seq<char>) -> Seq<char> {
    let p = joined(ns);
    if p.len() == 0 {
        name
    } else {
        p + seq![':', ':'] + name
    }
}

/// The qualified name of an enum: inside any namespace, even an unnamed one, the path and `::`
/// come before the name.
pub open spec fn enum_qualified(ns: Seq<Seq<char>>, name: Seq<char>) -> Seq<char> {
    if ns.len() == 0 {
        name
    } else {
        joined(ns) + seq![':', ':'] + name
    }
}

} // verus!

verus! {

/// A class declared in a program.
#[derive(Debug, Clone)]
pub struct ClassDef {
    pub name: String,
    pub qualified_name: String,
    pub access: AccessSpecifier,
    pub is_static: bool,
    pub methods: Vec<MethodDef>,
    pub fields: Vec<FieldDef>,
    pub constructor: Option<(AccessSpecifier, Vec<Param>, Vec<AstNode>)>,
    pub destructor: Option<Vec<AstNode>>,
    pub base_class: Option<String>,
}

/// A struct declared in a program.
#[derive(Debug, Clone)]
pub struct StructDef {
    pub name: String,
    pub qualified_name: String,
    pub access: AccessSpecifier,
    pub fields: Vec<FieldDef>,
    pub constructor: Option<(AccessSpecifier, Vec<Param>, Vec<AstNode>)>,
    pub destructor: Option<Vec<AstNode>>,
}

/// A method of a class.
#[derive(Debug, Clone)]
pub struct MethodDef {
    pub name: String,
    pub access: AccessSpecifier,
    pub is_static: bool,
    pub params: Vec<Param>,
    pub body: Vec<AstNode>,
}

/// A field of a class or struct.
#[derive(Debug, Clone)]
pub struct FieldDef {
    pub name: String,
    pub type_specifier: Option<String>,
    pub access: AccessSpecifier,
    pub is_static: bool,
    pub default_value: Option<AstNode>,
}

/// An enum declared in a program.
#[derive(Debug, Clone)]
pub struct EnumDef {
    pub name: String,
    pub qualified_name: String,
    pub access: AccessSpecifier,
    pub variants: Vec<String>,
}

/// The declarations of a program: classes and structs by qualified name, enums by name, and
/// the imports met while registering, which are resolved by reading files.
#[derive(Debug, Clone)]
pub struct Registry {
    pub classes: Vec<ClassDef>,
    pub structs: Vec<StructDef>,
    pub enums: Vec<EnumDef>,
    namespace_stack: Vec<String>,
    pub loaded_files: Vec<String>,
    pub imports: Vec<String>,
}

impl View for MethodDef {
    type V = MethodView;

    open spec fn view(&self) -> MethodView {
        MethodView {
            name: self.name@,
            access: self.access,
            is_static: self.is_static,
            params: param_trees(self.params@),
            body: trees(self.body@),
        }
    }
}

impl View for FieldDef {
    type V = FieldView;

    open spec fn view(&self) -> FieldView {
        FieldView {
            name: self.name@,
            type_specifier: opt_view(self.type_specifier),
            access: self.access,
            is_static: self.is_static,
            default_value: match self.default_value {
                Some(n) => Some(tree(n)),
                None => None,
            },
        }
    }
}

pub open spec fn methods_view(ms: Seq<MethodDef>) -> Seq<MethodView> {
    ms.map_values(|m: MethodDef| m@)
}

pub open spec fn fields_view(fs: Seq<FieldDef>) -> Seq<FieldView> {
    fs.map_values(|f: FieldDef| f@)
}

impl View for ClassDef {
    type V = ClassView;

    open spec fn view(&self) -> ClassView {
        ClassView {
            name: self.name@,
            qualified_name: self.qualified_name@,
            access: self.access,
            is_static: self.is_static,
            methods: methods_view(self.methods@),
            fields: fields_view(self.fields@),
            constructor: ctor_tree(self.constructor),
            destructor: opt_trees(self.destructor),
            base_class: opt_view(self.base_class),
        }
    }
}

impl View for StructDef {
    type V = StructView;

    open spec fn view(&self) -> StructView {
        StructView {
            name: self.name@,
            qualified_name: self.qualified_name@,
            access: self.access,
            fields: fields_view(self.fields@),
            constructor: ctor_tree(self.constructor),
            destructor: opt_trees(self.destructor),
        }
    }
}

impl View for EnumDef {
    type V = EnumView;

    open spec fn view(&self) -> EnumView {
        EnumView {
            name: self.name@,
            qualified_name: self.qualified_name@,
            access: self.access,
            variants: strings_view(self.variants@),
        }
    }
}

impl View for Registry {
    type V = RegistryView;

    closed spec fn view(&self) -> RegistryView {
        RegistryView {
            classes: self.classes@.map_values(|c: ClassDef| c@),
            structs: self.structs@.map_values(|s: StructDef| s@),
            enums: self.enums@.map_values(|e: EnumDef| e@),
            namespaces: strings_view(self.namespace_stack@),
            loaded_files: strings_view(self.loaded_files@),
            imports: strings_view(self.imports@),
        }
    }
}

/// The registry after registering the declarations of `node`: a namespace registers its body
/// inside itself, an `if` registers both of its branches, a class or struct is put under its
/// qualified name, an enum under its name, and an import is recorded; nothing else registers.
pub open spec fn declared(rv: RegistryView, node: AstNode) -> RegistryView
    decreases node, 0nat,
{
    match node.kind {
        AstNodeKind::NamespaceDecl { name, body } => {
            let inner = declared_seq(
                RegistryView { namespaces: rv.namespaces.push(name@), ..rv },
                body@,
                body@.len(),
            );
            RegistryView { namespaces: inner.namespaces.drop_last(), ..inner }
        },
        AstNodeKind::ClassDecl {
            name,
            base_class,
            access,
            is_static,
            methods,
            fields,
            constructor,
            destructor,
        } => {
            let qn = qualified(rv.namespaces, name@);
            let c = ClassView {
                name: name@,
                qualified_name: qn,
                access,
                is_static,
                methods: methods_of(methods@),
                fields: fields_of(fields@),
                constructor: ctor_tree(constructor),
                destructor: opt_trees(destructor),
                base_class: opt_view(base_class),
            };
            RegistryView { classes: put(rv.classes, class_keys(rv.classes), qn, c), ..rv }
        },
        AstNodeKind::StructDecl { name, access, fields, constructor, destructor } => {
            let qn = qualified(rv.namespaces, name@);
            let s = StructView {
                name: name@,
                qualified_name: qn,
                access,
                fields: fields_of(fields@),
                constructor: ctor_tree(constructor),
                destructor: opt_trees(destructor),
            };
            RegistryView { structs: put(rv.structs, struct_keys(rv.structs), qn, s), ..rv }
        },
        AstNodeKind::EnumDecl { name, access, variants } => {
            let e = EnumView {
                name: name@,
                qualified_name: enum_qualified(rv.namespaces, name@),
                access,
                variants: strings_view(variants@),
            };
            RegistryView { enums: put(rv.enums, enum_keys(rv.enums), name@, e), ..rv }
        },
        AstNodeKind::WithImport { path } => RegistryView { imports: rv.imports.push(path@), ..rv },
        AstNodeKind::If { body, else_body, .. } => {
            let after = declared_seq(rv, body@, body@.len());
            match else_body {
                Some(e) => declared_seq(after, e@, e@.len()),
                None => after,
            }
        },
        _ => rv,
    }
}

/// The registry after registering the first `n` of `nodes` in order.
pub open spec fn declared_seq(rv: RegistryView, nodes: Seq<AstNode>, n: nat) -> RegistryView
    decreases nodes, n,
{
    if n == 0 || n > nodes.len() {
        rv
    } else {
        declared(declared_seq(rv, nodes, (n - 1) as nat), nodes[n - 1])
    }
}

} // verus!

verus! {

/// `name` qualified by the path `p`, or `name` itself when `p` is empty.
fn join_name(p: String, name: &String) -> (r: String)
    ensures
        r@ == (if p@.len() == 0 {
            name@
        } else {
            p@ + seq![':', ':'] + name@
        }),
{
    if p.as_str().is_empty() {
        name.clone()
    } else {
        let mut s = p;
        crate::text::push_char(&mut s, ':');
        crate::text::push_char(&mut s, ':');
        let r = crate::text::concat(s, name.as_str());
        proof {
            assert(r@ =~= p@ + seq![':', ':'] + name@);
        }
        r
    }
}

fn put_method(v: &mut Vec<MethodDef>, m: MethodDef)
    ensures
        methods_view(final(v)@) == put(
            methods_view(old(v)@),
            method_keys(methods_view(old(v)@)),
            m@.name,
            m@,
        ),
{
    let ghost keys = method_keys(methods_view(v@));
    let mut i = v.len();
    proof {
        assert(keys.take(i as int) =~= keys);
    }
    while i > 0
        invariant
            i <= v@.len(),
            *v == *old(v),
            keys == method_keys(methods_view(v@)),
            last_index(keys, m@.name) == last_index(keys.take(i as int), m@.name),
        decreases i,
    {
        proof {
            assert(keys.take(i as int).drop_last() =~= keys.take(i - 1));
        }
        if v[i - 1].name == m.name {
            let ghost mv = m@;
            v.set(i - 1, m);
            proof {
                assert(methods_view(v@) =~= methods_view(old(v)@).update(i - 1, mv));
            }
            return;
        }
        i -= 1;
    }
    let ghost mv = m@;
    v.push(m);
    proof {
        assert(methods_view(v@) =~= methods_view(old(v)@).push(mv));
    }
}

fn put_field(v: &mut Vec<FieldDef>, f: FieldDef)
    ensures
        fields_view(final(v)@) == put(
            fields_view(old(v)@),
            field_keys(fields_view(old(v)@)),
            f@.name,
            f@,
        ),
{
    let ghost keys = field_keys(fields_view(v@));
    let mut i = v.len();
    proof {
        assert(keys.take(i as int) =~= keys);
    }
    while i > 0
        invariant
            i <= v@.len(),
            *v == *old(v),
            keys == field_keys(fields_view(v@)),
            last_index(keys, f@.name) == last_index(keys.take(i as int), f@.name),
        decreases i,
    {
        proof {
            assert(keys.take(i as int).drop_last() =~= keys.take(i - 1));
        }
        if v[i - 1].name == f.name {
            let ghost fv = f@;
            v.set(i - 1, f);
            proof {
                assert(fields_view(v@) =~= fields_view(old(v)@).update(i - 1, fv));
            }
            return;
        }
        i -= 1;
    }
    let ghost fv = f@;
    v.push(f);
    proof {
        assert(fields_view(v@) =~= fields_view(old(v)@).push(fv));
    }
}

/// The methods declared among `nodes`, as `methods_of` describes.
fn collect_methods(nodes: &Vec<AstNode>) -> (r: Vec<MethodDef>)
    ensures
        methods_view(r@) == methods_of(nodes@),
{
    let mut r: Vec<MethodDef> = Vec::new();
    let mut i: usize = 0;
    while i < nodes.len()
        invariant
            i <= nodes@.len(),
            methods_view(r@) == methods_of(nodes@.take(i as int)),
        decreases nodes.len() - i,
    {
        proof {
            assert(nodes@.take(i + 1).drop_last() =~= nodes@.take(i as int));
        }
        match &nodes[i].kind {
            AstNodeKind::Function { name, params, body, access, is_static } => {
                let m = MethodDef {
                    name: name.clone(),
                    access: *access,
                    is_static: *is_static,
                    params: clone_params(params),
                    body: clone_nodes(body),
                };
                put_method(&mut r, m);
            },
            _ => {},
        }
        i += 1;
    }
    proof {
        assert(nodes@.take(nodes@.len() as int) =~= nodes@);
    }
    r
}

/// The fields declared among `nodes`, as `fields_of` describes.
fn collect_fields(nodes: &Vec<AstNode>) -> (r: Vec<FieldDef>)
    ensures
        fields_view(r@) == fields_of(nodes@),
{
    let mut r: Vec<FieldDef> = Vec::new();
    let mut i: usize = 0;
    while i < nodes.len()
        invariant
            i <= nodes@.len(),
            fields_view(r@) == fields_of(nodes@.take(i as int)),
        decreases nodes.len() - i,
    {
        proof {
            assert(nodes@.take(i + 1).drop_last() =~= nodes@.take(i as int));
        }
        match &nodes[i].kind {
            AstNodeKind::FieldDecl { name, type_specifier, access, is_static, default_value } => {
                let d = match default_value {
                    Some(b) => Some(clone_node(&**b)),
                    None => None,
                };
                let f = FieldDef {
                    name: name.clone(),
                    type_specifier: clone_opt_string(type_specifier),
                    access: *access,
                    is_static: *is_static,
                    default_value: d,
                };
                put_field(&mut r, f);
            },
            _ => {},
        }
        i += 1;
    }
    proof {
        assert(nodes@.take(nodes@.len() as int) =~= nodes@);
    }
    r
}

} // verus!

verus! {

/// A parameter with only a name.
pub open spec fn plain_param_tree(name: Seq<char>) -> ParamTree {
    ParamTree {
        name,
        type_specifier: None,
        is_array: false,
        is_variadic: false,
        default_value: None,
    }
}

/// The statement `field = param` at line 0, column 0.
pub open spec fn assign_tree(field: Seq<char>, param: Seq<char>) -> Tree {
    Tree {
        kind: TreeKind::Assignment {
            type_specifier: None,
            variable: field,
            index: None,
            value: Box::new(Tree { kind: TreeKind::Variable(param), line: 0, column: 0 }),
            is_declaration: false,
        },
        line: 0,
        column: 0,
    }
}

/// The built-in `Pair` struct: public fields `Key` and `Value`, and a public constructor that
/// takes `k` and `v` and sets them.
pub open spec fn pair_view() -> StructView {
    StructView {
        name: "Pair"@,
        qualified_name: "Pair"@,
        access: AccessSpecifier::Public,
        fields: seq![
            FieldView {
                name: "Key"@,
                type_specifier: None,
                access: AccessSpecifier::Public,
                is_static: false,
                default_value: None,
            },
            FieldView {
                name: "Value"@,
                type_specifier: None,
                access: AccessSpecifier::Public,
                is_static: false,
                default_value: None,
            },
        ],
        constructor: Some(
            (
                AccessSpecifier::Public,
                seq![plain_param_tree("k"@), plain_param_tree("v"@)],
                seq![assign_tree("this.Key"@, "k"@), assign_tree("this.Value"@, "v"@)],
            ),
        ),
        destructor: None,
    }
}

fn plain_field(name: &str) -> (f: FieldDef)
    ensures
        f@ == (FieldView {
            name: name@,
            type_specifier: None,
            access: AccessSpecifier::Public,
            is_static: false,
            default_value: None,
        }),
{
    FieldDef {
        name: crate::text::lit(name),
        type_specifier: None,
        access: AccessSpecifier::Public,
        is_static: false,
        default_value: None,
    }
}

fn plain_param(name: &str) -> (p: Param)
    ensures
        param_tree(p) == plain_param_tree(name@),
{
    Param {
        name: crate::text::lit(name),
        type_specifier: None,
        is_array: false,
        is_variadic: false,
        default_value: None,
    }
}

/// `this.<field> = <param>` at line 0, column 0.
fn field_assignment(field: &str, param: &str) -> (n: AstNode)
    ensures
        tree(n) == assign_tree(field@, param@),
{
    let v = AstNode::new(AstNodeKind::Variable(crate::text::lit(param)), 0, 0);
    let n = AstNode::new(
        AstNodeKind::Assignment {
            type_specifier: None,
            variable: crate::text::lit(field),
            index: None,
            value: Box::new(v),
            is_declaration: false,
        },
        0,
        0,
    );
    proof {
        assert(tree(v) == Tree { kind: TreeKind::Variable(param@), line: 0, column: 0 });
    }
    n
}

impl Registry {
    /// A registry that knows only the built-in `Pair` struct, whose public constructor takes
    /// `k` and `v` and sets `Key` and `Value`.
    pub fn new() -> (r: Self)
        ensures
            r@ == (RegistryView {
                classes: Seq::empty(),
                structs: seq![pair_view()],
                enums: Seq::empty(),
                namespaces: Seq::empty(),
                loaded_files: Seq::empty(),
                imports: Seq::empty(),
            }),
    {
        let mut pair_fields: Vec<FieldDef> = Vec::new();
        pair_fields.push(plain_field("Key"));
        pair_fields.push(plain_field("Value"));
        let mut params: Vec<Param> = Vec::new();
        params.push(plain_param("k"));
        params.push(plain_param("v"));
        let mut body: Vec<AstNode> = Vec::new();
        body.push(field_assignment("this.Key", "k"));
        body.push(field_assignment("this.Value", "v"));
        proof {
            let p1 = params@.drop_last();
            assert(p1.drop_last() =~= Seq::<Param>::empty());
            assert(param_trees(p1.drop_last()) =~= Seq::<ParamTree>::empty());
            assert(param_trees(p1) =~= seq![plain_param_tree("k"@)]);
            assert(param_trees(params@) =~= seq![plain_param_tree("k"@), plain_param_tree("v"@)]);
            let b1 = body@.drop_last();
            assert(b1.drop_last() =~= Seq::<AstNode>::empty());
            assert(trees(b1.drop_last()) =~= Seq::<Tree>::empty());
            assert(trees(b1) =~= seq![assign_tree("this.Key"@, "k"@)]);
            assert(trees(body@) =~= seq![
                assign_tree("this.Key"@, "k"@),
                assign_tree("this.Value"@, "v"@),
            ]);
        }
        let pair = StructDef {
            name: crate::text::lit("Pair"),
            qualified_name: crate::text::lit("Pair"),
            access: AccessSpecifier::Public,
            fields: pair_fields,
            constructor: Some((AccessSpecifier::Public, params, body)),
            destructor: None,
        };
        let mut structs: Vec<StructDef> = Vec::new();
        structs.push(pair);
        let r = Registry {
            classes: Vec::new(),
            structs,
            enums: Vec::new(),
            namespace_stack: Vec::new(),
            loaded_files: Vec::new(),
            imports: Vec::new(),
        };
        proof {
            assert(fields_view(pair_fields@) =~= pair_view().fields);
            assert(r@.structs =~= seq![pair_view()]);
            assert(r@.classes =~= Seq::empty());
            assert(r@.enums =~= Seq::empty());
            assert(r@.namespaces =~= Seq::empty());
            assert(r@.loaded_files =~= Seq::empty());
            assert(r@.imports =~= Seq::empty());
        }
        r
    }

    /// The current namespace path (`Ns1::Ns2`), skipping unnamed namespaces.
    fn current_namespace(&self) -> (r: String)
        ensures
            r@ == joined(self@.namespaces),
    {
        let ghost ns = self@.namespaces;
        let mut r = String::new();
        let mut i: usize = 0;
        while i < self.namespace_stack.len()
            invariant
                i <= self.namespace_stack@.len(),
                ns == self@.namespaces,
                ns.len() == self.namespace_stack@.len(),
                r@ == joined(ns.take(i as int)),
            decreases self.namespace_stack.len() - i,
        {
            proof {
                assert(ns.take(i + 1).drop_last() =~= ns.take(i as int));
                assert(ns.take(i + 1).last() == self.namespace_stack@[i as int]@);
            }
            let part = &self.namespace_stack[i];
            if !part.as_str().is_empty() {
                r = join_name(r, part);
            }
            i += 1;
        }
        proof {
            assert(ns.take(ns.len() as int) =~= ns);
        }
        r
    }

    /// `name` qualified by the current namespace path.
    fn qualify_name(&self, name: &String) -> (r: String)
        ensures
            r@ == qualified(self@.namespaces, name@),
    {
        let ns = self.current_namespace();
        join_name(ns, name)
    }

    fn put_class(&mut self, c: ClassDef)
        ensures
            final(self)@ == (RegistryView {
                classes: put(old(self)@.classes, class_keys(old(self)@.classes), c@.qualified_name, c@),
                ..old(self)@
            }),
    {
        let ghost keys = class_keys(self@.classes);
        let mut i = self.classes.len();
        proof {
            assert(keys.take(i as int) =~= keys);
        }
        while i > 0
            invariant
                i <= self.classes@.len(),
                *self == *old(self),
                keys == class_keys(self@.classes),
                last_index(keys, c@.qualified_name) == last_index(
                    keys.take(i as int),
                    c@.qualified_name,
                ),
            decreases i,
        {
            proof {
                assert(keys.take(i as int).drop_last() =~= keys.take(i - 1));
            }
            if self.classes[i - 1].qualified_name == c.qualified_name {
                let ghost cv = c@;
                self.classes.set(i - 1, c);
                proof {
                    assert(self@.classes =~= old(self)@.classes.update(i - 1, cv));
                }
                return;
            }
            i -= 1;
        }
        let ghost cv = c@;
        self.classes.push(c);
        proof {
            assert(self@.classes =~= old(self)@.classes.push(cv));
        }
    }

    fn put_struct(&mut self, s: StructDef)
        ensures
            final(self)@ == (RegistryView {
                structs: put(old(self)@.structs, struct_keys(old(self)@.structs), s@.qualified_name, s@),
                ..old(self)@
            }),
    {
        let ghost keys = struct_keys(self@.structs);
        let mut i = self.structs.len();
        proof {
            assert(keys.take(i as int) =~= keys);
        }
        while i > 0
            invariant
                i <= self.structs@.len(),
                *self == *old(self),
                keys == struct_keys(self@.structs),
                last_index(keys, s@.qualified_name) == last_index(
                    keys.take(i as int),
                    s@.qualified_name,
                ),
            decreases i,
        {
            proof {
                assert(keys.take(i as int).drop_last() =~= keys.take(i - 1));
            }
            if self.structs[i - 1].qualified_name == s.qualified_name {
                let ghost sv = s@;
                self.structs.set(i - 1, s);
                proof {
                    assert(self@.structs =~= old(self)@.structs.update(i - 1, sv));
                }
                return;
            }
            i -= 1;
        }
        let ghost sv = s@;
        self.structs.push(s);
        proof {
            assert(self@.structs =~= old(self)@.structs.push(sv));
        }
    }

    fn put_enum(&mut self, e: EnumDef)
        ensures
            final(self)@ == (RegistryView {
                enums: put(old(self)@.enums, enum_keys(old(self)@.enums), e@.name, e@),
                ..old(self)@
            }),
    {
        let ghost keys = enum_keys(self@.enums);
        let mut i = self.enums.len();
        proof {
            assert(keys.take(i as int) =~= keys);
        }
        while i > 0
            invariant
                i <= self.enums@.len(),
                *self == *old(self),
                keys == enum_keys(self@.enums),
                last_index(keys, e@.name) == last_index(keys.take(i as int), e@.name),
            decreases i,
        {
            proof {
                assert(keys.take(i as int).drop_last() =~= keys.take(i - 1));
            }
            if self.enums[i - 1].name == e.name {
                let ghost ev = e@;
                self.enums.set(i - 1, e);
                proof {
                    assert(self@.enums =~= old(self)@.enums.update(i - 1, ev));
                }
                return;
            }
            i -= 1;
        }
        let ghost ev = e@;
        self.enums.push(e);
        proof {
            assert(self@.enums =~= old(self)@.enums.push(ev));
        }
    }
}

} // verus!

verus! {

impl Registry {
    /// First pass over a program: registers its namespaces, classes, structs and enums, and
    /// records its imports, without running anything (see `declared`).
    pub fn register_declarations(&mut self, node: &AstNode) -> (r: Result<(), crate::error::IshError>)
        ensures
            r is Ok,
            final(self)@ == declared(old(self)@, *node),
            final(self)@.namespaces == old(self)@.namespaces,
        decreases node, 0nat,
    {
        match &node.kind {
            AstNodeKind::NamespaceDecl { name, body } => {
                self.namespace_stack.push(name.clone());
                proof {
                    assert(self@.namespaces =~= old(self)@.namespaces.push(name@));
                    assert(self@ == (RegistryView {
                        namespaces: old(self)@.namespaces.push(name@),
                        ..old(self)@
                    }));
                }
                let ghost mid = self@;
                self.register_all(body);
                let ghost inner = self@;
                let ghost stack = self.namespace_stack@;
                self.namespace_stack.pop();
                proof {
                    assert(self.namespace_stack@ =~= stack.drop_last());
                    assert(self@.namespaces =~= inner.namespaces.drop_last());
                }
            },
            AstNodeKind::ClassDecl {
                name,
                base_class,
                access,
                is_static,
                methods,
                fields,
                constructor,
                destructor,
            } => {
                let qualified_name = self.qualify_name(name);
                let c = ClassDef {
                    name: name.clone(),
                    qualified_name,
                    access: *access,
                    is_static: *is_static,
                    methods: collect_methods(methods),
                    fields: collect_fields(fields),
                    constructor: clone_ctor(constructor),
                    destructor: clone_opt_nodes(destructor),
                    base_class: clone_opt_string(base_class),
                };
                self.put_class(c);
            },
            AstNodeKind::StructDecl { name, access, fields, constructor, destructor } => {
                let qualified_name = self.qualify_name(name);
                let s = StructDef {
                    name: name.clone(),
                    qualified_name,
                    access: *access,
                    fields: collect_fields(fields),
                    constructor: clone_ctor(constructor),
                    destructor: clone_opt_nodes(destructor),
                };
                self.put_struct(s);
            },
            AstNodeKind::EnumDecl { name, access, variants } => {
                let qualified_name = if self.namespace_stack.len() == 0 {
                    name.clone()
                } else {
                    let p = self.current_namespace();
                    let mut s = p;
                    crate::text::push_char(&mut s, ':');
                    crate::text::push_char(&mut s, ':');
                    let q = crate::text::concat(s, name.as_str());
                    proof {
                        assert(q@ =~= joined(self@.namespaces) + seq![':', ':'] + name@);
                    }
                    q
                };
                let e = EnumDef {
                    name: name.clone(),
                    qualified_name,
                    access: *access,
                    variants: clone_strings(variants),
                };
                self.put_enum(e);
            },
            AstNodeKind::WithImport { path } => {
                self.imports.push(path.clone());
                proof {
                    assert(self@.imports =~= old(self)@.imports.push(path@));
                }
            },
            AstNodeKind::If { body, else_body, .. } => {
                self.register_all(body);
                match else_body {
                    Some(e) => {
                        self.register_all(e);
                    },
                    None => {},
                }
            },
            _ => {},
        }
        Ok(())
    }

    /// Registers the declarations of the nodes in order.
    fn register_all(&mut self, nodes: &Vec<AstNode>)
        ensures
            final(self)@ == declared_seq(old(self)@, nodes@, nodes@.len()),
            final(self)@.namespaces == old(self)@.namespaces,
        decreases nodes, 1nat,
    {
        let mut i: usize = 0;
        while i < nodes.len()
            invariant
                i <= nodes@.len(),
                self@ == declared_seq(old(self)@, nodes@, i as nat),
                self@.namespaces == old(self)@.namespaces,
            decreases nodes.len() - i,
        {
            proof {
                assert(decreases_to!(nodes => nodes@[i as int]));
            }
            let _ = self.register_declarations(&nodes[i]);
            i += 1;
        }
    }
}

} // verus!

verus! {

/// Whether `qn` ends with `::` followed by `name`.
pub open spec fn ends_with_member(qn: Seq<char>, name: Seq<char>) -> bool {
    &&& qn.len() >= name.len() + 2
    &&& qn[qn.len() - name.len() - 2] == ':'
    &&& qn[qn.len() - name.len() - 1] == ':'
    &&& qn.subrange(qn.len() - name.len(), qn.len() as int) == name
}

/// The first index from `from` on whose key is `name` or ends with `::name`, or -1.
pub open spec fn first_match(keys: Seq<Seq<char>>, name: Seq<char>, from: int) -> int
    decreases keys.len() - from,
{
    if from < 0 || from >= keys.len() {
        -1
    } else if ends_with_member(keys[from], name) || keys[from] == name {
        from
    } else {
        first_match(keys, name, from + 1)
    }
}

/// Name resolution: the entry whose key is exactly `name`, else the first whose key ends with
/// `::name`, else -1.
pub open spec fn resolve_index(keys: Seq<Seq<char>>, name: Seq<char>) -> int {
    let e = last_index(keys, name);
    if e >= 0 {
        e
    } else {
        first_match(keys, name, 0)
    }
}

/// Method lookup along the chain of base classes, taking at most `fuel` steps: the indices of
/// the class and the method found.
pub open spec fn method_lookup(
    cs: Seq<ClassView>,
    class_name: Seq<char>,
    method: Seq<char>,
    fuel: nat,
) -> Option<(int, int)>
    decreases fuel,
{
    if fuel == 0 {
        None
    } else {
        let ci = resolve_index(class_keys(cs), class_name);
        if ci < 0 {
            None
        } else {
            let mi = last_index(method_keys(cs[ci].methods), method);
            if mi >= 0 {
                Some((ci, mi))
            } else {
                match cs[ci].base_class {
                    Some(b) => method_lookup(cs, b, method, (fuel - 1) as nat),
                    None => None,
                }
            }
        }
    }
}

/// The index of the first class with the given (unqualified) name, from `from` on, or -1.
pub open spec fn first_named(cs: Seq<ClassView>, name: Seq<char>, from: int) -> int
    decreases cs.len() - from,
{
    if from < 0 || from >= cs.len() {
        -1
    } else if cs[from].name == name {
        from
    } else {
        first_named(cs, name, from + 1)
    }
}

/// Whether a method's parameters are exactly `params string[] args`.
pub open spec fn takes_args(ps: Seq<ParamTree>) -> bool {
    &&& ps.len() == 1
    &&& ps[0].is_variadic
    &&& ps[0].name == "args"@
    &&& ps[0].type_specifier == Some("string[]"@)
}

/// The entry point check: the qualified name of the first class named `ec`, if it is public and
/// static and has a public static method `em` (whose one parameter is `params string[] args`
/// when `with_args`, as the scripting guide asks); otherwise the message of the first requirement that fails.
pub open spec fn entry_point(
    cs: Seq<ClassView>,
    ec: Seq<char>,
    em: Seq<char>,
    with_args: bool,
) -> Result<Seq<char>, Seq<char>> {
    let i = first_named(cs, ec, 0);
    if i < 0 {
        Err("Entry point class '"@ + ec + "' not found."@)
    } else {
        let c = cs[i];
        let qn = c.qualified_name;
        let mi = last_index(method_keys(c.methods), em);
        if !c.is_static {
            Err("Entry point class '"@ + qn + "' must be declared as 'static'."@)
        } else if c.access != AccessSpecifier::Public {
            Err("Entry point class '"@ + qn + "' must be declared as 'public'."@)
        } else if mi < 0 {
            Err(
                "Entry point class '"@ + qn + "' must contain a 'public static func "@ + em
                    + "' method."@,
            )
        } else if !c.methods[mi].is_static {
            Err("Entry point method '"@ + em + "' must be declared as 'static'."@)
        } else if c.methods[mi].access != AccessSpecifier::Public {
            Err("Entry point method '"@ + em + "' must be declared as 'public'."@)
        } else if with_args && !takes_args(c.methods[mi].params) {
            Err("Entry point method '"@ + em + "' must have the 'params string[] args' signature."@)
        } else {
            Ok(qn)
        }
    }
}

/// Whether `node`, or a namespace or `if` branch nested in it, declares the namespace `target`.
pub open spec fn contains_namespace(node: AstNode, target: Seq<char>) -> bool
    decreases node, 0nat,
{
    match node.kind {
        AstNodeKind::NamespaceDecl { name, body } => name@ == target || contains_namespace_in(
            body@,
            body@.len(),
            target,
        ),
        AstNodeKind::If { body, else_body, .. } => contains_namespace_in(body@, body@.len(), target)
            || match else_body {
            Some(e) => contains_namespace_in(e@, e@.len(), target),
            None => false,
        },
        _ => false,
    }
}

/// Whether one of the first `n` nodes contains the namespace `target`.
pub open spec fn contains_namespace_in(nodes: Seq<AstNode>, n: nat, target: Seq<char>) -> bool
    decreases nodes, n,
{
    if n == 0 || n > nodes.len() {
        false
    } else {
        contains_namespace_in(nodes, (n - 1) as nat, target) || contains_namespace(
            nodes[n - 1],
            target,
        )
    }
}

} // verus!

verus! {

fn ends_with_member_exec(qn: &Vec<char>, name: &Vec<char>) -> (r: bool)
    ensures
        r == ends_with_member(qn@, name@),
{
    if qn.len() < 2 || qn.len() - 2 < name.len() {
        return false;
    }
    let start = qn.len() - name.len();
    if qn[start - 2] != ':' || qn[start - 1] != ':' {
        return false;
    }
    let mut k: usize = 0;
    while k < name.len()
        invariant
            start + name@.len() == qn@.len(),
            start + name.len() == qn.len(),
            2 <= start,
            k <= name@.len(),
            forall|j: int| 0 <= j < k ==> qn@[start + j] == name@[j],
        decreases name.len() - k,
    {
        if qn[start + k] != name[k] {
            proof {
                assert(qn@.subrange(start as int, qn@.len() as int)[k as int] != name@[k as int]);
            }
            return false;
        }
        k += 1;
    }
    proof {
        assert(qn@.subrange(start as int, qn@.len() as int) =~= name@);
    }
    true
}

/// Searches the keys from the back: the index of the last key equal to `k`.
fn last_key(keys: &Vec<Vec<char>>, k: &Vec<char>) -> (r: Option<usize>)
    ensures
        match r {
            Some(j) => j == last_index(keys@.map_values(|v: Vec<char>| v@), k@) && j < keys@.len(),
            None => last_index(keys@.map_values(|v: Vec<char>| v@), k@) == -1,
        },
{
    let ghost ks = keys@.map_values(|v: Vec<char>| v@);
    let mut i = keys.len();
    proof {
        assert(ks.take(i as int) =~= ks);
    }
    while i > 0
        invariant
            i <= keys@.len(),
            ks == keys@.map_values(|v: Vec<char>| v@),
            last_index(ks, k@) == last_index(ks.take(i as int), k@),
        decreases i,
    {
        proof {
            assert(ks.take(i as int).drop_last() =~= ks.take(i - 1));
        }
        if crate::text::chars_eq(&keys[i - 1], k) {
            return Some(i - 1);
        }
        i -= 1;
    }
    None
}

/// Name resolution over keys (see `resolve_index`).
fn resolve_key(keys: &Vec<Vec<char>>, name: &Vec<char>) -> (r: Option<usize>)
    ensures
        match r {
            Some(j) => j == resolve_index(keys@.map_values(|v: Vec<char>| v@), name@) && j
                < keys@.len(),
            None => resolve_index(keys@.map_values(|v: Vec<char>| v@), name@) < 0,
        },
{
    let ghost ks = keys@.map_values(|v: Vec<char>| v@);
    match last_key(keys, name) {
        Some(j) => {
            return Some(j);
        },
        None => {},
    }
    let mut i: usize = 0;
    while i < keys.len()
        invariant
            i <= keys@.len(),
            ks == keys@.map_values(|v: Vec<char>| v@),
            last_index(ks, name@) == -1,
            first_match(ks, name@, 0) == first_match(ks, name@, i as int),
        decreases keys.len() - i,
    {
        proof {
            assert(ks[i as int] == keys@[i as int]@);
        }
        if ends_with_member_exec(&keys[i], name) || crate::text::chars_eq(&keys[i], name) {
            return Some(i);
        }
        i += 1;
    }
    None
}

fn class_key_chars(xs: &Vec<ClassDef>) -> (r: Vec<Vec<char>>)
    ensures
        r@.map_values(|v: Vec<char>| v@) == class_keys(xs@.map_values(|c: ClassDef| c@)),
{
    let mut r: Vec<Vec<char>> = Vec::new();
    let mut i: usize = 0;
    while i < xs.len()
        invariant
            i <= xs@.len(),
            r@.len() == i,
            forall|k: int| 0 <= k < i ==> (#[trigger] r@[k])@ == xs@[k].qualified_name@,
        decreases xs.len() - i,
    {
        r.push(crate::text::chars_of(xs[i].qualified_name.as_str()));
        i += 1;
    }
    proof {
        assert(r@.map_values(|v: Vec<char>| v@) =~= class_keys(xs@.map_values(|c: ClassDef| c@)));
    }
    r
}

fn struct_key_chars(xs: &Vec<StructDef>) -> (r: Vec<Vec<char>>)
    ensures
        r@.map_values(|v: Vec<char>| v@) == struct_keys(xs@.map_values(|c: StructDef| c@)),
{
    let mut r: Vec<Vec<char>> = Vec::new();
    let mut i: usize = 0;
    while i < xs.len()
        invariant
            i <= xs@.len(),
            r@.len() == i,
            forall|k: int| 0 <= k < i ==> (#[trigger] r@[k])@ == xs@[k].qualified_name@,
        decreases xs.len() - i,
    {
        r.push(crate::text::chars_of(xs[i].qualified_name.as_str()));
        i += 1;
    }
    proof {
        assert(r@.map_values(|v: Vec<char>| v@) =~= struct_keys(xs@.map_values(|c: StructDef| c@)));
    }
    r
}

/// The static fields among `fields` of the class or struct `qn`, under their keys, with the
/// expressions that give their first values.
pub open spec fn static_slots_of(fields: Seq<FieldView>, qn: Seq<char>) -> Seq<(Seq<char>, Option<Tree>)>
    decreases fields.len(),
{
    if fields.len() == 0 {
        Seq::empty()
    } else {
        let rest = static_slots_of(fields.drop_last(), qn);
        let f = fields.last();
        if f.is_static {
            rest.push((qn + "::"@ + f.name, f.default_value))
        } else {
            rest
        }
    }
}

/// The static fields of the classes, in order.
pub open spec fn class_slots(cs: Seq<ClassView>) -> Seq<(Seq<char>, Option<Tree>)>
    decreases cs.len(),
{
    if cs.len() == 0 {
        Seq::empty()
    } else {
        class_slots(cs.drop_last()) + static_slots_of(cs.last().fields, cs.last().qualified_name)
    }
}

/// The static fields of the structs, in order.
pub open spec fn struct_slots(ss: Seq<StructView>) -> Seq<(Seq<char>, Option<Tree>)>
    decreases ss.len(),
{
    if ss.len() == 0 {
        Seq::empty()
    } else {
        struct_slots(ss.drop_last()) + static_slots_of(ss.last().fields, ss.last().qualified_name)
    }
}

/// Keys and first-value expressions as plain values.
pub open spec fn slots_view(r: Seq<(String, Option<AstNode>)>) -> Seq<(Seq<char>, Option<Tree>)>
    decreases r.len(),
{
    if r.len() == 0 {
        Seq::empty()
    } else {
        slots_view(r.drop_last()).push(
            (
                r.last().0@,
                match r.last().1 {
                    Some(n) => Some(tree(n)),
                    None => None,
                },
            ),
        )
    }
}

proof fn lemma_slots_view_push(r: Seq<(String, Option<AstNode>)>, x: (String, Option<AstNode>))
    ensures
        slots_view(r.push(x)) == slots_view(r).push(
            (
                x.0@,
                match x.1 {
                    Some(n) => Some(tree(n)),
                    None => None,
                },
            ),
        ),
{
    assert(r.push(x).drop_last() =~= r);
}

/// Appends the static fields among `fields` of `qn` to `r`.
fn push_static_slots(r: &mut Vec<(String, Option<AstNode>)>, fields: &Vec<FieldDef>, qn: &String)
    ensures
        slots_view(final(r)@) == slots_view(old(r)@) + static_slots_of(fields_view(fields@), qn@),
{
    let ghost fv = fields_view(fields@);
    let mut k: usize = 0;
    proof {
        assert(fv.take(0) =~= Seq::<FieldView>::empty());
        assert(slots_view(old(r)@) + static_slots_of(fv.take(0), qn@) =~= slots_view(old(r)@));
    }
    while k < fields.len()
        invariant
            k <= fields@.len(),
            fv == fields_view(fields@),
            slots_view(r@) == slots_view(old(r)@) + static_slots_of(fv.take(k as int), qn@),
        decreases fields.len() - k,
    {
        let f = &fields[k];
        proof {
            assert(fv.take(k + 1).drop_last() =~= fv.take(k as int));
            assert(fv.take(k + 1).last() == f@);
        }
        if f.is_static {
            let key = crate::text::concat(crate::text::concat(qn.clone(), "::"), f.name.as_str());
            let d = match &f.default_value {
                Some(n) => Some(clone_node(n)),
                None => None,
            };
            let ghost x = (key, d);
            proof {
                lemma_slots_view_push(r@, x);
            }
            r.push((key, d));
            proof {
                assert(slots_view(r@) =~= slots_view(old(r)@) + static_slots_of(fv.take(k + 1), qn@));
            }
        }
        k += 1;
    }
    proof {
        assert(fv.take(fields@.len() as int) =~= fv);
    }
}

fn enum_key_chars(xs: &Vec<EnumDef>) -> (r: Vec<Vec<char>>)
    ensures
        r@.map_values(|v: Vec<char>| v@) == enum_keys(xs@.map_values(|e: EnumDef| e@)),
{
    let mut r: Vec<Vec<char>> = Vec::new();
    let mut i: usize = 0;
    while i < xs.len()
        invariant
            i <= xs@.len(),
            r@.len() == i,
            forall|k: int| 0 <= k < i ==> (#[trigger] r@[k])@ == xs@[k].name@,
        decreases xs.len() - i,
    {
        r.push(crate::text::chars_of(xs[i].name.as_str()));
        i += 1;
    }
    proof {
        assert(r@.map_values(|v: Vec<char>| v@) =~= enum_keys(xs@.map_values(|e: EnumDef| e@)));
    }
    r
}

fn field_key_chars(xs: &Vec<FieldDef>) -> (r: Vec<Vec<char>>)
    ensures
        r@.map_values(|v: Vec<char>| v@) == field_keys(fields_view(xs@)),
{
    let mut r: Vec<Vec<char>> = Vec::new();
    let mut i: usize = 0;
    while i < xs.len()
        invariant
            i <= xs@.len(),
            r@.len() == i,
            forall|k: int| 0 <= k < i ==> (#[trigger] r@[k])@ == xs@[k].name@,
        decreases xs.len() - i,
    {
        r.push(crate::text::chars_of(xs[i].name.as_str()));
        i += 1;
    }
    proof {
        assert(r@.map_values(|v: Vec<char>| v@) =~= field_keys(fields_view(xs@)));
    }
    r
}

/// The field among `fields` named `name`.
pub fn field_named<'a>(fields: &'a Vec<FieldDef>, name: &str) -> (r: Option<&'a FieldDef>)
    ensures
        last_index(field_keys(fields_view(fields@)), name@) >= 0 ==> (r matches Some(f) && f@
            == fields_view(fields@)[last_index(field_keys(fields_view(fields@)), name@)]),
        last_index(field_keys(fields_view(fields@)), name@) < 0 ==> r is None,
{
    let keys = field_key_chars(fields);
    let nv = crate::text::chars_of(name);
    match last_key(&keys, &nv) {
        Some(j) => Some(&fields[j]),
        None => None,
    }
}

fn method_key_chars(xs: &Vec<MethodDef>) -> (r: Vec<Vec<char>>)
    ensures
        r@.map_values(|v: Vec<char>| v@) == method_keys(methods_view(xs@)),
{
    let mut r: Vec<Vec<char>> = Vec::new();
    let mut i: usize = 0;
    while i < xs.len()
        invariant
            i <= xs@.len(),
            r@.len() == i,
            forall|k: int| 0 <= k < i ==> (#[trigger] r@[k])@ == xs@[k].name@,
        decreases xs.len() - i,
    {
        r.push(crate::text::chars_of(xs[i].name.as_str()));
        i += 1;
    }
    proof {
        assert(r@.map_values(|v: Vec<char>| v@) =~= method_keys(methods_view(xs@)));
    }
    r
}

} // verus!

verus! {

impl Registry {
    /// The class `name` refers to: the class with that qualified name, else the first whose
    /// qualified name ends with `::name` (see `resolve_index`).
    pub fn resolve_class(&self, name: &str) -> (r: Option<&ClassDef>)
        ensures
            resolve_index(class_keys(self@.classes), name@) >= 0 ==> (r matches Some(c) && c@
                == self@.classes[resolve_index(class_keys(self@.classes), name@)]),
            resolve_index(class_keys(self@.classes), name@) < 0 ==> r is None,
    {
        let keys = class_key_chars(&self.classes);
        let nv = crate::text::chars_of(name);
        match resolve_key(&keys, &nv) {
            Some(j) => Some(&self.classes[j]),
            None => None,
        }
    }

    /// The struct `name` refers to, resolved as for classes.
    pub fn resolve_struct(&self, name: &str) -> (r: Option<&StructDef>)
        ensures
            resolve_index(struct_keys(self@.structs), name@) >= 0 ==> (r matches Some(s) && s@
                == self@.structs[resolve_index(struct_keys(self@.structs), name@)]),
            resolve_index(struct_keys(self@.structs), name@) < 0 ==> r is None,
    {
        let keys = struct_key_chars(&self.structs);
        let nv = crate::text::chars_of(name);
        match resolve_key(&keys, &nv) {
            Some(j) => Some(&self.structs[j]),
            None => None,
        }
    }

    /// The static fields of the classes, then of the structs, in the order registered, each
    /// under the key `Qualified::field` that holds its value while a program runs, with the
    /// expression that gives its first value, if any.
    pub fn static_fields(&self) -> (r: Vec<(String, Option<AstNode>)>)
        ensures
            slots_view(r@) == class_slots(self@.classes) + struct_slots(self@.structs),
    {
        let mut r: Vec<(String, Option<AstNode>)> = Vec::new();
        let mut i: usize = 0;
        while i < self.classes.len()
            invariant
                i <= self.classes@.len(),
                slots_view(r@) == class_slots(self@.classes.take(i as int)),
                self@.classes == self.classes@.map_values(|c: ClassDef| c@),
            decreases self.classes.len() - i,
        {
            let c = &self.classes[i];
            push_static_slots(&mut r, &c.fields, &c.qualified_name);
            i += 1;
            proof {
                assert(self@.classes.take(i as int).drop_last() =~= self@.classes.take(i - 1));
            }
        }
        proof {
            assert(self@.classes.take(self@.classes.len() as int) =~= self@.classes);
        }
        let ghost cs = slots_view(r@);
        let mut j: usize = 0;
        while j < self.structs.len()
            invariant
                j <= self.structs@.len(),
                slots_view(r@) == cs + struct_slots(self@.structs.take(j as int)),
                cs == class_slots(self@.classes),
                self@.structs == self.structs@.map_values(|s: StructDef| s@),
            decreases self.structs.len() - j,
        {
            let s = &self.structs[j];
            push_static_slots(&mut r, &s.fields, &s.qualified_name);
            j += 1;
            proof {
                assert(self@.structs.take(j as int).drop_last() =~= self@.structs.take(j - 1));
                assert(cs + struct_slots(self@.structs.take(j as int)) =~= cs + struct_slots(
                    self@.structs.take(j - 1),
                ) + static_slots_of(self@.structs[j - 1].fields, self@.structs[j - 1].qualified_name));
            }
        }
        proof {
            assert(self@.structs.take(self@.structs.len() as int) =~= self@.structs);
        }
        r
    }

    /// Whether a class or struct (by qualified name) or an enum (by name) is registered under
    /// exactly this name.
    pub fn declares(&self, name: &str) -> (r: bool)
        ensures
            r == (last_index(class_keys(self@.classes), name@) >= 0 || last_index(
                struct_keys(self@.structs),
                name@,
            ) >= 0 || last_index(enum_keys(self@.enums), name@) >= 0),
    {
        let nv = crate::text::chars_of(name);
        let ck = class_key_chars(&self.classes);
        if last_key(&ck, &nv).is_some() {
            return true;
        }
        let sk = struct_key_chars(&self.structs);
        if last_key(&sk, &nv).is_some() {
            return true;
        }
        let ek = enum_key_chars(&self.enums);
        last_key(&ek, &nv).is_some()
    }

    /// The enum registered under exactly this name.
    pub fn enum_named(&self, name: &str) -> (r: Option<&EnumDef>)
        ensures
            last_index(enum_keys(self@.enums), name@) >= 0 ==> (r matches Some(e) && e@
                == self@.enums[last_index(enum_keys(self@.enums), name@)]),
            last_index(enum_keys(self@.enums), name@) < 0 ==> r is None,
    {
        let keys = enum_key_chars(&self.enums);
        let nv = crate::text::chars_of(name);
        match last_key(&keys, &nv) {
            Some(j) => Some(&self.enums[j]),
            None => None,
        }
    }

    /// Looks a method up in `start_class` and then in its base classes, in turn. A chain of base
    /// classes that comes back to a class already visited is given up after as many steps as
    /// there are classes (see `method_lookup`).
    pub fn resolve_class_method(&self, start_class: &str, method_name: &str) -> (r: Option<
        (&ClassDef, &MethodDef),
    >)
        ensures
            match method_lookup(
                self@.classes,
                start_class@,
                method_name@,
                (self@.classes.len() + 1) as nat,
            ) {
                Some((ci, mi)) => r matches Some((c, m)) && c@ == self@.classes[ci] && m@
                    == self@.classes[ci].methods[mi],
                None => r is None,
            },
    {
        let keys = class_key_chars(&self.classes);
        let mv = crate::text::chars_of(method_name);
        let mut current = crate::text::chars_of(start_class);
        let ghost cs = self@.classes;
        let ghost total = (cs.len() + 1) as nat;
        let mut remaining: usize = self.classes.len();
        loop
            invariant
                cs == self@.classes,
                mv@ == method_name@,
                total == cs.len() + 1,
                keys@.map_values(|v: Vec<char>| v@) == class_keys(cs),
                remaining <= cs.len(),
                method_lookup(cs, start_class@, mv@, total) == method_lookup(
                    cs,
                    current@,
                    mv@,
                    (remaining + 1) as nat,
                ),
            decreases remaining,
        {
            let ci = match resolve_key(&keys, &current) {
                Some(j) => j,
                None => {
                    return None;
                },
            };
            let cls = &self.classes[ci];
            proof {
                assert(cs[ci as int] == cls@);
            }
            let mkeys = method_key_chars(&cls.methods);
            match last_key(&mkeys, &mv) {
                Some(mi) => {
                    proof {
                        assert(cls@.methods[mi as int] == cls.methods@[mi as int]@);
                        assert(method_lookup(cs, current@, mv@, (remaining + 1) as nat) == Some(
                            (ci as int, mi as int),
                        ));
                    }
                    return Some((cls, &cls.methods[mi]));
                },
                None => {},
            }
            let ghost prev = current@;
            match &cls.base_class {
                Some(b) => {
                    current = crate::text::chars_of(b.as_str());
                    proof {
                        assert(cs[ci as int].base_class == Some(b@));
                        assert(method_lookup(cs, prev, mv@, (remaining + 1) as nat)
                            == method_lookup(cs, current@, mv@, remaining as nat));
                    }
                },
                None => {
                    return None;
                },
            }
            if remaining == 0 {
                return None;
            }
            remaining -= 1;
        }
    }

    /// Checks that the program has an entry point: the first class named `entry_class` must be
    /// public and static and have a public static method `entry_method`, which with `with_args`
    /// must take `params string[] args` last. Gives the class's qualified name (see
    /// `entry_point`).
    pub fn find_entry_point(&self, entry_class: &str, entry_method: &str, with_args: bool) -> (r:
        Result<String, crate::error::IshError>)
        ensures
            match r {
                Ok(qn) => entry_point(
                    self@.classes,
                    entry_class@,
                    entry_method@,
                    with_args,
                ) == Ok::<Seq<char>, Seq<char>>(qn@),
                Err(e) => e is ParseError && entry_point(
                    self@.classes,
                    entry_class@,
                    entry_method@,
                    with_args,
                ) == Err::<Seq<char>, Seq<char>>(e.message()),
            },
    {
        let ghost cs = self@.classes;
        let ec = crate::text::chars_of(entry_class);
        let mut i: usize = 0;
        while i < self.classes.len()
            invariant
                cs == self@.classes,
                ec@ == entry_class@,
                i <= cs.len(),
                first_named(cs, entry_class@, 0) == first_named(cs, entry_class@, i as int),
            decreases self.classes.len() - i,
        {
            let cls = &self.classes[i];
            proof {
                assert(cs[i as int] == cls@);
            }
            if crate::text::chars_eq(&crate::text::chars_of(cls.name.as_str()), &ec) {
                let qn = cls.qualified_name.as_str();
                if !cls.is_static {
                    let m = concat(concat(lit("Entry point class '"), qn), "' must be declared as 'static'.");
                    return Err(IshError::ParseError(m));
                }
                if cls.access != AccessSpecifier::Public {
                    let m = concat(concat(lit("Entry point class '"), qn), "' must be declared as 'public'.");
                    return Err(IshError::ParseError(m));
                }
                let mkeys = method_key_chars(&cls.methods);
                let emv = crate::text::chars_of(entry_method);
                match last_key(&mkeys, &emv) {
                    Some(mi) => {
                        let method = &cls.methods[mi];
                        proof {
                            assert(method@ == cs[i as int].methods[mi as int]);
                        }
                        if !method.is_static {
                            let m = concat(concat(lit("Entry point method '"), entry_method), "' must be declared as 'static'.");
                            return Err(IshError::ParseError(m));
                        }
                        if method.access != AccessSpecifier::Public {
                            let m = concat(concat(lit("Entry point method '"), entry_method), "' must be declared as 'public'.");
                            return Err(IshError::ParseError(m));
                        }
                        if with_args {
                            let ok = if method.params.len() == 1 {
                                let p = &method.params[0];
                                proof {
                                    crate::lang::tree::lemma_param_trees_len(method.params@);
                                    crate::lang::tree::lemma_param_trees_index(method.params@, 0);
                                    assert(param_tree(*p) == method@.params[0]);
                                }
                                p.is_variadic && crate::text::string_eq_str(&p.name, "args")
                                    && match &p.type_specifier {
                                    Some(t) => crate::text::string_eq_str(t, "string[]"),
                                    None => false,
                                }
                            } else {
                                proof {
                                    crate::lang::tree::lemma_param_trees_len(method.params@);
                                }
                                false
                            };
                            if !ok {
                                let m = concat(concat(lit("Entry point method '"), entry_method), "' must have the 'params string[] args' signature.");
                                return Err(IshError::ParseError(m));
                            }
                        }
                        return Ok(cls.qualified_name.clone());
                    },
                    None => {
                        let m = concat(concat(concat(concat(lit("Entry point class '"), qn), "' must contain a 'public static func "), entry_method), "' method.");
                        return Err(IshError::ParseError(m));
                    },
                }
            }
            i += 1;
        }
        let m = concat(concat(lit("Entry point class '"), entry_class), "' not found.");
        Err(IshError::ParseError(m))
    }

    /// Access control: public and internal members are open to all; protected and private ones
    /// only to code of the same class.
    pub fn check_access(access: &AccessSpecifier, caller_class: Option<&str>, target_class: &str) -> (r:
        Result<(), crate::error::IshError>)
        ensures
            r is Ok <==> (*access == AccessSpecifier::Public || *access == AccessSpecifier::Internal
                || (caller_class matches Some(c) && c@ == target_class@)),
            r matches Err(e) ==> e is ExecutionError && e.message() == (if *access
                == AccessSpecifier::Protected {
                "Cannot access protected member of '"@ + target_class@
                    + "' from outside its class hierarchy."@
            } else {
                "Cannot access private member of '"@ + target_class@ + "' from outside its class."@
            }),
    {
        let same = match caller_class {
            Some(c) => crate::text::chars_eq(&crate::text::chars_of(c), &crate::text::chars_of(target_class)),
            None => false,
        };
        match access {
            AccessSpecifier::Public => Ok(()),
            AccessSpecifier::Internal => Ok(()),
            AccessSpecifier::Protected => {
                if same {
                    Ok(())
                } else {
                    Err(IshError::ExecutionError(concat(concat(lit("Cannot access protected member of '"), target_class), "' from outside its class hierarchy.")))
                }
            },
            AccessSpecifier::Private => {
                if same {
                    Ok(())
                } else {
                    Err(IshError::ExecutionError(concat(concat(lit("Cannot access private member of '"), target_class), "' from outside its class.")))
                }
            },
        }
    }

    /// Whether a file has already been loaded for an import.
    pub fn is_loaded(&self, path: &String) -> (r: bool)
        ensures
            r == self@.loaded_files.contains(path@),
    {
        let mut i: usize = 0;
        while i < self.loaded_files.len()
            invariant
                i <= self.loaded_files@.len(),
                forall|k: int| 0 <= k < i ==> self.loaded_files@[k]@ != path@,
            decreases self.loaded_files.len() - i,
        {
            if self.loaded_files[i] == *path {
                proof {
                    assert(self@.loaded_files[i as int] == path@);
                }
                return true;
            }
            i += 1;
        }
        false
    }

    /// Records that a file has been loaded for an import.
    pub fn mark_loaded(&mut self, path: String)
        ensures
            final(self)@ == (RegistryView {
                loaded_files: old(self)@.loaded_files.push(path@),
                ..old(self)@
            }),
    {
        let ghost pv = path@;
        self.loaded_files.push(path);
        proof {
            assert(self@.loaded_files =~= old(self)@.loaded_files.push(pv));
        }
    }

    /// Hands out the imports recorded so far, and forgets them.
    pub fn take_imports(&mut self) -> (r: Vec<String>)
        ensures
            strings_view(r@) == old(self)@.imports,
            final(self)@ == (RegistryView { imports: Seq::empty(), ..old(self)@ }),
    {
        let mut r: Vec<String> = Vec::new();
        std::mem::swap(&mut r, &mut self.imports);
        proof {
            assert(self@.imports =~= Seq::empty());
        }
        r
    }
}

/// Whether `node` declares the namespace `target`, itself or in a namespace or `if` branch
/// nested in it.
pub fn node_contains_namespace(node: &AstNode, target: &str) -> (r: bool)
    ensures
        r == contains_namespace(*node, target@),
    decreases node, 0nat,
{
    match &node.kind {
        AstNodeKind::NamespaceDecl { name, body } => {
            if crate::text::string_eq_str(name, target) {
                return true;
            }
            nodes_contain_namespace(body, target)
        },
        AstNodeKind::If { body, else_body, .. } => {
            if nodes_contain_namespace(body, target) {
                return true;
            }
            match else_body {
                Some(e) => nodes_contain_namespace(e, target),
                None => false,
            }
        },
        _ => false,
    }
}

fn nodes_contain_namespace(nodes: &Vec<AstNode>, target: &str) -> (r: bool)
    ensures
        r == contains_namespace_in(nodes@, nodes@.len(), target@),
    decreases nodes, 1nat,
{
    let mut i: usize = nodes.len();
    while i > 0
        invariant
            i <= nodes@.len(),
            contains_namespace_in(nodes@, nodes@.len(), target@) == contains_namespace_in(
                nodes@,
                i as nat,
                target@,
            ),
        decreases i,
    {
        proof {
            assert(decreases_to!(nodes => nodes@[i - 1]));
        }
        if node_contains_namespace(&nodes[i - 1], target) {
            return true;
        }
        i -= 1;
    }
    false
}

} // verus!

verus! {

/// Classes and structs are kept by qualified name and enums by name, each at most once.
pub open spec fn keys_distinct(rv: RegistryView) -> bool {
    &&& distinct(class_keys(rv.classes))
    &&& distinct(struct_keys(rv.structs))
    &&& distinct(enum_keys(rv.enums))
}

pub(crate) proof fn lemma_last_index(keys: Seq<Seq<char>>, k: Seq<char>)
    ensures
        -1 <= last_index(keys, k) < keys.len(),
        last_index(keys, k) >= 0 ==> keys[last_index(keys, k)] == k,
        last_index(keys, k) == -1 ==> forall|i: int| 0 <= i < keys.len() ==> keys[i] != k,
    decreases keys.len(),
{
    if keys.len() > 0 {
        lemma_last_index(keys.drop_last(), k);
        if last_index(keys, k) == -1 {
            assert forall|i: int| 0 <= i < keys.len() implies keys[i] != k by {
                if i < keys.len() - 1 {
                    assert(keys.drop_last()[i] == keys[i]);
                }
            }
        }
    }
}

proof fn lemma_put_distinct(keys: Seq<Seq<char>>, k: Seq<char>, new_keys: Seq<Seq<char>>)
    requires
        distinct(keys),
        last_index(keys, k) >= 0 ==> new_keys == keys.update(last_index(keys, k), k),
        last_index(keys, k) < 0 ==> new_keys == keys.push(k),
    ensures
        distinct(new_keys),
{
    lemma_last_index(keys, k);
    if last_index(keys, k) >= 0 {
        assert(new_keys =~= keys);
    } else {
        assert forall|i: int, j: int| 0 <= i < j < new_keys.len() implies new_keys[i]
            != new_keys[j] by {
            if j == keys.len() {
                assert(keys[i] != k);
            }
        }
    }
}

/// Registering a program keeps every class, struct and enum key unique, as in a map.
pub proof fn lemma_declared_keeps_keys_distinct(rv: RegistryView, node: AstNode)
    requires
        keys_distinct(rv),
    ensures
        keys_distinct(declared(rv, node)),
    decreases node, 0nat,
{
    match node.kind {
        AstNodeKind::NamespaceDecl { name, body } => {
            let pushed = RegistryView { namespaces: rv.namespaces.push(name@), ..rv };
            lemma_declared_seq_keeps_keys_distinct(pushed, body@, body@.len());
        },
        AstNodeKind::ClassDecl {
            name,
            base_class,
            access,
            is_static,
            methods,
            fields,
            constructor,
            destructor,
        } => {
            let qn = qualified(rv.namespaces, name@);
            let c = ClassView {
                name: name@,
                qualified_name: qn,
                access,
                is_static,
                methods: methods_of(methods@),
                fields: fields_of(fields@),
                constructor: ctor_tree(constructor),
                destructor: opt_trees(destructor),
                base_class: opt_view(base_class),
            };
            let keys = class_keys(rv.classes);
            lemma_last_index(keys, qn);
            let new_keys = class_keys(put(rv.classes, keys, qn, c));
            if last_index(keys, qn) >= 0 {
                assert(new_keys =~= keys.update(last_index(keys, qn), qn));
            } else {
                assert(new_keys =~= keys.push(qn));
            }
            lemma_put_distinct(keys, qn, new_keys);
        },
        AstNodeKind::StructDecl { name, access, fields, constructor, destructor } => {
            let qn = qualified(rv.namespaces, name@);
            let st = StructView {
                name: name@,
                qualified_name: qn,
                access,
                fields: fields_of(fields@),
                constructor: ctor_tree(constructor),
                destructor: opt_trees(destructor),
            };
            let keys = struct_keys(rv.structs);
            lemma_last_index(keys, qn);
            let new_keys = struct_keys(put(rv.structs, keys, qn, st));
            if last_index(keys, qn) >= 0 {
                assert(new_keys =~= keys.update(last_index(keys, qn), qn));
            } else {
                assert(new_keys =~= keys.push(qn));
            }
            lemma_put_distinct(keys, qn, new_keys);
        },
        AstNodeKind::EnumDecl { name, access, variants } => {
            let e = EnumView {
                name: name@,
                qualified_name: enum_qualified(rv.namespaces, name@),
                access,
                variants: strings_view(variants@),
            };
            let keys = enum_keys(rv.enums);
            lemma_last_index(keys, name@);
            let new_keys = enum_keys(put(rv.enums, keys, name@, e));
            if last_index(keys, name@) >= 0 {
                assert(new_keys =~= keys.update(last_index(keys, name@), name@));
            } else {
                assert(new_keys =~= keys.push(name@));
            }
            lemma_put_distinct(keys, name@, new_keys);
        },
        AstNodeKind::If { body, else_body, .. } => {
            lemma_declared_seq_keeps_keys_distinct(rv, body@, body@.len());
            let after = declared_seq(rv, body@, body@.len());
            match else_body {
                Some(e) => {
                    lemma_declared_seq_keeps_keys_distinct(after, e@, e@.len());
                },
                None => {},
            }
        },
        _ => {},
    }
}

/// Registering a sequence of nodes keeps every key unique.
pub proof fn lemma_declared_seq_keeps_keys_distinct(rv: RegistryView, nodes: Seq<AstNode>, n: nat)
    requires
        keys_distinct(rv),
    ensures
        keys_distinct(declared_seq(rv, nodes, n)),
    decreases nodes, n,
{
    if n == 0 || n > nodes.len() {
    } else {
        lemma_declared_seq_keeps_keys_distinct(rv, nodes, (n - 1) as nat);
        lemma_declared_keeps_keys_distinct(declared_seq(rv, nodes, (n - 1) as nat), nodes[n - 1]);
    }
}

} // verus!

verus! {

/// A class that a program declares is found again under its qualified name, with its name.
pub proof fn lemma_declared_class_found(rv: RegistryView, node: AstNode)
    ensures
        match node.kind {
            AstNodeKind::ClassDecl { name, .. } => {
                let qn = qualified(rv.namespaces, name@);
                let cs = declared(rv, node).classes;
                let i = resolve_index(class_keys(cs), qn);
                &&& 0 <= i < cs.len()
                &&& cs[i].qualified_name == qn
                &&& cs[i].name == name@
            },
            _ => true,
        },
{
    match node.kind {
        AstNodeKind::ClassDecl {
            name,
            base_class,
            access,
            is_static,
            methods,
            fields,
            constructor,
            destructor,
        } => {
            let qn = qualified(rv.namespaces, name@);
            let c = ClassView {
                name: name@,
                qualified_name: qn,
                access,
                is_static,
                methods: methods_of(methods@),
                fields: fields_of(fields@),
                constructor: ctor_tree(constructor),
                destructor: opt_trees(destructor),
                base_class: opt_view(base_class),
            };
            let keys = class_keys(rv.classes);
            lemma_last_index(keys, qn);
            let cs = put(rv.classes, keys, qn, c);
            let j = last_index(keys, qn);
            if j >= 0 {
                assert(class_keys(cs) =~= keys);
            } else {
                assert(class_keys(cs) =~= keys.push(qn));
            }
        },
        _ => {},
    }
}

} // verus!
