use vstd::prelude::*;
use crate::lang::tree::{case_trees, entry_trees, param_tree, param_trees, tree, tree_kind, trees};

verus! {

/// Visibility of a declaration.
#[derive(Debug, Clone, Copy, PartialEq, Eq, Structural)]
pub enum AccessSpecifier {
    Public,
    Private,
    Protected,
    Internal,
}

/// A parameter of a function or constructor.
#[derive(Debug, PartialEq)]
pub struct Param {
    pub name: String,
    pub type_specifier: Option<String>,
    pub is_array: bool,
    pub is_variadic: bool,
    pub default_value: Option<Box<AstNode>>,
}

/// A node of the syntax tree, with the line and column where it starts.
#[derive(Debug, PartialEq)]
pub struct AstNode {
    pub kind: AstNodeKind,
    pub line: usize,
    pub column: usize,
}

impl AstNode {
    pub fn new(kind: AstNodeKind, line: usize, column: usize) -> (n: Self)
        ensures
            n.kind == kind,
            n.line == line,
            n.column == column,
    {
        AstNode { kind, line, column }
    }
}

/// The kinds of syntax tree nodes.
#[allow(inconsistent_fields)]
#[derive(Debug, PartialEq)]
pub enum AstNodeKind {
    /// String literal (also numbers, `true`, `false` and `null`, kept as their text).
    StringLiteral(String),
    CharLiteral(char),
    /// Variable reference.
    Variable(String),
    If { condition: Box<AstNode>, body: Vec<AstNode>, else_body: Option<Vec<AstNode>> },
    For { variable: String, iterable: Box<AstNode>, body: Vec<AstNode> },
    Assignment {
        type_specifier: Option<String>,
        variable: String,
        index: Option<Box<AstNode>>,
        value: Box<AstNode>,
        is_declaration: bool,
    },
    BinaryOp { left: Box<AstNode>, operator: String, right: Box<AstNode> },
    UnaryOp { operator: String, operand: Box<AstNode> },
    TernaryOp { condition: Box<AstNode>, true_value: Box<AstNode>, false_value: Box<AstNode> },
    While { condition: Box<AstNode>, body: Vec<AstNode> },
    Function {
        name: String,
        params: Vec<Param>,
        body: Vec<AstNode>,
        access: AccessSpecifier,
        is_static: bool,
    },
    TryCatch { try_body: Vec<AstNode>, error_var: String, catch_body: Vec<AstNode> },
    Return(Box<AstNode>),
    Break,
    Continue,
    Array(Vec<AstNode>),
    /// Map literal (`Map({"k": v}, ...)`).
    MapLiteral(Vec<(String, AstNode)>),
    NamespaceDecl { name: String, body: Vec<AstNode> },
    ClassDecl {
        name: String,
        base_class: Option<String>,
        access: AccessSpecifier,
        is_static: bool,
        methods: Vec<AstNode>,
        fields: Vec<AstNode>,
        constructor: Option<(AccessSpecifier, Vec<Param>, Vec<AstNode>)>,
        destructor: Option<Vec<AstNode>>,
    },
    StructDecl {
        name: String,
        access: AccessSpecifier,
        fields: Vec<AstNode>,
        constructor: Option<(AccessSpecifier, Vec<Param>, Vec<AstNode>)>,
        destructor: Option<Vec<AstNode>>,
    },
    FieldDecl {
        name: String,
        type_specifier: Option<String>,
        access: AccessSpecifier,
        is_static: bool,
        default_value: Option<Box<AstNode>>,
    },
    EnumDecl { name: String, access: AccessSpecifier, variants: Vec<String> },
    WithImport { path: String },
    /// Object instantiation (`new ClassName(args)`, optionally with an initializer block).
    ObjectInstantiation {
        class_name: String,
        args: Vec<AstNode>,
        initializer: Option<Vec<AstNode>>,
    },
    MethodCall { object: Box<AstNode>, method_name: String, args: Vec<AstNode> },
    PropertyAccess { object: Box<AstNode>, property_name: String },
    IndexAccess { object: Box<AstNode>, index: Box<AstNode> },
    Switch {
        expression: Box<AstNode>,
        cases: Vec<(AstNode, Vec<AstNode>)>,
        default_case: Option<Vec<AstNode>>,
    },
    /// Interpolated string (`$"value is {val}"`): its literal pieces and embedded values.
    InterpolatedString(Vec<AstNode>),
    /// A `key: value` entry of an initializer block.
    KeyValuePair { key: Box<AstNode>, value: Box<AstNode> },
}

/// Declarations: the nodes that may not stand inside a method or block.
pub open spec fn is_declaration(k: AstNodeKind) -> bool {
    ||| k is Function
    ||| k is ClassDecl
    ||| k is StructDecl
    ||| k is EnumDecl
    ||| k is FieldDecl
}

/// The nodes that may stand at the top level of a program.
pub open spec fn is_top_level(k: AstNodeKind) -> bool {
    ||| is_declaration(k)
    ||| k is WithImport
    ||| k is NamespaceDecl
}

/// The nodes that an expression evaluates to.
pub open spec fn is_expression(k: AstNodeKind) -> bool {
    ||| k is StringLiteral
    ||| k is CharLiteral
    ||| k is Variable
    ||| k is BinaryOp
    ||| k is UnaryOp
    ||| k is TernaryOp
    ||| k is Array
    ||| k is MapLiteral
    ||| k is ObjectInstantiation
    ||| k is MethodCall
    ||| k is PropertyAccess
    ||| k is IndexAccess
    ||| k is InterpolatedString
}

fn clone_kind(k: &AstNodeKind) -> (r: AstNodeKind)
    ensures
        tree_kind(r) == tree_kind(*k),
    decreases k,
{
    match k {
        AstNodeKind::StringLiteral(a) => AstNodeKind::StringLiteral(a.clone()),
        AstNodeKind::CharLiteral(a) => AstNodeKind::CharLiteral(*a),
        AstNodeKind::Variable(a) => AstNodeKind::Variable(a.clone()),
        AstNodeKind::If { condition, body, else_body } => AstNodeKind::If { condition: Box::new(clone_node(&**condition)), body: clone_nodes(body), else_body: clone_opt_nodes(else_body) },
        AstNodeKind::For { variable, iterable, body } => AstNodeKind::For { variable: variable.clone(), iterable: Box::new(clone_node(&**iterable)), body: clone_nodes(body) },
        AstNodeKind::Assignment { type_specifier, variable, index, value, is_declaration } => AstNodeKind::Assignment { type_specifier: clone_opt_string(type_specifier), variable: variable.clone(), index: clone_opt_box(index), value: Box::new(clone_node(&**value)), is_declaration: *is_declaration },
        AstNodeKind::BinaryOp { left, operator, right } => AstNodeKind::BinaryOp { left: Box::new(clone_node(&**left)), operator: operator.clone(), right: Box::new(clone_node(&**right)) },
        AstNodeKind::UnaryOp { operator, operand } => AstNodeKind::UnaryOp { operator: operator.clone(), operand: Box::new(clone_node(&**operand)) },
        AstNodeKind::TernaryOp { condition, true_value, false_value } => AstNodeKind::TernaryOp { condition: Box::new(clone_node(&**condition)), true_value: Box::new(clone_node(&**true_value)), false_value: Box::new(clone_node(&**false_value)) },
        AstNodeKind::While { condition, body } => AstNodeKind::While { condition: Box::new(clone_node(&**condition)), body: clone_nodes(body) },
        AstNodeKind::Function { name, params, body, access, is_static } => AstNodeKind::Function { name: name.clone(), params: clone_params(params), body: clone_nodes(body), access: *access, is_static: *is_static },
        AstNodeKind::TryCatch { try_body, error_var, catch_body } => AstNodeKind::TryCatch { try_body: clone_nodes(try_body), error_var: error_var.clone(), catch_body: clone_nodes(catch_body) },
        AstNodeKind::Return(a) => AstNodeKind::Return(Box::new(clone_node(&**a))),
        AstNodeKind::Break => AstNodeKind::Break,
        AstNodeKind::Continue => AstNodeKind::Continue,
        AstNodeKind::Array(a) => AstNodeKind::Array(clone_nodes(a)),
        AstNodeKind::MapLiteral(a) => AstNodeKind::MapLiteral(clone_entries(a)),
        AstNodeKind::NamespaceDecl { name, body } => AstNodeKind::NamespaceDecl { name: name.clone(), body: clone_nodes(body) },
        AstNodeKind::ClassDecl { name, base_class, access, is_static, methods, fields, constructor, destructor } => AstNodeKind::ClassDecl { name: name.clone(), base_class: clone_opt_string(base_class), access: *access, is_static: *is_static, methods: clone_nodes(methods), fields: clone_nodes(fields), constructor: clone_ctor(constructor), destructor: clone_opt_nodes(destructor) },
        AstNodeKind::StructDecl { name, access, fields, constructor, destructor } => AstNodeKind::StructDecl { name: name.clone(), access: *access, fields: clone_nodes(fields), constructor: clone_ctor(constructor), destructor: clone_opt_nodes(destructor) },
        AstNodeKind::FieldDecl { name, type_specifier, access, is_static, default_value } => AstNodeKind::FieldDecl { name: name.clone(), type_specifier: clone_opt_string(type_specifier), access: *access, is_static: *is_static, default_value: clone_opt_box(default_value) },
        AstNodeKind::EnumDecl { name, access, variants } => AstNodeKind::EnumDecl { name: name.clone(), access: *access, variants: clone_strings(variants) },
        AstNodeKind::WithImport { path } => AstNodeKind::WithImport { path: path.clone() },
        AstNodeKind::ObjectInstantiation { class_name, args, initializer } => AstNodeKind::ObjectInstantiation { class_name: class_name.clone(), args: clone_nodes(args), initializer: clone_opt_nodes(initializer) },
        AstNodeKind::MethodCall { object, method_name, args } => AstNodeKind::MethodCall { object: Box::new(clone_node(&**object)), method_name: method_name.clone(), args: clone_nodes(args) },
        AstNodeKind::PropertyAccess { object, property_name } => AstNodeKind::PropertyAccess { object: Box::new(clone_node(&**object)), property_name: property_name.clone() },
        AstNodeKind::IndexAccess { object, index } => AstNodeKind::IndexAccess { object: Box::new(clone_node(&**object)), index: Box::new(clone_node(&**index)) },
        AstNodeKind::Switch { expression, cases, default_case } => AstNodeKind::Switch { expression: Box::new(clone_node(&**expression)), cases: clone_cases(cases), default_case: clone_opt_nodes(default_case) },
        AstNodeKind::InterpolatedString(a) => AstNodeKind::InterpolatedString(clone_nodes(a)),
        AstNodeKind::KeyValuePair { key, value } => AstNodeKind::KeyValuePair { key: Box::new(clone_node(&**key)), value: Box::new(clone_node(&**value)) },
    }
}

pub(crate) fn clone_node(n: &AstNode) -> (r: AstNode)
    ensures
        r.line == n.line,
        r.column == n.column,
        tree(r) == tree(*n),
    decreases n,
{
    AstNode { kind: clone_kind(&n.kind), line: n.line, column: n.column }
}

pub(crate) fn clone_nodes(v: &Vec<AstNode>) -> (r: Vec<AstNode>)
    ensures
        r@.len() == v@.len(),
        trees(r@) == trees(v@),
    decreases v,
{
    let mut r: Vec<AstNode> = Vec::new();
    let mut i: usize = 0;
    proof {
        assert(r@ =~= v@.take(0));
    }
    while i < v.len()
        invariant
            i <= v.len(),
            r@.len() == i,
            trees(r@) == trees(v@.take(i as int)),
        decreases v.len() - i,
    {
        proof {
            assert(decreases_to!(v => v@[i as int]));
        }
        let c = clone_node(&v[i]);
        let ghost r0 = r@;
        r.push(c);
        proof {
            assert(r@.drop_last() =~= r0);
            assert(v@.take(i + 1).drop_last() =~= v@.take(i as int));
        }
        i += 1;
    }
    proof {
        assert(v@.take(v@.len() as int) =~= v@);
    }
    r
}

pub(crate) fn clone_opt_nodes(o: &Option<Vec<AstNode>>) -> (r: Option<Vec<AstNode>>)
    ensures
        r is Some == o is Some,
        r matches Some(a) ==> trees(a@) == trees(o->0@),
    decreases o,
{
    match o {
        Some(v) => Some(clone_nodes(v)),
        None => None,
    }
}

pub(crate) fn clone_opt_string(o: &Option<String>) -> (r: Option<String>)
    ensures
        r == *o,
{
    match o {
        Some(s) => Some(s.clone()),
        None => None,
    }
}

fn clone_opt_box(o: &Option<Box<AstNode>>) -> (r: Option<Box<AstNode>>)
    ensures
        r is Some == o is Some,
        r matches Some(a) ==> tree(*a) == tree(*o->0),
    decreases o,
{
    match o {
        Some(b) => Some(Box::new(clone_node(&**b))),
        None => None,
    }
}

fn clone_param(p: &Param) -> (r: Param)
    ensures
        param_tree(r) == param_tree(*p),
    decreases p,
{
    Param {
        name: p.name.clone(),
        type_specifier: clone_opt_string(&p.type_specifier),
        is_array: p.is_array,
        is_variadic: p.is_variadic,
        default_value: clone_opt_box(&p.default_value),
    }
}

pub(crate) fn clone_params(v: &Vec<Param>) -> (r: Vec<Param>)
    ensures
        r@.len() == v@.len(),
        param_trees(r@) == param_trees(v@),
    decreases v,
{
    let mut r: Vec<Param> = Vec::new();
    let mut i: usize = 0;
    proof {
        assert(r@ =~= v@.take(0));
    }
    while i < v.len()
        invariant
            i <= v.len(),
            r@.len() == i,
            param_trees(r@) == param_trees(v@.take(i as int)),
        decreases v.len() - i,
    {
        proof {
            assert(decreases_to!(v => v@[i as int]));
        }
        let c = clone_param(&v[i]);
        let ghost r0 = r@;
        r.push(c);
        proof {
            assert(r@.drop_last() =~= r0);
            assert(v@.take(i + 1).drop_last() =~= v@.take(i as int));
        }
        i += 1;
    }
    proof {
        assert(v@.take(v@.len() as int) =~= v@);
    }
    r
}

fn clone_entries(v: &Vec<(String, AstNode)>) -> (r: Vec<(String, AstNode)>)
    ensures
        r@.len() == v@.len(),
        entry_trees(r@) == entry_trees(v@),
    decreases v,
{
    let mut r: Vec<(String, AstNode)> = Vec::new();
    let mut i: usize = 0;
    proof {
        assert(r@ =~= v@.take(0));
    }
    while i < v.len()
        invariant
            i <= v.len(),
            r@.len() == i,
            entry_trees(r@) == entry_trees(v@.take(i as int)),
        decreases v.len() - i,
    {
        proof {
            assert(decreases_to!(v => v@[i as int]));
            assert(decreases_to!(v@[i as int] => v@[i as int].1));
        }
        let c = (v[i].0.clone(), clone_node(&v[i].1));
        let ghost r0 = r@;
        r.push(c);
        proof {
            assert(r@.drop_last() =~= r0);
            assert(v@.take(i + 1).drop_last() =~= v@.take(i as int));
        }
        i += 1;
    }
    proof {
        assert(v@.take(v@.len() as int) =~= v@);
    }
    r
}

fn clone_cases(v: &Vec<(AstNode, Vec<AstNode>)>) -> (r: Vec<(AstNode, Vec<AstNode>)>)
    ensures
        r@.len() == v@.len(),
        case_trees(r@) == case_trees(v@),
    decreases v,
{
    let mut r: Vec<(AstNode, Vec<AstNode>)> = Vec::new();
    let mut i: usize = 0;
    proof {
        assert(r@ =~= v@.take(0));
    }
    while i < v.len()
        invariant
            i <= v.len(),
            r@.len() == i,
            case_trees(r@) == case_trees(v@.take(i as int)),
        decreases v.len() - i,
    {
        proof {
            assert(decreases_to!(v => v@[i as int]));
            assert(decreases_to!(v@[i as int] => v@[i as int].0));
            assert(decreases_to!(v@[i as int] => v@[i as int].1));
        }
        let c = (clone_node(&v[i].0), clone_nodes(&v[i].1));
        let ghost r0 = r@;
        r.push(c);
        proof {
            assert(r@.drop_last() =~= r0);
            assert(v@.take(i + 1).drop_last() =~= v@.take(i as int));
        }
        i += 1;
    }
    proof {
        assert(v@.take(v@.len() as int) =~= v@);
    }
    r
}

pub(crate) fn clone_ctor(o: &Option<(AccessSpecifier, Vec<Param>, Vec<AstNode>)>) -> (r: Option<
    (AccessSpecifier, Vec<Param>, Vec<AstNode>),
>)
    ensures
        r is Some == o is Some,
        r matches Some(c) ==> (o matches Some(d) && c.0 == d.0 && param_trees(c.1@)
            == param_trees(d.1@) && trees(c.2@) == trees(d.2@)),
    decreases o,
{
    match o {
        Some(t) => Some((t.0, clone_params(&t.1), clone_nodes(&t.2))),
        None => None,
    }
}

pub(crate) fn clone_strings(v: &Vec<String>) -> (r: Vec<String>)
    ensures
        r@ == v@,
{
    let mut r: Vec<String> = Vec::new();
    let mut i: usize = 0;
    while i < v.len()
        invariant
            i <= v.len(),
            r@ == v@.take(i as int),
        decreases v.len() - i,
    {
        r.push(v[i].clone());
        i += 1;
        proof {
            assert(r@ =~= v@.take(i as int));
        }
    }
    proof {
        assert(v@.take(v@.len() as int) =~= v@);
    }
    r
}

impl Clone for AstNode {
    fn clone(&self) -> (r: Self)
        ensures
            r.line == self.line,
            r.column == self.column,
            tree(r) == tree(*self),
    {
        clone_node(self)
    }
}

impl Clone for AstNodeKind {
    fn clone(&self) -> (r: Self) {
        clone_kind(self)
    }
}

impl Clone for Param {
    fn clone(&self) -> (r: Self) {
        clone_param(self)
    }
}

} // verus!
