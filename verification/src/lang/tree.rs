use vstd::prelude::*;
use crate::lang::ast::{AccessSpecifier, AstNode, AstNodeKind, Param};

verus! {

/// A syntax tree node as plain values.
pub struct Tree {
    pub kind: TreeKind,
    pub line: usize,
    pub column: usize,
}

/// A parameter as plain values.
pub struct ParamTree {
    pub name: Seq<char>,
    pub type_specifier: Option<Seq<char>>,
    pub is_array: bool,
    pub is_variadic: bool,
    pub default_value: Option<Box<Tree>>,
}

/// The kinds of syntax tree nodes, as plain values (see `AstNodeKind`).
pub enum TreeKind {
    StringLiteral(Seq<char>),
    CharLiteral(char),
    Variable(Seq<char>),
    If { condition: Box<Tree>, body: Seq<Tree>, else_body: Option<Seq<Tree>> },
    For { variable: Seq<char>, iterable: Box<Tree>, body: Seq<Tree> },
    Assignment {
        type_specifier: Option<Seq<char>>,
        variable: Seq<char>,
        index: Option<Box<Tree>>,
        value: Box<Tree>,
        is_declaration: bool,
    },
    BinaryOp { left: Box<Tree>, operator: Seq<char>, right: Box<Tree> },
    UnaryOp { operator: Seq<char>, operand: Box<Tree> },
    TernaryOp { condition: Box<Tree>, true_value: Box<Tree>, false_value: Box<Tree> },
    While { condition: Box<Tree>, body: Seq<Tree> },
    Function {
        name: Seq<char>,
        params: Seq<ParamTree>,
        body: Seq<Tree>,
        access: AccessSpecifier,
        is_static: bool,
    },
    TryCatch { try_body: Seq<Tree>, error_var: Seq<char>, catch_body: Seq<Tree> },
    Return(Box<Tree>),
    Break,
    Continue,
    Array(Seq<Tree>),
    MapLiteral(Seq<(Seq<char>, Tree)>),
    NamespaceDecl { name: Seq<char>, body: Seq<Tree> },
    ClassDecl {
        name: Seq<char>,
        base_class: Option<Seq<char>>,
        access: AccessSpecifier,
        is_static: bool,
        methods: Seq<Tree>,
        fields: Seq<Tree>,
        constructor: Option<(AccessSpecifier, Seq<ParamTree>, Seq<Tree>)>,
        destructor: Option<Seq<Tree>>,
    },
    StructDecl {
        name: Seq<char>,
        access: AccessSpecifier,
        fields: Seq<Tree>,
        constructor: Option<(AccessSpecifier, Seq<ParamTree>, Seq<Tree>)>,
        destructor: Option<Seq<Tree>>,
    },
    FieldDecl {
        name: Seq<char>,
        type_specifier: Option<Seq<char>>,
        access: AccessSpecifier,
        is_static: bool,
        default_value: Option<Box<Tree>>,
    },
    EnumDecl { name: Seq<char>, access: AccessSpecifier, variants: Seq<Seq<char>> },
    WithImport { path: Seq<char> },
    ObjectInstantiation { class_name: Seq<char>, args: Seq<Tree>, initializer: Option<Seq<Tree>> },
    MethodCall { object: Box<Tree>, method_name: Seq<char>, args: Seq<Tree> },
    PropertyAccess { object: Box<Tree>, property_name: Seq<char> },
    IndexAccess { object: Box<Tree>, index: Box<Tree> },
    Switch { expression: Box<Tree>, cases: Seq<(Tree, Seq<Tree>)>, default_case: Option<Seq<Tree>> },
    InterpolatedString(Seq<Tree>),
    KeyValuePair { key: Box<Tree>, value: Box<Tree> },
}

/// An optional list of nodes as plain values.
pub open spec fn opt_trees(o: Option<Vec<AstNode>>) -> Option<Seq<Tree>> {
    match o {
        Some(v) => Some(trees(v@)),
        None => None,
    }
}

/// A constructor (access, parameters, body) as plain values.
pub open spec fn ctor_tree(c: Option<(AccessSpecifier, Vec<Param>, Vec<AstNode>)>) -> Option<
    (AccessSpecifier, Seq<ParamTree>, Seq<Tree>),
> {
    match c {
        Some(c) => Some((c.0, param_trees(c.1@), trees(c.2@))),
        None => None,
    }
}

pub open spec fn opt_text(o: Option<String>) -> Option<Seq<char>> {
    match o {
        Some(s) => Some(s@),
        None => None,
    }
}

/// A node as plain values.
pub open spec fn tree(n: AstNode) -> Tree
    decreases n, 0nat,
{
    Tree { kind: tree_kind(n.kind), line: n.line, column: n.column }
}

/// A node kind as plain values.
pub open spec fn tree_kind(k: AstNodeKind) -> TreeKind
    decreases k, 0nat,
{
    match k {
        AstNodeKind::StringLiteral(s) => TreeKind::StringLiteral(s@),
        AstNodeKind::CharLiteral(c) => TreeKind::CharLiteral(c),
        AstNodeKind::Variable(v) => TreeKind::Variable(v@),
        AstNodeKind::If { condition, body, else_body } => TreeKind::If {
            condition: Box::new(tree(*condition)),
            body: trees(body@),
            else_body: match else_body {
                Some(e) => Some(trees(e@)),
                None => None,
            },
        },
        AstNodeKind::For { variable, iterable, body } => TreeKind::For {
            variable: variable@,
            iterable: Box::new(tree(*iterable)),
            body: trees(body@),
        },
        AstNodeKind::Assignment { type_specifier, variable, index, value, is_declaration } =>
        TreeKind::Assignment {
            type_specifier: opt_text(type_specifier),
            variable: variable@,
            index: match index {
                Some(i) => Some(Box::new(tree(*i))),
                None => None,
            },
            value: Box::new(tree(*value)),
            is_declaration,
        },
        AstNodeKind::BinaryOp { left, operator, right } => TreeKind::BinaryOp {
            left: Box::new(tree(*left)),
            operator: operator@,
            right: Box::new(tree(*right)),
        },
        AstNodeKind::UnaryOp { operator, operand } => TreeKind::UnaryOp {
            operator: operator@,
            operand: Box::new(tree(*operand)),
        },
        AstNodeKind::TernaryOp { condition, true_value, false_value } => TreeKind::TernaryOp {
            condition: Box::new(tree(*condition)),
            true_value: Box::new(tree(*true_value)),
            false_value: Box::new(tree(*false_value)),
        },
        AstNodeKind::While { condition, body } => TreeKind::While {
            condition: Box::new(tree(*condition)),
            body: trees(body@),
        },
        AstNodeKind::Function { name, params, body, access, is_static } => TreeKind::Function {
            name: name@,
            params: param_trees(params@),
            body: trees(body@),
            access,
            is_static,
        },
        AstNodeKind::TryCatch { try_body, error_var, catch_body } => TreeKind::TryCatch {
            try_body: trees(try_body@),
            error_var: error_var@,
            catch_body: trees(catch_body@),
        },
        AstNodeKind::Return(v) => TreeKind::Return(Box::new(tree(*v))),
        AstNodeKind::Break => TreeKind::Break,
        AstNodeKind::Continue => TreeKind::Continue,
        AstNodeKind::Array(items) => TreeKind::Array(trees(items@)),
        AstNodeKind::MapLiteral(items) => TreeKind::MapLiteral(entry_trees(items@)),
        AstNodeKind::NamespaceDecl { name, body } => TreeKind::NamespaceDecl {
            name: name@,
            body: trees(body@),
        },
        AstNodeKind::ClassDecl {
            name,
            base_class,
            access,
            is_static,
            methods,
            fields,
            constructor,
            destructor,
        } => TreeKind::ClassDecl {
            name: name@,
            base_class: opt_text(base_class),
            access,
            is_static,
            methods: trees(methods@),
            fields: trees(fields@),
            constructor: match constructor {
                Some(c) => Some((c.0, param_trees(c.1@), trees(c.2@))),
                None => None,
            },
            destructor: match destructor {
                Some(d) => Some(trees(d@)),
                None => None,
            },
        },
        AstNodeKind::StructDecl { name, access, fields, constructor, destructor } =>
        TreeKind::StructDecl {
            name: name@,
            access,
            fields: trees(fields@),
            constructor: match constructor {
                Some(c) => Some((c.0, param_trees(c.1@), trees(c.2@))),
                None => None,
            },
            destructor: match destructor {
                Some(d) => Some(trees(d@)),
                None => None,
            },
        },
        AstNodeKind::FieldDecl { name, type_specifier, access, is_static, default_value } =>
        TreeKind::FieldDecl {
            name: name@,
            type_specifier: opt_text(type_specifier),
            access,
            is_static,
            default_value: match default_value {
                Some(d) => Some(Box::new(tree(*d))),
                None => None,
            },
        },
        AstNodeKind::EnumDecl { name, access, variants } => TreeKind::EnumDecl {
            name: name@,
            access,
            variants: variants@.map_values(|v: String| v@),
        },
        AstNodeKind::WithImport { path } => TreeKind::WithImport { path: path@ },
        AstNodeKind::ObjectInstantiation { class_name, args, initializer } =>
        TreeKind::ObjectInstantiation {
            class_name: class_name@,
            args: trees(args@),
            initializer: match initializer {
                Some(i) => Some(trees(i@)),
                None => None,
            },
        },
        AstNodeKind::MethodCall { object, method_name, args } => TreeKind::MethodCall {
            object: Box::new(tree(*object)),
            method_name: method_name@,
            args: trees(args@),
        },
        AstNodeKind::PropertyAccess { object, property_name } => TreeKind::PropertyAccess {
            object: Box::new(tree(*object)),
            property_name: property_name@,
        },
        AstNodeKind::IndexAccess { object, index } => TreeKind::IndexAccess {
            object: Box::new(tree(*object)),
            index: Box::new(tree(*index)),
        },
        AstNodeKind::Switch { expression, cases, default_case } => TreeKind::Switch {
            expression: Box::new(tree(*expression)),
            cases: case_trees(cases@),
            default_case: match default_case {
                Some(d) => Some(trees(d@)),
                None => None,
            },
        },
        AstNodeKind::InterpolatedString(parts) => TreeKind::InterpolatedString(trees(parts@)),
        AstNodeKind::KeyValuePair { key, value } => TreeKind::KeyValuePair {
            key: Box::new(tree(*key)),
            value: Box::new(tree(*value)),
        },
    }
}

/// Nodes as plain values.
pub open spec fn trees(s: Seq<AstNode>) -> Seq<Tree>
    decreases s, 0nat,
{
    if s.len() == 0 {
        Seq::empty()
    } else {
        trees(s.drop_last()).push(tree(s.last()))
    }
}

/// A parameter as plain values.
pub open spec fn param_tree(p: Param) -> ParamTree
    decreases p, 0nat,
{
    ParamTree {
        name: p.name@,
        type_specifier: opt_text(p.type_specifier),
        is_array: p.is_array,
        is_variadic: p.is_variadic,
        default_value: match p.default_value {
            Some(d) => Some(Box::new(tree(*d))),
            None => None,
        },
    }
}

/// Parameters as plain values.
pub open spec fn param_trees(s: Seq<Param>) -> Seq<ParamTree>
    decreases s, 0nat,
{
    if s.len() == 0 {
        Seq::empty()
    } else {
        param_trees(s.drop_last()).push(param_tree(s.last()))
    }
}

/// Map entries as plain values.
pub open spec fn entry_trees(s: Seq<(String, AstNode)>) -> Seq<(Seq<char>, Tree)>
    decreases s, 0nat,
{
    if s.len() == 0 {
        Seq::empty()
    } else {
        entry_trees(s.drop_last()).push((s.last().0@, tree(s.last().1)))
    }
}

/// Switch cases as plain values.
pub open spec fn case_trees(s: Seq<(AstNode, Vec<AstNode>)>) -> Seq<(Tree, Seq<Tree>)>
    decreases s, 0nat,
{
    if s.len() == 0 {
        Seq::empty()
    } else {
        case_trees(s.drop_last()).push((tree(s.last().0), trees(s.last().1@)))
    }
}

pub(crate) proof fn lemma_param_trees_len(s: Seq<Param>)
    ensures
        param_trees(s).len() == s.len(),
    decreases s.len(),
{
    if s.len() > 0 {
        lemma_param_trees_len(s.drop_last());
    }
}

pub(crate) proof fn lemma_param_trees_index(s: Seq<Param>, i: int)
    requires
        0 <= i < s.len(),
    ensures
        param_trees(s).len() == s.len(),
        param_trees(s)[i] == param_tree(s[i]),
    decreases s.len(),
{
    lemma_param_trees_len(s);
    lemma_param_trees_len(s.drop_last());
    if i < s.len() - 1 {
        lemma_param_trees_index(s.drop_last(), i);
    }
}

} // verus!
