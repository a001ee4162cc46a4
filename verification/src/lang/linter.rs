use vstd::prelude::*;
use crate::error::IshError;
use crate::lang::ast::{AccessSpecifier, AstNode, AstNodeKind, Param};
use crate::lang::registry::{last_index, put};
use crate::text::{
    alphanumeric, chars_eq, chars_of, decimal, concat, is_alphanumeric, lit, string_contains_char, string_from,
    usize_text,
};

verus! {

broadcast use vstd::std_specs::vec::group_vec_axioms;

/// Whether two strings are equal.
fn string_eq(a: &String, b: &String) -> (r: bool)
    ensures
        r == (a@ == b@),
{
    chars_eq(&chars_of(a.as_str()), &chars_of(b.as_str()))
}

/// Whether a scope holds a name.
pub open spec fn scope_has(scope: Seq<String>, v: Seq<char>) -> bool {
    exists|j: int| 0 <= j < scope.len() && (#[trigger] scope[j])@ == v
}

/// Names that always count as defined: the empty name, `?`, `LAST`, `$`, `!`, `#`, `@`, `0`.
pub open spec fn always_defined(v: Seq<char>) -> bool {
    v.len() == 0 || v == "?"@ || v == "LAST"@ || v == "$"@ || v == "!"@ || v == "#"@ || v == "@"@
        || v == "0"@
}

/// Characters that make a one-character variable name after `$`.
pub open spec fn special_var_char(c: char) -> bool {
    c == '?' || c == '!' || c == '@' || c == '#' || c == '$' || c == '0'
}

/// The end of the run of alphanumeric characters and `_` starting at `i`.
pub open spec fn name_end(s: Seq<char>, i: int) -> int
    decreases s.len() - i,
{
    if 0 <= i < s.len() && (alphanumeric(s[i]) || s[i] == '_') {
        name_end(s, i + 1)
    } else {
        i
    }
}

/// What the linter knows at a node: the scopes of declared variables (innermost last), the
/// scope indices where the enclosing functions begin, how many loops enclose the node, and
/// the fields of the class or struct around it.
pub struct LintState {
    pub scopes: Seq<Seq<String>>,
    pub bases: Seq<usize>,
    pub depth: usize,
    pub fields: Seq<String>,
}

/// The scope where the innermost function's scopes begin (0 outside functions).
pub open spec fn base(st: LintState) -> int {
    if st.bases.len() > 0 {
        st.bases.last() as int
    } else {
        0
    }
}

/// Whether a variable name is visible: always-defined names, fields of the current class,
/// names in the scopes of the innermost function, and global names.
pub open spec fn defined(st: LintState, v: Seq<char>) -> bool {
    ||| always_defined(v)
    ||| scope_has(st.fields, v)
    ||| exists|i: int| base(st) <= i < st.scopes.len() && scope_has(#[trigger] st.scopes[i], v)
    ||| (base(st) != 0 && st.scopes.len() > 0 && scope_has(st.scopes[0], v))
}

/// The first variable referenced with `$` in `s` from position `i` that is not defined, if
/// any. `$(` is not a reference; `$` followed by one of `?!@#$0` names that character;
/// otherwise the name is the run of alphanumeric characters and `_` after the `$`.
pub open spec fn undefined_ref(st: LintState, s: Seq<char>, i: int) -> Option<Seq<char>>
    decreases s.len() - i,
{
    if i < 0 || i >= s.len() {
        None
    } else if s[i] != '$' || (i + 1 < s.len() && s[i + 1] == '(') {
        undefined_ref(st, s, i + 1)
    } else {
        let special = i + 1 < s.len() && special_var_char(s[i + 1]);
        let end = if special {
            i + 2
        } else {
            name_end(s, i + 1)
        };
        let name = s.subrange(i + 1, end);
        if name.len() > 0 && !defined(st, name) {
            Some(name)
        } else if i < end <= s.len() {
            undefined_ref(st, s, end)
        } else {
            None
        }
    }
}

/// The state after declaring a variable in the innermost scope.
pub open spec fn declare(st: LintState, name: String) -> LintState {
    let last = st.scopes.last();
    if scope_has(last, name@) {
        st
    } else {
        LintState { scopes: st.scopes.update(st.scopes.len() - 1, last.push(name)), ..st }
    }
}

/// The message of a linter error at a node's position.
pub open spec fn at(node: AstNode, what: Seq<char>) -> Seq<char> {
    linter_message(node.line, node.column, what)
}

/// Checking nodes in a new scope holding `names` (a function's scope when `is_function`): the
/// scope is dropped afterwards.
pub open spec fn lint_in_scope(
    st: LintState,
    nodes: Seq<AstNode>,
    names: Seq<String>,
    is_function: bool,
) -> Result<LintState, Seq<char>>
    decreases nodes, 2nat, 0nat,
{
    let inner = LintState {
        scopes: st.scopes.push(names),
        bases: if is_function {
            st.bases.push(st.scopes.len() as usize)
        } else {
            st.bases
        },
        ..st
    };
    match lint_all(inner, nodes, nodes.len()) {
        Ok(s) => Ok(
            LintState {
                scopes: s.scopes.drop_last(),
                bases: if is_function {
                    s.bases.drop_last()
                } else {
                    s.bases
                },
                ..s
            },
        ),
        Err(m) => Err(m),
    }
}

/// Checking a loop body: one loop deeper, in a new scope holding `names`.
pub open spec fn lint_loop_body(st: LintState, body: Seq<AstNode>, names: Seq<String>) -> Result<LintState, Seq<char>>
    decreases body, 3nat, 0nat,
{
    let deeper = LintState {
        depth: if st.depth < usize::MAX {
            (st.depth + 1) as usize
        } else {
            st.depth
        },
        ..st
    };
    match lint_in_scope(deeper, body, names, false) {
        Ok(s) => Ok(LintState { depth: st.depth, ..s }),
        Err(m) => Err(m),
    }
}

/// The first `n` nodes checked in turn.
pub open spec fn lint_all(st: LintState, nodes: Seq<AstNode>, n: nat) -> Result<LintState, Seq<char>>
    decreases nodes, 1nat, n,
{
    if n == 0 || n > nodes.len() {
        Ok(st)
    } else {
        match lint_all(st, nodes, (n - 1) as nat) {
            Ok(s) => lint_node(s, nodes[n - 1]),
            Err(m) => Err(m),
        }
    }
}

/// The values of the first `n` map entries checked in turn.
pub open spec fn lint_entries(st: LintState, items: Seq<(String, AstNode)>, n: nat) -> Result<LintState, Seq<char>>
    decreases items, 1nat, n,
{
    if n == 0 || n > items.len() {
        Ok(st)
    } else {
        match lint_entries(st, items, (n - 1) as nat) {
            Ok(s) => lint_node(s, items[n - 1].1),
            Err(m) => Err(m),
        }
    }
}

/// The first `n` switch cases checked in turn: the value, then the body.
pub open spec fn lint_cases(st: LintState, cases: Seq<(AstNode, Vec<AstNode>)>, n: nat) -> Result<LintState, Seq<char>>
    decreases cases, 1nat, n,
{
    if n == 0 || n > cases.len() {
        Ok(st)
    } else {
        match lint_cases(st, cases, (n - 1) as nat) {
            Ok(s) => match lint_node(s, cases[n - 1].0) {
                Ok(s2) => lint_all(s2, cases[n - 1].1@, cases[n - 1].1@.len()),
                Err(m) => Err(m),
            },
            Err(m) => Err(m),
        }
    }
}

/// The default values of the first `n` parameters checked in turn.
pub open spec fn lint_defaults(st: LintState, params: Seq<Param>, n: nat) -> Result<LintState, Seq<char>>
    decreases params, 1nat, n,
{
    if n == 0 || n > params.len() {
        Ok(st)
    } else {
        match lint_defaults(st, params, (n - 1) as nat) {
            Ok(s) => match params[n - 1].default_value {
                Some(d) => lint_node(s, *d),
                None => Ok(s),
            },
            Err(m) => Err(m),
        }
    }
}

/// The names of parameters.
pub open spec fn param_names(params: Seq<Param>) -> Seq<String> {
    params.map_values(|p: Param| p.name)
}

/// The names of the `FieldDecl` nodes among `nodes`.
pub open spec fn field_names(nodes: Seq<AstNode>) -> Seq<String>
    decreases nodes.len(),
{
    if nodes.len() == 0 {
        Seq::empty()
    } else {
        let prev = field_names(nodes.drop_last());
        match nodes.last().kind {
            AstNodeKind::FieldDecl { name, .. } => prev.push(name),
            _ => prev,
        }
    }
}

/// Checking a class or struct: with its field names visible, its constructor and destructor
/// each as a function, then its methods (a class's) and its fields; the enclosing fields come
/// back after.
pub open spec fn lint_type(st: LintState, node: AstNode) -> Result<LintState, Seq<char>>
    decreases node, 4nat, 0nat,
{
    match node.kind {
        AstNodeKind::ClassDecl { methods, fields, constructor, destructor, .. } => {
            let s0 = LintState { fields: field_names(fields@), ..st };
            let s1 = match constructor {
                Some(c) => lint_in_scope(s0, c.2@, param_names(c.1@), true),
                None => Ok(s0),
            };
            let s2 = match s1 {
                Ok(s) => match destructor {
                    Some(d) => lint_in_scope(s, d@, Seq::empty(), true),
                    None => Ok(s),
                },
                Err(m) => Err(m),
            };
            let s3 = match s2 {
                Ok(s) => lint_all(s, methods@, methods@.len()),
                Err(m) => Err(m),
            };
            let s4 = match s3 {
                Ok(s) => lint_all(s, fields@, fields@.len()),
                Err(m) => Err(m),
            };
            match s4 {
                Ok(s) => Ok(LintState { fields: st.fields, ..s }),
                Err(m) => Err(m),
            }
        },
        AstNodeKind::StructDecl { fields, constructor, destructor, .. } => {
            let s0 = LintState { fields: field_names(fields@), ..st };
            let s1 = match constructor {
                Some(c) => lint_in_scope(s0, c.2@, param_names(c.1@), true),
                None => Ok(s0),
            };
            let s2 = match s1 {
                Ok(s) => match destructor {
                    Some(d) => lint_in_scope(s, d@, Seq::empty(), true),
                    None => Ok(s),
                },
                Err(m) => Err(m),
            };
            let s4 = match s2 {
                Ok(s) => lint_all(s, fields@, fields@.len()),
                Err(m) => Err(m),
            };
            match s4 {
                Ok(s) => Ok(LintState { fields: st.fields, ..s }),
                Err(m) => Err(m),
            }
        },
        _ => Ok(st),
    }
}

/// The state after checking a node, or the message of the first error the linter reports (at
/// the position of the node it concerns, see `at`): an `if`,
/// `while` or `for` with an empty body, an empty `else` or `try` block, a `for` without a
/// variable, a function without a name or body, `break` or `continue` outside a loop, an
/// assignment without a variable or (not a declaration, not a member path) to a variable not
/// visible, and a string literal that references an undefined variable. Blocks get their own
/// scope, function bodies their own function scope; declarations add to the innermost scope.
pub open spec fn lint_node(st: LintState, node: AstNode) -> Result<LintState, Seq<char>>
    decreases node, 5nat, 0nat,
{
    match node.kind {
        AstNodeKind::BinaryOp { left, right, .. } => match lint_node(st, *left) {
            Ok(s) => lint_node(s, *right),
            Err(m) => Err(m),
        },
        AstNodeKind::IndexAccess { object, index } => match lint_node(st, *object) {
            Ok(s) => lint_node(s, *index),
            Err(m) => Err(m),
        },
        AstNodeKind::UnaryOp { operand, .. } => lint_node(st, *operand),
        AstNodeKind::TernaryOp { condition, true_value, false_value } => match lint_node(
            st,
            *condition,
        ) {
            Ok(s) => match lint_node(s, *true_value) {
                Ok(s2) => lint_node(s2, *false_value),
                Err(m) => Err(m),
            },
            Err(m) => Err(m),
        },
        AstNodeKind::If { condition, body, else_body } => match lint_node(st, *condition) {
            Ok(s) => if body@.len() == 0 {
                Err(at(node, "'if' statement has an empty body"@))
            } else {
                match lint_in_scope(s, body@, Seq::empty(), false) {
                    Ok(s2) => match else_body {
                        Some(eb) => if eb@.len() == 0 {
                            Err(at(node, "'else' statement has an empty body"@))
                        } else {
                            lint_in_scope(s2, eb@, Seq::empty(), false)
                        },
                        None => Ok(s2),
                    },
                    Err(m) => Err(m),
                }
            },
            Err(m) => Err(m),
        },
        AstNodeKind::TryCatch { try_body, error_var, catch_body } => if try_body@.len() == 0 {
            Err(at(node, "'try' block is empty"@))
        } else {
            match lint_in_scope(st, try_body@, Seq::empty(), false) {
                Ok(s) => lint_in_scope(s, catch_body@, seq![error_var], false),
                Err(m) => Err(m),
            }
        },
        AstNodeKind::While { condition, body } => match lint_node(st, *condition) {
            Ok(s) => if body@.len() == 0 {
                Err(at(node, "'while' loop has an empty body"@))
            } else {
                lint_loop_body(s, body@, Seq::empty())
            },
            Err(m) => Err(m),
        },
        AstNodeKind::For { variable, iterable, body } => if variable@.len() == 0 {
            Err(at(node, "'for' loop missing variable name"@))
        } else {
            match lint_node(st, *iterable) {
                Ok(s) => if body@.len() == 0 {
                    Err(at(node, "'for' loop has an empty body"@))
                } else {
                    lint_loop_body(s, body@, seq![variable])
                },
                Err(m) => Err(m),
            }
        },
        AstNodeKind::Assignment { variable, value, is_declaration, .. } => if variable@.len()
            == 0 {
            Err(at(node, "Assignment missing variable name"@))
        } else {
            match lint_node(st, *value) {
                Ok(s) => if is_declaration {
                    Ok(declare(s, variable))
                } else if !variable@.contains('.') && !defined(s, variable@) {
                    Err(at(node, "Variable '"@ + variable@ + "' is assigned before being declared"@))
                } else {
                    Ok(s)
                },
                Err(m) => Err(m),
            }
        },
        AstNodeKind::FieldDecl { default_value, .. } => match default_value {
            Some(v) => lint_node(st, *v),
            None => Ok(st),
        },
        AstNodeKind::Function { name, params, body, .. } => if name@.len() == 0 {
            Err(at(node, "Function defined without a name"@))
        } else if body@.len() == 0 {
            Err(at(node, "Function '"@ + name@ + "' has an empty body"@))
        } else {
            match lint_defaults(st, params@, params@.len()) {
                Ok(s) => lint_in_scope(s, body@, param_names(params@), true),
                Err(m) => Err(m),
            }
        },
        AstNodeKind::Break => if st.depth == 0 {
            Err(at(node, "'break' or 'continue' used outside of a loop"@))
        } else {
            Ok(st)
        },
        AstNodeKind::Continue => if st.depth == 0 {
            Err(at(node, "'break' or 'continue' used outside of a loop"@))
        } else {
            Ok(st)
        },
        AstNodeKind::StringLiteral(s) => if undefined_ref(st, s@, 0) is Some {
            Err(at(node, "Variable '"@ + undefined_ref(st, s@, 0)->0 + "' is not defined in this scope"@))
        } else {
            Ok(st)
        },
        AstNodeKind::Return(inner) => lint_node(st, *inner),
        AstNodeKind::Array(items) => lint_all(st, items@, items@.len()),
        AstNodeKind::MapLiteral(items) => lint_entries(st, items@, items@.len()),
        AstNodeKind::NamespaceDecl { body, .. } => lint_all(st, body@, body@.len()),
        AstNodeKind::ClassDecl { .. } => lint_type(st, node),
        AstNodeKind::StructDecl { .. } => lint_type(st, node),
        AstNodeKind::ObjectInstantiation { args, initializer, .. } => match lint_all(
            st,
            args@,
            args@.len(),
        ) {
            Ok(s) => match initializer {
                Some(init) => lint_all(s, init@, init@.len()),
                None => Ok(s),
            },
            Err(m) => Err(m),
        },
        AstNodeKind::Switch { expression, cases, default_case } => match lint_node(
            st,
            *expression,
        ) {
            Ok(s) => match lint_cases(s, cases@, cases@.len()) {
                Ok(s2) => match default_case {
                    Some(body) => lint_all(s2, body@, body@.len()),
                    None => Ok(s2),
                },
                Err(m) => Err(m),
            },
            Err(m) => Err(m),
        },
        AstNodeKind::InterpolatedString(nodes) => lint_all(st, nodes@, nodes@.len()),
        AstNodeKind::KeyValuePair { key, value } => match lint_node(st, *key) {
            Ok(s) => lint_node(s, *value),
            Err(m) => Err(m),
        },
        AstNodeKind::MethodCall { object, args, .. } => match lint_node(st, *object) {
            Ok(s) => lint_all(s, args@, args@.len()),
            Err(m) => Err(m),
        },
        AstNodeKind::PropertyAccess { object, .. } => lint_node(st, *object),
        _ => Ok(st),
    }
}

} // verus!

verus! {

/// The variable of a `for` loop is defined inside its body: a loop whose body only reads its
/// variable (the text `$v`, for a name `v`) lints without error wherever its iterable does, and
/// leaves the linter's state as the iterable left it.
pub proof fn lemma_for_variable_defined_in_body(st: LintState, node: AstNode, s: LintState)
    requires
        node.kind matches AstNodeKind::For { variable, iterable, body } && {
            &&& variable@.len() > 0
            &&& ('a' <= variable@[0] <= 'z' || 'A' <= variable@[0] <= 'Z' || variable@[0] == '_')
            &&& lint_node(st, *iterable) == Ok::<LintState, Seq<char>>(s)
            &&& body@.len() == 1
            &&& body@[0].kind matches AstNodeKind::StringLiteral(t) && t@ == "$"@ + variable@
                && name_end(t@, 1) == t@.len()
        },
        base(s) <= s.scopes.len(),
    ensures
        lint_node(st, node) == Ok::<LintState, Seq<char>>(s),
{
    reveal_strlit("$");
    if let AstNodeKind::For { variable, iterable, body } = node.kind {
        if let AstNodeKind::StringLiteral(t) = body@[0].kind {
            let deeper = LintState {
                depth: if s.depth < usize::MAX {
                    (s.depth + 1) as usize
                } else {
                    s.depth
                },
                ..s
            };
            let inner = LintState { scopes: deeper.scopes.push(seq![variable]), ..deeper };
            let tv = t@;
            assert(tv[0] == '$');
            assert(tv[1] == variable@[0]);
            assert(!special_var_char(tv[1]));
            let name = tv.subrange(1, tv.len() as int);
            assert(name =~= variable@);
            assert(scope_has(inner.scopes[inner.scopes.len() - 1], variable@)) by {
                assert(inner.scopes[inner.scopes.len() - 1][0] == variable);
            }
            assert(base(inner) <= inner.scopes.len() - 1);
            assert(defined(inner, name));
            assert(undefined_ref(inner, tv, tv.len() as int) is None);
            assert(undefined_ref(inner, tv, 0) is None);
            assert(lint_node(inner, body@[0]) == Ok::<LintState, Seq<char>>(inner));
            assert(lint_all(inner, body@, 0) == Ok::<LintState, Seq<char>>(inner));
            assert(lint_all(inner, body@, 1) == Ok::<LintState, Seq<char>>(inner));
            assert(inner.scopes.drop_last() =~= s.scopes);
            assert(lint_in_scope(deeper, body@, seq![variable], false) == Ok::<LintState, Seq<char>>(
                LintState { scopes: s.scopes, ..deeper },
            ));
            assert(lint_loop_body(s, body@, seq![variable]) == Ok::<LintState, Seq<char>>(s));
        }
    }
}

/// A text `$v` for a name `v` reads only `v`: in a state whose innermost scope holds `v`, and
/// whose function base lies within its scopes, it lints without error and changes nothing.
proof fn lemma_reads_own_name(inner: LintState, n: AstNode, v: String)
    requires
        v@.len() > 0,
        'a' <= v@[0] <= 'z' || 'A' <= v@[0] <= 'Z' || v@[0] == '_',
        n.kind matches AstNodeKind::StringLiteral(t) && t@ == "$"@ + v@ && name_end(t@, 1)
            == t@.len(),
        inner.scopes.len() > 0,
        scope_has(inner.scopes.last(), v@),
        base(inner) <= inner.scopes.len() - 1,
    ensures
        lint_node(inner, n) == Ok::<LintState, Seq<char>>(inner),
{
    reveal_strlit("$");
    if let AstNodeKind::StringLiteral(t) = n.kind {
        let tv = t@;
        assert(tv[0] == '$');
        assert(tv[1] == v@[0]);
        assert(!special_var_char(tv[1]));
        assert(tv.subrange(1, tv.len() as int) =~= v@);
        assert(defined(inner, v@));
        assert(undefined_ref(inner, tv, tv.len() as int) is None);
        assert(undefined_ref(inner, tv, 0) is None);
    }
}

/// The error variable of a `catch` is defined inside the catch body: a `try` with a body that
/// lints without error, followed by a catch body that only reads the error variable (the text
/// `$e`, for a name `e`), lints without error.
pub proof fn lemma_catch_variable_defined(st: LintState, node: AstNode, s: LintState)
    requires
        node.kind matches AstNodeKind::TryCatch { try_body, error_var, catch_body } && {
            &&& try_body@.len() > 0
            &&& lint_in_scope(st, try_body@, Seq::empty(), false) == Ok::<LintState, Seq<char>>(s)
            &&& error_var@.len() > 0
            &&& ('a' <= error_var@[0] <= 'z' || 'A' <= error_var@[0] <= 'Z' || error_var@[0] == '_')
            &&& catch_body@.len() == 1
            &&& catch_body@[0].kind matches AstNodeKind::StringLiteral(t) && t@ == "$"@ + error_var@
                && name_end(t@, 1) == t@.len()
        },
        base(s) <= s.scopes.len(),
    ensures
        lint_node(st, node) == Ok::<LintState, Seq<char>>(s),
{
    if let AstNodeKind::TryCatch { try_body, error_var, catch_body } = node.kind {
        let inner = LintState { scopes: s.scopes.push(seq![error_var]), ..s };
        assert(inner.scopes.last()[0] == error_var);
        lemma_reads_own_name(inner, catch_body@[0], error_var);
        assert(lint_all(inner, catch_body@, 0) == Ok::<LintState, Seq<char>>(inner));
        assert(lint_all(inner, catch_body@, 1) == Ok::<LintState, Seq<char>>(inner));
        assert(inner.scopes.drop_last() =~= s.scopes);
        assert(lint_in_scope(s, catch_body@, seq![error_var], false) == Ok::<LintState, Seq<char>>(s));
    }
}

proof fn lemma_all_stays_err(st: LintState, nodes: Seq<AstNode>, k: nat, m: nat)
    requires
        k <= m <= nodes.len(),
        lint_all(st, nodes, k) is Err,
    ensures
        lint_all(st, nodes, m) == lint_all(st, nodes, k),
    decreases m - k,
{
    if k < m {
        lemma_all_stays_err(st, nodes, k, (m - 1) as nat);
    }
}

proof fn lemma_entries_stay_err(st: LintState, items: Seq<(String, AstNode)>, k: nat, m: nat)
    requires
        k <= m <= items.len(),
        lint_entries(st, items, k) is Err,
    ensures
        lint_entries(st, items, m) == lint_entries(st, items, k),
    decreases m - k,
{
    if k < m {
        lemma_entries_stay_err(st, items, k, (m - 1) as nat);
    }
}

proof fn lemma_cases_stay_err(st: LintState, cases: Seq<(AstNode, Vec<AstNode>)>, k: nat, m: nat)
    requires
        k <= m <= cases.len(),
        lint_cases(st, cases, k) is Err,
    ensures
        lint_cases(st, cases, m) == lint_cases(st, cases, k),
    decreases m - k,
{
    if k < m {
        lemma_cases_stay_err(st, cases, k, (m - 1) as nat);
    }
}

proof fn lemma_defaults_stay_err(st: LintState, params: Seq<Param>, k: nat, m: nat)
    requires
        k <= m <= params.len(),
        lint_defaults(st, params, k) is Err,
    ensures
        lint_defaults(st, params, m) == lint_defaults(st, params, k),
    decreases m - k,
{
    if k < m {
        lemma_defaults_stay_err(st, params, k, (m - 1) as nat);
    }
}

/// How a check ends: `Ok` exactly when the spec gives a state, and then in that state, which
/// keeps the number of scopes, the function starts, the loop depth and the fields; on an
/// error, a `ParseError` with the spec's message, and no scope has been dropped.
pub open spec fn lint_result(
    r: Result<(), IshError>,
    pre: LintState,
    post: LintState,
    spec: Result<LintState, Seq<char>>,
) -> bool {
    &&& (r is Ok) == (spec is Ok)
    &&& r is Ok ==> post == spec->Ok_0
    &&& r is Ok ==> post.scopes.len() == pre.scopes.len() && post.bases == pre.bases && post.depth
        == pre.depth && post.fields == pre.fields
    &&& post.scopes.len() >= pre.scopes.len()
    &&& r matches Err(e) ==> (e matches IshError::ParseError(m) && m@ == spec->Err_0)
}

/// A static checker of variable scoping, empty bodies and loop control.
pub struct Linter {
    defined_vars: Vec<Vec<String>>,
    function_bases: Vec<usize>,
    defined_functions: Vec<(String, usize)>,
    in_loop_depth: usize,
    current_class_fields: Vec<String>,
}

impl View for Linter {
    type V = LintState;

    closed spec fn view(&self) -> LintState {
        LintState {
            scopes: self.defined_vars@.map_values(|s: Vec<String>| s@),
            bases: self.function_bases@,
            depth: self.in_loop_depth,
            fields: self.current_class_fields@,
        }
    }
}

/// The message of a linter error at a line and column.
pub open spec fn linter_message(line: usize, column: usize, what: Seq<char>) -> Seq<char> {
    "Linter Error at Line "@ + decimal(line as nat) + ", Column "@ + decimal(column as nat) + ": "@
        + what
}

/// A linter error at a node's position.
fn linter_error(line: usize, column: usize, what: &str) -> (e: IshError)
    ensures
        e is ParseError,
        e->ParseError_0@ == linter_message(line, column, what@),
{
    let mut msg = lit("Linter Error at Line ");
    msg = concat(msg, usize_text(line).as_str());
    msg = concat(msg, ", Column ");
    msg = concat(msg, usize_text(column).as_str());
    msg = concat(msg, ": ");
    msg = concat(msg, what);
    IshError::ParseError(msg)
}

/// A linter error that names something.
fn linter_error_named(line: usize, column: usize, before: &str, name: &str, after: &str) -> (e:
    IshError)
    ensures
        e is ParseError,
        e->ParseError_0@ == linter_message(line, column, before@ + name@ + after@),
{
    let mut msg = lit("Linter Error at Line ");
    msg = concat(msg, usize_text(line).as_str());
    msg = concat(msg, ", Column ");
    msg = concat(msg, usize_text(column).as_str());
    msg = concat(msg, ": ");
    msg = concat(msg, before);
    msg = concat(msg, name);
    msg = concat(msg, after);
    IshError::ParseError(msg)
}

impl Linter {
    /// There is always a global scope.
    pub open spec fn wf(&self) -> bool {
        self@.scopes.len() >= 1
    }

    /// A linter with one (global) scope, outside any function, loop or class.
    pub fn new() -> (l: Self)
        ensures
            l.wf(),
            l@ == (LintState {
                scopes: seq![Seq::<String>::empty()],
                bases: seq![0usize],
                depth: 0,
                fields: Seq::empty(),
            }),
    {
        let mut defined_vars: Vec<Vec<String>> = Vec::new();
        defined_vars.push(Vec::new());
        let mut function_bases: Vec<usize> = Vec::new();
        function_bases.push(0);
        let l = Linter {
            defined_vars,
            function_bases,
            defined_functions: Vec::new(),
            in_loop_depth: 0,
            current_class_fields: Vec::new(),
        };
        proof {
            assert(l@.scopes =~= seq![Seq::<String>::empty()]);
            assert(l@.bases =~= seq![0usize]);
            assert(l@.fields =~= Seq::<String>::empty());
        }
        l
    }

    /// Checks a syntax tree (see `lint_node`): `Ok` exactly when the linter finds nothing to
    /// report, and then the state is the one `lint_node` gives; otherwise a `ParseError` with
    /// the message `lint_node` gives for the first problem.
    pub fn lint(&mut self, ast: &AstNode) -> (r: Result<(), IshError>)
        requires
            old(self).wf(),
        ensures
            final(self).wf(),
            lint_result(r, old(self)@, final(self)@, lint_node(old(self)@, *ast)),
    {
        self.check_node(ast)
    }

    fn name_in(names: &Vec<String>, v: &Vec<char>) -> (r: bool)
        ensures
            r == scope_has(names@, v@),
    {
        let mut j: usize = 0;
        while j < names.len()
            invariant
                j <= names@.len(),
                forall|k: int| 0 <= k < j ==> names@[k]@ != v@,
            decreases names.len() - j,
        {
            let w = chars_of(names[j].as_str());
            if crate::text::chars_eq(&w, v) {
                return true;
            }
            j += 1;
        }
        false
    }

    fn is_var_defined(&self, var_name: &Vec<char>) -> (r: bool)
        requires
            self.wf(),
        ensures
            r == defined(self@, var_name@),
    {
        if var_name.len() == 0 || crate::text::chars_eq_str(var_name, "?")
            || crate::text::chars_eq_str(var_name, "LAST") || crate::text::chars_eq_str(
            var_name,
            "$",
        ) || crate::text::chars_eq_str(var_name, "!") || crate::text::chars_eq_str(var_name, "#")
            || crate::text::chars_eq_str(var_name, "@") || crate::text::chars_eq_str(var_name, "0") {
            return true;
        }
        if Self::name_in(&self.current_class_fields, var_name) {
            return true;
        }
        let base_idx = if self.function_bases.len() > 0 {
            self.function_bases[self.function_bases.len() - 1]
        } else {
            0
        };
        let mut i = self.defined_vars.len();
        while i > base_idx
            invariant
                i <= self.defined_vars@.len(),
                base_idx == base(self@),
                forall|k: int|
                    i <= k < self@.scopes.len() ==> !scope_has(#[trigger] self@.scopes[k], var_name@),
            decreases i,
        {
            i -= 1;
            proof {
                assert(self@.scopes[i as int] == self.defined_vars@[i as int]@);
            }
            if Self::name_in(&self.defined_vars[i], var_name) {
                return true;
            }
        }
        proof {
            assert(self@.scopes[0] == self.defined_vars@[0]@);
        }
        if base_idx != 0 && Self::name_in(&self.defined_vars[0], var_name) {
            return true;
        }
        false
    }

    fn name_end_exec(s: &Vec<char>, i: usize) -> (e: usize)
        requires
            i <= s@.len(),
        ensures
            e == name_end(s@, i as int),
            i <= e <= s@.len(),
    {
        let mut e = i;
        while e < s.len() && (is_alphanumeric(s[e]) || s[e] == '_')
            invariant
                i <= e <= s@.len(),
                name_end(s@, e as int) == name_end(s@, i as int),
            decreases s.len() - e,
        {
            e += 1;
        }
        e
    }

    /// Checks that every variable referenced with `$` in a string literal is defined (see
    /// `undefined_ref`).
    fn check_variables_in_string(&self, s: &String, line: usize, col: usize) -> (r: Result<
        (),
        IshError,
    >)
        requires
            self.wf(),
        ensures
            (r is Ok) == (undefined_ref(self@, s@, 0) is None),
            r matches Err(e) ==> (e matches IshError::ParseError(m) && m@ == linter_message(
                line,
                col,
                "Variable '"@ + undefined_ref(self@, s@, 0)->0 + "' is not defined in this scope"@,
            )),
    {
        let cs = chars_of(s.as_str());
        let mut i: usize = 0;
        while i < cs.len()
            invariant
                cs@ == s@,
                i <= cs@.len(),
                self.wf(),
                undefined_ref(self@, s@, 0) == undefined_ref(self@, s@, i as int),
            decreases cs.len() - i,
        {
            if cs[i] != '$' || (i + 1 < cs.len() && cs[i + 1] == '(') {
                i += 1;
                continue;
            }
            let special = i + 1 < cs.len() && (cs[i + 1] == '?' || cs[i + 1] == '!' || cs[i + 1]
                == '@' || cs[i + 1] == '#' || cs[i + 1] == '$' || cs[i + 1] == '0');
            let end = if special {
                i + 2
            } else {
                Self::name_end_exec(&cs, i + 1)
            };
            let mut name: Vec<char> = Vec::new();
            let mut k = i + 1;
            while k < end
                invariant
                    i + 1 <= k <= end <= cs@.len(),
                    name@ == cs@.subrange(i + 1, k as int),
                decreases end - k,
            {
                name.push(cs[k]);
                k += 1;
                proof {
                    assert(name@ =~= cs@.subrange(i + 1, k as int));
                }
            }
            if name.len() > 0 && !self.is_var_defined(&name) {
                proof {
                    assert(undefined_ref(self@, s@, i as int) == Some(name@));
                }
                return Err(
                    linter_error_named(
                        line,
                        col,
                        "Variable '",
                        string_from(&name).as_str(),
                        "' is not defined in this scope",
                    ),
                );
            }
            i = end;
        }
        Ok(())
    }

    /// Adds a name to the innermost scope (see `declare`).
    fn declare(&mut self, name: &String)
        requires
            old(self).wf(),
        ensures
            final(self).wf(),
            final(self)@ == declare(old(self)@, *name),
    {
        let ghost before = self.defined_vars@;
        let mut last = self.defined_vars.pop().unwrap();
        let v = chars_of(name.as_str());
        let present = Self::name_in(&last, &v);
        if !present {
            last.push(name.clone());
        }
        self.defined_vars.push(last);
        proof {
            if present {
                assert(self@.scopes =~= old(self)@.scopes);
            } else {
                assert(self@.scopes =~= old(self)@.scopes.update(
                    old(self)@.scopes.len() - 1,
                    old(self)@.scopes.last().push(*name),
                ));
            }
        }
    }
}

} // verus!

verus! {

impl Linter {
    /// Checks the nodes one after another in the current scope (see `lint_all`).
    fn check_all(&mut self, nodes: &Vec<AstNode>) -> (r: Result<(), IshError>)
        requires
            old(self).wf(),
        ensures
            final(self).wf(),
            lint_result(r, old(self)@, final(self)@, lint_all(old(self)@, nodes@, nodes@.len())),
        decreases nodes, 1nat, 0nat,
    {
        let mut i: usize = 0;
        while i < nodes.len()
            invariant
                self.wf(),
                i <= nodes@.len(),
                lint_all(old(self)@, nodes@, i as nat) == Ok::<LintState, Seq<char>>(self@),
                self@.scopes.len() == old(self)@.scopes.len(),
                self@.bases == old(self)@.bases,
                self@.depth == old(self)@.depth,
                self@.fields == old(self)@.fields,
            decreases nodes.len() - i,
        {
            proof {
                assert(decreases_to!(nodes => nodes@[i as int]));
            }
            match self.check_node(&nodes[i]) {
                Ok(()) => {},
                Err(e) => {
                    proof {
                        lemma_all_stays_err(old(self)@, nodes@, (i + 1) as nat, nodes@.len());
                    }
                    return Err(e);
                },
            }
            i += 1;
        }
        Ok(())
    }

    /// Checks the nodes in a new scope holding `names`; for a function body the new scope also
    /// starts a function (see `lint_in_scope`).
    fn check_in_scope(&mut self, nodes: &Vec<AstNode>, names: Vec<String>, is_function: bool) -> (r:
        Result<(), IshError>)
        requires
            old(self).wf(),
        ensures
            final(self).wf(),
            lint_result(
                r,
                old(self)@,
                final(self)@,
                lint_in_scope(old(self)@, nodes@, names@, is_function),
            ),
        decreases nodes, 2nat, 0nat,
    {
        let ghost pre = self@;
        let ghost nv = names@;
        self.defined_vars.push(names);
        if is_function {
            self.function_bases.push(self.defined_vars.len() - 1);
        }
        proof {
            assert(self@.scopes =~= pre.scopes.push(nv));
            assert(self@ == (LintState {
                scopes: pre.scopes.push(nv),
                bases: if is_function {
                    pre.bases.push(pre.scopes.len() as usize)
                } else {
                    pre.bases
                },
                ..pre
            }));
        }
        match self.check_all(nodes) {
            Ok(()) => {},
            Err(e) => {
                return Err(e);
            },
        }
        let ghost mid = self@;
        let ghost mid_bases = self.function_bases@;
        let ghost mid_vars = self.defined_vars@;
        if is_function {
            self.function_bases.pop();
        }
        self.defined_vars.pop();
        proof {
            assert(self.defined_vars@ =~= mid_vars.drop_last());
            assert(self@.scopes =~= mid.scopes.drop_last());
            if is_function {
                assert(self.function_bases@ =~= mid_bases.drop_last());
            }
            assert(pre.scopes.push(nv).drop_last() =~= pre.scopes);
            assert(pre.bases.push(pre.scopes.len() as usize).drop_last() =~= pre.bases);
            let inner = LintState {
                scopes: pre.scopes.push(nv),
                bases: if is_function {
                    pre.bases.push(pre.scopes.len() as usize)
                } else {
                    pre.bases
                },
                ..pre
            };
            assert(lint_all(inner, nodes@, nodes@.len()) == Ok::<LintState, Seq<char>>(mid));
            assert(self@ == (LintState {
                scopes: mid.scopes.drop_last(),
                bases: if is_function {
                    mid.bases.drop_last()
                } else {
                    mid.bases
                },
                ..mid
            }));
        }
        Ok(())
    }

    /// Checks the default values of parameters, in the current scope (see `lint_defaults`).
    fn check_defaults(&mut self, params: &Vec<Param>) -> (r: Result<(), IshError>)
        requires
            old(self).wf(),
        ensures
            final(self).wf(),
            lint_result(
                r,
                old(self)@,
                final(self)@,
                lint_defaults(old(self)@, params@, params@.len()),
            ),
        decreases params, 1nat, 0nat,
    {
        let mut i: usize = 0;
        while i < params.len()
            invariant
                self.wf(),
                i <= params@.len(),
                lint_defaults(old(self)@, params@, i as nat) == Ok::<LintState, Seq<char>>(self@),
                self@.scopes.len() == old(self)@.scopes.len(),
                self@.bases == old(self)@.bases,
                self@.depth == old(self)@.depth,
                self@.fields == old(self)@.fields,
            decreases params.len() - i,
        {
            proof {
                assert(decreases_to!(params => params@[i as int]));
            }
            match &params[i].default_value {
                Some(def) => {
                    match self.check_node(def) {
                        Ok(()) => {},
                        Err(e) => {
                            proof {
                                lemma_defaults_stay_err(
                                    old(self)@,
                                    params@,
                                    (i + 1) as nat,
                                    params@.len(),
                                );
                            }
                            return Err(e);
                        },
                    }
                },
                None => {},
            }
            i += 1;
        }
        Ok(())
    }

    /// The names of parameters.
    fn param_names(params: &Vec<Param>) -> (names: Vec<String>)
        ensures
            names@ == param_names(params@),
    {
        let mut names: Vec<String> = Vec::new();
        let mut i: usize = 0;
        while i < params.len()
            invariant
                i <= params@.len(),
                names@.len() == i,
                forall|k: int| 0 <= k < i ==> names@[k] == #[trigger] params@[k].name,
            decreases params.len() - i,
        {
            names.push(params[i].name.clone());
            i += 1;
        }
        proof {
            assert(names@ =~= param_names(params@));
        }
        names
    }

    /// The names of the field declarations among `nodes`.
    fn field_names(nodes: &Vec<AstNode>) -> (names: Vec<String>)
        ensures
            names@ == field_names(nodes@),
    {
        let mut names: Vec<String> = Vec::new();
        let mut i: usize = 0;
        while i < nodes.len()
            invariant
                i <= nodes@.len(),
                names@ == field_names(nodes@.take(i as int)),
            decreases nodes.len() - i,
        {
            proof {
                assert(nodes@.take(i + 1).drop_last() =~= nodes@.take(i as int));
            }
            match &nodes[i].kind {
                AstNodeKind::FieldDecl { name, .. } => {
                    names.push(name.clone());
                },
                _ => {},
            }
            i += 1;
        }
        proof {
            assert(nodes@.take(nodes@.len() as int) =~= nodes@);
        }
        names
    }

    /// Checks the body of a loop: one loop deeper, in a new scope holding `names` (see
    /// `lint_loop_body`).
    fn check_loop_body(&mut self, body: &Vec<AstNode>, names: Vec<String>) -> (r: Result<
        (),
        IshError,
    >)
        requires
            old(self).wf(),
        ensures
            final(self).wf(),
            lint_result(r, old(self)@, final(self)@, lint_loop_body(old(self)@, body@, names@)),
        decreases body, 3nat, 0nat,
    {
        let saved_depth = self.in_loop_depth;
        self.in_loop_depth = if saved_depth < usize::MAX {
            saved_depth + 1
        } else {
            saved_depth
        };
        match self.check_in_scope(body, names, false) {
            Ok(()) => {},
            Err(e) => {
                return Err(e);
            },
        }
        self.in_loop_depth = saved_depth;
        Ok(())
    }

    /// Checks a class or struct (see `lint_type`).
    fn check_type_members(&mut self, node: &AstNode) -> (r: Result<(), IshError>)
        requires
            old(self).wf(),
            node.kind is ClassDecl || node.kind is StructDecl,
        ensures
            final(self).wf(),
            lint_result(r, old(self)@, final(self)@, lint_type(old(self)@, *node)),
        decreases node, 4nat, 0nat,
    {
        let (fields, constructor, destructor) = match &node.kind {
            AstNodeKind::ClassDecl { fields, constructor, destructor, .. } => (
                fields,
                constructor,
                destructor,
            ),
            AstNodeKind::StructDecl { fields, constructor, destructor, .. } => (
                fields,
                constructor,
                destructor,
            ),
            _ => {
                return Ok(());
            },
        };
        let mut prev_fields = Self::field_names(fields);
        std::mem::swap(&mut prev_fields, &mut self.current_class_fields);
        match constructor {
            Some(c) => {
                let names = Self::param_names(&c.1);
                match self.check_in_scope(&c.2, names, true) {
                    Ok(()) => {},
                    Err(e) => {
                        return Err(e);
                    },
                }
            },
            None => {},
        }
        match destructor {
            Some(d) => {
                match self.check_in_scope(d, Vec::new(), true) {
                    Ok(()) => {},
                    Err(e) => {
                        return Err(e);
                    },
                }
            },
            None => {},
        }
        match &node.kind {
            AstNodeKind::ClassDecl { methods, .. } => {
                match self.check_all(methods) {
                    Ok(()) => {},
                    Err(e) => {
                        return Err(e);
                    },
                }
            },
            _ => {},
        }
        match self.check_all(fields) {
            Ok(()) => {},
            Err(e) => {
                return Err(e);
            },
        }
        self.current_class_fields = prev_fields;
        Ok(())
    }

    /// Checks the values of a map literal in turn (see `lint_entries`).
    fn check_map_values(&mut self, items: &Vec<(String, AstNode)>) -> (r: Result<(), IshError>)
        requires
            old(self).wf(),
        ensures
            final(self).wf(),
            lint_result(
                r,
                old(self)@,
                final(self)@,
                lint_entries(old(self)@, items@, items@.len()),
            ),
        decreases items, 1nat, 0nat,
    {
        let mut i: usize = 0;
        while i < items.len()
            invariant
                self.wf(),
                i <= items@.len(),
                lint_entries(old(self)@, items@, i as nat) == Ok::<LintState, Seq<char>>(self@),
                self@.scopes.len() == old(self)@.scopes.len(),
                self@.bases == old(self)@.bases,
                self@.depth == old(self)@.depth,
                self@.fields == old(self)@.fields,
            decreases items.len() - i,
        {
            proof {
                assert(decreases_to!(items => items@[i as int]));
                assert(decreases_to!(items@[i as int] => items@[i as int].1));
            }
            match self.check_node(&items[i].1) {
                Ok(()) => {},
                Err(e) => {
                    proof {
                        lemma_entries_stay_err(old(self)@, items@, (i + 1) as nat, items@.len());
                    }
                    return Err(e);
                },
            }
            i += 1;
        }
        Ok(())
    }

    /// Checks each case of a switch: its value, then its body in the current scope (see
    /// `lint_cases`).
    fn check_cases(&mut self, cases: &Vec<(AstNode, Vec<AstNode>)>) -> (r: Result<(), IshError>)
        requires
            old(self).wf(),
        ensures
            final(self).wf(),
            lint_result(
                r,
                old(self)@,
                final(self)@,
                lint_cases(old(self)@, cases@, cases@.len()),
            ),
        decreases cases, 1nat, 0nat,
    {
        let mut i: usize = 0;
        while i < cases.len()
            invariant
                self.wf(),
                i <= cases@.len(),
                lint_cases(old(self)@, cases@, i as nat) == Ok::<LintState, Seq<char>>(self@),
                self@.scopes.len() == old(self)@.scopes.len(),
                self@.bases == old(self)@.bases,
                self@.depth == old(self)@.depth,
                self@.fields == old(self)@.fields,
            decreases cases.len() - i,
        {
            proof {
                assert(decreases_to!(cases => cases@[i as int]));
                assert(decreases_to!(cases@[i as int] => cases@[i as int].0));
                assert(decreases_to!(cases@[i as int] => cases@[i as int].1));
            }
            match self.check_node(&cases[i].0) {
                Ok(()) => {},
                Err(e) => {
                    proof {
                        lemma_cases_stay_err(old(self)@, cases@, (i + 1) as nat, cases@.len());
                    }
                    return Err(e);
                },
            }
            match self.check_all(&cases[i].1) {
                Ok(()) => {},
                Err(e) => {
                    proof {
                        lemma_cases_stay_err(old(self)@, cases@, (i + 1) as nat, cases@.len());
                    }
                    return Err(e);
                },
            }
            i += 1;
        }
        Ok(())
    }

    /// The functions recorded so far, with their numbers of parameters.
    closed spec fn function_table(&self) -> Seq<(Seq<char>, usize)> {
        self.defined_functions@.map_values(|e: (String, usize)| (e.0@, e.1))
    }

    /// Records a function and its number of parameters (a later one with the same name replaces
    /// it): the entry under the name takes the new count in place, or a new entry is appended.
    fn record_function(&mut self, name: &String, count: usize)
        ensures
            final(self)@ == old(self)@,
            final(self).function_table() == put(
                old(self).function_table(),
                old(self).function_table().map_values(|e: (Seq<char>, usize)| e.0),
                name@,
                (name@, count),
            ),
    {
        let ghost keys = old(self).function_table().map_values(|e: (Seq<char>, usize)| e.0);
        let mut i = self.defined_functions.len();
        proof {
            assert(keys.take(i as int) =~= keys);
        }
        while i > 0
            invariant
                i <= self.defined_functions@.len(),
                *self == *old(self),
                keys == self.function_table().map_values(|e: (Seq<char>, usize)| e.0),
                last_index(keys, name@) == last_index(keys.take(i as int), name@),
            decreases i,
        {
            proof {
                assert(keys.take(i as int).drop_last() =~= keys.take(i - 1));
                assert(keys[i - 1] == self.defined_functions@[i - 1].0@);
            }
            if string_eq(&self.defined_functions[i - 1].0, name) {
                self.defined_functions.set(i - 1, (name.clone(), count));
                proof {
                    assert(self.function_table() =~= old(self).function_table().update(
                        i - 1,
                        (name@, count),
                    ));
                }
                return;
            }
            i -= 1;
        }
        proof {
            assert(keys.take(0) =~= Seq::<Seq<char>>::empty());
        }
        self.defined_functions.push((name.clone(), count));
        proof {
            assert(self.function_table() =~= old(self).function_table().push((name@, count)));
        }
    }
}

} // verus!

verus! {

impl Linter {
    /// Checks a node (see `lint_node`).
    fn check_node(&mut self, node: &AstNode) -> (r: Result<(), IshError>)
        requires
            old(self).wf(),
        ensures
            final(self).wf(),
            lint_result(r, old(self)@, final(self)@, lint_node(old(self)@, *node)),
        decreases node, 5nat, 0nat,
    {
        let line = node.line;
        let column = node.column;
        match &node.kind {
            AstNodeKind::BinaryOp { left, right, .. } => {
                match self.check_node(left) {
                    Ok(()) => {},
                    Err(e) => {
                        return Err(e);
                    },
                }
                self.check_node(right)
            },
            AstNodeKind::IndexAccess { object, index } => {
                match self.check_node(object) {
                    Ok(()) => {},
                    Err(e) => {
                        return Err(e);
                    },
                }
                self.check_node(index)
            },
            AstNodeKind::UnaryOp { operand, .. } => self.check_node(operand),
            AstNodeKind::TernaryOp { condition, true_value, false_value } => {
                match self.check_node(condition) {
                    Ok(()) => {},
                    Err(e) => {
                        return Err(e);
                    },
                }
                match self.check_node(true_value) {
                    Ok(()) => {},
                    Err(e) => {
                        return Err(e);
                    },
                }
                self.check_node(false_value)
            },
            AstNodeKind::If { condition, body, else_body } => {
                match self.check_node(condition) {
                    Ok(()) => {},
                    Err(e) => {
                        return Err(e);
                    },
                }
                if body.len() == 0 {
                    return Err(linter_error(line, column, "'if' statement has an empty body"));
                }
                match self.check_in_scope(body, Vec::new(), false) {
                    Ok(()) => {},
                    Err(e) => {
                        return Err(e);
                    },
                }
                match else_body {
                    Some(eb) => {
                        if eb.len() == 0 {
                            return Err(
                                linter_error(line, column, "'else' statement has an empty body"),
                            );
                        }
                        self.check_in_scope(eb, Vec::new(), false)
                    },
                    None => Ok(()),
                }
            },
            AstNodeKind::TryCatch { try_body, error_var, catch_body } => {
                if try_body.len() == 0 {
                    return Err(linter_error(line, column, "'try' block is empty"));
                }
                match self.check_in_scope(try_body, Vec::new(), false) {
                    Ok(()) => {},
                    Err(e) => {
                        return Err(e);
                    },
                }
                let mut names: Vec<String> = Vec::new();
                names.push(error_var.clone());
                proof {
                    assert(names@ =~= seq![*error_var]);
                }
                self.check_in_scope(catch_body, names, false)
            },
            AstNodeKind::While { condition, body } => {
                match self.check_node(condition) {
                    Ok(()) => {},
                    Err(e) => {
                        return Err(e);
                    },
                }
                if body.len() == 0 {
                    return Err(linter_error(line, column, "'while' loop has an empty body"));
                }
                self.check_loop_body(body, Vec::new())
            },
            AstNodeKind::For { variable, iterable, body } => {
                if variable.as_str().is_empty() {
                    return Err(linter_error(line, column, "'for' loop missing variable name"));
                }
                match self.check_node(iterable) {
                    Ok(()) => {},
                    Err(e) => {
                        return Err(e);
                    },
                }
                if body.len() == 0 {
                    return Err(linter_error(line, column, "'for' loop has an empty body"));
                }
                let mut names: Vec<String> = Vec::new();
                names.push(variable.clone());
                proof {
                    assert(names@ =~= seq![*variable]);
                }
                self.check_loop_body(body, names)
            },
            AstNodeKind::Assignment { variable, value, is_declaration, .. } => {
                if variable.as_str().is_empty() {
                    return Err(linter_error(line, column, "Assignment missing variable name"));
                }
                match self.check_node(value) {
                    Ok(()) => {},
                    Err(e) => {
                        return Err(e);
                    },
                }
                if *is_declaration {
                    self.declare(variable);
                } else {
                    let v = chars_of(variable.as_str());
                    if !string_contains_char(variable, '.') && !self.is_var_defined(&v) {
                        return Err(
                            linter_error_named(
                                line,
                                column,
                                "Variable '",
                                variable.as_str(),
                                "' is assigned before being declared",
                            ),
                        );
                    }
                }
                Ok(())
            },
            AstNodeKind::FieldDecl { default_value, .. } => {
                match default_value {
                    Some(val) => self.check_node(val),
                    None => Ok(()),
                }
            },
            AstNodeKind::Function { name, params, body, .. } => {
                if name.as_str().is_empty() {
                    return Err(linter_error(line, column, "Function defined without a name"));
                }
                if body.len() == 0 {
                    return Err(
                        linter_error_named(
                            line,
                            column,
                            "Function '",
                            name.as_str(),
                            "' has an empty body",
                        ),
                    );
                }
                self.record_function(name, params.len());
                match self.check_defaults(params) {
                    Ok(()) => {},
                    Err(e) => {
                        return Err(e);
                    },
                }
                let names = Self::param_names(params);
                self.check_in_scope(body, names, true)
            },
            AstNodeKind::Break | AstNodeKind::Continue => {
                if self.in_loop_depth == 0 {
                    return Err(
                        linter_error(
                            line,
                            column,
                            "'break' or 'continue' used outside of a loop",
                        ),
                    );
                }
                Ok(())
            },
            AstNodeKind::StringLiteral(s) => self.check_variables_in_string(s, line, column),
            AstNodeKind::CharLiteral(_) => Ok(()),
            AstNodeKind::Variable(_) => Ok(()),
            AstNodeKind::Return(inner) => self.check_node(inner),
            AstNodeKind::Array(items) => self.check_all(items),
            AstNodeKind::MapLiteral(items) => self.check_map_values(items),
            AstNodeKind::NamespaceDecl { body, .. } => self.check_all(body),
            AstNodeKind::ClassDecl { .. } => self.check_type_members(node),
            AstNodeKind::StructDecl { .. } => self.check_type_members(node),
            AstNodeKind::ObjectInstantiation { args, initializer, .. } => {
                match self.check_all(args) {
                    Ok(()) => {},
                    Err(e) => {
                        return Err(e);
                    },
                }
                match initializer {
                    Some(init) => self.check_all(init),
                    None => Ok(()),
                }
            },
            AstNodeKind::Switch { expression, cases, default_case } => {
                match self.check_node(expression) {
                    Ok(()) => {},
                    Err(e) => {
                        return Err(e);
                    },
                }
                match self.check_cases(cases) {
                    Ok(()) => {},
                    Err(e) => {
                        return Err(e);
                    },
                }
                match default_case {
                    Some(body) => self.check_all(body),
                    None => Ok(()),
                }
            },
            AstNodeKind::InterpolatedString(nodes) => self.check_all(nodes),
            AstNodeKind::KeyValuePair { key, value } => {
                match self.check_node(key) {
                    Ok(()) => {},
                    Err(e) => {
                        return Err(e);
                    },
                }
                self.check_node(value)
            },
            AstNodeKind::MethodCall { object, args, .. } => {
                match self.check_node(object) {
                    Ok(()) => {},
                    Err(e) => {
                        return Err(e);
                    },
                }
                self.check_all(args)
            },
            AstNodeKind::PropertyAccess { object, .. } => self.check_node(object),
            AstNodeKind::EnumDecl { .. } => Ok(()),
            AstNodeKind::WithImport { .. } => Ok(()),
        }
    }
}

} // verus!
