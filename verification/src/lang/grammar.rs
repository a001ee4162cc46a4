use vstd::prelude::*;
use crate::lang::config::find_char;
use crate::lang::parser::{last_dot, literal_word, precedence};
use crate::lang::tokenizer::{tag, Token, TokenKind};
use crate::lang::tree::{Tree, TreeKind};

verus! {

/// What a parsing step gives: a result and the position after it, or a failure.
pub type Parsed<T> = Result<(T, int), ()>;

/// Whether the token at `p` has the variant of `t`.
pub open spec fn at(ts: Seq<Token>, p: int, t: TokenKind) -> bool {
    0 <= p < ts.len() && tag(ts[p].kind) == tag(t)
}

/// The line and column of the token at `p`; of the last token past the end; (1, 1) for no
/// tokens.
pub open spec fn loc(ts: Seq<Token>, p: int) -> (usize, usize) {
    if 0 <= p < ts.len() {
        (ts[p].line, ts[p].column)
    } else if ts.len() > 0 {
        (ts.last().line, ts.last().column)
    } else {
        (1usize, 1usize)
    }
}

/// A node at a position.
pub open spec fn node(kind: TreeKind, l: (usize, usize)) -> Tree {
    Tree { kind, line: l.0, column: l.1 }
}

/// The text of an operator token.
pub open spec fn op_text(k: TokenKind) -> Seq<char> {
    match k {
        TokenKind::Question => "?"@,
        TokenKind::OrElse => "||"@,
        TokenKind::AndThen => "&&"@,
        TokenKind::Equals => "=="@,
        TokenKind::NotEquals => "!="@,
        TokenKind::GreaterThan => ">"@,
        TokenKind::LessThan => "<"@,
        TokenKind::GreaterOrEq => ">="@,
        TokenKind::LessOrEq => "<="@,
        TokenKind::Word(w) => w@,
        _ => Seq::empty(),
    }
}

/// The text of a type token: the word itself, or the keyword as written.
pub open spec fn type_text_of(k: TokenKind) -> Option<Seq<char>> {
    match k {
        TokenKind::Word(w) => Some(w@),
        TokenKind::Var => Some("var"@),
        TokenKind::StringKeyword => Some("string"@),
        TokenKind::IntKeyword => Some("int"@),
        TokenKind::BoolKeyword => Some("bool"@),
        TokenKind::FloatKeyword => Some("float"@),
        TokenKind::CharKeyWord => Some("char"@),
        TokenKind::List => Some("List"@),
        _ => None,
    }
}

/// The node for a value embedded in an interpolated string: a property access for `a.b`
/// (split at the last `.`), a variable otherwise.
pub open spec fn interp_value(text: Seq<char>, l: (usize, usize)) -> Tree {
    let d = last_dot(text);
    if d >= 0 {
        node(
            TreeKind::PropertyAccess {
                object: Box::new(node(TreeKind::Variable(text.take(d)), l)),
                property_name: text.skip(d + 1),
            },
            l,
        )
    } else {
        node(TreeKind::Variable(text), l)
    }
}

/// The pieces of an interpolated string from position `i` on, after the literal text `lit`
/// and the pieces `parts` so far; `None` for an unclosed `{`.
pub open spec fn interp_from(
    s: Seq<char>,
    i: int,
    lit: Seq<char>,
    parts: Seq<Tree>,
    l: (usize, usize),
) -> Option<Seq<Tree>>
    decreases s.len() + 1 - i,
{
    if i < 0 || i >= s.len() {
        Some(
            if lit.len() > 0 {
                parts.push(node(TreeKind::StringLiteral(lit), l))
            } else {
                parts
            },
        )
    } else if s[i] == '{' {
        let with_lit = if lit.len() > 0 {
            parts.push(node(TreeKind::StringLiteral(lit), l))
        } else {
            parts
        };
        let k = find_char(s, '}', i + 1);
        if k <= i || k >= s.len() {
            None
        } else {
            interp_from(
                s,
                k + 1,
                Seq::empty(),
                with_lit.push(interp_value(s.subrange(i + 1, k), l)),
                l,
            )
        }
    } else {
        interp_from(s, i + 1, lit.push(s[i]), parts, l)
    }
}

/// A generic argument list `<...>` from position `q` on (after its `<`), appended to `text`
/// with the closing `>`.
pub open spec fn generic_from(ts: Seq<Token>, q: int, text: Seq<char>) -> Parsed<Seq<char>>
    decreases ts.len() - q,
{
    if q < 0 || q >= ts.len() {
        Err(())
    } else if at(ts, q, TokenKind::GreaterThan) {
        Ok((text + ">"@, q + 1))
    } else if at(ts, q, TokenKind::Comma) {
        generic_from(ts, q + 1, text + ","@)
    } else {
        match type_text_of(ts[q].kind) {
            Some(t) => generic_from(ts, q + 1, text + t),
            None => Err(()),
        }
    }
}

/// `text` followed by a generic argument list `<...>` at position `q`.
pub open spec fn generic_suffix(ts: Seq<Token>, q: int, text: Seq<char>) -> Parsed<Seq<char>> {
    if at(ts, q, TokenKind::LessThan) {
        generic_from(ts, q + 1, text + "<"@)
    } else {
        Err(())
    }
}

/// The key text of a map entry: a string's or a name's text, `unknown_key` otherwise.
pub open spec fn key_text(t: Tree) -> Seq<char> {
    match t.kind {
        TreeKind::StringLiteral(s) => s,
        TreeKind::Variable(v) => v,
        _ => "unknown_key"@,
    }
}

/// An expression at `p`: operands joined by operators, by precedence climbing.
pub open spec fn expression(ts: Seq<Token>, p: int) -> Parsed<Tree>
    decreases ts.len() - p, 4nat,
{
    pratt(ts, p, 0)
}

/// Operands joined by operators of precedence at least `min`: binary operators group to the
/// left, and `c ? a : b` builds a ternary operation.
pub open spec fn pratt(ts: Seq<Token>, p: int, min: int) -> Parsed<Tree>
    decreases ts.len() - p, 3nat,
{
    if p < 0 || p > ts.len() {
        Err(())
    } else {
        match primary(ts, p) {
            Ok((left, q)) => if p < q <= ts.len() {
                pratt_loop(ts, q, left, min)
            } else {
                Err(())
            },
            Err(_) => Err(()),
        }
    }
}

/// The operators after an operand at `q`, applied in turn to `left`.
pub open spec fn pratt_loop(ts: Seq<Token>, q: int, left: Tree, min: int) -> Parsed<Tree>
    decreases ts.len() + 1 - q, 0nat,
{
    if q < 0 || q >= ts.len() {
        Ok((left, q))
    } else {
        let k = ts[q].kind;
        let pr = precedence(k);
        let l = (ts[q].line, ts[q].column);
        if pr == 0 || pr < min {
            Ok((left, q))
        } else if k is Question {
            match pratt(ts, q + 1, 0) {
                Ok((tv, q2)) => if q < q2 < ts.len() && at(ts, q2, TokenKind::Colon) {
                    match pratt(ts, q2 + 1, pr) {
                        Ok((fv, q3)) => if q2 < q3 <= ts.len() {
                            pratt_loop(
                                ts,
                                q3,
                                node(
                                    TreeKind::TernaryOp {
                                        condition: Box::new(left),
                                        true_value: Box::new(tv),
                                        false_value: Box::new(fv),
                                    },
                                    l,
                                ),
                                min,
                            )
                        } else {
                            Err(())
                        },
                        Err(_) => Err(()),
                    }
                } else {
                    Err(())
                },
                Err(_) => Err(()),
            }
        } else {
            match pratt(ts, q + 1, pr + 1) {
                Ok((rt, q2)) => if q < q2 <= ts.len() {
                    pratt_loop(
                        ts,
                        q2,
                        node(
                            TreeKind::BinaryOp {
                                left: Box::new(left),
                                operator: op_text(k),
                                right: Box::new(rt),
                            },
                            l,
                        ),
                        min,
                    )
                } else {
                    Err(())
                },
                Err(_) => Err(()),
            }
        }
    }
}

/// Indexing suffixes `[i]` after an operand at `q`, applied in turn to `t` (each node at `l`).
pub open spec fn index_suffix(ts: Seq<Token>, q: int, t: Tree, l: (usize, usize)) -> Parsed<Tree>
    decreases ts.len() + 1 - q, 0nat,
{
    if at(ts, q, TokenKind::LBracket) {
        match expression(ts, q + 1) {
            Ok((i, q2)) => if q < q2 < ts.len() && at(ts, q2, TokenKind::RBracket) {
                index_suffix(
                    ts,
                    q2 + 1,
                    node(TreeKind::IndexAccess { object: Box::new(t), index: Box::new(i) }, l),
                    l,
                )
            } else {
                Err(())
            },
            Err(_) => Err(()),
        }
    } else {
        Ok((t, q))
    }
}

/// A primary expression at `p`: a literal, a variable, a member access or call (`a.b`,
/// `a.b(...)`, `f(...)`, the latter on the object `___implicit___`; the object is the string
/// literal of the text before the last `.`), indexing, `!x` or `-x`,
/// a parenthesized expression, an array, a map, an interpolated string, or `new T(...)`.
pub open spec fn primary(ts: Seq<Token>, p: int) -> Parsed<Tree>
    decreases ts.len() - p, 2nat,
{
    if p < 0 || p >= ts.len() {
        Err(())
    } else {
        let l = (ts[p].line, ts[p].column);
        match ts[p].kind {
            TokenKind::New => new_expr(ts, p),
            TokenKind::LBracket => array_literal(ts, p),
            TokenKind::LParen => match expression(ts, p + 1) {
                Ok((t, q)) => if p < q < ts.len() && at(ts, q, TokenKind::RParen) {
                    Ok((t, q + 1))
                } else {
                    Err(())
                },
                Err(_) => Err(()),
            },
            TokenKind::StringLiteral(s) => Ok((node(TreeKind::StringLiteral(s@), l), p + 1)),
            TokenKind::CharLiteral(c) => Ok((node(TreeKind::CharLiteral(c), l), p + 1)),
            TokenKind::InterpolatedStringLiteral(s) => match interp_from(
                s@,
                0,
                Seq::empty(),
                Seq::empty(),
                l,
            ) {
                Some(parts) => Ok((node(TreeKind::InterpolatedString(parts), l), p + 1)),
                None => Err(()),
            },
            TokenKind::Word(w) => if w@ == "Map"@ && at(ts, p + 1, TokenKind::LParen) {
                map_literal(ts, p)
            } else if w@ == "!"@ || w@ == "-"@ {
                match primary(ts, p + 1) {
                    Ok((o, q)) => Ok(
                        (node(TreeKind::UnaryOp { operator: w@, operand: Box::new(o) }, l), q),
                    ),
                    Err(_) => Err(()),
                }
            } else if literal_word(w@) {
                Ok((node(TreeKind::StringLiteral(w@), l), p + 1))
            } else {
                let d = last_dot(w@);
                let call = at(ts, p + 1, TokenKind::LParen);
                let base: Parsed<Tree> = if d >= 0 || call {
                    let obj = if d >= 0 {
                        w@.take(d)
                    } else {
                        "___implicit___"@
                    };
                    let member = if d >= 0 {
                        w@.skip(d + 1)
                    } else {
                        w@
                    };
                    let object = Box::new(node(TreeKind::StringLiteral(obj), l));
                    if call {
                        match call_args(ts, p + 1) {
                            Ok((args, q)) => Ok(
                                (
                                    node(
                                        TreeKind::MethodCall { object, method_name: member, args },
                                        l,
                                    ),
                                    q,
                                ),
                            ),
                            Err(_) => Err(()),
                        }
                    } else {
                        Ok(
                            (
                                node(TreeKind::PropertyAccess { object, property_name: member }, l),
                                p + 1,
                            ),
                        )
                    }
                } else {
                    Ok((node(TreeKind::Variable(w@), l), p + 1))
                };
                match base {
                    Ok((t, q)) => if p < q <= ts.len() {
                        index_suffix(ts, q, t, l)
                    } else {
                        Err(())
                    },
                    Err(_) => Err(()),
                }
            },
            _ => Err(()),
        }
    }
}

/// A call's argument list at `p` (its `(`): the arguments up to `)` or the end.
pub open spec fn call_args(ts: Seq<Token>, p: int) -> Parsed<Seq<Tree>>
    decreases ts.len() - p, 1nat,
{
    if p < 0 || p >= ts.len() {
        Err(())
    } else {
        args_from(ts, p + 1, Seq::empty())
    }
}

/// Arguments from `q` on, after `acc`: separated by commas, up to `)` or the end.
pub open spec fn args_from(ts: Seq<Token>, q: int, acc: Seq<Tree>) -> Parsed<Seq<Tree>>
    decreases ts.len() + 1 - q, 0nat,
{
    if q < 0 || q >= ts.len() {
        Ok((acc, q))
    } else if at(ts, q, TokenKind::RParen) {
        Ok((acc, q + 1))
    } else if at(ts, q, TokenKind::Comma) {
        args_from(ts, q + 1, acc)
    } else {
        match expression(ts, q) {
            Ok((a, q2)) => if q < q2 <= ts.len() {
                args_from(ts, q2, acc.push(a))
            } else {
                Err(())
            },
            Err(_) => Err(()),
        }
    }
}

/// `new T` at `p`, with a generic argument list, arguments and an initializer block each
/// optional.
pub open spec fn new_expr(ts: Seq<Token>, p: int) -> Parsed<Tree>
    decreases ts.len() - p, 1nat,
{
    if p < 0 || p + 1 >= ts.len() {
        Err(())
    } else {
        let l = (ts[p].line, ts[p].column);
        let name: Option<Seq<char>> = match ts[p + 1].kind {
            TokenKind::Word(w) => Some(w@),
            TokenKind::List => Some("List"@),
            _ => None,
        };
        match name {
            None => Err(()),
            Some(n) => {
                let q = p + 2;
                let named: Parsed<Seq<char>> = if at(ts, q, TokenKind::LessThan) {
                    generic_suffix(ts, q, n)
                } else {
                    Ok((n, q))
                };
                match named {
                    Err(_) => Err(()),
                    Ok((class_name, q1)) => if !(p < q1 <= ts.len()) {
                        Err(())
                    } else {
                        let with_args: Parsed<Seq<Tree>> = if at(ts, q1, TokenKind::LParen) {
                            call_args(ts, q1)
                        } else {
                            Ok((Seq::empty(), q1))
                        };
                        match with_args {
                            Err(_) => Err(()),
                            Ok((args, q2)) => if !(p < q2 <= ts.len()) {
                                Err(())
                            } else if at(ts, q2, TokenKind::LBrace) {
                                match init_from(ts, q2 + 1, Seq::empty()) {
                                    Ok((items, q3)) => Ok(
                                        (
                                            node(
                                                TreeKind::ObjectInstantiation {
                                                    class_name,
                                                    args,
                                                    initializer: Some(items),
                                                },
                                                l,
                                            ),
                                            q3,
                                        ),
                                    ),
                                    Err(_) => Err(()),
                                }
                            } else {
                                Ok(
                                    (
                                        node(
                                            TreeKind::ObjectInstantiation {
                                                class_name,
                                                args,
                                                initializer: None,
                                            },
                                            l,
                                        ),
                                        q2,
                                    ),
                                )
                            },
                        }
                    },
                }
            },
        }
    }
}

/// The items of an initializer block from `q` on, after `items`: expressions or `key: value`
/// pairs, separated by commas or line breaks, up to `}`.
pub open spec fn init_from(ts: Seq<Token>, q: int, items: Seq<Tree>) -> Parsed<Seq<Tree>>
    decreases ts.len() + 1 - q, 0nat,
{
    if q < 0 || q >= ts.len() {
        Err(())
    } else if at(ts, q, TokenKind::RBrace) {
        Ok((items, q + 1))
    } else if at(ts, q, TokenKind::Comma) || at(ts, q, TokenKind::Semicolon) {
        init_from(ts, q + 1, items)
    } else {
        let l = (ts[q].line, ts[q].column);
        match expression(ts, q) {
            Ok((item, q2)) => if !(q < q2 <= ts.len()) {
                Err(())
            } else if at(ts, q2, TokenKind::Colon) {
                match expression(ts, q2 + 1) {
                    Ok((v, q3)) => if q2 < q3 <= ts.len() {
                        init_from(
                            ts,
                            q3,
                            items.push(
                                node(
                                    TreeKind::KeyValuePair {
                                        key: Box::new(item),
                                        value: Box::new(v),
                                    },
                                    l,
                                ),
                            ),
                        )
                    } else {
                        Err(())
                    },
                    Err(_) => Err(()),
                }
            } else {
                init_from(ts, q2, items.push(item))
            },
            Err(_) => Err(()),
        }
    }
}

/// An array literal at `p` (its `[`): expressions, each optionally followed by a comma, up to
/// `]` or the end.
pub open spec fn array_literal(ts: Seq<Token>, p: int) -> Parsed<Tree>
    decreases ts.len() - p, 1nat,
{
    if p < 0 || p >= ts.len() {
        Err(())
    } else {
        match array_from(ts, p + 1, Seq::empty()) {
            Ok((items, q)) => Ok((node(TreeKind::Array(items), (ts[p].line, ts[p].column)), q)),
            Err(_) => Err(()),
        }
    }
}

/// Array items from `q` on, after `items`.
pub open spec fn array_from(ts: Seq<Token>, q: int, items: Seq<Tree>) -> Parsed<Seq<Tree>>
    decreases ts.len() + 1 - q, 0nat,
{
    if q < 0 || q >= ts.len() {
        Ok((items, q))
    } else if at(ts, q, TokenKind::RBracket) {
        Ok((items, q + 1))
    } else {
        match expression(ts, q) {
            Ok((n, q2)) => if q < q2 <= ts.len() {
                array_from(
                    ts,
                    if at(ts, q2, TokenKind::Comma) {
                        q2 + 1
                    } else {
                        q2
                    },
                    items.push(n),
                )
            } else {
                Err(())
            },
            Err(_) => Err(()),
        }
    }
}

/// A map literal at `p` (`Map` and `(`): entries `{k: v}`, each optionally followed by a
/// comma, up to `)`.
pub open spec fn map_literal(ts: Seq<Token>, p: int) -> Parsed<Tree>
    decreases ts.len() - p, 1nat,
{
    if p < 0 || p + 1 >= ts.len() {
        Err(())
    } else {
        match map_from(ts, p + 2, Seq::empty()) {
            Ok((items, q)) => Ok(
                (node(TreeKind::MapLiteral(items), (ts[p].line, ts[p].column)), q),
            ),
            Err(_) => Err(()),
        }
    }
}

/// Map entries from `q` on, after `items`, and the closing `)`.
pub open spec fn map_from(ts: Seq<Token>, q: int, items: Seq<(Seq<char>, Tree)>) -> Parsed<
    Seq<(Seq<char>, Tree)>,
>
    decreases ts.len() + 1 - q, 0nat,
{
    if q < 0 || q > ts.len() {
        Err(())
    } else if q == ts.len() || at(ts, q, TokenKind::RParen) {
        if at(ts, q, TokenKind::RParen) {
            Ok((items, q + 1))
        } else {
            Err(())
        }
    } else if !at(ts, q, TokenKind::LBrace) {
        Err(())
    } else {
        match expression(ts, q + 1) {
            Ok((k, q2)) => if q < q2 < ts.len() && at(ts, q2, TokenKind::Colon) {
                match expression(ts, q2 + 1) {
                    Ok((v, q3)) => if q2 < q3 < ts.len() && at(ts, q3, TokenKind::RBrace) {
                        map_from(
                            ts,
                            if at(ts, q3 + 1, TokenKind::Comma) {
                                q3 + 2
                            } else {
                                q3 + 1
                            },
                            items.push((key_text(k), v)),
                        )
                    } else {
                        Err(())
                    },
                    Err(_) => Err(()),
                }
            } else {
                Err(())
            },
            Err(_) => Err(()),
        }
    }
}

} // verus!

verus! {

/// A binary operation node.
pub open spec fn bin(l: Tree, op: Seq<char>, r: Tree, at: (usize, usize)) -> Tree {
    node(TreeKind::BinaryOp { left: Box::new(l), operator: op, right: Box::new(r) }, at)
}

/// How tightly the binary operators bind, from loosest to tightest: `||`; `&&`; `==` and `!=`;
/// `<`, `>`, `<=`, `>=`; `+` and `-`; `*`, `/` and `%`. 0 for a token that is no binary
/// operator.
pub open spec fn binding(k: TokenKind) -> int {
    match k {
        TokenKind::OrElse => 1,
        TokenKind::AndThen => 2,
        TokenKind::Equals | TokenKind::NotEquals => 3,
        TokenKind::GreaterThan | TokenKind::LessThan | TokenKind::GreaterOrEq
        | TokenKind::LessOrEq => 4,
        TokenKind::Word(w) => if w@ == "+"@ || w@ == "-"@ {
            5
        } else if w@ == "*"@ || w@ == "/"@ || w@ == "%"@ {
            6
        } else {
            0
        },
        _ => 0,
    }
}

/// Two binary operators in a row group by how tightly they bind: for any operands `a`, `b`,
/// `c` (each one primary token), `a op1 b op2 c` groups as `a op1 (b op2 c)` where `op2` binds
/// tighter than `op1`, and as `(a op1 b) op2 c` otherwise (operators of one level group to the
/// left).
pub proof fn lemma_binary_operators_group(ts: Seq<Token>, a: Tree, b: Tree, c: Tree)
    requires
        ts.len() == 5,
        primary(ts, 0) == Ok::<(Tree, int), ()>((a, 1)),
        primary(ts, 2) == Ok::<(Tree, int), ()>((b, 3)),
        primary(ts, 4) == Ok::<(Tree, int), ()>((c, 5)),
        binding(ts[1].kind) > 0,
        binding(ts[3].kind) > 0,
    ensures
        binding(ts[1].kind) < binding(ts[3].kind) ==> expression(ts, 0) == Ok::<(Tree, int), ()>(
            (
                bin(a, op_text(ts[1].kind), bin(b, op_text(ts[3].kind), c, loc(ts, 3)), loc(ts, 1)),
                5,
            ),
        ),
        binding(ts[1].kind) >= binding(ts[3].kind) ==> expression(ts, 0) == Ok::<(Tree, int), ()>(
            (
                bin(bin(a, op_text(ts[1].kind), b, loc(ts, 1)), op_text(ts[3].kind), c, loc(ts, 3)),
                5,
            ),
        ),
{
    reveal_strlit("+");
    reveal_strlit("-");
    reveal_strlit("*");
    reveal_strlit("/");
    reveal_strlit("%");
    let k1 = ts[1].kind;
    let k3 = ts[3].kind;
    assert(precedence(k1) == binding(k1) + 1);
    assert(precedence(k3) == binding(k3) + 1);
    assert(!(k1 is Question) && !(k3 is Question));
    let p1 = precedence(k1);
    let p3 = precedence(k3);
    let l1 = loc(ts, 1);
    let l3 = loc(ts, 3);
    assert(pratt_loop(ts, 5, c, p3 + 1) == Ok::<(Tree, int), ()>((c, 5)));
    assert(pratt(ts, 4, p3 + 1) == Ok::<(Tree, int), ()>((c, 5)));
    if p1 < p3 {
        let bc = bin(b, op_text(k3), c, l3);
        let whole = bin(a, op_text(k1), bc, l1);
        assert(pratt_loop(ts, 5, bc, p1 + 1) == Ok::<(Tree, int), ()>((bc, 5)));
        assert(pratt_loop(ts, 3, b, p1 + 1) == Ok::<(Tree, int), ()>((bc, 5)));
        assert(pratt(ts, 2, p1 + 1) == Ok::<(Tree, int), ()>((bc, 5)));
        assert(pratt_loop(ts, 5, whole, 0) == Ok::<(Tree, int), ()>((whole, 5)));
        assert(pratt_loop(ts, 1, a, 0) == Ok::<(Tree, int), ()>((whole, 5)));
        assert(pratt(ts, 0, 0) == Ok::<(Tree, int), ()>((whole, 5)));
    } else {
        let ab = bin(a, op_text(k1), b, l1);
        let whole = bin(ab, op_text(k3), c, l3);
        assert(pratt_loop(ts, 3, b, p1 + 1) == Ok::<(Tree, int), ()>((b, 3)));
        assert(pratt(ts, 2, p1 + 1) == Ok::<(Tree, int), ()>((b, 3)));
        assert(pratt_loop(ts, 5, whole, 0) == Ok::<(Tree, int), ()>((whole, 5)));
        assert(pratt_loop(ts, 3, ab, 0) == Ok::<(Tree, int), ()>((whole, 5)));
        assert(pratt_loop(ts, 1, a, 0) == Ok::<(Tree, int), ()>((whole, 5)));
        assert(pratt(ts, 0, 0) == Ok::<(Tree, int), ()>((whole, 5)));
    }
}

/// `&&` binds tighter than `||`: for any operands `a`, `b`, `c` (each one primary token),
/// `a || b && c` groups as `a || (b && c)` and `a && b || c` as `(a && b) || c`.
pub proof fn lemma_and_binds_tighter_than_or(ts: Seq<Token>, a: Tree, b: Tree, c: Tree)
    requires
        ts.len() == 5,
        primary(ts, 0) == Ok::<(Tree, int), ()>((a, 1)),
        primary(ts, 2) == Ok::<(Tree, int), ()>((b, 3)),
        primary(ts, 4) == Ok::<(Tree, int), ()>((c, 5)),
    ensures
        ts[1].kind is OrElse && ts[3].kind is AndThen ==> expression(ts, 0) == Ok::<(Tree, int), ()>(
            (bin(a, "||"@, bin(b, "&&"@, c, loc(ts, 3)), loc(ts, 1)), 5),
        ),
        ts[1].kind is AndThen && ts[3].kind is OrElse ==> expression(ts, 0) == Ok::<(Tree, int), ()>(
            (bin(bin(a, "&&"@, b, loc(ts, 1)), "||"@, c, loc(ts, 3)), 5),
        ),
{
    let l1 = loc(ts, 1);
    let l3 = loc(ts, 3);
    if ts[1].kind is OrElse && ts[3].kind is AndThen {
        let bc = bin(b, "&&"@, c, l3);
        let whole = bin(a, "||"@, bc, l1);
        assert(pratt_loop(ts, 5, c, 4) == Ok::<(Tree, int), ()>((c, 5)));
        assert(pratt(ts, 4, 4) == Ok::<(Tree, int), ()>((c, 5)));
        assert(pratt_loop(ts, 5, bc, 3) == Ok::<(Tree, int), ()>((bc, 5)));
        assert(pratt_loop(ts, 3, b, 3) == Ok::<(Tree, int), ()>((bc, 5)));
        assert(pratt(ts, 2, 3) == Ok::<(Tree, int), ()>((bc, 5)));
        assert(pratt_loop(ts, 5, whole, 0) == Ok::<(Tree, int), ()>((whole, 5)));
        assert(pratt_loop(ts, 1, a, 0) == Ok::<(Tree, int), ()>((whole, 5)));
        assert(pratt(ts, 0, 0) == Ok::<(Tree, int), ()>((whole, 5)));
    }
    if ts[1].kind is AndThen && ts[3].kind is OrElse {
        let ab = bin(a, "&&"@, b, l1);
        let whole = bin(ab, "||"@, c, l3);
        assert(pratt_loop(ts, 3, b, 4) == Ok::<(Tree, int), ()>((b, 3)));
        assert(pratt(ts, 2, 4) == Ok::<(Tree, int), ()>((b, 3)));
        assert(pratt_loop(ts, 5, c, 3) == Ok::<(Tree, int), ()>((c, 5)));
        assert(pratt(ts, 4, 3) == Ok::<(Tree, int), ()>((c, 5)));
        assert(pratt_loop(ts, 5, whole, 0) == Ok::<(Tree, int), ()>((whole, 5)));
        assert(pratt_loop(ts, 3, ab, 0) == Ok::<(Tree, int), ()>((whole, 5)));
        assert(pratt_loop(ts, 1, a, 0) == Ok::<(Tree, int), ()>((whole, 5)));
        assert(pratt(ts, 0, 0) == Ok::<(Tree, int), ()>((whole, 5)));
    }
}

} // verus!
