use vstd::prelude::*;
use crate::lang::ast::AccessSpecifier;
use crate::lang::grammar::{at, expression, generic_suffix, loc, node, type_text_of, Parsed};
use crate::lang::parser::{is_top_level_token, is_type_token};
use crate::lang::tokenizer::{tag, Token, TokenKind};
use crate::lang::tree::{ParamTree, Tree, TreeKind};

verus! {

/// The members a class body has collected: methods, fields, constructor and destructor.
pub type ClassParts = (
    Seq<Tree>,
    Seq<Tree>,
    Option<(AccessSpecifier, Seq<ParamTree>, Seq<Tree>)>,
    Option<Seq<Tree>>,
);

/// The members a struct body has collected: fields, constructor and destructor.
pub type StructParts = (
    Seq<Tree>,
    Option<(AccessSpecifier, Seq<ParamTree>, Seq<Tree>)>,
    Option<Seq<Tree>>,
);

/// The first position from `i` on that holds a token with the variant of `t`, or the length.
pub open spec fn skip_to(ts: Seq<Token>, i: int, t: TokenKind) -> int
    decreases ts.len() - i,
{
    if i < 0 || i >= ts.len() {
        ts.len() as int
    } else if tag(ts[i].kind) == tag(t) {
        i
    } else {
        skip_to(ts, i + 1, t)
    }
}

/// The text of the word at `p`, if the token there is a word.
pub open spec fn word_at(ts: Seq<Token>, p: int) -> Option<Seq<char>> {
    if 0 <= p < ts.len() {
        match ts[p].kind {
            TokenKind::Word(w) => Some(w@),
            _ => None,
        }
    } else {
        None
    }
}

/// Whether a token is the word `in`.
pub open spec fn is_in(k: TokenKind) -> bool {
    k matches TokenKind::Word(w) && w@ == "in"@
}

/// Whether the tokens at `p` read `type name =`, the type optionally followed by `[]` or by a
/// generic argument list `<...>`.
pub open spec fn decl_ahead(ts: Seq<Token>, p: int) -> bool {
    &&& 0 <= p < ts.len()
    &&& is_type_token(ts[p].kind)
    &&& {
        let q = if at(ts, p + 1, TokenKind::LBracket) && at(ts, p + 2, TokenKind::RBracket) {
            p + 3
        } else if at(ts, p + 1, TokenKind::LessThan) {
            skip_to(ts, p + 1, TokenKind::GreaterThan) + 1
        } else {
            p + 1
        };
        q < ts.len() && ts[q].kind is Word && at(ts, q + 1, TokenKind::Assign)
    }
}

/// Whether the tokens at `p` read `name =` or `name[...] =`.
pub open spec fn assign_ahead(ts: Seq<Token>, p: int) -> bool {
    &&& 0 <= p < ts.len()
    &&& ts[p].kind is Word
    &&& at(
        ts,
        if at(ts, p + 1, TokenKind::LBracket) {
            let j = skip_to(ts, p + 1, TokenKind::RBracket);
            if j < ts.len() {
                j + 1
            } else {
                j
            }
        } else {
            p + 1
        },
        TokenKind::Assign,
    )
}

/// A type at `p`: its text, `[]` appended for an array type, a generic argument list kept;
/// with whether it is an array type.
pub open spec fn type_at(ts: Seq<Token>, p: int) -> Parsed<(Seq<char>, bool)> {
    if p < 0 || p >= ts.len() {
        Err(())
    } else {
        match type_text_of(ts[p].kind) {
            None => Err(()),
            Some(t) => if at(ts, p + 1, TokenKind::LBracket) {
                if at(ts, p + 2, TokenKind::RBracket) {
                    Ok(((t + "[]"@, true), p + 3))
                } else {
                    Err(())
                }
            } else if at(ts, p + 1, TokenKind::LessThan) {
                match generic_suffix(ts, p + 1, t) {
                    Ok((g, q)) => Ok(((g, false), q)),
                    Err(_) => Err(()),
                }
            } else {
                Ok(((t, false), p + 1))
            },
        }
    }
}

/// A statement at `p`; `decl` tells whether declarations are allowed there.
pub open spec fn statement(ts: Seq<Token>, p: int, decl: bool) -> Parsed<Tree>
    decreases ts.len() - p, 9nat,
{
    if p < 0 || p >= ts.len() {
        Err(())
    } else {
        let l = loc(ts, p);
        match ts[p].kind {
            TokenKind::If => if_stmt(ts, p),
            TokenKind::For | TokenKind::Foreach => for_loop(ts, p),
            TokenKind::WhileAsync | TokenKind::WhileLoop => while_loop(ts, p),
            TokenKind::Public | TokenKind::Private | TokenKind::Protected | TokenKind::Internal
            | TokenKind::Static | TokenKind::Class | TokenKind::Struct | TokenKind::Function
            | TokenKind::Enum => if decl {
                declaration(ts, p)
            } else {
                Err(())
            },
            TokenKind::With => with_import(ts, p),
            TokenKind::Namespace => namespace(ts, p),
            TokenKind::Switch => switch(ts, p),
            TokenKind::Return => {
                let q = p + 1;
                if q < ts.len() && !at(ts, q, TokenKind::RBrace) && !at(ts, q, TokenKind::Semicolon)
                    && !at(ts, q, TokenKind::Then) {
                    match expression(ts, q) {
                        Ok((v, q2)) => Ok((node(TreeKind::Return(Box::new(v)), l), q2)),
                        Err(_) => Err(()),
                    }
                } else {
                    Ok(
                        (
                            node(
                                TreeKind::Return(
                                    Box::new(node(TreeKind::StringLiteral("null"@), l)),
                                ),
                                l,
                            ),
                            q,
                        ),
                    )
                }
            },
            TokenKind::Break => Ok((node(TreeKind::Break, l), p + 1)),
            TokenKind::Continue => Ok((node(TreeKind::Continue, l), p + 1)),
            TokenKind::Try => try_catch(ts, p),
            _ => if decl_ahead(ts, p) {
                assignment(ts, p, true)
            } else if assign_ahead(ts, p) {
                assignment(ts, p, false)
            } else {
                expression(ts, p)
            },
        }
    }
}

/// `name = value`, `name[index] = value`, or, for a declaration, `type name = value`; an array
/// type must be given an array literal.
pub open spec fn assignment(ts: Seq<Token>, p: int, d: bool) -> Parsed<Tree>
    decreases ts.len() - p, 8nat,
{
    let l = loc(ts, p);
    let typed: Parsed<(Option<Seq<char>>, bool)> = if d {
        match type_at(ts, p) {
            Ok(((t, a), q)) => Ok(((Some(t), a), q)),
            Err(_) => Err(()),
        }
    } else {
        Ok(((None, false), p))
    };
    match typed {
        Err(_) => Err(()),
        Ok(((ty, arr), q)) => match word_at(ts, q) {
            None => Err(()),
            Some(name) => {
                let q1 = q + 1;
                let indexed: Parsed<Option<Tree>> = if !d && at(ts, q1, TokenKind::LBracket) {
                    if p <= q {
                        match expression(ts, q1 + 1) {
                            Ok((i, q2)) => if at(ts, q2, TokenKind::RBracket) {
                                Ok((Some(i), q2 + 1))
                            } else {
                                Err(())
                            },
                            Err(_) => Err(()),
                        }
                    } else {
                        Err(())
                    }
                } else {
                    Ok((None, q1))
                };
                match indexed {
                    Err(_) => Err(()),
                    Ok((idx, q3)) => if p <= q3 && at(ts, q3, TokenKind::Assign) {
                        match expression(ts, q3 + 1) {
                            Ok((v, q4)) => if arr && !(v.kind is Array) {
                                Err(())
                            } else {
                                Ok(
                                    (
                                        node(
                                            TreeKind::Assignment {
                                                type_specifier: ty,
                                                variable: name,
                                                index: match idx {
                                                    Some(i) => Some(Box::new(i)),
                                                    None => None,
                                                },
                                                value: Box::new(v),
                                                is_declaration: d,
                                            },
                                            l,
                                        ),
                                        q4,
                                    ),
                                )
                            },
                            Err(_) => Err(()),
                        }
                    } else {
                        Err(())
                    },
                }
            },
        },
    }
}

/// `if (condition) { ... }`, optionally followed by `else { ... }`, `else if ...` or
/// `elif ...`; the latter two give an else branch holding the nested `if`.
pub open spec fn if_stmt(ts: Seq<Token>, p: int) -> Parsed<Tree>
    decreases ts.len() - p, 8nat,
{
    let l = loc(ts, p);
    if !at(ts, p + 1, TokenKind::LParen) {
        Err(())
    } else {
        match expression(ts, p + 2) {
            Err(_) => Err(()),
            Ok((c, q)) => if !(p < q && at(ts, q, TokenKind::RParen)) {
                Err(())
            } else {
                match block(ts, q + 1) {
                    Err(_) => Err(()),
                    Ok((body, q2)) => if !(q < q2) {
                        Err(())
                    } else {
                        let els: Parsed<Option<Seq<Tree>>> = if at(ts, q2, TokenKind::Else) {
                            if at(ts, q2 + 1, TokenKind::If) {
                                match if_stmt(ts, q2 + 1) {
                                    Ok((n, q3)) => Ok((Some(seq![n]), q3)),
                                    Err(_) => Err(()),
                                }
                            } else {
                                match block(ts, q2 + 1) {
                                    Ok((b, q3)) => Ok((Some(b), q3)),
                                    Err(_) => Err(()),
                                }
                            }
                        } else if at(ts, q2, TokenKind::Elif) {
                            match if_stmt(ts, q2) {
                                Ok((n, q3)) => Ok((Some(seq![n]), q3)),
                                Err(_) => Err(()),
                            }
                        } else {
                            Ok((None, q2))
                        };
                        match els {
                            Ok((e, q3)) => Ok(
                                (
                                    node(
                                        TreeKind::If {
                                            condition: Box::new(c),
                                            body,
                                            else_body: e,
                                        },
                                        l,
                                    ),
                                    q3,
                                ),
                            ),
                            Err(_) => Err(()),
                        }
                    },
                }
            },
        }
    }
}

/// `for` or `foreach`, with or without parentheses around the header: a variable (after an
/// optional type), optionally `in`, an iterable expression, then a block.
pub open spec fn for_loop(ts: Seq<Token>, p: int) -> Parsed<Tree>
    decreases ts.len() - p, 8nat,
{
    let l = loc(ts, p);
    let q = p + 1;
    let paren = at(ts, q, TokenKind::LParen);
    let q1 = if paren {
        q + 1
    } else {
        q
    };
    let q2 = if q1 < ts.len() && ts.len() - q1 > 2 && is_type_token(ts[q1].kind) && ts[q1
        + 1].kind is Word && is_in(ts[q1 + 2].kind) {
        q1 + 1
    } else {
        q1
    };
    match word_at(ts, q2) {
        None => Err(()),
        Some(v) => {
            let q3 = if q2 + 1 < ts.len() && is_in(ts[q2 + 1].kind) {
                q2 + 2
            } else {
                q2 + 1
            };
            match expression(ts, q3) {
                Err(_) => Err(()),
                Ok((it, q4)) => if !(q3 < q4 <= ts.len()) {
                    Err(())
                } else {
                    let q5: Option<int> = if paren {
                        if at(ts, q4, TokenKind::RParen) {
                            Some(q4 + 1)
                        } else {
                            None
                        }
                    } else {
                        Some(q4)
                    };
                    match q5 {
                        None => Err(()),
                        Some(q5) => match block(ts, q5) {
                            Ok((b, q6)) => Ok(
                                (node(TreeKind::For { variable: v, iterable: Box::new(it), body: b }, l), q6),
                            ),
                            Err(_) => Err(()),
                        },
                    }
                },
            }
        },
    }
}

/// `while (condition) { ... }`.
pub open spec fn while_loop(ts: Seq<Token>, p: int) -> Parsed<Tree>
    decreases ts.len() - p, 8nat,
{
    let l = loc(ts, p);
    if !at(ts, p + 1, TokenKind::LParen) {
        Err(())
    } else {
        match expression(ts, p + 2) {
            Err(_) => Err(()),
            Ok((c, q)) => if !(p < q && at(ts, q, TokenKind::RParen)) {
                Err(())
            } else {
                match block(ts, q + 1) {
                    Ok((b, q2)) => Ok(
                        (node(TreeKind::While { condition: Box::new(c), body: b }, l), q2),
                    ),
                    Err(_) => Err(()),
                }
            },
        }
    }
}

/// `try { ... } catch name { ... }`; the error variable is `err` when no name is given.
pub open spec fn try_catch(ts: Seq<Token>, p: int) -> Parsed<Tree>
    decreases ts.len() - p, 8nat,
{
    let l = loc(ts, p);
    if p < 0 || p >= ts.len() {
        Err(())
    } else {
    match block(ts, p + 1) {
        Err(_) => Err(()),
        Ok((tb, q)) => if !(p < q && at(ts, q, TokenKind::Catch)) {
            Err(())
        } else {
            let q1 = q + 1;
            let named: (Seq<char>, int) = match word_at(ts, q1) {
                Some(w) => if w != "{"@ {
                    (w, q1 + 1)
                } else {
                    ("err"@, q1)
                },
                None => ("err"@, q1),
            };
            match block(ts, named.1) {
                Ok((cb, q3)) => Ok(
                    (
                        node(
                            TreeKind::TryCatch { try_body: tb, error_var: named.0, catch_body: cb },
                            l,
                        ),
                        q3,
                    ),
                ),
                Err(_) => Err(()),
            }
        },
    }
    }
}

/// `switch (value) { case v: { ... } ... default: { ... } }`.
pub open spec fn switch(ts: Seq<Token>, p: int) -> Parsed<Tree>
    decreases ts.len() - p, 8nat,
{
    let l = loc(ts, p);
    if !at(ts, p + 1, TokenKind::LParen) {
        Err(())
    } else {
        match expression(ts, p + 2) {
            Err(_) => Err(()),
            Ok((e, q)) => if !(p < q && at(ts, q, TokenKind::RParen) && at(
                ts,
                q + 1,
                TokenKind::LBrace,
            )) {
                Err(())
            } else {
                match switch_from(ts, q + 2, Seq::empty(), None) {
                    Ok(((cs, d), q2)) => Ok(
                        (
                            node(
                                TreeKind::Switch {
                                    expression: Box::new(e),
                                    cases: cs,
                                    default_case: d,
                                },
                                l,
                            ),
                            q2,
                        ),
                    ),
                    Err(_) => Err(()),
                }
            },
        }
    }
}

/// The cases of a switch from `q` on, after those collected, up to the closing `}`.
pub open spec fn switch_from(
    ts: Seq<Token>,
    q: int,
    cases: Seq<(Tree, Seq<Tree>)>,
    dflt: Option<Seq<Tree>>,
) -> Parsed<(Seq<(Tree, Seq<Tree>)>, Option<Seq<Tree>>)>
    decreases ts.len() + 1 - q, 0nat,
{
    if q < 0 || q >= ts.len() {
        Err(())
    } else if at(ts, q, TokenKind::RBrace) {
        Ok(((cases, dflt), q + 1))
    } else if at(ts, q, TokenKind::Semicolon) {
        switch_from(ts, q + 1, cases, dflt)
    } else if at(ts, q, TokenKind::Case) {
        match expression(ts, q + 1) {
            Ok((v, q2)) => if q < q2 && at(ts, q2, TokenKind::Colon) {
                match block(ts, q2 + 1) {
                    Ok((b, q3)) => if q2 < q3 <= ts.len() {
                        switch_from(ts, q3, cases.push((v, b)), dflt)
                    } else {
                        Err(())
                    },
                    Err(_) => Err(()),
                }
            } else {
                Err(())
            },
            Err(_) => Err(()),
        }
    } else if at(ts, q, TokenKind::Default) {
        if at(ts, q + 1, TokenKind::Colon) {
            match block(ts, q + 2) {
                Ok((b, q3)) => if q < q3 <= ts.len() {
                    switch_from(ts, q3, cases, Some(b))
                } else {
                    Err(())
                },
                Err(_) => Err(()),
            }
        } else {
            Err(())
        }
    } else {
        Err(())
    }
}

/// `namespace Name { ... }`; its statements are in the declaration context.
pub open spec fn namespace(ts: Seq<Token>, p: int) -> Parsed<Tree>
    decreases ts.len() - p, 8nat,
{
    let l = loc(ts, p);
    match word_at(ts, p + 1) {
        None => Err(()),
        Some(name) => if !at(ts, p + 2, TokenKind::LBrace) {
            Err(())
        } else {
            match namespace_from(ts, p + 3, Seq::empty()) {
                Ok((b, q)) => Ok((node(TreeKind::NamespaceDecl { name, body: b }, l), q)),
                Err(_) => Err(()),
            }
        },
    }
}

/// The statements of a namespace body from `q` on, after `body`, up to `}` or the end.
pub open spec fn namespace_from(ts: Seq<Token>, q: int, body: Seq<Tree>) -> Parsed<Seq<Tree>>
    decreases ts.len() + 1 - q, 0nat,
{
    if q < 0 || q >= ts.len() {
        Ok((body, q))
    } else if at(ts, q, TokenKind::RBrace) {
        Ok((body, q + 1))
    } else if at(ts, q, TokenKind::Semicolon) {
        namespace_from(ts, q + 1, body)
    } else {
        match statement(ts, q, true) {
            Ok((s, q2)) => if q < q2 <= ts.len() {
                namespace_from(ts, q2, body.push(s))
            } else {
                Err(())
            },
            Err(_) => Err(()),
        }
    }
}

/// The access and `static` flag that the modifiers from `q` on give, and where they end.
pub open spec fn modifiers(ts: Seq<Token>, q: int, access: AccessSpecifier, st: bool) -> (
    AccessSpecifier,
    bool,
    int,
)
    decreases ts.len() - q,
{
    if q < 0 || q >= ts.len() {
        (access, st, q)
    } else {
        match ts[q].kind {
            TokenKind::Public => modifiers(ts, q + 1, AccessSpecifier::Public, st),
            TokenKind::Private => modifiers(ts, q + 1, AccessSpecifier::Private, st),
            TokenKind::Protected => modifiers(ts, q + 1, AccessSpecifier::Protected, st),
            TokenKind::Internal => modifiers(ts, q + 1, AccessSpecifier::Internal, st),
            TokenKind::Static => modifiers(ts, q + 1, access, true),
            _ => (access, st, q),
        }
    }
}

/// A declaration at `p`: modifiers (access internal unless given), then a class, struct,
/// function, enum, or field.
pub open spec fn declaration(ts: Seq<Token>, p: int) -> Parsed<Tree>
    decreases ts.len() - p, 8nat,
{
    let m = modifiers(ts, p, AccessSpecifier::Internal, false);
    let q = m.2;
    if !(p <= q < ts.len()) {
        Err(())
    } else {
        match ts[q].kind {
            TokenKind::Class => class_decl(ts, q, m.0, m.1),
            TokenKind::Struct => struct_decl(ts, q, m.0),
            TokenKind::Function => function(ts, q, m.0, m.1),
            TokenKind::Enum => enum_decl(ts, q, m.0),
            _ => if is_type_token(ts[q].kind) && word_at(ts, q + 1) is Some {
                field(ts, q, m.0, m.1)
            } else {
                Err(())
            },
        }
    }
}

/// A field `type name`, optionally `= value`.
pub open spec fn field(ts: Seq<Token>, p: int, access: AccessSpecifier, st: bool) -> Parsed<Tree>
    decreases ts.len() - p, 7nat,
{
    let l = loc(ts, p);
    match type_at(ts, p) {
        Err(_) => Err(()),
        Ok(((t, _), q)) => match word_at(ts, q) {
            None => Err(()),
            Some(name) => if at(ts, q + 1, TokenKind::Assign) {
                if p <= q {
                    match expression(ts, q + 2) {
                        Ok((v, q2)) => Ok(
                            (
                                node(
                                    TreeKind::FieldDecl {
                                        name,
                                        type_specifier: Some(t),
                                        access,
                                        is_static: st,
                                        default_value: Some(Box::new(v)),
                                    },
                                    l,
                                ),
                                q2,
                            ),
                        ),
                        Err(_) => Err(()),
                    }
                } else {
                    Err(())
                }
            } else {
                Ok(
                    (
                        node(
                            TreeKind::FieldDecl {
                                name,
                                type_specifier: Some(t),
                                access,
                                is_static: st,
                                default_value: None,
                            },
                            l,
                        ),
                        q + 1,
                    ),
                )
            },
        },
    }
}

/// `class Name { ... }` or `class Name : Base { ... }`.
pub open spec fn class_decl(ts: Seq<Token>, p: int, access: AccessSpecifier, st: bool) -> Parsed<
    Tree,
>
    decreases ts.len() - p, 7nat,
{
    let l = loc(ts, p);
    match word_at(ts, p + 1) {
        None => Err(()),
        Some(name) => {
            let based: Option<(Option<Seq<char>>, int)> = if at(ts, p + 2, TokenKind::Colon) {
                match word_at(ts, p + 3) {
                    Some(b) => Some((Some(b), p + 4)),
                    None => None,
                }
            } else {
                Some((None, p + 2))
            };
            match based {
                None => Err(()),
                Some((base, q)) => if !at(ts, q, TokenKind::LBrace) {
                    Err(())
                } else {
                    match class_from(ts, q + 1, name, (Seq::empty(), Seq::empty(), None, None)) {
                        Ok((parts, q2)) => Ok(
                            (
                                node(
                                    TreeKind::ClassDecl {
                                        name,
                                        base_class: base,
                                        access,
                                        is_static: st,
                                        methods: parts.0,
                                        fields: parts.1,
                                        constructor: parts.2,
                                        destructor: parts.3,
                                    },
                                    l,
                                ),
                                q2,
                            ),
                        ),
                        Err(_) => Err(()),
                    }
                },
            }
        },
    }
}

/// The members of class `name` from `q` on, after those collected, up to `}` or the end: a
/// function named as the class is its constructor, one named `~name` its destructor, other
/// functions its methods, and other declarations its fields.
pub open spec fn class_from(ts: Seq<Token>, q: int, name: Seq<char>, parts: ClassParts) -> Parsed<
    ClassParts,
>
    decreases ts.len() + 1 - q, 0nat,
{
    if q < 0 || q >= ts.len() {
        Ok((parts, q))
    } else if at(ts, q, TokenKind::RBrace) {
        Ok((parts, q + 1))
    } else if at(ts, q, TokenKind::Semicolon) {
        class_from(ts, q + 1, name, parts)
    } else {
        match declaration(ts, q) {
            Err(_) => Err(()),
            Ok((d, q2)) => if !(q < q2 <= ts.len()) {
                Err(())
            } else {
                match d.kind {
                    TreeKind::Function { name: f, params, body, access: fa, .. } => if f == name {
                        class_from(ts, q2, name, (parts.0, parts.1, Some((fa, params, body)), parts.3))
                    } else if f == "~"@ + name {
                        class_from(ts, q2, name, (parts.0, parts.1, parts.2, Some(body)))
                    } else {
                        class_from(ts, q2, name, (parts.0.push(d), parts.1, parts.2, parts.3))
                    },
                    _ => class_from(ts, q2, name, (parts.0, parts.1.push(d), parts.2, parts.3)),
                }
            },
        }
    }
}

/// `struct Name { ... }`.
pub open spec fn struct_decl(ts: Seq<Token>, p: int, access: AccessSpecifier) -> Parsed<Tree>
    decreases ts.len() - p, 7nat,
{
    let l = loc(ts, p);
    match word_at(ts, p + 1) {
        None => Err(()),
        Some(name) => if !at(ts, p + 2, TokenKind::LBrace) {
            Err(())
        } else {
            match struct_from(ts, p + 3, name, (Seq::empty(), None, None)) {
                Ok((parts, q)) => Ok(
                    (
                        node(
                            TreeKind::StructDecl {
                                name,
                                access,
                                fields: parts.0,
                                constructor: parts.1,
                                destructor: parts.2,
                            },
                            l,
                        ),
                        q,
                    ),
                ),
                Err(_) => Err(()),
            }
        },
    }
}

/// The members of struct `name` from `q` on, after those collected, up to `}` or the end:
/// fields, a constructor (a function named as the struct) and a destructor (`~name`); any other
/// member fails.
pub open spec fn struct_from(ts: Seq<Token>, q: int, name: Seq<char>, parts: StructParts) -> Parsed<
    StructParts,
>
    decreases ts.len() + 1 - q, 0nat,
{
    if q < 0 || q >= ts.len() {
        Ok((parts, q))
    } else if at(ts, q, TokenKind::RBrace) {
        Ok((parts, q + 1))
    } else if at(ts, q, TokenKind::Semicolon) {
        struct_from(ts, q + 1, name, parts)
    } else {
        match declaration(ts, q) {
            Err(_) => Err(()),
            Ok((d, q2)) => if !(q < q2 <= ts.len()) {
                Err(())
            } else {
                match d.kind {
                    TreeKind::Function { name: f, params, body, access: fa, .. } => if f == name {
                        struct_from(ts, q2, name, (parts.0, Some((fa, params, body)), parts.2))
                    } else if f == "~"@ + name {
                        struct_from(ts, q2, name, (parts.0, parts.1, Some(body)))
                    } else {
                        Err(())
                    },
                    TreeKind::FieldDecl { .. } => struct_from(
                        ts,
                        q2,
                        name,
                        (parts.0.push(d), parts.1, parts.2),
                    ),
                    _ => Err(()),
                }
            },
        }
    }
}

/// `enum Name { A, B, ... }`.
pub open spec fn enum_decl(ts: Seq<Token>, p: int, access: AccessSpecifier) -> Parsed<Tree>
    decreases ts.len() - p, 7nat,
{
    let l = loc(ts, p);
    match word_at(ts, p + 1) {
        None => Err(()),
        Some(name) => if !at(ts, p + 2, TokenKind::LBrace) {
            Err(())
        } else {
            match enum_from(ts, p + 3, Seq::empty()) {
                Ok((vs, q)) => Ok(
                    (node(TreeKind::EnumDecl { name, access, variants: vs }, l), q),
                ),
                Err(_) => Err(()),
            }
        },
    }
}

/// The variants of an enum from `q` on, after `vs`, up to `}` or the end.
pub open spec fn enum_from(ts: Seq<Token>, q: int, vs: Seq<Seq<char>>) -> Parsed<Seq<Seq<char>>>
    decreases ts.len() + 1 - q,
{
    if q < 0 || q >= ts.len() {
        Ok((vs, q))
    } else if at(ts, q, TokenKind::RBrace) {
        Ok((vs, q + 1))
    } else if at(ts, q, TokenKind::Comma) || at(ts, q, TokenKind::Semicolon) {
        enum_from(ts, q + 1, vs)
    } else {
        match word_at(ts, q) {
            Some(w) => enum_from(ts, q + 1, vs.push(w)),
            None => Err(()),
        }
    }
}

/// `with Name`, optionally followed by a separator.
pub open spec fn with_import(ts: Seq<Token>, p: int) -> Parsed<Tree> {
    match word_at(ts, p + 1) {
        None => Err(()),
        Some(path) => Ok(
            (
                node(TreeKind::WithImport { path }, loc(ts, p)),
                if at(ts, p + 2, TokenKind::Semicolon) {
                    p + 3
                } else {
                    p + 2
                },
            ),
        ),
    }
}

/// A parameter list `( ... )` at `p`, when there is one.
pub open spec fn params(ts: Seq<Token>, p: int) -> Parsed<Seq<ParamTree>>
    decreases ts.len() - p, 6nat,
{
    if !at(ts, p, TokenKind::LParen) {
        Ok((Seq::empty(), p))
    } else {
        params_from(ts, p + 1, Seq::empty())
    }
}

/// Parameters from `q` on, after `acc`, up to `)` or the end: each optionally `params`
/// (variadic), a type, a name, and, when not variadic, optionally `= default`.
pub open spec fn params_from(ts: Seq<Token>, q: int, acc: Seq<ParamTree>) -> Parsed<Seq<ParamTree>>
    decreases ts.len() + 1 - q, 0nat,
{
    if q < 0 || q >= ts.len() {
        Ok((acc, q))
    } else if at(ts, q, TokenKind::RParen) {
        Ok((acc, q + 1))
    } else if at(ts, q, TokenKind::Comma) {
        params_from(ts, q + 1, acc)
    } else {
        let v = at(ts, q, TokenKind::Params);
        let q1 = if v {
            q + 1
        } else {
            q
        };
        match type_at(ts, q1) {
            Err(_) => Err(()),
            Ok(((t, a), q2)) => match word_at(ts, q2) {
                None => Err(()),
                Some(name) => if !(q <= q2) {
                    Err(())
                } else if at(ts, q2 + 1, TokenKind::Assign) {
                    if v {
                        Err(())
                    } else {
                        match expression(ts, q2 + 2) {
                            Ok((dv, q3)) => if q2 < q3 <= ts.len() {
                                params_from(
                                    ts,
                                    q3,
                                    acc.push(
                                        ParamTree {
                                            name,
                                            type_specifier: Some(t),
                                            is_array: a,
                                            is_variadic: v,
                                            default_value: Some(Box::new(dv)),
                                        },
                                    ),
                                )
                            } else {
                                Err(())
                            },
                            Err(_) => Err(()),
                        }
                    }
                } else {
                    params_from(
                        ts,
                        q2 + 1,
                        acc.push(
                            ParamTree {
                                name,
                                type_specifier: Some(t),
                                is_array: a,
                                is_variadic: v,
                                default_value: None,
                            },
                        ),
                    )
                },
            },
        }
    }
}

/// `func Name(parameters) { ... }`.
pub open spec fn function(ts: Seq<Token>, p: int, access: AccessSpecifier, st: bool) -> Parsed<
    Tree,
>
    decreases ts.len() - p, 7nat,
{
    let l = loc(ts, p);
    match word_at(ts, p + 1) {
        None => Err(()),
        Some(name) => match params(ts, p + 2) {
            Err(_) => Err(()),
            Ok((ps, q)) => if !(p < q <= ts.len()) {
                Err(())
            } else {
                match block(ts, q) {
                    Ok((b, q2)) => Ok(
                        (
                            node(
                                TreeKind::Function {
                                    name,
                                    params: ps,
                                    body: b,
                                    access,
                                    is_static: st,
                                },
                                l,
                            ),
                            q2,
                        ),
                    ),
                    Err(_) => Err(()),
                }
            },
        },
    }
}

/// A block `{ ... }` at `p`; its statements are outside the declaration context.
pub open spec fn block(ts: Seq<Token>, p: int) -> Parsed<Seq<Tree>>
    decreases ts.len() - p, 6nat,
{
    if !at(ts, p, TokenKind::LBrace) {
        Err(())
    } else {
        block_from(ts, p + 1, Seq::empty())
    }
}

/// The statements of a block from `q` on, after `acc`, and its closing `}`.
pub open spec fn block_from(ts: Seq<Token>, q: int, acc: Seq<Tree>) -> Parsed<Seq<Tree>>
    decreases ts.len() + 1 - q, 0nat,
{
    if q < 0 || q >= ts.len() {
        Err(())
    } else if at(ts, q, TokenKind::RBrace) {
        Ok((acc, q + 1))
    } else if at(ts, q, TokenKind::Semicolon) {
        block_from(ts, q + 1, acc)
    } else {
        match statement(ts, q, false) {
            Ok((s, q2)) => if q < q2 <= ts.len() {
                block_from(ts, q2, acc.push(s))
            } else {
                Err(())
            },
            Err(_) => Err(()),
        }
    }
}

/// The top-level statements of a program from `q` on, after `acc`: separators are skipped, and
/// each statement must start with a token that may begin a top-level statement.
pub open spec fn top_from(ts: Seq<Token>, q: int, acc: Seq<Tree>, decl: bool) -> Parsed<Seq<Tree>>
    decreases ts.len() + 1 - q,
{
    if q < 0 || q >= ts.len() {
        Ok((acc, q))
    } else if at(ts, q, TokenKind::Semicolon) {
        top_from(ts, q + 1, acc, decl)
    } else if is_top_level_token(ts[q].kind) {
        match statement(ts, q, decl) {
            Ok((s, q2)) => if q < q2 <= ts.len() {
                top_from(ts, q2, acc.push(s), decl)
            } else {
                Err(())
            },
            Err(_) => Err(()),
        }
    } else {
        Err(())
    }
}

/// A whole program from `p` on: an unnamed namespace, at the position of its first token,
/// holding the top-level statements in order.
pub open spec fn program(ts: Seq<Token>, p: int, decl: bool) -> Parsed<Tree> {
    match top_from(ts, p, Seq::empty(), decl) {
        Ok((b, q)) => if b.len() == 1 {
            Ok((b[0], q))
        } else {
            Ok((node(TreeKind::NamespaceDecl { name: Seq::empty(), body: b }, loc(ts, p)), q))
        },
        Err(_) => Err(()),
    }
}

} // verus!
