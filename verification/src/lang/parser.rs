use vstd::prelude::*;
use crate::error::IshError;
use crate::lang::ast::{
    AccessSpecifier, AstNode, AstNodeKind, Param, is_declaration, is_expression, is_top_level,
};
use crate::lang::tokenizer::{Token, TokenKind, kind_tag, tag};
use crate::lang::tree::{
    case_trees, ctor_tree, entry_trees, opt_text, opt_trees, param_tree, param_trees, tree, tree_kind,
    trees, ParamTree, Tree, TreeKind,
};
use crate::lang::grammar::{
    args_from, array_from, array_literal, at, call_args, expression, generic_from, generic_suffix,
    index_suffix, init_from, interp_from, interp_value, key_text, loc, map_from, map_literal,
    new_expr, node, op_text, pratt, pratt_loop, primary, type_text_of, Parsed,
};
use crate::lang::config::find_char;
use crate::lang::syntax::{
    assign_ahead, assignment, block, block_from, class_decl, class_from, decl_ahead, declaration,
    enum_decl, enum_from, field, for_loop, function, if_stmt, is_in, modifiers, namespace,
    namespace_from, params, params_from, program, skip_to, statement, struct_decl, struct_from,
    switch, switch_from, top_from, try_catch, type_at, while_loop, with_import, word_at,
    ClassParts, StructParts,
};
use crate::text::{
    chars_eq_str, chars_of, concat, lit, push_char, string_eq_str, string_from, usize_text,
};

verus! {

broadcast use vstd::std_specs::vec::group_vec_axioms;

/// What Rust's `Debug` (`{:?}`) writes for a string: the text in double quotes, with quotes,
/// backslashes and control characters escaped.
pub uninterp spec fn string_debug(s: Seq<char>) -> Seq<char>;

/// Rust's `Debug` text of a string (`format!("{:?}", s)`).
#[verifier::external_body]
fn debug_string(s: &String) -> (r: String)
    ensures
        r@ == string_debug(s@),
{
    format!("{:?}", s)
}

/// What Rust's `Debug` (`{:?}`) writes for a character: it in single quotes, escaped where
/// needed.
pub uninterp spec fn char_debug(c: char) -> Seq<char>;

/// Rust's `Debug` text of a character (`format!("{:?}", c)`).
#[verifier::external_body]
fn debug_char(c: char) -> (r: String)
    ensures
        r@ == char_debug(c),
{
    format!("{:?}", c)
}

/// The `Debug` text of a token kind, as a derived `Debug` writes it: the variant's name, and a
/// payload in parentheses by its own `Debug` text.
pub open spec fn kind_debug_text(k: TokenKind) -> Seq<char> {
    match k {
        TokenKind::Word(s) => "Word("@ + string_debug(s@) + ")"@,
        TokenKind::StringLiteral(s) => "StringLiteral("@ + string_debug(s@) + ")"@,
        TokenKind::CharLiteral(c) => "CharLiteral("@ + char_debug(c) + ")"@,
        TokenKind::InterpolatedStringLiteral(s) => "InterpolatedStringLiteral("@ + string_debug(s@) + ")"@,
        TokenKind::Colon => "Colon"@,
        TokenKind::Then => "Then"@,
        TokenKind::WhileAsync => "WhileAsync"@,
        TokenKind::AndThen => "AndThen"@,
        TokenKind::OrElse => "OrElse"@,
        TokenKind::Job => "Job"@,
        TokenKind::Equals => "Equals"@,
        TokenKind::NotEquals => "NotEquals"@,
        TokenKind::GreaterThan => "GreaterThan"@,
        TokenKind::LessThan => "LessThan"@,
        TokenKind::GreaterOrEq => "GreaterOrEq"@,
        TokenKind::LessOrEq => "LessOrEq"@,
        TokenKind::Question => "Question"@,
        TokenKind::If => "If"@,
        TokenKind::Elif => "Elif"@,
        TokenKind::Else => "Else"@,
        TokenKind::For => "For"@,
        TokenKind::Foreach => "Foreach"@,
        TokenKind::Var => "Var"@,
        TokenKind::StringKeyword => "StringKeyword"@,
        TokenKind::IntKeyword => "IntKeyword"@,
        TokenKind::BoolKeyword => "BoolKeyword"@,
        TokenKind::FloatKeyword => "FloatKeyword"@,
        TokenKind::CharKeyWord => "CharKeyWord"@,
        TokenKind::WhileLoop => "WhileLoop"@,
        TokenKind::Function => "Function"@,
        TokenKind::Return => "Return"@,
        TokenKind::Break => "Break"@,
        TokenKind::Continue => "Continue"@,
        TokenKind::Try => "Try"@,
        TokenKind::Catch => "Catch"@,
        TokenKind::Switch => "Switch"@,
        TokenKind::Case => "Case"@,
        TokenKind::Default => "Default"@,
        TokenKind::Class => "Class"@,
        TokenKind::Struct => "Struct"@,
        TokenKind::Namespace => "Namespace"@,
        TokenKind::Async => "Async"@,
        TokenKind::Await => "Await"@,
        TokenKind::Task => "Task"@,
        TokenKind::Thread => "Thread"@,
        TokenKind::Public => "Public"@,
        TokenKind::Private => "Private"@,
        TokenKind::Protected => "Protected"@,
        TokenKind::Internal => "Internal"@,
        TokenKind::Static => "Static"@,
        TokenKind::New => "New"@,
        TokenKind::With => "With"@,
        TokenKind::Enum => "Enum"@,
        TokenKind::Params => "Params"@,
        TokenKind::List => "List"@,
        TokenKind::LBrace => "LBrace"@,
        TokenKind::RBrace => "RBrace"@,
        TokenKind::LParen => "LParen"@,
        TokenKind::RParen => "RParen"@,
        TokenKind::LBracket => "LBracket"@,
        TokenKind::RBracket => "RBracket"@,
        TokenKind::Assign => "Assign"@,
        TokenKind::Comma => "Comma"@,
        TokenKind::Semicolon => "Semicolon"@,
    }
}

/// The `Debug` text of a token kind (see `kind_debug_text`).
fn kind_text(k: &TokenKind) -> (r: String)
    ensures
        r@ == kind_debug_text(*k),
{
    match k {
        TokenKind::Word(s) => concat(concat(lit("Word("), debug_string(s).as_str()), ")"),
        TokenKind::StringLiteral(s) => concat(concat(lit("StringLiteral("), debug_string(s).as_str()), ")"),
        TokenKind::CharLiteral(c) => concat(concat(lit("CharLiteral("), debug_char(*c).as_str()), ")"),
        TokenKind::InterpolatedStringLiteral(s) => concat(concat(lit("InterpolatedStringLiteral("), debug_string(s).as_str()), ")"),
        TokenKind::Colon => lit("Colon"),
        TokenKind::Then => lit("Then"),
        TokenKind::WhileAsync => lit("WhileAsync"),
        TokenKind::AndThen => lit("AndThen"),
        TokenKind::OrElse => lit("OrElse"),
        TokenKind::Job => lit("Job"),
        TokenKind::Equals => lit("Equals"),
        TokenKind::NotEquals => lit("NotEquals"),
        TokenKind::GreaterThan => lit("GreaterThan"),
        TokenKind::LessThan => lit("LessThan"),
        TokenKind::GreaterOrEq => lit("GreaterOrEq"),
        TokenKind::LessOrEq => lit("LessOrEq"),
        TokenKind::Question => lit("Question"),
        TokenKind::If => lit("If"),
        TokenKind::Elif => lit("Elif"),
        TokenKind::Else => lit("Else"),
        TokenKind::For => lit("For"),
        TokenKind::Foreach => lit("Foreach"),
        TokenKind::Var => lit("Var"),
        TokenKind::StringKeyword => lit("StringKeyword"),
        TokenKind::IntKeyword => lit("IntKeyword"),
        TokenKind::BoolKeyword => lit("BoolKeyword"),
        TokenKind::FloatKeyword => lit("FloatKeyword"),
        TokenKind::CharKeyWord => lit("CharKeyWord"),
        TokenKind::WhileLoop => lit("WhileLoop"),
        TokenKind::Function => lit("Function"),
        TokenKind::Return => lit("Return"),
        TokenKind::Break => lit("Break"),
        TokenKind::Continue => lit("Continue"),
        TokenKind::Try => lit("Try"),
        TokenKind::Catch => lit("Catch"),
        TokenKind::Switch => lit("Switch"),
        TokenKind::Case => lit("Case"),
        TokenKind::Default => lit("Default"),
        TokenKind::Class => lit("Class"),
        TokenKind::Struct => lit("Struct"),
        TokenKind::Namespace => lit("Namespace"),
        TokenKind::Async => lit("Async"),
        TokenKind::Await => lit("Await"),
        TokenKind::Task => lit("Task"),
        TokenKind::Thread => lit("Thread"),
        TokenKind::Public => lit("Public"),
        TokenKind::Private => lit("Private"),
        TokenKind::Protected => lit("Protected"),
        TokenKind::Internal => lit("Internal"),
        TokenKind::Static => lit("Static"),
        TokenKind::New => lit("New"),
        TokenKind::With => lit("With"),
        TokenKind::Enum => lit("Enum"),
        TokenKind::Params => lit("Params"),
        TokenKind::List => lit("List"),
        TokenKind::LBrace => lit("LBrace"),
        TokenKind::RBrace => lit("RBrace"),
        TokenKind::LParen => lit("LParen"),
        TokenKind::RParen => lit("RParen"),
        TokenKind::LBracket => lit("LBracket"),
        TokenKind::RBracket => lit("RBracket"),
        TokenKind::Assign => lit("Assign"),
        TokenKind::Comma => lit("Comma"),
        TokenKind::Semicolon => lit("Semicolon"),
    }
}

/// Token kinds that start a declaration: access modifiers, `static`, `class`, `struct`, `func`
/// and `enum`.
pub open spec fn is_declaration_token(k: TokenKind) -> bool {
    ||| k is Public
    ||| k is Private
    ||| k is Protected
    ||| k is Internal
    ||| k is Static
    ||| k is Class
    ||| k is Struct
    ||| k is Function
    ||| k is Enum
}

/// Token kinds that may start a statement at the top level of a program.
pub open spec fn is_top_level_token(k: TokenKind) -> bool {
    ||| k is With
    ||| k is Enum
    ||| k is Class
    ||| k is Struct
    ||| k is Namespace
    ||| k is Public
    ||| k is Private
    ||| k is Protected
    ||| k is Internal
    ||| k is Static
}

/// Token kinds that can name a type in a declaration: any word, and the type keywords.
pub open spec fn is_type_token(k: TokenKind) -> bool {
    ||| k is Word
    ||| k is Var
    ||| k is StringKeyword
    ||| k is IntKeyword
    ||| k is BoolKeyword
    ||| k is FloatKeyword
    ||| k is CharKeyWord
    ||| k is List
}

/// The kind of node that a statement starting with a token of kind `k` parses to.
pub open spec fn statement_kind(k: TokenKind, n: AstNodeKind) -> bool {
    if k is If {
        n is If
    } else if k is For || k is Foreach {
        n is For
    } else if k is WhileAsync || k is WhileLoop {
        n is While
    } else if k is With {
        n is WithImport
    } else if k is Namespace {
        n is NamespaceDecl
    } else if k is Switch {
        n is Switch
    } else if k is Return {
        n is Return
    } else if k is Break {
        n is Break
    } else if k is Continue {
        n is Continue
    } else if k is Try {
        n is TryCatch
    } else if is_declaration_token(k) {
        is_declaration(n)
    } else {
        true
    }
}

/// Every token before position `i` is a statement separator.
pub open spec fn separators_before(ts: Seq<Token>, i: int) -> bool {
    forall|j: int| 0 <= j < i ==> #[trigger] ts[j].kind is Semicolon
}


/// One call of `consume` from parser `a` to parser `b`, giving `r`: the next token, which is
/// passed over, or nothing at the end; the tokens stay as they are.
pub open spec fn consume_step(a: Parser, b: Parser, r: Option<Token>) -> bool {
    &&& b.stream() == a.stream()
    &&& a.pos() < a.stream().len() ==> r == Some(a.stream()[a.pos()]) && b.pos() == a.pos() + 1
    &&& a.pos() >= a.stream().len() ==> r is None && b.pos() == a.pos()
}

/// Over a run of `consume` calls from a new parser, the tokens come back in order, each once,
/// and nothing once they are all taken; the tokens never change.
pub proof fn lemma_consume_run(ps: Seq<Parser>, rs: Seq<Option<Token>>)
    requires
        ps.len() == rs.len() + 1,
        ps[0].pos() == 0,
        forall|i: int| 0 <= i < rs.len() ==> consume_step(ps[i], ps[i + 1], #[trigger] rs[i]),
    ensures
        forall|i: int|
            0 <= i < rs.len() ==> #[trigger] rs[i] == (if i < ps[0].stream().len() {
                Some(ps[0].stream()[i])
            } else {
                None::<Token>
            }),
        forall|i: int| 0 <= i < ps.len() ==> (#[trigger] ps[i]).stream() == ps[0].stream(),
    decreases rs.len(),
{
    if rs.len() > 0 {
        let n = rs.len() - 1;
        lemma_consume_run(ps.take(n + 1), rs.take(n));
        assert forall|i: int| 0 <= i < ps.len() implies (#[trigger] ps[i]).stream() == ps[0].stream()
            by {
            if i <= n {
                assert(ps.take(n + 1)[i] == ps[i]);
            } else {
                assert(consume_step(ps[n], ps[n + 1], rs[n]));
                assert(ps.take(n + 1)[n] == ps[n]);
            }
        }
        lemma_consume_positions(ps, rs, n);
        assert forall|i: int| 0 <= i < rs.len() implies #[trigger] rs[i] == (if i < ps[0].stream().len() {
            Some(ps[0].stream()[i])
        } else {
            None::<Token>
        }) by {
            if i < n {
                assert(ps.take(n + 1)[i] == ps[i] && rs.take(n)[i] == rs[i]);
            } else {
                assert(consume_step(ps[n], ps[n + 1], rs[n]));
            }
        }
    }
}

/// After `k` calls the parser stands at the `k`-th token, or at the end.
proof fn lemma_consume_positions(ps: Seq<Parser>, rs: Seq<Option<Token>>, k: int)
    requires
        ps.len() == rs.len() + 1,
        ps[0].pos() == 0,
        forall|i: int| 0 <= i < rs.len() ==> consume_step(ps[i], ps[i + 1], #[trigger] rs[i]),
        0 <= k < ps.len(),
    ensures
        ps[k].pos() == (if k < ps[0].stream().len() { k } else { ps[0].stream().len() as int }),
        ps[k].stream() == ps[0].stream(),
    decreases k,
{
    if k > 0 {
        lemma_consume_positions(ps, rs, k - 1);
        assert(consume_step(ps[k - 1], ps[k], rs[k - 1]));
    }
}

/// A parameter list whose first parameter is a single word (a name without a type, as in
/// `(a, b)`): a `(`, a type word, then `,` or `)`.
pub open spec fn lone_word_parameter(ts: Seq<Token>, p: int) -> bool {
    &&& at(ts, p, TokenKind::LParen)
    &&& 0 <= p + 1 < ts.len()
    &&& type_text_of(ts[p + 1].kind) is Some
    &&& (at(ts, p + 2, TokenKind::Comma) || at(ts, p + 2, TokenKind::RParen))
}

/// The message for a top-level token that may not start a statement there.
pub open spec fn top_level_message(k: TokenKind) -> Seq<char> {
    "Top-level constraint violation: Cannot have statements outside a class, struct, enum, or with-import. Found: "@
        + kind_debug_text(k)
}

/// The first token of a program that is not a separator, if any, may start a top-level
/// statement.
pub open spec fn first_statement_allowed(ts: Seq<Token>) -> bool {
    forall|i: int|
        0 <= i < ts.len() && separators_before(ts, i) && !(ts[i].kind is Semicolon)
            ==> is_top_level_token(#[trigger] ts[i].kind)
}

/// The precedence of a binary or ternary operator token (0 for tokens that are not operators):
/// `?` 1, `||` 2, `&&` 3, `==` `!=` 4, comparisons 5, `+` `-` 6, `*` `/` `%` 7.
pub open spec fn precedence(k: TokenKind) -> int {
    match k {
        TokenKind::Question => 1,
        TokenKind::OrElse => 2,
        TokenKind::AndThen => 3,
        TokenKind::Equals | TokenKind::NotEquals => 4,
        TokenKind::GreaterThan | TokenKind::LessThan | TokenKind::GreaterOrEq
        | TokenKind::LessOrEq => 5,
        TokenKind::Word(w) => if w@ == "+"@ || w@ == "-"@ {
            6
        } else if w@ == "*"@ || w@ == "/"@ || w@ == "%"@ {
            7
        } else {
            0
        },
        _ => 0,
    }
}

/// A parser over a sequence of tokens.
pub struct Parser {
    tokens: Vec<Token>,
    position: usize,
    in_declaration_context: bool,
}

/// The parser has only read tokens: the token sequence is the same and the position has not gone
/// back or past the end.
pub closed spec fn moved(pre: Parser, post: Parser) -> bool {
    &&& post.tokens@ == pre.tokens@
    &&& pre.position <= post.position <= post.tokens@.len()
}

/// As `moved`; besides, on success the parser has read at least one token and is back in the
/// declaration context it started in.
pub closed spec fn step_ok<T>(pre: Parser, post: Parser, r: Result<T, IshError>) -> bool {
    &&& moved(pre, post)
    &&& r is Ok ==> pre.position < post.position && post.in_declaration_context
        == pre.in_declaration_context
}

/// A parsing step's result against what the grammar gives from where the step started: on
/// success the same tree and the same end position; on failure the grammar fails too, and the
/// error is a parse error.
pub open spec fn yields(r: Result<AstNode, IshError>, end: int, g: Parsed<Tree>) -> bool {
    match r {
        Ok(n) => g == Ok::<(Tree, int), ()>((tree(n), end)),
        Err(e) => g is Err && e is ParseError,
    }
}

/// As `yields`, for a list of nodes.
pub open spec fn yields_list(r: Result<Vec<AstNode>, IshError>, end: int, g: Parsed<Seq<Tree>>) -> bool {
    match r {
        Ok(v) => g == Ok::<(Seq<Tree>, int), ()>((trees(v@), end)),
        Err(e) => g is Err && e is ParseError,
    }
}

/// As `yields`, for a text.
pub open spec fn yields_text(r: Result<String, IshError>, end: int, g: Parsed<Seq<char>>) -> bool {
    match r {
        Ok(t) => g == Ok::<(Seq<char>, int), ()>((t@, end)),
        Err(e) => g is Err && e is ParseError,
    }
}

/// An optional node as a plain value.
pub open spec fn opt_tree(o: Option<Box<AstNode>>) -> Option<Tree> {
    match o {
        Some(n) => Some(tree(*n)),
        None => None,
    }
}

impl Parser {
    /// The tokens being parsed.
    pub closed spec fn stream(&self) -> Seq<Token> {
        self.tokens@
    }

    /// The position of the next token to read.
    pub closed spec fn pos(&self) -> int {
        self.position as int
    }

    /// Whether declarations are allowed where the parser stands.
    pub closed spec fn in_decl(&self) -> bool {
        self.in_declaration_context
    }

    /// The kind of the token at position `i`.
    spec fn kind_at(&self, i: int) -> TokenKind {
        self.tokens@[i].kind
    }

    /// The parser's position lies within its tokens.
    pub closed spec fn wf(&self) -> bool {
        self.position <= self.tokens@.len()
    }

    /// A parser at the start of `tokens`, in the declaration context.
    pub fn new(tokens: Vec<Token>) -> (p: Self)
        ensures
            p.wf(),
            p.stream() == tokens@,
            p.pos() == 0,
    {
        Parser { tokens, position: 0, in_declaration_context: true }
    }

    fn peek(&self) -> (r: Option<&Token>)
        requires
            self.wf(),
        ensures
            r is Some == (self.position < self.tokens@.len()),
            r matches Some(t) ==> *t == self.tokens@[self.position as int],
    {
        if self.position < self.tokens.len() {
            Some(&self.tokens[self.position])
        } else {
            None
        }
    }

    /// Whether the next token has the variant of `want`.
    fn next_is(&self, want: &TokenKind) -> (r: bool)
        requires
            self.wf(),
        ensures
            r == (self.position < self.tokens.len() && tag(self.kind_at(self.position as int))
                == tag(*want)),
    {
        self.position < self.tokens.len() && kind_tag(&self.tokens[self.position].kind)
            == kind_tag(want)
    }

    /// Whether the token at position `i` has the variant of `want`.
    fn kind_is(&self, i: usize, want: &TokenKind) -> (r: bool)
        ensures
            r == (i < self.tokens.len() && tag(self.kind_at(i as int)) == tag(*want)),
    {
        i < self.tokens.len() && kind_tag(&self.tokens[i].kind) == kind_tag(want)
    }

    /// Takes the next token, if there is one.
    pub fn consume(&mut self) -> (r: Option<Token>)
        requires
            old(self).wf(),
        ensures
            final(self).stream() == old(self).stream(),
            final(self).in_decl() == old(self).in_decl(),
            old(self).pos() < old(self).stream().len() ==> r == Some(
                old(self).stream()[old(self).pos()],
            ) && final(self).pos() == old(self).pos() + 1,
            old(self).pos() >= old(self).stream().len() ==> r is None && final(self).pos()
                == old(self).pos(),
            final(self).wf(),
            consume_step(*old(self), *final(self), r),
    {
        if self.position < self.tokens.len() {
            let tok = self.tokens[self.position].clone();
            self.position += 1;
            Some(tok)
        } else {
            None
        }
    }

    /// Takes the next token when it has the variant of `want`; fails with `msg` otherwise.
    fn expect(&mut self, want: &TokenKind, msg: &str) -> (r: Result<(), IshError>)
        requires
            old(self).wf(),
        ensures
            moved(*old(self), *final(self)),
            final(self).in_declaration_context == old(self).in_declaration_context,
            r is Ok == (old(self).position < old(self).tokens@.len() && tag(
                old(self).kind_at(old(self).position as int),
            ) == tag(*want)),
            r is Ok ==> final(self).position == old(self).position + 1,
            r matches Err(e) ==> e is ParseError && e.message() == msg@,
    {
        if self.next_is(want) {
            self.position += 1;
            Ok(())
        } else {
            Err(IshError::ParseError(lit(msg)))
        }
    }

    /// The line and column of the next token; of the last token when all have been read; (1, 1)
    /// when there are none.
    fn get_location(&self) -> (r: (usize, usize))
        requires
            self.wf(),
        ensures
            self.position < self.tokens@.len() ==> r == (
                self.tokens@[self.position as int].line,
                self.tokens@[self.position as int].column,
            ),
            self.position >= self.tokens@.len() && self.tokens@.len() > 0 ==> r == (
                self.tokens@.last().line,
                self.tokens@.last().column,
            ),
            self.tokens@.len() == 0 ==> r == (1usize, 1usize),
    {
        if self.position < self.tokens.len() {
            (self.tokens[self.position].line, self.tokens[self.position].column)
        } else if self.tokens.len() > 0 {
            let last = &self.tokens[self.tokens.len() - 1];
            (last.line, last.column)
        } else {
            (1, 1)
        }
    }

    /// Takes the next token when it is a word, giving its text; fails with `msg` otherwise.
    fn expect_word(&mut self, msg: &str) -> (r: Result<String, IshError>)
        requires
            old(self).wf(),
        ensures
            moved(*old(self), *final(self)),
            final(self).in_declaration_context == old(self).in_declaration_context,
            r is Ok ==> final(self).position == old(self).position + 1,
            r matches Ok(w) ==> old(self).kind_at(old(self).position as int) == TokenKind::Word(
                w,
            ),
            r is Ok == word_at(old(self).tokens@, old(self).position as int) is Some,
            r matches Ok(w) ==> word_at(old(self).tokens@, old(self).position as int) == Some(w@),
            r matches Err(e) ==> e is ParseError,
    {
        match self.consume() {
            Some(tok) => match tok.kind {
                TokenKind::Word(w) => Ok(w),
                _ => Err(IshError::ParseError(lit(msg))),
            },
            None => Err(IshError::ParseError(lit(msg))),
        }
    }

    /// Parses a whole program: a sequence of top-level statements (imports, enums, classes,
    /// structs, namespaces and modified declarations), with separators between them. A single
    /// statement is the result itself; otherwise the result is an unnamed namespace holding the
    /// statements in order (none for an empty program).
    ///
    /// The shell-command form with English redirections (`merge err`, `append to`, ...) that
    /// the shell guide describes is not built here: neither `TokenKind` nor `AstNodeKind` has a
    /// token or node for a command or its redirections, so a program cannot hold one.
    #[verifier::rlimit(80)]
    pub fn parse(&mut self) -> (r: Result<AstNode, IshError>)
        requires
            old(self).wf(),
        ensures
            final(self).wf(),
            final(self).stream() == old(self).stream(),
            yields(
                r,
                final(self).pos(),
                program(old(self).stream(), old(self).pos(), old(self).in_decl()),
            ),
            r matches Ok(root) ==> is_top_level(root.kind),
            r is Ok ==> first_statement_allowed(
                old(self).stream().subrange(old(self).pos(), old(self).stream().len() as int),
            ),
            forall|i: int|
                #![trigger old(self).stream().subrange(old(self).pos(), old(self).stream().len() as int)[i]]
                0 <= i < old(self).stream().len() - old(self).pos() && separators_before(
                    old(self).stream().subrange(old(self).pos(), old(self).stream().len() as int),
                    i,
                ) && !(old(self).stream().subrange(
                    old(self).pos(),
                    old(self).stream().len() as int,
                )[i].kind is Semicolon) && !is_top_level_token(
                    old(self).stream().subrange(old(self).pos(), old(self).stream().len() as int)[i].kind,
                ) ==> (r matches Err(IshError::ParseError(m)) && m@ == top_level_message(
                    old(self).stream().subrange(old(self).pos(), old(self).stream().len() as int)[i].kind,
                )),
            separators_before(
                old(self).stream().subrange(old(self).pos(), old(self).stream().len() as int),
                old(self).stream().len() - old(self).pos(),
            ) ==> (r matches Ok(root) && root.kind matches AstNodeKind::NamespaceDecl { body, .. }
                && body@.len() == 0),
    {
        let (line, col) = self.get_location();
        let ghost start = self.position as int;
        let ghost ts = self.tokens@;
        let ghost decl = self.in_declaration_context;
        let ghost rest = ts.subrange(start, ts.len() as int);
        let mut stmts: Vec<AstNode> = Vec::new();
        proof {
            assert(trees(stmts@) =~= Seq::<Tree>::empty());
        }
        while self.position < self.tokens.len()
            invariant
                self.wf(),
                self.tokens@ == ts,
                ts == old(self).tokens@,
                start == old(self).position,
                decl == old(self).in_declaration_context,
                0 <= start <= ts.len(),
                rest == ts.subrange(start, ts.len() as int),
                start <= self.position,
                self.in_declaration_context == old(self).in_declaration_context,
                forall|i: int| 0 <= i < stmts@.len() ==> is_top_level(#[trigger] stmts@[i].kind),
                stmts@.len() == 0 ==> separators_before(rest, self.position - start),
                stmts@.len() > 0 ==> first_statement_allowed(rest),
                separators_before(rest, rest.len() as int) ==> stmts@.len() == 0,
                top_from(ts, start, Seq::empty(), decl) == top_from(
                    ts,
                    self.position as int,
                    trees(stmts@),
                    decl,
                ),
            decreases self.tokens@.len() - self.position,
        {
            if self.next_is(&TokenKind::Semicolon) {
                let ghost q = self.position as int;
                proof {
                    assert(rest[q - start] == ts[q]);
                    assert(ts[q].kind is Semicolon);
                    if stmts@.len() == 0 {
                        assert forall|j: int| 0 <= j < q + 1 - start implies #[trigger] rest[j].kind is Semicolon by {
                            if j < q - start {
                            } else {
                                assert(j == q - start);
                            }
                        }
                    }
                }
                self.position += 1;
                continue;
            }
            if is_top_level_kind(&self.tokens[self.position].kind) {
                let ghost p = self.position as int;
                proof {
                    assert(rest[p - start] == ts[p]);
                    assert(!(rest[p - start].kind is Semicolon));
                    if stmts@.len() == 0 {
                        assert forall|i: int|
                            0 <= i < rest.len() && separators_before(rest, i) && !(
                            rest[i].kind is Semicolon) implies is_top_level_token(
                            #[trigger] rest[i].kind,
                        ) by {
                            if i < p - start {
                                assert(rest[i].kind is Semicolon);
                            } else if i > p - start {
                                assert(rest[p - start].kind is Semicolon);
                            }
                        }
                    }
                }
                proof {
                    assert(first_statement_allowed(rest));
                }
                let stmt = match self.parse_logical() {
                    Ok(s) => s,
                    Err(e) => {
                        return Err(e);
                    },
                };
                proof {
                    lemma_trees_push(stmts@, stmt);
                }
                stmts.push(stmt);
            } else {
                let found = kind_text(&self.tokens[self.position].kind);
                let ghost q = self.position - start;
                proof {
                    assert(rest[self.position - start] == ts[self.position as int]);
                    assert(!(rest[self.position - start].kind is Semicolon));
                    assert forall|i: int|
                        0 <= i < rest.len() && separators_before(rest, i) && !(#[trigger] rest[i].kind
                            is Semicolon) && !is_top_level_token(rest[i].kind) implies i == q by {
                        if i < q {
                            assert(rest[i].kind is Semicolon);
                        } else if i > q {
                            assert(rest[q].kind is Semicolon);
                        }
                    }
                }
                return Err(
                    IshError::ParseError(
                        concat(
                            lit(
                                "Top-level constraint violation: Cannot have statements outside a class, struct, enum, or with-import. Found: ",
                            ),
                            found.as_str(),
                        ),
                    ),
                );
            }
        }
        if stmts.len() == 1 {
            let ghost all = stmts@;
            let n = stmts.pop().unwrap();
            proof {
                assert(all.drop_last() =~= Seq::<AstNode>::empty());
                assert(trees(all) == trees(all.drop_last()).push(tree(n)));
                assert(trees(all)[0] == tree(n));
                assert(is_top_level(all[0].kind));
            }
            return Ok(n);
        }
        proof {
            lemma_trees_len(stmts@);
        }
        let ghost bt = trees(stmts@);
        let n = AstNode::new(AstNodeKind::NamespaceDecl { name: String::new(), body: stmts }, line, col);
        proof {
            assert(tree_kind(n.kind) == TreeKind::NamespaceDecl { name: Seq::empty(), body: bt });
        }
        Ok(n)
    }

    fn parse_logical(&mut self) -> (r: Result<AstNode, IshError>)
        requires
            old(self).wf(),
        ensures
            step_ok(*old(self), *final(self), r),
            r matches Ok(n) ==> statement_kind(old(self).kind_at(old(self).position as int), n.kind),
            r matches Ok(n) ==> !old(self).in_declaration_context ==> !is_declaration(n.kind),
            yields(
                r,
                final(self).position as int,
                statement(
                    old(self).tokens@,
                    old(self).position as int,
                    old(self).in_declaration_context,
                ),
            ),
        decreases old(self).tokens@.len() - old(self).position, 10nat,
    {
        self.parse_statement()
    }

    #[verifier::rlimit(30)]
    fn parse_statement(&mut self) -> (r: Result<AstNode, IshError>)
        requires
            old(self).wf(),
        ensures
            step_ok(*old(self), *final(self), r),
            r matches Ok(n) ==> statement_kind(old(self).kind_at(old(self).position as int), n.kind),
            r matches Ok(n) ==> !old(self).in_declaration_context ==> !is_declaration(n.kind),
            yields(
                r,
                final(self).position as int,
                statement(
                    old(self).tokens@,
                    old(self).position as int,
                    old(self).in_declaration_context,
                ),
            ),
        decreases old(self).tokens@.len() - old(self).position, 9nat,
    {
        if self.position >= self.tokens.len() {
            return Err(IshError::ParseError(lit("Unexpected end of input")));
        }
        let ghost ts = self.tokens@;
        let ghost p = self.position as int;
        let kind = self.tokens[self.position].kind.clone();
        match kind {
            TokenKind::If => self.parse_if_statement(),
            TokenKind::For | TokenKind::Foreach => self.parse_for_loop(),
            TokenKind::WhileAsync | TokenKind::WhileLoop => self.parse_while_loop(),
            TokenKind::Public | TokenKind::Private | TokenKind::Protected | TokenKind::Internal
            | TokenKind::Static | TokenKind::Class | TokenKind::Struct | TokenKind::Function
            | TokenKind::Enum => {
                if !self.in_declaration_context {
                    let (l, c) = self.get_location();
                    let mut msg = lit(
                        "Declarations (func, class, struct, enum) are not allowed inside methods or blocks. Found '",
                    );
                    msg = concat(msg, kind_text(&kind).as_str());
                    msg = concat(msg, "' at ");
                    msg = concat(msg, usize_text(l).as_str());
                    msg = concat(msg, ":");
                    msg = concat(msg, usize_text(c).as_str());
                    return Err(IshError::ParseError(msg));
                }
                self.parse_declaration()
            },
            TokenKind::With => self.parse_with_import(),
            TokenKind::Namespace => self.parse_namespace(),
            TokenKind::Switch => self.parse_switch(),
            TokenKind::Return => {
                let (line, col) = self.get_location();
                self.position += 1;
                let value = if self.position < self.tokens.len() && !self.next_is(&TokenKind::RBrace)
                    && !self.next_is(&TokenKind::Semicolon) && !self.next_is(&TokenKind::Then) {
                    match self.parse_expression() {
                        Ok(v) => v,
                        Err(e) => {
                            return Err(e);
                        },
                    }
                } else {
                    let null = AstNode::new(AstNodeKind::StringLiteral(lit("null")), line, col);
                    proof {
                        assert(tree_kind(null.kind) == TreeKind::StringLiteral("null"@));
                    }
                    null
                };
                let ghost vt = tree(value);
                let n = AstNode::new(AstNodeKind::Return(Box::new(value)), line, col);
                proof {
                    assert(tree_kind(n.kind) == TreeKind::Return(Box::new(vt)));
                }
                Ok(n)
            },
            TokenKind::Break => {
                let (line, col) = self.get_location();
                self.position += 1;
                Ok(AstNode::new(AstNodeKind::Break, line, col))
            },
            TokenKind::Continue => {
                let (line, col) = self.get_location();
                self.position += 1;
                Ok(AstNode::new(AstNodeKind::Continue, line, col))
            },
            TokenKind::Try => self.parse_try_catch_statement(),
            _ => {
                if self.declaration_ahead() {
                    self.parse_assignment(true)
                } else if self.assignment_ahead() {
                    self.parse_assignment(false)
                } else {
                    self.parse_pipeline()
                }
            },
        }
    }

    /// Whether the tokens ahead read `type name =` (the type may be followed by `[]` or by a
    /// generic argument list `<...>`).
    fn declaration_ahead(&self) -> (r: bool)
        requires
            self.wf(),
        ensures
            r == decl_ahead(self.tokens@, self.position as int),
    {
        let ghost ts = self.tokens@;
        let p = self.position;
        if p >= self.tokens.len() || !is_type_kind(&self.tokens[p].kind) {
            return false;
        }
        let mut q = p + 1;
        if self.kind_is(q, &TokenKind::LBracket) && self.kind_is(q + 1, &TokenKind::RBracket) {
            q = q + 2;
        } else if self.kind_is(q, &TokenKind::LessThan) {
            while q < self.tokens.len() && !self.kind_is(q, &TokenKind::GreaterThan)
                invariant
                    p < q <= self.tokens@.len(),
                    ts == self.tokens@,
                    skip_to(ts, p + 1, TokenKind::GreaterThan) == skip_to(
                        ts,
                        q as int,
                        TokenKind::GreaterThan,
                    ),
                decreases self.tokens@.len() - q,
            {
                q += 1;
            }
            if q >= self.tokens.len() {
                return false;
            }
            q += 1;
        }
        q < self.tokens.len() && matches!(self.tokens[q].kind, TokenKind::Word(_)) && self.kind_is(
            q + 1,
            &TokenKind::Assign,
        )
    }

    /// Whether the tokens ahead read `name =` or `name[...] =`.
    fn assignment_ahead(&self) -> (r: bool)
        requires
            self.wf(),
        ensures
            r == assign_ahead(self.tokens@, self.position as int),
    {
        let ghost ts = self.tokens@;
        let p = self.position;
        if p >= self.tokens.len() || !matches!(self.tokens[p].kind, TokenKind::Word(_)) {
            return false;
        }
        let mut lookahead = p + 1;
        if self.kind_is(lookahead, &TokenKind::LBracket) {
            while lookahead < self.tokens.len() && !self.kind_is(lookahead, &TokenKind::RBracket)
                invariant
                    p < lookahead <= self.tokens@.len(),
                    ts == self.tokens@,
                    skip_to(ts, p + 1, TokenKind::RBracket) == skip_to(
                        ts,
                        lookahead as int,
                        TokenKind::RBracket,
                    ),
                decreases self.tokens@.len() - lookahead,
            {
                lookahead += 1;
            }
            if lookahead < self.tokens.len() {
                lookahead += 1;
            }
        }
        self.kind_is(lookahead, &TokenKind::Assign)
    }

    /// Reads a type: a word or type keyword, optionally followed by `[]` (an array type, whose
    /// text gets `[]`) or by a generic argument list `<...>` (kept in the text). Gives the text
    /// and whether it names an array.
    fn read_type(&mut self) -> (r: Result<(String, bool), IshError>)
        requires
            old(self).wf(),
        ensures
            step_ok(*old(self), *final(self), r),
            r is Ok ==> is_type_token(old(self).kind_at(old(self).position as int)),
            match r {
                Ok((t, a)) => type_at(old(self).tokens@, old(self).position as int) == Ok::<
                    ((Seq<char>, bool), int),
                    (),
                >(((t@, a), final(self).position as int)),
                Err(e) => type_at(old(self).tokens@, old(self).position as int) is Err
                    && e is ParseError,
            },
    {
        let ghost ts = self.tokens@;
        let ghost p = self.position as int;
        let mut text = match self.consume() {
            Some(tok) => match type_text(&tok.kind) {
                Some(t) => t,
                None => {
                    return Err(IshError::ParseError(lit("Method parameters must have a type specifier")));
                },
            },
            None => {
                return Err(IshError::ParseError(lit("Method parameters must have a type specifier")));
            },
        };
        let mut is_array = false;
        if self.next_is(&TokenKind::LBracket) {
            self.position += 1;
            if self.next_is(&TokenKind::RBracket) {
                self.position += 1;
                text = concat(text, "[]");
                is_array = true;
            } else {
                return Err(IshError::ParseError(lit("Expected ']' after 'let['")));
            }
        } else if self.next_is(&TokenKind::LessThan) {
            text = match self.read_generic_suffix(&text) {
                Ok(t) => t,
                Err(e) => {
                    return Err(e);
                },
            };
        }
        Ok((text, is_array))
    }

    /// Parses `name = value`, `name[index] = value`, or, for a declaration,
    /// `type name = value` (an array type `type[]` must be given an array literal).
    #[verifier::rlimit(30)]
    fn parse_assignment(&mut self, is_declaration: bool) -> (r: Result<AstNode, IshError>)
        requires
            old(self).wf(),
        ensures
            step_ok(*old(self), *final(self), r),
            r matches Ok(n) ==> n.kind matches AstNodeKind::Assignment { is_declaration: d, .. }
                && d == is_declaration,
            yields(
                r,
                final(self).position as int,
                assignment(old(self).tokens@, old(self).position as int, is_declaration),
            ),
        decreases old(self).tokens@.len() - old(self).position, 8nat,
    {
        let ghost ts = self.tokens@;
        let ghost p = self.position as int;
        let ghost d = is_declaration;
        let (line, col) = self.get_location();
        let mut type_specifier: Option<String> = None;
        let mut is_array = false;
        if is_declaration {
            match self.read_type() {
                Ok((t, a)) => {
                    type_specifier = Some(t);
                    is_array = a;
                },
                Err(e) => {
                    return Err(e);
                },
            }
        }
        let ghost q = self.position as int;
        let ghost typed: Parsed<(Option<Seq<char>>, bool)> = if d {
            match type_at(ts, p) {
                Ok(((t, a), q)) => Ok(((Some(t), a), q)),
                Err(_) => Err(()),
            }
        } else {
            Ok(((None, false), p))
        };
        proof {
            assert(typed == Ok::<((Option<Seq<char>>, bool), int), ()>(
                ((opt_text(type_specifier), is_array), q),
            ));
        }
        let var_name = match self.expect_word("Expected variable for assignment") {
            Ok(w) => w,
            Err(e) => {
                return Err(e);
            },
        };
        let ghost q1 = q + 1;
        let mut index: Option<Box<AstNode>> = None;
        if !is_declaration && self.next_is(&TokenKind::LBracket) {
            self.position += 1;
            let idx = match self.parse_expression() {
                Ok(v) => v,
                Err(e) => {
                    return Err(e);
                },
            };
            index = Some(Box::new(idx));
            match self.expect(&TokenKind::RBracket, "Expected ']' after array index") {
                Ok(()) => {},
                Err(e) => {
                    return Err(e);
                },
            }
        }
        let ghost q3 = self.position as int;
        let ghost it: Option<Tree> = opt_tree(index);
        let ghost indexed: Parsed<Option<Tree>> = if !d && at(ts, q1, TokenKind::LBracket) {
            if p <= q {
                match expression(ts, q1 + 1) {
                    Ok((i, q2)) => if at(ts, q2, TokenKind::RBracket) {
                        Ok((Some(i), q2 + 1))
                    } else {
                        Err(())
                    },
                    Err(_) => Err(()),
                }
            } else {
                Err(())
            }
        } else {
            Ok((None, q1))
        };
        proof {
            assert(indexed == Ok::<(Option<Tree>, int), ()>((it, q3)));
        }
        match self.expect(&TokenKind::Assign, "Expected '=' in assignment") {
            Ok(()) => {},
            Err(e) => {
                return Err(e);
            },
        }
        let value = match self.parse_expression() {
            Ok(v) => v,
            Err(e) => {
                return Err(e);
            },
        };
        let ghost vt = tree(value);
        proof {
            assert((vt.kind is Array) == (value.kind is Array));
        }
        if is_array && !matches!(value.kind, AstNodeKind::Array(_)) {
            return Err(
                IshError::ParseError(
                    lit("Array declaration 'let[]' must be initialized with an array [...]"),
                ),
            );
        }
        let ghost tv = opt_text(type_specifier);
        let ghost nv = var_name@;
        let n = AstNode::new(
            AstNodeKind::Assignment {
                type_specifier,
                variable: var_name,
                index,
                value: Box::new(value),
                is_declaration,
            },
            line,
            col,
        );
        proof {
            assert(tree_kind(n.kind) == TreeKind::Assignment {
                type_specifier: tv,
                variable: nv,
                index: match it {
                    Some(i) => Some(Box::new(i)),
                    None => None,
                },
                value: Box::new(vt),
                is_declaration: d,
            });
        }
        Ok(n)
    }

    /// Parses `if (condition) { ... }`, optionally followed by `else { ... }`, `else if ...`
    /// or `elif ...` (the latter two give an else branch holding the nested `if`).
    fn parse_if_statement(&mut self) -> (r: Result<AstNode, IshError>)
        requires
            old(self).wf(),
            old(self).position < old(self).tokens.len(),
        ensures
            step_ok(*old(self), *final(self), r),
            r matches Ok(n) ==> n.kind is If,
            yields(r, final(self).position as int, if_stmt(old(self).tokens@, old(self).position as int)),
        decreases old(self).tokens@.len() - old(self).position, 8nat,
    {
        let ghost ts = self.tokens@;
        let ghost p = self.position as int;
        let (line, col) = self.get_location();
        self.position += 1;
        match self.expect(&TokenKind::LParen, "Expected '(' after 'if'") {
            Ok(()) => {},
            Err(e) => {
                return Err(e);
            },
        }
        let condition = match self.parse_expression() {
            Ok(v) => v,
            Err(e) => {
                return Err(e);
            },
        };
        match self.expect(&TokenKind::RParen, "Expected ')' after if condition") {
            Ok(()) => {},
            Err(e) => {
                return Err(e);
            },
        }
        let body = match self.parse_block() {
            Ok(b) => b,
            Err(e) => {
                return Err(e);
            },
        };
        let ghost q2 = self.position as int;
        let mut else_body: Option<Vec<AstNode>> = None;
        if self.next_is(&TokenKind::Else) {
            self.position += 1;
            if self.next_is(&TokenKind::If) {
                match self.parse_if_statement() {
                    Ok(n) => {
                        let mut v: Vec<AstNode> = Vec::new();
                        proof {
                            lemma_trees_push(v@, n);
                            assert(v@.push(n) =~= seq![n]);
                        }
                        v.push(n);
                        else_body = Some(v);
                    },
                    Err(e) => {
                        return Err(e);
                    },
                }
            } else {
                match self.parse_block() {
                    Ok(b) => {
                        else_body = Some(b);
                    },
                    Err(e) => {
                        return Err(e);
                    },
                }
            }
        } else if self.next_is(&TokenKind::Elif) {
            match self.parse_if_statement() {
                Ok(n) => {
                    let mut v: Vec<AstNode> = Vec::new();
                    proof {
                        lemma_trees_push(v@, n);
                        assert(v@.push(n) =~= seq![n]);
                    }
                    v.push(n);
                    else_body = Some(v);
                },
                Err(e) => {
                    return Err(e);
                },
            }
        }
        let ghost ct = tree(condition);
        let ghost bt = trees(body@);
        let ghost et = opt_trees(else_body);
        let n = AstNode::new(
            AstNodeKind::If { condition: Box::new(condition), body, else_body },
            line,
            col,
        );
        proof {
            assert(tree_kind(n.kind) == TreeKind::If {
                condition: Box::new(ct),
                body: bt,
                else_body: et,
            });
        }
        Ok(n)
    }

    /// Parses `for` or `foreach`, with or without parentheses: `for (x in items) { ... }`,
    /// `foreach (type x in items) { ... }`, `for x in items { ... }` (`in` may be left out).
    fn parse_for_loop(&mut self) -> (r: Result<AstNode, IshError>)
        requires
            old(self).wf(),
            old(self).position < old(self).tokens.len(),
        ensures
            step_ok(*old(self), *final(self), r),
            r matches Ok(n) ==> n.kind is For,
            yields(r, final(self).position as int, for_loop(old(self).tokens@, old(self).position as int)),
        decreases old(self).tokens@.len() - old(self).position, 8nat,
    {
        let ghost ts = self.tokens@;
        let ghost p = self.position as int;
        let (line, col) = self.get_location();
        self.position += 1;
        let has_paren = self.next_is(&TokenKind::LParen);
        if has_paren {
            self.position += 1;
        }
        if self.position < self.tokens.len() && self.tokens.len() - self.position > 2 && is_type_kind(&self.tokens[self.position].kind)
            && matches!(self.tokens[self.position + 1].kind, TokenKind::Word(_))
            && is_word(&self.tokens[self.position + 2].kind, "in") {
            self.position += 1;
        }
        let variable = match self.expect_word("Expected variable name after 'for'") {
            Ok(w) => w,
            Err(e) => {
                return Err(e);
            },
        };
        if self.position < self.tokens.len() && is_word(&self.tokens[self.position].kind, "in") {
            self.position += 1;
        }
        let iterable = match self.parse_expression() {
            Ok(v) => v,
            Err(e) => {
                return Err(e);
            },
        };
        if has_paren {
            match self.expect(&TokenKind::RParen, "Expected ')' after loop header") {
                Ok(()) => {},
                Err(e) => {
                    return Err(e);
                },
            }
        }
        let body = match self.parse_block() {
            Ok(b) => b,
            Err(e) => {
                return Err(e);
            },
        };
        let ghost vv = variable@;
        let ghost it = tree(iterable);
        let ghost bt = trees(body@);
        let n = AstNode::new(
            AstNodeKind::For { variable, iterable: Box::new(iterable), body },
            line,
            col,
        );
        proof {
            assert(tree_kind(n.kind) == TreeKind::For {
                variable: vv,
                iterable: Box::new(it),
                body: bt,
            });
        }
        Ok(n)
    }

    /// Parses `while (condition) { ... }`.
    fn parse_while_loop(&mut self) -> (r: Result<AstNode, IshError>)
        requires
            old(self).wf(),
            old(self).position < old(self).tokens.len(),
        ensures
            step_ok(*old(self), *final(self), r),
            r matches Ok(n) ==> n.kind is While,
            yields(r, final(self).position as int, while_loop(old(self).tokens@, old(self).position as int)),
        decreases old(self).tokens@.len() - old(self).position, 8nat,
    {
        let ghost ts = self.tokens@;
        let (line, col) = self.get_location();
        self.position += 1;
        match self.expect(&TokenKind::LParen, "Expected '(' after 'while'") {
            Ok(()) => {},
            Err(e) => {
                return Err(e);
            },
        }
        let condition = match self.parse_expression() {
            Ok(v) => v,
            Err(e) => {
                return Err(e);
            },
        };
        match self.expect(&TokenKind::RParen, "Expected ')' after while condition") {
            Ok(()) => {},
            Err(e) => {
                return Err(e);
            },
        }
        let body = match self.parse_block() {
            Ok(b) => b,
            Err(e) => {
                return Err(e);
            },
        };
        let ghost ct = tree(condition);
        let ghost bt = trees(body@);
        let n = AstNode::new(AstNodeKind::While { condition: Box::new(condition), body }, line, col);
        proof {
            assert(tree_kind(n.kind) == TreeKind::While { condition: Box::new(ct), body: bt });
        }
        Ok(n)
    }

    /// Parses `try { ... } catch name { ... }`; the error variable is `err` when no name is
    /// given.
    fn parse_try_catch_statement(&mut self) -> (r: Result<AstNode, IshError>)
        requires
            old(self).wf(),
            old(self).position < old(self).tokens.len(),
        ensures
            step_ok(*old(self), *final(self), r),
            r matches Ok(n) ==> n.kind is TryCatch,
            yields(r, final(self).position as int, try_catch(old(self).tokens@, old(self).position as int)),
        decreases old(self).tokens@.len() - old(self).position, 8nat,
    {
        let ghost ts = self.tokens@;
        let (line, col) = self.get_location();
        self.position += 1;
        let try_body = match self.parse_block() {
            Ok(b) => b,
            Err(e) => {
                return Err(e);
            },
        };
        let mut error_var = lit("err");
        if self.next_is(&TokenKind::Catch) {
            self.position += 1;
            if self.position < self.tokens.len() {
                match &self.tokens[self.position].kind {
                    TokenKind::Word(w) => {
                        if !string_eq_str(w, "{") {
                            error_var = w.clone();
                            self.position += 1;
                        }
                    },
                    _ => {},
                }
            }
        } else {
            return Err(IshError::ParseError(lit("Expected 'catch' block after 'try'")));
        }
        let catch_body = match self.parse_block() {
            Ok(b) => b,
            Err(e) => {
                return Err(e);
            },
        };
        let ghost tb = trees(try_body@);
        let ghost ev = error_var@;
        let ghost cb = trees(catch_body@);
        let n = AstNode::new(AstNodeKind::TryCatch { try_body, error_var, catch_body }, line, col);
        proof {
            assert(tree_kind(n.kind) == TreeKind::TryCatch {
                try_body: tb,
                error_var: ev,
                catch_body: cb,
            });
        }
        Ok(n)
    }

    /// Parses `switch (value) { case v: { ... } ... default: { ... } }`.
    #[verifier::rlimit(50)]
    #[verifier::spinoff_prover]
    fn parse_switch(&mut self) -> (r: Result<AstNode, IshError>)
        requires
            old(self).wf(),
            old(self).position < old(self).tokens.len(),
        ensures
            step_ok(*old(self), *final(self), r),
            r matches Ok(n) ==> n.kind is Switch,
            yields(r, final(self).position as int, switch(old(self).tokens@, old(self).position as int)),
        decreases old(self).tokens@.len() - old(self).position, 8nat,
    {
        let ghost ts = self.tokens@;
        let ghost p = self.position as int;
        let (line, col) = self.get_location();
        let ghost entry = self.position;
        self.position += 1;
        match self.expect(&TokenKind::LParen, "Expected '(' after 'switch'") {
            Ok(()) => {},
            Err(e) => {
                return Err(e);
            },
        }
        let expression = match self.parse_expression() {
            Ok(v) => v,
            Err(e) => {
                return Err(e);
            },
        };
        let ghost q = self.position as int;
        match self.expect(&TokenKind::RParen, "Expected ')' after switch value") {
            Ok(()) => {},
            Err(e) => {
                return Err(e);
            },
        }
        match self.expect(&TokenKind::LBrace, "Expected '{' after switch") {
            Ok(()) => {},
            Err(e) => {
                return Err(e);
            },
        }
        let mut cases: Vec<(AstNode, Vec<AstNode>)> = Vec::new();
        let mut default_case: Option<Vec<AstNode>> = None;
        proof {
            assert(case_trees(cases@) =~= Seq::<(Tree, Seq<Tree>)>::empty());
            assert(switch_from(ts, q + 2, Seq::empty(), None) is Err ==> switch(ts, p) is Err);
        }
        loop
            invariant_except_break
                switch_from(ts, q + 2, Seq::empty(), None) == switch_from(
                    ts,
                    self.position as int,
                    case_trees(cases@),
                    opt_trees(default_case),
                ),
            invariant
                self.wf(),
                moved(*old(self), *self),
                ts == old(self).tokens@,
                entry == old(self).position,
                p == entry,
                entry < self.position,
                self.in_declaration_context == old(self).in_declaration_context,
                switch_from(ts, q + 2, Seq::empty(), None) is Err ==> switch(ts, p) is Err,
            ensures
                self.wf(),
                moved(*old(self), *self),
                entry < self.position,
                self.in_declaration_context == old(self).in_declaration_context,
                switch_from(ts, q + 2, Seq::empty(), None) == Ok::<
                    ((Seq<(Tree, Seq<Tree>)>, Option<Seq<Tree>>), int),
                    (),
                >(((case_trees(cases@), opt_trees(default_case)), self.position as int)),
            decreases self.tokens@.len() - self.position,
        {
            let ghost q0 = self.position as int;
            let ghost c0 = case_trees(cases@);
            let ghost d0 = opt_trees(default_case);
            if self.position >= self.tokens.len() {
                return Err(IshError::ParseError(lit("Expected '}' at end of switch")));
            }
            if self.next_is(&TokenKind::RBrace) {
                self.position += 1;
                break;
            } else if self.next_is(&TokenKind::Semicolon) {
                self.position += 1;
                proof {
                    assert(switch_from(ts, q0, c0, d0) == switch_from(ts, q0 + 1, c0, d0));
                }
            } else if self.next_is(&TokenKind::Case) {
                self.position += 1;
                let value = match self.parse_expression() {
                    Ok(v) => v,
                    Err(e) => {
                        proof {
                            assert(switch_from(ts, q0, c0, d0) is Err);
                        }
                        return Err(e);
                    },
                };
                match self.expect(&TokenKind::Colon, "Expected ':' after case value") {
                    Ok(()) => {},
                    Err(e) => {
                        proof {
                            assert(switch_from(ts, q0, c0, d0) is Err);
                        }
                        return Err(e);
                    },
                }
                let body = match self.parse_block() {
                    Ok(b) => b,
                    Err(e) => {
                        proof {
                            assert(switch_from(ts, q0, c0, d0) is Err);
                        }
                        return Err(e);
                    },
                };
                proof {
                    lemma_case_trees_push(cases@, (value, body));
                    assert(switch_from(ts, q0, c0, d0) == switch_from(
                        ts,
                        self.position as int,
                        c0.push((tree(value), trees(body@))),
                        d0,
                    ));
                }
                cases.push((value, body));
            } else if self.next_is(&TokenKind::Default) {
                self.position += 1;
                match self.expect(&TokenKind::Colon, "Expected ':' after 'default'") {
                    Ok(()) => {},
                    Err(e) => {
                        proof {
                            assert(switch_from(ts, q0, c0, d0) is Err);
                        }
                        return Err(e);
                    },
                }
                match self.parse_block() {
                    Ok(b) => {
                        proof {
                            assert(switch_from(ts, q0, c0, d0) == switch_from(
                                ts,
                                self.position as int,
                                c0,
                                Some(trees(b@)),
                            ));
                        }
                        default_case = Some(b);
                    },
                    Err(e) => {
                        proof {
                            assert(switch_from(ts, q0, c0, d0) is Err);
                        }
                        return Err(e);
                    },
                }
            } else {
                proof {
                    assert(switch_from(ts, q0, c0, d0) is Err);
                }
                return Err(IshError::ParseError(lit("Expected 'case' or 'default' in switch")));
            }
        }
        let ghost et = tree(expression);
        let ghost ct = case_trees(cases@);
        let ghost dt = opt_trees(default_case);
        let n = AstNode::new(
            AstNodeKind::Switch { expression: Box::new(expression), cases, default_case },
            line,
            col,
        );
        proof {
            assert(tree_kind(n.kind) == TreeKind::Switch {
                expression: Box::new(et),
                cases: ct,
                default_case: dt,
            });
        }
        Ok(n)
    }

    /// Parses `namespace Name { ... }`; its statements are parsed in the declaration context.
    fn parse_namespace(&mut self) -> (r: Result<AstNode, IshError>)
        requires
            old(self).wf(),
            old(self).position < old(self).tokens.len(),
        ensures
            step_ok(*old(self), *final(self), r),
            r matches Ok(n) ==> n.kind is NamespaceDecl,
            yields(r, final(self).position as int, namespace(old(self).tokens@, old(self).position as int)),
        decreases old(self).tokens@.len() - old(self).position, 8nat,
    {
        let ghost ts = self.tokens@;
        let (line, col) = self.get_location();
        let ghost entry = self.position;
        self.position += 1;
        let name = match self.expect_word("Expected namespace name") {
            Ok(w) => w,
            Err(e) => {
                return Err(e);
            },
        };
        match self.consume() {
            Some(tok) => {
                if !matches!(tok.kind, TokenKind::LBrace) {
                    return Err(IshError::ParseError(lit("Expected '{' for namespace body")));
                }
            },
            None => {
                return Err(IshError::ParseError(lit("Expected '{' for namespace body")));
            },
        }
        let old_context = self.in_declaration_context;
        self.in_declaration_context = true;
        let mut body: Vec<AstNode> = Vec::new();
        proof {
            assert(trees(body@) =~= Seq::<Tree>::empty());
        }
        while self.position < self.tokens.len()
            invariant_except_break
                namespace_from(ts, entry + 3, Seq::empty()) == namespace_from(
                    ts,
                    self.position as int,
                    trees(body@),
                ),
            invariant
                self.wf(),
                moved(*old(self), *self),
                ts == old(self).tokens@,
                entry == old(self).position,
                entry < self.position,
                old_context == old(self).in_declaration_context,
                self.in_declaration_context,
            ensures
                self.wf(),
                moved(*old(self), *self),
                entry < self.position,
                old_context == old(self).in_declaration_context,
                namespace_from(ts, entry + 3, Seq::empty()) == Ok::<(Seq<Tree>, int), ()>(
                    (trees(body@), self.position as int),
                ),
            decreases self.tokens@.len() - self.position,
        {
            if self.next_is(&TokenKind::RBrace) {
                self.position += 1;
                break;
            }
            if self.next_is(&TokenKind::Semicolon) {
                self.position += 1;
                continue;
            }
            match self.parse_statement() {
                Ok(s) => {
                    proof {
                        lemma_trees_push(body@, s);
                    }
                    body.push(s);
                },
                Err(e) => {
                    return Err(e);
                },
            }
        }
        self.in_declaration_context = old_context;
        let ghost nv = name@;
        let ghost bt = trees(body@);
        let n = AstNode::new(AstNodeKind::NamespaceDecl { name, body }, line, col);
        proof {
            assert(tree_kind(n.kind) == TreeKind::NamespaceDecl { name: nv, body: bt });
        }
        Ok(n)
    }

    /// Parses a declaration: access modifiers and `static` (access defaults to internal), then a
    /// class, struct, function, enum, or field (`type name`, optionally `= value`).
    fn parse_declaration(&mut self) -> (r: Result<AstNode, IshError>)
        requires
            old(self).wf(),
        ensures
            step_ok(*old(self), *final(self), r),
            r matches Ok(n) ==> is_declaration(n.kind),
            yields(r, final(self).position as int, declaration(old(self).tokens@, old(self).position as int)),
        decreases old(self).tokens@.len() - old(self).position, 8nat,
    {
        let ghost ts = self.tokens@;
        let mut access = AccessSpecifier::Internal;
        let mut is_static = false;
        let ghost entry = self.position;
        while self.position < self.tokens.len()
            invariant
                self.wf(),
                moved(*old(self), *self),
                ts == old(self).tokens@,
                entry == old(self).position,
                self.in_declaration_context == old(self).in_declaration_context,
                modifiers(ts, entry as int, AccessSpecifier::Internal, false) == modifiers(
                    ts,
                    self.position as int,
                    access,
                    is_static,
                ),
            ensures
                self.wf(),
                moved(*old(self), *self),
                self.in_declaration_context == old(self).in_declaration_context,
                modifiers(ts, entry as int, AccessSpecifier::Internal, false) == (
                    access,
                    is_static,
                    self.position as int,
                ),
            decreases self.tokens@.len() - self.position,
        {
            if self.next_is(&TokenKind::Public) {
                access = AccessSpecifier::Public;
            } else if self.next_is(&TokenKind::Private) {
                access = AccessSpecifier::Private;
            } else if self.next_is(&TokenKind::Protected) {
                access = AccessSpecifier::Protected;
            } else if self.next_is(&TokenKind::Internal) {
                access = AccessSpecifier::Internal;
            } else if self.next_is(&TokenKind::Static) {
                is_static = true;
            } else {
                break;
            }
            self.position += 1;
        }
        if self.position >= self.tokens.len() {
            return Err(IshError::ParseError(lit("Expected declaration after modifiers")));
        }
        if self.next_is(&TokenKind::Class) {
            self.parse_class(access, is_static)
        } else if self.next_is(&TokenKind::Struct) {
            self.parse_struct(access)
        } else if self.next_is(&TokenKind::Function) {
            self.parse_function(access, is_static)
        } else if self.next_is(&TokenKind::Enum) {
            self.parse_enum(access)
        } else if is_type_kind(&self.tokens[self.position].kind) && self.kind_is_word(
            self.position + 1,
        ) {
            self.parse_field(access, is_static)
        } else {
            Err(
                IshError::ParseError(
                    lit("Expected class, struct, enum, or function declaration after modifiers"),
                ),
            )
        }
    }

    /// Whether the token at position `i` is a word.
    fn kind_is_word(&self, i: usize) -> (r: bool)
        ensures
            r == (i < self.tokens@.len() && self.kind_at(i as int) is Word),
    {
        i < self.tokens.len() && matches!(self.tokens[i].kind, TokenKind::Word(_))
    }

    /// Parses a field: `type name`, optionally `= value`.
    fn parse_field(&mut self, access: AccessSpecifier, is_static: bool) -> (r: Result<
        AstNode,
        IshError,
    >)
        requires
            old(self).wf(),
        ensures
            step_ok(*old(self), *final(self), r),
            r matches Ok(n) ==> n.kind is FieldDecl,
            yields(
                r,
                final(self).position as int,
                field(old(self).tokens@, old(self).position as int, access, is_static),
            ),
        decreases old(self).tokens@.len() - old(self).position, 7nat,
    {
        let ghost ts = self.tokens@;
        let (line, col) = self.get_location();
        let type_text = match self.read_type() {
            Ok((t, _)) => t,
            Err(e) => {
                return Err(e);
            },
        };
        let name = match self.expect_word("Expected field name") {
            Ok(w) => w,
            Err(e) => {
                return Err(e);
            },
        };
        let mut default_value: Option<Box<AstNode>> = None;
        if self.next_is(&TokenKind::Assign) {
            self.position += 1;
            match self.parse_expression() {
                Ok(v) => {
                    default_value = Some(Box::new(v));
                },
                Err(e) => {
                    return Err(e);
                },
            }
        }
        let ghost nv = name@;
        let ghost tv = type_text@;
        let ghost dv: Option<Box<Tree>> = match opt_tree(default_value) {
            Some(d) => Some(Box::new(d)),
            None => None,
        };
        let n = AstNode::new(
            AstNodeKind::FieldDecl {
                name,
                type_specifier: Some(type_text),
                access,
                is_static,
                default_value,
            },
            line,
            col,
        );
        proof {
            assert(tree_kind(n.kind) == TreeKind::FieldDecl {
                name: nv,
                type_specifier: Some(tv),
                access,
                is_static,
                default_value: dv,
            });
        }
        Ok(n)
    }

    /// Parses `class Name { ... }` or `class Name : Base { ... }`. Members are declarations: a
    /// function named as the class is its constructor, one named `~Name` its destructor, other
    /// functions its methods, and everything else its fields.
    #[verifier::rlimit(30)]
    fn parse_class(&mut self, access: AccessSpecifier, is_static: bool) -> (r: Result<
        AstNode,
        IshError,
    >)
        requires
            old(self).wf(),
            old(self).position < old(self).tokens.len(),
        ensures
            step_ok(*old(self), *final(self), r),
            r matches Ok(n) ==> n.kind is ClassDecl,
            yields(
                r,
                final(self).position as int,
                class_decl(old(self).tokens@, old(self).position as int, access, is_static),
            ),
        decreases old(self).tokens@.len() - old(self).position, 7nat,
    {
        let ghost ts = self.tokens@;
        let ghost p = self.position as int;
        let (line, col) = self.get_location();
        let ghost entry = self.position;
        self.position += 1;
        let name = match self.expect_word("Expected class name") {
            Ok(w) => w,
            Err(e) => {
                return Err(e);
            },
        };
        let mut base_class: Option<String> = None;
        if self.next_is(&TokenKind::Colon) {
            self.position += 1;
            match self.expect_word("Expected base class name after ':'") {
                Ok(w) => {
                    base_class = Some(w);
                },
                Err(e) => {
                    return Err(e);
                },
            }
        }
        let ghost q = self.position as int;
        match self.consume() {
            Some(tok) => {
                if !matches!(tok.kind, TokenKind::LBrace) {
                    return Err(IshError::ParseError(lit("Expected '{' after class name")));
                }
            },
            None => {
                return Err(IshError::ParseError(lit("Expected '{' after class name")));
            },
        }
        let ghost nv = name@;
        let destructor_name = concat(lit("~"), name.as_str());
        let mut methods: Vec<AstNode> = Vec::new();
        let mut fields: Vec<AstNode> = Vec::new();
        let mut constructor: Option<(AccessSpecifier, Vec<Param>, Vec<AstNode>)> = None;
        let mut destructor: Option<Vec<AstNode>> = None;
        let ghost empty: ClassParts = (Seq::empty(), Seq::empty(), None, None);
        proof {
            assert(trees(methods@) =~= Seq::<Tree>::empty());
            assert(trees(fields@) =~= Seq::<Tree>::empty());
            assert(class_from(ts, q + 1, nv, empty) is Err ==> class_decl(ts, p, access, is_static) is Err);
        }
        let old_context = self.in_declaration_context;
        self.in_declaration_context = true;
        while self.position < self.tokens.len()
            invariant_except_break
                class_from(ts, q + 1, nv, empty) == class_from(
                    ts,
                    self.position as int,
                    nv,
                    (trees(methods@), trees(fields@), ctor_tree(constructor), opt_trees(destructor)),
                ),
            invariant
                self.wf(),
                moved(*old(self), *self),
                ts == old(self).tokens@,
                entry == old(self).position,
                p == entry,
                entry < self.position,
                old_context == old(self).in_declaration_context,
                self.in_declaration_context,
                name@ == nv,
                destructor_name@ == "~"@ + nv,
                empty == (Seq::<Tree>::empty(), Seq::<Tree>::empty(), None::<(AccessSpecifier, Seq<ParamTree>, Seq<Tree>)>, None::<Seq<Tree>>),
                class_from(ts, q + 1, nv, empty) is Err ==> class_decl(ts, p, access, is_static) is Err,
            ensures
                self.wf(),
                moved(*old(self), *self),
                entry < self.position,
                old_context == old(self).in_declaration_context,
                name@ == nv,
                class_from(ts, q + 1, nv, empty) == Ok::<(ClassParts, int), ()>(
                    (
                        (trees(methods@), trees(fields@), ctor_tree(constructor), opt_trees(destructor)),
                        self.position as int,
                    ),
                ),
            decreases self.tokens@.len() - self.position,
        {
            if self.next_is(&TokenKind::RBrace) {
                self.position += 1;
                break;
            }
            if self.next_is(&TokenKind::Semicolon) {
                self.position += 1;
                continue;
            }
            let decl = match self.parse_declaration() {
                Ok(d) => d,
                Err(e) => {
                    return Err(e);
                },
            };
            let ghost dt = tree(decl);
            let AstNode { kind, line: dline, column: dcol } = decl;
            match kind {
                AstNodeKind::Function { name: fn_name, params, body, access: facc, is_static: fst } => {
                    proof {
                        assert(dt.kind == TreeKind::Function {
                            name: fn_name@,
                            params: param_trees(params@),
                            body: trees(body@),
                            access: facc,
                            is_static: fst,
                        });
                    }
                    if fn_name == name {
                        constructor = Some((facc, params, body));
                    } else if fn_name == destructor_name {
                        destructor = Some(body);
                    } else {
                        let m = AstNode::new(
                            AstNodeKind::Function {
                                name: fn_name,
                                params,
                                body,
                                access: facc,
                                is_static: fst,
                            },
                            dline,
                            dcol,
                        );
                        proof {
                            assert(tree(m) == dt);
                            lemma_trees_push(methods@, m);
                        }
                        methods.push(m);
                    }
                },
                other => {
                    let f = AstNode::new(other, dline, dcol);
                    proof {
                        assert(tree(f) == dt);
                        lemma_trees_push(fields@, f);
                    }
                    fields.push(f);
                },
            }
        }
        self.in_declaration_context = old_context;
        let ghost bv = opt_text(base_class);
        let ghost mt = trees(methods@);
        let ghost ft = trees(fields@);
        let ghost ct = ctor_tree(constructor);
        let ghost dt = opt_trees(destructor);
        let n = AstNode::new(
            AstNodeKind::ClassDecl {
                name,
                base_class,
                access,
                is_static,
                methods,
                fields,
                constructor,
                destructor,
            },
            line,
            col,
        );
        proof {
            assert(tree_kind(n.kind) == TreeKind::ClassDecl {
                name: nv,
                base_class: bv,
                access,
                is_static,
                methods: mt,
                fields: ft,
                constructor: ct,
                destructor: dt,
            });
        }
        Ok(n)
    }

    /// Parses `struct Name { ... }`: fields, and optionally a constructor (`func Name`) and a
    /// destructor (`func ~Name`); any other member is an error.
    #[verifier::rlimit(30)]
    fn parse_struct(&mut self, access: AccessSpecifier) -> (r: Result<AstNode, IshError>)
        requires
            old(self).wf(),
            old(self).position < old(self).tokens.len(),
        ensures
            step_ok(*old(self), *final(self), r),
            r matches Ok(n) ==> n.kind is StructDecl,
            yields(
                r,
                final(self).position as int,
                struct_decl(old(self).tokens@, old(self).position as int, access),
            ),
        decreases old(self).tokens@.len() - old(self).position, 7nat,
    {
        let ghost ts = self.tokens@;
        let ghost p = self.position as int;
        let (line, col) = self.get_location();
        let ghost entry = self.position;
        self.position += 1;
        let name = match self.expect_word("Expected struct name") {
            Ok(w) => w,
            Err(e) => {
                return Err(e);
            },
        };
        match self.consume() {
            Some(tok) => {
                if !matches!(tok.kind, TokenKind::LBrace) {
                    return Err(IshError::ParseError(lit("Expected '{' after struct name")));
                }
            },
            None => {
                return Err(IshError::ParseError(lit("Expected '{' after struct name")));
            },
        }
        let ghost nv = name@;
        let destructor_name = concat(lit("~"), name.as_str());
        let mut fields: Vec<AstNode> = Vec::new();
        let mut constructor: Option<(AccessSpecifier, Vec<Param>, Vec<AstNode>)> = None;
        let mut destructor: Option<Vec<AstNode>> = None;
        let ghost empty: StructParts = (Seq::empty(), None, None);
        proof {
            assert(trees(fields@) =~= Seq::<Tree>::empty());
            assert(struct_from(ts, p + 3, nv, empty) is Err ==> struct_decl(ts, p, access) is Err);
        }
        let old_context = self.in_declaration_context;
        self.in_declaration_context = true;
        while self.position < self.tokens.len()
            invariant_except_break
                struct_from(ts, p + 3, nv, empty) == struct_from(
                    ts,
                    self.position as int,
                    nv,
                    (trees(fields@), ctor_tree(constructor), opt_trees(destructor)),
                ),
            invariant
                self.wf(),
                moved(*old(self), *self),
                ts == old(self).tokens@,
                entry == old(self).position,
                p == entry,
                entry < self.position,
                old_context == old(self).in_declaration_context,
                self.in_declaration_context,
                name@ == nv,
                destructor_name@ == "~"@ + nv,
                empty == (Seq::<Tree>::empty(), None::<(AccessSpecifier, Seq<ParamTree>, Seq<Tree>)>, None::<Seq<Tree>>),
                struct_from(ts, p + 3, nv, empty) is Err ==> struct_decl(ts, p, access) is Err,
            ensures
                self.wf(),
                moved(*old(self), *self),
                entry < self.position,
                old_context == old(self).in_declaration_context,
                name@ == nv,
                struct_from(ts, p + 3, nv, empty) == Ok::<(StructParts, int), ()>(
                    (
                        (trees(fields@), ctor_tree(constructor), opt_trees(destructor)),
                        self.position as int,
                    ),
                ),
            decreases self.tokens@.len() - self.position,
        {
            if self.next_is(&TokenKind::RBrace) {
                self.position += 1;
                break;
            }
            if self.next_is(&TokenKind::Semicolon) {
                self.position += 1;
                continue;
            }
            let decl = match self.parse_declaration() {
                Ok(d) => d,
                Err(e) => {
                    return Err(e);
                },
            };
            let ghost dt = tree(decl);
            let AstNode { kind, line: dline, column: dcol } = decl;
            match kind {
                AstNodeKind::Function { name: fn_name, params, body, access: facc, .. } => {
                    proof {
                        assert(dt.kind matches TreeKind::Function { name: f, params: ps, body: b, access: fa, .. }
                            && f == fn_name@ && ps == param_trees(params@) && b == trees(body@) && fa == facc);
                    }
                    if fn_name == name {
                        constructor = Some((facc, params, body));
                    } else if fn_name == destructor_name {
                        destructor = Some(body);
                    } else {
                        return Err(IshError::ParseError(lit("Expected field declaration in struct")));
                    }
                },
                AstNodeKind::FieldDecl { name: f, type_specifier, access: fa, is_static: fs, default_value } => {
                    let fd = AstNode::new(
                        AstNodeKind::FieldDecl {
                            name: f,
                            type_specifier,
                            access: fa,
                            is_static: fs,
                            default_value,
                        },
                        dline,
                        dcol,
                    );
                    proof {
                        assert(tree(fd) == dt);
                        lemma_trees_push(fields@, fd);
                    }
                    fields.push(fd);
                },
                _ => {
                    proof {
                        assert(!(dt.kind is Function) && !(dt.kind is FieldDecl));
                    }
                    return Err(IshError::ParseError(lit("Expected field declaration in struct")));
                },
            }
        }
        self.in_declaration_context = old_context;
        let ghost ft = trees(fields@);
        let ghost ct = ctor_tree(constructor);
        let ghost dt = opt_trees(destructor);
        let n = AstNode::new(
            AstNodeKind::StructDecl { name, access, fields, constructor, destructor },
            line,
            col,
        );
        proof {
            assert(tree_kind(n.kind) == TreeKind::StructDecl {
                name: nv,
                access,
                fields: ft,
                constructor: ct,
                destructor: dt,
            });
        }
        Ok(n)
    }

    /// Parses `enum Name { A, B, ... }`.
    fn parse_enum(&mut self, access: AccessSpecifier) -> (r: Result<AstNode, IshError>)
        requires
            old(self).wf(),
            old(self).position < old(self).tokens.len(),
        ensures
            step_ok(*old(self), *final(self), r),
            r matches Ok(n) ==> n.kind is EnumDecl,
            yields(
                r,
                final(self).position as int,
                enum_decl(old(self).tokens@, old(self).position as int, access),
            ),
    {
        let ghost ts = self.tokens@;
        let (line, col) = self.get_location();
        let ghost entry = self.position;
        self.position += 1;
        let name = match self.expect_word("Expected enum name") {
            Ok(w) => w,
            Err(e) => {
                return Err(e);
            },
        };
        match self.consume() {
            Some(tok) => {
                if !matches!(tok.kind, TokenKind::LBrace) {
                    return Err(IshError::ParseError(lit("Expected '{' after enum name")));
                }
            },
            None => {
                return Err(IshError::ParseError(lit("Expected '{' after enum name")));
            },
        }
        let mut variants: Vec<String> = Vec::new();
        proof {
            assert(variants@.map_values(|v: String| v@) =~= Seq::<Seq<char>>::empty());
        }
        while self.position < self.tokens.len()
            invariant_except_break
                enum_from(ts, entry + 3, Seq::empty()) == enum_from(
                    ts,
                    self.position as int,
                    variants@.map_values(|v: String| v@),
                ),
            invariant
                self.wf(),
                moved(*old(self), *self),
                ts == old(self).tokens@,
                entry == old(self).position,
                entry < self.position,
                self.in_declaration_context == old(self).in_declaration_context,
            ensures
                self.wf(),
                moved(*old(self), *self),
                entry < self.position,
                self.in_declaration_context == old(self).in_declaration_context,
                enum_from(ts, entry + 3, Seq::empty()) == Ok::<(Seq<Seq<char>>, int), ()>(
                    (variants@.map_values(|v: String| v@), self.position as int),
                ),
            decreases self.tokens@.len() - self.position,
        {
            if self.next_is(&TokenKind::RBrace) {
                self.position += 1;
                break;
            }
            if self.next_is(&TokenKind::Comma) || self.next_is(&TokenKind::Semicolon) {
                self.position += 1;
                continue;
            }
            let ghost before = variants@;
            match self.expect_word("Expected enum variant name") {
                Ok(w) => {
                    variants.push(w);
                    proof {
                        assert(variants@.map_values(|v: String| v@) =~= before.map_values(
                            |v: String| v@,
                        ).push(w@));
                    }
                },
                Err(e) => {
                    return Err(e);
                },
            }
        }
        let ghost nv = name@;
        let ghost vv = variants@.map_values(|v: String| v@);
        let n = AstNode::new(AstNodeKind::EnumDecl { name, access, variants }, line, col);
        proof {
            assert(tree_kind(n.kind) == TreeKind::EnumDecl { name: nv, access, variants: vv });
        }
        Ok(n)
    }

    /// Parses `with Name`, optionally followed by a separator.
    fn parse_with_import(&mut self) -> (r: Result<AstNode, IshError>)
        requires
            old(self).wf(),
            old(self).position < old(self).tokens.len(),
        ensures
            step_ok(*old(self), *final(self), r),
            r matches Ok(n) ==> n.kind is WithImport,
            yields(
                r,
                final(self).position as int,
                with_import(old(self).tokens@, old(self).position as int),
            ),
    {
        let (line, col) = self.get_location();
        self.position += 1;
        let path = match self.expect_word("Expected namespace path after 'with'") {
            Ok(w) => w,
            Err(e) => {
                return Err(e);
            },
        };
        if self.next_is(&TokenKind::Semicolon) {
            self.position += 1;
        }
        Ok(AstNode::new(AstNodeKind::WithImport { path }, line, col))
    }

    /// Parses a parameter list `( ... )`, when there is one: each parameter is optionally
    /// `params` (variadic), then a type (`type[]` for an array), a name, and for a parameter that
    /// is not variadic optionally `= default`.
    fn parse_parameters(&mut self) -> (r: Result<Vec<Param>, IshError>)
        requires
            old(self).wf(),
        ensures
            moved(*old(self), *final(self)),
            r is Ok ==> final(self).in_declaration_context == old(self).in_declaration_context,
            match r {
                Ok(ps) => params(old(self).tokens@, old(self).position as int) == Ok::<
                    (Seq<ParamTree>, int),
                    (),
                >((param_trees(ps@), final(self).position as int)),
                Err(e) => params(old(self).tokens@, old(self).position as int) is Err
                    && e is ParseError,
            },
            lone_word_parameter(old(self).tokens@, old(self).position as int) ==> (r matches Err(
                IshError::ParseError(m),
            ) && m@ == "Method parameters must have a type specifier"@),
        decreases old(self).tokens@.len() - old(self).position, 6nat,
    {
        let ghost ts = self.tokens@;
        let mut params: Vec<Param> = Vec::new();
        proof {
            assert(param_trees(params@) =~= Seq::<ParamTree>::empty());
        }
        if !self.next_is(&TokenKind::LParen) {
            return Ok(params);
        }
        let ghost entry = self.position;
        let ghost lone = lone_word_parameter(ts, entry as int);
        self.position += 1;
        while self.position < self.tokens.len()
            invariant_except_break
                lone ==> self.position == entry + 1,
                params_from(ts, entry + 1, Seq::empty()) == params_from(
                    ts,
                    self.position as int,
                    param_trees(params@),
                ),
            invariant
                self.wf(),
                moved(*old(self), *self),
                ts == old(self).tokens@,
                entry == old(self).position,
                lone == lone_word_parameter(ts, entry as int),
                at(ts, entry as int, TokenKind::LParen),
                entry < self.position,
                self.in_declaration_context == old(self).in_declaration_context,
            ensures
                self.wf(),
                moved(*old(self), *self),
                self.in_declaration_context == old(self).in_declaration_context,
                params_from(ts, entry + 1, Seq::empty()) == Ok::<(Seq<ParamTree>, int), ()>(
                    (param_trees(params@), self.position as int),
                ),
                !lone,
            decreases self.tokens@.len() - self.position,
        {
            if self.next_is(&TokenKind::RParen) {
                self.position += 1;
                break;
            }
            if self.next_is(&TokenKind::Comma) {
                self.position += 1;
                continue;
            }
            let mut is_variadic = false;
            if self.next_is(&TokenKind::Params) {
                self.position += 1;
                is_variadic = true;
            }
            let (type_text, is_array) = match self.read_type() {
                Ok(t) => t,
                Err(e) => {
                    return Err(e);
                },
            };
            if self.position >= self.tokens.len() || self.next_is(&TokenKind::Comma) || self.next_is(
                &TokenKind::RParen,
            ) {
                return Err(IshError::ParseError(lit("Method parameters must have a type specifier")));
            }
            let name = match self.expect_word("Expected parameter name") {
                Ok(w) => w,
                Err(e) => {
                    return Err(e);
                },
            };
            let mut default_value: Option<Box<AstNode>> = None;
            if self.next_is(&TokenKind::Assign) {
                if is_variadic {
                    return Err(
                        IshError::ParseError(
                            lit("Variadic parameters (params) cannot have default values"),
                        ),
                    );
                }
                self.position += 1;
                match self.parse_expression() {
                    Ok(v) => {
                        default_value = Some(Box::new(v));
                    },
                    Err(e) => {
                        return Err(e);
                    },
                }
            }
            let param = Param {
                name,
                type_specifier: Some(type_text),
                is_array,
                is_variadic,
                default_value,
            };
            proof {
                lemma_param_trees_push(params@, param);
            }
            params.push(param);
        }
        Ok(params)
    }

    /// Parses `func Name(parameters) { ... }`.
    #[verifier::rlimit(40)]
    fn parse_function(&mut self, access: AccessSpecifier, is_static: bool) -> (r: Result<
        AstNode,
        IshError,
    >)
        requires
            old(self).wf(),
            old(self).position < old(self).tokens.len(),
        ensures
            step_ok(*old(self), *final(self), r),
            r matches Ok(n) ==> n.kind is Function,
            yields(
                r,
                final(self).position as int,
                function(old(self).tokens@, old(self).position as int, access, is_static),
            ),
        decreases old(self).tokens@.len() - old(self).position, 7nat,
    {
        let ghost ts = self.tokens@;
        let (line, col) = self.get_location();
        self.position += 1;
        let name = match self.expect_word("Expected function name") {
            Ok(w) => w,
            Err(e) => {
                return Err(e);
            },
        };
        let params = match self.parse_parameters() {
            Ok(p) => p,
            Err(e) => {
                return Err(e);
            },
        };
        let body = match self.parse_block() {
            Ok(b) => b,
            Err(e) => {
                return Err(e);
            },
        };
        let ghost nv = name@;
        let ghost pt = param_trees(params@);
        let ghost bt = trees(body@);
        let n = AstNode::new(
            AstNodeKind::Function { name, params, body, access, is_static },
            line,
            col,
        );
        proof {
            assert(tree_kind(n.kind) == TreeKind::Function {
                name: nv,
                params: pt,
                body: bt,
                access,
                is_static,
            });
        }
        Ok(n)
    }

    /// Parses a block `{ ... }`. Its statements are parsed outside the declaration context, so a
    /// declaration inside a block is an error.
    fn parse_block(&mut self) -> (r: Result<Vec<AstNode>, IshError>)
        requires
            old(self).wf(),
        ensures
            step_ok(*old(self), *final(self), r),
            r matches Ok(stmts) ==> forall|i: int|
                0 <= i < stmts@.len() ==> !is_declaration(#[trigger] stmts@[i].kind),
            yields_list(r, final(self).position as int, block(old(self).tokens@, old(self).position as int)),
        decreases old(self).tokens@.len() - old(self).position, 6nat,
    {
        let ghost ts = self.tokens@;
        let ghost entry = self.position;
        match self.consume() {
            Some(tok) => {
                if !matches!(tok.kind, TokenKind::LBrace) {
                    return Err(IshError::ParseError(lit("Expected '{' for block")));
                }
            },
            None => {
                return Err(IshError::ParseError(lit("Expected '{' for block")));
            },
        }
        let old_context = self.in_declaration_context;
        self.in_declaration_context = false;
        let mut stmts: Vec<AstNode> = Vec::new();
        proof {
            assert(trees(stmts@) =~= Seq::<Tree>::empty());
        }
        while self.position < self.tokens.len() && !self.next_is(&TokenKind::RBrace)
            invariant
                self.wf(),
                moved(*old(self), *self),
                ts == old(self).tokens@,
                entry == old(self).position,
                at(ts, entry as int, TokenKind::LBrace),
                entry < self.position,
                old_context == old(self).in_declaration_context,
                !self.in_declaration_context,
                forall|i: int| 0 <= i < stmts@.len() ==> !is_declaration(#[trigger] stmts@[i].kind),
                block_from(ts, entry + 1, Seq::empty()) == block_from(
                    ts,
                    self.position as int,
                    trees(stmts@),
                ),
            decreases self.tokens@.len() - self.position,
        {
            if self.next_is(&TokenKind::Semicolon) {
                self.position += 1;
                continue;
            }
            match self.parse_logical() {
                Ok(s) => {
                    proof {
                        lemma_trees_push(stmts@, s);
                    }
                    stmts.push(s);
                },
                Err(e) => {
                    self.in_declaration_context = old_context;
                    return Err(e);
                },
            }
        }
        self.in_declaration_context = old_context;
        match self.consume() {
            Some(tok) => {
                if !matches!(tok.kind, TokenKind::RBrace) {
                    return Err(IshError::ParseError(lit("Expected '}' at end of block")));
                }
            },
            None => {
                return Err(IshError::ParseError(lit("Expected '}' at end of block")));
            },
        }
        Ok(stmts)
    }

    /// Parses an expression statement or argument.
    fn parse_pipeline(&mut self) -> (r: Result<AstNode, IshError>)
        requires
            old(self).wf(),
        ensures
            step_ok(*old(self), *final(self), r),
            r matches Ok(n) ==> is_expression(n.kind),
            yields(r, final(self).position as int, expression(old(self).tokens@, old(self).position as int)),
        decreases old(self).tokens@.len() - old(self).position, 5nat,
    {
        self.parse_expression()
    }

    fn parse_expression(&mut self) -> (r: Result<AstNode, IshError>)
        requires
            old(self).wf(),
        ensures
            step_ok(*old(self), *final(self), r),
            r matches Ok(n) ==> is_expression(n.kind),
            yields(r, final(self).position as int, expression(old(self).tokens@, old(self).position as int)),
        decreases old(self).tokens@.len() - old(self).position, 4nat,
    {
        self.parse_expression_pratt(0)
    }

    /// The precedence of an operator token (see `precedence`).
    fn get_precedence(tok: &TokenKind) -> (p: u8)
        ensures
            p as int == precedence(*tok),
    {
        match tok {
            TokenKind::Question => 1,
            TokenKind::OrElse => 2,
            TokenKind::AndThen => 3,
            TokenKind::Equals | TokenKind::NotEquals => 4,
            TokenKind::GreaterThan | TokenKind::LessThan | TokenKind::GreaterOrEq
            | TokenKind::LessOrEq => 5,
            TokenKind::Word(w) => {
                if string_eq_str(w, "+") || string_eq_str(w, "-") {
                    6
                } else if string_eq_str(w, "*") || string_eq_str(w, "/") || string_eq_str(w, "%") {
                    7
                } else {
                    0
                }
            },
            _ => 0,
        }
    }

    /// Parses operands joined by operators of precedence at least `min_prec`, by precedence
    /// climbing: binary operators group to the left, and `c ? a : b` builds a ternary operation.
    #[verifier::rlimit(30)]
    fn parse_expression_pratt(&mut self, min_prec: u8) -> (r: Result<AstNode, IshError>)
        requires
            old(self).wf(),
        ensures
            step_ok(*old(self), *final(self), r),
            r matches Ok(n) ==> is_expression(n.kind),
            yields(
                r,
                final(self).position as int,
                pratt(old(self).tokens@, old(self).position as int, min_prec as int),
            ),
        decreases old(self).tokens@.len() - old(self).position, 3nat,
    {
        let ghost ts = self.tokens@;
        let ghost entry = self.position;
        let ghost min = min_prec as int;
        let mut left = match self.parse_command() {
            Ok(n) => n,
            Err(e) => {
                return Err(e);
            },
        };
        proof {
            assert(pratt(ts, entry as int, min) == pratt_loop(
                ts,
                self.position as int,
                tree(left),
                min,
            ));
        }
        while self.position < self.tokens.len()
            invariant
                self.wf(),
                moved(*old(self), *self),
                ts == old(self).tokens@,
                entry == old(self).position,
                min == min_prec,
                entry < self.position,
                self.in_declaration_context == old(self).in_declaration_context,
                is_expression(left.kind),
                pratt(ts, entry as int, min) == pratt_loop(
                    ts,
                    self.position as int,
                    tree(left),
                    min,
                ),
            ensures
                self.wf(),
                moved(*old(self), *self),
                entry < self.position,
                self.in_declaration_context == old(self).in_declaration_context,
                is_expression(left.kind),
                pratt(ts, entry as int, min) == Ok::<(Tree, int), ()>(
                    (tree(left), self.position as int),
                ),
            decreases self.tokens@.len() - self.position,
        {
            let ghost q = self.position as int;
            let ghost lt = tree(left);
            let prec = Self::get_precedence(&self.tokens[self.position].kind);
            if prec == 0 || prec < min_prec {
                break;
            }
            let op_line = self.tokens[self.position].line;
            let op_col = self.tokens[self.position].column;
            let is_ternary = matches!(self.tokens[self.position].kind, TokenKind::Question);
            let op_str = operator_text(&self.tokens[self.position].kind);
            self.position += 1;
            if is_ternary {
                let true_val = match self.parse_expression_pratt(0) {
                    Ok(n) => n,
                    Err(e) => {
                        proof {
                            assert(pratt_loop(ts, q, lt, min) is Err);
                        }
                        return Err(e);
                    },
                };
                let ghost tv = tree(true_val);
                match self.expect(&TokenKind::Colon, "Expected ':' in ternary operator") {
                    Ok(()) => {},
                    Err(e) => {
                        proof {
                            assert(pratt_loop(ts, q, lt, min) is Err);
                        }
                        return Err(e);
                    },
                }
                let false_val = match self.parse_expression_pratt(prec) {
                    Ok(n) => n,
                    Err(e) => {
                        proof {
                            assert(pratt_loop(ts, q, lt, min) is Err);
                        }
                        return Err(e);
                    },
                };
                let ghost fv = tree(false_val);
                left =
                AstNode::new(
                    AstNodeKind::TernaryOp {
                        condition: Box::new(left),
                        true_value: Box::new(true_val),
                        false_value: Box::new(false_val),
                    },
                    op_line,
                    op_col,
                );
                proof {
                    assert(tree(left) == node(
                        TreeKind::TernaryOp {
                            condition: Box::new(lt),
                            true_value: Box::new(tv),
                            false_value: Box::new(fv),
                        },
                        (op_line, op_col),
                    ));
                    assert(pratt_loop(ts, q, lt, min) == pratt_loop(
                        ts,
                        self.position as int,
                        tree(left),
                        min,
                    ));
                }
            } else {
                let right = match self.parse_expression_pratt(prec + 1) {
                    Ok(n) => n,
                    Err(e) => {
                        proof {
                            assert(pratt_loop(ts, q, lt, min) is Err);
                        }
                        return Err(e);
                    },
                };
                let ghost rt = tree(right);
                left =
                AstNode::new(
                    AstNodeKind::BinaryOp {
                        left: Box::new(left),
                        operator: op_str,
                        right: Box::new(right),
                    },
                    op_line,
                    op_col,
                );
                proof {
                    assert(tree(left) == node(
                        TreeKind::BinaryOp {
                            left: Box::new(lt),
                            operator: op_text(ts[q].kind),
                            right: Box::new(rt),
                        },
                        (op_line, op_col),
                    ));
                    assert(pratt_loop(ts, q, lt, min) == pratt_loop(
                        ts,
                        self.position as int,
                        tree(left),
                        min,
                    ));
                }
            }
        }
        Ok(left)
    }

    /// Parses a primary expression: a literal, a variable, a member access or call
    /// (`a.b`, `a.b(...)`, `f(...)`), indexing (`a[i]`), `!x` or `-x`, a parenthesized
    /// expression, an array `[...]`, a map `Map({k: v}, ...)`, an interpolated string, or an
    /// instantiation `new T(...)`.
    #[verifier::rlimit(30)]
    fn parse_command(&mut self) -> (r: Result<AstNode, IshError>)
        requires
            old(self).wf(),
        ensures
            step_ok(*old(self), *final(self), r),
            r matches Ok(n) ==> is_expression(n.kind),
            yields(
                r,
                final(self).position as int,
                primary(old(self).tokens@, old(self).position as int),
            ),
        decreases old(self).tokens@.len() - old(self).position, 2nat,
    {
        if self.position >= self.tokens.len() {
            return Err(IshError::ParseError(lit("Expected command name")));
        }
        let ghost ts = self.tokens@;
        let ghost p = self.position as int;
        let (line, col) = self.get_location();
        let ghost l = (line, col);
        let ghost entry = self.position;
        let kind = self.tokens[self.position].kind.clone();
        match kind {
            TokenKind::New => self.parse_new(),
            TokenKind::LBracket => self.parse_array_literal(),
            TokenKind::LParen => {
                self.position += 1;
                let inner = match self.parse_expression() {
                    Ok(n) => n,
                    Err(e) => {
                        return Err(e);
                    },
                };
                match self.expect(&TokenKind::RParen, "Expected ')'") {
                    Ok(()) => {},
                    Err(e) => {
                        return Err(e);
                    },
                }
                Ok(inner)
            },
            TokenKind::StringLiteral(s) => {
                self.position += 1;
                Ok(AstNode::new(AstNodeKind::StringLiteral(s), line, col))
            },
            TokenKind::CharLiteral(c) => {
                self.position += 1;
                Ok(AstNode::new(AstNodeKind::CharLiteral(c), line, col))
            },
            TokenKind::InterpolatedStringLiteral(s) => {
                self.position += 1;
                match interpolation_parts(&s, line, col) {
                    Ok(parts) => {
                        let n = AstNode::new(AstNodeKind::InterpolatedString(parts), line, col);
                        proof {
                            assert(tree_kind(n.kind) == TreeKind::InterpolatedString(trees(parts@)));
                        }
                        Ok(n)
                    },
                    Err(e) => Err(e),
                }
            },
            TokenKind::Word(w) => {
                if string_eq_str(&w, "Map") && self.kind_is(self.position + 1, &TokenKind::LParen) {
                    return self.parse_map_literal();
                }
                if string_eq_str(&w, "!") || string_eq_str(&w, "-") {
                    self.position += 1;
                    let operand = match self.parse_command() {
                        Ok(n) => n,
                        Err(e) => {
                            return Err(e);
                        },
                    };
                    let ghost ot = tree(operand);
                    let n = AstNode::new(
                        AstNodeKind::UnaryOp { operator: w, operand: Box::new(operand) },
                        line,
                        col,
                    );
                    proof {
                        assert(tree_kind(n.kind) == TreeKind::UnaryOp {
                            operator: ts[p].kind->Word_0@,
                            operand: Box::new(ot),
                        });
                    }
                    return Ok(n);
                }
                self.position += 1;
                if is_literal_word(&w) {
                    return Ok(AstNode::new(AstNodeKind::StringLiteral(w), line, col));
                }
                let ghost wv = w@;
                let ghost d = last_dot(wv);
                let mut expr: AstNode;
                let split = split_member(&w);
                if split.is_some() || self.next_is(&TokenKind::LParen) {
                    let (obj_name, member_name) = match split {
                        Some(parts) => parts,
                        None => (lit("___implicit___"), w),
                    };
                    let ghost obj_v = obj_name@;
                    let ghost member_v = member_name@;
                    let object = Box::new(
                        AstNode::new(AstNodeKind::StringLiteral(obj_name), line, col),
                    );
                    let ghost ob = tree(*object);
                    proof {
                        assert(ob == node(TreeKind::StringLiteral(obj_v), l));
                    }
                    if self.next_is(&TokenKind::LParen) {
                        let args = match self.parse_call_args() {
                            Ok(a) => a,
                            Err(e) => {
                                return Err(e);
                            },
                        };
                        let ghost at = trees(args@);
                        expr =
                        AstNode::new(
                            AstNodeKind::MethodCall { object, method_name: member_name, args },
                            line,
                            col,
                        );
                        proof {
                            assert(tree(expr) == node(
                                TreeKind::MethodCall {
                                    object: Box::new(ob),
                                    method_name: member_v,
                                    args: at,
                                },
                                l,
                            ));
                        }
                    } else {
                        expr =
                        AstNode::new(
                            AstNodeKind::PropertyAccess { object, property_name: member_name },
                            line,
                            col,
                        );
                        proof {
                            assert(tree(expr) == node(
                                TreeKind::PropertyAccess {
                                    object: Box::new(ob),
                                    property_name: member_v,
                                },
                                l,
                            ));
                        }
                    }
                } else {
                    expr = AstNode::new(AstNodeKind::Variable(w), line, col);
                }
                proof {
                    assert(primary(ts, p) == index_suffix(ts, self.position as int, tree(expr), l));
                }
                while self.next_is(&TokenKind::LBracket)
                    invariant
                        self.wf(),
                        moved(*old(self), *self),
                        ts == old(self).tokens@,
                        entry == old(self).position,
                        p == entry,
                        l == (line, col),
                        entry < self.position,
                        self.in_declaration_context == old(self).in_declaration_context,
                        is_expression(expr.kind),
                        primary(ts, p) == index_suffix(ts, self.position as int, tree(expr), l),
                    decreases self.tokens@.len() - self.position,
                {
                    let ghost q = self.position as int;
                    let ghost nt = tree(expr);
                    self.position += 1;
                    let index = match self.parse_expression() {
                        Ok(n) => n,
                        Err(e) => {
                            return Err(e);
                        },
                    };
                    let ghost it = tree(index);
                    match self.expect(&TokenKind::RBracket, "Expected ']' after index") {
                        Ok(()) => {},
                        Err(e) => {
                            return Err(e);
                        },
                    }
                    expr =
                    AstNode::new(
                        AstNodeKind::IndexAccess { object: Box::new(expr), index: Box::new(index) },
                        line,
                        col,
                    );
                    proof {
                        assert(tree(expr) == node(
                            TreeKind::IndexAccess { object: Box::new(nt), index: Box::new(it) },
                            l,
                        ));
                        assert(index_suffix(ts, q, nt, l) == index_suffix(
                            ts,
                            self.position as int,
                            tree(expr),
                            l,
                        ));
                    }
                }
                Ok(expr)
            },
            _ => {
                let mut msg = lit("Expected command name, found ");
                msg = concat(msg, kind_text(&kind).as_str());
                msg = concat(msg, " at line ");
                msg = concat(msg, usize_text(line).as_str());
                msg = concat(msg, ", col ");
                msg = concat(msg, usize_text(col).as_str());
                Err(IshError::ParseError(msg))
            },
        }
    }

    /// Parses a call's argument list `( a, b, ... )`; the opening parenthesis is next.
    fn parse_call_args(&mut self) -> (r: Result<Vec<AstNode>, IshError>)
        requires
            old(self).wf(),
            old(self).position < old(self).tokens.len(),
        ensures
            step_ok(*old(self), *final(self), r),
            yields_list(
                r,
                final(self).position as int,
                call_args(old(self).tokens@, old(self).position as int),
            ),
        decreases old(self).tokens@.len() - old(self).position, 1nat,
    {
        let ghost ts = self.tokens@;
        let ghost entry = self.position;
        self.position += 1;
        let mut args: Vec<AstNode> = Vec::new();
        proof {
            assert(trees(args@) =~= Seq::<Tree>::empty());
        }
        while self.position < self.tokens.len()
            invariant_except_break
                call_args(ts, entry as int) == args_from(ts, self.position as int, trees(args@)),
            invariant
                self.wf(),
                moved(*old(self), *self),
                ts == old(self).tokens@,
                entry == old(self).position,
                entry < self.position,
                self.in_declaration_context == old(self).in_declaration_context,
            ensures
                self.wf(),
                moved(*old(self), *self),
                entry < self.position,
                self.in_declaration_context == old(self).in_declaration_context,
                call_args(ts, entry as int) == Ok::<(Seq<Tree>, int), ()>(
                    (trees(args@), self.position as int),
                ),
            decreases self.tokens@.len() - self.position,
        {
            if self.next_is(&TokenKind::RParen) {
                self.position += 1;
                break;
            }
            if self.next_is(&TokenKind::Comma) {
                self.position += 1;
                continue;
            }
            match self.parse_pipeline() {
                Ok(a) => {
                    proof {
                        lemma_trees_push(args@, a);
                    }
                    args.push(a);
                },
                Err(e) => {
                    return Err(e);
                },
            }
        }
        Ok(args)
    }

    /// Parses `new T`, `new T<...>`, each optionally with arguments `( ... )` and an
    /// initializer block `{ a, b }` or `{ k: v, ... }`.
    #[verifier::rlimit(30)]
    fn parse_new(&mut self) -> (r: Result<AstNode, IshError>)
        requires
            old(self).wf(),
            old(self).position < old(self).tokens.len(),
        ensures
            step_ok(*old(self), *final(self), r),
            r matches Ok(n) ==> n.kind is ObjectInstantiation,
            yields(
                r,
                final(self).position as int,
                new_expr(old(self).tokens@, old(self).position as int),
            ),
        decreases old(self).tokens@.len() - old(self).position, 1nat,
    {
        let ghost ts = self.tokens@;
        let ghost p = self.position as int;
        let (line, col) = self.get_location();
        let ghost entry = self.position;
        self.position += 1;
        let mut class_name = match self.consume() {
            Some(tok) => match tok.kind {
                TokenKind::Word(w) => w,
                TokenKind::List => lit("List"),
                _ => {
                    return Err(IshError::ParseError(lit("Expected class name after new")));
                },
            },
            None => {
                return Err(IshError::ParseError(lit("Expected class name after new")));
            },
        };
        let ghost n0 = class_name@;
        let ghost named: Parsed<Seq<char>> = if at(ts, p + 2, TokenKind::LessThan) {
            generic_suffix(ts, p + 2, n0)
        } else {
            Ok((n0, p + 2))
        };
        if self.next_is(&TokenKind::LessThan) {
            class_name = match self.read_generic_suffix(&class_name) {
                Ok(t) => t,
                Err(e) => {
                    return Err(e);
                },
            };
        }
        let ghost q1 = self.position as int;
        proof {
            assert(named == Ok::<(Seq<char>, int), ()>((class_name@, q1)));
        }
        let mut args: Vec<AstNode> = Vec::new();
        proof {
            assert(trees(args@) =~= Seq::<Tree>::empty());
        }
        if self.next_is(&TokenKind::LParen) {
            args = match self.parse_call_args() {
                Ok(a) => a,
                Err(e) => {
                    return Err(e);
                },
            };
        }
        let ghost q2 = self.position as int;
        let ghost with_args: Parsed<Seq<Tree>> = if at(ts, q1, TokenKind::LParen) {
            call_args(ts, q1)
        } else {
            Ok((Seq::empty(), q1))
        };
        proof {
            assert(with_args == Ok::<(Seq<Tree>, int), ()>((trees(args@), q2)));
        }
        let mut initializer: Option<Vec<AstNode>> = None;
        if self.next_is(&TokenKind::LBrace) {
            self.position += 1;
            initializer = match self.parse_initializer() {
                Ok(items) => Some(items),
                Err(e) => {
                    return Err(e);
                },
            };
        }
        let ghost ct = class_name@;
        let ghost at_ = trees(args@);
        let n = AstNode::new(
            AstNodeKind::ObjectInstantiation { class_name, args, initializer },
            line,
            col,
        );
        proof {
            assert(tree_kind(n.kind) == TreeKind::ObjectInstantiation {
                class_name: ct,
                args: at_,
                initializer: match initializer {
                    Some(v) => Some(trees(v@)),
                    None => None,
                },
            });
        }
        Ok(n)
    }

    /// Parses the items of an initializer block, after its `{`: expressions or `key: value`
    /// pairs, separated by commas or semicolons, up to the closing `}`.
    fn parse_initializer(&mut self) -> (r: Result<Vec<AstNode>, IshError>)
        requires
            old(self).wf(),
        ensures
            step_ok(*old(self), *final(self), r),
            yields_list(
                r,
                final(self).position as int,
                init_from(old(self).tokens@, old(self).position as int, Seq::empty()),
            ),
        decreases old(self).tokens@.len() - old(self).position, 5nat,
    {
        let ghost ts = self.tokens@;
        let ghost entry = self.position;
        let mut items: Vec<AstNode> = Vec::new();
        proof {
            assert(trees(items@) =~= Seq::<Tree>::empty());
        }
        loop
            invariant_except_break
                init_from(ts, entry as int, Seq::empty()) == init_from(
                    ts,
                    self.position as int,
                    trees(items@),
                ),
            invariant
                self.wf(),
                moved(*old(self), *self),
                ts == old(self).tokens@,
                entry == old(self).position,
                self.in_declaration_context == old(self).in_declaration_context,
            ensures
                self.wf(),
                moved(*old(self), *self),
                entry < self.position,
                self.in_declaration_context == old(self).in_declaration_context,
                init_from(ts, entry as int, Seq::empty()) == Ok::<(Seq<Tree>, int), ()>(
                    (trees(items@), self.position as int),
                ),
            decreases self.tokens@.len() - self.position,
        {
            if self.position >= self.tokens.len() {
                return Err(IshError::ParseError(lit("Expected '}' to close initializer")));
            }
            if self.next_is(&TokenKind::RBrace) {
                self.position += 1;
                break;
            }
            if self.next_is(&TokenKind::Comma) || self.next_is(&TokenKind::Semicolon) {
                self.position += 1;
                continue;
            }
            let (iline, icol) = self.get_location();
            let item = match self.parse_expression() {
                Ok(n) => n,
                Err(e) => {
                    return Err(e);
                },
            };
            let ghost kt = tree(item);
            if self.next_is(&TokenKind::Colon) {
                self.position += 1;
                let value = match self.parse_expression() {
                    Ok(n) => n,
                    Err(e) => {
                        return Err(e);
                    },
                };
                let ghost vt = tree(value);
                let pair = AstNode::new(
                    AstNodeKind::KeyValuePair { key: Box::new(item), value: Box::new(value) },
                    iline,
                    icol,
                );
                proof {
                    assert(tree(pair) == node(
                        TreeKind::KeyValuePair { key: Box::new(kt), value: Box::new(vt) },
                        (iline, icol),
                    ));
                    lemma_trees_push(items@, pair);
                }
                items.push(pair);
            } else {
                proof {
                    lemma_trees_push(items@, item);
                }
                items.push(item);
            }
        }
        Ok(items)
    }

    /// Reads a generic argument list `<...>` after a type name, appending it to `text`.
    fn read_generic_suffix(&mut self, name: &String) -> (r: Result<String, IshError>)
        requires
            old(self).wf(),
        ensures
            step_ok(*old(self), *final(self), r),
            yields_text(
                r,
                final(self).position as int,
                generic_suffix(old(self).tokens@, old(self).position as int, name@),
            ),
    {
        let ghost ts = self.tokens@;
        let mut text = lit(name.as_str());
        match self.expect(&TokenKind::LessThan, "Expected '<'") {
            Ok(()) => {},
            Err(e) => {
                return Err(e);
            },
        }
        text = concat(text, "<");
        let ghost entry = old(self).position;
        while self.position < self.tokens.len() && !self.next_is(&TokenKind::GreaterThan)
            invariant
                self.wf(),
                moved(*old(self), *self),
                ts == old(self).tokens@,
                entry == old(self).position,
                entry < self.position,
                self.in_declaration_context == old(self).in_declaration_context,
                generic_suffix(ts, entry as int, name@) == generic_from(
                    ts,
                    self.position as int,
                    text@,
                ),
            decreases self.tokens@.len() - self.position,
        {
            if self.next_is(&TokenKind::Comma) {
                text = concat(text, ",");
            } else {
                match type_text(&self.tokens[self.position].kind) {
                    Some(t) => {
                        text = concat(text, t.as_str());
                    },
                    None => {
                        proof {
                            assert(type_text_of(ts[self.position as int].kind) is None);
                            assert(generic_from(ts, self.position as int, text@) is Err);
                        }
                        return Err(IshError::ParseError(lit("Expected a type in generic arguments")));
                    },
                }
            }
            self.position += 1;
        }
        if self.position >= self.tokens.len() {
            return Err(IshError::ParseError(lit("Expected '>' to close generic arguments")));
        }
        self.position += 1;
        Ok(concat(text, ">"))
    }

    /// Parses an array literal `[a, b, ...]`.
    fn parse_array_literal(&mut self) -> (r: Result<AstNode, IshError>)
        requires
            old(self).wf(),
            old(self).position < old(self).tokens.len(),
        ensures
            step_ok(*old(self), *final(self), r),
            r matches Ok(n) ==> n.kind is Array,
            yields(
                r,
                final(self).position as int,
                array_literal(old(self).tokens@, old(self).position as int),
            ),
        decreases old(self).tokens@.len() - old(self).position, 1nat,
    {
        let ghost ts = self.tokens@;
        let (line, col) = self.get_location();
        let ghost entry = self.position;
        self.position += 1;
        let mut items: Vec<AstNode> = Vec::new();
        proof {
            assert(trees(items@) =~= Seq::<Tree>::empty());
        }
        while self.position < self.tokens.len() && !self.next_is(&TokenKind::RBracket)
            invariant
                self.wf(),
                moved(*old(self), *self),
                ts == old(self).tokens@,
                entry == old(self).position,
                entry < self.position,
                self.in_declaration_context == old(self).in_declaration_context,
                array_from(ts, entry + 1, Seq::empty()) == array_from(
                    ts,
                    self.position as int,
                    trees(items@),
                ),
            decreases self.tokens@.len() - self.position,
        {
            let ghost q = self.position as int;
            let ghost before = trees(items@);
            match self.parse_pipeline() {
                Ok(n) => {
                    proof {
                        lemma_trees_push(items@, n);
                    }
                    items.push(n);
                },
                Err(e) => {
                    return Err(e);
                },
            }
            if self.next_is(&TokenKind::Comma) {
                self.position += 1;
            }
            proof {
                assert(array_from(ts, q, before) == array_from(
                    ts,
                    self.position as int,
                    trees(items@),
                ));
            }
        }
        if self.position < self.tokens.len() {
            self.position += 1;
        }
        let ghost it = trees(items@);
        let n = AstNode::new(AstNodeKind::Array(items), line, col);
        proof {
            assert(tree_kind(n.kind) == TreeKind::Array(it));
        }
        Ok(n)
    }

    /// Parses a map literal `Map({k: v}, {k: v}, ...)`. A key written as a string or a name
    /// gives its text; any other key gives `unknown_key`.
    fn parse_map_literal(&mut self) -> (r: Result<AstNode, IshError>)
        requires
            old(self).wf(),
            old(self).position + 1 < old(self).tokens.len(),
        ensures
            step_ok(*old(self), *final(self), r),
            r matches Ok(n) ==> n.kind is MapLiteral,
            yields(
                r,
                final(self).position as int,
                map_literal(old(self).tokens@, old(self).position as int),
            ),
        decreases old(self).tokens@.len() - old(self).position, 1nat,
    {
        let ghost ts = self.tokens@;
        let (line, col) = self.get_location();
        let ghost entry = self.position;
        self.position += 2;
        let mut items: Vec<(String, AstNode)> = Vec::new();
        proof {
            assert(entry_trees(items@) =~= Seq::<(Seq<char>, Tree)>::empty());
        }
        while self.position < self.tokens.len() && !self.next_is(&TokenKind::RParen)
            invariant
                self.wf(),
                moved(*old(self), *self),
                ts == old(self).tokens@,
                entry == old(self).position,
                entry < self.position,
                self.in_declaration_context == old(self).in_declaration_context,
                map_from(ts, entry + 2, Seq::empty()) == map_from(
                    ts,
                    self.position as int,
                    entry_trees(items@),
                ),
            decreases self.tokens@.len() - self.position,
        {
            let ghost q = self.position as int;
            let ghost before = entry_trees(items@);
            match self.expect(&TokenKind::LBrace, "Expected '{' for map entry") {
                Ok(()) => {},
                Err(e) => {
                    return Err(e);
                },
            }
            let key_node = match self.parse_pipeline() {
                Ok(n) => n,
                Err(e) => {
                    return Err(e);
                },
            };
            let ghost kt = tree(key_node);
            match self.expect(&TokenKind::Colon, "Expected ':' after Map key") {
                Ok(()) => {},
                Err(e) => {
                    return Err(e);
                },
            }
            let val_node = match self.parse_pipeline() {
                Ok(n) => n,
                Err(e) => {
                    return Err(e);
                },
            };
            let key_str = match key_node.kind {
                AstNodeKind::StringLiteral(s) => s,
                AstNodeKind::Variable(v) => v,
                _ => lit("unknown_key"),
            };
            proof {
                assert(key_str@ == key_text(kt));
                lemma_entry_trees_push(items@, (key_str, val_node));
            }
            items.push((key_str, val_node));
            match self.expect(&TokenKind::RBrace, "Expected '}' after map entry") {
                Ok(()) => {},
                Err(e) => {
                    return Err(e);
                },
            }
            if self.next_is(&TokenKind::Comma) {
                self.position += 1;
            }
            proof {
                assert(map_from(ts, q, before) == map_from(
                    ts,
                    self.position as int,
                    entry_trees(items@),
                ));
            }
        }
        match self.expect(&TokenKind::RParen, "Expected ')' after 'Map({...}'") {
            Ok(()) => {},
            Err(e) => {
                return Err(e);
            },
        }
        let ghost it = entry_trees(items@);
        let n = AstNode::new(AstNodeKind::MapLiteral(items), line, col);
        proof {
            assert(tree_kind(n.kind) == TreeKind::MapLiteral(it));
        }
        Ok(n)
    }
}

fn is_top_level_kind(k: &TokenKind) -> (r: bool)
    ensures
        r == is_top_level_token(*k),
{
    matches!(
        k,
        TokenKind::With | TokenKind::Enum | TokenKind::Class | TokenKind::Struct
            | TokenKind::Namespace | TokenKind::Public | TokenKind::Private | TokenKind::Protected
            | TokenKind::Internal | TokenKind::Static
    )
}

fn is_type_kind(k: &TokenKind) -> (r: bool)
    ensures
        r == is_type_token(*k),
{
    matches!(
        k,
        TokenKind::Word(_) | TokenKind::Var | TokenKind::StringKeyword | TokenKind::IntKeyword
            | TokenKind::BoolKeyword | TokenKind::FloatKeyword | TokenKind::CharKeyWord
            | TokenKind::List
    )
}

/// The text of a type token: the word itself, or the keyword as written.
fn type_text(k: &TokenKind) -> (r: Option<String>)
    ensures
        r is Some == is_type_token(*k),
        k matches TokenKind::Word(w) ==> r == Some(*w),
        opt_text(r) == type_text_of(*k),
{
    match k {
        TokenKind::Word(w) => Some(w.clone()),
        TokenKind::Var => Some(lit("var")),
        TokenKind::StringKeyword => Some(lit("string")),
        TokenKind::IntKeyword => Some(lit("int")),
        TokenKind::BoolKeyword => Some(lit("bool")),
        TokenKind::FloatKeyword => Some(lit("float")),
        TokenKind::CharKeyWord => Some(lit("char")),
        TokenKind::List => Some(lit("List")),
        _ => None,
    }
}

/// Whether a token is the word `text`.
fn is_word(k: &TokenKind, text: &str) -> (r: bool)
    ensures
        r == (k matches TokenKind::Word(w) && w@ == text@),
{
    match k {
        TokenKind::Word(w) => string_eq_str(w, text),
        _ => false,
    }
}

/// The text of an operator token (see `op_text`).
fn operator_text(k: &TokenKind) -> (r: String)
    ensures
        r@ == op_text(*k),
{
    match k {
        TokenKind::Question => lit("?"),
        TokenKind::OrElse => lit("||"),
        TokenKind::AndThen => lit("&&"),
        TokenKind::Equals => lit("=="),
        TokenKind::NotEquals => lit("!="),
        TokenKind::GreaterThan => lit(">"),
        TokenKind::LessThan => lit("<"),
        TokenKind::GreaterOrEq => lit(">="),
        TokenKind::LessOrEq => lit("<="),
        TokenKind::Word(w) => w.clone(),
        _ => String::new(),
    }
}

pub open spec fn is_digit(c: char) -> bool {
    '0' <= c <= '9'
}

/// The first position at or after `i` that does not hold a decimal digit.
pub open spec fn digits_end(s: Seq<char>, i: int) -> int
    decreases s.len() - i,
{
    if 0 <= i < s.len() && is_digit(s[i]) {
        digits_end(s, i + 1)
    } else {
        i
    }
}

/// An ASCII letter in lower case; other characters unchanged.
pub open spec fn lower_ascii(c: char) -> char {
    if c == 'A' {
        'a'
    } else if c == 'B' {
        'b'
    } else if c == 'C' {
        'c'
    } else if c == 'D' {
        'd'
    } else if c == 'E' {
        'e'
    } else if c == 'F' {
        'f'
    } else if c == 'G' {
        'g'
    } else if c == 'H' {
        'h'
    } else if c == 'I' {
        'i'
    } else if c == 'J' {
        'j'
    } else if c == 'K' {
        'k'
    } else if c == 'L' {
        'l'
    } else if c == 'M' {
        'm'
    } else if c == 'N' {
        'n'
    } else if c == 'O' {
        'o'
    } else if c == 'P' {
        'p'
    } else if c == 'Q' {
        'q'
    } else if c == 'R' {
        'r'
    } else if c == 'S' {
        's'
    } else if c == 'T' {
        't'
    } else if c == 'U' {
        'u'
    } else if c == 'V' {
        'v'
    } else if c == 'W' {
        'w'
    } else if c == 'X' {
        'x'
    } else if c == 'Y' {
        'y'
    } else if c == 'Z' {
        'z'
    } else {
        c
    }
}

/// An ASCII letter in lower case (see `lower_ascii`).
fn to_lower_ascii(c: char) -> (r: char)
    ensures
        r == lower_ascii(c),
{
    if c == 'A' {
        'a'
    } else if c == 'B' {
        'b'
    } else if c == 'C' {
        'c'
    } else if c == 'D' {
        'd'
    } else if c == 'E' {
        'e'
    } else if c == 'F' {
        'f'
    } else if c == 'G' {
        'g'
    } else if c == 'H' {
        'h'
    } else if c == 'I' {
        'i'
    } else if c == 'J' {
        'j'
    } else if c == 'K' {
        'k'
    } else if c == 'L' {
        'l'
    } else if c == 'M' {
        'm'
    } else if c == 'N' {
        'n'
    } else if c == 'O' {
        'o'
    } else if c == 'P' {
        'p'
    } else if c == 'Q' {
        'q'
    } else if c == 'R' {
        'r'
    } else if c == 'S' {
        's'
    } else if c == 'T' {
        't'
    } else if c == 'U' {
        'u'
    } else if c == 'V' {
        'v'
    } else if c == 'W' {
        'w'
    } else if c == 'X' {
        'x'
    } else if c == 'Y' {
        'y'
    } else if c == 'Z' {
        'z'
    } else {
        c
    }
}

/// Digits with at most one decimal point and at least one digit, then optionally an exponent:
/// `e` or `E`, an optional sign, and at least one digit.
pub open spec fn decimal_number(t: Seq<char>) -> bool {
    let d1 = digits_end(t, 0);
    let has_dot = d1 < t.len() && t[d1] == '.';
    let d2 = if has_dot {
        digits_end(t, d1 + 1)
    } else {
        d1
    };
    let mantissa_digits = if has_dot {
        d1 + (d2 - d1 - 1)
    } else {
        d1
    };
    &&& mantissa_digits > 0
    &&& (d2 == t.len() || ((t[d2] == 'e' || t[d2] == 'E') && exponent_digits(t, d2 + 1)))
}

/// From position `i`: an optional sign, then at least one digit, up to the end.
pub open spec fn exponent_digits(t: Seq<char>, i: int) -> bool {
    let j = if i < t.len() && (t[i] == '+' || t[i] == '-') {
        i + 1
    } else {
        i
    };
    let k = digits_end(t, j);
    j < k && k == t.len()
}

/// The text that Rust's `f64::from_str` accepts: an optional sign, then `inf`, `infinity` or
/// `nan` (in any case), or a decimal number (see `decimal_number`).
pub open spec fn float_text(s: Seq<char>) -> bool {
    let t = if s.len() > 0 && (s[0] == '+' || s[0] == '-') {
        s.subrange(1, s.len() as int)
    } else {
        s
    };
    let low = t.map_values(|c: char| lower_ascii(c));
    low == "inf"@ || low == "infinity"@ || low == "nan"@ || decimal_number(t)
}

/// Words that stand for literal values: numbers, `true`, `false` and `null`.
pub open spec fn literal_word(w: Seq<char>) -> bool {
    float_text(w) || w == "true"@ || w == "false"@ || w == "null"@
}

fn digits_end_exec(s: &Vec<char>, i: usize) -> (e: usize)
    requires
        i <= s@.len(),
    ensures
        e == digits_end(s@, i as int),
        i <= e <= s@.len(),
{
    let mut e = i;
    while e < s.len() && '0' <= s[e] && s[e] <= '9'
        invariant
            i <= e <= s@.len(),
            digits_end(s@, e as int) == digits_end(s@, i as int),
        decreases s.len() - e,
    {
        e += 1;
    }
    e
}

fn exponent_digits_exec(t: &Vec<char>, i: usize) -> (r: bool)
    requires
        i <= t@.len(),
    ensures
        r == exponent_digits(t@, i as int),
{
    let j = if i < t.len() && (t[i] == '+' || t[i] == '-') {
        i + 1
    } else {
        i
    };
    let k = digits_end_exec(t, j);
    j < k && k == t.len()
}

fn decimal_number_exec(t: &Vec<char>) -> (r: bool)
    ensures
        r == decimal_number(t@),
{
    let d1 = digits_end_exec(t, 0);
    let has_dot = d1 < t.len() && t[d1] == '.';
    let d2 = if has_dot {
        digits_end_exec(t, d1 + 1)
    } else {
        d1
    };
    let mantissa_digits = if has_dot {
        d1 + (d2 - d1 - 1)
    } else {
        d1
    };
    mantissa_digits > 0 && (d2 == t.len() || ((t[d2] == 'e' || t[d2] == 'E')
        && exponent_digits_exec(t, d2 + 1)))
}

pub(crate) fn is_float_text(s: &Vec<char>) -> (r: bool)
    ensures
        r == float_text(s@),
{
    let mut t: Vec<char> = Vec::new();
    let start: usize = if s.len() > 0 && (s[0] == '+' || s[0] == '-') {
        1
    } else {
        0
    };
    let mut i = start;
    while i < s.len()
        invariant
            start <= i <= s@.len(),
            t@ == s@.subrange(start as int, i as int),
        decreases s.len() - i,
    {
        t.push(s[i]);
        i += 1;
        proof {
            assert(t@ =~= s@.subrange(start as int, i as int));
        }
    }
    proof {
        if start == 0 {
            assert(t@ =~= s@);
        }
    }
    let mut low: Vec<char> = Vec::new();
    let mut j: usize = 0;
    while j < t.len()
        invariant
            j <= t@.len(),
            low@ == t@.take(j as int).map_values(|c: char| lower_ascii(c)),
        decreases t.len() - j,
    {
        let lc = to_lower_ascii(t[j]);
        low.push(lc);
        j += 1;
        proof {
            assert(low@ =~= t@.take(j as int).map_values(|c: char| lower_ascii(c)));
        }
    }
    proof {
        assert(t@.take(t@.len() as int) =~= t@);
    }
    chars_eq_str(&low, "inf") || chars_eq_str(&low, "infinity") || chars_eq_str(&low, "nan")
        || decimal_number_exec(&t)
}

/// Whether a word stands for a literal value (see `literal_word`).
fn is_literal_word(w: &String) -> (r: bool)
    ensures
        r == literal_word(w@),
{
    let v = chars_of(w.as_str());
    is_float_text(&v) || chars_eq_str(&v, "true") || chars_eq_str(&v, "false") || chars_eq_str(
        &v,
        "null",
    )
}

/// The index of the last `.` in `s`, or -1.
pub open spec fn last_dot(s: Seq<char>) -> int
    decreases s.len(),
{
    if s.len() == 0 {
        -1
    } else if s.last() == '.' {
        s.len() - 1
    } else {
        last_dot(s.drop_last())
    }
}

/// For a word holding a `.`, the text before its last `.` and the text after it.
fn split_member(w: &String) -> (r: Option<(String, String)>)
    ensures
        r is Some == (last_dot(w@) >= 0),
        r matches Some((a, b)) ==> a@ == w@.take(last_dot(w@)) && b@ == w@.skip(last_dot(w@) + 1),
{
    let v = chars_of(w.as_str());
    let mut i = v.len();
    proof {
        assert(v@.take(v@.len() as int) =~= v@);
    }
    while i > 0 && v[i - 1] != '.'
        invariant
            i <= v@.len(),
            last_dot(v@.take(i as int)) == last_dot(v@),
        decreases i,
    {
        proof {
            assert(v@.take(i as int).drop_last() =~= v@.take(i - 1));
        }
        i -= 1;
    }
    if i == 0 {
        proof {
            assert(v@.take(0) =~= Seq::<char>::empty());
        }
        return None;
    }
    proof {
        assert(v@.take(i as int).last() == '.');
    }
    let mut a: Vec<char> = Vec::new();
    let mut b: Vec<char> = Vec::new();
    let mut j: usize = 0;
    while j < i - 1
        invariant
            j <= i - 1,
            i <= v@.len(),
            a@ == v@.take(j as int),
        decreases i - 1 - j,
    {
        a.push(v[j]);
        j += 1;
        proof {
            assert(a@ =~= v@.take(j as int));
        }
    }
    let mut k = i;
    while k < v.len()
        invariant
            i <= k <= v@.len(),
            b@ == v@.subrange(i as int, k as int),
        decreases v.len() - k,
    {
        b.push(v[k]);
        k += 1;
        proof {
            assert(b@ =~= v@.subrange(i as int, k as int));
        }
    }
    proof {
        assert(b@ =~= v@.skip(i as int));
    }
    Some((string_from(&a), string_from(&b)))
}

/// The node for a value embedded in an interpolated string (see `interp_value`).
fn interpolation_value(text: &Vec<char>, line: usize, col: usize) -> (n: AstNode)
    ensures
        n.kind is Variable || n.kind is PropertyAccess,
        tree(n) == interp_value(text@, (line, col)),
{
    let ghost l = (line, col);
    let s = string_from(text);
    match split_member(&s) {
        Some((obj, prop)) => {
            let ghost d = last_dot(text@);
            let inner = AstNode::new(AstNodeKind::Variable(obj), line, col);
            proof {
                assert(tree(inner) == node(TreeKind::Variable(text@.take(d)), l));
            }
            let n = AstNode::new(
                AstNodeKind::PropertyAccess { object: Box::new(inner), property_name: prop },
                line,
                col,
            );
            proof {
                assert(tree_kind(n.kind) == TreeKind::PropertyAccess {
                    object: Box::new(tree(inner)),
                    property_name: text@.skip(d + 1),
                });
            }
            n
        },
        None => AstNode::new(AstNodeKind::Variable(s), line, col),
    }
}

/// The pieces of an interpolated string (see `interp_from`): the literal text between
/// embedded values, and a node for each value written `{name}` or `{object.member}`. An
/// unclosed `{` is an error.
fn interpolation_parts(s: &String, line: usize, col: usize) -> (r: Result<Vec<AstNode>, IshError>)
    ensures
        r matches Ok(parts) ==> forall|i: int|
            0 <= i < parts@.len() ==> (#[trigger] parts@[i].kind is StringLiteral
                || parts@[i].kind is Variable || parts@[i].kind is PropertyAccess),
        match r {
            Ok(parts) => interp_from(s@, 0, Seq::empty(), Seq::empty(), (line, col)) == Some(
                trees(parts@),
            ),
            Err(e) => interp_from(s@, 0, Seq::empty(), Seq::empty(), (line, col)) is None
                && e is ParseError,
        },
{
    let ghost l = (line, col);
    let cs = chars_of(s.as_str());
    let mut parts: Vec<AstNode> = Vec::new();
    let mut literal: Vec<char> = Vec::new();
    let mut i: usize = 0;
    proof {
        assert(trees(parts@) =~= Seq::<Tree>::empty());
        assert(literal@ =~= Seq::<char>::empty());
    }
    while i < cs.len()
        invariant
            l == (line, col),
            cs@ == s@,
            i <= cs@.len(),
            forall|j: int|
                0 <= j < parts@.len() ==> (#[trigger] parts@[j].kind is StringLiteral
                    || parts@[j].kind is Variable || parts@[j].kind is PropertyAccess),
            interp_from(s@, 0, Seq::empty(), Seq::empty(), l) == interp_from(
                s@,
                i as int,
                literal@,
                trees(parts@),
                l,
            ),
        decreases cs.len() - i,
    {
        if cs[i] == '{' {
            let ghost before = trees(parts@);
            let ghost lit_before = literal@;
            if literal.len() > 0 {
                let ghost old_parts = parts@;
                let text = string_from(&literal);
                let piece = AstNode::new(AstNodeKind::StringLiteral(text), line, col);
                proof {
                    assert(tree_kind(piece.kind) == TreeKind::StringLiteral(lit_before));
                    assert(tree(piece) == node(TreeKind::StringLiteral(lit_before), l));
                }
                parts.push(piece);
                proof {
                    lemma_trees_push(old_parts, piece);
                }
                literal = Vec::new();
            }
            let ghost with_lit = trees(parts@);
            let mut inner: Vec<char> = Vec::new();
            let mut k = i + 1;
            while k < cs.len() && cs[k] != '}'
                invariant
                    cs@ == s@,
                    i < k <= cs@.len(),
                    inner@ == cs@.subrange(i + 1, k as int),
                    find_char(s@, '}', i + 1) == find_char(s@, '}', k as int),
                decreases cs.len() - k,
            {
                inner.push(cs[k]);
                k += 1;
                proof {
                    assert(inner@ =~= cs@.subrange(i + 1, k as int));
                }
            }
            proof {
                assert(with_lit == (if lit_before.len() > 0 {
                    before.push(node(TreeKind::StringLiteral(lit_before), l))
                } else {
                    before
                }));
            }
            if k >= cs.len() {
                proof {
                    assert(find_char(s@, '}', k as int) == -1);
                    assert(interp_from(s@, i as int, lit_before, before, l) is None);
                }
                return Err(IshError::ParseError(lit("Unterminated '{' in interpolated string")));
            }
            proof {
                assert(find_char(s@, '}', k as int) == k);
                assert(interp_from(s@, i as int, lit_before, before, l) == interp_from(
                    s@,
                    k + 1,
                    Seq::empty(),
                    with_lit.push(interp_value(s@.subrange(i + 1, k as int), l)),
                    l,
                ));
            }
            let v = interpolation_value(&inner, line, col);
            let ghost old_parts = parts@;
            parts.push(v);
            proof {
                lemma_trees_push(old_parts, v);
                assert(literal@ =~= Seq::<char>::empty());
            }
            i = k + 1;
        } else {
            proof {
                assert(interp_from(s@, i as int, literal@, trees(parts@), l) == interp_from(
                    s@,
                    i + 1,
                    literal@.push(s@[i as int]),
                    trees(parts@),
                    l,
                ));
            }
            literal.push(cs[i]);
            i += 1;
        }
    }
    let ghost lit_end = literal@;
    let ghost parts_end = trees(parts@);
    if literal.len() > 0 {
        let ghost old_parts = parts@;
        let text = string_from(&literal);
        let piece = AstNode::new(AstNodeKind::StringLiteral(text), line, col);
        proof {
            assert(tree_kind(piece.kind) == TreeKind::StringLiteral(lit_end));
            assert(tree(piece) == node(TreeKind::StringLiteral(lit_end), l));
        }
        parts.push(piece);
        proof {
            lemma_trees_push(old_parts, piece);
        }
    }
    proof {
        assert(interp_from(s@, i as int, lit_end, parts_end, l) == Some(trees(parts@)));
    }
    Ok(parts)
}

/// The plain values of switch cases, one more at the end.
proof fn lemma_case_trees_push(s: Seq<(AstNode, Vec<AstNode>)>, x: (AstNode, Vec<AstNode>))
    ensures
        case_trees(s.push(x)) == case_trees(s).push((tree(x.0), trees(x.1@))),
{
    assert(s.push(x).drop_last() =~= s);
}

/// The plain values of parameters, one more at the end.
proof fn lemma_param_trees_push(s: Seq<Param>, x: Param)
    ensures
        param_trees(s.push(x)) == param_trees(s).push(param_tree(x)),
{
    assert(s.push(x).drop_last() =~= s);
}

/// The plain values of map entries, one more at the end.
proof fn lemma_entry_trees_push(s: Seq<(String, AstNode)>, x: (String, AstNode))
    ensures
        entry_trees(s.push(x)) == entry_trees(s).push((x.0@, tree(x.1))),
{
    assert(s.push(x).drop_last() =~= s);
}

/// The plain values of nodes, one more at the end.
proof fn lemma_trees_len(s: Seq<AstNode>)
    ensures
        trees(s).len() == s.len(),
    decreases s.len(),
{
    if s.len() > 0 {
        lemma_trees_len(s.drop_last());
    }
}

proof fn lemma_trees_push(s: Seq<AstNode>, x: AstNode)
    ensures
        trees(s.push(x)) == trees(s).push(tree(x)),
{
    assert(s.push(x).drop_last() =~= s);
}

} // verus!
