use vstd::prelude::*;
use crate::error::IshError;
use crate::text::{chars_eq_str, is_whitespace, is_ws, lit, string_from};

verus! {

/// The kinds of lexical tokens of the Ish language.
#[derive(Debug, PartialEq)]
pub enum TokenKind {
    Word(String),
    StringLiteral(String),
    CharLiteral(char),
    InterpolatedStringLiteral(String),
    Colon,
    Then,
    WhileAsync,
    AndThen,
    OrElse,
    Job,
    Equals,
    NotEquals,
    GreaterThan,
    LessThan,
    GreaterOrEq,
    LessOrEq,
    Question,
    If,
    Elif,
    Else,
    For,
    Foreach,
    Var,
    StringKeyword,
    IntKeyword,
    BoolKeyword,
    FloatKeyword,
    CharKeyWord,
    WhileLoop,
    Function,
    Return,
    Break,
    Continue,
    Try,
    Catch,
    Switch,
    Case,
    Default,
    Class,
    Struct,
    Namespace,
    Async,
    Await,
    Task,
    Thread,
    Public,
    Private,
    Protected,
    Internal,
    Static,
    New,
    With,
    Enum,
    Params,
    List,
    LBrace,
    RBrace,
    LParen,
    RParen,
    LBracket,
    RBracket,
    Assign,
    Comma,
    Semicolon,
}

impl Clone for TokenKind {
    fn clone(&self) -> (r: Self)
        ensures
            r == *self,
    {
        match self {
            TokenKind::Word(s) => TokenKind::Word(s.clone()),
            TokenKind::StringLiteral(s) => TokenKind::StringLiteral(s.clone()),
            TokenKind::CharLiteral(c) => TokenKind::CharLiteral(*c),
            TokenKind::InterpolatedStringLiteral(s) => TokenKind::InterpolatedStringLiteral(s.clone()),
            TokenKind::Colon => TokenKind::Colon,
            TokenKind::Then => TokenKind::Then,
            TokenKind::WhileAsync => TokenKind::WhileAsync,
            TokenKind::AndThen => TokenKind::AndThen,
            TokenKind::OrElse => TokenKind::OrElse,
            TokenKind::Job => TokenKind::Job,
            TokenKind::Equals => TokenKind::Equals,
            TokenKind::NotEquals => TokenKind::NotEquals,
            TokenKind::GreaterThan => TokenKind::GreaterThan,
            TokenKind::LessThan => TokenKind::LessThan,
            TokenKind::GreaterOrEq => TokenKind::GreaterOrEq,
            TokenKind::LessOrEq => TokenKind::LessOrEq,
            TokenKind::Question => TokenKind::Question,
            TokenKind::If => TokenKind::If,
            TokenKind::Elif => TokenKind::Elif,
            TokenKind::Else => TokenKind::Else,
            TokenKind::For => TokenKind::For,
            TokenKind::Foreach => TokenKind::Foreach,
            TokenKind::Var => TokenKind::Var,
            TokenKind::StringKeyword => TokenKind::StringKeyword,
            TokenKind::IntKeyword => TokenKind::IntKeyword,
            TokenKind::BoolKeyword => TokenKind::BoolKeyword,
            TokenKind::FloatKeyword => TokenKind::FloatKeyword,
            TokenKind::CharKeyWord => TokenKind::CharKeyWord,
            TokenKind::WhileLoop => TokenKind::WhileLoop,
            TokenKind::Function => TokenKind::Function,
            TokenKind::Return => TokenKind::Return,
            TokenKind::Break => TokenKind::Break,
            TokenKind::Continue => TokenKind::Continue,
            TokenKind::Try => TokenKind::Try,
            TokenKind::Catch => TokenKind::Catch,
            TokenKind::Switch => TokenKind::Switch,
            TokenKind::Case => TokenKind::Case,
            TokenKind::Default => TokenKind::Default,
            TokenKind::Class => TokenKind::Class,
            TokenKind::Struct => TokenKind::Struct,
            TokenKind::Namespace => TokenKind::Namespace,
            TokenKind::Async => TokenKind::Async,
            TokenKind::Await => TokenKind::Await,
            TokenKind::Task => TokenKind::Task,
            TokenKind::Thread => TokenKind::Thread,
            TokenKind::Public => TokenKind::Public,
            TokenKind::Private => TokenKind::Private,
            TokenKind::Protected => TokenKind::Protected,
            TokenKind::Internal => TokenKind::Internal,
            TokenKind::Static => TokenKind::Static,
            TokenKind::New => TokenKind::New,
            TokenKind::With => TokenKind::With,
            TokenKind::Enum => TokenKind::Enum,
            TokenKind::Params => TokenKind::Params,
            TokenKind::List => TokenKind::List,
            TokenKind::LBrace => TokenKind::LBrace,
            TokenKind::RBrace => TokenKind::RBrace,
            TokenKind::LParen => TokenKind::LParen,
            TokenKind::RParen => TokenKind::RParen,
            TokenKind::LBracket => TokenKind::LBracket,
            TokenKind::RBracket => TokenKind::RBracket,
            TokenKind::Assign => TokenKind::Assign,
            TokenKind::Comma => TokenKind::Comma,
            TokenKind::Semicolon => TokenKind::Semicolon,
        }
    }
}
/// The token kind of a word: a keyword's own kind, or `Word` holding the word.
pub open spec fn keyword(word: Seq<char>) -> KindView {
    if word == "if"@ {
        KindView::Other(TokenKind::If)
    } else if word == "elif"@ {
        KindView::Other(TokenKind::Elif)
    } else if word == "else"@ {
        KindView::Other(TokenKind::Else)
    } else if word == "while"@ {
        KindView::Other(TokenKind::WhileAsync)
    } else if word == "for"@ {
        KindView::Other(TokenKind::For)
    } else if word == "foreach"@ {
        KindView::Other(TokenKind::Foreach)
    } else if word == "var"@ {
        KindView::Other(TokenKind::Var)
    } else if word == "string"@ {
        KindView::Other(TokenKind::StringKeyword)
    } else if word == "int"@ {
        KindView::Other(TokenKind::IntKeyword)
    } else if word == "bool"@ {
        KindView::Other(TokenKind::BoolKeyword)
    } else if word == "float"@ {
        KindView::Other(TokenKind::FloatKeyword)
    } else if word == "fn"@ {
        KindView::Other(TokenKind::Function)
    } else if word == "func"@ {
        KindView::Other(TokenKind::Function)
    } else if word == "return"@ {
        KindView::Other(TokenKind::Return)
    } else if word == "break"@ {
        KindView::Other(TokenKind::Break)
    } else if word == "continue"@ {
        KindView::Other(TokenKind::Continue)
    } else if word == "try"@ {
        KindView::Other(TokenKind::Try)
    } else if word == "catch"@ {
        KindView::Other(TokenKind::Catch)
    } else if word == "switch"@ {
        KindView::Other(TokenKind::Switch)
    } else if word == "case"@ {
        KindView::Other(TokenKind::Case)
    } else if word == "default"@ {
        KindView::Other(TokenKind::Default)
    } else if word == "class"@ {
        KindView::Other(TokenKind::Class)
    } else if word == "struct"@ {
        KindView::Other(TokenKind::Struct)
    } else if word == "namespace"@ {
        KindView::Other(TokenKind::Namespace)
    } else if word == "async"@ {
        KindView::Other(TokenKind::Async)
    } else if word == "await"@ {
        KindView::Other(TokenKind::Await)
    } else if word == "Task"@ {
        KindView::Other(TokenKind::Task)
    } else if word == "Thread"@ {
        KindView::Other(TokenKind::Thread)
    } else if word == "public"@ {
        KindView::Other(TokenKind::Public)
    } else if word == "private"@ {
        KindView::Other(TokenKind::Private)
    } else if word == "protected"@ {
        KindView::Other(TokenKind::Protected)
    } else if word == "internal"@ {
        KindView::Other(TokenKind::Internal)
    } else if word == "static"@ {
        KindView::Other(TokenKind::Static)
    } else if word == "new"@ {
        KindView::Other(TokenKind::New)
    } else if word == "with"@ {
        KindView::Other(TokenKind::With)
    } else if word == "enum"@ {
        KindView::Other(TokenKind::Enum)
    } else if word == "params"@ {
        KindView::Other(TokenKind::Params)
    } else if word == "List"@ {
        KindView::Other(TokenKind::List)
    } else if word == "char"@ {
        KindView::Other(TokenKind::CharKeyWord)
    } else {
        KindView::Word(word)
    }
}

/// The token kind of a word read from the input.
fn keyword_kind(word: &Vec<char>) -> (k: TokenKind)
    ensures
        k@ == keyword(word@),
{
    if chars_eq_str(word, "if") {
        return TokenKind::If;
    }
    if chars_eq_str(word, "elif") {
        return TokenKind::Elif;
    }
    if chars_eq_str(word, "else") {
        return TokenKind::Else;
    }
    if chars_eq_str(word, "while") {
        return TokenKind::WhileAsync;
    }
    if chars_eq_str(word, "for") {
        return TokenKind::For;
    }
    if chars_eq_str(word, "foreach") {
        return TokenKind::Foreach;
    }
    if chars_eq_str(word, "var") {
        return TokenKind::Var;
    }
    if chars_eq_str(word, "string") {
        return TokenKind::StringKeyword;
    }
    if chars_eq_str(word, "int") {
        return TokenKind::IntKeyword;
    }
    if chars_eq_str(word, "bool") {
        return TokenKind::BoolKeyword;
    }
    if chars_eq_str(word, "float") {
        return TokenKind::FloatKeyword;
    }
    if chars_eq_str(word, "fn") {
        return TokenKind::Function;
    }
    if chars_eq_str(word, "func") {
        return TokenKind::Function;
    }
    if chars_eq_str(word, "return") {
        return TokenKind::Return;
    }
    if chars_eq_str(word, "break") {
        return TokenKind::Break;
    }
    if chars_eq_str(word, "continue") {
        return TokenKind::Continue;
    }
    if chars_eq_str(word, "try") {
        return TokenKind::Try;
    }
    if chars_eq_str(word, "catch") {
        return TokenKind::Catch;
    }
    if chars_eq_str(word, "switch") {
        return TokenKind::Switch;
    }
    if chars_eq_str(word, "case") {
        return TokenKind::Case;
    }
    if chars_eq_str(word, "default") {
        return TokenKind::Default;
    }
    if chars_eq_str(word, "class") {
        return TokenKind::Class;
    }
    if chars_eq_str(word, "struct") {
        return TokenKind::Struct;
    }
    if chars_eq_str(word, "namespace") {
        return TokenKind::Namespace;
    }
    if chars_eq_str(word, "async") {
        return TokenKind::Async;
    }
    if chars_eq_str(word, "await") {
        return TokenKind::Await;
    }
    if chars_eq_str(word, "Task") {
        return TokenKind::Task;
    }
    if chars_eq_str(word, "Thread") {
        return TokenKind::Thread;
    }
    if chars_eq_str(word, "public") {
        return TokenKind::Public;
    }
    if chars_eq_str(word, "private") {
        return TokenKind::Private;
    }
    if chars_eq_str(word, "protected") {
        return TokenKind::Protected;
    }
    if chars_eq_str(word, "internal") {
        return TokenKind::Internal;
    }
    if chars_eq_str(word, "static") {
        return TokenKind::Static;
    }
    if chars_eq_str(word, "new") {
        return TokenKind::New;
    }
    if chars_eq_str(word, "with") {
        return TokenKind::With;
    }
    if chars_eq_str(word, "enum") {
        return TokenKind::Enum;
    }
    if chars_eq_str(word, "params") {
        return TokenKind::Params;
    }
    if chars_eq_str(word, "List") {
        return TokenKind::List;
    }
    if chars_eq_str(word, "char") {
        return TokenKind::CharKeyWord;
    }
    TokenKind::Word(string_from(word))
}
/// A number identifying the variant of a token kind (its text or character aside).
pub open spec fn tag(k: TokenKind) -> int {
    match k {
        TokenKind::Word(_) => 0,
        TokenKind::StringLiteral(_) => 1,
        TokenKind::CharLiteral(_) => 2,
        TokenKind::InterpolatedStringLiteral(_) => 3,
        TokenKind::Colon => 4,
        TokenKind::Then => 5,
        TokenKind::WhileAsync => 6,
        TokenKind::AndThen => 7,
        TokenKind::OrElse => 8,
        TokenKind::Job => 9,
        TokenKind::Equals => 10,
        TokenKind::NotEquals => 11,
        TokenKind::GreaterThan => 12,
        TokenKind::LessThan => 13,
        TokenKind::GreaterOrEq => 14,
        TokenKind::LessOrEq => 15,
        TokenKind::Question => 16,
        TokenKind::If => 17,
        TokenKind::Elif => 18,
        TokenKind::Else => 19,
        TokenKind::For => 20,
        TokenKind::Foreach => 21,
        TokenKind::Var => 22,
        TokenKind::StringKeyword => 23,
        TokenKind::IntKeyword => 24,
        TokenKind::BoolKeyword => 25,
        TokenKind::FloatKeyword => 26,
        TokenKind::CharKeyWord => 27,
        TokenKind::WhileLoop => 28,
        TokenKind::Function => 29,
        TokenKind::Return => 30,
        TokenKind::Break => 31,
        TokenKind::Continue => 32,
        TokenKind::Try => 33,
        TokenKind::Catch => 34,
        TokenKind::Switch => 35,
        TokenKind::Case => 36,
        TokenKind::Default => 37,
        TokenKind::Class => 38,
        TokenKind::Struct => 39,
        TokenKind::Namespace => 40,
        TokenKind::Async => 41,
        TokenKind::Await => 42,
        TokenKind::Task => 43,
        TokenKind::Thread => 44,
        TokenKind::Public => 45,
        TokenKind::Private => 46,
        TokenKind::Protected => 47,
        TokenKind::Internal => 48,
        TokenKind::Static => 49,
        TokenKind::New => 50,
        TokenKind::With => 51,
        TokenKind::Enum => 52,
        TokenKind::Params => 53,
        TokenKind::List => 54,
        TokenKind::LBrace => 55,
        TokenKind::RBrace => 56,
        TokenKind::LParen => 57,
        TokenKind::RParen => 58,
        TokenKind::LBracket => 59,
        TokenKind::RBracket => 60,
        TokenKind::Assign => 61,
        TokenKind::Comma => 62,
        TokenKind::Semicolon => 63,
    }
}

/// The variant number of a token kind (see `tag`).
pub fn kind_tag(k: &TokenKind) -> (t: u8)
    ensures
        t as int == tag(*k),
{
    match k {
        TokenKind::Word(_) => 0,
        TokenKind::StringLiteral(_) => 1,
        TokenKind::CharLiteral(_) => 2,
        TokenKind::InterpolatedStringLiteral(_) => 3,
        TokenKind::Colon => 4,
        TokenKind::Then => 5,
        TokenKind::WhileAsync => 6,
        TokenKind::AndThen => 7,
        TokenKind::OrElse => 8,
        TokenKind::Job => 9,
        TokenKind::Equals => 10,
        TokenKind::NotEquals => 11,
        TokenKind::GreaterThan => 12,
        TokenKind::LessThan => 13,
        TokenKind::GreaterOrEq => 14,
        TokenKind::LessOrEq => 15,
        TokenKind::Question => 16,
        TokenKind::If => 17,
        TokenKind::Elif => 18,
        TokenKind::Else => 19,
        TokenKind::For => 20,
        TokenKind::Foreach => 21,
        TokenKind::Var => 22,
        TokenKind::StringKeyword => 23,
        TokenKind::IntKeyword => 24,
        TokenKind::BoolKeyword => 25,
        TokenKind::FloatKeyword => 26,
        TokenKind::CharKeyWord => 27,
        TokenKind::WhileLoop => 28,
        TokenKind::Function => 29,
        TokenKind::Return => 30,
        TokenKind::Break => 31,
        TokenKind::Continue => 32,
        TokenKind::Try => 33,
        TokenKind::Catch => 34,
        TokenKind::Switch => 35,
        TokenKind::Case => 36,
        TokenKind::Default => 37,
        TokenKind::Class => 38,
        TokenKind::Struct => 39,
        TokenKind::Namespace => 40,
        TokenKind::Async => 41,
        TokenKind::Await => 42,
        TokenKind::Task => 43,
        TokenKind::Thread => 44,
        TokenKind::Public => 45,
        TokenKind::Private => 46,
        TokenKind::Protected => 47,
        TokenKind::Internal => 48,
        TokenKind::Static => 49,
        TokenKind::New => 50,
        TokenKind::With => 51,
        TokenKind::Enum => 52,
        TokenKind::Params => 53,
        TokenKind::List => 54,
        TokenKind::LBrace => 55,
        TokenKind::RBrace => 56,
        TokenKind::LParen => 57,
        TokenKind::RParen => 58,
        TokenKind::LBracket => 59,
        TokenKind::RBracket => 60,
        TokenKind::Assign => 61,
        TokenKind::Comma => 62,
        TokenKind::Semicolon => 63,
    }
}

/// A token: its kind and the line and column where it starts (both counted from 1).
#[derive(Debug, PartialEq)]
pub struct Token {
    pub kind: TokenKind,
    pub line: usize,
    pub column: usize,
}

impl Clone for Token {
    fn clone(&self) -> (r: Self)
        ensures
            r == *self,
    {
        Token { kind: self.kind.clone(), line: self.line, column: self.column }
    }
}

/// A token kind with its text taken as characters.
pub enum KindView {
    Word(Seq<char>),
    StringLiteral(Seq<char>),
    InterpolatedStringLiteral(Seq<char>),
    /// A kind that holds no text (a character literal or a symbol or keyword kind).
    Other(TokenKind),
}

/// A token with its text taken as characters.
pub struct TokenView {
    pub kind: KindView,
    pub line: int,
    pub column: int,
}

impl View for TokenKind {
    type V = KindView;

    open spec fn view(&self) -> KindView {
        match self {
            TokenKind::Word(s) => KindView::Word(s@),
            TokenKind::StringLiteral(s) => KindView::StringLiteral(s@),
            TokenKind::InterpolatedStringLiteral(s) => KindView::InterpolatedStringLiteral(s@),
            _ => KindView::Other(*self),
        }
    }
}

impl View for Token {
    type V = TokenView;

    open spec fn view(&self) -> TokenView {
        TokenView { kind: self.kind@, line: self.line as int, column: self.column as int }
    }
}

/// The views of a sequence of tokens.
pub open spec fn views(ts: Seq<Token>) -> Seq<TokenView> {
    ts.map_values(|t: Token| t@)
}

/// Line and column reached after reading the first `n` characters of `s`, starting at line 1,
/// column 1: a newline moves to column 1 of the next line, any other character one column on.
pub open spec fn loc(s: Seq<char>, n: int) -> (int, int)
    decreases n,
{
    if n <= 0 {
        (1, 1)
    } else {
        let (l, c) = loc(s, n - 1);
        if s[n - 1] == '\n' {
            (l + 1, 1)
        } else {
            (l, c + 1)
        }
    }
}

/// Characters that end a word: white space and `{}()[]=,:;"'$!<>?`.
pub open spec fn is_delim(c: char) -> bool {
    is_ws(c) || c == '{' || c == '}' || c == '(' || c == ')' || c == '[' || c == ']' || c == '='
        || c == ',' || c == ':' || c == ';' || c == '"' || c == '\'' || c == '$' || c == '!' || c
        == '<' || c == '>' || c == '?'
}

/// The first position at or after `i` that is not white space other than a newline.
pub open spec fn blank_end(s: Seq<char>, i: int) -> int
    decreases s.len() - i,
{
    if 0 <= i < s.len() && is_ws(s[i]) && s[i] != '\n' {
        blank_end(s, i + 1)
    } else {
        i
    }
}

/// Whether a character ends a word (see `is_delim`).
fn is_delimiter(c: char) -> (r: bool)
    ensures
        r == is_delim(c),
{
    is_whitespace(c) || c == '{' || c == '}' || c == '(' || c == ')' || c == '[' || c == ']' || c
        == '=' || c == ',' || c == ':' || c == ';' || c == '"' || c == '\'' || c == '$' || c == '!'
        || c == '<' || c == '>' || c == '?'
}

/// The first position at or after `i` holding a newline, or the end of the input.
pub open spec fn line_end(s: Seq<char>, i: int) -> int
    decreases s.len() - i,
{
    if 0 <= i < s.len() && s[i] != '\n' {
        line_end(s, i + 1)
    } else {
        i
    }
}

/// The first position at or after `i` that ends a word.
pub open spec fn word_end(s: Seq<char>, i: int) -> int
    decreases s.len() - i,
{
    if 0 <= i < s.len() && !is_delim(s[i]) {
        word_end(s, i + 1)
    } else {
        i
    }
}

/// The rest of a quoted string read from position `i` (just after the opening quote, or inside
/// the string; `escaped` when the previous character was a backslash): the characters up to the
/// closing `quote`, where a backslash makes the next character literal, and the position after
/// the closing quote. `None` when the input ends first.
pub open spec fn quoted(s: Seq<char>, i: int, quote: char, escaped: bool) -> Option<(Seq<char>, int)>
    decreases s.len() - i,
{
    if i < 0 || i >= s.len() {
        None
    } else if escaped {
        with_prefix(seq![s[i]], quoted(s, i + 1, quote, false))
    } else if s[i] == '\\' {
        quoted(s, i + 1, quote, true)
    } else if s[i] == quote {
        Some((Seq::empty(), i + 1))
    } else {
        with_prefix(seq![s[i]], quoted(s, i + 1, quote, false))
    }
}

/// The character denoted by a backslash followed by `c` in a character literal.
pub open spec fn escape_of(c: char) -> char {
    if c == 'n' {
        '\n'
    } else if c == 'r' {
        '\r'
    } else if c == 't' {
        '\t'
    } else if c == '0' {
        '\0'
    } else {
        c
    }
}

/// A character literal whose opening quote is at `i`: the character and the position after the
/// closing quote, or `None` when the closing quote is missing. An empty input after the quote
/// reads as `'\0'`.
pub open spec fn char_lit(s: Seq<char>, i: int) -> Option<(char, int)> {
    let p = i + 1;
    let (v, q) = if p < s.len() {
        if s[p] == '\\' {
            if p + 1 < s.len() {
                (escape_of(s[p + 1]), p + 2)
            } else {
                ('\0', p + 1)
            }
        } else {
            (s[p], p + 1)
        }
    } else {
        ('\0', p)
    };
    if 0 <= q < s.len() && s[q] == '\'' {
        Some((v, q + 1))
    } else {
        None
    }
}

/// One step of the lexer.
pub enum Step {
    /// Nothing is produced; reading goes on at the position.
    Skip(int),
    /// A token of the kind is produced; reading goes on at the position.
    Emit(KindView, int),
    /// Reading fails with the message.
    Fail(Seq<char>),
}

/// The step taken at position `i`, which holds the first character of a token.
pub open spec fn scan(s: Seq<char>, i: int) -> Step {
    let c = s[i];
    let next_is = |d: char| i + 1 < s.len() && s[i + 1] == d;
    if c == ':' {
        Step::Emit(KindView::Other(TokenKind::Colon), i + 1)
    } else if c == '|' {
        if next_is('|') {
            Step::Emit(KindView::Other(TokenKind::OrElse), i + 2)
        } else {
            Step::Emit(KindView::Word("|"@), i + 1)
        }
    } else if c == '&' {
        if next_is('&') {
            Step::Emit(KindView::Other(TokenKind::AndThen), i + 2)
        } else {
            Step::Emit(KindView::Word("&"@), i + 1)
        }
    } else if c == '{' {
        Step::Emit(KindView::Other(TokenKind::LBrace), i + 1)
    } else if c == '}' {
        Step::Emit(KindView::Other(TokenKind::RBrace), i + 1)
    } else if c == '(' {
        Step::Emit(KindView::Other(TokenKind::LParen), i + 1)
    } else if c == ')' {
        Step::Emit(KindView::Other(TokenKind::RParen), i + 1)
    } else if c == '[' {
        Step::Emit(KindView::Other(TokenKind::LBracket), i + 1)
    } else if c == ']' {
        Step::Emit(KindView::Other(TokenKind::RBracket), i + 1)
    } else if c == '\n' {
        Step::Emit(KindView::Other(TokenKind::Semicolon), i + 1)
    } else if c == '=' {
        if next_is('=') {
            Step::Emit(KindView::Other(TokenKind::Equals), i + 2)
        } else {
            Step::Emit(KindView::Other(TokenKind::Assign), i + 1)
        }
    } else if c == '!' {
        if next_is('=') {
            Step::Emit(KindView::Other(TokenKind::NotEquals), i + 2)
        } else {
            Step::Emit(KindView::Word("!"@), i + 1)
        }
    } else if c == '>' {
        if next_is('=') {
            Step::Emit(KindView::Other(TokenKind::GreaterOrEq), i + 2)
        } else {
            Step::Emit(KindView::Other(TokenKind::GreaterThan), i + 1)
        }
    } else if c == '<' {
        if next_is('=') {
            Step::Emit(KindView::Other(TokenKind::LessOrEq), i + 2)
        } else {
            Step::Emit(KindView::Other(TokenKind::LessThan), i + 1)
        }
    } else if c == '?' {
        Step::Emit(KindView::Other(TokenKind::Question), i + 1)
    } else if c == ',' {
        Step::Emit(KindView::Other(TokenKind::Comma), i + 1)
    } else if c == '$' {
        if next_is('"') {
            match quoted(s, i + 2, '"', false) {
                Some((v, e)) => Step::Emit(KindView::InterpolatedStringLiteral(v), e),
                None => Step::Fail(UNTERMINATED_STRING@),
            }
        } else {
            Step::Fail(DOLLAR_PREFIX@)
        }
    } else if c == '"' {
        match quoted(s, i + 1, '"', false) {
            Some((v, e)) => Step::Emit(KindView::StringLiteral(v), e),
            None => Step::Fail(UNTERMINATED_STRING@),
        }
    } else if c == '\'' {
        match char_lit(s, i) {
            Some((v, e)) => Step::Emit(KindView::Other(TokenKind::CharLiteral(v)), e),
            None => Step::Fail(UNTERMINATED_CHAR@),
        }
    } else {
        let e = word_end(s, i);
        if e == i {
            Step::Skip(i + 1)
        } else {
            Step::Emit(keyword(s.subrange(i, e)), e)
        }
    }
}

/// Whether a comment (`#` or `//`, up to the end of the line) starts at `i`.
pub open spec fn comment_at(s: Seq<char>, i: int) -> bool {
    s[i] == '#' || (s[i] == '/' && i + 1 < s.len() && s[i + 1] == '/')
}

/// The position after a step, when the step goes on.
pub open spec fn step_next(st: Step) -> int {
    match st {
        Step::Skip(k) => k,
        Step::Emit(_, k) => k,
        Step::Fail(_) => 0,
    }
}

/// The tokens of `s` read from position `i`, or the message of the error that stops reading.
/// White space other than newlines is skipped, comments run to the end of their line, and each
/// token is placed at the line and column where it starts.
pub open spec fn lex_from(s: Seq<char>, i: int) -> Result<Seq<TokenView>, Seq<char>>
    decreases s.len() - i,
{
    let j = blank_end(s, i);
    if i < 0 || j >= s.len() {
        Ok(Seq::empty())
    } else if comment_at(s, j) {
        let k = line_end(s, j);
        if i < k <= s.len() {
            lex_from(s, k)
        } else {
            Ok(Seq::empty())
        }
    } else {
        match scan(s, j) {
            Step::Skip(k) => if i < k <= s.len() {
                lex_from(s, k)
            } else {
                Ok(Seq::empty())
            },
            Step::Emit(kv, k) => if i < k <= s.len() {
                prepend(
                    seq![TokenView { kind: kv, line: loc(s, j).0, column: loc(s, j).1 }],
                    lex_from(s, k),
                )
            } else {
                Ok(Seq::empty())
            },
            Step::Fail(m) => Err(m),
        }
    }
}

/// The tokens of a whole input (see `lex_from`).
pub open spec fn lex(s: Seq<char>) -> Result<Seq<TokenView>, Seq<char>> {
    lex_from(s, 0)
}

/// `acc` put in front of the tokens of a lexing result.
pub open spec fn prepend(acc: Seq<TokenView>, r: Result<Seq<TokenView>, Seq<char>>) -> Result<
    Seq<TokenView>,
    Seq<char>,
> {
    match r {
        Ok(v) => Ok(acc + v),
        Err(m) => Err(m),
    }
}

pub const UNTERMINATED_STRING: &'static str = "Unterminated string";

pub const UNTERMINATED_CHAR: &'static str = "Unterminated char literal";

pub const DOLLAR_PREFIX: &'static str = "Variables no longer use the $ prefix in Ish.";

/// `acc` put in front of the characters of a quoted-string result.
pub open spec fn with_prefix(acc: Seq<char>, o: Option<(Seq<char>, int)>) -> Option<(Seq<char>, int)> {
    match o {
        Some((v, e)) => Some((acc + v, e)),
        None => None,
    }
}

proof fn lemma_with_prefix_push(acc: Seq<char>, c: char, o: Option<(Seq<char>, int)>)
    ensures
        with_prefix(acc.push(c), o) == with_prefix(acc, with_prefix(seq![c], o)),
{
    match o {
        Some((v, e)) => {
            assert(acc.push(c) + v =~= acc + (seq![c] + v));
        },
        None => {},
    }
}

proof fn lemma_blank_end(s: Seq<char>, i: int)
    requires
        0 <= i,
    ensures
        i <= blank_end(s, i),
        blank_end(s, i) <= s.len() || blank_end(s, i) == i,
        blank_end(s, i) < s.len() ==> !(is_ws(s[blank_end(s, i)]) && s[blank_end(s, i)] != '\n'),
    decreases s.len() - i,
{
    if 0 <= i < s.len() && is_ws(s[i]) && s[i] != '\n' {
        lemma_blank_end(s, i + 1);
    }
}

/// `<=` is one token: wherever the next token (after blanks) starts with `<` followed by `=`,
/// the lexer produces a single `LessOrEq` token there and reads on after both characters.
pub proof fn lemma_less_or_eq_is_one_token(s: Seq<char>, i: int)
    requires
        0 <= i,
        blank_end(s, i) + 1 < s.len(),
        s[blank_end(s, i)] == '<',
        s[blank_end(s, i) + 1] == '=',
    ensures
        lex_from(s, i) == prepend(
            seq![
                TokenView {
                    kind: KindView::Other(TokenKind::LessOrEq),
                    line: loc(s, blank_end(s, i)).0,
                    column: loc(s, blank_end(s, i)).1,
                },
            ],
            lex_from(s, blank_end(s, i) + 2),
        ),
{
    lemma_blank_end(s, i);
    let j = blank_end(s, i);
    assert(!comment_at(s, j));
    assert(scan(s, j) == Step::Emit(KindView::Other(TokenKind::LessOrEq), j + 2));
}

/// The operators written with two characters: `||`, `&&`, `==`, `!=`, `>=`, `<=`.
pub open spec fn two_char_operator(a: char, b: char) -> Option<TokenKind> {
    if a == '|' && b == '|' {
        Some(TokenKind::OrElse)
    } else if a == '&' && b == '&' {
        Some(TokenKind::AndThen)
    } else if a == '=' && b == '=' {
        Some(TokenKind::Equals)
    } else if a == '!' && b == '=' {
        Some(TokenKind::NotEquals)
    } else if a == '>' && b == '=' {
        Some(TokenKind::GreaterOrEq)
    } else if a == '<' && b == '=' {
        Some(TokenKind::LessOrEq)
    } else {
        None
    }
}

/// Each two-character operator is one token: wherever the next token (after blanks) starts
/// with one, the lexer produces that single operator token there and reads on after both
/// characters.
pub proof fn lemma_two_char_operators(s: Seq<char>, i: int)
    requires
        0 <= i,
        blank_end(s, i) + 1 < s.len(),
        two_char_operator(s[blank_end(s, i)], s[blank_end(s, i) + 1]) is Some,
    ensures
        lex_from(s, i) == prepend(
            seq![
                TokenView {
                    kind: KindView::Other(two_char_operator(s[blank_end(s, i)], s[blank_end(s, i) + 1])->0),
                    line: loc(s, blank_end(s, i)).0,
                    column: loc(s, blank_end(s, i)).1,
                },
            ],
            lex_from(s, blank_end(s, i) + 2),
        ),
{
    lemma_blank_end(s, i);
    let j = blank_end(s, i);
    assert(!comment_at(s, j));
    assert(scan(s, j) == Step::Emit(KindView::Other(two_char_operator(s[j], s[j + 1])->0), j + 2));
}

proof fn lemma_line_end(s: Seq<char>, i: int)
    requires
        0 <= i,
    ensures
        i <= line_end(s, i),
        line_end(s, i) <= s.len() || line_end(s, i) == i,
    decreases s.len() - i,
{
    if 0 <= i < s.len() && s[i] != '\n' {
        lemma_line_end(s, i + 1);
    }
}

proof fn lemma_word_end(s: Seq<char>, i: int)
    requires
        0 <= i,
    ensures
        i <= word_end(s, i),
        word_end(s, i) <= s.len() || word_end(s, i) == i,
    decreases s.len() - i,
{
    if 0 <= i < s.len() && !is_delim(s[i]) {
        lemma_word_end(s, i + 1);
    }
}

proof fn lemma_quoted(s: Seq<char>, i: int, quote: char, escaped: bool)
    ensures
        quoted(s, i, quote, escaped) matches Some((_, e)) ==> i < e <= s.len(),
    decreases s.len() - i,
{
    if 0 <= i < s.len() {
        lemma_quoted(s, i + 1, quote, false);
        lemma_quoted(s, i + 1, quote, true);
    }
}

proof fn lemma_scan_progress(s: Seq<char>, j: int)
    requires
        0 <= j < s.len(),
    ensures
        !(scan(s, j) is Fail) ==> j < step_next(scan(s, j)) <= s.len(),
{
    lemma_word_end(s, j);
    lemma_quoted(s, j + 1, '"', false);
    lemma_quoted(s, j + 2, '"', false);
}

proof fn lemma_comment_progress(s: Seq<char>, j: int)
    requires
        0 <= j < s.len(),
        s[j] != '\n',
    ensures
        j < line_end(s, j) <= s.len(),
{
    lemma_line_end(s, j + 1);
}

proof fn lemma_loc_bounds(s: Seq<char>, n: int)
    requires
        0 <= n,
    ensures
        1 <= loc(s, n).0 <= n + 1,
        1 <= loc(s, n).1 <= n + 1,
    decreases n,
{
    if n > 0 {
        lemma_loc_bounds(s, n - 1);
    }
}

/// A tokenizer over a piece of Ish source text.
pub struct Tokenizer {
    input: Vec<char>,
    position: usize,
    line: usize,
    column: usize,
}

impl Tokenizer {
    /// The text being read.
    pub closed spec fn text(&self) -> Seq<char> {
        self.input@
    }

    /// The position reached in the text.
    pub closed spec fn pos(&self) -> int {
        self.position as int
    }

    /// The tokenizer's position lies in its text, and its line and column are those of the
    /// position.
    pub closed spec fn wf(&self) -> bool {
        &&& self.position <= self.input.len()
        &&& self.input.len() < usize::MAX
        &&& (self.line as int, self.column as int) == loc(self.input@, self.position as int)
    }

    /// A tokenizer at the start of `input`.
    pub fn new(input: &str) -> (t: Self)
        requires
            input@.len() < usize::MAX,
        ensures
            t.wf(),
            t.text() == input@,
            t.pos() == 0,
    {
        let chars = crate::text::chars_of(input);
        Tokenizer { input: chars, position: 0, line: 1, column: 1 }
    }

    fn advance(&mut self) -> (ch: char)
        requires
            old(self).wf(),
            old(self).position < old(self).input.len(),
        ensures
            final(self).wf(),
            final(self).input@ == old(self).input@,
            final(self).position == old(self).position + 1,
            ch == old(self).input@[old(self).position as int],
    {
        proof {
            lemma_loc_bounds(self.input@, self.position as int);
        }
        let ch = self.input[self.position];
        self.position += 1;
        if ch == '\n' {
            self.line += 1;
            self.column = 1;
        } else {
            self.column += 1;
        }
        ch
    }

    fn skip_whitespace(&mut self)
        requires
            old(self).wf(),
        ensures
            final(self).wf(),
            final(self).input@ == old(self).input@,
            final(self).position == blank_end(old(self).input@, old(self).position as int),
    {
        while self.position < self.input.len() && is_whitespace(self.input[self.position])
            && self.input[self.position] != '\n'
            invariant
                self.wf(),
                self.input@ == old(self).input@,
                blank_end(self.input@, self.position as int) == blank_end(
                    old(self).input@,
                    old(self).position as int,
                ),
            decreases self.input.len() - self.position,
        {
            self.advance();
        }
    }

    fn read_word(&mut self) -> (word: Vec<char>)
        requires
            old(self).wf(),
        ensures
            final(self).wf(),
            final(self).input@ == old(self).input@,
            final(self).position == word_end(old(self).input@, old(self).position as int),
            word@ == old(self).input@.subrange(
                old(self).position as int,
                final(self).position as int,
            ),
    {
        let mut word: Vec<char> = Vec::new();
        let ghost start = self.position as int;
        while self.position < self.input.len() && !is_delimiter(self.input[self.position])
            invariant
                self.wf(),
                self.input@ == old(self).input@,
                start == old(self).position,
                start <= self.position,
                word@ == self.input@.subrange(start, self.position as int),
                word_end(self.input@, self.position as int) == word_end(self.input@, start),
            decreases self.input.len() - self.position,
        {
            let ch = self.input[self.position];
            word.push(ch);
            self.advance();
            proof {
                assert(word@ =~= self.input@.subrange(start, self.position as int));
            }
        }
        word
    }

    fn peek_word(&mut self) -> (word: Vec<char>)
        requires
            old(self).wf(),
        ensures
            final(self).input@ == old(self).input@,
            final(self).position == old(self).position,
            final(self).line == old(self).line,
            final(self).column == old(self).column,
            final(self).wf(),
            word@ == old(self).input@.subrange(
                old(self).position as int,
                word_end(old(self).input@, old(self).position as int),
            ),
    {
        let original_pos = self.position;
        let original_line = self.line;
        let original_col = self.column;
        let word = self.read_word();
        self.position = original_pos;
        self.line = original_line;
        self.column = original_col;
        word
    }

    /// Reads a quoted string whose opening quote is at the current position.
    fn read_string(&mut self, quote: char) -> (r: Result<String, IshError>)
        requires
            old(self).wf(),
            old(self).position < old(self).input.len(),
        ensures
            final(self).wf(),
            final(self).input@ == old(self).input@,
            match quoted(old(self).input@, old(self).position + 1, quote, false) {
                Some((v, e)) => r matches Ok(st) && st@ == v && final(self).position == e,
                None => r matches Err(IshError::ParseError(m)) && m@ == UNTERMINATED_STRING@,
            },
    {
        let ghost s = self.input@;
        self.advance();
        let mut string_val: Vec<char> = Vec::new();
        let mut escaped = false;
        let ghost start = self.position as int;
        while self.position < self.input.len()
            invariant
                self.wf(),
                self.input@ == s,
                s == old(self).input@,
                start == old(self).position + 1,
                start <= self.position,
                quoted(s, start, quote, false) == with_prefix(
                    string_val@,
                    quoted(s, self.position as int, quote, escaped),
                ),
            decreases self.input.len() - self.position,
        {
            let ch = self.input[self.position];
            let ghost before = string_val@;
            proof {
                lemma_with_prefix_push(before, ch, quoted(s, self.position as int + 1, quote, false));
            }
            if escaped {
                string_val.push(ch);
                escaped = false;
            } else if ch == '\\' {
                escaped = true;
            } else if ch == quote {
                self.advance();
                let out = string_from(&string_val);
                proof {
                    assert(string_val@ + Seq::<char>::empty() =~= string_val@);
                }
                return Ok(out);
            } else {
                string_val.push(ch);
            }
            self.advance();
        }
        Err(IshError::ParseError(lit(UNTERMINATED_STRING)))
    }
    /// Reads one token starting at the current position (see `scan`): `Ok(Some(kind))` when a
    /// token is produced, `Ok(None)` when the character is skipped.
    fn scan_token(&mut self) -> (r: Result<Option<TokenKind>, IshError>)
        requires
            old(self).wf(),
            old(self).position < old(self).input.len(),
        ensures
            final(self).wf(),
            final(self).input@ == old(self).input@,
            match scan(old(self).input@, old(self).position as int) {
                Step::Skip(k) => r matches Ok(None) && final(self).position == k,
                Step::Emit(kv, k) => r matches Ok(Some(t)) && t@ == kv && final(self).position == k,
                Step::Fail(m) => r matches Err(IshError::ParseError(mm)) && mm@ == m,
            },
    {
        let ghost s = self.input@;
        let ghost i = self.position as int;
        let ch = self.input[self.position];
        let has_next = self.position + 1 < self.input.len();
        let nc = if has_next {
            self.input[self.position + 1]
        } else {
            ch
        };
        if ch == ':' {
            self.advance();
            Ok(Some(TokenKind::Colon))
        } else if ch == '|' {
            if (has_next && nc == '|') {
                self.advance();
                self.advance();
                Ok(Some(TokenKind::OrElse))
            } else {
                self.advance();
                Ok(Some(TokenKind::Word(lit("|"))))
            }
        } else if ch == '&' {
            if (has_next && nc == '&') {
                self.advance();
                self.advance();
                Ok(Some(TokenKind::AndThen))
            } else {
                self.advance();
                Ok(Some(TokenKind::Word(lit("&"))))
            }
        } else if ch == '{' {
            self.advance();
            Ok(Some(TokenKind::LBrace))
        } else if ch == '}' {
            self.advance();
            Ok(Some(TokenKind::RBrace))
        } else if ch == '(' {
            self.advance();
            Ok(Some(TokenKind::LParen))
        } else if ch == ')' {
            self.advance();
            Ok(Some(TokenKind::RParen))
        } else if ch == '[' {
            self.advance();
            Ok(Some(TokenKind::LBracket))
        } else if ch == ']' {
            self.advance();
            Ok(Some(TokenKind::RBracket))
        } else if ch == '\n' {
            self.advance();
            Ok(Some(TokenKind::Semicolon))
        } else if ch == '=' {
            self.advance();
            if (has_next && nc == '=') {
                self.advance();
                Ok(Some(TokenKind::Equals))
            } else {
                Ok(Some(TokenKind::Assign))
            }
        } else if ch == '!' {
            self.advance();
            if (has_next && nc == '=') {
                self.advance();
                Ok(Some(TokenKind::NotEquals))
            } else {
                Ok(Some(TokenKind::Word(lit("!"))))
            }
        } else if ch == '>' {
            self.advance();
            if (has_next && nc == '=') {
                self.advance();
                Ok(Some(TokenKind::GreaterOrEq))
            } else {
                Ok(Some(TokenKind::GreaterThan))
            }
        } else if ch == '<' {
            self.advance();
            if (has_next && nc == '=') {
                self.advance();
                Ok(Some(TokenKind::LessOrEq))
            } else {
                Ok(Some(TokenKind::LessThan))
            }
        } else if ch == '?' {
            self.advance();
            Ok(Some(TokenKind::Question))
        } else if ch == ',' {
            self.advance();
            Ok(Some(TokenKind::Comma))
        } else if ch == '$' {
            self.advance();
            if (has_next && nc == '"') {
                match self.read_string('"') {
                    Ok(str_val) => Ok(Some(TokenKind::InterpolatedStringLiteral(str_val))),
                    Err(e) => Err(e),
                }
            } else {
                Err(IshError::ParseError(lit(DOLLAR_PREFIX)))
            }
        } else if ch == '"' {
            match self.read_string(ch) {
                Ok(string_val) => Ok(Some(TokenKind::StringLiteral(string_val))),
                Err(e) => Err(e),
            }
        } else if ch == '\'' {
            match self.read_char_literal() {
                Ok(char_val) => Ok(Some(TokenKind::CharLiteral(char_val))),
                Err(e) => Err(e),
            }
        } else {
            proof {
                lemma_word_end(s, i);
            }
            let word = self.read_word();
            if word.len() == 0 {
                self.advance();
                Ok(None)
            } else {
                Ok(Some(keyword_kind(&word)))
            }
        }
    }

    /// Reads a character literal whose opening quote is at the current position.
    fn read_char_literal(&mut self) -> (r: Result<char, IshError>)
        requires
            old(self).wf(),
            old(self).position < old(self).input.len(),
        ensures
            final(self).wf(),
            final(self).input@ == old(self).input@,
            match char_lit(old(self).input@, old(self).position as int) {
                Some((v, e)) => r == Ok::<char, IshError>(v) && final(self).position == e,
                None => r matches Err(IshError::ParseError(m)) && m@ == UNTERMINATED_CHAR@,
            },
    {
        self.advance();
        let mut char_val = '\0';
        if self.position < self.input.len() {
            let ch = self.input[self.position];
            if ch == '\\' {
                self.advance();
                if self.position < self.input.len() {
                    let next_ch = self.input[self.position];
                    char_val = match next_ch {
                        'n' => '\n',
                        'r' => '\r',
                        't' => '\t',
                        '0' => '\0',
                        _ => next_ch,
                    };
                    self.advance();
                }
            } else {
                char_val = ch;
                self.advance();
            }
        }
        if self.position < self.input.len() && self.input[self.position] == '\'' {
            self.advance();
            Ok(char_val)
        } else {
            Err(IshError::ParseError(lit(UNTERMINATED_CHAR)))
        }
    }

    /// Reads the tokens from the current position to the end of the text.
    pub fn tokenize(&mut self) -> (r: Result<Vec<Token>, IshError>)
        requires
            old(self).wf(),
        ensures
            final(self).wf(),
            final(self).text() == old(self).text(),
            match r {
                Ok(v) => lex_from(old(self).text(), old(self).pos()) == Ok::<
                    Seq<TokenView>,
                    Seq<char>,
                >(views(v@)),
                Err(e) => e is ParseError && lex_from(old(self).text(), old(self).pos()) == Err::<
                    Seq<TokenView>,
                    Seq<char>,
                >(e.message()),
            },
    {
        let mut tokens: Vec<Token> = Vec::new();
        let ghost s = self.input@;
        let ghost start = self.position as int;
        while self.position < self.input.len()
            invariant
                self.wf(),
                self.input@ == s,
                s == old(self).input@,
                start == old(self).position,
                lex_from(s, start) == prepend(views(tokens@), lex_from(s, self.position as int)),
            decreases self.input.len() - self.position,
        {
            let ghost i = self.position as int;
            proof {
                lemma_blank_end(s, i);
            }
            self.skip_whitespace();
            if self.position >= self.input.len() {
                continue;
            }
            let ghost j = self.position as int;
            if self.input[self.position] == '#' || (self.input[self.position] == '/'
                && self.position + 1 < self.input.len() && self.input[self.position + 1] == '/') {
                proof {
                    lemma_line_end(s, j);
                    lemma_comment_progress(s, j);
                }
                while self.position < self.input.len() && self.input[self.position] != '\n'
                    invariant
                        self.wf(),
                        self.input@ == s,
                        j <= self.position,
                        line_end(s, self.position as int) == line_end(s, j),
                    decreases self.input.len() - self.position,
                {
                    self.advance();
                }
                continue;
            }
            let start_line = self.line;
            let start_column = self.column;
            proof {
                lemma_scan_progress(s, j);
            }
            let kind = match self.scan_token() {
                Ok(Some(k)) => k,
                Ok(None) => {
                    continue;
                },
                Err(e) => {
                    return Err(e);
                },
            };
            let ghost k = self.position as int;
            let tok = Token { kind, line: start_line, column: start_column };
            proof {
                lemma_word_end(s, j);
                assert(views(tokens@.push(tok)) =~= views(tokens@) + seq![tok@]);
                match lex_from(s, k) {
                    Ok(r) => {
                        assert(views(tokens@) + (seq![tok@] + r) =~= views(tokens@.push(tok)) + r);
                    },
                    Err(_) => {},
                }
            }
            tokens.push(tok);
        }
        proof {
            assert(views(tokens@) + Seq::<TokenView>::empty() =~= views(tokens@));
        }
        Ok(tokens)
    }
}

} // verus!

