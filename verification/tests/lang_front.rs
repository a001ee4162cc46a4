use ish::error::IshError;
use ish::lang::ast::{AccessSpecifier, AstNode, AstNodeKind};
use ish::lang::linter::Linter;
use ish::lang::parser::Parser;
use ish::lang::tokenizer::{TokenKind, Tokenizer};

const HELLO: &str = "public static class Program {\n    public static func Main(params string[] args) {\n        CommandLine.OutputLine(\"Hello World!\");\n    }\n}\n";

fn parse_text(text: &str) -> Result<ish::lang::ast::AstNode, IshError> {
    let tokens = Tokenizer::new(text).tokenize()?;
    Parser::new(tokens).parse()
}

#[test]
fn tokenize_keywords_and_symbols() {
    let tokens = Tokenizer::new("if (x == 1) { y = 2 }").tokenize().unwrap();
    let kinds: Vec<TokenKind> = tokens.into_iter().map(|t| t.kind).collect();
    assert_eq!(
        kinds,
        vec![
            TokenKind::If,
            TokenKind::LParen,
            TokenKind::Word("x".to_string()),
            TokenKind::Equals,
            TokenKind::Word("1".to_string()),
            TokenKind::RParen,
            TokenKind::LBrace,
            TokenKind::Word("y".to_string()),
            TokenKind::Assign,
            TokenKind::Word("2".to_string()),
            TokenKind::RBrace,
        ]
    );
}

#[test]
fn tokenize_positions_and_line_breaks() {
    let tokens = Tokenizer::new("a\nb").tokenize().unwrap();
    assert_eq!(tokens.len(), 3);
    assert_eq!(tokens[0].kind, TokenKind::Word("a".to_string()));
    assert_eq!((tokens[0].line, tokens[0].column), (1, 1));
    assert_eq!(tokens[1].kind, TokenKind::Semicolon);
    assert_eq!(tokens[2].kind, TokenKind::Word("b".to_string()));
    assert_eq!((tokens[2].line, tokens[2].column), (2, 1));
}

#[test]
fn tokenize_comments_are_skipped() {
    let tokens = Tokenizer::new("x // note\n# other\ny").tokenize().unwrap();
    let kinds: Vec<TokenKind> = tokens.into_iter().map(|t| t.kind).collect();
    assert_eq!(
        kinds,
        vec![
            TokenKind::Word("x".to_string()),
            TokenKind::Semicolon,
            TokenKind::Semicolon,
            TokenKind::Word("y".to_string()),
        ]
    );
}

#[test]
fn tokenize_strings_and_chars() {
    let tokens = Tokenizer::new("\"hi there\" 'c' $\"v {x}\"").tokenize().unwrap();
    assert_eq!(tokens[0].kind, TokenKind::StringLiteral("hi there".to_string()));
    assert_eq!(tokens[1].kind, TokenKind::CharLiteral('c'));
    assert_eq!(tokens[2].kind, TokenKind::InterpolatedStringLiteral("v {x}".to_string()));
}

#[test]
fn tokenize_errors() {
    assert_eq!(
        Tokenizer::new("\"open").tokenize(),
        Err(IshError::ParseError("Unterminated string".to_string()))
    );
    assert_eq!(
        Tokenizer::new("'a").tokenize(),
        Err(IshError::ParseError("Unterminated char literal".to_string()))
    );
    assert_eq!(
        Tokenizer::new("$x").tokenize(),
        Err(IshError::ParseError("Variables no longer use the $ prefix in Ish.".to_string()))
    );
}

#[test]
fn parse_entry_class() {
    let ast = parse_text(HELLO).unwrap();
    // A program of one class is that class.
    let body = vec![ast];
    match &body[0].kind {
        AstNodeKind::ClassDecl { name, access, is_static, methods, .. } => {
            assert_eq!(name, "Program");
            assert_eq!(*access, AccessSpecifier::Public);
            assert!(*is_static);
            assert_eq!(methods.len(), 1);
            match &methods[0].kind {
                AstNodeKind::Function { name, params, body, access, is_static } => {
                    assert_eq!(name, "Main");
                    assert_eq!(*access, AccessSpecifier::Public);
                    assert!(*is_static);
                    assert_eq!(params.len(), 1);
                    assert_eq!(params[0].name, "args");
                    assert!(params[0].is_variadic);
                    assert_eq!(params[0].type_specifier.as_deref(), Some("string[]"));
                    assert_eq!(body.len(), 1);
                    assert!(matches!(body[0].kind, AstNodeKind::MethodCall { .. }));
                }
                other => panic!("unexpected method {:?}", other),
            }
        }
        other => panic!("unexpected declaration {:?}", other),
    }
}

#[test]
fn parse_rejects_top_level_statement() {
    let r = parse_text("x = 1");
    assert!(matches!(r, Err(IshError::ParseError(_))));
}

#[test]
fn parse_empty_program() {
    let ast = parse_text("\n\n").unwrap();
    match ast.kind {
        AstNodeKind::NamespaceDecl { name, body } => {
            assert_eq!(name, "");
            assert!(body.is_empty());
        }
        other => panic!("unexpected root {:?}", other),
    }
}

#[test]
fn lint_accepts_entry_class() {
    let ast = parse_text(HELLO).unwrap();
    assert_eq!(Linter::new().lint(&ast), Ok(()));
}

#[test]
fn lint_rejects_undeclared_assignment() {
    let text = "public static class Program {\n    public static func Main(params string[] args) {\n        count = 2;\n    }\n}\n";
    let ast = parse_text(text).unwrap();
    match Linter::new().lint(&ast) {
        Err(IshError::ParseError(m)) => {
            assert!(m.contains("Variable 'count' is assigned before being declared"), "{}", m)
        }
        other => panic!("unexpected {:?}", other),
    }
}

#[test]
fn lint_accepts_declared_then_assigned() {
    let text = "public static class Program {\n    public static func Main(params string[] args) {\n        let count = 1;\n        count = 2;\n    }\n}\n";
    let ast = parse_text(text).unwrap();
    assert_eq!(Linter::new().lint(&ast), Ok(()));
}

#[test]
fn lint_rejects_break_outside_loop() {
    let text = "public static class Program {\n    public static func Main(params string[] args) {\n        break;\n    }\n}\n";
    let ast = parse_text(text).unwrap();
    match Linter::new().lint(&ast) {
        Err(IshError::ParseError(m)) => {
            assert!(m.contains("'break' or 'continue' used outside of a loop"), "{}", m)
        }
        other => panic!("unexpected {:?}", other),
    }
}

#[test]
fn lint_accepts_break_inside_loop() {
    let text = "public static class Program {\n    public static func Main(params string[] args) {\n        while (true) {\n            break;\n        }\n    }\n}\n";
    let ast = parse_text(text).unwrap();
    assert_eq!(Linter::new().lint(&ast), Ok(()));
}

#[test]
fn lint_string_variable_references() {
    let text = "public static class Program {\n    public static func Main(params string[] args) {\n        CommandLine.OutputLine(\"cost $price\");\n    }\n}\n";
    let ast = parse_text(text).unwrap();
    match Linter::new().lint(&ast) {
        Err(IshError::ParseError(m)) => {
            assert!(m.contains("Variable 'price' is not defined in this scope"), "{}", m)
        }
        other => panic!("unexpected {:?}", other),
    }
    let ok = "public static class Program {\n    public static func Main(params string[] args) {\n        CommandLine.OutputLine(\"status $? and $(ls)\");\n    }\n}\n";
    let ast = parse_text(ok).unwrap();
    assert_eq!(Linter::new().lint(&ast), Ok(()));
}

#[test]
fn lint_break_message_has_position() {
    let b = AstNode::new(AstNodeKind::Break, 3, 7);
    let w = AstNode::new(
        AstNodeKind::While {
            condition: Box::new(AstNode::new(AstNodeKind::StringLiteral("true".to_string()), 1, 1)),
            body: vec![b.clone()],
        },
        1,
        1,
    );
    assert_eq!(
        Linter::new().lint(&b),
        Err(IshError::ParseError(
            "Linter Error at Line 3, Column 7: 'break' or 'continue' used outside of a loop".to_string()
        ))
    );
    assert_eq!(Linter::new().lint(&w), Ok(()));
}

#[test]
fn lint_block_scope_ends() {
    let s = |v: &str| AstNode::new(AstNodeKind::StringLiteral(v.to_string()), 1, 1);
    let a = |v: &str, d: bool, l: usize, c: usize| {
        AstNode::new(
            AstNodeKind::Assignment {
                type_specifier: None,
                variable: "x".to_string(),
                index: None,
                value: Box::new(s(v)),
                is_declaration: d,
            },
            l,
            c,
        )
    };
    let f = AstNode::new(
        AstNodeKind::Function {
            name: "f".to_string(),
            params: vec![],
            access: AccessSpecifier::Public,
            is_static: false,
            body: vec![
                AstNode::new(
                    AstNodeKind::If { condition: Box::new(s("true")), body: vec![a("1", true, 3, 9)], else_body: None },
                    2,
                    5,
                ),
                a("2", false, 5, 5),
            ],
        },
        1,
        1,
    );
    assert_eq!(
        Linter::new().lint(&f),
        Err(IshError::ParseError(
            "Linter Error at Line 5, Column 5: Variable 'x' is assigned before being declared".to_string()
        ))
    );
}
