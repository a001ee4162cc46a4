use ish::error::IshError;
use ish::lang::ast::{AccessSpecifier, AstNode, AstNodeKind};
use ish::lang::parser::Parser;
use ish::lang::tokenizer::Tokenizer;

fn parse_text(text: &str) -> Result<AstNode, IshError> {
    let tokens = Tokenizer::new(text).tokenize()?;
    Parser::new(tokens).parse()
}

/// The top-level statements of a parsed program: the root itself where it is one statement.
fn top_statements(root: AstNode) -> Vec<AstNode> {
    match root.kind {
        AstNodeKind::NamespaceDecl { ref name, ref body } if name.is_empty() => body.clone(),
        _ => vec![root],
    }
}

/// The statements of `func Main` inside `class P`, written around `body`.
fn method_body(body: &str) -> Vec<AstNode> {
    let text = format!("class P {{\nfunc Main() {{\n{}\n}}\n}}\n", body);
    let body = top_statements(parse_text(&text).unwrap());
    let AstNodeKind::ClassDecl { mut methods, .. } = body.into_iter().next().unwrap().kind else {
        panic!("class")
    };
    let AstNodeKind::Function { body, .. } = methods.remove(0).kind else { panic!("method") };
    body
}

fn first_expression(body: &str) -> AstNodeKind {
    method_body(body).into_iter().next().unwrap().kind
}

fn word(k: &AstNodeKind) -> String {
    match k {
        AstNodeKind::Variable(v) => v.clone(),
        AstNodeKind::StringLiteral(s) => s.clone(),
        other => panic!("not a name: {:?}", other),
    }
}

#[test]
fn multiplication_binds_tighter_than_addition() {
    let AstNodeKind::BinaryOp { left, operator, right } = first_expression("a + b * c") else {
        panic!()
    };
    assert_eq!(operator, "+");
    assert_eq!(word(&left.kind), "a");
    let AstNodeKind::BinaryOp { left: l2, operator: o2, right: r2 } = right.kind else { panic!() };
    assert_eq!(o2, "*");
    assert_eq!(word(&l2.kind), "b");
    assert_eq!(word(&r2.kind), "c");
}

#[test]
fn binary_operators_group_to_the_left() {
    let AstNodeKind::BinaryOp { left, operator, right } = first_expression("a - b - c") else {
        panic!()
    };
    assert_eq!(operator, "-");
    assert_eq!(word(&right.kind), "c");
    let AstNodeKind::BinaryOp { left: l2, right: r2, .. } = left.kind else { panic!() };
    assert_eq!(word(&l2.kind), "a");
    assert_eq!(word(&r2.kind), "b");
}

#[test]
fn ternary_and_comparison() {
    let AstNodeKind::TernaryOp { condition, true_value, false_value } =
        first_expression("x > 1 ? y : z")
    else {
        panic!()
    };
    assert!(matches!(condition.kind, AstNodeKind::BinaryOp { ref operator, .. } if operator == ">"));
    assert_eq!(word(&true_value.kind), "y");
    assert_eq!(word(&false_value.kind), "z");
}

#[test]
fn calls_properties_and_indexing() {
    let AstNodeKind::MethodCall { object, method_name, args } = first_expression("Console.Print(a, 2)")
    else {
        panic!()
    };
    assert_eq!(word(&object.kind), "Console");
    assert!(matches!(object.kind, AstNodeKind::StringLiteral(_)));
    assert_eq!(method_name, "Print");
    assert_eq!(args.len(), 2);
    let AstNodeKind::MethodCall { object, method_name, .. } = first_expression("run()") else {
        panic!()
    };
    assert_eq!(word(&object.kind), "___implicit___");
    assert_eq!(method_name, "run");
    let AstNodeKind::IndexAccess { object, index } = first_expression("items[0]") else { panic!() };
    assert_eq!(word(&object.kind), "items");
    assert!(matches!(index.kind, AstNodeKind::StringLiteral(ref s) if s == "0"));
    let AstNodeKind::PropertyAccess { object, property_name } = first_expression("p.name") else {
        panic!()
    };
    assert_eq!(word(&object.kind), "p");
    assert_eq!(property_name, "name");
}

#[test]
fn interpolated_string_parts() {
    let AstNodeKind::InterpolatedString(parts) = first_expression("$\"Hi {user.name}!\"") else {
        panic!()
    };
    assert_eq!(parts.len(), 3);
    assert!(matches!(parts[0].kind, AstNodeKind::StringLiteral(ref s) if s == "Hi "));
    assert!(matches!(parts[1].kind, AstNodeKind::PropertyAccess { ref property_name, .. } if property_name == "name"));
    assert!(matches!(parts[2].kind, AstNodeKind::StringLiteral(ref s) if s == "!"));
}

#[test]
fn unclosed_interpolation_is_an_error() {
    let r = parse_text("class P {\nfunc Main() {\n$\"Hi {user\"\n}\n}\n");
    assert!(matches!(r, Err(IshError::ParseError(_))));
}

#[test]
fn arrays_maps_and_instantiation() {
    let AstNodeKind::Array(items) = first_expression("[1, 2, 3]") else { panic!() };
    assert_eq!(items.len(), 3);
    let AstNodeKind::MapLiteral(entries) = first_expression("Map({\"a\": 1}, {b: 2})") else {
        panic!()
    };
    assert_eq!(entries.iter().map(|e| e.0.clone()).collect::<Vec<_>>(), vec!["a", "b"]);
    let AstNodeKind::ObjectInstantiation { class_name, args, initializer } =
        first_expression("new List<string>(4) { x: 1, y }")
    else {
        panic!()
    };
    assert_eq!(class_name, "List<string>");
    assert_eq!(args.len(), 1);
    let init = initializer.unwrap();
    assert_eq!(init.len(), 2);
    assert!(matches!(init[0].kind, AstNodeKind::KeyValuePair { .. }));
}

#[test]
fn statements_in_a_method() {
    let body = method_body("int x = 1;\nx = x + 1;\nif (x > 1) { return x } else { break }\nwhile (x < 3) { x = x + 1 }\nfor i in items { continue }");
    assert_eq!(body.len(), 5);
    assert!(matches!(body[0].kind, AstNodeKind::Assignment { is_declaration: true, ref type_specifier, .. } if type_specifier.as_deref() == Some("int")));
    assert!(matches!(body[1].kind, AstNodeKind::Assignment { is_declaration: false, .. }));
    let AstNodeKind::If { else_body, .. } = &body[2].kind else { panic!() };
    assert!(else_body.is_some());
    assert!(matches!(body[3].kind, AstNodeKind::While { .. }));
    assert!(matches!(body[4].kind, AstNodeKind::For { ref variable, .. } if variable == "i"));
}

#[test]
fn elif_nests_an_if_in_the_else_branch() {
    let AstNodeKind::If { else_body, .. } = first_expression("if (a) { b } elif (c) { d }") else {
        panic!()
    };
    let e = else_body.unwrap();
    assert_eq!(e.len(), 1);
    assert!(matches!(e[0].kind, AstNodeKind::If { .. }));
}

#[test]
fn switch_with_cases_and_default() {
    let AstNodeKind::Switch { cases, default_case, .. } =
        first_expression("switch (x) { case 1: { a } case 2: { b } default: { c } }")
    else {
        panic!()
    };
    assert_eq!(cases.len(), 2);
    assert_eq!(default_case.unwrap().len(), 1);
}

#[test]
fn try_catch_names_its_error_variable() {
    let AstNodeKind::TryCatch { error_var, .. } = first_expression("try { a } catch e { b }") else {
        panic!()
    };
    assert_eq!(error_var, "e");
    let AstNodeKind::TryCatch { error_var, .. } = first_expression("try { a } catch { b }") else {
        panic!()
    };
    assert_eq!(error_var, "err");
}

#[test]
fn declarations_inside_a_block_are_errors() {
    let r = parse_text("class P {\nfunc Main() {\nclass Q { }\n}\n}\n");
    assert!(matches!(r, Err(IshError::ParseError(_))));
}

#[test]
fn class_members_are_sorted() {
    let root = parse_text(
        "public class Shape : Base {\nint sides = 3\nfunc Shape(int n) { }\nfunc ~Shape() { }\nfunc Area() { }\n}\n",
    )
    .unwrap();
    let body = top_statements(root);
    let AstNodeKind::ClassDecl { name, base_class, access, methods, fields, constructor, destructor, .. } =
        &body[0].kind
    else {
        panic!()
    };
    assert_eq!(name, "Shape");
    assert_eq!(base_class.as_deref(), Some("Base"));
    assert_eq!(*access, AccessSpecifier::Public);
    assert_eq!(methods.len(), 1);
    assert_eq!(fields.len(), 1);
    let (_, params, _) = constructor.as_ref().unwrap();
    assert_eq!(params.len(), 1);
    assert_eq!(params[0].type_specifier.as_deref(), Some("int"));
    assert!(destructor.is_some());
}

#[test]
fn struct_rejects_methods() {
    let r = parse_text("struct S {\nint a\nfunc Go() { }\n}\n");
    assert!(matches!(r, Err(IshError::ParseError(_))));
    let ok = parse_text("struct S {\nint a\nstring b = \"x\"\n}\n").unwrap();
    let body = top_statements(ok);
    let AstNodeKind::StructDecl { fields, .. } = &body[0].kind else { panic!() };
    assert_eq!(fields.len(), 2);
}

#[test]
fn enums_imports_and_namespaces() {
    let root = parse_text("with Lib.Core;\nnamespace App {\nenum Color { Red, Green }\n}\n").unwrap();
    let AstNodeKind::NamespaceDecl { body, .. } = root.kind else { panic!() };
    assert!(matches!(body[0].kind, AstNodeKind::WithImport { ref path } if path == "Lib.Core"));
    let AstNodeKind::NamespaceDecl { name, body: inner } = &body[1].kind else { panic!() };
    assert_eq!(name, "App");
    assert!(matches!(inner[0].kind, AstNodeKind::EnumDecl { ref variants, .. } if variants.len() == 2));
}

#[test]
fn variadic_parameters_cannot_have_defaults() {
    let r = parse_text("class P {\nfunc F(params string[] xs = 1) { }\n}\n");
    assert!(matches!(r, Err(IshError::ParseError(_))));
}

#[test]
fn single_statement_is_the_root() {
    let root = parse_text("public enum Status { Pending, Active, Closed }").unwrap();
    assert_eq!(
        root,
        AstNode::new(
            AstNodeKind::EnumDecl {
                name: "Status".to_string(),
                access: AccessSpecifier::Public,
                variants: vec!["Pending".to_string(), "Active".to_string(), "Closed".to_string()],
            },
            1,
            8,
        )
    );
}

#[test]
fn dotted_call_object_is_a_literal() {
    let body = method_body("Sys.Console.Write(\"hi\")");
    let AstNodeKind::MethodCall { object, method_name, .. } = &body[0].kind else { panic!() };
    assert!(matches!(object.kind, AstNodeKind::StringLiteral(ref s) if s == "Sys.Console"));
    assert_eq!(method_name, "Write");
}

#[test]
fn untyped_parameters_are_refused() {
    let r = parse_text("class P {\nfunc add(a, b) {\n}\n}\n");
    match r {
        Err(IshError::ParseError(m)) => {
            assert_eq!(m, "Method parameters must have a type specifier")
        }
        other => panic!("expected a parse error, got {:?}", other.is_ok()),
    }
}

#[test]
fn single_untyped_parameter_is_refused() {
    let r = parse_text("class P {\nfunc show(x) {\n}\n}\n");
    assert!(matches!(r, Err(IshError::ParseError(m)) if m == "Method parameters must have a type specifier"));
}

#[test]
fn consume_hands_tokens_out_in_order() {
    let tokens = Tokenizer::new("let x = 1").tokenize().unwrap();
    let mut p = Parser::new(tokens.clone());
    for t in tokens.iter() {
        assert_eq!(p.consume().as_ref(), Some(t));
    }
    assert_eq!(p.consume(), None);
    assert_eq!(p.consume(), None);
}
