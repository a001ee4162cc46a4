use ish::error::IshError;
use ish::lang::ast::{AccessSpecifier, AstNode, AstNodeKind, Param};
use ish::lang::parser::Parser;
use ish::lang::registry::{node_contains_namespace, Registry};
use ish::lang::tokenizer::Tokenizer;

fn parse_text(text: &str) -> AstNode {
    let tokens = Tokenizer::new(text).tokenize().unwrap();
    Parser::new(tokens).parse().unwrap()
}

fn registry_of(text: &str) -> Registry {
    let mut r = Registry::new();
    assert_eq!(r.register_declarations(&parse_text(text)), Ok(()));
    r
}

const PROGRAM: &str = "public static class Program {\n    public static func Main(params string[] args) {\n        CommandLine.OutputLine(\"hi\");\n    }\n}\n";

#[test]
fn new_registry_knows_pair() {
    let r = Registry::new();
    assert!(r.classes.is_empty());
    assert_eq!(r.structs.len(), 1);
    let pair = r.resolve_struct("Pair").unwrap();
    assert_eq!(pair.qualified_name, "Pair");
    let names: Vec<&str> = pair.fields.iter().map(|f| f.name.as_str()).collect();
    assert_eq!(names, vec!["Key", "Value"]);
    let (access, params, body) = pair.constructor.as_ref().unwrap();
    assert_eq!(*access, AccessSpecifier::Public);
    assert_eq!(params.len(), 2);
    assert_eq!(params[0].name, "k");
    assert_eq!(params[1].name, "v");
    assert_eq!(body.len(), 2);
}

#[test]
fn entry_point_found() {
    let r = registry_of(PROGRAM);
    assert_eq!(r.find_entry_point("Program", "Main", true), Ok("Program".to_string()));
}

#[test]
fn entry_point_errors() {
    let r = registry_of(PROGRAM);
    assert_eq!(
        r.find_entry_point("App", "Main", true),
        Err(IshError::ParseError("Entry point class 'App' not found.".to_string()))
    );
    assert_eq!(
        r.find_entry_point("Program", "Start", true),
        Err(IshError::ParseError(
            "Entry point class 'Program' must contain a 'public static func Start' method.".to_string()
        ))
    );
    let not_static = registry_of("public class Program {\n    public static func Main(params string[] args) {\n        CommandLine.OutputLine(\"hi\");\n    }\n}\n");
    assert_eq!(
        not_static.find_entry_point("Program", "Main", true),
        Err(IshError::ParseError("Entry point class 'Program' must be declared as 'static'.".to_string()))
    );
    let no_args = registry_of("public static class Program {\n    public static func Main() {\n        CommandLine.OutputLine(\"hi\");\n    }\n}\n");
    assert_eq!(
        no_args.find_entry_point("Program", "Main", true),
        Err(IshError::ParseError(
            "Entry point method 'Main' must have the 'params string[] args' signature.".to_string()
        ))
    );
    assert_eq!(no_args.find_entry_point("Program", "Main", false), Ok("Program".to_string()));
    let signature = Err(IshError::ParseError(
        "Entry point method 'Main' must have the 'params string[] args' signature.".to_string(),
    ));
    let argv = registry_of("public static class Program {\n    public static func Main(params string[] argv) {\n        CommandLine.OutputLine(\"hi\");\n    }\n}\n");
    assert_eq!(argv.find_entry_point("Program", "Main", true), signature);
    let extra = registry_of("public static class Program {\n    public static func Main(string x, params string[] args) {\n        CommandLine.OutputLine(\"hi\");\n    }\n}\n");
    assert_eq!(extra.find_entry_point("Program", "Main", true), signature);
    let private_method = registry_of("public static class Program {\n    private static func Main(params string[] args) {\n        CommandLine.OutputLine(\"hi\");\n    }\n}\n");
    assert_eq!(
        private_method.find_entry_point("Program", "Main", true),
        Err(IshError::ParseError("Entry point method 'Main' must be declared as 'public'.".to_string()))
    );
}

#[test]
fn namespaces_qualify_names() {
    let r = registry_of("namespace Outer {\n    namespace Inner {\n        public class Thing {\n            public func Run() {\n                CommandLine.OutputLine(\"x\");\n            }\n        }\n    }\n}\n");
    assert_eq!(r.classes.len(), 1);
    assert_eq!(r.classes[0].qualified_name, "Outer::Inner::Thing");
    assert_eq!(r.resolve_class("Thing").unwrap().qualified_name, "Outer::Inner::Thing");
    assert_eq!(r.resolve_class("Inner::Thing").unwrap().qualified_name, "Outer::Inner::Thing");
    assert!(r.resolve_class("hing").is_none());
    assert!(r.resolve_class("Other").is_none());
}

#[test]
fn later_declaration_replaces_earlier() {
    let r = registry_of("public class A {\n    public func One() {\n        CommandLine.OutputLine(\"1\");\n    }\n}\npublic class A {\n    public func Two() {\n        CommandLine.OutputLine(\"2\");\n    }\n}\n");
    assert_eq!(r.classes.len(), 1);
    assert_eq!(r.classes[0].methods.len(), 1);
    assert_eq!(r.classes[0].methods[0].name, "Two");
}

#[test]
fn method_lookup_follows_base_classes() {
    let r = registry_of("public class Base {\n    public func Hello() {\n        CommandLine.OutputLine(\"b\");\n    }\n}\npublic class Child : Base {\n    public func Other() {\n        CommandLine.OutputLine(\"c\");\n    }\n}\n");
    let (cls, m) = r.resolve_class_method("Child", "Hello").unwrap();
    assert_eq!(cls.name, "Base");
    assert_eq!(m.name, "Hello");
    let (cls, m) = r.resolve_class_method("Child", "Other").unwrap();
    assert_eq!(cls.name, "Child");
    assert_eq!(m.name, "Other");
    assert!(r.resolve_class_method("Child", "Missing").is_none());
    assert!(r.resolve_class_method("Nobody", "Hello").is_none());
}

#[test]
fn method_lookup_gives_up_on_a_cycle() {
    let r = registry_of("public class A : B {\n    public func One() {\n        CommandLine.OutputLine(\"1\");\n    }\n}\npublic class B : A {\n    public func Two() {\n        CommandLine.OutputLine(\"2\");\n    }\n}\n");
    assert!(r.resolve_class_method("A", "Three").is_none());
    assert_eq!(r.resolve_class_method("A", "Two").unwrap().0.name, "B");
}

#[test]
fn enums_and_imports_are_registered() {
    let mut r = registry_of("with Tools\nenum Color {\n    Red,\n    Green\n}\n");
    assert_eq!(r.enums.len(), 1);
    assert_eq!(r.enums[0].name, "Color");
    assert_eq!(r.enums[0].qualified_name, "::Color");
    assert_eq!(r.enums[0].variants, vec!["Red".to_string(), "Green".to_string()]);
    assert_eq!(r.take_imports(), vec!["Tools".to_string()]);
    assert!(r.take_imports().is_empty());
}

#[test]
fn loaded_files_are_remembered() {
    let mut r = Registry::new();
    assert!(!r.is_loaded(&"a.ish".to_string()));
    r.mark_loaded("a.ish".to_string());
    assert!(r.is_loaded(&"a.ish".to_string()));
}

#[test]
fn access_checks() {
    assert_eq!(Registry::check_access(&AccessSpecifier::Public, None, "A"), Ok(()));
    assert_eq!(Registry::check_access(&AccessSpecifier::Internal, Some("B"), "A"), Ok(()));
    assert_eq!(Registry::check_access(&AccessSpecifier::Private, Some("A"), "A"), Ok(()));
    assert_eq!(Registry::check_access(&AccessSpecifier::Protected, Some("A"), "A"), Ok(()));
    assert_eq!(
        Registry::check_access(&AccessSpecifier::Private, Some("B"), "A"),
        Err(IshError::ExecutionError("Cannot access private member of 'A' from outside its class.".to_string()))
    );
    assert_eq!(
        Registry::check_access(&AccessSpecifier::Protected, None, "A"),
        Err(IshError::ExecutionError(
            "Cannot access protected member of 'A' from outside its class hierarchy.".to_string()
        ))
    );
}

#[test]
fn namespace_search() {
    let ast = parse_text("namespace Mod {\n    public class X {\n        public func F() {\n            CommandLine.OutputLine(\"x\");\n        }\n    }\n}\n");
    assert!(node_contains_namespace(&ast, "Mod"));
    // A program of one namespace is that namespace, with no unnamed one around it.
    assert!(!node_contains_namespace(&ast, ""));
    assert!(!node_contains_namespace(&ast, "Other"));
    let leaf = AstNode::new(AstNodeKind::Variable("Mod".to_string()), 1, 1);
    assert!(!node_contains_namespace(&leaf, "Mod"));
}

#[test]
fn register_class_by_hand() {
    let method = AstNode::new(
        AstNodeKind::Function {
            name: "Run".to_string(),
            params: vec![Param {
                name: "n".to_string(),
                type_specifier: Some("int".to_string()),
                is_array: false,
                is_variadic: false,
                default_value: None,
            }],
            body: vec![],
            access: AccessSpecifier::Private,
            is_static: false,
        },
        2,
        5,
    );
    let class = AstNode::new(
        AstNodeKind::ClassDecl {
            name: "Worker".to_string(),
            base_class: None,
            access: AccessSpecifier::Internal,
            is_static: false,
            methods: vec![method],
            fields: vec![],
            constructor: None,
            destructor: None,
        },
        1,
        1,
    );
    let mut r = Registry::new();
    r.register_declarations(&class).unwrap();
    let c = r.resolve_class("Worker").unwrap();
    assert_eq!(c.access, AccessSpecifier::Internal);
    assert_eq!(c.methods[0].params[0].type_specifier.as_deref(), Some("int"));
    assert_eq!(c.methods[0].access, AccessSpecifier::Private);
}
