use ish::compiler::codegen::{compile_node, generate_rust_code};
use ish::lang::ast::{AccessSpecifier, AstNode, AstNodeKind};

fn node(kind: AstNodeKind) -> AstNode {
    AstNode::new(kind, 1, 1)
}

fn program() -> AstNode {
    let call = node(AstNodeKind::MethodCall {
        object: Box::new(node(AstNodeKind::Variable("CommandLine".to_string()))),
        method_name: "OutputLine".to_string(),
        args: vec![
            node(AstNodeKind::StringLiteral("Hi".to_string())),
            node(AstNodeKind::Variable(" name ".to_string())),
        ],
    });
    let main = node(AstNodeKind::Function {
        name: "Main".to_string(),
        params: vec![],
        body: vec![call],
        access: AccessSpecifier::Public,
        is_static: true,
    });
    let class = node(AstNodeKind::ClassDecl {
        name: "Program".to_string(),
        base_class: None,
        access: AccessSpecifier::Public,
        is_static: true,
        methods: vec![main],
        fields: vec![],
        constructor: None,
        destructor: None,
    });
    node(AstNodeKind::NamespaceDecl { name: String::new(), body: vec![class] })
}

#[test]
fn whole_program() {
    let lines = [
        "use ish::core::ast::IshValue;",
        "use ish::core::gobbler::{Gobbler, HeapObject};",
        "use ish::core::stdlib::{StdlibProvider, IshCommandLine};",
        "",
        "pub struct Program {}",
        "impl Program {",
        "    #[allow(non_snake_case)]",
        "    pub fn Main(_args: Vec<IshValue>, gobbler: &mut Gobbler) -> Option<IshValue> {",
        "        IshCommandLine.execute_method(\"OutputLine\", &[IshValue::String(\"Hi\".to_string()), name], gobbler).unwrap();",
        "        None",
        "    }",
        "}",
        "",
        "fn main() {",
        "    let mut gobbler = Gobbler::new();",
        "    let args = vec![];",
        "    Program::Main(args, &mut gobbler);",
        "}",
        "",
    ];
    let expected = lines.join("\n");
    assert_eq!(generate_rust_code(&program()), expected);
}

#[test]
fn named_namespace_and_other_nodes() {
    let ns = node(AstNodeKind::NamespaceDecl {
        name: "Tools".to_string(),
        body: vec![node(AstNodeKind::Break)],
    });
    assert_eq!(
        compile_node(&ns, 1),
        "    pub mod Tools {\n        use super::*;\n        /* Unimplemented node */\n    }\n"
    );
    let other_call = node(AstNodeKind::MethodCall {
        object: Box::new(node(AstNodeKind::Variable("Console".to_string()))),
        method_name: "Write".to_string(),
        args: vec![],
    });
    assert_eq!(compile_node(&other_call, 2), "");
}
