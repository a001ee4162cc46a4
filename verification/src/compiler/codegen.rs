use vstd::prelude::*;
use crate::lang::ast::{AstNode, AstNodeKind};
use crate::text::{chars_of, concat, lit, string_eq_str, string_from, trim, trim_chars};

verus! {

broadcast use vstd::std_specs::vec::group_vec_axioms;

/// `n` levels of indentation, four spaces each.
pub open spec fn pad(n: nat) -> Seq<char>
    decreases n,
{
    if n == 0 {
        Seq::empty()
    } else {
        pad((n - 1) as nat) + "    "@
    }
}

/// One level deeper.
pub open spec fn deeper(n: nat) -> nat {
    if n < usize::MAX {
        n + 1
    } else {
        n
    }
}

/// The Rust code for a node at an indentation level: a named namespace becomes a module, an
/// unnamed one its contents; a class a struct with an `impl` holding its methods; a function
/// a `pub fn` over `IshValue`s; a call on `CommandLine` a call of `IshCommandLine`; a string
/// literal an `IshValue::String`; a variable its name; any other node a marker comment.
pub open spec fn compile(node: AstNode, indent: nat) -> Seq<char>
    decreases node, 0nat,
{
    let p = pad(indent);
    match node.kind {
        AstNodeKind::NamespaceDecl { name, body } => {
            if name@.len() > 0 {
                p + "pub mod "@ + name@ + " {\n"@ + p + "    use super::*;\n"@ + compile_all(
                    body@,
                    body@.len(),
                    deeper(indent),
                ) + p + "}\n"@
            } else {
                compile_all(body@, body@.len(), indent)
            }
        },
        AstNodeKind::ClassDecl { name, methods, .. } => p + "pub struct "@ + name@ + " {}\n"@ + p
            + "impl "@ + name@ + " {\n"@ + compile_all(methods@, methods@.len(), deeper(indent)) + p
            + "}\n"@,
        AstNodeKind::Function { name, body, .. } => p + "#[allow(non_snake_case)]\n"@ + p
            + "pub fn "@ + name@
            + "(_args: Vec<IshValue>, gobbler: &mut Gobbler) -> Option<IshValue> {\n"@
            + compile_all(body@, body@.len(), deeper(indent)) + p + "    None\n"@ + p + "}\n"@,
        AstNodeKind::MethodCall { object, method_name, args } => match object.kind {
            AstNodeKind::Variable(v) => if v@ == "CommandLine"@ {
                p + "IshCommandLine.execute_method(\""@ + method_name@ + "\", &["@ + compile_args(
                    args@,
                    args@.len(),
                ) + "], gobbler).unwrap();\n"@
            } else {
                Seq::empty()
            },
            _ => Seq::empty(),
        },
        AstNodeKind::StringLiteral(s) => "IshValue::String(\""@ + s@ + "\".to_string())"@,
        AstNodeKind::Variable(v) => v@,
        _ => p + "/* Unimplemented node */\n"@,
    }
}

/// The code for the first `n` nodes, one after another.
pub open spec fn compile_all(nodes: Seq<AstNode>, n: nat, indent: nat) -> Seq<char>
    decreases nodes, n,
{
    if n == 0 || n > nodes.len() {
        Seq::empty()
    } else {
        compile_all(nodes, (n - 1) as nat, indent) + compile(nodes[n - 1], indent)
    }
}

/// The code for the first `n` arguments, each trimmed, separated by `, `.
pub open spec fn compile_args(args: Seq<AstNode>, n: nat) -> Seq<char>
    decreases args, n,
{
    if n == 0 || n > args.len() {
        Seq::empty()
    } else {
        compile_args(args, (n - 1) as nat) + (if n > 1 {
            ", "@
        } else {
            Seq::empty()
        }) + trim(compile(args[n - 1], 0))
    }
}

/// The whole program: the imports, the code for the tree, and a `main` that runs
/// `Program::Main`.
pub open spec fn program_code(ast: AstNode) -> Seq<char> {
    "use ish::core::ast::IshValue;\n"@ + "use ish::core::gobbler::{Gobbler, HeapObject};\n"@
        + "use ish::core::stdlib::{StdlibProvider, IshCommandLine};\n\n"@ + compile(ast, 0)
        + "\nfn main() {\n"@ + "    let mut gobbler = Gobbler::new();\n"@
        + "    let args = vec![];\n"@ + "    Program::Main(args, &mut gobbler);\n"@ + "}\n"@
}

fn pad_exec(n: usize) -> (s: String)
    ensures
        s@ == pad(n as nat),
{
    let mut s = String::new();
    let mut i: usize = 0;
    while i < n
        invariant
            i <= n,
            s@ == pad(i as nat),
        decreases n - i,
    {
        s = concat(s, "    ");
        i += 1;
    }
    s
}

/// Translates a program into Rust source (see `program_code`).
pub fn generate_rust_code(ast: &AstNode) -> (code: String)
    ensures
        code@ == program_code(*ast),
{
    let mut code = lit("use ish::core::ast::IshValue;\n");
    code = concat(code, "use ish::core::gobbler::{Gobbler, HeapObject};\n");
    code = concat(code, "use ish::core::stdlib::{StdlibProvider, IshCommandLine};\n\n");
    code = concat(code, compile_node(ast, 0).as_str());
    code = concat(code, "\nfn main() {\n");
    code = concat(code, "    let mut gobbler = Gobbler::new();\n");
    code = concat(code, "    let args = vec![];\n");
    code = concat(code, "    Program::Main(args, &mut gobbler);\n");
    code = concat(code, "}\n");
    code
}

/// The code for a node at an indentation level (see `compile`).
pub fn compile_node(node: &AstNode, indent: usize) -> (code: String)
    ensures
        code@ == compile(*node, indent as nat),
    decreases node, 0nat,
{
    let prefix = pad_exec(indent);
    let p = prefix.as_str();
    let inner: usize = if indent < usize::MAX {
        indent + 1
    } else {
        indent
    };
    match &node.kind {
        AstNodeKind::NamespaceDecl { name, body } => {
            if !name.as_str().is_empty() {
                let mut code = concat(lit(p), "pub mod ");
                code = concat(code, name.as_str());
                code = concat(code, " {\n");
                code = concat(code, p);
                code = concat(code, "    use super::*;\n");
                code = concat(code, compile_nodes(body, inner).as_str());
                code = concat(code, p);
                concat(code, "}\n")
            } else {
                compile_nodes(body, indent)
            }
        },
        AstNodeKind::ClassDecl { name, methods, .. } => {
            let mut code = concat(lit(p), "pub struct ");
            code = concat(code, name.as_str());
            code = concat(code, " {}\n");
            code = concat(code, p);
            code = concat(code, "impl ");
            code = concat(code, name.as_str());
            code = concat(code, " {\n");
            code = concat(code, compile_nodes(methods, inner).as_str());
            code = concat(code, p);
            concat(code, "}\n")
        },
        AstNodeKind::Function { name, body, .. } => {
            let mut code = concat(lit(p), "#[allow(non_snake_case)]\n");
            code = concat(code, p);
            code = concat(code, "pub fn ");
            code = concat(code, name.as_str());
            code = concat(code, "(_args: Vec<IshValue>, gobbler: &mut Gobbler) -> Option<IshValue> {\n");
            code = concat(code, compile_nodes(body, inner).as_str());
            code = concat(code, p);
            code = concat(code, "    None\n");
            code = concat(code, p);
            concat(code, "}\n")
        },
        AstNodeKind::MethodCall { object, method_name, args } => {
            match &object.kind {
                AstNodeKind::Variable(v) => {
                    if string_eq_str(v, "CommandLine") {
                        let mut code = concat(lit(p), "IshCommandLine.execute_method(\"");
                        code = concat(code, method_name.as_str());
                        code = concat(code, "\", &[");
                        code = concat(code, compile_args_exec(args).as_str());
                        concat(code, "], gobbler).unwrap();\n")
                    } else {
                        String::new()
                    }
                },
                _ => String::new(),
            }
        },
        AstNodeKind::StringLiteral(s) => {
            let code = concat(lit("IshValue::String(\""), s.as_str());
            concat(code, "\".to_string())")
        },
        AstNodeKind::Variable(v) => v.clone(),
        _ => concat(lit(p), "/* Unimplemented node */\n"),
    }
}

fn compile_nodes(nodes: &Vec<AstNode>, indent: usize) -> (code: String)
    ensures
        code@ == compile_all(nodes@, nodes@.len(), indent as nat),
    decreases nodes, 1nat,
{
    let mut code = String::new();
    let mut i: usize = 0;
    while i < nodes.len()
        invariant
            i <= nodes@.len(),
            code@ == compile_all(nodes@, i as nat, indent as nat),
        decreases nodes.len() - i,
    {
        proof {
            assert(decreases_to!(nodes => nodes@[i as int]));
        }
        code = concat(code, compile_node(&nodes[i], indent).as_str());
        i += 1;
    }
    code
}

fn compile_args_exec(args: &Vec<AstNode>) -> (code: String)
    ensures
        code@ == compile_args(args@, args@.len()),
    decreases args, 1nat,
{
    let mut code = String::new();
    let mut i: usize = 0;
    while i < args.len()
        invariant
            i <= args@.len(),
            code@ == compile_args(args@, i as nat),
        decreases args.len() - i,
    {
        proof {
            assert(decreases_to!(args => args@[i as int]));
        }
        if i > 0 {
            code = concat(code, ", ");
        }
        let one = compile_node(&args[i], 0);
        let trimmed = trim_chars(&chars_of(one.as_str()));
        code = concat(code, string_from(&trimmed).as_str());
        proof {
            if i == 0 {
                assert(code@ =~= compile_args(args@, (i + 1) as nat));
            }
        }
        i += 1;
    }
    code
}

} // verus!
