use ish::lang::ast::{AstNode, AstNodeKind};
use ish::lang::parser::Parser;
use ish::lang::tokenizer::Tokenizer;
use ish::runtime::interp::{Flow, Interp};
use ish::runtime::value::IshValue;

/// The statements of `func Main` inside `class P`, written around `body`.
fn method_body(body: &str) -> Vec<AstNode> {
    let text = format!("class P {{\nfunc Main() {{\n{}\n}}\n}}\n", body);
    let tokens = Tokenizer::new(&text).tokenize().unwrap();
    let root = Parser::new(tokens).parse().unwrap();
    let AstNodeKind::ClassDecl { mut methods, .. } = root.kind else { panic!("class") };
    let AstNodeKind::Function { body, .. } = methods.remove(0).kind else { panic!("method") };
    body
}

fn run(body: &str) -> (Vec<String>, Flow) {
    let nodes = method_body(body);
    let mut it = Interp::new();
    let flow = it.exec_block(&nodes, 1000);
    (it.output.clone(), flow)
}

fn lines(v: &[&str]) -> Vec<String> {
    v.iter().map(|s| s.to_string()).collect()
}

#[test]
fn declarations_and_output() {
    let (out, flow) = run("let x = 2\nlet y = x * 3 + 1\nCommandLine.OutputLine(y)\nCommandLine.OutputLine(\"done\")");
    assert_eq!(out, lines(&["7", "done"]));
    assert!(matches!(flow, Flow::Normal));
}

#[test]
fn while_with_break_and_continue() {
    let (out, flow) = run(
        "let i = 0\nwhile (i < 5) {\ni = i + 1\nif (i == 2) {\ncontinue\n}\nif (i == 4) {\nbreak\n}\nCommandLine.OutputLine(i)\n}\nCommandLine.OutputLine(\"end\")",
    );
    assert_eq!(out, lines(&["1", "3", "end"]));
    assert!(matches!(flow, Flow::Normal));
}

#[test]
fn foreach_walks_characters() {
    let (out, _) = run("foreach (c in \"Hi!\") {\nCommandLine.OutputLine(c)\n}");
    assert_eq!(out, lines(&["H", "i", "!"]));
}

#[test]
fn strings_change_in_place() {
    let (out, _) = run(
        "let log = \"Startup: \"\nlog.Append(\"connecting...\")\nCommandLine.OutputLine(log)\nlog.Clear()\nCommandLine.OutputLine(log)",
    );
    assert_eq!(out, lines(&["Startup: connecting...", ""]));
}

#[test]
fn switch_picks_the_matching_case() {
    let (out, flow) = run(
        "let value = 2\nswitch (value) {\ncase 1: {\nCommandLine.OutputLine(\"One\")\nbreak\n}\ncase 2: {\nCommandLine.OutputLine(\"Two\")\nbreak\n}\ndefault: {\nCommandLine.OutputLine(\"Other\")\nbreak\n}\n}",
    );
    assert_eq!(out, lines(&["Two"]));
    assert!(matches!(flow, Flow::Normal));
}

#[test]
fn block_scope_ends_and_assignment_needs_declaration() {
    let (_, flow) = run("if (true) {\nlet x = 1\n}\nx = 2");
    assert!(matches!(flow, Flow::Failed(m) if m == "Variable 'x' is not declared. Use 'declare x = ...' to declare it."));
}

#[test]
fn ternary_return_and_loop_allowance() {
    let (out, flow) = run("let age = 20\nlet status = (age >= 18) ? \"adult\" : \"minor\"\nCommandLine.OutputLine(status)\nreturn 5");
    assert_eq!(out, lines(&["adult"]));
    assert!(matches!(flow, Flow::Return(IshValue::Int(5))));
    let nodes = method_body("while (true) {\nlet x = 1\n}");
    let mut it = Interp::new();
    assert!(matches!(it.exec_block(&nodes, 3), Flow::OutOfFuel));
}

#[test]
fn host_work_and_errors() {
    let (out, flow) = run("CommandLine.OutputLine(\"a\")\nMath.Sqrt(4)\nCommandLine.OutputLine(\"b\")");
    assert_eq!(out, lines(&["a"]));
    assert!(matches!(flow, Flow::Host));
    let (_, flow) = run("let x = 1 / 0");
    assert!(matches!(flow, Flow::Failed(m) if m == "Division by zero"));
}

#[test]
fn char_and_string_methods() {
    let (out, flow) = run(
        "char initial = 'a'\nCommandLine.OutputLine(initial.ToUpper())\nlet name = \"  Ish Shell  \"\nlet t = name.Trim()\nCommandLine.OutputLine(t)\nCommandLine.OutputLine(t.Length())\nCommandLine.OutputLine(t.Substring(4))\nCommandLine.OutputLine(t.IndexOf(\"Shell\"))\nCommandLine.OutputLine(initial.IsLetter())",
    );
    assert_eq!(out, lines(&["A", "Ish Shell", "9", "Shell", "4", "true"]));
    assert!(matches!(flow, Flow::Normal));
}

#[test]
fn method_on_a_number_fails() {
    let (_, flow) = run("let n = 3\nlet m = n.Length()");
    match flow {
        Flow::Failed(m) => assert_eq!(m, "Cannot call method 'Length' on non-object value '3'."),
        _ => panic!("expected a failure"),
    }
    let (_, flow) = run("char c = 'x'\nlet m = c.Shout()");
    match flow {
        Flow::Failed(m) => assert_eq!(m, "Char has no method 'Shout'"),
        _ => panic!("expected a failure"),
    }
}

#[test]
fn catch_binds_the_error_text() {
    let (out, flow) = run(
        "let x = 1\ntry {\nCommandLine.OutputLine(\"before\")\nx = 10 / 0\nCommandLine.OutputLine(\"after\")\n} catch e {\nCommandLine.OutputLine(e)\n}\nCommandLine.OutputLine(x)",
    );
    assert_eq!(out, lines(&["before", "Execution Error: Division by zero", "1"]));
    assert!(matches!(flow, Flow::Normal));
}

#[test]
fn try_without_error_skips_catch() {
    let (out, flow) = run("try {\nCommandLine.OutputLine(\"ok\")\n} catch {\nCommandLine.OutputLine(err)\n}");
    assert_eq!(out, lines(&["ok"]));
    assert!(matches!(flow, Flow::Normal));
    let (out, flow) = run("try {\nundeclared_name = 3\n} catch {\nCommandLine.OutputLine(err)\n}");
    assert_eq!(
        out,
        lines(&["Execution Error: Variable 'undeclared_name' is not declared. Use 'declare undeclared_name = ...' to declare it."])
    );
    assert!(matches!(flow, Flow::Normal));
}
