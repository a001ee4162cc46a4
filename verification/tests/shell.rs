use ish::runtime::builtins::{builtin, Builtin};
use ish::runtime::math::{math_tokens, parse_math, MathNode};

fn args(xs: &[&str]) -> Vec<String> {
    xs.iter().map(|s| s.to_string()).collect()
}

fn strings(v: &[String]) -> Vec<&str> {
    v.iter().map(|s| s.as_str()).collect()
}

#[test]
fn directory_and_exit_builtins() {
    assert!(matches!(builtin("change", &args(&[])), Builtin::Change(None)));
    assert!(matches!(builtin("change", &args(&["/tmp"])), Builtin::Change(Some(p)) if p == "/tmp"));
    assert!(matches!(builtin("quit", &args(&["3"])), Builtin::Quit(3)));
    assert!(matches!(builtin("quit", &args(&["x"])), Builtin::Quit(0)));
    assert!(matches!(builtin("quit", &args(&[])), Builtin::Quit(0)));
    assert!(matches!(builtin("cwd", &args(&["ignored"])), Builtin::Cwd));
    assert!(matches!(builtin("show", &args(&[])), Builtin::Show(d) if d == "."));
    assert!(matches!(builtin("help", &args(&[])), Builtin::Help));
    assert!(matches!(builtin("ls", &args(&["-l"])), Builtin::NotBuiltin));
}

#[test]
fn declare_reads_assignments() {
    assert!(matches!(builtin("declare", &args(&[])), Builtin::ListVars));
    let got = match builtin("declare", &args(&["A", "=", "1", "B==", "2", "C", "=3", "D=4=5", "E"])) {
        Builtin::SetVars(v) => v,
        _ => panic!("expected assignments"),
    };
    let pairs: Vec<(&str, &str)> = got.iter().map(|(a, b)| (a.as_str(), b.as_str())).collect();
    assert_eq!(pairs, vec![("A", "1"), ("B", "2"), ("C", "3"), ("D", "4=5"), ("E", "")]);
}

#[test]
fn text_and_file_builtins() {
    assert!(matches!(builtin("out", &args(&["a", "b"])), Builtin::Out(t) if t == "a b\n"));
    assert!(matches!(builtin("out", &args(&[])), Builtin::Out(t) if t == "\n"));
    assert!(matches!(builtin("read", &args(&[])), Builtin::Fails(m) if m == "read error: expected file path"));
    assert!(matches!(builtin("read", &args(&["f", "g"])), Builtin::Read(v) if strings(&v) == vec!["f", "g"]));
    assert!(matches!(builtin("create", &args(&[])), Builtin::Fails(m) if m == "create error: expected path"));
    assert!(matches!(
        builtin("create", &args(&["-d"])),
        Builtin::Fails(m) if m == "create error: expected path after flags"
    ));
    assert!(matches!(
        builtin("create", &args(&["-d", "x", "-f", "y"])),
        Builtin::Create(false, v) if strings(&v) == vec!["x", "y"]
    ));
    assert!(matches!(builtin("create", &args(&["-d", "x"])), Builtin::Create(true, v) if strings(&v) == vec!["x"]));
    assert!(matches!(builtin("irm", &args(&[])), Builtin::Fails(m) if m == "irm error: expected path"));
    assert!(matches!(builtin("irm", &args(&["-r", "a"])), Builtin::Remove(true, v) if strings(&v) == vec!["a"]));
    assert!(matches!(builtin("irm", &args(&["a"])), Builtin::Remove(false, v) if strings(&v) == vec!["a"]));
    assert!(matches!(builtin("input", &args(&["Name", "?"])), Builtin::Input(Some(p)) if p == "Name ?"));
    assert!(matches!(builtin("inputkey", &args(&[])), Builtin::InputKey(None)));
    assert!(matches!(builtin("expr", &args(&["1", "+", "2"])), Builtin::Expr(e) if e == "1 + 2"));
    assert!(matches!(builtin("expr", &args(&[])), Builtin::Fails(m) if m == "expr error: missing expression"));
}

fn eval(n: &MathNode, tokens: &[String]) -> f64 {
    match n {
        MathNode::Num(i) => tokens[*i].parse::<f64>().unwrap(),
        MathNode::Op(c, l, r) => {
            let (a, b) = (eval(l, tokens), eval(r, tokens));
            match c {
                '+' => a + b,
                '-' => a - b,
                '*' => a * b,
                _ => a / b,
            }
        }
    }
}

fn calc(expr: &str) -> Result<f64, String> {
    let tokens = math_tokens(expr);
    let ok: Vec<bool> = tokens.iter().map(|t| t.parse::<f64>().is_ok()).collect();
    parse_math(&tokens, &ok).map(|n| eval(&n, &tokens))
}

#[test]
fn arithmetic_tokens() {
    assert_eq!(math_tokens("12 + (3*4)"), args(&["12", "+", "(", "3", "*", "4", ")"]));
    assert_eq!(math_tokens("1 2"), args(&["12"]));
    assert_eq!(math_tokens(""), args(&[]));
}

#[test]
fn arithmetic_expressions() {
    assert_eq!(calc("1+2*3"), Ok(7.0));
    assert_eq!(calc("(1+2)*3"), Ok(9.0));
    assert_eq!(calc("8/2/2"), Ok(2.0));
    assert_eq!(calc("1-2-3"), Ok(-4.0));
    assert_eq!(calc("2.5*2"), Ok(5.0));
    assert_eq!(calc("1+"), Err("Unexpected end of expression".to_string()));
    assert_eq!(calc("(1+2"), Err("Missing closing parenthesis".to_string()));
    assert_eq!(calc("1 x"), Err("Invalid number: 1x".to_string()));
    assert_eq!(calc("1)"), Err("Unexpected token at end: )".to_string()));
}
