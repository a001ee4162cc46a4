use ish::error::IshError;
use ish::runtime::expand::{expansion_pieces, index_key, indexed_value, IndexKey, Piece};
use ish::runtime::gobbler::{Gobbler, HeapObject};
use ish::runtime::scope::Scopes;
use ish::runtime::value::IshValue;

fn scopes_with(names: &[&str]) -> Scopes {
    let mut s = Scopes::new();
    for n in names {
        s.declare(n.to_string(), IshValue::Int(1));
    }
    s
}

fn text_of(ps: &[Piece]) -> String {
    ps.iter()
        .map(|p| match p {
            Piece::Text(t) => t.clone(),
            Piece::Math(t) => format!("<math {}>", t),
            Piece::Subshell(t) => format!("<sub {}>", t),
            Piece::ExitCode => "<exit>".to_string(),
            Piece::ProcessId => "<pid>".to_string(),
            Piece::LastJob => "<job>".to_string(),
            Piece::Scoped(n, None) => format!("<var {}>", n),
            Piece::Scoped(n, Some(i)) => format!("<var {}[{}]>", n, i),
            Piece::Environment(n) => format!("<env {}>", n),
        })
        .collect()
}

#[test]
fn plain_text_and_specials() {
    let s = scopes_with(&[]);
    let ps = expansion_pieces("a $? $LAST $$ $! $0 $", &s).unwrap();
    assert_eq!(text_of(&ps), "a <exit> <exit> <pid> <job> ish $");
}

#[test]
fn variables_in_scope_and_environment() {
    let s = scopes_with(&["name", "items"]);
    let ps = expansion_pieces("hi $name, $items[ 2 ] and $HOME[x]", &s).unwrap();
    assert_eq!(text_of(&ps), "hi <var name>, <var items[ 2 ]> and <env HOME>[x]");
    let open = expansion_pieces("$items[0", &s).unwrap();
    assert_eq!(text_of(&open), "<var items[0]>");
}

#[test]
fn math_and_subshell() {
    let s = scopes_with(&[]);
    let ps = expansion_pieces("x=$((1 + (2 * 3))) y=$(ls (a)) z", &s).unwrap();
    assert_eq!(text_of(&ps), "x=<math 1 + (2 * 3)> y=<sub ls (a)> z");
    assert_eq!(
        expansion_pieces("$((1 + 2", &s).err(),
        Some(IshError::ParseError("Unclosed math expansion `$((`".to_string()))
    );
    assert_eq!(
        expansion_pieces("$(ls", &s).err(),
        Some(IshError::ParseError("Unclosed subshell `$(`".to_string()))
    );
}

#[test]
fn index_keys() {
    let k = |t: &str| index_key(&t.to_string());
    assert!(matches!(k(" \"name\" "), Ok(IndexKey::Key(x)) if x == "name"));
    assert!(matches!(k("'a b'"), Ok(IndexKey::Key(x)) if x == "a b"));
    assert!(matches!(k(" 12 "), Ok(IndexKey::Key(x)) if x == "12"));
    assert!(matches!(k("$i"), Ok(IndexKey::Variable(x)) if x == "$i"));
    assert_eq!(
        k(" key ").err(),
        Some(IshError::ExecutionError(
            "Map/Array index must be in quotes, a number, or a variable. Found: [ key ]".to_string()
        ))
    );
}

#[test]
fn indexed_values() {
    let mut heap = Gobbler::new();
    let arr = heap.allocate(HeapObject::Array(vec![IshValue::Int(7), IshValue::Int(8)]));
    let map = heap.allocate(HeapObject::Dict(vec![("k".to_string(), IshValue::Bool(true))]));
    let a = IshValue::Reference(arr);
    let m = IshValue::Reference(map);
    assert_eq!(indexed_value(&heap, &a, &"1".to_string()), IshValue::Int(8));
    assert_eq!(indexed_value(&heap, &a, &"5".to_string()), a);
    assert_eq!(indexed_value(&heap, &m, &"k".to_string()), IshValue::Bool(true));
    assert_eq!(indexed_value(&heap, &m, &"z".to_string()), m);
    assert_eq!(indexed_value(&heap, &IshValue::Int(3), &"0".to_string()), IshValue::Int(3));
}
