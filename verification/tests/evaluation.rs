use ish::error::IshError;
use ish::lang::ast::{AccessSpecifier, AstNode, AstNodeKind, Param};
use ish::lang::registry::Registry;
use ish::runtime::assign::{assign_index, assign_variable};
use ish::runtime::calls::{bind_arguments, implicit_receiver, list_method, new_kind, Binding, NewKind};
use ish::runtime::control::{finalizer, loop_items, values_equal};
use ish::runtime::str_lib::IshStr;
use ish::runtime::strings::{char_method, string_method, substring_underflows, type_method};
use ish::runtime::functions::Functions;
use ish::runtime::gobbler::{Gobbler, HeapObject};
use ish::runtime::lookup::{property_value, variable_value};
use ish::runtime::ops::{
    binary_op, condition_holds, int_string, literal_value, overflows, parse_int, selects_first, show,
    unary_op, value_text,
};
use ish::runtime::scope::{entry_get, Scopes};
use ish::runtime::value::IshValue;

fn text(x: &str) -> IshValue {
    IshValue::String(x.to_string())
}

fn failure(m: &str) -> IshError {
    IshError::ExecutionError(m.to_string())
}

fn field(name: &str, access: AccessSpecifier, is_static: bool) -> AstNode {
    AstNode::new(
        AstNodeKind::FieldDecl {
            name: name.to_string(),
            type_specifier: Some("int".to_string()),
            access,
            is_static,
            default_value: None,
        },
        1,
        1,
    )
}

/// A class `Counter` (public static `total`, private `hidden`, public `value`) and an enum
/// `Color` (`Red`, `Green`).
fn registry() -> Registry {
    let class = AstNode::new(
        AstNodeKind::ClassDecl {
            name: "Counter".to_string(),
            base_class: None,
            access: AccessSpecifier::Public,
            is_static: false,
            methods: vec![],
            fields: vec![
                field("total", AccessSpecifier::Public, true),
                field("hidden", AccessSpecifier::Private, false),
                field("value", AccessSpecifier::Public, false),
            ],
            constructor: None,
            destructor: None,
        },
        1,
        1,
    );
    let colors = AstNode::new(
        AstNodeKind::EnumDecl {
            name: "Color".to_string(),
            access: AccessSpecifier::Public,
            variants: vec!["Red".to_string(), "Green".to_string()],
        },
        1,
        1,
    );
    let mut r = Registry::new();
    r.register_declarations(&class).unwrap();
    r.register_declarations(&colors).unwrap();
    r
}

fn counter_name(r: &Registry) -> String {
    r.resolve_class("Counter").unwrap().qualified_name.clone()
}

fn counter(props: Vec<(&str, IshValue)>) -> HeapObject {
    HeapObject::Object {
        class_name: "Counter".to_string(),
        properties: props.into_iter().map(|(k, v)| (k.to_string(), v)).collect(),
    }
}

#[test]
fn declared_variables_are_read_back_and_shadowed() {
    let mut s = Scopes::new();
    s.declare("x".to_string(), IshValue::Int(1));
    assert_eq!(s.lookup("x"), Some(IshValue::Int(1)));
    s.push_scope();
    s.declare("x".to_string(), IshValue::Int(2));
    assert_eq!(s.lookup("x"), Some(IshValue::Int(2)));
    let popped = s.pop_scope().unwrap();
    assert_eq!(popped, vec![("x".to_string(), IshValue::Int(2))]);
    assert_eq!(s.lookup("x"), Some(IshValue::Int(1)));
    s.declare("x".to_string(), IshValue::Int(3));
    assert_eq!(s.frames[0], vec![("x".to_string(), IshValue::Int(3))]);
    assert_eq!(s.lookup("y"), None);
}

#[test]
fn a_function_sees_its_own_scopes_and_the_global_one() {
    let mut s = Scopes::new();
    s.declare("g".to_string(), IshValue::Int(1));
    s.push_scope();
    s.declare("b".to_string(), IshValue::Int(2));
    s.enter_function();
    assert_eq!(s.bases, vec![0, 2]);
    s.declare("local".to_string(), IshValue::Bool(true));
    assert_eq!(s.lookup("local"), Some(IshValue::Bool(true)));
    assert_eq!(s.lookup("g"), Some(IshValue::Int(1)));
    assert_eq!(s.lookup("b"), None);
    assert_eq!(s.innermost("b"), Some(IshValue::Int(2)));
    assert!(s.assign("b", IshValue::Int(5)));
    assert!(!s.assign("nowhere", IshValue::Int(5)));
    s.leave_function();
    assert_eq!(s.bases, vec![0]);
    assert_eq!(s.lookup("b"), Some(IshValue::Int(5)));
    assert_eq!(s.lookup("local"), None);
}

#[test]
fn removing_and_finding_this() {
    let mut s = Scopes::new();
    s.declare("t".to_string(), IshValue::Int(1));
    s.remove("t");
    assert_eq!(s.lookup("t"), None);
    assert_eq!(s.this_object(), None);
    s.declare("this".to_string(), IshValue::Reference(4));
    s.push_scope();
    s.declare("this".to_string(), text("not an object"));
    assert_eq!(s.this_object(), Some(4));
    assert_eq!(s.this_anywhere(), Some(4));
    assert_eq!(entry_get(&s.frames[1], "this"), Some(text("not an object")));
}

#[test]
fn integer_arithmetic() {
    assert_eq!(binary_op("+", IshValue::Int(2), IshValue::Int(3)), Some(Ok(IshValue::Int(5))));
    assert_eq!(binary_op("-", IshValue::Int(2), IshValue::Int(3)), Some(Ok(IshValue::Int(-1))));
    assert_eq!(binary_op("*", IshValue::Int(-4), IshValue::Int(3)), Some(Ok(IshValue::Int(-12))));
    assert_eq!(binary_op("/", IshValue::Int(-7), IshValue::Int(2)), Some(Ok(IshValue::Int(-3))));
    assert_eq!(binary_op("%", IshValue::Int(-7), IshValue::Int(2)), Some(Ok(IshValue::Int(-1))));
    assert_eq!(binary_op("%", IshValue::Int(7), IshValue::Int(-2)), Some(Ok(IshValue::Int(1))));
    assert_eq!(binary_op("/", IshValue::Int(1), IshValue::Int(0)), Some(Err(failure("Division by zero"))));
    assert_eq!(binary_op("%", IshValue::Int(1), IshValue::Int(0)), Some(Err(failure("Modulo by zero"))));
    assert!(overflows("+", &IshValue::Int(i32::MAX), &IshValue::Int(1)));
    assert!(overflows("/", &IshValue::Int(i32::MIN), &IshValue::Int(-1)));
    assert!(!overflows("*", &IshValue::Int(1000), &IshValue::Int(1000)));
    assert!(!overflows("+", &text("a"), &IshValue::Int(1)));
}

#[test]
fn adding_writes_values_out() {
    assert_eq!(binary_op("+", text("a"), IshValue::Int(-12)), Some(Ok(text("a-12"))));
    assert_eq!(binary_op("+", IshValue::Bool(true), IshValue::Null), Some(Ok(text("truenull"))));
    assert_eq!(binary_op("+", IshValue::Char('x'), IshValue::Reference(3)), Some(Ok(text("x<Reference 3>"))));
    assert_eq!(
        binary_op("+", IshValue::TypeRef("Math".to_string()), text("!")),
        Some(Ok(text("<Type Math>!")))
    );
    assert_eq!(binary_op("+", text("a"), IshValue::Float(0x3f80_0000)), None);
    assert_eq!(binary_op("-", text("a"), IshValue::Int(1)), Some(Err(failure("Cannot subtract these types"))));
    assert_eq!(binary_op("*", text("a"), IshValue::Int(1)), Some(Err(failure("Cannot multiply these types"))));
    assert_eq!(binary_op("/", text("a"), IshValue::Int(1)), Some(Err(failure("Cannot divide these types"))));
    assert_eq!(binary_op("%", IshValue::Null, IshValue::Int(1)), Some(Err(failure("Cannot modulo these types"))));
    assert_eq!(binary_op("-", IshValue::Float(0x3f80_0000), IshValue::Int(1)), None);
    assert_eq!(binary_op("-", IshValue::Float(0x3f80_0000), text("a")), Some(Err(failure("Cannot subtract these types"))));
}

#[test]
fn logic_and_comparison() {
    assert_eq!(binary_op("&&", IshValue::Bool(true), IshValue::Int(0)), Some(Ok(IshValue::Bool(true))));
    assert_eq!(binary_op("&&", IshValue::Bool(false), IshValue::Int(0)), Some(Ok(IshValue::Bool(false))));
    assert_eq!(binary_op("||", IshValue::Bool(false), IshValue::Bool(false)), Some(Ok(IshValue::Bool(false))));
    assert_eq!(binary_op("<", IshValue::Int(1), IshValue::Int(2)), Some(Ok(IshValue::Bool(true))));
    assert_eq!(binary_op(">=", IshValue::Int(1), IshValue::Int(2)), Some(Ok(IshValue::Bool(false))));
    assert_eq!(binary_op("??", IshValue::Int(1), IshValue::Int(1)), Some(Ok(IshValue::Bool(false))));
    assert_eq!(binary_op("==", text("a"), text("a")), Some(Ok(IshValue::Bool(true))));
    assert_eq!(binary_op("!=", text("a"), IshValue::Int(1)), Some(Ok(IshValue::Bool(true))));
    assert_eq!(binary_op("<", text("a"), text("b")), Some(Ok(IshValue::Bool(false))));
    assert_eq!(binary_op("==", IshValue::Null, IshValue::Null), Some(Ok(IshValue::Bool(true))));
    // 1.0 < 2.0, -1.0 < 1.0, -0.0 == 0.0, NaN != NaN
    assert_eq!(binary_op("<", IshValue::Float(0x3f80_0000), IshValue::Float(0x4000_0000)), Some(Ok(IshValue::Bool(true))));
    assert_eq!(binary_op("<", IshValue::Float(0xbf80_0000), IshValue::Float(0x3f80_0000)), Some(Ok(IshValue::Bool(true))));
    assert_eq!(binary_op("==", IshValue::Float(0x8000_0000), IshValue::Float(0)), Some(Ok(IshValue::Bool(true))));
    assert_eq!(binary_op("==", IshValue::Float(0x7fc0_0000), IshValue::Float(0x7fc0_0000)), Some(Ok(IshValue::Bool(false))));
    assert_eq!(binary_op("!=", IshValue::Float(0x7fc0_0000), IshValue::Float(0x7fc0_0000)), Some(Ok(IshValue::Bool(true))));
    assert_eq!(binary_op("<", IshValue::Int(1), IshValue::Float(0x4000_0000)), None);
    assert_eq!(binary_op("??", IshValue::Int(1), IshValue::Float(0x4000_0000)), Some(Ok(IshValue::Bool(false))));
}

#[test]
fn unary_operators() {
    assert_eq!(unary_op("!", IshValue::Bool(true)), Ok(IshValue::Bool(false)));
    assert_eq!(unary_op("!", IshValue::Int(0)), Ok(IshValue::Bool(false)));
    assert_eq!(unary_op("-", IshValue::Int(5)), Ok(IshValue::Int(-5)));
    assert_eq!(unary_op("-", IshValue::Float(0x3f80_0000)), Ok(IshValue::Float(0xbf80_0000)));
    assert_eq!(unary_op("-", text("x")), Err(failure("Cannot negate non-numeric type")));
    assert_eq!(unary_op("~", IshValue::Int(1)), Err(failure("Unknown unary operator: ~")));
}

#[test]
fn conditions() {
    assert!(!condition_holds(&text("false")));
    assert!(!condition_holds(&text("null")));
    assert!(!condition_holds(&text("")));
    assert!(condition_holds(&text("no")));
    assert!(!condition_holds(&IshValue::Int(0)));
    assert!(condition_holds(&IshValue::Int(-1)));
    assert!(!condition_holds(&IshValue::Float(0x8000_0000)));
    assert!(condition_holds(&IshValue::Float(0x7fc0_0000)));
    assert!(!condition_holds(&IshValue::Null));
    assert!(condition_holds(&IshValue::Reference(1)));
    assert!(selects_first(&IshValue::Int(0)));
    assert!(!selects_first(&IshValue::Null));
    assert!(!selects_first(&IshValue::Bool(false)));
}

#[test]
fn words_as_values() {
    assert_eq!(parse_int(&"-2147483648".chars().collect()), Some(i32::MIN));
    assert_eq!(parse_int(&"2147483648".chars().collect()), None);
    assert_eq!(parse_int(&"+0012".chars().collect()), Some(12));
    assert_eq!(parse_int(&"-".chars().collect()), None);
    assert_eq!(parse_int(&"1a".chars().collect()), None);
    assert_eq!(literal_value("42".to_string(), Some(0x4228_0000)), IshValue::Int(42));
    assert_eq!(literal_value("3.5".to_string(), Some(0x4060_0000)), IshValue::Float(0x4060_0000));
    assert_eq!(literal_value("true".to_string(), None), IshValue::Bool(true));
    assert_eq!(literal_value("false".to_string(), None), IshValue::Bool(false));
    assert_eq!(literal_value("null".to_string(), None), IshValue::Null);
    assert_eq!(literal_value("hello".to_string(), None), text("hello"));
    assert_eq!(int_string(-305), "-305");
    assert_eq!(show(&IshValue::Reference(12)), "<Reference 12>");
}

#[test]
fn values_written_for_the_user() {
    let mut g = Gobbler::new();
    let ints = g.allocate(HeapObject::List(vec![IshValue::Int(1)]));
    let empty = g.allocate(HeapObject::Array(vec![]));
    let map = g.allocate(HeapObject::Dict(vec![]));
    let obj = g.allocate(counter(vec![]));
    assert_eq!(value_text(&g, &IshValue::Reference(ints)), Some("int[]".to_string()));
    assert_eq!(value_text(&g, &IshValue::Reference(empty)), Some("object[]".to_string()));
    assert_eq!(value_text(&g, &IshValue::Reference(map)), Some("Map".to_string()));
    assert_eq!(value_text(&g, &IshValue::Reference(obj)), Some("Counter".to_string()));
    assert_eq!(value_text(&g, &IshValue::Reference(99)), Some("null".to_string()));
    assert_eq!(value_text(&g, &IshValue::Int(-3)), Some("-3".to_string()));
    assert_eq!(value_text(&g, &IshValue::Float(0)), None);
}

#[test]
fn reading_variables() {
    let r = registry();
    let qn = counter_name(&r);
    let mut g = Gobbler::new();
    let me = g.allocate(counter(vec![("value", IshValue::Int(9))]));
    let mut s = Scopes::new();
    s.declare("x".to_string(), IshValue::Int(1));
    s.declare("this".to_string(), IshValue::Reference(me));
    let statics = vec![(format!("{}::total", qn), IshValue::Int(4)), ("Other::count".to_string(), IshValue::Int(8))];
    assert_eq!(variable_value(&r, &s, &statics, &g, None, "___implicit___"), Ok(text("___implicit___")));
    assert_eq!(variable_value(&r, &s, &statics, &g, None, "Counter"), Ok(IshValue::TypeRef("Counter".to_string())));
    assert_eq!(variable_value(&r, &s, &statics, &g, None, "Math"), Ok(IshValue::TypeRef("Math".to_string())));
    assert_eq!(variable_value(&r, &s, &statics, &g, None, "x"), Ok(IshValue::Int(1)));
    assert_eq!(variable_value(&r, &s, &statics, &g, Some("Counter"), "total"), Ok(IshValue::Int(4)));
    assert_eq!(variable_value(&r, &s, &statics, &g, Some("Counter"), "value"), Ok(IshValue::Int(9)));
    assert_eq!(variable_value(&r, &s, &statics, &g, Some("Counter"), "hidden"), Ok(IshValue::Null));
    assert_eq!(variable_value(&r, &s, &statics, &g, None, "Other::count"), Ok(IshValue::Int(8)));
    assert_eq!(
        variable_value(&r, &s, &statics, &g, None, "total"),
        Err(failure("Variable 'total' is not defined in this scope"))
    );
}

#[test]
fn reading_properties() {
    let r = registry();
    let qn = counter_name(&r);
    let mut g = Gobbler::new();
    let obj = g.allocate(counter(vec![("value", IshValue::Int(9)), ("hidden", IshValue::Int(1))]));
    let list = g.allocate(HeapObject::List(vec![IshValue::Int(1), IshValue::Int(2)]));
    let map = g.allocate(HeapObject::Dict(vec![("k".to_string(), IshValue::Bool(true))]));
    let statics = vec![(format!("{}::total", qn), IshValue::Int(4))];
    let read = |obj: &IshValue, prop: &str, cur: Option<&str>| property_value(&r, &statics, &g, cur, obj, prop);
    assert_eq!(read(&IshValue::TypeRef("string".to_string()), "Empty", None), Some(Ok(text(""))));
    assert_eq!(read(&text("Color"), "Green", None), Some(Ok(IshValue::Int(1))));
    assert_eq!(read(&text("Color"), "Blue", None), Some(Err(failure("Enum Color does not have variant Blue"))));
    assert_eq!(read(&text("Counter"), "total", None), Some(Ok(IshValue::Int(4))));
    assert_eq!(
        read(&text("Counter"), "value", None),
        Some(Err(failure("Cannot access instance field 'value' of 'Counter' statically")))
    );
    assert_eq!(read(&IshValue::Reference(obj), "value", None), Some(Ok(IshValue::Int(9))));
    assert_eq!(
        read(&IshValue::Reference(obj), "hidden", None),
        Some(Err(failure(&format!("Cannot access private member of '{}' from outside its class.", qn))))
    );
    assert_eq!(read(&IshValue::Reference(obj), "hidden", Some(qn.as_str())), Some(Ok(IshValue::Int(1))));
    assert_eq!(read(&IshValue::Reference(obj), "other", None), Some(Ok(IshValue::Null)));
    assert_eq!(read(&IshValue::Reference(list), "Length", None), Some(Ok(IshValue::Int(2))));
    assert_eq!(read(&IshValue::Reference(map), "Count", None), Some(Ok(IshValue::Int(1))));
    assert_eq!(read(&IshValue::Reference(map), "k", None), Some(Ok(IshValue::Bool(true))));
    assert_eq!(
        read(&IshValue::Int(5), "x", None),
        Some(Err(failure("Cannot access property 'x' on non-object value '5'.")))
    );
    assert_eq!(read(&IshValue::Float(0), "x", None), None);
}

#[test]
fn assigning_variables_and_properties() {
    let r = registry();
    let qn = counter_name(&r);
    let mut g = Gobbler::new();
    let obj = g.allocate(counter(vec![("value", IshValue::Int(9))]));
    let map = g.allocate(HeapObject::Dict(vec![]));
    let mut s = Scopes::new();
    s.declare("x".to_string(), IshValue::Int(1));
    s.declare("m".to_string(), IshValue::Reference(map));
    s.declare("c".to_string(), IshValue::Reference(obj));
    s.declare("n".to_string(), IshValue::Int(0));
    let mut statics = vec![(format!("{}::total", qn), IshValue::Int(0))];
    assert_eq!(assign_variable(&r, &mut s, &mut statics, &mut g, None, "x", IshValue::Int(2)), Ok(()));
    assert_eq!(s.lookup("x"), Some(IshValue::Int(2)));
    assert_eq!(assign_variable(&r, &mut s, &mut statics, &mut g, None, "m.k", text("v")), Ok(()));
    assert_eq!(g.get(map), Some(&HeapObject::Dict(vec![("k".to_string(), text("v"))])));
    assert_eq!(assign_variable(&r, &mut s, &mut statics, &mut g, None, "c.value", IshValue::Int(3)), Ok(()));
    assert_eq!(g.get(obj), Some(&counter(vec![("value", IshValue::Int(3))])));
    assert_eq!(
        assign_variable(&r, &mut s, &mut statics, &mut g, None, "c.hidden", IshValue::Int(3)),
        Err(failure(&format!("Cannot access private member of '{}' from outside its class.", qn)))
    );
    assert_eq!(assign_variable(&r, &mut s, &mut statics, &mut g, None, "Counter.total", IshValue::Int(7)), Ok(()));
    assert_eq!(statics, vec![(format!("{}::total", qn), IshValue::Int(7))]);
    assert_eq!(
        assign_variable(&r, &mut s, &mut statics, &mut g, None, "n.x", IshValue::Int(1)),
        Err(failure("Object or class 'n' not found"))
    );
    assert_eq!(
        assign_variable(&r, &mut s, &mut statics, &mut g, None, "y", IshValue::Int(1)),
        Err(failure("Variable 'y' is not declared. Use 'declare y = ...' to declare it."))
    );
    s.declare("this".to_string(), IshValue::Reference(obj));
    assert_eq!(assign_variable(&r, &mut s, &mut statics, &mut g, Some(qn.as_str()), "hidden", IshValue::Int(5)), Ok(()));
    assert_eq!(g.get(obj), Some(&counter(vec![("value", IshValue::Int(3)), ("hidden", IshValue::Int(5))])));
    assert_eq!(assign_variable(&r, &mut s, &mut statics, &mut g, Some(qn.as_str()), "total", IshValue::Int(1)), Ok(()));
    assert_eq!(entry_get(&statics, &format!("{}::total", qn)), Some(IshValue::Int(1)));
}

#[test]
fn assigning_elements() {
    let mut g = Gobbler::new();
    let list = g.allocate(HeapObject::List(vec![IshValue::Int(1), IshValue::Int(2)]));
    let array = g.allocate(HeapObject::Array(vec![IshValue::Int(1)]));
    let map = g.allocate(HeapObject::Dict(vec![]));
    let mut s = Scopes::new();
    s.declare("l".to_string(), IshValue::Reference(list));
    s.declare("a".to_string(), IshValue::Reference(array));
    s.declare("m".to_string(), IshValue::Reference(map));
    s.declare("i".to_string(), IshValue::Int(3));
    let key = String::new();
    assert_eq!(assign_index(&s, &mut g, "l", &IshValue::Int(1), key.clone(), text("b")), Ok(()));
    assert_eq!(g.get(list), Some(&HeapObject::List(vec![IshValue::Int(1), text("b")])));
    assert_eq!(assign_index(&s, &mut g, "l", &IshValue::Int(2), key.clone(), text("b")), Err(failure("Index out of bounds")));
    assert_eq!(assign_index(&s, &mut g, "l", &text("0"), key.clone(), text("b")), Err(failure("List index must be an integer")));
    assert_eq!(
        assign_index(&s, &mut g, "a", &IshValue::Int(0), key.clone(), text("b")),
        Err(failure("Array is immutable. Use List for mutable ordered collections."))
    );
    assert_eq!(assign_index(&s, &mut g, "m", &IshValue::Int(7), show(&IshValue::Int(7)), IshValue::Null), Ok(()));
    assert_eq!(g.get(map), Some(&HeapObject::Dict(vec![("7".to_string(), IshValue::Null)])));
    assert_eq!(assign_index(&s, &mut g, "i", &IshValue::Int(0), key.clone(), text("b")), Err(failure("Variable is not indexable")));
    assert_eq!(assign_index(&s, &mut g, "q", &IshValue::Int(0), key, text("b")), Err(failure("Variable q not found")));
}

fn function(name: &str, params: Vec<&str>, body: Vec<AstNode>) -> AstNode {
    AstNode::new(
        AstNodeKind::Function {
            name: name.to_string(),
            params: params
                .into_iter()
                .map(|p| Param {
                    name: p.to_string(),
                    type_specifier: None,
                    is_array: false,
                    is_variadic: false,
                    default_value: None,
                })
                .collect(),
            body,
            access: AccessSpecifier::Public,
            is_static: false,
        },
        1,
        1,
    )
}

fn say(word: &str) -> AstNode {
    AstNode::new(AstNodeKind::StringLiteral(word.to_string()), 2, 1)
}

#[test]
fn switch_equality() {
    assert!(values_equal(&IshValue::Int(3), &IshValue::Int(3)));
    assert!(!values_equal(&IshValue::Int(3), &IshValue::Float(0x4040_0000)));
    assert!(values_equal(&IshValue::Float(0x8000_0000), &IshValue::Float(0)));
    assert!(!values_equal(&IshValue::Float(0x7fc0_0000), &IshValue::Float(0x7fc0_0000)));
    assert!(values_equal(&text("a"), &text("a")));
    assert!(!values_equal(&text("a"), &IshValue::Char('a')));
    assert!(values_equal(&IshValue::Null, &IshValue::Null));
}

#[test]
fn loop_items_of_each_kind() {
    let mut g = Gobbler::new();
    let list = g.allocate(HeapObject::List(vec![IshValue::Int(1), IshValue::Int(2)]));
    let map = g.allocate(HeapObject::Dict(vec![
        ("a".to_string(), IshValue::Int(1)),
        ("b".to_string(), IshValue::Bool(false)),
    ]));
    let empty = g.allocate(HeapObject::Dict(vec![]));
    let obj = g.allocate(counter(vec![]));
    assert_eq!(loop_items(&mut g, &IshValue::Reference(list)), vec![IshValue::Int(1), IshValue::Int(2)]);
    assert_eq!(loop_items(&mut g, &text("ab")), vec![IshValue::Char('a'), IshValue::Char('b')]);
    assert_eq!(loop_items(&mut g, &IshValue::Int(5)), vec![IshValue::Int(5)]);
    assert_eq!(loop_items(&mut g, &IshValue::Reference(obj)), vec![IshValue::Reference(obj)]);
    assert_eq!(loop_items(&mut g, &IshValue::Reference(99)), vec![IshValue::Reference(99)]);
    assert_eq!(loop_items(&mut g, &IshValue::Reference(empty)), vec![]);
    let next = g.next_id;
    let pairs = loop_items(&mut g, &IshValue::Reference(map));
    assert_eq!(pairs, vec![IshValue::Reference(next), IshValue::Reference(next + 1)]);
    let pair = |k: &str, v: IshValue| HeapObject::Object {
        class_name: "Pair".to_string(),
        properties: vec![("Key".to_string(), text(k)), ("Value".to_string(), v)],
    };
    assert_eq!(g.get(next), Some(&pair("a", IshValue::Int(1))));
    assert_eq!(g.get(next + 1), Some(&pair("b", IshValue::Bool(false))));
}

#[test]
fn destructors_of_swept_instances() {
    let class = AstNode::new(
        AstNodeKind::ClassDecl {
            name: "Handle".to_string(),
            base_class: None,
            access: AccessSpecifier::Public,
            is_static: false,
            methods: vec![],
            fields: vec![],
            constructor: None,
            destructor: Some(vec![say("bye")]),
        },
        1,
        1,
    );
    let mut r = registry();
    r.register_declarations(&class).unwrap();
    let (qn, body) = finalizer(&r, "Handle");
    assert_eq!(qn, r.resolve_class("Handle").unwrap().qualified_name);
    assert_eq!(body, Some(vec![say("bye")]));
    assert_eq!(finalizer(&r, "Counter"), (counter_name(&r), None));
    assert_eq!(finalizer(&r, "Pair").0, "Pair");
    assert_eq!(finalizer(&r, "Ghost"), ("Ghost".to_string(), None));
}

#[test]
fn static_fields_to_initialize() {
    let r = registry();
    assert_eq!(r.static_fields(), vec![(format!("{}::total", counter_name(&r)), None)]);
    let with_default = AstNode::new(
        AstNodeKind::FieldDecl {
            name: "start".to_string(),
            type_specifier: None,
            access: AccessSpecifier::Public,
            is_static: true,
            default_value: Some(Box::new(say("5"))),
        },
        1,
        1,
    );
    let class = AstNode::new(
        AstNodeKind::ClassDecl {
            name: "Clock".to_string(),
            base_class: None,
            access: AccessSpecifier::Public,
            is_static: false,
            methods: vec![],
            fields: vec![with_default],
            constructor: None,
            destructor: None,
        },
        1,
        1,
    );
    let mut r2 = Registry::new();
    r2.register_declarations(&class).unwrap();
    let qn = r2.resolve_class("Clock").unwrap().qualified_name.clone();
    assert_eq!(r2.static_fields(), vec![(format!("{}::start", qn), Some(say("5")))]);
}

#[test]
fn functions_defined_and_called() {
    let mut f = Functions::new();
    let r = registry();
    assert!(f.resolve_callable(&r, None, "greet").is_none());
    f.define("greet".to_string(), function("greet", vec!["who"], vec![say("hi")]));
    let (params, body) = f.resolve_callable(&r, None, "greet").unwrap();
    assert_eq!(params.len(), 1);
    assert_eq!(params[0].name, "who");
    assert_eq!(body, vec![say("hi")]);
    f.define("greet".to_string(), function("greet", vec![], vec![]));
    assert_eq!(f.entries.len(), 1);
    assert!(f.resolve_callable(&r, None, "greet").unwrap().0.is_empty());
    f.define("note".to_string(), say("not a function"));
    assert!(f.resolve_callable(&r, None, "note").is_none());
    f.define_methods("Counter", &vec![function("Tick", vec![], vec![say("t")]), say("skip")]);
    assert_eq!(f.entries.len(), 3);
    assert_eq!(f.entries[2].0, "Counter::Tick");
    let class = AstNode::new(
        AstNodeKind::ClassDecl {
            name: "Robot".to_string(),
            base_class: None,
            access: AccessSpecifier::Public,
            is_static: false,
            methods: vec![function("Walk", vec!["steps"], vec![say("w")])],
            fields: vec![],
            constructor: None,
            destructor: None,
        },
        1,
        1,
    );
    let mut r2 = Registry::new();
    r2.register_declarations(&class).unwrap();
    let (params, body) = f.resolve_callable(&r2, Some("Robot"), "Walk").unwrap();
    assert_eq!(params[0].name, "steps");
    assert_eq!(body, vec![say("w")]);
    assert!(f.resolve_callable(&r2, None, "Walk").is_none());
}

fn param(name: &str, variadic: bool, default: Option<AstNode>) -> Param {
    Param {
        name: name.to_string(),
        type_specifier: None,
        is_array: false,
        is_variadic: variadic,
        default_value: default.map(Box::new),
    }
}

fn names_and_bindings(bs: Vec<(String, Binding)>) -> Vec<(String, String)> {
    bs.into_iter()
        .map(|(n, b)| {
            let d = match b {
                Binding::Value(v) => format!("value {:?}", v),
                Binding::Rest(v) => format!("rest {:?}", v),
                Binding::Default => "default".to_string(),
                Binding::Missing => "missing".to_string(),
            };
            (n, d)
        })
        .collect()
}

#[test]
fn arguments_bound_to_parameters() {
    let params = vec![param("a", false, None), param("b", false, Some(say("2"))), param("c", false, None)];
    let got = names_and_bindings(bind_arguments(&params, &vec![IshValue::Int(1)]));
    assert_eq!(
        got,
        vec![
            ("a".to_string(), format!("value {:?}", IshValue::Int(1))),
            ("b".to_string(), "default".to_string()),
            ("c".to_string(), "missing".to_string()),
        ]
    );
    let variadic = vec![param("first", false, None), param("rest", true, None), param("after", false, None)];
    let got = names_and_bindings(bind_arguments(&variadic, &vec![IshValue::Int(1), IshValue::Int(2), IshValue::Int(3)]));
    assert_eq!(
        got,
        vec![
            ("first".to_string(), format!("value {:?}", IshValue::Int(1))),
            ("rest".to_string(), format!("rest {:?}", vec![IshValue::Int(2), IshValue::Int(3)])),
            ("after".to_string(), "missing".to_string()),
        ]
    );
    assert!(bind_arguments(&vec![], &vec![IshValue::Int(1)]).is_empty());
}

#[test]
fn what_new_makes() {
    let r = registry();
    assert!(matches!(new_kind(&r, None, "List<int>", true), Ok(NewKind::List)));
    assert!(matches!(new_kind(&r, None, "Map", false), Ok(NewKind::Dict)));
    assert!(matches!(new_kind(&r, None, "Counter", false), Ok(NewKind::Class)));
    assert!(matches!(new_kind(&r, None, "Pair", false), Ok(NewKind::Struct)));
    assert_eq!(
        new_kind(&r, None, "Counter", true).err(),
        Some(failure("Initializer blocks are not supported for class/struct 'Counter'"))
    );
    assert_eq!(new_kind(&r, None, "Nope", false).err(), Some(failure("Class or Struct 'Nope' is not defined.")));
    let lone = AstNode::new(
        AstNodeKind::ClassDecl {
            name: "Util".to_string(),
            base_class: None,
            access: AccessSpecifier::Public,
            is_static: true,
            methods: vec![],
            fields: vec![],
            constructor: None,
            destructor: None,
        },
        1,
        1,
    );
    let mut r2 = Registry::new();
    r2.register_declarations(&lone).unwrap();
    assert_eq!(new_kind(&r2, None, "Util", false).err(), Some(failure("Cannot instantiate static class 'Util'.")));
}

#[test]
fn list_methods() {
    let mut g = Gobbler::new();
    let l = g.allocate(HeapObject::List(vec![IshValue::Int(1)]));
    assert_eq!(list_method(&mut g, l, "add", &vec![IshValue::Int(2)]), Ok(()));
    assert_eq!(g.get(l), Some(&HeapObject::List(vec![IshValue::Int(1), IshValue::Int(2)])));
    assert_eq!(list_method(&mut g, l, "remove", &vec![IshValue::Int(0)]), Ok(()));
    assert_eq!(g.get(l), Some(&HeapObject::List(vec![IshValue::Int(2)])));
    assert_eq!(list_method(&mut g, l, "remove", &vec![IshValue::Int(5)]), Ok(()));
    assert_eq!(g.get(l), Some(&HeapObject::List(vec![IshValue::Int(2)])));
    assert_eq!(list_method(&mut g, l, "clear", &vec![]), Ok(()));
    assert_eq!(g.get(l), Some(&HeapObject::List(vec![])));
    assert_eq!(list_method(&mut g, l, "sort", &vec![]), Err(failure("List has no method 'sort'")));
}

#[test]
fn receivers_of_implicit_calls() {
    let mut s = Scopes::new();
    assert_eq!(implicit_receiver(&s, Some("Tool"), "Run"), Ok(text("Tool")));
    assert_eq!(implicit_receiver(&s, None, "Run"), Err(failure("Implicit method call 'Run' outside of class.")));
    s.declare("this".to_string(), IshValue::Reference(3));
    s.enter_function();
    assert_eq!(implicit_receiver(&s, None, "Run"), Ok(IshValue::Reference(3)));
}

#[test]
fn string_methods() {
    let s = "Hello, World".to_string();
    let call = |m: &str, args: Vec<IshValue>| string_method(&s, m, &args);
    assert_eq!(call("Substring", vec![IshValue::Int(7)]), Some(text("World")));
    assert_eq!(call("Substring", vec![IshValue::Int(0), IshValue::Int(5)]), Some(text("Hello")));
    assert_eq!(call("Substring", vec![IshValue::Int(7), IshValue::Int(100)]), Some(text("World")));
    assert_eq!(call("Substring", vec![IshValue::Int(-1), IshValue::Int(2)]), Some(text("")));
    assert_eq!(call("Substring", vec![]), Some(text("Hello, World")));
    assert!(substring_underflows(&s, &vec![IshValue::Int(20)]));
    assert!(!substring_underflows(&s, &vec![IshValue::Int(20), IshValue::Int(1)]));
    assert_eq!(call("IndexOf", vec![text("o")]), Some(IshValue::Int(4)));
    assert_eq!(call("IndexOf", vec![IshValue::Char('W')]), Some(IshValue::Int(7)));
    assert_eq!(call("IndexOf", vec![text("xyz")]), Some(IshValue::Int(-1)));
    assert_eq!(call("IndexOf", vec![]), Some(IshValue::Int(0)));
    assert_eq!(call("Contains", vec![text("lo, W")]), Some(IshValue::Bool(true)));
    assert_eq!(call("Contains", vec![text("low")]), Some(IshValue::Bool(false)));
    assert_eq!(call("ToLower", vec![]), Some(text("hello, world")));
    assert_eq!(call("ToUpper", vec![]), Some(text("HELLO, WORLD")));
    assert_eq!(call("RemoveSubstring", vec![text("l")]), Some(text("Heo, Word")));
    assert_eq!(call("RemoveSubstring", vec![]), Some(text("Hello, World")));
    assert_eq!(call("Length", vec![]), Some(IshValue::Int(12)));
    assert_eq!(call("Reverse", vec![]), None);
    assert_eq!(string_method(&"  pad \t".to_string(), "Trim", &vec![]), Some(text("pad")));
    assert_eq!(string_method(&"aaa".to_string(), "RemoveSubstring", &vec![text("aa")]), Some(text("a")));
    assert_eq!(string_method(&"héllo".to_string(), "IndexOf", &vec![text("l")]), Some(IshValue::Int(2)));
}

#[test]
fn char_methods() {
    assert_eq!(char_method('a', "IsLetter"), Ok(IshValue::Bool(true)));
    assert_eq!(char_method('é', "IsLetter"), Ok(IshValue::Bool(true)));
    assert_eq!(char_method('7', "IsDigit"), Ok(IshValue::Bool(true)));
    assert_eq!(char_method('٣', "IsDigit"), Ok(IshValue::Bool(false)));
    assert_eq!(char_method(' ', "IsWhiteSpace"), Ok(IshValue::Bool(true)));
    assert_eq!(char_method('_', "IsLetterOrDigit"), Ok(IshValue::Bool(false)));
    assert_eq!(char_method('Q', "ToLower"), Ok(IshValue::Char('q')));
    assert_eq!(char_method('ß', "ToUpper"), Ok(IshValue::Char('S')));
    assert_eq!(char_method('a', "Spin"), Err(failure("Char has no method 'Spin'")));
}

#[test]
fn methods_on_types() {
    let mut g = Gobbler::new();
    let words = g.allocate(HeapObject::List(vec![text("a"), IshValue::Int(2), IshValue::Bool(true)]));
    let map = g.allocate(HeapObject::Dict(vec![]));
    let floats = g.allocate(HeapObject::Array(vec![IshValue::Float(0)]));
    let call = |m: &str, args: Vec<IshValue>| type_method(&g, "string", m, &args);
    assert_eq!(call("IsNullOrWhiteSpace", vec![text(" \n")]), Some(Ok(IshValue::Bool(true))));
    assert_eq!(call("IsNullOrWhiteSpace", vec![IshValue::Null]), Some(Ok(IshValue::Bool(true))));
    assert_eq!(call("IsNullOrWhiteSpace", vec![IshValue::Int(0)]), Some(Ok(IshValue::Bool(false))));
    assert_eq!(call("Join", vec![IshValue::Reference(words), IshValue::Char(',')]), Some(Ok(text("a,2,true"))));
    assert_eq!(call("Join", vec![IshValue::Reference(words)]), Some(Ok(text("a2true"))));
    assert_eq!(call("Join", vec![IshValue::Reference(99)]), Some(Ok(text(""))));
    assert_eq!(
        call("Join", vec![IshValue::Reference(map)]),
        Some(Err(failure("string.Join requires an array or list")))
    );
    assert_eq!(call("Join", vec![text("x")]), Some(Err(failure("string.Join requires an array or list"))));
    assert_eq!(call("Join", vec![IshValue::Reference(floats)]), None);
    assert_eq!(call("Concat", vec![IshValue::Reference(words)]), Some(Ok(text("a2true"))));
    assert_eq!(call("Concat", vec![text("x"), IshValue::Null]), Some(Ok(text("xnull"))));
    assert_eq!(call("Shout", vec![]), Some(Err(failure("Unknown static method on string: Shout"))));
    assert_eq!(
        type_method(&g, "Math", "Pi", &vec![]),
        Some(Err(failure("Cannot call method 'Pi' on type 'Math'")))
    );
}

#[test]
fn editing_strings_in_place() {
    let mut s = Scopes::new();
    s.declare("log".to_string(), text("a"));
    s.declare("n".to_string(), IshValue::Int(1));
    s.enter_function();
    assert!(s.edit_text("log", false, Some("bc")));
    assert!(s.edit_text("log", false, None));
    assert_eq!(s.innermost("log"), Some(text("abc")));
    assert!(s.edit_text("log", true, Some("zz")));
    assert_eq!(s.innermost("log"), Some(text("")));
    assert!(!s.edit_text("n", true, None));
    assert!(!s.edit_text("missing", true, None));
}

#[test]
fn errors_written_out() {
    assert_eq!(failure("boom").describe(), "Execution Error: boom");
    assert_eq!(IshError::ParseError("p".to_string()).describe(), "Parse Error: p");
    assert_eq!(IshError::ConfigError("c".to_string()).describe(), "Configuration Error: c");
    assert_eq!(IshError::IoError("disk".to_string()).describe(), "IO Error: disk");
    assert_eq!(IshError::Unknown.describe(), "Unknown error occurred");
}

#[test]
fn str_library() {
    let lib = IshStr;
    let mut g = Gobbler::new();
    assert_eq!(lib.name(), "Str");
    assert!(lib.handles_method("Anything"));
    let mut call = |m: &str, args: Vec<IshValue>| lib.execute_method(m, &args, &mut g);
    assert_eq!(call("ToLower", vec![text("AbC")]), Some(Ok(text("abc"))));
    assert_eq!(call("ToUpper", vec![IshValue::Bool(true)]), Some(Ok(text("TRUE"))));
    assert_eq!(call("ToUpper", vec![text("hello")]), Some(Ok(text("HELLO"))));
    assert_eq!(call("ToLower", vec![]), Some(Err(failure("Str.ToLower requires 1 argument"))));
    assert_eq!(call("ToLower", vec![IshValue::Float(0)]), None);
    assert_eq!(call("Reverse", vec![text("abc")]), Some(Ok(text("cba"))));
    assert_eq!(call("Trim", vec![text("  x ")]), Some(Ok(text("x"))));
    assert_eq!(call("TrimStart", vec![text("  x ")]), Some(Ok(text("x "))));
    assert_eq!(call("TrimEnd", vec![text("  x ")]), Some(Ok(text("  x"))));
    assert_eq!(call("Length", vec![text("h\u{e9}llo")]), Some(Ok(IshValue::Int(6))));
    assert_eq!(call("Length", vec![IshValue::Int(-42)]), Some(Ok(IshValue::Int(3))));
    assert_eq!(call("Contains", vec![text("hello"), text("ll")]), Some(Ok(IshValue::Bool(true))));
    assert_eq!(call("Contains", vec![text("hello")]), Some(Err(failure("Str.Contains requires 2 args"))));
    assert_eq!(call("IndexOf", vec![text("h\u{e9}llo"), text("l")]), Some(Ok(IshValue::Int(3))));
    assert_eq!(call("IndexOf", vec![text("hello"), text("z")]), Some(Ok(IshValue::Int(-1))));
    assert_eq!(call("Substring", vec![text("hello"), IshValue::Int(1), IshValue::Int(3)]), Some(Ok(text("el"))));
    assert_eq!(call("Substring", vec![text("hello"), IshValue::Int(2)]), Some(Ok(text("llo"))));
    assert_eq!(
        call("Substring", vec![text("hello"), text("1")]),
        Some(Err(failure("Substring start must be int")))
    );
    assert_eq!(
        call("Substring", vec![text("hello"), IshValue::Int(4), IshValue::Int(2)]),
        Some(Err(failure("Invalid substring indices")))
    );
    assert_eq!(
        call("Substring", vec![text("hello"), IshValue::Int(-1)]),
        Some(Err(failure("Invalid substring indices")))
    );
    assert_eq!(call("Substring", vec![text("hello")]), Some(Err(failure("Str.Substring requires >= 2 args"))));
    assert_eq!(call("Replace", vec![text("aaa"), text("a"), text("b")]), Some(Ok(text("bbb"))));
    assert_eq!(call("Replace", vec![text("ab"), text(""), text("-")]), Some(Ok(text("-a-b-"))));
    assert_eq!(call("Replace", vec![text("aaaa"), text("aa"), text("b")]), Some(Ok(text("bb"))));
    assert_eq!(call("Replace", vec![text("a"), text("a")]), Some(Err(failure("Str.Replace requires 3 args"))));
    assert_eq!(call("Shout", vec![]), Some(Err(failure("Method Shout not found in Str"))));
    assert!(lib.cuts_within_char("Substring", &[text("h\u{e9}llo"), IshValue::Int(2)]));
    assert!(!lib.cuts_within_char("Substring", &[text("h\u{e9}llo"), IshValue::Int(3)]));
    assert!(!lib.cuts_within_char("Length", &[text("h\u{e9}llo"), IshValue::Int(2)]));
}

#[test]
fn str_library_arrays() {
    let lib = IshStr;
    let mut g = Gobbler::new();
    let arr = g.allocate(HeapObject::Array(vec![text("a"), IshValue::Int(1)]));
    let list = g.allocate(HeapObject::List(vec![text("a")]));
    assert_eq!(lib.execute_method("Join", &[IshValue::Reference(arr), text("-")], &mut g), Some(Ok(text("a-1"))));
    assert_eq!(
        lib.execute_method("Join", &[IshValue::Reference(list), text("-")], &mut g),
        Some(Err(failure("First argument to Join must be an array reference")))
    );
    let next = g.next_id;
    assert_eq!(
        lib.execute_method("Split", &[text("a,b,,c"), text(",")], &mut g),
        Some(Ok(IshValue::Reference(next)))
    );
    assert_eq!(g.get(next), Some(&HeapObject::Array(vec![text("a"), text("b"), text(""), text("c")])));
    let next = g.next_id;
    assert_eq!(lib.execute_method("Split", &[text("ab"), text("")], &mut g), Some(Ok(IshValue::Reference(next))));
    assert_eq!(g.get(next), Some(&HeapObject::Array(vec![text(""), text("a"), text("b"), text("")])));
}
