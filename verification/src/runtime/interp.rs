use vstd::prelude::*;
use crate::error::IshError;
use crate::lang::ast::{AstNode, AstNodeKind};
use crate::lang::parser::{float_text, is_float_text};
use crate::runtime::ops::{
    as_bool, binary_meets, binary_op, chooses_first, compare_values, condition_holds, float_compare,
    float_negated, int_compare, int_overflow, is_comparison, needs_float, parse_i32, parse_int,
    same_value, selects_first, show, shown, trunc_div, trunc_rem, truthy, unary_meets, unary_op,
};
use crate::runtime::scope::{
    entry_index, entry_value, find_from, holder, put_entry, scan, set_entry, visible, Scopes,
};
use crate::runtime::value::IshValue;
use crate::text::{chars_eq_str, chars_of, concat, decimal, lit, string_from};

verus! {


/// A value as a plain value: a string by its text.
pub enum Val {
    Text(Seq<char>),
    Int(i32),
    Float(u32),
    Bool(bool),
    Char(char),
    Null,
    Ref(usize),
    Type(Seq<char>),
}

/// The plain form of a value.
pub open spec fn vv(v: IshValue) -> Val {
    match v {
        IshValue::String(s) => Val::Text(s@),
        IshValue::Int(i) => Val::Int(i),
        IshValue::Float(f) => Val::Float(f),
        IshValue::Bool(b) => Val::Bool(b),
        IshValue::Char(c) => Val::Char(c),
        IshValue::Null => Val::Null,
        IshValue::Reference(id) => Val::Ref(id),
        IshValue::TypeRef(t) => Val::Type(t@),
    }
}

/// How a value that is not a float is written out (see `shown`).
pub open spec fn shown_v(v: Val) -> Seq<char> {
    match v {
        Val::Text(s) => s,
        Val::Int(i) => crate::runtime::ops::int_text(i as int),
        Val::Float(_) => Seq::empty(),
        Val::Bool(b) => if b {
            "true"@
        } else {
            "false"@
        },
        Val::Char(c) => seq![c],
        Val::Null => "null"@,
        Val::Ref(id) => "<Reference "@ + decimal(id as nat) + ">"@,
        Val::Type(t) => "<Type "@ + t + ">"@,
    }
}

/// Whether a condition of `if` or `while` holds (see `truthy`).
pub open spec fn truthy_v(v: Val) -> bool {
    match v {
        Val::Bool(b) => b,
        Val::Int(i) => i != 0,
        Val::Float(f) => crate::runtime::ops::float_nonzero(f),
        Val::Text(s) => s.len() > 0 && s != "false"@ && s != "null"@,
        Val::Null => false,
        _ => true,
    }
}

/// Whether the condition of a conditional expression holds (see `chooses_first`).
pub open spec fn chooses_first_v(v: Val) -> bool {
    match v {
        Val::Bool(b) => b,
        Val::Null => false,
        _ => true,
    }
}

/// An operand of `&&` and `||` (see `as_bool`).
pub open spec fn as_bool_v(v: Val) -> bool {
    match v {
        Val::Bool(b) => b,
        _ => true,
    }
}

/// Equality of values other than two numbers (see `same_value`).
pub open spec fn same_v(l: Val, r: Val) -> bool {
    match (l, r) {
        (Val::Text(a), Val::Text(b)) => a == b,
        (Val::Char(a), Val::Char(b)) => a == b,
        (Val::Bool(a), Val::Bool(b)) => a == b,
        (Val::Null, Val::Null) => true,
        (Val::Ref(a), Val::Ref(b)) => a == b,
        (Val::Type(a), Val::Type(b)) => a == b,
        _ => false,
    }
}

/// A comparison of values (see `compare_values`).
pub open spec fn compare_v(op: Seq<char>, l: Val, r: Val) -> bool {
    match (l, r) {
        (Val::Int(a), Val::Int(b)) => int_compare(op, a as int, b as int),
        (Val::Float(a), Val::Float(b)) => float_compare(op, a, b),
        (Val::Int(_), Val::Float(_)) => false,
        (Val::Float(_), Val::Int(_)) => false,
        _ => if op == "=="@ {
            same_v(l, r)
        } else if op == "!="@ {
            !same_v(l, r)
        } else {
            false
        },
    }
}

/// A number.
pub open spec fn is_number_v(v: Val) -> bool {
    v is Int || v is Float
}

/// The operation needs float arithmetic or a float written out (see `needs_float`).
pub open spec fn needs_float_v(op: Seq<char>, l: Val, r: Val) -> bool {
    if op == "+"@ {
        l is Float || r is Float
    } else if op == "-"@ || op == "*"@ || op == "/"@ || op == "%"@ {
        is_number_v(l) && is_number_v(r) && (l is Float || r is Float)
    } else if op == "&&"@ || op == "||"@ {
        false
    } else {
        is_comparison(op) && ((l is Int && r is Float) || (l is Float && r is Int))
    }
}

/// Integer arithmetic whose result does not fit (see `int_overflow`).
pub open spec fn overflow_v(op: Seq<char>, l: Val, r: Val) -> bool {
    match (l, r) {
        (Val::Int(a), Val::Int(b)) => if op == "+"@ {
            !(i32::MIN <= a + b <= i32::MAX)
        } else if op == "-"@ {
            !(i32::MIN <= a - b <= i32::MAX)
        } else if op == "*"@ {
            !(i32::MIN <= a * b <= i32::MAX)
        } else if op == "/"@ || op == "%"@ {
            a == i32::MIN && b == -1
        } else {
            false
        },
        _ => false,
    }
}

/// What a binary operator gives where no float is involved and nothing overflows (see
/// `binary_meets`): the value, or the message of the error.
pub open spec fn bin_v(op: Seq<char>, l: Val, r: Val) -> Result<Val, Seq<char>> {
    if op == "+"@ {
        match (l, r) {
            (Val::Int(a), Val::Int(b)) => Ok(Val::Int((a + b) as i32)),
            _ => Ok(Val::Text(shown_v(l) + shown_v(r))),
        }
    } else if op == "-"@ {
        match (l, r) {
            (Val::Int(a), Val::Int(b)) => Ok(Val::Int((a - b) as i32)),
            _ => Err("Cannot subtract these types"@),
        }
    } else if op == "*"@ {
        match (l, r) {
            (Val::Int(a), Val::Int(b)) => Ok(Val::Int((a * b) as i32)),
            _ => Err("Cannot multiply these types"@),
        }
    } else if op == "/"@ {
        match (l, r) {
            (Val::Int(a), Val::Int(b)) => if b == 0 {
                Err("Division by zero"@)
            } else {
                Ok(Val::Int(trunc_div(a as int, b as int) as i32))
            },
            _ => Err("Cannot divide these types"@),
        }
    } else if op == "%"@ {
        match (l, r) {
            (Val::Int(a), Val::Int(b)) => if b == 0 {
                Err("Modulo by zero"@)
            } else {
                Ok(Val::Int(trunc_rem(a as int, b as int) as i32))
            },
            _ => Err("Cannot modulo these types"@),
        }
    } else if op == "&&"@ {
        Ok(Val::Bool(as_bool_v(l) && as_bool_v(r)))
    } else if op == "||"@ {
        Ok(Val::Bool(as_bool_v(l) || as_bool_v(r)))
    } else {
        Ok(Val::Bool(compare_v(op, l, r)))
    }
}

/// What a unary operator gives (see `unary_meets`).
pub open spec fn un_v(op: Seq<char>, v: Val) -> Result<Val, Seq<char>> {
    if op == "!"@ {
        Ok(
            Val::Bool(
                match v {
                    Val::Bool(b) => !b,
                    _ => false,
                },
            ),
        )
    } else if op == "-"@ {
        match v {
            Val::Int(i) => Ok(Val::Int((-i) as i32)),
            Val::Float(f) => Ok(Val::Float(float_negated(f))),
            _ => Err("Cannot negate non-numeric type"@),
        }
    } else {
        Err("Unknown unary operator: "@ + op)
    }
}

/// A result of an operator as a plain value.
pub open spec fn res_v(r: Result<IshValue, IshError>) -> Result<Val, Seq<char>> {
    match r {
        Ok(v) => Ok(vv(v)),
        Err(IshError::ExecutionError(m)) => Err(m@),
        Err(_) => Err(Seq::empty()),
    }
}

/// The plain forms agree with the operations on values.
proof fn lemma_vals(v: IshValue)
    ensures
        shown_v(vv(v)) == shown(v),
        truthy_v(vv(v)) == truthy(v),
        chooses_first_v(vv(v)) == chooses_first(v),
        as_bool_v(vv(v)) == as_bool(v),
        (vv(v) is Float) == (v is Float),
        (vv(v) is Int) == (v is Int),
{
}

proof fn lemma_bin(op: Seq<char>, l: IshValue, r: IshValue, res: Result<IshValue, IshError>)
    requires
        binary_meets(op, l, r, res),
    ensures
        res_v(res) == bin_v(op, vv(l), vv(r)),
        res is Err ==> res matches Err(IshError::ExecutionError(_)),
{
    lemma_vals(l);
    lemma_vals(r);
    assert(compare_values(op, l, r) == compare_v(op, vv(l), vv(r)));
}

proof fn lemma_needs(op: Seq<char>, l: IshValue, r: IshValue)
    ensures
        needs_float(op, l, r) == needs_float_v(op, vv(l), vv(r)),
        int_overflow(op, l, r) == overflow_v(op, vv(l), vv(r)),
{
}

proof fn lemma_un(op: Seq<char>, v: IshValue, res: Result<IshValue, IshError>)
    requires
        unary_meets(op, v, res),
    ensures
        res_v(res) == un_v(op, vv(v)),
        res is Err ==> res matches Err(IshError::ExecutionError(_)),
{
}

/// A scope as plain values.
pub open spec fn frame_v(e: Seq<(String, IshValue)>) -> Seq<(Seq<char>, Val)> {
    e.map_values(|p: (String, IshValue)| (p.0@, vv(p.1)))
}

/// The scopes as plain values.
pub open spec fn frames_v(fr: Seq<Seq<(String, IshValue)>>) -> Seq<Seq<(Seq<char>, Val)>> {
    fr.map_values(|e: Seq<(String, IshValue)>| frame_v(e))
}

/// Where `name` first occurs in a scope from position `i` on, or -1 (see `find_from`).
pub open spec fn vfind(e: Seq<(Seq<char>, Val)>, name: Seq<char>, i: nat) -> int
    decreases e.len() - i,
{
    if i >= e.len() {
        -1
    } else if e[i as int].0 == name {
        i as int
    } else {
        vfind(e, name, i + 1)
    }
}

/// The value a scope gives `name`.
pub open spec fn vget(e: Seq<(Seq<char>, Val)>, name: Seq<char>) -> Option<Val> {
    let k = vfind(e, name, 0);
    if k < 0 {
        None
    } else {
        Some(e[k].1)
    }
}

/// A scope with `name` bound to `v`: replaced where it occurs, added at the end otherwise.
pub open spec fn vput(e: Seq<(Seq<char>, Val)>, name: Seq<char>, v: Val) -> Seq<(Seq<char>, Val)> {
    let k = vfind(e, name, 0);
    if k < 0 {
        e.push((name, v))
    } else {
        e.update(k, (name, v))
    }
}

/// The value of `name` in the scopes below `hi`, the innermost first (see `scan`).
pub open spec fn vlookup(frames: Seq<Seq<(Seq<char>, Val)>>, hi: int, name: Seq<char>) -> Option<Val>
    decreases hi,
{
    if hi <= 0 {
        None
    } else {
        match vget(frames[hi - 1], name) {
            Some(v) => Some(v),
            None => vlookup(frames, hi - 1, name),
        }
    }
}

/// The innermost scope below `hi` that holds `name`, or -1 (see `holder`).
pub open spec fn vholder(frames: Seq<Seq<(Seq<char>, Val)>>, hi: int, name: Seq<char>) -> int
    decreases hi,
{
    if hi <= 0 {
        -1
    } else if vfind(frames[hi - 1], name, 0) >= 0 {
        hi - 1
    } else {
        vholder(frames, hi - 1, name)
    }
}

proof fn lemma_find(e: Seq<(String, IshValue)>, name: Seq<char>, i: nat)
    ensures
        vfind(frame_v(e), name, i) == find_from(e, name, i),
    decreases e.len() - i,
{
    if i < e.len() {
        lemma_find(e, name, i + 1);
    }
}

proof fn lemma_find_range(e: Seq<(Seq<char>, Val)>, name: Seq<char>, i: nat)
    ensures
        vfind(e, name, i) == -1 || (i <= vfind(e, name, i) < e.len() && e[vfind(e, name, i)].0
            == name),
    decreases e.len() - i,
{
    if i < e.len() {
        lemma_find_range(e, name, i + 1);
    }
}

proof fn lemma_scan(fr: Seq<Seq<(String, IshValue)>>, hi: int, name: Seq<char>)
    requires
        hi <= fr.len(),
    ensures
        vlookup(frames_v(fr), hi, name) == match scan(fr, hi, 0, name) {
            Some(v) => Some(vv(v)),
            None => None,
        },
        vholder(frames_v(fr), hi, name) == holder(fr, hi, name),
    decreases hi,
{
    if hi > 0 {
        lemma_find(fr[hi - 1], name, 0);
        lemma_find_range(frame_v(fr[hi - 1]), name, 0);
        assert(frames_v(fr)[hi - 1] == frame_v(fr[hi - 1]));
        lemma_scan(fr, hi - 1, name);
    }
}

proof fn lemma_put(e: Seq<(String, IshValue)>, name: String, v: IshValue)
    ensures
        frame_v(put_entry(e, name, v)) == vput(frame_v(e), name@, vv(v)),
{
    lemma_find(e, name@, 0);
    lemma_find_range(frame_v(e), name@, 0);
    let k = find_from(e, name@, 0);
    if k < 0 {
        assert(frame_v(e.push((name, v))) =~= frame_v(e).push((name@, vv(v))));
    } else {
        assert(frame_v(e.update(k, (e[k].0, v))) =~= frame_v(e).update(k, (name@, vv(v))));
    }
}

proof fn lemma_set(e: Seq<(String, IshValue)>, name: Seq<char>, v: IshValue)
    requires
        find_from(e, name, 0) >= 0,
    ensures
        frame_v(set_entry(e, name, v)) == vput(frame_v(e), name, vv(v)),
{
    lemma_find(e, name, 0);
    lemma_find_range(frame_v(e), name, 0);
    let k = find_from(e, name, 0);
    assert(frame_v(e.update(k, (e[k].0, v))) =~= frame_v(e).update(k, (name, vv(v))));
}

/// The state of the interpreter as plain values: its scopes, the innermost last, and the lines
/// it has written out so far.
pub struct IState {
    pub frames: Seq<Seq<(Seq<char>, Val)>>,
    pub out: Seq<Seq<char>>,
}

/// What evaluating an expression gives: a value, the need of the host (a float, a method call,
/// an object or a name outside the scopes), or an execution error with its message.
pub enum EvalV {
    Value(Val),
    Host,
    Fail(Seq<char>),
}

/// The names that stand for the runtime libraries and the built-in types.
pub open spec fn library_name(n: Seq<char>) -> bool {
    n == "string"@ || n == "char"@ || n == "List"@ || n == "Math"@ || n == "Time"@ || n
        == "Str"@ || n == "FS"@ || n == "Net"@ || n == "OS"@ || n == "ExtProc"@ || n
        == "CommandLine"@
}

/// A string literal's value: a text holding `$` (or `this`) is expanded by the host; otherwise
/// an integer, a float (read by the host), `true`, `false`, `null`, or the text itself.
pub open spec fn literal_v(s: Seq<char>) -> EvalV {
    if s.contains('$') || s == "this"@ {
        EvalV::Host
    } else {
        match parse_i32(s) {
            Some(i) => EvalV::Value(Val::Int(i)),
            None => if float_text(s) {
                EvalV::Host
            } else if s == "true"@ {
                EvalV::Value(Val::Bool(true))
            } else if s == "false"@ {
                EvalV::Value(Val::Bool(false))
            } else if s == "null"@ {
                EvalV::Value(Val::Null)
            } else {
                EvalV::Value(Val::Text(s))
            },
        }
    }
}

/// What evaluating the expression `e` in state `st` gives.
pub open spec fn eval(st: IState, e: AstNode) -> EvalV
    decreases e, 2nat, 0nat,
{
    match e.kind {
        AstNodeKind::StringLiteral(s) => literal_v(s@),
        AstNodeKind::CharLiteral(c) => EvalV::Value(Val::Char(c)),
        AstNodeKind::Variable(n) => if n@ == "___implicit___"@ {
            EvalV::Value(Val::Text(n@))
        } else if library_name(n@) {
            EvalV::Value(Val::Type(n@))
        } else {
            match vlookup(st.frames, st.frames.len() as int, n@) {
                Some(v) => EvalV::Value(v),
                None => EvalV::Host,
            }
        },
        AstNodeKind::BinaryOp { left, operator, right } => match eval(st, *left) {
            EvalV::Value(a) => match eval(st, *right) {
                EvalV::Value(b) => if needs_float_v(operator@, a, b) || overflow_v(
                    operator@,
                    a,
                    b,
                ) {
                    EvalV::Host
                } else {
                    match bin_v(operator@, a, b) {
                        Ok(v) => EvalV::Value(v),
                        Err(m) => EvalV::Fail(m),
                    }
                },
                other => other,
            },
            other => other,
        },
        AstNodeKind::UnaryOp { operator, operand } => match eval(st, *operand) {
            EvalV::Value(v) => if operator@ == "-"@ && v == Val::Int(i32::MIN) {
                EvalV::Host
            } else {
                match un_v(operator@, v) {
                    Ok(x) => EvalV::Value(x),
                    Err(m) => EvalV::Fail(m),
                }
            },
            other => other,
        },
        AstNodeKind::TernaryOp { condition, true_value, false_value } => match eval(
            st,
            *condition,
        ) {
            EvalV::Value(c) => if chooses_first_v(c) {
                eval(st, *true_value)
            } else {
                eval(st, *false_value)
            },
            other => other,
        },
        AstNodeKind::InterpolatedString(parts) => eval_text(st, parts@, parts@.len()),
        AstNodeKind::MethodCall { object, method_name, args } => if mutating_method(method_name@) {
            EvalV::Host
        } else {
            match eval_args(st, args@, args@.len()) {
                ArgsV::Values(vs) => match (match object.kind {
                    AstNodeKind::StringLiteral(o) => match vlookup(st.frames, st.frames.len() as int, o@) {
                        Some(v) => EvalV::Value(v),
                        None => eval(st, *object),
                    },
                    _ => eval(st, *object),
                }) {
                    EvalV::Value(o) => method_v(o, method_name@, vs),
                    other => other,
                },
                ArgsV::Host => EvalV::Host,
                ArgsV::Fail(m) => EvalV::Fail(m),
            }
        },
        _ => EvalV::Host,
    }
}

/// The methods that change the string a name holds in place.
pub open spec fn mutating_method(m: Seq<char>) -> bool {
    m == "Append"@ || m == "AppendTo"@ || m == "Clear"@
}

/// The `i`-th argument.
pub open spec fn varg(vs: Seq<Val>, i: int) -> Option<Val> {
    if 0 <= i < vs.len() {
        Some(vs[i])
    } else {
        None
    }
}

/// The text a string method searches for: a string, a character, else the empty text.
pub open spec fn vsearch(a: Option<Val>) -> Seq<char> {
    match a {
        Some(Val::Text(t)) => t,
        Some(Val::Char(c)) => seq![c],
        _ => Seq::empty(),
    }
}

/// Where `Substring` starts: the first argument where it is an integer (a negative one lies
/// past the end), else 0.
pub open spec fn vsub_start(s: Seq<char>, first: Option<Val>) -> int {
    match first {
        Some(Val::Int(i)) => if i < 0 {
            s.len() + 1int
        } else {
            i as int
        },
        _ => 0,
    }
}

/// `Substring` with no count, from past the end (where Rust panics).
pub open spec fn vsub_fails(s: Seq<char>, vs: Seq<Val>) -> bool {
    !(varg(vs, 1) matches Some(Val::Int(_))) && vsub_start(s, varg(vs, 0)) > s.len()
}

/// `Substring(start, count)`: `count` characters (all where it is negative or not given) from
/// position `start`.
pub open spec fn vsubstring(s: Seq<char>, first: Option<Val>, second: Option<Val>) -> Seq<char> {
    let st = vsub_start(s, first);
    let from = if st > s.len() {
        s.len() as int
    } else {
        st
    };
    let to: int = match second {
        Some(Val::Int(j)) => if j < 0 || from + j > s.len() {
            s.len() as int
        } else {
            from + j
        },
        _ => s.len() as int,
    };
    s.subrange(from, to)
}

/// A method of the language's strings on the text `s` (see `string_method_of`); `None` where
/// strings have no such method.
pub open spec fn text_method_v(s: Seq<char>, method: Seq<char>, vs: Seq<Val>) -> Option<Val> {
    if method == "Substring"@ {
        Some(Val::Text(vsubstring(s, varg(vs, 0), varg(vs, 1))))
    } else if method == "IndexOf"@ {
        Some(Val::Int(crate::runtime::strings::occurrence_from(s, vsearch(varg(vs, 0)), 0) as i32))
    } else if method == "Contains"@ {
        Some(Val::Bool(crate::runtime::strings::occurrence_from(s, vsearch(varg(vs, 0)), 0) >= 0))
    } else if method == "ToLower"@ {
        Some(Val::Text(crate::text::lower_text(s)))
    } else if method == "ToUpper"@ {
        Some(Val::Text(crate::text::upper_text(s)))
    } else if method == "Trim"@ {
        Some(Val::Text(crate::text::trim(s)))
    } else if method == "RemoveSubstring"@ {
        Some(Val::Text(crate::runtime::strings::without(s, vsearch(varg(vs, 0)))))
    } else if method == "Length"@ {
        Some(Val::Int(s.len() as i32))
    } else {
        None
    }
}

/// The message for a method called on a value that is no object.
pub open spec fn non_object_message(method: Seq<char>, v: Val) -> Seq<char> {
    "Cannot call method '"@ + method + "' on non-object value '"@ + shown_v(v) + "'."@
}

/// A method call expression once its arguments and its object are evaluated (an object written
/// as a bare name that is bound in the scopes stands for its value): the methods of
/// strings and characters are computed; a method of a character that does not exist, or one
/// called on an integer, a boolean or `null`, fails; the rest (library types, objects, floats,
/// the names of classes and libraries, implicit calls, `Substring` past the end) is the host's.
pub open spec fn method_v(o: Val, method: Seq<char>, vs: Seq<Val>) -> EvalV {
    match o {
        Val::Text(s) => if s == "___implicit___"@ || (method == "Substring"@ && vsub_fails(s, vs)) {
            EvalV::Host
        } else {
            match text_method_v(s, method, vs) {
                Some(v) => EvalV::Value(v),
                None => EvalV::Host,
            }
        },
        Val::Char(c) => match crate::runtime::strings::char_method_of(c, method) {
            Some(v) => EvalV::Value(vv(v)),
            None => EvalV::Fail("Char has no method '"@ + method + "'"@),
        },
        Val::Int(_) => EvalV::Fail(non_object_message(method, o)),
        Val::Bool(_) => EvalV::Fail(non_object_message(method, o)),
        Val::Null => EvalV::Fail(non_object_message(method, o)),
        _ => EvalV::Host,
    }
}

/// The plain forms of the string methods agree with `string_method_of`.
proof fn lemma_text_method(s: Seq<char>, method: Seq<char>, args: Seq<IshValue>)
    ensures
        vsub_fails(s, args.map_values(|v: IshValue| vv(v))) == crate::runtime::strings::substring_fails(s, args),
        match crate::runtime::strings::string_method_of(s, method, args) {
            crate::runtime::strings::StrResult::Text(t) => text_method_v(s, method, args.map_values(|v: IshValue| vv(v))) == Some(Val::Text(t)),
            crate::runtime::strings::StrResult::Value(v) => text_method_v(s, method, args.map_values(|v: IshValue| vv(v))) == Some(vv(v)),
            crate::runtime::strings::StrResult::NoMethod => text_method_v(s, method, args.map_values(|v: IshValue| vv(v))) is None,
        },
{
    let vs = args.map_values(|v: IshValue| vv(v));
    assert forall|i: int| 0 <= i < 2 implies #[trigger] varg(vs, i) == (match crate::runtime::strings::arg_at(args, i) {
        Some(a) => Some(vv(a)),
        None => None::<Val>,
    }) by {
        if 0 <= i < args.len() {
            assert(vs[i] == vv(args[i]));
        }
    }
    assert(vsearch(varg(vs, 0)) == crate::runtime::strings::search_text(crate::runtime::strings::arg_at(args, 0)));
    assert(vsub_start(s, varg(vs, 0)) == crate::runtime::strings::substring_start(s, crate::runtime::strings::arg_at(args, 0)));
    assert(vsubstring(s, varg(vs, 0), varg(vs, 1)) == crate::runtime::strings::substring_of(s, crate::runtime::strings::arg_at(args, 0), crate::runtime::strings::arg_at(args, 1)));
}

/// The text of the first `n` parts of an interpolated string, each written out as it is; a
/// float, `null`, a reference or a type among them is written by the host.
pub open spec fn eval_text(st: IState, parts: Seq<AstNode>, n: nat) -> EvalV
    decreases parts, 1nat, n,
{
    if n == 0 || n > parts.len() {
        EvalV::Value(Val::Text(Seq::empty()))
    } else {
        match eval_text(st, parts, (n - 1) as nat) {
            EvalV::Value(Val::Text(acc)) => match eval(st, parts[n - 1]) {
                EvalV::Value(v) => match v {
                    Val::Text(t) => EvalV::Value(Val::Text(acc + t)),
                    Val::Int(_) => EvalV::Value(Val::Text(acc + shown_v(v))),
                    Val::Bool(_) => EvalV::Value(Val::Text(acc + shown_v(v))),
                    Val::Char(c) => EvalV::Value(Val::Text(acc.push(c))),
                    _ => EvalV::Host,
                },
                other => other,
            },
            other => other,
        }
    }
}


/// How executing statements ends: normally, by `break`, `continue` or `return` (with its
/// value), with the need of the host (a statement or expression it must do), with an
/// execution error, or with a loop that ran out of its allowance of iterations.
pub enum FlowV {
    Normal,
    Break,
    Continue,
    Return(Val),
    Host,
    Fail(Seq<char>),
    OutOfFuel,
}

/// The state after declaring `name` as `v` in the innermost scope.
pub open spec fn declare_v(st: IState, name: Seq<char>, v: Val) -> IState {
    if st.frames.len() == 0 {
        st
    } else {
        IState {
            frames: st.frames.update(st.frames.len() - 1, vput(st.frames.last(), name, v)),
            ..st
        }
    }
}

/// The state after giving `name` the value `v` in the innermost scope that binds it; nothing
/// where none does.
pub open spec fn assign_v(st: IState, name: Seq<char>, v: Val) -> Option<IState> {
    let h = vholder(st.frames, st.frames.len() as int, name);
    if h < 0 {
        None
    } else {
        Some(IState { frames: st.frames.update(h, vput(st.frames[h], name, v)), ..st })
    }
}

/// The state with a new, empty innermost scope.
pub open spec fn push_v(st: IState) -> IState {
    IState { frames: st.frames.push(Seq::empty()), ..st }
}

/// The state without its innermost scope.
pub open spec fn pop_v(st: IState) -> IState {
    IState { frames: st.frames.drop_last(), ..st }
}

/// Whether a name holds `::` (a static member, which the host looks up).
pub open spec fn has_path(s: Seq<char>) -> bool {
    exists|i: int| 0 <= i < s.len() - 1 && s[i] == ':' && #[trigger] s[i + 1] == ':'
}

/// The message for an assignment to a variable that no scope declares.
pub open spec fn undeclared(name: Seq<char>) -> Seq<char> {
    "Variable '"@ + name + "' is not declared. Use 'declare "@ + name + " = ...' to declare it."@
}


/// What evaluating arguments in turn gives: their values, or the first need of the host or
/// error.
pub enum ArgsV {
    Values(Seq<Val>),
    Host,
    Fail(Seq<char>),
}

/// The values of the first `n` arguments, evaluated in turn.
pub open spec fn eval_args(st: IState, args: Seq<AstNode>, n: nat) -> ArgsV
    decreases args, 1nat, n,
{
    if n == 0 || n > args.len() {
        ArgsV::Values(Seq::empty())
    } else {
        match eval_args(st, args, (n - 1) as nat) {
            ArgsV::Values(vs) => match eval(st, args[n - 1]) {
                EvalV::Value(v) => ArgsV::Values(vs.push(v)),
                EvalV::Host => ArgsV::Host,
                EvalV::Fail(m) => ArgsV::Fail(m),
            },
            other => other,
        }
    }
}

/// The name a method call's object names, where it is written as a bare name.
pub open spec fn object_name(k: AstNodeKind) -> Option<Seq<char>> {
    match k {
        AstNodeKind::StringLiteral(o) => Some(o@),
        AstNodeKind::Variable(o) => Some(o@),
        _ => None,
    }
}

/// A method call statement once its arguments are evaluated: `CommandLine.OutputLine` writes its
/// first argument (or an empty line); `Append`, `AppendTo` and `Clear` on a name whose innermost
/// binding holds a string change that string in place; any other call is the host's.
pub open spec fn call_v(st: IState, object: AstNodeKind, method: Seq<char>, vs: Seq<Val>) -> (
    IState,
    FlowV,
) {
    if object matches AstNodeKind::StringLiteral(o) && o@ == "CommandLine"@ && method
        == "OutputLine"@ {
        if vs.len() == 0 {
            (IState { out: st.out.push(Seq::empty()), ..st }, FlowV::Normal)
        } else if vs[0] is Float {
            (st, FlowV::Host)
        } else {
            (IState { out: st.out.push(shown_v(vs[0])), ..st }, FlowV::Normal)
        }
    } else if (method == "Append"@ || method == "AppendTo"@ || method == "Clear"@) && object_name(
        object,
    ) is Some {
        let o = object_name(object)->0;
        let h = vholder(st.frames, st.frames.len() as int, o);
        let cur = if h >= 0 {
            vget(st.frames[h], o)
        } else {
            None
        };
        match cur {
            Some(Val::Text(t)) => if method == "Clear"@ {
                (
                    IState { frames: st.frames.update(h, vput(st.frames[h], o, Val::Text(Seq::empty()))), ..st },
                    FlowV::Normal,
                )
            } else if vs.len() == 0 {
                (st, FlowV::Normal)
            } else if vs[0] is Float {
                (st, FlowV::Host)
            } else {
                (
                    IState {
                        frames: st.frames.update(h, vput(st.frames[h], o, Val::Text(t + shown_v(vs[0])))),
                        ..st
                    },
                    FlowV::Normal,
                )
            },
            _ => (st, FlowV::Host),
        }
    } else {
        (st, FlowV::Host)
    }
}

/// The text a `catch` binds for an execution error with message `m`: the error as it is written
/// out.
pub open spec fn caught_text(m: Seq<char>) -> Seq<char> {
    "Execution Error: "@ + m
}

/// Executing one statement in state `st`, each loop allowed `fuel` iterations: the state after
/// it and how it ended. A declaration binds its variable in the innermost scope; an assignment
/// changes the innermost scope that binds it; `if` and loop bodies run in a scope of their own;
/// method calls go by `call_v`; `try` runs its body in a scope of its own and, where the body
/// fails, runs the `catch` body in a new scope that binds the error's text (a failure there
/// ends the `catch` body and is dropped); what needs objects, methods, floats or the host's
/// names ends with `Host`, the state as it stands.
pub open spec fn step(st: IState, node: AstNode, fuel: nat) -> (IState, FlowV)
    decreases fuel, node, 3nat, 0nat,
{
    match node.kind {
        AstNodeKind::Assignment { variable, index, value, is_declaration, .. } => if index is Some
            || value.kind is Array || value.kind is MapLiteral {
            (st, FlowV::Host)
        } else {
            match eval(st, *value) {
                EvalV::Value(v) => if is_declaration {
                    (declare_v(st, variable@, v), FlowV::Normal)
                } else if variable@.contains('.') {
                    (st, FlowV::Host)
                } else {
                    match assign_v(st, variable@, v) {
                        Some(s2) => (s2, FlowV::Normal),
                        None => if has_path(variable@) {
                            (st, FlowV::Host)
                        } else {
                            (st, FlowV::Fail(undeclared(variable@)))
                        },
                    }
                },
                EvalV::Host => (st, FlowV::Host),
                EvalV::Fail(m) => (st, FlowV::Fail(m)),
            }
        },
        AstNodeKind::If { condition, body, else_body } => match eval(st, *condition) {
            EvalV::Value(c) => if truthy_v(c) {
                run_block(st, body@, fuel)
            } else {
                match else_body {
                    Some(eb) => run_block(st, eb@, fuel),
                    None => (st, FlowV::Normal),
                }
            },
            EvalV::Host => (st, FlowV::Host),
            EvalV::Fail(m) => (st, FlowV::Fail(m)),
        },
        AstNodeKind::While { .. } => run_while(st, node, fuel),
        AstNodeKind::For { iterable, .. } => match eval(st, *iterable) {
            EvalV::Value(v) => match items_of(v) {
                Some(items) => run_items(st, node, items, 0, fuel),
                None => (st, FlowV::Host),
            },
            EvalV::Host => (st, FlowV::Host),
            EvalV::Fail(m) => (st, FlowV::Fail(m)),
        },
        AstNodeKind::Switch { expression, .. } => match eval(st, *expression) {
            EvalV::Value(v) => run_cases(st, node, v, 0, fuel),
            EvalV::Host => (st, FlowV::Host),
            EvalV::Fail(m) => (st, FlowV::Fail(m)),
        },
        AstNodeKind::TryCatch { try_body, error_var, catch_body } => {
            let (s1, f) = run_block(st, try_body@, fuel);
            match f {
                FlowV::Fail(m) => {
                    let s2 = declare_v(push_v(s1), error_var@, Val::Text(caught_text(m)));
                    let (s3, g) = run_first(s2, catch_body@, catch_body@.len(), fuel);
                    (pop_v(s3), if g is Fail {
                        FlowV::Normal
                    } else {
                        g
                    })
                },
                other => (s1, other),
            }
        },
        AstNodeKind::Break => (st, FlowV::Break),
        AstNodeKind::Continue => (st, FlowV::Continue),
        AstNodeKind::Return(inner) => match eval(st, *inner) {
            EvalV::Value(v) => (st, FlowV::Return(v)),
            EvalV::Host => (st, FlowV::Host),
            EvalV::Fail(m) => (st, FlowV::Fail(m)),
        },
        AstNodeKind::MethodCall { object, method_name, args } => match eval_args(
            st,
            args@,
            args@.len(),
        ) {
            ArgsV::Values(vs) => call_v(st, object.kind, method_name@, vs),
            ArgsV::Host => (st, FlowV::Host),
            ArgsV::Fail(m) => (st, FlowV::Fail(m)),
        },
        _ => (st, FlowV::Host),
    }
}


/// The `i`-th character of a text as a value.
pub open spec fn char_item(s: Seq<char>, i: int) -> Val {
    Val::Char(s[i])
}

/// The items a `for` loop goes through: the characters of a text, or the value itself; an
/// object's items are the host's.
pub open spec fn items_of(v: Val) -> Option<Seq<Val>> {
    match v {
        Val::Text(s) => Some(Seq::new(s.len(), |i: int| char_item(s, i))),
        Val::Ref(_) => None,
        _ => Some(seq![v]),
    }
}

/// A `for` loop from item `k` on: each item bound to the loop variable in a scope of its own,
/// where the body runs; `break` ends the loop, `continue` goes on with the next item.
pub open spec fn run_items(st: IState, node: AstNode, items: Seq<Val>, k: nat, fuel: nat) -> (
    IState,
    FlowV,
)
    decreases fuel, node, 2nat, items.len() - k,
{
    match node.kind {
        AstNodeKind::For { variable, body, .. } => if k >= items.len() {
            (st, FlowV::Normal)
        } else {
            let s0 = declare_v(push_v(st), variable@, items[k as int]);
            let (s1, f) = run_first(s0, body@, body@.len(), fuel);
            let s2 = pop_v(s1);
            match f {
                FlowV::Break => (s2, FlowV::Normal),
                FlowV::Normal => run_items(s2, node, items, k + 1, fuel),
                FlowV::Continue => run_items(s2, node, items, k + 1, fuel),
                other => (s2, other),
            }
        },
        _ => (st, FlowV::Normal),
    }
}

/// In a `for` loop, an iteration whose body ends with `continue` (or normally) is followed by
/// the iterations over the remaining items, from the state it left; one that ends with `break`
/// ends the loop there, normally. So `continue` goes on with the next item where `break` stops.
pub proof fn lemma_loop_goes_on_after_continue(
    st: IState,
    node: AstNode,
    items: Seq<Val>,
    k: nat,
    fuel: nat,
)
    requires
        node.kind is For,
        k < items.len(),
    ensures
        node.kind matches AstNodeKind::For { variable, body, .. } && ({
            let (s1, f) = run_first(
                declare_v(push_v(st), variable@, items[k as int]),
                body@,
                body@.len(),
                fuel,
            );
            &&& (f is Continue || f is Normal) ==> run_items(st, node, items, k, fuel) == run_items(
                pop_v(s1),
                node,
                items,
                k + 1,
                fuel,
            )
            &&& f is Break ==> run_items(st, node, items, k, fuel) == (pop_v(s1), FlowV::Normal)
        }),
{
}

/// In a `while` loop whose condition holds, an iteration whose body ends with `continue` (or
/// normally) is followed by the rest of the loop from the state it left, with one iteration
/// less allowed; one that ends with `break` ends the loop there, normally.
pub proof fn lemma_while_goes_on_after_continue(st: IState, node: AstNode, fuel: nat)
    requires
        node.kind is While,
        fuel > 0,
    ensures
        node.kind matches AstNodeKind::While { condition, body } && (eval(st, *condition) matches EvalV::Value(
            c,
        ) && truthy_v(c) ==> {
            let (s1, f) = run_block(st, body@, fuel);
            &&& (f is Continue || f is Normal) ==> run_while(st, node, fuel) == run_while(
                s1,
                node,
                (fuel - 1) as nat,
            )
            &&& f is Break ==> run_while(st, node, fuel) == (s1, FlowV::Normal)
        }),
{
}

/// A `for` loop whose every iteration writes one line and ends with `continue` goes through all
/// its items: from item `k` on, the loop ends normally having written one line for each of the
/// remaining items.
pub proof fn lemma_loop_of_continues_runs_all(
    st: IState,
    node: AstNode,
    items: Seq<Val>,
    k: nat,
    fuel: nat,
)
    requires
        node.kind is For,
        k <= items.len(),
        node.kind matches AstNodeKind::For { variable, body, .. } && forall|s: IState, j: int|
            k <= j < items.len() ==> {
                let r = #[trigger] run_first(
                    declare_v(push_v(s), variable@, items[j]),
                    body@,
                    body@.len(),
                    fuel,
                );
                r.1 is Continue && r.0.out.len() == s.out.len() + 1
            },
    ensures
        run_items(st, node, items, k, fuel).1 is Normal,
        run_items(st, node, items, k, fuel).0.out.len() == st.out.len() + (items.len() - k),
    decreases items.len() - k,
{
    if k < items.len() {
        if let AstNodeKind::For { variable, body, .. } = node.kind {
            let (s1, f) = run_first(declare_v(push_v(st), variable@, items[k as int]), body@, body@.len(), fuel);
            assert(f is Continue && s1.out.len() == st.out.len() + 1);
            lemma_loop_of_continues_runs_all(pop_v(s1), node, items, k + 1, fuel);
        }
    }
}

/// Equality of a `switch` value and a case value (see `value_eq`).
pub open spec fn eq_v(l: Val, r: Val) -> bool {
    match (l, r) {
        (Val::Int(a), Val::Int(b)) => a == b,
        (Val::Float(a), Val::Float(b)) => !crate::runtime::ops::float_is_nan(a)
            && !crate::runtime::ops::float_is_nan(b) && crate::runtime::ops::float_key(a)
            == crate::runtime::ops::float_key(b),
        _ => same_v(l, r),
    }
}

/// A `switch` on value `v` from case `k` on: the body of the first case whose value equals `v`
/// runs in a scope of its own, else the default body; a `break` there ends the `switch`.
pub open spec fn run_cases(st: IState, node: AstNode, v: Val, k: nat, fuel: nat) -> (IState, FlowV)
    decreases fuel, node, 2nat, match node.kind {
        AstNodeKind::Switch { cases, .. } => cases@.len() - k,
        _ => 0,
    },
{
    match node.kind {
        AstNodeKind::Switch { cases, default_case, .. } => if k >= cases@.len() {
            match default_case {
                Some(d) => {
                    let (s1, f) = run_block(st, d@, fuel);
                    (s1, if f is Break { FlowV::Normal } else { f })
                },
                None => (st, FlowV::Normal),
            }
        } else {
            match eval(st, cases@[k as int].0) {
                EvalV::Value(c) => if eq_v(v, c) {
                    let (s1, f) = run_block(st, cases@[k as int].1@, fuel);
                    (s1, if f is Break { FlowV::Normal } else { f })
                } else {
                    run_cases(st, node, v, k + 1, fuel)
                },
                EvalV::Host => (st, FlowV::Host),
                EvalV::Fail(m) => (st, FlowV::Fail(m)),
            }
        },
        _ => (st, FlowV::Normal),
    }
}

/// Executing statements in a new innermost scope, which is dropped afterwards.
pub open spec fn run_block(st: IState, nodes: Seq<AstNode>, fuel: nat) -> (IState, FlowV)
    decreases fuel, nodes, 1nat, nodes.len() + 1,
{
    let (s1, f) = run_first(push_v(st), nodes, nodes.len(), fuel);
    (pop_v(s1), f)
}

/// Executing the first `n` statements in turn, up to the first that does not end normally.
pub open spec fn run_first(st: IState, nodes: Seq<AstNode>, n: nat, fuel: nat) -> (IState, FlowV)
    decreases fuel, nodes, 1nat, n,
{
    if n == 0 || n > nodes.len() {
        (st, FlowV::Normal)
    } else {
        let (s1, f) = run_first(st, nodes, (n - 1) as nat, fuel);
        if f is Normal {
            step(s1, nodes[n - 1], fuel)
        } else {
            (s1, f)
        }
    }
}

/// Executing a `while` loop: while its condition holds, its body in a scope of its own; `break`
/// ends the loop, `continue` goes on with the next iteration; at most `fuel` iterations.
pub open spec fn run_while(st: IState, node: AstNode, fuel: nat) -> (IState, FlowV)
    decreases fuel, node, 2nat, 0nat,
{
    match node.kind {
        AstNodeKind::While { condition, body } => if fuel == 0 {
            (st, FlowV::OutOfFuel)
        } else {
            match eval(st, *condition) {
                EvalV::Value(c) => if !truthy_v(c) {
                    (st, FlowV::Normal)
                } else {
                    let (s1, f) = run_block(st, body@, fuel);
                    match f {
                        FlowV::Break => (s1, FlowV::Normal),
                        FlowV::Normal => run_while(s1, node, (fuel - 1) as nat),
                        FlowV::Continue => run_while(s1, node, (fuel - 1) as nat),
                        other => (s1, other),
                    }
                },
                EvalV::Host => (st, FlowV::Host),
                EvalV::Fail(m) => (st, FlowV::Fail(m)),
            }
        },
        _ => (st, FlowV::Normal),
    }
}


proof fn lemma_frames_update(fr: Seq<Seq<(String, IshValue)>>, k: int, e: Seq<(String, IshValue)>)
    requires
        0 <= k < fr.len(),
    ensures
        frames_v(fr.update(k, e)) == frames_v(fr).update(k, frame_v(e)),
        frames_v(fr)[k] == frame_v(fr[k]),
{
    assert(frames_v(fr.update(k, e)) =~= frames_v(fr).update(k, frame_v(e)));
}

proof fn lemma_frames_push_pop(fr: Seq<Seq<(String, IshValue)>>)
    ensures
        frames_v(fr.push(Seq::empty())) == frames_v(fr).push(Seq::empty()),
        fr.len() > 0 ==> frames_v(fr.drop_last()) == frames_v(fr).drop_last(),
        frames_v(fr).len() == fr.len(),
        fr.len() > 0 ==> frames_v(fr).last() == frame_v(fr.last()),
{
    assert(frame_v(Seq::<(String, IshValue)>::empty()) =~= Seq::<(Seq<char>, Val)>::empty());
    assert(frames_v(fr.push(Seq::empty())) =~= frames_v(fr).push(Seq::empty()));
    if fr.len() > 0 {
        assert(frames_v(fr.drop_last()) =~= frames_v(fr).drop_last());
    }
}

proof fn lemma_holder_found(fr: Seq<Seq<(String, IshValue)>>, hi: int, name: Seq<char>)
    requires
        hi <= fr.len(),
    ensures
        holder(fr, hi, name) >= 0 ==> holder(fr, hi, name) < hi && entry_index(
            fr[holder(fr, hi, name)],
            name,
        ) >= 0,
    decreases hi,
{
    if hi > 0 {
        lemma_holder_found(fr, hi - 1, name);
    }
}

/// What evaluating an expression gave.
pub enum Evaluation {
    /// This value.
    Value(IshValue),
    /// The host must evaluate it (see `EvalV::Host`).
    Host,
    /// An `ExecutionError` with this message.
    Failed(String),
}

impl View for Evaluation {
    type V = EvalV;

    open spec fn view(&self) -> EvalV {
        match self {
            Evaluation::Value(v) => EvalV::Value(vv(*v)),
            Evaluation::Host => EvalV::Host,
            Evaluation::Failed(m) => EvalV::Fail(m@),
        }
    }
}

/// The interpreter of the statements and expressions of a method body: its scopes and the
/// lines written out (by `CommandLine.OutputLine`), which the host prints.
pub struct Interp {
    pub scopes: Scopes,
    pub output: Vec<String>,
}

impl View for Interp {
    type V = IState;

    open spec fn view(&self) -> IState {
        IState {
            frames: frames_v(self.scopes.vars()),
            out: self.output@.map_values(|t: String| t@),
        }
    }
}

fn is_library_name(n: &String) -> (r: bool)
    ensures
        r == library_name(n@),
{
    let v = chars_of(n.as_str());
    chars_eq_str(&v, "string") || chars_eq_str(&v, "char") || chars_eq_str(&v, "List")
        || chars_eq_str(&v, "Math") || chars_eq_str(&v, "Time") || chars_eq_str(&v, "Str")
        || chars_eq_str(&v, "FS") || chars_eq_str(&v, "Net") || chars_eq_str(&v, "OS")
        || chars_eq_str(&v, "ExtProc") || chars_eq_str(&v, "CommandLine")
}

fn has_dollar(v: &Vec<char>) -> (r: bool)
    ensures
        r == v@.contains('$'),
{
    let mut i: usize = 0;
    while i < v.len()
        invariant
            i <= v@.len(),
            forall|j: int| 0 <= j < i ==> v@[j] != '$',
        decreases v.len() - i,
    {
        if v[i] == '$' {
            return true;
        }
        i += 1;
    }
    false
}

fn literal_eval(s: &String) -> (r: Evaluation)
    ensures
        r@ == literal_v(s@),
{
    let v = chars_of(s.as_str());
    if has_dollar(&v) || chars_eq_str(&v, "this") {
        return Evaluation::Host;
    }
    match parse_int(&v) {
        Some(i) => Evaluation::Value(IshValue::Int(i)),
        None => if is_float_text(&v) {
            Evaluation::Host
        } else if chars_eq_str(&v, "true") {
            Evaluation::Value(IshValue::Bool(true))
        } else if chars_eq_str(&v, "false") {
            Evaluation::Value(IshValue::Bool(false))
        } else if chars_eq_str(&v, "null") {
            Evaluation::Value(IshValue::Null)
        } else {
            Evaluation::Value(IshValue::String(s.clone()))
        },
    }
}


/// How executing statements ended (see `FlowV`).
pub enum Flow {
    Normal,
    Break,
    Continue,
    Return(IshValue),
    Host,
    Failed(String),
    OutOfFuel,
}

impl View for Flow {
    type V = FlowV;

    open spec fn view(&self) -> FlowV {
        match self {
            Flow::Normal => FlowV::Normal,
            Flow::Break => FlowV::Break,
            Flow::Continue => FlowV::Continue,
            Flow::Return(v) => FlowV::Return(vv(*v)),
            Flow::Host => FlowV::Host,
            Flow::Failed(m) => FlowV::Fail(m@),
            Flow::OutOfFuel => FlowV::OutOfFuel,
        }
    }
}

fn has_path_exec(v: &Vec<char>) -> (r: bool)
    ensures
        r == has_path(v@),
{
    let mut i: usize = 0;
    while i < v.len() && i + 1 < v.len()
        invariant
            i <= v@.len(),
            forall|j: int| 0 <= j < i && j < v@.len() - 1 ==> !(v@[j] == ':' && #[trigger] v@[j + 1] == ':'),
        decreases v.len() - i,
    {
        if v[i] == ':' && v[i + 1] == ':' {
            return true;
        }
        i += 1;
    }
    false
}

fn has_dot(v: &Vec<char>) -> (r: bool)
    ensures
        r == v@.contains('.'),
{
    let mut i: usize = 0;
    while i < v.len()
        invariant
            i <= v@.len(),
            forall|j: int| 0 <= j < i ==> v@[j] != '.',
        decreases v.len() - i,
    {
        if v[i] == '.' {
            return true;
        }
        i += 1;
    }
    false
}


fn is_mutating(m: &String) -> (r: bool)
    ensures
        r == mutating_method(m@),
{
    let v = chars_of(m.as_str());
    chars_eq_str(&v, "Append") || chars_eq_str(&v, "AppendTo") || chars_eq_str(&v, "Clear")
}

/// A method call on the value `o` with these arguments (see `method_v`).
fn method_value(o: IshValue, method: &String, args: &Vec<IshValue>) -> (r: Evaluation)
    ensures
        r@ == method_v(vv(o), method@, args@.map_values(|v: IshValue| vv(v))),
{
    proof {
        lemma_vals(o);
    }
    match o {
        IshValue::String(s) => {
            proof {
                lemma_text_method(s@, method@, args@);
            }
            let sv = chars_of(s.as_str());
            if chars_eq_str(&sv, "___implicit___") {
                return Evaluation::Host;
            }
            let mv = chars_of(method.as_str());
            if chars_eq_str(&mv, "Substring") && crate::runtime::strings::substring_underflows(&s, args) {
                return Evaluation::Host;
            }
            match crate::runtime::strings::string_method(&s, method.as_str(), args) {
                Some(v) => Evaluation::Value(v),
                None => Evaluation::Host,
            }
        },
        IshValue::Char(c) => match crate::runtime::strings::char_method(c, method.as_str()) {
            Ok(v) => Evaluation::Value(v),
            Err(IshError::ExecutionError(m)) => Evaluation::Failed(m),
            Err(_) => Evaluation::Failed(String::new()),
        },
        IshValue::Int(_) | IshValue::Bool(_) | IshValue::Null => {
            let m = concat(
                concat(concat(concat(lit("Cannot call method '"), method.as_str()), "' on non-object value '"), show(&o).as_str()),
                "'.",
            );
            Evaluation::Failed(m)
        },
        _ => Evaluation::Host,
    }
}

fn fail_flow(e: Evaluation) -> (r: Flow)
    requires
        !(e is Value),
    ensures
        r@ == (match e@ {
            EvalV::Fail(m) => FlowV::Fail(m),
            _ => FlowV::Host,
        }),
{
    match e {
        Evaluation::Failed(m) => Flow::Failed(m),
        _ => Flow::Host,
    }
}

impl Interp {
    /// Holds its one global scope, outside any function call.
    pub open spec fn wf(&self) -> bool {
        &&& self.scopes.wf()
        &&& self.scopes.bases@ == seq![0usize]
        &&& self.scopes.vars().len() >= 1
    }

    /// An interpreter with one empty scope that has written nothing.
    pub fn new() -> (it: Self)
        ensures
            it.wf(),
            it@.frames == seq![Seq::<(Seq<char>, Val)>::empty()],
            it@.out == Seq::<Seq<char>>::empty(),
    {
        let it = Interp { scopes: Scopes::new(), output: Vec::new() };
        proof {
            assert(frame_v(it.scopes.vars()[0]) =~= Seq::<(Seq<char>, Val)>::empty());
            assert(frames_v(it.scopes.vars()) =~= seq![Seq::<(Seq<char>, Val)>::empty()]);
            assert(it@.out =~= Seq::<Seq<char>>::empty());
        }
        it
    }

    fn lookup_var(&self, name: &String) -> (r: Option<IshValue>)
        requires
            self.wf(),
        ensures
            match r {
                Some(v) => vlookup(self@.frames, self@.frames.len() as int, name@) == Some(vv(v)),
                None => vlookup(self@.frames, self@.frames.len() as int, name@) is None,
            },
    {
        let r = self.scopes.lookup(name.as_str());
        proof {
            lemma_scan(self.scopes.vars(), self.scopes.vars().len() as int, name@);
        }
        r
    }

    /// Evaluates an expression (see `eval`).
    pub fn evaluate(&self, node: &AstNode) -> (r: Evaluation)
        requires
            self.wf(),
        ensures
            r@ == eval(self@, *node),
        decreases node, 2nat, 0nat,
    {
        match &node.kind {
            AstNodeKind::StringLiteral(s) => literal_eval(s),
            AstNodeKind::CharLiteral(c) => Evaluation::Value(IshValue::Char(*c)),
            AstNodeKind::Variable(n) => {
                let nv = chars_of(n.as_str());
                if chars_eq_str(&nv, "___implicit___") {
                    Evaluation::Value(IshValue::String(n.clone()))
                } else if is_library_name(n) {
                    Evaluation::Value(IshValue::TypeRef(n.clone()))
                } else {
                    match self.lookup_var(n) {
                        Some(v) => Evaluation::Value(v),
                        None => Evaluation::Host,
                    }
                }
            },
            AstNodeKind::BinaryOp { left, operator, right } => {
                let a = match self.evaluate(left) {
                    Evaluation::Value(a) => a,
                    other => {
                        return other;
                    },
                };
                let b = match self.evaluate(right) {
                    Evaluation::Value(b) => b,
                    other => {
                        return other;
                    },
                };
                proof {
                    lemma_needs(operator@, a, b);
                }
                if crate::runtime::ops::overflows(operator.as_str(), &a, &b) {
                    return Evaluation::Host;
                }
                match binary_op(operator.as_str(), a, b) {
                    None => Evaluation::Host,
                    Some(res) => {
                        proof {
                            lemma_bin(operator@, a, b, res);
                        }
                        match res {
                            Ok(v) => Evaluation::Value(v),
                            Err(IshError::ExecutionError(m)) => Evaluation::Failed(m),
                            Err(_) => Evaluation::Failed(String::new()),
                        }
                    },
                }
            },
            AstNodeKind::UnaryOp { operator, operand } => {
                let v = match self.evaluate(operand) {
                    Evaluation::Value(v) => v,
                    other => {
                        return other;
                    },
                };
                let ov = chars_of(operator.as_str());
                let is_min = match v {
                    IshValue::Int(i) => i == i32::MIN,
                    _ => false,
                };
                if chars_eq_str(&ov, "-") && is_min {
                    return Evaluation::Host;
                }
                let res = unary_op(operator.as_str(), v);
                proof {
                    lemma_un(operator@, v, res);
                }
                match res {
                    Ok(x) => Evaluation::Value(x),
                    Err(IshError::ExecutionError(m)) => Evaluation::Failed(m),
                    Err(_) => Evaluation::Failed(String::new()),
                }
            },
            AstNodeKind::TernaryOp { condition, true_value, false_value } => {
                match self.evaluate(condition) {
                    Evaluation::Value(c) => {
                        proof {
                            lemma_vals(c);
                        }
                        if selects_first(&c) {
                            self.evaluate(true_value)
                        } else {
                            self.evaluate(false_value)
                        }
                    },
                    other => other,
                }
            },
            AstNodeKind::InterpolatedString(parts) => self.evaluate_text(parts, parts.len()),
            AstNodeKind::MethodCall { object, method_name, args } => {
                if is_mutating(method_name) {
                    return Evaluation::Host;
                }
                let vs = match self.evaluate_args(args, args.len()) {
                    Ok(vs) => vs,
                    Err(e) => {
                        return e;
                    },
                };
                let named = match &object.kind {
                    AstNodeKind::StringLiteral(o) => self.lookup_var(o),
                    _ => None,
                };
                let ov = match named {
                    Some(v) => Evaluation::Value(v),
                    None => self.evaluate(object),
                };
                match ov {
                    Evaluation::Value(o) => method_value(o, method_name, &vs),
                    other => other,
                }
            },
            _ => Evaluation::Host,
        }
    }

    /// The text of the first `n` parts of an interpolated string (see `eval_text`).
    fn evaluate_text(&self, parts: &Vec<AstNode>, n: usize) -> (r: Evaluation)
        requires
            self.wf(),
            n <= parts@.len(),
        ensures
            r@ == eval_text(self@, parts@, n as nat),
        decreases parts@, 1nat, n,
    {
        if n == 0 {
            let e = String::new();
            proof {
                assert(e@ =~= Seq::<char>::empty());
            }
            return Evaluation::Value(IshValue::String(e));
        }
        let acc = match self.evaluate_text(parts, n - 1) {
            Evaluation::Value(IshValue::String(acc)) => acc,
            Evaluation::Value(other) => {
                return Evaluation::Value(other);
            },
            other => {
                return other;
            },
        };
        match self.evaluate(&parts[n - 1]) {
            Evaluation::Value(v) => match v {
                IshValue::String(t) => Evaluation::Value(IshValue::String(concat(acc, t.as_str()))),
                IshValue::Int(_) | IshValue::Bool(_) | IshValue::Char(_) => {
                    proof {
                        lemma_vals(v);
                        if let IshValue::Char(c) = v {
                            assert(acc@ + seq![c] =~= acc@.push(c));
                        }
                    }
                    Evaluation::Value(IshValue::String(concat(acc, show(&v).as_str())))
                },
                _ => Evaluation::Host,
            },
            other => other,
        }
    }

    fn declare_var(&mut self, name: &String, v: IshValue)
        requires
            old(self).wf(),
        ensures
            final(self).wf(),
            final(self)@ == declare_v(old(self)@, name@, vv(v)),
            final(self).scopes.vars().len() == old(self).scopes.vars().len(),
    {
        let ghost fr = self.scopes.vars();
        self.scopes.declare(name.clone(), v);
        proof {
            lemma_frames_push_pop(fr);
            lemma_frames_update(fr, fr.len() - 1, put_entry(fr.last(), *name, v));
            lemma_put(fr.last(), *name, v);
        }
    }

    fn assign_var(&mut self, name: &String, v: IshValue) -> (found: bool)
        requires
            old(self).wf(),
        ensures
            final(self).wf(),
            found == assign_v(old(self)@, name@, vv(v)) is Some,
            found ==> final(self)@ == assign_v(old(self)@, name@, vv(v))->0,
            !found ==> final(self)@ == old(self)@,
            final(self).scopes.vars().len() == old(self).scopes.vars().len(),
    {
        let ghost fr = self.scopes.vars();
        proof {
            lemma_scan(fr, fr.len() as int, name@);
            lemma_holder_found(fr, fr.len() as int, name@);
            lemma_frames_push_pop(fr);
        }
        let found = self.scopes.assign(name.as_str(), v);
        proof {
            if found {
                let h = holder(fr, fr.len() as int, name@);
                lemma_frames_update(fr, h, set_entry(fr[h], name@, v));
                lemma_set(fr[h], name@, v);
            }
        }
        found
    }

    fn write_line(&mut self, line: String)
        ensures
            final(self).scopes == old(self).scopes,
            final(self)@ == (IState { out: old(self)@.out.push(line@), ..old(self)@ }),
    {
        self.output.push(line);
        proof {
            assert(self@.out =~= old(self)@.out.push(line@));
        }
    }

    /// Executes one statement, each loop allowed `fuel` iterations (see `step`).
    pub fn exec_stmt(&mut self, node: &AstNode, fuel: usize) -> (r: Flow)
        requires
            old(self).wf(),
        ensures
            final(self).wf(),
            final(self).scopes.vars().len() == old(self).scopes.vars().len(),
            (final(self)@, r@) == step(old(self)@, *node, fuel as nat),
        decreases fuel, node, 3nat, 0nat,
    {
        match &node.kind {
            AstNodeKind::Assignment { variable, index, value, is_declaration, .. } => {
                let heap_value = match &value.kind {
                    AstNodeKind::Array(_) | AstNodeKind::MapLiteral(_) => true,
                    _ => false,
                };
                if index.is_some() || heap_value {
                    return Flow::Host;
                }
                let v = match self.evaluate(value) {
                    Evaluation::Value(v) => v,
                    other => {
                        return fail_flow(other);
                    },
                };
                if *is_declaration {
                    self.declare_var(variable, v);
                    return Flow::Normal;
                }
                let vc = chars_of(variable.as_str());
                if has_dot(&vc) {
                    return Flow::Host;
                }
                if self.assign_var(variable, v) {
                    Flow::Normal
                } else if has_path_exec(&vc) {
                    Flow::Host
                } else {
                    let m = concat(
                        concat(concat(concat(lit("Variable '"), variable.as_str()), "' is not declared. Use 'declare "), variable.as_str()),
                        " = ...' to declare it.",
                    );
                    Flow::Failed(m)
                }
            },
            AstNodeKind::If { condition, body, else_body } => {
                let c = match self.evaluate(condition) {
                    Evaluation::Value(c) => c,
                    other => {
                        return fail_flow(other);
                    },
                };
                proof {
                    lemma_vals(c);
                }
                if condition_holds(&c) {
                    self.exec_block(body, fuel)
                } else {
                    match else_body {
                        Some(eb) => self.exec_block(eb, fuel),
                        None => Flow::Normal,
                    }
                }
            },
            AstNodeKind::While { .. } => self.exec_while(node, fuel),
            AstNodeKind::For { iterable, .. } => {
                let v = match self.evaluate(iterable) {
                    Evaluation::Value(v) => v,
                    other => {
                        return fail_flow(other);
                    },
                };
                match &v {
                    IshValue::String(t) => {
                        let cs = chars_of(t.as_str());
                        proof {
                            assert(items_of(vv(v)) == Some(Seq::new(cs@.len(), |i: int| char_item(cs@, i))));
                        }
                        self.exec_chars(node, &cs, 0, fuel)
                    },
                    IshValue::Reference(_) => Flow::Host,
                    _ => self.exec_one(node, v, fuel),
                }
            },
            AstNodeKind::Switch { expression, .. } => {
                let v = match self.evaluate(expression) {
                    Evaluation::Value(v) => v,
                    other => {
                        return fail_flow(other);
                    },
                };
                self.exec_cases(node, &v, 0, fuel)
            },
            AstNodeKind::TryCatch { try_body, error_var, catch_body } => {
                let f = self.exec_block(try_body, fuel);
                match f {
                    Flow::Failed(m) => {
                        let ghost fr = self.scopes.vars();
                        self.scopes.push_scope();
                        proof {
                            lemma_frames_push_pop(fr);
                        }
                        let text = concat(lit("Execution Error: "), m.as_str());
                        self.declare_var(error_var, IshValue::String(text));
                        let g = self.exec_first(catch_body, catch_body.len(), fuel);
                        let ghost fr2 = self.scopes.vars();
                        let _ = self.scopes.pop_scope();
                        proof {
                            lemma_frames_push_pop(fr2);
                        }
                        match g {
                            Flow::Failed(_) => Flow::Normal,
                            other => other,
                        }
                    },
                    other => other,
                }
            },
            AstNodeKind::Break => Flow::Break,
            AstNodeKind::Continue => Flow::Continue,
            AstNodeKind::Return(inner) => match self.evaluate(inner) {
                Evaluation::Value(v) => Flow::Return(v),
                other => fail_flow(other),
            },
            AstNodeKind::MethodCall { object, method_name, args } => {
                let vs = match self.evaluate_args(args, args.len()) {
                    Ok(vs) => vs,
                    Err(e) => {
                        return fail_flow(e);
                    },
                };
                self.call(&object.kind, method_name, &vs)
            },
            _ => Flow::Host,
        }
    }

    /// Executes statements in a new innermost scope, dropped afterwards (see `run_block`).
    pub fn exec_block(&mut self, nodes: &Vec<AstNode>, fuel: usize) -> (r: Flow)
        requires
            old(self).wf(),
        ensures
            final(self).wf(),
            final(self).scopes.vars().len() == old(self).scopes.vars().len(),
            (final(self)@, r@) == run_block(old(self)@, nodes@, fuel as nat),
        decreases fuel, nodes@, 1nat, nodes@.len() + 1,
    {
        let ghost fr = self.scopes.vars();
        self.scopes.push_scope();
        proof {
            lemma_frames_push_pop(fr);
            assert(self@ == push_v(old(self)@));
        }
        let r = self.exec_first(nodes, nodes.len(), fuel);
        let ghost fr2 = self.scopes.vars();
        let _ = self.scopes.pop_scope();
        proof {
            lemma_frames_push_pop(fr2);
        }
        r
    }

    /// Executes the first `n` statements in turn (see `run_first`).
    fn exec_first(&mut self, nodes: &Vec<AstNode>, n: usize, fuel: usize) -> (r: Flow)
        requires
            old(self).wf(),
            n <= nodes@.len(),
        ensures
            final(self).wf(),
            final(self).scopes.vars().len() == old(self).scopes.vars().len(),
            (final(self)@, r@) == run_first(old(self)@, nodes@, n as nat, fuel as nat),
        decreases fuel, nodes@, 1nat, n,
    {
        if n == 0 {
            return Flow::Normal;
        }
        let f = self.exec_first(nodes, n - 1, fuel);
        match f {
            Flow::Normal => self.exec_stmt(&nodes[n - 1], fuel),
            other => other,
        }
    }

    /// Executes a `while` loop (see `run_while`).
    fn exec_while(&mut self, node: &AstNode, fuel: usize) -> (r: Flow)
        requires
            old(self).wf(),
            node.kind is While,
        ensures
            final(self).wf(),
            final(self).scopes.vars().len() == old(self).scopes.vars().len(),
            (final(self)@, r@) == run_while(old(self)@, *node, fuel as nat),
        decreases fuel, node, 2nat, 0nat,
    {
        match &node.kind {
            AstNodeKind::While { condition, body } => {
                if fuel == 0 {
                    return Flow::OutOfFuel;
                }
                let c = match self.evaluate(condition) {
                    Evaluation::Value(c) => c,
                    other => {
                        return fail_flow(other);
                    },
                };
                proof {
                    lemma_vals(c);
                }
                if !condition_holds(&c) {
                    return Flow::Normal;
                }
                let f = self.exec_block(body, fuel);
                match f {
                    Flow::Break => Flow::Normal,
                    Flow::Normal | Flow::Continue => self.exec_while(node, fuel - 1),
                    other => other,
                }
            },
            _ => Flow::Normal,
        }
    }

    /// Runs a `for` body once with the loop variable bound to `item` in a scope of its own.
    fn exec_item(&mut self, node: &AstNode, item: IshValue, fuel: usize) -> (r: Flow)
        requires
            old(self).wf(),
            node.kind is For,
        ensures
            final(self).wf(),
            final(self).scopes.vars().len() == old(self).scopes.vars().len(),
            node.kind matches AstNodeKind::For { variable, body, .. } && ({
                let s0 = declare_v(push_v(old(self)@), variable@, vv(item));
                let (s1, f) = run_first(s0, body@, body@.len(), fuel as nat);
                (final(self)@, r@) == (pop_v(s1), f)
            }),
        decreases fuel, node, 1nat, 0nat,
    {
        match &node.kind {
            AstNodeKind::For { variable, body, .. } => {
                let ghost fr = self.scopes.vars();
                self.scopes.push_scope();
                proof {
                    lemma_frames_push_pop(fr);
                    assert(self@ == push_v(old(self)@));
                }
                self.declare_var(variable, item);
                let f = self.exec_first(body, body.len(), fuel);
                let ghost fr2 = self.scopes.vars();
                let _ = self.scopes.pop_scope();
                proof {
                    lemma_frames_push_pop(fr2);
                }
                f
            },
            _ => Flow::Normal,
        }
    }

    /// Executes a `for` loop over the characters of a text from the `k`-th on (see
    /// `run_items`).
    fn exec_chars(&mut self, node: &AstNode, cs: &Vec<char>, k: usize, fuel: usize) -> (r: Flow)
        requires
            old(self).wf(),
            node.kind is For,
            k <= cs@.len(),
        ensures
            final(self).wf(),
            final(self).scopes.vars().len() == old(self).scopes.vars().len(),
            (final(self)@, r@) == run_items(
                old(self)@,
                *node,
                Seq::new(cs@.len(), |i: int| char_item(cs@, i)),
                k as nat,
                fuel as nat,
            ),
        decreases fuel, node, 2nat, cs@.len() - k,
    {
        if k >= cs.len() {
            return Flow::Normal;
        }
        let c = cs[k];
        let item = IshValue::Char(c);
        proof {
            assert(Seq::new(cs@.len(), |i: int| char_item(cs@, i))[k as int] == char_item(cs@, k as int));
            assert(char_item(cs@, k as int) == Val::Char(c));
        }
        let f = self.exec_item(node, item, fuel);
        match f {
            Flow::Break => Flow::Normal,
            Flow::Normal | Flow::Continue => self.exec_chars(node, cs, k + 1, fuel),
            other => other,
        }
    }

    /// Executes a `for` loop over a single value (see `run_items`).
    fn exec_one(&mut self, node: &AstNode, v: IshValue, fuel: usize) -> (r: Flow)
        requires
            old(self).wf(),
            node.kind is For,
        ensures
            final(self).wf(),
            final(self).scopes.vars().len() == old(self).scopes.vars().len(),
            (final(self)@, r@) == run_items(old(self)@, *node, seq![vv(v)], 0, fuel as nat),
        decreases fuel, node, 2nat, 1nat,
    {
        let ghost items = seq![vv(v)];
        let f = self.exec_item(node, v, fuel);
        proof {
            assert(run_items(final(self)@, *node, items, 1, fuel as nat) == (final(self)@, FlowV::Normal));
        }
        match f {
            Flow::Break => Flow::Normal,
            Flow::Normal | Flow::Continue => Flow::Normal,
            other => other,
        }
    }

    /// Executes a `switch` on `v` from case `k` on (see `run_cases`).
    fn exec_cases(&mut self, node: &AstNode, v: &IshValue, k: usize, fuel: usize) -> (r: Flow)
        requires
            old(self).wf(),
            node.kind matches AstNodeKind::Switch { cases, .. } && k <= cases@.len(),
        ensures
            final(self).wf(),
            final(self).scopes.vars().len() == old(self).scopes.vars().len(),
            (final(self)@, r@) == run_cases(old(self)@, *node, vv(*v), k as nat, fuel as nat),
        decreases fuel, node, 2nat, match node.kind {
            AstNodeKind::Switch { cases, .. } => cases@.len() - k,
            _ => 0,
        },
    {
        match &node.kind {
            AstNodeKind::Switch { cases, default_case, .. } => {
                if k >= cases.len() {
                    return match default_case {
                        Some(d) => match self.exec_block(d, fuel) {
                            Flow::Break => Flow::Normal,
                            f => f,
                        },
                        None => Flow::Normal,
                    };
                }
                let c = match self.evaluate(&cases[k].0) {
                    Evaluation::Value(c) => c,
                    other => {
                        return fail_flow(other);
                    },
                };
                if crate::runtime::control::values_equal(v, &c) {
                    match self.exec_block(&cases[k].1, fuel) {
                        Flow::Break => Flow::Normal,
                        f => f,
                    }
                } else {
                    self.exec_cases(node, v, k + 1, fuel)
                }
            },
            _ => Flow::Normal,
        }
    }

    /// Evaluates the first `n` arguments in turn (see `eval_args`).
    fn evaluate_args(&self, args: &Vec<AstNode>, n: usize) -> (r: Result<Vec<IshValue>, Evaluation>)
        requires
            self.wf(),
            n <= args@.len(),
        ensures
            match eval_args(self@, args@, n as nat) {
                ArgsV::Values(vs) => r matches Ok(x) && x@.map_values(|v: IshValue| vv(v)) == vs,
                ArgsV::Host => r matches Err(e) && e@ == EvalV::Host,
                ArgsV::Fail(m) => r matches Err(e) && e@ == EvalV::Fail(m),
            },
        decreases args@, 1nat, n,
    {
        if n == 0 {
            let v: Vec<IshValue> = Vec::new();
            proof {
                assert(v@.map_values(|v: IshValue| vv(v)) =~= Seq::<Val>::empty());
            }
            return Ok(v);
        }
        let mut vs = match self.evaluate_args(args, n - 1) {
            Ok(vs) => vs,
            Err(e) => {
                return Err(e);
            },
        };
        match self.evaluate(&args[n - 1]) {
            Evaluation::Value(v) => {
                let ghost before = vs@.map_values(|v: IshValue| vv(v));
                let ghost x = vv(v);
                vs.push(v);
                proof {
                    assert(vs@.map_values(|v: IshValue| vv(v)) =~= before.push(x));
                }
                Ok(vs)
            },
            other => Err(other),
        }
    }

    /// A method call statement with its arguments' values (see `call_v`).
    fn call(&mut self, object: &AstNodeKind, method: &String, vs: &Vec<IshValue>) -> (r: Flow)
        requires
            old(self).wf(),
        ensures
            final(self).wf(),
            final(self).scopes.vars().len() == old(self).scopes.vars().len(),
            (final(self)@, r@) == call_v(old(self)@, *object, method@, vs@.map_values(|v: IshValue| vv(v))),
    {
        let ghost xs = vs@.map_values(|v: IshValue| vv(v));
        let is_out = match object {
            AstNodeKind::StringLiteral(o) => crate::text::string_eq_str(o, "CommandLine")
                && crate::text::string_eq_str(method, "OutputLine"),
            _ => false,
        };
        if is_out {
            if vs.len() == 0 {
                let e = String::new();
                proof {
                    assert(e@ =~= Seq::<char>::empty());
                }
                self.write_line(e);
                return Flow::Normal;
            }
            proof {
                assert(xs[0] == vv(vs@[0]));
                lemma_vals(vs@[0]);
            }
            return match &vs[0] {
                IshValue::Float(_) => Flow::Host,
                v => {
                    self.write_line(show(v));
                    Flow::Normal
                },
            };
        }
        let mutating = crate::text::string_eq_str(method, "Append") || crate::text::string_eq_str(
            method,
            "AppendTo",
        ) || crate::text::string_eq_str(method, "Clear");
        let name = match object {
            AstNodeKind::StringLiteral(o) => o,
            AstNodeKind::Variable(o) => o,
            _ => {
                return Flow::Host;
            },
        };
        if !mutating {
            return Flow::Host;
        }
        let ghost fr = self.scopes.vars();
        let ghost h = holder(fr, fr.len() as int, name@);
        proof {
            lemma_scan(fr, fr.len() as int, name@);
            lemma_holder_found(fr, fr.len() as int, name@);
            lemma_frames_push_pop(fr);
            if h >= 0 {
                lemma_frames_update(fr, h, fr[h]);
                lemma_find(fr[h], name@, 0);
                lemma_find_range(frame_v(fr[h]), name@, 0);
                crate::runtime::scope::lemma_index_facts(fr[h], name@);
            }
        }
        let current = self.scopes.innermost(name.as_str());
        let t = match current {
            Some(IshValue::String(t)) => t,
            _ => {
                return Flow::Host;
            },
        };
        let new_text = if crate::text::string_eq_str(method, "Clear") {
            let e = String::new();
            proof {
                assert(e@ =~= Seq::<char>::empty());
            }
            e
        } else if vs.len() == 0 {
            return Flow::Normal;
        } else {
            proof {
                assert(xs[0] == vv(vs@[0]));
                lemma_vals(vs@[0]);
            }
            match &vs[0] {
                IshValue::Float(_) => {
                    return Flow::Host;
                },
                v => concat(t, show(v).as_str()),
            }
        };
        let _ = self.assign_var(name, IshValue::String(new_text));
        Flow::Normal
    }
}

} // verus!
