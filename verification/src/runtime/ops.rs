use vstd::prelude::*;
use crate::error::IshError;
use crate::lang::config::{all_digits, digits_value, parse_usize, parse_usize_exec};
use crate::runtime::gobbler::{Gobbler, HeapObject};
use crate::runtime::value::IshValue;
use crate::text::{chars_eq_str, chars_of, concat, decimal, lit, push_char, sub_chars, usize_text};

verus! {

/// The float with these bits is not a number.
pub open spec fn float_is_nan(b: u32) -> bool {
    b % 0x8000_0000 > 0x7f80_0000
}

/// A number that orders floats (not NaN) as their values are ordered, both zeros alike.
pub open spec fn float_key(b: u32) -> int {
    if b >= 0x8000_0000 {
        0x8000_0000 - b
    } else {
        b as int
    }
}

/// The bits of the float with the opposite sign.
pub open spec fn float_negated(b: u32) -> u32 {
    if b >= 0x8000_0000 {
        (b - 0x8000_0000) as u32
    } else {
        (b + 0x8000_0000) as u32
    }
}

/// The float with these bits differs from zero.
pub open spec fn float_nonzero(b: u32) -> bool {
    b % 0x8000_0000 != 0
}

/// The decimal notation of an integer, with a minus sign where it is negative.
pub open spec fn int_text(i: int) -> Seq<char> {
    if i < 0 {
        seq!['-'] + decimal((-i) as nat)
    } else {
        decimal(i as nat)
    }
}

/// How a value that is not a float is written out.
pub open spec fn shown(v: IshValue) -> Seq<char> {
    match v {
        IshValue::String(s) => s@,
        IshValue::Int(i) => int_text(i as int),
        IshValue::Float(_) => Seq::empty(),
        IshValue::Bool(b) => if b {
            "true"@
        } else {
            "false"@
        },
        IshValue::Char(c) => seq![c],
        IshValue::Null => "null"@,
        IshValue::Reference(id) => "<Reference "@ + decimal(id as nat) + ">"@,
        IshValue::TypeRef(t) => "<Type "@ + t@ + ">"@,
    }
}

/// Whether a condition of `if` or `while` holds for a value.
pub open spec fn truthy(v: IshValue) -> bool {
    match v {
        IshValue::Bool(b) => b,
        IshValue::Int(i) => i != 0,
        IshValue::Float(f) => float_nonzero(f),
        IshValue::String(s) => s@.len() > 0 && s@ != "false"@ && s@ != "null"@,
        IshValue::Null => false,
        _ => true,
    }
}

/// Whether the condition of a conditional expression holds for a value.
pub open spec fn chooses_first(v: IshValue) -> bool {
    match v {
        IshValue::Bool(b) => b,
        IshValue::Null => false,
        _ => true,
    }
}

/// A value as an operand of `&&` and `||`: a boolean is itself, any other value true.
pub open spec fn as_bool(v: IshValue) -> bool {
    match v {
        IshValue::Bool(b) => b,
        _ => true,
    }
}

/// Rust's division of integers, rounding toward zero.
pub open spec fn trunc_div(a: int, b: int) -> int {
    let m = (if a < 0 { -a } else { a }) / (if b < 0 { -b } else { b });
    if (a < 0) != (b < 0) {
        -m
    } else {
        m
    }
}

/// Rust's remainder of integers, with the sign of the dividend.
pub open spec fn trunc_rem(a: int, b: int) -> int {
    let m = (if a < 0 { -a } else { a }) % (if b < 0 { -b } else { b });
    if a < 0 {
        -m
    } else {
        m
    }
}

/// A comparison of integers by the operator named; false for any other operator.
pub open spec fn int_compare(op: Seq<char>, a: int, b: int) -> bool {
    if op == "=="@ {
        a == b
    } else if op == "!="@ {
        a != b
    } else if op == ">"@ {
        a > b
    } else if op == "<"@ {
        a < b
    } else if op == ">="@ {
        a >= b
    } else if op == "<="@ {
        a <= b
    } else {
        false
    }
}

/// A comparison of floats, given by their bits: a NaN equals nothing, is unequal to everything,
/// and is ordered with nothing.
pub open spec fn float_compare(op: Seq<char>, a: u32, b: u32) -> bool {
    if float_is_nan(a) || float_is_nan(b) {
        op == "!="@
    } else {
        int_compare(op, float_key(a), float_key(b))
    }
}

pub open spec fn is_comparison(op: Seq<char>) -> bool {
    op == "=="@ || op == "!="@ || op == ">"@ || op == "<"@ || op == ">="@ || op == "<="@
}

pub open spec fn is_number(v: IshValue) -> bool {
    v is Int || v is Float
}

/// Values of kinds other than two numbers are equal: same kind, same content.
pub open spec fn same_value(l: IshValue, r: IshValue) -> bool {
    match (l, r) {
        (IshValue::String(a), IshValue::String(b)) => a@ == b@,
        (IshValue::Char(a), IshValue::Char(b)) => a == b,
        (IshValue::Bool(a), IshValue::Bool(b)) => a == b,
        (IshValue::Null, IshValue::Null) => true,
        (IshValue::Reference(a), IshValue::Reference(b)) => a == b,
        (IshValue::TypeRef(a), IshValue::TypeRef(b)) => a@ == b@,
        _ => false,
    }
}

/// What a comparison operator, or an operator that is none of the others, gives.
pub open spec fn compare_values(op: Seq<char>, l: IshValue, r: IshValue) -> bool {
    match (l, r) {
        (IshValue::Int(a), IshValue::Int(b)) => int_compare(op, a as int, b as int),
        (IshValue::Float(a), IshValue::Float(b)) => float_compare(op, a, b),
        (IshValue::Int(_), IshValue::Float(_)) => false,
        (IshValue::Float(_), IshValue::Int(_)) => false,
        _ => if op == "=="@ {
            same_value(l, r)
        } else if op == "!="@ {
            !same_value(l, r)
        } else {
            false
        },
    }
}

/// The operation needs floating-point arithmetic, or a float written out: adding a float, any
/// other arithmetic on two numbers one of which is a float, or comparing an integer with a float.
pub open spec fn needs_float(op: Seq<char>, l: IshValue, r: IshValue) -> bool {
    if op == "+"@ {
        l is Float || r is Float
    } else if op == "-"@ || op == "*"@ || op == "/"@ || op == "%"@ {
        is_number(l) && is_number(r) && (l is Float || r is Float)
    } else if op == "&&"@ || op == "||"@ {
        false
    } else {
        is_comparison(op) && ((l is Int && r is Float) || (l is Float && r is Int))
    }
}

/// Integer arithmetic whose result does not fit (where Rust panics).
pub open spec fn int_overflow(op: Seq<char>, l: IshValue, r: IshValue) -> bool {
    match (l, r) {
        (IshValue::Int(a), IshValue::Int(b)) => if op == "+"@ {
            !(i32::MIN <= a + b <= i32::MAX)
        } else if op == "-"@ {
            !(i32::MIN <= a - b <= i32::MAX)
        } else if op == "*"@ {
            !(i32::MIN <= a * b <= i32::MAX)
        } else if op == "/"@ || op == "%"@ {
            a == i32::MIN && b == -1
        } else {
            false
        },
        _ => false,
    }
}

/// An error of execution with the message given.
pub open spec fn fails_with(res: Result<IshValue, IshError>, msg: Seq<char>) -> bool {
    res matches Err(IshError::ExecutionError(m)) && m@ == msg
}

/// What applying a binary operator to two values gives, where no float is involved.
pub open spec fn binary_meets(
    op: Seq<char>,
    l: IshValue,
    r: IshValue,
    res: Result<IshValue, IshError>,
) -> bool {
    if op == "+"@ {
        match (l, r) {
            (IshValue::Int(a), IshValue::Int(b)) => res == Ok::<IshValue, IshError>(
                IshValue::Int((a + b) as i32),
            ),
            _ => res matches Ok(IshValue::String(s)) && s@ == shown(l) + shown(r),
        }
    } else if op == "-"@ {
        match (l, r) {
            (IshValue::Int(a), IshValue::Int(b)) => res == Ok::<IshValue, IshError>(
                IshValue::Int((a - b) as i32),
            ),
            _ => fails_with(res, "Cannot subtract these types"@),
        }
    } else if op == "*"@ {
        match (l, r) {
            (IshValue::Int(a), IshValue::Int(b)) => res == Ok::<IshValue, IshError>(
                IshValue::Int((a * b) as i32),
            ),
            _ => fails_with(res, "Cannot multiply these types"@),
        }
    } else if op == "/"@ {
        match (l, r) {
            (IshValue::Int(a), IshValue::Int(b)) => if b == 0 {
                fails_with(res, "Division by zero"@)
            } else {
                res == Ok::<IshValue, IshError>(IshValue::Int(trunc_div(a as int, b as int) as i32))
            },
            _ => fails_with(res, "Cannot divide these types"@),
        }
    } else if op == "%"@ {
        match (l, r) {
            (IshValue::Int(a), IshValue::Int(b)) => if b == 0 {
                fails_with(res, "Modulo by zero"@)
            } else {
                res == Ok::<IshValue, IshError>(IshValue::Int(trunc_rem(a as int, b as int) as i32))
            },
            _ => fails_with(res, "Cannot modulo these types"@),
        }
    } else if op == "&&"@ {
        res == Ok::<IshValue, IshError>(IshValue::Bool(as_bool(l) && as_bool(r)))
    } else if op == "||"@ {
        res == Ok::<IshValue, IshError>(IshValue::Bool(as_bool(l) || as_bool(r)))
    } else {
        res == Ok::<IshValue, IshError>(IshValue::Bool(compare_values(op, l, r)))
    }
}

/// What applying a unary operator to a value gives.
pub open spec fn unary_meets(op: Seq<char>, v: IshValue, res: Result<IshValue, IshError>) -> bool {
    if op == "!"@ {
        res == Ok::<IshValue, IshError>(
            IshValue::Bool(
                match v {
                    IshValue::Bool(b) => !b,
                    _ => false,
                },
            ),
        )
    } else if op == "-"@ {
        match v {
            IshValue::Int(i) => res == Ok::<IshValue, IshError>(IshValue::Int((-i) as i32)),
            IshValue::Float(f) => res == Ok::<IshValue, IshError>(
                IshValue::Float(float_negated(f)),
            ),
            _ => fails_with(res, "Cannot negate non-numeric type"@),
        }
    } else {
        fails_with(res, "Unknown unary operator: "@ + op)
    }
}

/// `str::parse::<i32>`: an optional sign, then one or more decimal digits, whose value fits.
pub open spec fn parse_i32(s: Seq<char>) -> Option<i32> {
    let d = if s.len() > 0 && (s[0] == '+' || s[0] == '-') {
        s.drop_first()
    } else {
        s
    };
    let v: int = if s.len() > 0 && s[0] == '-' {
        -(digits_value(d) as int)
    } else {
        digits_value(d) as int
    };
    if d.len() > 0 && all_digits(d) && i32::MIN <= v <= i32::MAX {
        Some(v as i32)
    } else {
        None
    }
}

/// The value that a word of a program stands for: an integer where it reads as one, else the
/// float that it reads as (`as_float`, its bits where it reads as a float), else `true`,
/// `false` or `null`, else the word itself.
pub open spec fn literal(text: String, as_float: Option<u32>) -> IshValue {
    match parse_i32(text@) {
        Some(i) => IshValue::Int(i),
        None => match as_float {
            Some(b) => IshValue::Float(b),
            None => if text@ == "true"@ {
                IshValue::Bool(true)
            } else if text@ == "false"@ {
                IshValue::Bool(false)
            } else if text@ == "null"@ {
                IshValue::Null
            } else {
                IshValue::String(text)
            },
        },
    }
}

/// How a value is written out for the user, where it is not a float: a reference by the kind
/// of object it names (the element type of an array or list, judged by its first element,
/// `Map` for a map, the class name for an object, `null` for no object).
pub open spec fn described(heap: Map<usize, HeapObject>, v: IshValue) -> Seq<char> {
    match v {
        IshValue::Reference(id) => if !heap.contains_key(id) {
            "null"@
        } else {
            match heap[id] {
                HeapObject::Array(items) => element_kind(items@),
                HeapObject::List(items) => element_kind(items@),
                HeapObject::Dict(_) => "Map"@,
                HeapObject::Object { class_name, .. } => class_name@,
            }
        },
        IshValue::TypeRef(t) => "<Type "@ + t@ + ">"@,
        _ => shown(v),
    }
}

/// The type of an array, judged by its first element.
pub open spec fn element_kind(items: Seq<IshValue>) -> Seq<char> {
    if items.len() == 0 {
        "object[]"@
    } else {
        match items[0] {
            IshValue::String(_) => "string[]"@,
            IshValue::Int(_) => "int[]"@,
            IshValue::Float(_) => "float[]"@,
            IshValue::Bool(_) => "bool[]"@,
            _ => "object[]"@,
        }
    }
}

/// The decimal notation of an integer.
pub fn int_string(i: i32) -> (s: String)
    ensures
        s@ == int_text(i as int),
{
    if i < 0 {
        let m = (-(i as i64)) as usize;
        let mut s = String::new();
        push_char(&mut s, '-');
        let digits = usize_text(m);
        let r = concat(s, digits.as_str());
        proof {
            assert(r@ =~= seq!['-'] + decimal((-(i as int)) as nat));
        }
        r
    } else {
        usize_text(i as usize)
    }
}

/// How a value that is not a float is written out.
pub fn show(v: &IshValue) -> (s: String)
    requires
        !(*v is Float),
    ensures
        s@ == shown(*v),
{
    match v {
        IshValue::String(s) => s.clone(),
        IshValue::Int(i) => int_string(*i),
        IshValue::Bool(b) => if *b {
            lit("true")
        } else {
            lit("false")
        },
        IshValue::Char(c) => {
            let mut s = String::new();
            push_char(&mut s, *c);
            proof {
                assert(s@ =~= seq![*c]);
            }
            s
        },
        IshValue::Null => lit("null"),
        IshValue::Reference(id) => {
            let a = concat(lit("<Reference "), usize_text(*id).as_str());
            concat(a, ">")
        },
        IshValue::TypeRef(t) => {
            let a = concat(lit("<Type "), t.as_str());
            concat(a, ">")
        },
        IshValue::Float(_) => String::new(),
    }
}

/// Whether a condition of `if` or `while` holds for a value.
pub fn condition_holds(v: &IshValue) -> (r: bool)
    ensures
        r == truthy(*v),
{
    match v {
        IshValue::Bool(b) => *b,
        IshValue::Int(i) => *i != 0,
        IshValue::Float(f) => *f % 0x8000_0000 != 0,
        IshValue::String(s) => {
            let c = chars_of(s.as_str());
            c.len() > 0 && !chars_eq_str(&c, "false") && !chars_eq_str(&c, "null")
        },
        IshValue::Null => false,
        _ => true,
    }
}

/// Whether the condition of a conditional expression holds for a value.
pub fn selects_first(v: &IshValue) -> (r: bool)
    ensures
        r == chooses_first(*v),
{
    match v {
        IshValue::Bool(b) => *b,
        IshValue::Null => false,
        _ => true,
    }
}

fn bool_operand(v: &IshValue) -> (r: bool)
    ensures
        r == as_bool(*v),
{
    match v {
        IshValue::Bool(b) => *b,
        _ => true,
    }
}

fn is_float(v: &IshValue) -> (r: bool)
    ensures
        r == (*v is Float),
{
    match v {
        IshValue::Float(_) => true,
        _ => false,
    }
}

fn is_numeric(v: &IshValue) -> (r: bool)
    ensures
        r == is_number(*v),
{
    match v {
        IshValue::Int(_) => true,
        IshValue::Float(_) => true,
        _ => false,
    }
}

fn failure(msg: &str) -> (r: Option<Result<IshValue, IshError>>)
    ensures
        r matches Some(x) && fails_with(x, msg@),
{
    Some(Err(IshError::ExecutionError(lit(msg))))
}

fn compare_ints(o: &Vec<char>, a: i64, b: i64) -> (r: bool)
    ensures
        r == int_compare(o@, a as int, b as int),
{
    if chars_eq_str(o, "==") {
        a == b
    } else if chars_eq_str(o, "!=") {
        a != b
    } else if chars_eq_str(o, ">") {
        a > b
    } else if chars_eq_str(o, "<") {
        a < b
    } else if chars_eq_str(o, ">=") {
        a >= b
    } else if chars_eq_str(o, "<=") {
        a <= b
    } else {
        false
    }
}

fn float_key_of(b: u32) -> (k: i64)
    ensures
        k == float_key(b),
{
    if b >= 0x8000_0000 {
        0x8000_0000i64 - b as i64
    } else {
        b as i64
    }
}

fn compare_floats(o: &Vec<char>, a: u32, b: u32) -> (r: bool)
    ensures
        r == float_compare(o@, a, b),
{
    if a % 0x8000_0000 > 0x7f80_0000 || b % 0x8000_0000 > 0x7f80_0000 {
        chars_eq_str(o, "!=")
    } else {
        compare_ints(o, float_key_of(a), float_key_of(b))
    }
}

fn comparison(o: &Vec<char>) -> (r: bool)
    ensures
        r == is_comparison(o@),
{
    chars_eq_str(o, "==") || chars_eq_str(o, "!=") || chars_eq_str(o, ">") || chars_eq_str(o, "<")
        || chars_eq_str(o, ">=") || chars_eq_str(o, "<=")
}

fn equal_values(l: &IshValue, r: &IshValue) -> (b: bool)
    ensures
        b == same_value(*l, *r),
{
    match l {
        IshValue::String(a) => match r {
            IshValue::String(b) => *a == *b,
            _ => false,
        },
        IshValue::Char(a) => match r {
            IshValue::Char(b) => *a == *b,
            _ => false,
        },
        IshValue::Bool(a) => match r {
            IshValue::Bool(b) => *a == *b,
            _ => false,
        },
        IshValue::Null => match r {
            IshValue::Null => true,
            _ => false,
        },
        IshValue::Reference(a) => match r {
            IshValue::Reference(b) => *a == *b,
            _ => false,
        },
        IshValue::TypeRef(a) => match r {
            IshValue::TypeRef(b) => *a == *b,
            _ => false,
        },
        _ => false,
    }
}

fn abs_of(a: i32) -> (m: u32)
    ensures
        m as int == (if a < 0 { -a } else { a as int }),
{
    if a < 0 {
        (-(a as i64)) as u32
    } else {
        a as u32
    }
}

/// Rust's `a / b` on integers.
fn quotient(a: i32, b: i32) -> (q: i32)
    requires
        b != 0,
        !(a == i32::MIN && b == -1),
    ensures
        q as int == trunc_div(a as int, b as int),
{
    let ua = abs_of(a);
    let ub = abs_of(b);
    let m = ua / ub;
    assert(m <= ua) by (nonlinear_arith)
        requires
            ub >= 1,
            m == ua / ub,
    ;
    if (a < 0) != (b < 0) {
        (-(m as i64)) as i32
    } else {
        if ub >= 2 {
            assert(m * 2 <= ua) by (nonlinear_arith)
                requires
                    ub >= 2,
                    m == ua / ub,
            ;
        }
        m as i32
    }
}

/// Rust's `a % b` on integers.
fn remainder(a: i32, b: i32) -> (q: i32)
    requires
        b != 0,
    ensures
        q as int == trunc_rem(a as int, b as int),
{
    let ua = abs_of(a);
    let ub = abs_of(b);
    let m = ua % ub;
    if a < 0 {
        (-(m as i64)) as i32
    } else {
        m as i32
    }
}

/// Whether integer arithmetic with this operator on these values overflows (where Rust panics).
pub fn overflows(op: &str, l: &IshValue, r: &IshValue) -> (b: bool)
    ensures
        b == int_overflow(op@, *l, *r),
{
    let o = chars_of(op);
    match l {
        IshValue::Int(a) => match r {
            IshValue::Int(b) => {
                let (x, y) = (*a as i64, *b as i64);
                if chars_eq_str(&o, "+") {
                    x + y < i32::MIN as i64 || x + y > i32::MAX as i64
                } else if chars_eq_str(&o, "-") {
                    x - y < i32::MIN as i64 || x - y > i32::MAX as i64
                } else if chars_eq_str(&o, "*") {
                    assert(-0x4000_0000_0000_0000 <= x * y <= 0x4000_0000_0000_0000)
                        by (nonlinear_arith)
                        requires
                            -0x8000_0000 <= x <= 0x7fff_ffff,
                            -0x8000_0000 <= y <= 0x7fff_ffff,
                    ;
                    x * y < i32::MIN as i64 || x * y > i32::MAX as i64
                } else if chars_eq_str(&o, "/") || chars_eq_str(&o, "%") {
                    *a == i32::MIN && *b == -1
                } else {
                    false
                }
            },
            _ => false,
        },
        _ => false,
    }
}

/// Applies a binary operator of the language to two values. Gives nothing where the operation
/// needs floating-point arithmetic or a float written out, which the caller performs.
pub fn binary_op(op: &str, l: IshValue, r: IshValue) -> (res: Option<Result<IshValue, IshError>>)
    requires
        !int_overflow(op@, l, r),
    ensures
        res is None <==> needs_float(op@, l, r),
        res matches Some(x) ==> binary_meets(op@, l, r, x),
{
    let o = chars_of(op);
    if chars_eq_str(&o, "+") {
        if let IshValue::Int(a) = l {
            if let IshValue::Int(b) = r {
                return Some(Ok(IshValue::Int(a + b)));
            }
        }
        if is_float(&l) || is_float(&r) {
            return None;
        }
        let s = concat(show(&l), show(&r).as_str());
        return Some(Ok(IshValue::String(s)));
    }
    if chars_eq_str(&o, "-") {
        if let IshValue::Int(a) = l {
            if let IshValue::Int(b) = r {
                return Some(Ok(IshValue::Int(a - b)));
            }
        }
        if is_numeric(&l) && is_numeric(&r) {
            return None;
        }
        return failure("Cannot subtract these types");
    }
    if chars_eq_str(&o, "*") {
        if let IshValue::Int(a) = l {
            if let IshValue::Int(b) = r {
                return Some(Ok(IshValue::Int(a * b)));
            }
        }
        if is_numeric(&l) && is_numeric(&r) {
            return None;
        }
        return failure("Cannot multiply these types");
    }
    if chars_eq_str(&o, "/") {
        if let IshValue::Int(a) = l {
            if let IshValue::Int(b) = r {
                if b == 0 {
                    return failure("Division by zero");
                }
                return Some(Ok(IshValue::Int(quotient(a, b))));
            }
        }
        if is_numeric(&l) && is_numeric(&r) {
            return None;
        }
        return failure("Cannot divide these types");
    }
    if chars_eq_str(&o, "%") {
        if let IshValue::Int(a) = l {
            if let IshValue::Int(b) = r {
                if b == 0 {
                    return failure("Modulo by zero");
                }
                return Some(Ok(IshValue::Int(remainder(a, b))));
            }
        }
        if is_numeric(&l) && is_numeric(&r) {
            return None;
        }
        return failure("Cannot modulo these types");
    }
    if chars_eq_str(&o, "&&") {
        return Some(Ok(IshValue::Bool(bool_operand(&l) && bool_operand(&r))));
    }
    if chars_eq_str(&o, "||") {
        return Some(Ok(IshValue::Bool(bool_operand(&l) || bool_operand(&r))));
    }
    match l {
        IshValue::Int(a) => match r {
            IshValue::Int(b) => {
                return Some(Ok(IshValue::Bool(compare_ints(&o, a as i64, b as i64))));
            },
            IshValue::Float(_) => {
                if comparison(&o) {
                    return None;
                }
                return Some(Ok(IshValue::Bool(false)));
            },
            _ => {},
        },
        IshValue::Float(a) => match r {
            IshValue::Float(b) => {
                return Some(Ok(IshValue::Bool(compare_floats(&o, a, b))));
            },
            IshValue::Int(_) => {
                if comparison(&o) {
                    return None;
                }
                return Some(Ok(IshValue::Bool(false)));
            },
            _ => {},
        },
        _ => {},
    }
    let same = equal_values(&l, &r);
    if chars_eq_str(&o, "==") {
        Some(Ok(IshValue::Bool(same)))
    } else if chars_eq_str(&o, "!=") {
        Some(Ok(IshValue::Bool(!same)))
    } else {
        Some(Ok(IshValue::Bool(false)))
    }
}

/// Applies a unary operator of the language to a value.
pub fn unary_op(op: &str, v: IshValue) -> (res: Result<IshValue, IshError>)
    requires
        !(op@ == "-"@ && v == IshValue::Int(i32::MIN)),
    ensures
        unary_meets(op@, v, res),
{
    let o = chars_of(op);
    if chars_eq_str(&o, "!") {
        return match v {
            IshValue::Bool(b) => Ok(IshValue::Bool(!b)),
            _ => Ok(IshValue::Bool(false)),
        };
    }
    if chars_eq_str(&o, "-") {
        return match v {
            IshValue::Int(i) => Ok(IshValue::Int(-i)),
            IshValue::Float(f) => Ok(
                IshValue::Float(
                    if f >= 0x8000_0000 {
                        f - 0x8000_0000
                    } else {
                        f + 0x8000_0000
                    },
                ),
            ),
            _ => Err(IshError::ExecutionError(lit("Cannot negate non-numeric type"))),
        };
    }
    Err(IshError::ExecutionError(concat(lit("Unknown unary operator: "), op)))
}

/// Reads a number as `str::parse::<i32>` does.
pub fn parse_int(p: &Vec<char>) -> (r: Option<i32>)
    ensures
        r == parse_i32(p@),
{
    let signed = p.len() > 0 && (p[0] == '+' || p[0] == '-');
    let negative = p.len() > 0 && p[0] == '-';
    let d = if signed {
        sub_chars(p, 1, p.len())
    } else {
        sub_chars(p, 0, p.len())
    };
    let ghost ds = if p@.len() > 0 && (p@[0] == '+' || p@[0] == '-') {
        p@.drop_first()
    } else {
        p@
    };
    proof {
        assert(d@ =~= ds);
    }
    if d.len() == 0 || !('0' <= d[0] && d[0] <= '9') {
        return None;
    }
    match parse_usize_exec(&d) {
        None => {
            proof {
                if all_digits(ds) {
                    assert(digits_value(ds) > usize::MAX);
                }
            }
            None
        },
        Some(m) => {
            if negative {
                if m <= 0x8000_0000 {
                    Some((-(m as i64)) as i32)
                } else {
                    None
                }
            } else {
                if m <= 0x7fff_ffff {
                    Some(m as i32)
                } else {
                    None
                }
            }
        },
    }
}

/// The value that a word of a program stands for: an integer where it reads as one, else the
/// float that the caller read it as (`as_float`, the bits of the float where the word reads as
/// one), else `true`, `false` or `null`, else the word itself.
pub fn literal_value(text: String, as_float: Option<u32>) -> (v: IshValue)
    ensures
        v == literal(text, as_float),
{
    let c = chars_of(text.as_str());
    match parse_int(&c) {
        Some(i) => IshValue::Int(i),
        None => match as_float {
            Some(b) => IshValue::Float(b),
            None => {
                if chars_eq_str(&c, "true") {
                    IshValue::Bool(true)
                } else if chars_eq_str(&c, "false") {
                    IshValue::Bool(false)
                } else if chars_eq_str(&c, "null") {
                    IshValue::Null
                } else {
                    IshValue::String(text)
                }
            },
        },
    }
}

fn element_text(items: &Vec<IshValue>) -> (s: String)
    ensures
        s@ == element_kind(items@),
{
    if items.len() == 0 {
        return lit("object[]");
    }
    match &items[0] {
        IshValue::String(_) => lit("string[]"),
        IshValue::Int(_) => lit("int[]"),
        IshValue::Float(_) => lit("float[]"),
        IshValue::Bool(_) => lit("bool[]"),
        _ => lit("object[]"),
    }
}

/// How a value is written out for the user; nothing for a float, which the caller writes out.
pub fn value_text(heap: &Gobbler, v: &IshValue) -> (s: Option<String>)
    ensures
        s is None <==> *v is Float,
        s matches Some(t) ==> t@ == described(heap.heap(), *v),
{
    match v {
        IshValue::Float(_) => None,
        IshValue::Reference(id) => match heap.get(*id) {
            None => Some(lit("null")),
            Some(obj) => match obj {
                HeapObject::Array(items) => Some(element_text(items)),
                HeapObject::List(items) => Some(element_text(items)),
                HeapObject::Dict(_) => Some(lit("Map")),
                HeapObject::Object { class_name, .. } => Some(class_name.clone()),
            },
        },
        _ => Some(show(v)),
    }
}

} // verus!
