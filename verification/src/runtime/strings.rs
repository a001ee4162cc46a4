use vstd::prelude::*;
use crate::error::IshError;
use crate::runtime::gobbler::{Gobbler, HeapObject};
use crate::runtime::ops::{show, shown};
use crate::runtime::value::IshValue;
use crate::text::{
    alphabetic, alphanumeric, char_to_lowercase, char_to_uppercase, chars_eq_str, chars_of, concat,
    is_alphabetic, is_alphanumeric, is_whitespace, is_ws, lit, lower_of, lower_text, push_char,
    string_from, sub_chars, to_lowercase, to_uppercase, trim, trim_chars, upper_of, upper_text,
};

verus! {

/// `pat` occurs in `s` at position `i`.
pub open spec fn occurs_at(s: Seq<char>, pat: Seq<char>, i: int) -> bool {
    0 <= i && i + pat.len() <= s.len() && s.subrange(i, i + pat.len()) == pat
}

/// The first position from `i` on where `pat` occurs in `s`, or -1.
pub open spec fn occurrence_from(s: Seq<char>, pat: Seq<char>, i: int) -> int
    decreases s.len() + 1 - i,
{
    if i < 0 || i + pat.len() > s.len() {
        -1
    } else if occurs_at(s, pat, i) {
        i
    } else {
        occurrence_from(s, pat, i + 1)
    }
}

/// `s` from position `i` on, without the occurrences of `pat` (a non-empty text), taken from
/// the left without overlap.
pub open spec fn stripped_from(s: Seq<char>, pat: Seq<char>, i: int) -> Seq<char>
    decreases s.len() - i,
{
    if pat.len() == 0 || i < 0 || i >= s.len() {
        Seq::empty()
    } else if occurs_at(s, pat, i) {
        stripped_from(s, pat, i + pat.len())
    } else {
        seq![s[i]] + stripped_from(s, pat, i + 1)
    }
}

/// `s` without the occurrences of `pat` (`str::replace` by the empty text).
pub open spec fn without(s: Seq<char>, pat: Seq<char>) -> Seq<char> {
    if pat.len() == 0 {
        s
    } else {
        stripped_from(s, pat, 0)
    }
}

/// The text that a string method searches for: a string, a character, else the empty text.
pub open spec fn search_text(arg: Option<IshValue>) -> Seq<char> {
    match arg {
        Some(IshValue::String(v)) => v@,
        Some(IshValue::Char(c)) => seq![c],
        _ => Seq::empty(),
    }
}

/// The first argument.
pub open spec fn arg_at(args: Seq<IshValue>, i: int) -> Option<IshValue> {
    if 0 <= i < args.len() {
        Some(args[i])
    } else {
        None
    }
}

/// Where `Substring` starts: the first argument where it is an integer (a negative one lies
/// past the end), else 0.
pub open spec fn substring_start(s: Seq<char>, first: Option<IshValue>) -> int {
    match first {
        Some(IshValue::Int(i)) => if i < 0 {
            s.len() + 1int
        } else {
            i as int
        },
        _ => 0,
    }
}

/// `Substring` with no count given, from past the end, underflows (where Rust panics).
pub open spec fn substring_fails(s: Seq<char>, args: Seq<IshValue>) -> bool {
    !(arg_at(args, 1) matches Some(IshValue::Int(_))) && substring_start(s, arg_at(args, 0))
        > s.len()
}

/// What `Substring(start, count)` gives: `count` characters (all where it is negative or not
/// given) from position `start`.
pub open spec fn substring_of(s: Seq<char>, first: Option<IshValue>, second: Option<IshValue>) -> Seq<
    char,
> {
    let st = substring_start(s, first);
    let from = if st > s.len() {
        s.len() as int
    } else {
        st
    };
    let to: int = match second {
        Some(IshValue::Int(j)) => if j < 0 || from + j > s.len() {
            s.len() as int
        } else {
            from + j
        },
        _ => s.len() as int,
    };
    s.subrange(from, to)
}

/// What a string method gives.
pub enum StrResult {
    /// A string with this text.
    Text(Seq<char>),
    /// This value.
    Value(IshValue),
    /// Nothing: strings have no such method.
    NoMethod,
}

/// What calling a method of the language's strings on `s` gives.
pub open spec fn string_method_of(s: Seq<char>, method: Seq<char>, args: Seq<IshValue>) -> StrResult {
    if method == "Substring"@ {
        StrResult::Text(substring_of(s, arg_at(args, 0), arg_at(args, 1)))
    } else if method == "IndexOf"@ {
        StrResult::Value(IshValue::Int(occurrence_from(s, search_text(arg_at(args, 0)), 0) as i32))
    } else if method == "Contains"@ {
        StrResult::Value(IshValue::Bool(occurrence_from(s, search_text(arg_at(args, 0)), 0) >= 0))
    } else if method == "ToLower"@ {
        StrResult::Text(lower_text(s))
    } else if method == "ToUpper"@ {
        StrResult::Text(upper_text(s))
    } else if method == "Trim"@ {
        StrResult::Text(trim(s))
    } else if method == "RemoveSubstring"@ {
        StrResult::Text(without(s, search_text(arg_at(args, 0))))
    } else if method == "Length"@ {
        StrResult::Value(IshValue::Int(s.len() as i32))
    } else {
        StrResult::NoMethod
    }
}

pub(crate) fn occurs_here(s: &Vec<char>, pat: &Vec<char>, i: usize) -> (r: bool)
    requires
        i + pat.len() <= s.len(),
    ensures
        r == occurs_at(s@, pat@, i as int),
{
    let mut j: usize = 0;
    while j < pat.len()
        invariant
            i + pat.len() <= s.len(),
            j <= pat@.len(),
            forall|k: int| 0 <= k < j ==> s@[i + k] == pat@[k],
        decreases pat.len() - j,
    {
        if s[i + j] != pat[j] {
            proof {
                assert(s@.subrange(i as int, i + pat@.len())[j as int] != pat@[j as int]);
            }
            return false;
        }
        j += 1;
    }
    proof {
        assert(s@.subrange(i as int, i + pat@.len()) =~= pat@);
    }
    true
}

pub(crate) fn first_occurrence(s: &Vec<char>, pat: &Vec<char>) -> (r: Option<usize>)
    ensures
        match r {
            Some(i) => i as int == occurrence_from(s@, pat@, 0),
            None => occurrence_from(s@, pat@, 0) == -1,
        },
{
    if pat.len() > s.len() {
        return None;
    }
    let last = s.len() - pat.len();
    let mut i: usize = 0;
    while i <= last
        invariant
            pat@.len() <= s@.len(),
            last == s@.len() - pat@.len(),
            i <= last + 1,
            occurrence_from(s@, pat@, 0) == occurrence_from(s@, pat@, i as int),
        decreases last + 1 - i,
    {
        if occurs_here(s, pat, i) {
            return Some(i);
        }
        if i == last {
            proof {
                assert(occurrence_from(s@, pat@, i + 1) == -1);
            }
            return None;
        }
        i += 1;
    }
    None
}

fn strip(s: &Vec<char>, pat: &Vec<char>) -> (r: Vec<char>)
    requires
        pat@.len() > 0,
    ensures
        r@ == stripped_from(s@, pat@, 0),
{
    let mut r: Vec<char> = Vec::new();
    let mut i: usize = 0;
    while i < s.len()
        invariant
            pat@.len() > 0,
            i <= s@.len() + pat@.len(),
            r@ + stripped_from(s@, pat@, i as int) == stripped_from(s@, pat@, 0),
        decreases s.len() - i,
    {
        if pat.len() <= s.len() - i && occurs_here(s, pat, i) {
            i += pat.len();
        } else {
            proof {
                assert(r@.push(s@[i as int]) + stripped_from(s@, pat@, i + 1) =~= r@ + (seq![
                    s@[i as int],
                ] + stripped_from(s@, pat@, i + 1)));
            }
            r.push(s[i]);
            i += 1;
        }
    }
    proof {
        assert(r@ + stripped_from(s@, pat@, i as int) =~= r@);
    }
    r
}

fn search_chars(arg: Option<&IshValue>) -> (r: Vec<char>)
    ensures
        r@ == search_text(
            match arg {
                Some(v) => Some(*v),
                None => None,
            },
        ),
{
    match arg {
        Some(IshValue::String(v)) => chars_of(v.as_str()),
        Some(IshValue::Char(c)) => {
            let mut r: Vec<char> = Vec::new();
            r.push(*c);
            proof {
                assert(r@ =~= seq![*c]);
            }
            r
        },
        _ => Vec::new(),
    }
}

fn arg_ref(args: &Vec<IshValue>, i: usize) -> (r: Option<&IshValue>)
    ensures
        match r {
            Some(v) => arg_at(args@, i as int) == Some(*v),
            None => arg_at(args@, i as int) is None,
        },
{
    if i < args.len() {
        Some(&args[i])
    } else {
        None
    }
}

/// Whether `Substring` with these arguments underflows (where Rust panics).
pub fn substring_underflows(s: &String, args: &Vec<IshValue>) -> (b: bool)
    ensures
        b == substring_fails(s@, args@),
{
    let n = chars_of(s.as_str()).len();
    let counted = match arg_ref(args, 1) {
        Some(IshValue::Int(_)) => true,
        _ => false,
    };
    let past = match arg_ref(args, 0) {
        Some(IshValue::Int(i)) => *i < 0 || (*i as usize) > n,
        _ => false,
    };
    !counted && past
}

/// Calls a method of the language's strings on `s`: `Substring`, `IndexOf`, `Contains`,
/// `ToLower`, `ToUpper`, `Trim`, `RemoveSubstring`, `Length`; nothing for any other method.
pub fn string_method(s: &String, method: &str, args: &Vec<IshValue>) -> (r: Option<IshValue>)
    requires
        method@ == "Substring"@ ==> !substring_fails(s@, args@),
    ensures
        match string_method_of(s@, method@, args@) {
            StrResult::Text(t) => r matches Some(IshValue::String(x)) && x@ == t,
            StrResult::Value(v) => r == Some(v),
            StrResult::NoMethod => r is None,
        },
{
    let m = chars_of(method);
    let sv = chars_of(s.as_str());
    if chars_eq_str(&m, "Substring") {
        let n = sv.len();
        let st: usize = match arg_ref(args, 0) {
            Some(IshValue::Int(i)) => if *i < 0 {
                n
            } else if (*i as usize) > n {
                n
            } else {
                *i as usize
            },
            _ => 0,
        };
        let to: usize = match arg_ref(args, 1) {
            Some(IshValue::Int(j)) => if *j < 0 || (*j as usize) > n - st {
                n
            } else {
                st + *j as usize
            },
            _ => n,
        };
        let part = sub_chars(&sv, st, to);
        return Some(IshValue::String(string_from(&part)));
    }
    if chars_eq_str(&m, "IndexOf") {
        let pat = search_chars(arg_ref(args, 0));
        let at: i32 = match first_occurrence(&sv, &pat) {
            Some(i) => i as i32,
            None => -1,
        };
        return Some(IshValue::Int(at));
    }
    if chars_eq_str(&m, "Contains") {
        let pat = search_chars(arg_ref(args, 0));
        return Some(IshValue::Bool(first_occurrence(&sv, &pat).is_some()));
    }
    if chars_eq_str(&m, "ToLower") {
        return Some(IshValue::String(to_lowercase(s.as_str())));
    }
    if chars_eq_str(&m, "ToUpper") {
        return Some(IshValue::String(to_uppercase(s.as_str())));
    }
    if chars_eq_str(&m, "Trim") {
        return Some(IshValue::String(string_from(&trim_chars(&sv))));
    }
    if chars_eq_str(&m, "RemoveSubstring") {
        let pat = search_chars(arg_ref(args, 0));
        if pat.len() == 0 {
            return Some(IshValue::String(s.clone()));
        }
        return Some(IshValue::String(string_from(&strip(&sv, &pat))));
    }
    if chars_eq_str(&m, "Length") {
        return Some(IshValue::Int(sv.len() as i32));
    }
    None
}

/// What calling a method of the language's characters gives.
pub open spec fn char_method_of(c: char, method: Seq<char>) -> Option<IshValue> {
    if method == "IsLetter"@ {
        Some(IshValue::Bool(alphabetic(c)))
    } else if method == "IsDigit"@ {
        Some(IshValue::Bool('0' <= c <= '9'))
    } else if method == "IsWhiteSpace"@ {
        Some(IshValue::Bool(is_ws(c)))
    } else if method == "IsAlnum"@ || method == "IsLetterOrDigit"@ {
        Some(IshValue::Bool(alphanumeric(c)))
    } else if method == "ToLower"@ {
        Some(IshValue::Char(lower_of(c)))
    } else if method == "ToUpper"@ {
        Some(IshValue::Char(upper_of(c)))
    } else {
        None
    }
}

/// Calls a method of the language's characters on `c`; any other method fails.
pub fn char_method(c: char, method: &str) -> (r: Result<IshValue, IshError>)
    ensures
        match char_method_of(c, method@) {
            Some(v) => r == Ok::<IshValue, IshError>(v),
            None => r matches Err(IshError::ExecutionError(x)) && x@ == "Char has no method '"@
                + method@ + "'"@,
        },
{
    let m = chars_of(method);
    if chars_eq_str(&m, "IsLetter") {
        Ok(IshValue::Bool(is_alphabetic(c)))
    } else if chars_eq_str(&m, "IsDigit") {
        Ok(IshValue::Bool('0' <= c && c <= '9'))
    } else if chars_eq_str(&m, "IsWhiteSpace") {
        Ok(IshValue::Bool(is_whitespace(c)))
    } else if chars_eq_str(&m, "IsAlnum") || chars_eq_str(&m, "IsLetterOrDigit") {
        Ok(IshValue::Bool(is_alphanumeric(c)))
    } else if chars_eq_str(&m, "ToLower") {
        Ok(IshValue::Char(char_to_lowercase(c)))
    } else if chars_eq_str(&m, "ToUpper") {
        Ok(IshValue::Char(char_to_uppercase(c)))
    } else {
        Err(IshError::ExecutionError(concat(concat(lit("Char has no method '"), method), "'")))
    }
}

/// What `string.Join` puts between the items.
pub open spec fn separator(arg: Option<IshValue>) -> Seq<char> {
    match arg {
        Some(IshValue::Char(c)) => seq![c],
        Some(IshValue::String(v)) => v@,
        _ => Seq::empty(),
    }
}

/// The items written out, with `sep` between each two.
pub open spec fn joined(items: Seq<IshValue>, sep: Seq<char>) -> Seq<char>
    decreases items.len(),
{
    if items.len() == 0 {
        Seq::empty()
    } else if items.len() == 1 {
        shown(items[0])
    } else {
        joined(items.drop_last(), sep) + sep + shown(items.last())
    }
}

/// Some item is a float.
pub open spec fn has_float(items: Seq<IshValue>) -> bool {
    exists|i: int| 0 <= i < items.len() && #[trigger] items[i] is Float
}

/// What a method called on a type gives.
pub enum TypeCall {
    /// A string with this text.
    Text(Seq<char>),
    /// This value.
    Value(IshValue),
    /// An error with this message.
    Fails(Seq<char>),
    /// A float would be written out, which the caller does.
    NeedsFloat,
}

/// The elements of the array or list that a value refers to; none for anything else.
pub open spec fn elements(heap: Map<usize, HeapObject>, v: IshValue) -> Seq<IshValue> {
    match v {
        IshValue::Reference(id) => if heap.contains_key(id) {
            match heap[id] {
                HeapObject::Array(a) => a@,
                HeapObject::List(a) => a@,
                _ => Seq::empty(),
            }
        } else {
            Seq::empty()
        },
        _ => Seq::empty(),
    }
}

/// Text, unless a float would be written out.
pub open spec fn text_of(items: Seq<IshValue>, sep: Seq<char>) -> TypeCall {
    if has_float(items) {
        TypeCall::NeedsFloat
    } else {
        TypeCall::Text(joined(items, sep))
    }
}

/// What a method called on the type `receiver_type` gives: for `string`, `IsNullOrWhiteSpace`,
/// `Join` (of an array or list, with a separator) and `Concat` (of the items of one array or
/// list, else of the arguments); any other call fails.
pub open spec fn type_method_of(
    heap: Map<usize, HeapObject>,
    receiver_type: Seq<char>,
    method: Seq<char>,
    args: Seq<IshValue>,
) -> TypeCall {
    if receiver_type == "string"@ {
        if method == "IsNullOrWhiteSpace"@ {
            TypeCall::Value(
                IshValue::Bool(
                    match arg_at(args, 0) {
                        Some(IshValue::String(v)) => trim(v@).len() == 0,
                        Some(IshValue::Null) => true,
                        None => true,
                        _ => false,
                    },
                ),
            )
        } else if method == "Join"@ {
            match arg_at(args, 0) {
                Some(IshValue::Reference(id)) => if !heap.contains_key(id) {
                    TypeCall::Text(Seq::empty())
                } else if heap[id] is Array || heap[id] is List {
                    text_of(elements(heap, IshValue::Reference(id)), separator(arg_at(args, 1)))
                } else {
                    TypeCall::Fails("string.Join requires an array or list"@)
                },
                _ => TypeCall::Fails("string.Join requires an array or list"@),
            }
        } else if method == "Concat"@ {
            if args.len() == 1 && args[0] is Reference {
                text_of(elements(heap, args[0]), Seq::empty())
            } else {
                text_of(args, Seq::empty())
            }
        } else {
            TypeCall::Fails("Unknown static method on string: "@ + method)
        }
    } else {
        TypeCall::Fails("Cannot call method '"@ + method + "' on type '"@ + receiver_type + "'"@)
    }
}

/// Writes out the items with `sep` between each two; nothing where an item is a float.
pub(crate) fn join_items(items: &Vec<IshValue>, sep: &Vec<char>) -> (r: Option<String>)
    ensures
        r is None <==> has_float(items@),
        r matches Some(t) ==> t@ == joined(items@, sep@),
{
    let mut out = String::new();
    let mut i: usize = 0;
    let sep_text = string_from(sep);
    proof {
        assert(items@.take(0) =~= Seq::<IshValue>::empty());
    }
    while i < items.len()
        invariant
            i <= items@.len(),
            sep_text@ == sep@,
            !has_float(items@.take(i as int)),
            out@ == joined(items@.take(i as int), sep@),
        decreases items.len() - i,
    {
        if let IshValue::Float(_) = &items[i] {
            proof {
                assert(items@[i as int] is Float);
            }
            return None;
        }
        let piece = show(&items[i]);
        proof {
            assert(items@.take(i + 1).drop_last() =~= items@.take(i as int));
        }
        if i == 0 {
            out = piece;
        } else {
            out = concat(concat(out, sep_text.as_str()), piece.as_str());
        }
        i += 1;
        proof {
            assert forall|k: int| 0 <= k < i implies !(#[trigger] items@.take(i as int)[k] is Float) by {
                if k < i - 1 {
                    assert(items@.take(i as int)[k] == items@.take(i - 1)[k]);
                }
            }
        }
    }
    proof {
        assert(items@.take(items@.len() as int) =~= items@);
    }
    Some(out)
}

fn separator_chars(arg: Option<&IshValue>) -> (r: Vec<char>)
    ensures
        r@ == separator(
            match arg {
                Some(v) => Some(*v),
                None => None,
            },
        ),
{
    match arg {
        Some(IshValue::Char(c)) => {
            let mut r: Vec<char> = Vec::new();
            r.push(*c);
            proof {
                assert(r@ =~= seq![*c]);
            }
            r
        },
        Some(IshValue::String(v)) => chars_of(v.as_str()),
        _ => Vec::new(),
    }
}

fn type_result(t: Option<String>) -> (r: Option<Result<IshValue, IshError>>)
    ensures
        t is None ==> r is None,
        t matches Some(x) ==> (r matches Some(Ok(IshValue::String(y))) && y@ == x@),
{
    match t {
        Some(x) => Some(Ok(IshValue::String(x))),
        None => None,
    }
}

/// Calls a method on the type `receiver_type` (see `type_method_of`); nothing where a float would
/// be written out, which the caller does.
pub fn type_method(heap: &Gobbler, receiver_type: &str, method: &str, args: &Vec<IshValue>) -> (r: Option<
    Result<IshValue, IshError>,
>)
    ensures
        match type_method_of(heap.heap(), receiver_type@, method@, args@) {
            TypeCall::Text(t) => r matches Some(Ok(IshValue::String(x))) && x@ == t,
            TypeCall::Value(v) => r == Some(Ok::<IshValue, IshError>(v)),
            TypeCall::Fails(m) => r matches Some(Err(IshError::ExecutionError(x))) && x@ == m,
            TypeCall::NeedsFloat => r is None,
        },
{
    let tv = chars_of(receiver_type);
    let m = chars_of(method);
    if !chars_eq_str(&tv, "string") {
        let msg = concat(concat(concat(concat(lit("Cannot call method '"), method), "' on type '"), receiver_type), "'");
        return Some(Err(IshError::ExecutionError(msg)));
    }
    if chars_eq_str(&m, "IsNullOrWhiteSpace") {
        let b = match arg_ref(args, 0) {
            Some(IshValue::String(v)) => trim_chars(&chars_of(v.as_str())).len() == 0,
            Some(IshValue::Null) => true,
            None => true,
            _ => false,
        };
        return Some(Ok(IshValue::Bool(b)));
    }
    if chars_eq_str(&m, "Join") {
        return match arg_ref(args, 0) {
            Some(IshValue::Reference(id)) => match heap.get(*id) {
                None => Some(Ok(IshValue::String(String::new()))),
                Some(HeapObject::Array(a)) => type_result(join_items(a, &separator_chars(arg_ref(args, 1)))),
                Some(HeapObject::List(a)) => type_result(join_items(a, &separator_chars(arg_ref(args, 1)))),
                Some(_) => Some(Err(IshError::ExecutionError(lit("string.Join requires an array or list")))),
            },
            _ => Some(Err(IshError::ExecutionError(lit("string.Join requires an array or list")))),
        };
    }
    if chars_eq_str(&m, "Concat") {
        let none: Vec<char> = Vec::new();
        if args.len() == 1 {
            if let IshValue::Reference(id) = &args[0] {
                return match heap.get(*id) {
                    Some(HeapObject::Array(a)) => type_result(join_items(a, &none)),
                    Some(HeapObject::List(a)) => type_result(join_items(a, &none)),
                    _ => {
                        let empty: Vec<IshValue> = Vec::new();
                        proof {
                            assert(empty@ =~= Seq::<IshValue>::empty());
                        }
                        type_result(join_items(&empty, &none))
                    },
                };
            }
        }
        return type_result(join_items(args, &none));
    }
    let msg = concat(lit("Unknown static method on string: "), method);
    Some(Err(IshError::ExecutionError(msg)))
}

} // verus!
