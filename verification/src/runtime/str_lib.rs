use vstd::prelude::*;
use vstd::utf8::{encode_scalar, encode_utf8};
use crate::error::IshError;
use crate::runtime::gobbler::{Gobbler, HeapObject};
use crate::runtime::ops::{show, shown};
use crate::runtime::strings::{first_occurrence, has_float, join_items, joined, occurrence_from, occurs_at, occurs_here};
use crate::runtime::value::IshValue;
use crate::text::{
    chars_eq_str, chars_of, concat, is_whitespace, lit, lower_text, skip_ws, skip_ws_back,
    string_from, sub_chars, to_lowercase, to_uppercase, trim, trim_chars, upper_text,
};

verus! {

/// How many bytes the UTF-8 encoding of a text takes.
pub open spec fn byte_len(s: Seq<char>) -> nat {
    encode_utf8(s).len()
}

/// How many bytes the UTF-8 encoding of a character takes.
pub open spec fn width(c: char) -> nat {
    encode_scalar(c as u32).len()
}

proof fn lemma_encode_concat(a: Seq<char>, b: Seq<char>)
    ensures
        encode_utf8(a + b) == encode_utf8(a) + encode_utf8(b),
    decreases a.len(),
{
    if a.len() == 0 {
        assert(a + b =~= b);
        assert(encode_utf8(a) =~= Seq::<u8>::empty());
        assert(encode_utf8(a) + encode_utf8(b) =~= encode_utf8(b));
    } else {
        assert((a + b).drop_first() =~= a.drop_first() + b);
        assert((a + b)[0] == a[0]);
        lemma_encode_concat(a.drop_first(), b);
        assert(encode_utf8(a + b) =~= encode_utf8(a) + encode_utf8(b));
    }
}

proof fn lemma_prefix_bytes(s: Seq<char>, k: int)
    requires
        0 <= k < s.len(),
    ensures
        byte_len(s.take(k + 1)) == byte_len(s.take(k)) + width(s[k]),
{
    assert(s.take(k + 1) =~= s.take(k) + seq![s[k]]);
    lemma_encode_concat(s.take(k), seq![s[k]]);
    let one = seq![s[k]];
    assert(one.drop_first() =~= Seq::<char>::empty());
    assert(one[0] == s[k]);
    assert(encode_utf8(one.drop_first()) =~= Seq::<u8>::empty());
    assert(encode_utf8(one) == encode_scalar(s[k] as u32) + encode_utf8(one.drop_first()));
    assert(encode_utf8(one) =~= encode_scalar(s[k] as u32));
}

proof fn lemma_prefix_within(s: Seq<char>, k: int)
    requires
        0 <= k <= s.len(),
    ensures
        byte_len(s.take(k)) <= byte_len(s),
{
    assert(s =~= s.take(k) + s.skip(k));
    lemma_encode_concat(s.take(k), s.skip(k));
}

fn char_width(c: char) -> (w: usize)
    ensures
        w == width(c),
        1 <= w <= 4,
{
    proof {
        vstd::utf8::char_is_scalar(c);
    }
    let u = c as u32;
    if u <= 0x7f {
        1
    } else if u <= 0x7ff {
        2
    } else if u <= 0xffff {
        3
    } else {
        4
    }
}

/// The bytes of a text (fitting in memory) up to each character: how many precede character
/// `k` (each up to `k`), as found by one pass.
fn bytes_before(s: &Vec<char>, k: usize) -> (b: usize)
    requires
        k <= s@.len(),
        byte_len(s@) <= usize::MAX,
    ensures
        b == byte_len(s@.take(k as int)),
{
    let mut acc: usize = 0;
    let mut i: usize = 0;
    proof {
        assert(s@.take(0) =~= Seq::<char>::empty());
    }
    while i < k
        invariant
            i <= k <= s@.len(),
            byte_len(s@) <= usize::MAX,
            acc == byte_len(s@.take(i as int)),
        decreases k - i,
    {
        proof {
            lemma_prefix_bytes(s@, i as int);
            lemma_prefix_within(s@, i + 1);
        }
        acc = acc + char_width(s[i]);
        i += 1;
    }
    acc
}

/// Where the character at which byte `b` begins stands, looking from character `k` on; -1 where
/// byte `b` begins no character (it lies within one, or past the end).
pub open spec fn boundary_from(s: Seq<char>, b: int, k: int) -> int
    decreases s.len() + 1 - k,
{
    if k < 0 || k > s.len() {
        -1
    } else if byte_len(s.take(k)) == b {
        k
    } else {
        boundary_from(s, b, k + 1)
    }
}

/// Where the character at which byte `b` begins stands, or -1.
pub open spec fn boundary(s: Seq<char>, b: int) -> int {
    boundary_from(s, b, 0)
}

fn boundary_of(s: &Vec<char>, b: usize) -> (r: Option<usize>)
    requires
        byte_len(s@) <= usize::MAX,
    ensures
        match r {
            Some(k) => k as int == boundary(s@, b as int),
            None => boundary(s@, b as int) == -1,
        },
{
    let mut acc: usize = 0;
    let mut k: usize = 0;
    proof {
        assert(s@.take(0) =~= Seq::<char>::empty());
    }
    while k <= s.len()
        invariant
            k <= s@.len() + 1,
            byte_len(s@) <= usize::MAX,
            k <= s@.len() ==> acc == byte_len(s@.take(k as int)),
            boundary(s@, b as int) == boundary_from(s@, b as int, k as int),
        decreases s@.len() + 1 - k,
    {
        if acc == b {
            return Some(k);
        }
        if k == s.len() {
            proof {
                assert(boundary_from(s@, b as int, k + 1) == -1);
            }
            return None;
        }
        proof {
            lemma_prefix_bytes(s@, k as int);
            lemma_prefix_within(s@, k + 1);
        }
        acc = acc + char_width(s[k]);
        k += 1;
    }
    None
}

/// The parts of `s` between the occurrences of `sep` (a non-empty text), taken from the left
/// without overlap, the current part starting at `start`, the search at `i`.
pub open spec fn parts_from(s: Seq<char>, sep: Seq<char>, i: int, start: int) -> Seq<Seq<char>>
    decreases s.len() + 1 - i,
{
    if sep.len() == 0 || i < 0 || i + sep.len() > s.len() {
        seq![s.subrange(start, s.len() as int)]
    } else if occurs_at(s, sep, i) {
        seq![s.subrange(start, i)] + parts_from(s, sep, i + sep.len(), i + sep.len())
    } else {
        parts_from(s, sep, i + 1, start)
    }
}

/// `str::split` by a text: the parts between the occurrences of `sep`; by the empty text, an
/// empty part, each character, and an empty part.
pub open spec fn split_parts(s: Seq<char>, sep: Seq<char>) -> Seq<Seq<char>> {
    if sep.len() == 0 {
        seq![Seq::<char>::empty()] + singles(s) + seq![Seq::<char>::empty()]
    } else {
        parts_from(s, sep, 0, 0)
    }
}

/// `s` from `i` on with the occurrences of `from` (a non-empty text) replaced by `to`, taken from
/// the left without overlap.
pub open spec fn replaced_from(s: Seq<char>, from: Seq<char>, to: Seq<char>, i: int) -> Seq<char>
    decreases s.len() - i,
{
    if from.len() == 0 || i < 0 || i >= s.len() {
        Seq::empty()
    } else if occurs_at(s, from, i) {
        to + replaced_from(s, from, to, i + from.len())
    } else {
        seq![s[i]] + replaced_from(s, from, to, i + 1)
    }
}

/// `to` before each character of `s` and at the end.
pub open spec fn interleaved(s: Seq<char>, to: Seq<char>) -> Seq<char>
    decreases s.len(),
{
    if s.len() == 0 {
        to
    } else {
        to + seq![s[0]] + interleaved(s.drop_first(), to)
    }
}

/// `str::replace`: the occurrences of `from` replaced by `to`; for the empty text, `to` put
/// before each character and at the end.
pub open spec fn replaced(s: Seq<char>, from: Seq<char>, to: Seq<char>) -> Seq<char> {
    if from.len() == 0 {
        interleaved(s, to)
    } else {
        replaced_from(s, from, to, 0)
    }
}

/// Each character as a text of its own.
pub open spec fn singles(s: Seq<char>) -> Seq<Seq<char>> {
    s.map_values(|c: char| seq![c])
}

/// Texts as plain values.
pub open spec fn texts(r: Seq<Vec<char>>) -> Seq<Seq<char>> {
    r.map_values(|v: Vec<char>| v@)
}

pub(crate) fn split_text(s: &Vec<char>, sep: &Vec<char>) -> (r: Vec<Vec<char>>)
    ensures
        texts(r@) == (if sep@.len() == 0 {
            seq![Seq::<char>::empty()] + singles(s@) + seq![Seq::<char>::empty()]
        } else {
            parts_from(s@, sep@, 0, 0)
        }),
{
    let mut out: Vec<Vec<char>> = Vec::new();
    if sep.len() == 0 {
        out.push(Vec::new());
        let mut k: usize = 0;
        proof {
            assert(texts(out@) =~= seq![Seq::<char>::empty()] + singles(s@.take(0)));
        }
        while k < s.len()
            invariant
                k <= s@.len(),
                texts(out@) == seq![Seq::<char>::empty()] + singles(s@.take(k as int)),
            decreases s.len() - k,
        {
            let mut one: Vec<char> = Vec::new();
            one.push(s[k]);
            proof {
                assert(one@ =~= seq![s@[k as int]]);
                assert(singles(s@.take(k + 1)) =~= singles(s@.take(k as int)).push(seq![s@[k as int]]));
            }
            let ghost before = texts(out@);
            let ghost o = one@;
            out.push(one);
            proof {
                assert(texts(out@) =~= before.push(o));
            }
            k += 1;
            proof {
                assert(texts(out@) =~= seq![Seq::<char>::empty()] + singles(s@.take(k as int)));
            }
        }
        out.push(Vec::new());
        proof {
            assert(s@.take(s@.len() as int) =~= s@);
            assert(texts(out@) =~= seq![Seq::<char>::empty()] + singles(s@) + seq![
                Seq::<char>::empty(),
            ]);
        }
        return out;
    }
    let mut i: usize = 0;
    let mut start: usize = 0;
    proof {
        assert(texts(out@) + parts_from(s@, sep@, 0, 0) =~= parts_from(s@, sep@, 0, 0));
    }
    while i < s.len() && sep.len() <= s.len() - i
        invariant
            sep@.len() > 0,
            start <= i <= s@.len(),
            texts(out@) + parts_from(s@, sep@, i as int, start as int) == parts_from(
                s@,
                sep@,
                0,
                0,
            ),
        decreases s.len() - i,
    {
        if occurs_here(s, sep, i) {
            let part = sub_chars(s, start, i);
            let ghost before = texts(out@);
            out.push(part);
            proof {
                assert(texts(out@) =~= before.push(part@));
                assert(texts(out@) + parts_from(s@, sep@, i + sep@.len(), i + sep@.len()) =~= before
                    + parts_from(s@, sep@, i as int, start as int));
            }
            i = i + sep.len();
            start = i;
        } else {
            i += 1;
        }
    }
    let last = sub_chars(s, start, s.len());
    let ghost before = texts(out@);
    out.push(last);
    proof {
        assert(texts(out@) =~= before + parts_from(s@, sep@, i as int, start as int));
    }
    out
}

fn replace_text(s: &Vec<char>, from: &Vec<char>, to: &Vec<char>) -> (r: Vec<char>)
    ensures
        r@ == replaced(s@, from@, to@),
{
    let mut out: Vec<char> = Vec::new();
    if from.len() == 0 {
        let mut k: usize = 0;
        proof {
            assert(s@.skip(0) =~= s@);
            assert(out@ + interleaved(s@.skip(0), to@) =~= interleaved(s@, to@));
        }
        while k < s.len()
            invariant
                k <= s@.len(),
                out@ + interleaved(s@.skip(k as int), to@) == interleaved(s@, to@),
            decreases s.len() - k,
        {
            let mut j: usize = 0;
            let ghost o0 = out@;
            while j < to.len()
                invariant
                    j <= to@.len(),
                    out@ == o0 + to@.take(j as int),
                decreases to.len() - j,
            {
                out.push(to[j]);
                j += 1;
                proof {
                    assert(out@ =~= o0 + to@.take(j as int));
                }
            }
            out.push(s[k]);
            proof {
                assert(to@.take(to@.len() as int) =~= to@);
                assert(s@.skip(k as int).drop_first() =~= s@.skip(k + 1));
                assert(s@.skip(k as int)[0] == s@[k as int]);
                assert(out@ + interleaved(s@.skip(k + 1), to@) =~= o0 + interleaved(
                    s@.skip(k as int),
                    to@,
                ));
            }
            k += 1;
        }
        let mut j: usize = 0;
        let ghost o0 = out@;
        while j < to.len()
            invariant
                j <= to@.len(),
                out@ == o0 + to@.take(j as int),
            decreases to.len() - j,
        {
            out.push(to[j]);
            j += 1;
            proof {
                assert(out@ =~= o0 + to@.take(j as int));
            }
        }
        proof {
            assert(to@.take(to@.len() as int) =~= to@);
            assert(s@.skip(s@.len() as int) =~= Seq::<char>::empty());
        }
        return out;
    }
    let mut i: usize = 0;
    proof {
        assert(out@ + replaced_from(s@, from@, to@, 0) =~= replaced_from(s@, from@, to@, 0));
    }
    while i < s.len()
        invariant
            from@.len() > 0,
            i <= s@.len(),
            out@ + replaced_from(s@, from@, to@, i as int) == replaced_from(s@, from@, to@, 0),
        decreases s.len() - i,
    {
        if from.len() <= s.len() - i && occurs_here(s, from, i) {
            let mut j: usize = 0;
            let ghost o0 = out@;
            while j < to.len()
                invariant
                    j <= to@.len(),
                    out@ == o0 + to@.take(j as int),
                decreases to.len() - j,
            {
                out.push(to[j]);
                j += 1;
                proof {
                    assert(out@ =~= o0 + to@.take(j as int));
                }
            }
            proof {
                assert(to@.take(to@.len() as int) =~= to@);
                assert(out@ + replaced_from(s@, from@, to@, i + from@.len()) =~= o0 + replaced_from(
                    s@,
                    from@,
                    to@,
                    i as int,
                ));
            }
            i = i + from.len();
        } else {
            let ghost o0 = out@;
            out.push(s[i]);
            proof {
                assert(out@ + replaced_from(s@, from@, to@, i + 1) =~= o0 + replaced_from(
                    s@,
                    from@,
                    to@,
                    i as int,
                ));
            }
            i += 1;
        }
    }
    proof {
        assert(out@ + replaced_from(s@, from@, to@, i as int) =~= out@);
    }
    out
}

fn reverse_text(s: &Vec<char>) -> (r: Vec<char>)
    ensures
        r@ == s@.reverse(),
{
    let mut out: Vec<char> = Vec::new();
    let mut k = s.len();
    while k > 0
        invariant
            k <= s@.len(),
            out@.len() == s@.len() - k,
            forall|j: int| 0 <= j < out@.len() ==> out@[j] == s@[s@.len() - 1 - j],
        decreases k,
    {
        out.push(s[k - 1]);
        k -= 1;
    }
    proof {
        assert(out@ =~= s@.reverse());
    }
    out
}

/// What a method of the `Str` library gives.
pub enum StrCall {
    /// A string with this text.
    Text(Seq<char>),
    /// This value.
    Value(IshValue),
    /// A new array of strings with these texts.
    Parts(Seq<Seq<char>>),
    /// An error with this message.
    Fails(Seq<char>),
    /// A float would be written out, which the caller does.
    NeedsFloat,
}

/// A text-only method of `Str` on one argument: its name, the message where the argument is
/// missing, and what it makes of the text.
pub open spec fn one_text(args: Seq<IshValue>, missing: Seq<char>, result: spec_fn(Seq<char>) -> StrCall) -> StrCall {
    if args.len() == 0 {
        StrCall::Fails(missing)
    } else if args[0] is Float {
        StrCall::NeedsFloat
    } else {
        result(shown(args[0]))
    }
}

/// Where `Str.Substring` cuts, in bytes: from the second argument (an integer) up to the third
/// where it is an integer, else the end; nothing where the range is not within the text.
pub open spec fn byte_range(s: Seq<char>, args: Seq<IshValue>) -> Option<(int, int)> {
    let start: int = match args[1] {
        IshValue::Int(i) => i as int,
        _ => 0,
    };
    let end: int = if args.len() > 2 && args[2] is Int {
        match args[2] {
            IshValue::Int(e) => e as int,
            _ => 0,
        }
    } else {
        byte_len(s) as int
    };
    if start < 0 || end < 0 || start > byte_len(s) || end > byte_len(s) || start > end {
        None
    } else {
        Some((start, end))
    }
}

/// What calling `method` of the `Str` library with `args` gives.
pub open spec fn str_call(heap: Map<usize, HeapObject>, method: Seq<char>, args: Seq<IshValue>) -> StrCall {
    if method == "ToLower"@ {
        one_text(args, "Str.ToLower requires 1 argument"@, |s: Seq<char>| StrCall::Text(lower_text(s)))
    } else if method == "ToUpper"@ {
        one_text(args, "Str.ToUpper requires 1 argument"@, |s: Seq<char>| StrCall::Text(upper_text(s)))
    } else if method == "Reverse"@ {
        one_text(args, "Str.Reverse requires 1 argument"@, |s: Seq<char>| StrCall::Text(s.reverse()))
    } else if method == "Trim"@ {
        one_text(args, "Str.Trim requires 1 argument"@, |s: Seq<char>| StrCall::Text(trim(s)))
    } else if method == "TrimStart"@ {
        one_text(
            args,
            "Str.TrimStart requires 1 argument"@,
            |s: Seq<char>| StrCall::Text(s.subrange(skip_ws(s, 0), s.len() as int)),
        )
    } else if method == "TrimEnd"@ {
        one_text(
            args,
            "Str.TrimEnd requires 1 argument"@,
            |s: Seq<char>| StrCall::Text(s.subrange(0, skip_ws_back(s, s.len() as int))),
        )
    } else if method == "Length"@ {
        one_text(
            args,
            "Str.Length requires 1 argument"@,
            |s: Seq<char>| StrCall::Value(IshValue::Int(byte_len(s) as i32)),
        )
    } else if method == "Contains"@ {
        if args.len() < 2 {
            StrCall::Fails("Str.Contains requires 2 args"@)
        } else if args[0] is Float || args[1] is Float {
            StrCall::NeedsFloat
        } else {
            StrCall::Value(IshValue::Bool(occurrence_from(shown(args[0]), shown(args[1]), 0) >= 0))
        }
    } else if method == "IndexOf"@ {
        if args.len() < 2 {
            StrCall::Fails("Str.IndexOf requires 2 args"@)
        } else if args[0] is Float || args[1] is Float {
            StrCall::NeedsFloat
        } else {
            let s = shown(args[0]);
            let o = occurrence_from(s, shown(args[1]), 0);
            StrCall::Value(
                IshValue::Int(
                    if o < 0 {
                        -1i32
                    } else {
                        byte_len(s.take(o)) as i32
                    },
                ),
            )
        }
    } else if method == "Substring"@ {
        if args.len() < 2 {
            StrCall::Fails("Str.Substring requires >= 2 args"@)
        } else if !(args[1] is Int) {
            StrCall::Fails("Substring start must be int"@)
        } else if args[0] is Float {
            StrCall::NeedsFloat
        } else {
            let s = shown(args[0]);
            match byte_range(s, args) {
                None => StrCall::Fails("Invalid substring indices"@),
                Some((a, b)) => StrCall::Text(s.subrange(boundary(s, a), boundary(s, b))),
            }
        }
    } else if method == "Join"@ {
        if args.len() < 2 {
            StrCall::Fails("Str.Join requires array and sep"@)
        } else {
            match args[0] {
                IshValue::Reference(id) => if heap.contains_key(id) && heap[id] is Array {
                    match heap[id] {
                        HeapObject::Array(items) => if args[1] is Float || has_float(items@) {
                            StrCall::NeedsFloat
                        } else {
                            StrCall::Text(joined(items@, shown(args[1])))
                        },
                        _ => StrCall::NeedsFloat,
                    }
                } else {
                    StrCall::Fails("First argument to Join must be an array reference"@)
                },
                _ => StrCall::Fails("First argument to Join must be an array reference"@),
            }
        }
    } else if method == "Split"@ {
        if args.len() < 2 {
            StrCall::Fails("Str.Split requires string and sep"@)
        } else if args[0] is Float || args[1] is Float {
            StrCall::NeedsFloat
        } else {
            StrCall::Parts(split_parts(shown(args[0]), shown(args[1])))
        }
    } else if method == "Replace"@ {
        if args.len() < 3 {
            StrCall::Fails("Str.Replace requires 3 args"@)
        } else if args[0] is Float || args[1] is Float || args[2] is Float {
            StrCall::NeedsFloat
        } else {
            StrCall::Text(replaced(shown(args[0]), shown(args[1]), shown(args[2])))
        }
    } else {
        StrCall::Fails("Method "@ + method + " not found in Str"@)
    }
}

/// `Str.Substring` would cut within a character (where Rust panics).
pub open spec fn cuts_within(method: Seq<char>, args: Seq<IshValue>) -> bool {
    method == "Substring"@ && args.len() >= 2 && args[1] is Int && !(args[0] is Float) && (match byte_range(
        shown(args[0]),
        args,
    ) {
        Some((a, b)) => boundary(shown(args[0]), a) < 0 || boundary(shown(args[0]), b) < 0,
        None => false,
    })
}

/// The array of strings with the texts given.
pub open spec fn strings_array(o: HeapObject, parts: Seq<Seq<char>>) -> bool {
    o matches HeapObject::Array(items) && items@.len() == parts.len() && forall|j: int|
        0 <= j < parts.len() ==> (#[trigger] items@[j] matches IshValue::String(t) && t@ == parts[j])
}

/// The `Str` library of the runtime: text functions on the text of their arguments.
pub struct IshStr;

fn text_value(t: Vec<char>) -> (r: Option<Result<IshValue, IshError>>)
    ensures
        r matches Some(Ok(IshValue::String(x))) && x@ == t@,
{
    Some(Ok(IshValue::String(string_from(&t))))
}

fn str_fails(m: &str) -> (r: Option<Result<IshValue, IshError>>)
    ensures
        r matches Some(Err(IshError::ExecutionError(x))) && x@ == m@,
{
    Some(Err(IshError::ExecutionError(lit(m))))
}

fn arg_text(v: &IshValue) -> (r: Vec<char>)
    requires
        !(*v is Float),
    ensures
        r@ == shown(*v),
{
    chars_of(show(v).as_str())
}

fn is_float_value(v: &IshValue) -> (r: bool)
    ensures
        r == (*v is Float),
{
    match v {
        IshValue::Float(_) => true,
        _ => false,
    }
}

impl IshStr {
    /// The name under which programs call the library.
    pub fn name(&self) -> (r: &'static str)
        ensures
            r@ == "Str"@,
    {
        "Str"
    }

    /// The library answers every method name (unknown ones with an error).
    pub fn handles_method(&self, method: &str) -> (r: bool)
        ensures
            r,
    {
        true
    }

    /// Whether `Substring` with these arguments would cut within a character (where Rust
    /// panics).
    pub fn cuts_within_char(&self, method: &str, args: &[IshValue]) -> (r: bool)
        requires
            args@.len() > 0 && !(args@[0] is Float) ==> byte_len(shown(args@[0])) <= usize::MAX,
        ensures
            r == cuts_within(method@, args@),
    {
        let m = chars_of(method);
        if !chars_eq_str(&m, "Substring") || args.len() < 2 || is_float_value(&args[0]) {
            return false;
        }
        let start: i32 = match &args[1] {
            IshValue::Int(i) => *i,
            _ => {
                return false;
            },
        };
        let s = arg_text(&args[0]);
        match self.range_of(&s, args) {
            None => false,
            Some((a, b)) => boundary_of(&s, a).is_none() || boundary_of(&s, b).is_none(),
        }
    }

    fn range_of(&self, s: &Vec<char>, args: &[IshValue]) -> (r: Option<(usize, usize)>)
        requires
            args@.len() >= 2,
            args@[1] is Int,
            byte_len(s@) <= usize::MAX,
        ensures
            match byte_range(s@, args@) {
                Some((a, b)) => r == Some((a as usize, b as usize)),
                None => r is None,
            },
    {
        let total = bytes_before(s, s.len());
        proof {
            assert(s@.take(s@.len() as int) =~= s@);
        }
        let start: i32 = match &args[1] {
            IshValue::Int(i) => *i,
            _ => 0,
        };
        let mut end_neg = false;
        let mut end: usize = total;
        if args.len() > 2 {
            if let IshValue::Int(e) = &args[2] {
                if *e < 0 {
                    end_neg = true;
                } else {
                    end = *e as usize;
                }
            }
        }
        if start < 0 || end_neg || (start as usize) > total || end > total || (start as usize) > end {
            None
        } else {
            Some((start as usize, end))
        }
    }

    /// Calls `method` of the library with `args` (see `str_call`); nothing where a float would
    /// be written out, which the caller does. `Split` puts its array on the heap.
    pub fn execute_method(&self, method: &str, args: &[IshValue], heap: &mut Gobbler) -> (r: Option<
        Result<IshValue, IshError>,
    >)
        requires
            old(heap).wf(),
            old(heap).next_id < usize::MAX,
            old(heap).allocations_since_minor < usize::MAX,
            args@.len() > 0 && !(args@[0] is Float) ==> byte_len(shown(args@[0])) <= usize::MAX,
            !cuts_within(method@, args@),
        ensures
            final(heap).wf(),
            match str_call(old(heap).heap(), method@, args@) {
                StrCall::Text(t) => (r matches Some(Ok(IshValue::String(x))) && x@ == t)
                    && *final(heap) == *old(heap),
                StrCall::Value(v) => r == Some(Ok::<IshValue, IshError>(v))
                    && *final(heap) == *old(heap),
                StrCall::Parts(ps) => (r matches Some(Ok(IshValue::Reference(id)))
                    && id == old(heap).next_id
                    && final(heap).heap() == old(heap).heap().insert(id, final(heap).heap()[id])
                    && strings_array(final(heap).heap()[id], ps)),
                StrCall::Fails(m) => (r matches Some(Err(IshError::ExecutionError(x))) && x@ == m)
                    && *final(heap) == *old(heap),
                StrCall::NeedsFloat => r is None && *final(heap) == *old(heap),
            },
    {
        let m = chars_of(method);
        if chars_eq_str(&m, "ToLower") || chars_eq_str(&m, "ToUpper") || chars_eq_str(&m, "Reverse")
            || chars_eq_str(&m, "Trim") || chars_eq_str(&m, "TrimStart") || chars_eq_str(&m, "TrimEnd")
            || chars_eq_str(&m, "Length") {
            if args.len() == 0 {
                return if chars_eq_str(&m, "ToLower") {
                    str_fails("Str.ToLower requires 1 argument")
                } else if chars_eq_str(&m, "ToUpper") {
                    str_fails("Str.ToUpper requires 1 argument")
                } else if chars_eq_str(&m, "Reverse") {
                    str_fails("Str.Reverse requires 1 argument")
                } else if chars_eq_str(&m, "Trim") {
                    str_fails("Str.Trim requires 1 argument")
                } else if chars_eq_str(&m, "TrimStart") {
                    str_fails("Str.TrimStart requires 1 argument")
                } else if chars_eq_str(&m, "TrimEnd") {
                    str_fails("Str.TrimEnd requires 1 argument")
                } else {
                    str_fails("Str.Length requires 1 argument")
                };
            }
            if is_float_value(&args[0]) {
                return None;
            }
            let s = arg_text(&args[0]);
            return if chars_eq_str(&m, "ToLower") {
                Some(Ok(IshValue::String(to_lowercase(string_from(&s).as_str()))))
            } else if chars_eq_str(&m, "ToUpper") {
                Some(Ok(IshValue::String(to_uppercase(string_from(&s).as_str()))))
            } else if chars_eq_str(&m, "Reverse") {
                text_value(reverse_text(&s))
            } else if chars_eq_str(&m, "Trim") {
                text_value(trim_chars(&s))
            } else if chars_eq_str(&m, "TrimStart") {
                let mut a: usize = 0;
                while a < s.len() && is_whitespace(s[a])
                    invariant
                        a <= s@.len(),
                        skip_ws(s@, 0) == skip_ws(s@, a as int),
                    decreases s.len() - a,
                {
                    a += 1;
                }
                text_value(sub_chars(&s, a, s.len()))
            } else if chars_eq_str(&m, "TrimEnd") {
                let mut b: usize = s.len();
                while b > 0 && is_whitespace(s[b - 1])
                    invariant
                        b <= s@.len(),
                        skip_ws_back(s@, s@.len() as int) == skip_ws_back(s@, b as int),
                    decreases b,
                {
                    b -= 1;
                }
                text_value(sub_chars(&s, 0, b))
            } else {
                let n = bytes_before(&s, s.len());
                proof {
                    assert(s@.take(s@.len() as int) =~= s@);
                }
                Some(Ok(IshValue::Int(n as i32)))
            };
        }
        if chars_eq_str(&m, "Contains") || chars_eq_str(&m, "IndexOf") {
            if args.len() < 2 {
                return if chars_eq_str(&m, "Contains") {
                    str_fails("Str.Contains requires 2 args")
                } else {
                    str_fails("Str.IndexOf requires 2 args")
                };
            }
            if is_float_value(&args[0]) || is_float_value(&args[1]) {
                return None;
            }
            let s = arg_text(&args[0]);
            let pat = arg_text(&args[1]);
            let found = first_occurrence(&s, &pat);
            if chars_eq_str(&m, "Contains") {
                return Some(Ok(IshValue::Bool(found.is_some())));
            }
            return match found {
                None => Some(Ok(IshValue::Int(-1))),
                Some(o) => {
                    proof {
                        lemma_occurrence_within(s@, pat@, 0);
                    }
                    let b = bytes_before(&s, o);
                    Some(Ok(IshValue::Int(b as i32)))
                },
            };
        }
        if chars_eq_str(&m, "Substring") {
            if args.len() < 2 {
                return str_fails("Str.Substring requires >= 2 args");
            }
            match &args[1] {
                IshValue::Int(_) => {},
                _ => {
                    return str_fails("Substring start must be int");
                },
            }
            if is_float_value(&args[0]) {
                return None;
            }
            let s = arg_text(&args[0]);
            return match self.range_of(&s, args) {
                None => str_fails("Invalid substring indices"),
                Some((a, b)) => {
                    let ka = boundary_of(&s, a);
                    let kb = boundary_of(&s, b);
                    match (ka, kb) {
                        (Some(x), Some(y)) => {
                            proof {
                                lemma_boundary_within(s@, a as int, 0);
                                lemma_boundary_within(s@, b as int, 0);
                                lemma_boundary_order(s@, a as int, b as int);
                            }
                            text_value(sub_chars(&s, x, y))
                        },
                        _ => {
                            proof {
                                assert(false);
                            }
                            None
                        },
                    }
                },
            };
        }
        if chars_eq_str(&m, "Join") {
            if args.len() < 2 {
                return str_fails("Str.Join requires array and sep");
            }
            return match &args[0] {
                IshValue::Reference(id) => match heap.get(*id) {
                    Some(HeapObject::Array(items)) => {
                        if is_float_value(&args[1]) {
                            return None;
                        }
                        let sep = arg_text(&args[1]);
                        match join_items(items, &sep) {
                            None => None,
                            Some(t) => Some(Ok(IshValue::String(t))),
                        }
                    },
                    _ => str_fails("First argument to Join must be an array reference"),
                },
                _ => str_fails("First argument to Join must be an array reference"),
            };
        }
        if chars_eq_str(&m, "Split") {
            if args.len() < 2 {
                return str_fails("Str.Split requires string and sep");
            }
            if is_float_value(&args[0]) || is_float_value(&args[1]) {
                return None;
            }
            let s = arg_text(&args[0]);
            let sep = arg_text(&args[1]);
            let parts = split_text(&s, &sep);
            let mut items: Vec<IshValue> = Vec::new();
            let mut j: usize = 0;
            while j < parts.len()
                invariant
                    j <= parts@.len(),
                    items@.len() == j,
                    forall|q: int|
                        0 <= q < j ==> (#[trigger] items@[q] matches IshValue::String(t) && t@
                            == parts@[q]@),
                decreases parts.len() - j,
            {
                items.push(IshValue::String(string_from(&parts[j])));
                j += 1;
            }
            let ghost ps = texts(parts@);
            proof {
                assert(ps == split_parts(s@, sep@));
            }
            let obj = HeapObject::Array(items);
            let ghost o = obj;
            let id = heap.allocate(obj);
            proof {
                assert(heap.heap() =~= old(heap).heap().insert(id, o));
            }
            return Some(Ok(IshValue::Reference(id)));
        }
        if chars_eq_str(&m, "Replace") {
            if args.len() < 3 {
                return str_fails("Str.Replace requires 3 args");
            }
            if is_float_value(&args[0]) || is_float_value(&args[1]) || is_float_value(&args[2]) {
                return None;
            }
            let s = arg_text(&args[0]);
            let from = arg_text(&args[1]);
            let to = arg_text(&args[2]);
            return text_value(replace_text(&s, &from, &to));
        }
        let msg = concat(concat(lit("Method "), method), " not found in Str");
        Some(Err(IshError::ExecutionError(msg)))
    }
}

proof fn lemma_occurrence_within(s: Seq<char>, pat: Seq<char>, i: int)
    ensures
        occurrence_from(s, pat, i) == -1 || (i <= occurrence_from(s, pat, i) && occurrence_from(
            s,
            pat,
            i,
        ) + pat.len() <= s.len()),
    decreases s.len() + 1 - i,
{
    if !(i < 0 || i + pat.len() > s.len()) && !occurs_at(s, pat, i) {
        lemma_occurrence_within(s, pat, i + 1);
    }
}

proof fn lemma_boundary_within(s: Seq<char>, b: int, k: int)
    ensures
        boundary_from(s, b, k) == -1 || (k <= boundary_from(s, b, k) <= s.len() && byte_len(
            s.take(boundary_from(s, b, k)),
        ) == b),
    decreases s.len() + 1 - k,
{
    if !(k < 0 || k > s.len()) && byte_len(s.take(k)) != b {
        lemma_boundary_within(s, b, k + 1);
    }
}

proof fn lemma_prefix_monotone(s: Seq<char>, i: int, j: int)
    requires
        0 <= i <= j <= s.len(),
    ensures
        byte_len(s.take(i)) <= byte_len(s.take(j)),
        i < j ==> byte_len(s.take(i)) < byte_len(s.take(j)),
    decreases j - i,
{
    if i < j {
        lemma_prefix_bytes(s, j - 1);
        lemma_prefix_monotone(s, i, j - 1);
    }
}

proof fn lemma_boundary_order(s: Seq<char>, a: int, b: int)
    requires
        a <= b,
        boundary(s, a) >= 0,
        boundary(s, b) >= 0,
    ensures
        boundary(s, a) <= boundary(s, b),
{
    lemma_boundary_within(s, a, 0);
    lemma_boundary_within(s, b, 0);
    let x = boundary(s, a);
    let y = boundary(s, b);
    if x > y {
        lemma_prefix_monotone(s, y, x);
    }
}

} // verus!
