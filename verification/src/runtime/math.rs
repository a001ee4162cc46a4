use vstd::prelude::*;
use crate::runtime::builtins::texts_view;
use crate::text::{chars_eq_str, chars_of, concat, is_whitespace, is_ws, lit, string_from};

verus! {

/// The operators and parentheses of arithmetic expressions.
pub open spec fn is_math_symbol(c: char) -> bool {
    c == '+' || c == '-' || c == '*' || c == '/' || c == '(' || c == ')'
}

/// The tokens of an arithmetic expression from position `i` on, the number being read so far
/// `cur`: each operator or parenthesis alone, the other characters (white space skipped)
/// gathered into numbers between them.
pub open spec fn tokens_from(s: Seq<char>, i: int, cur: Seq<char>) -> Seq<Seq<char>>
    decreases s.len() - i,
{
    if i < 0 || i >= s.len() {
        if cur.len() > 0 {
            seq![cur]
        } else {
            Seq::empty()
        }
    } else if is_ws(s[i]) {
        tokens_from(s, i + 1, cur)
    } else if is_math_symbol(s[i]) {
        (if cur.len() > 0 {
            seq![cur]
        } else {
            Seq::empty()
        }) + seq![seq![s[i]]] + tokens_from(s, i + 1, Seq::empty())
    } else {
        tokens_from(s, i + 1, cur.push(s[i]))
    }
}

/// A parsed arithmetic expression: a number (by the position of its token) or an operation.
pub enum MathTree {
    Num(int),
    Op(char, Box<MathTree>, Box<MathTree>),
}

/// What parsing gives from a position: the expression and where it ends, or a message.
pub type MathParsed = Result<(MathTree, int), Seq<char>>;

/// A sum or difference of terms, from `p`.
pub open spec fn math_expr(ts: Seq<Seq<char>>, ok: Seq<bool>, p: int) -> MathParsed
    decreases ts.len() - p, 3nat,
{
    if p < 0 || p > ts.len() {
        Err(Seq::empty())
    } else {
        match math_term(ts, ok, p) {
            Ok((t, q)) => if p < q <= ts.len() {
                math_expr_rest(ts, ok, t, q)
            } else {
                Err(Seq::empty())
            },
            Err(m) => Err(m),
        }
    }
}

/// The `+ term` and `- term` after `left`, from `q`.
pub open spec fn math_expr_rest(ts: Seq<Seq<char>>, ok: Seq<bool>, left: MathTree, q: int) -> MathParsed
    decreases ts.len() - q, 0nat,
{
    if q < 0 || q >= ts.len() || !(ts[q] == "+"@ || ts[q] == "-"@) {
        Ok((left, q))
    } else {
        match math_term(ts, ok, q + 1) {
            Ok((t, q2)) => if q < q2 <= ts.len() {
                math_expr_rest(ts, ok, MathTree::Op(ts[q][0], Box::new(left), Box::new(t)), q2)
            } else {
                Err(Seq::empty())
            },
            Err(m) => Err(m),
        }
    }
}

/// A product or quotient of factors, from `p`.
pub open spec fn math_term(ts: Seq<Seq<char>>, ok: Seq<bool>, p: int) -> MathParsed
    decreases ts.len() - p, 2nat,
{
    if p < 0 || p > ts.len() {
        Err(Seq::empty())
    } else {
        match math_factor(ts, ok, p) {
            Ok((f, q)) => if p < q <= ts.len() {
                math_term_rest(ts, ok, f, q)
            } else {
                Err(Seq::empty())
            },
            Err(m) => Err(m),
        }
    }
}

/// The `* factor` and `/ factor` after `left`, from `q`.
pub open spec fn math_term_rest(ts: Seq<Seq<char>>, ok: Seq<bool>, left: MathTree, q: int) -> MathParsed
    decreases ts.len() - q, 0nat,
{
    if q < 0 || q >= ts.len() || !(ts[q] == "*"@ || ts[q] == "/"@) {
        Ok((left, q))
    } else {
        match math_factor(ts, ok, q + 1) {
            Ok((f, q2)) => if q < q2 <= ts.len() {
                math_term_rest(ts, ok, MathTree::Op(ts[q][0], Box::new(left), Box::new(f)), q2)
            } else {
                Err(Seq::empty())
            },
            Err(m) => Err(m),
        }
    }
}

/// A parenthesized expression or a number, from `p` (`ok` telling which tokens read as
/// numbers).
pub open spec fn math_factor(ts: Seq<Seq<char>>, ok: Seq<bool>, p: int) -> MathParsed
    decreases ts.len() - p, 1nat,
{
    if p < 0 || p >= ts.len() {
        Err("Unexpected end of expression"@)
    } else if ts[p] == "("@ {
        match math_expr(ts, ok, p + 1) {
            Ok((e, q)) => if p < q <= ts.len() {
                if q >= ts.len() || ts[q] != ")"@ {
                    Err("Missing closing parenthesis"@)
                } else {
                    Ok((e, q + 1))
                }
            } else {
                Err(Seq::empty())
            },
            Err(m) => Err(m),
        }
    } else if ok[p] {
        Ok((MathTree::Num(p), p + 1))
    } else {
        Err("Invalid number: "@ + ts[p])
    }
}

/// An arithmetic expression that takes all the tokens.
pub open spec fn math_program(ts: Seq<Seq<char>>, ok: Seq<bool>) -> Result<MathTree, Seq<char>> {
    match math_expr(ts, ok, 0) {
        Ok((e, q)) => if q < ts.len() {
            Err("Unexpected token at end: "@ + ts[q])
        } else {
            Ok(e)
        },
        Err(m) => Err(m),
    }
}

/// Whether the token at `p` is a number (one that reads as a number and opens no parenthesis).
pub open spec fn number_at(ts: Seq<Seq<char>>, ok: Seq<bool>, p: int) -> bool {
    0 <= p < ts.len() && p < ok.len() && ok[p] && ts[p] != "("@
}

/// `*` and `/` bind tighter than `+` and `-`, on either side: for any numbers `a`, `b`, `c`,
/// `a + b * c` and `a - b * c` (and likewise with `/`) group as `a ± (b * c)`, and
/// `a * b - c` groups as `(a * b) - c`.
pub proof fn lemma_products_bind_tighter(ts: Seq<Seq<char>>, ok: Seq<bool>)
    requires
        ts.len() == 5,
        number_at(ts, ok, 0),
        number_at(ts, ok, 2),
        number_at(ts, ok, 4),
    ensures
        (ts[1] == "+"@ || ts[1] == "-"@) && (ts[3] == "*"@ || ts[3] == "/"@) ==> math_program(ts, ok)
            == Ok::<MathTree, Seq<char>>(
            MathTree::Op(
                ts[1][0],
                Box::new(MathTree::Num(0)),
                Box::new(MathTree::Op(ts[3][0], Box::new(MathTree::Num(2)), Box::new(MathTree::Num(4)))),
            ),
        ),
        (ts[1] == "*"@ || ts[1] == "/"@) && (ts[3] == "+"@ || ts[3] == "-"@) ==> math_program(ts, ok)
            == Ok::<MathTree, Seq<char>>(
            MathTree::Op(
                ts[3][0],
                Box::new(MathTree::Op(ts[1][0], Box::new(MathTree::Num(0)), Box::new(MathTree::Num(2)))),
                Box::new(MathTree::Num(4)),
            ),
        ),
{
    reveal_strlit("+");
    reveal_strlit("-");
    reveal_strlit("*");
    reveal_strlit("/");
    reveal_strlit("(");
    let n0 = MathTree::Num(0);
    let n2 = MathTree::Num(2);
    let n4 = MathTree::Num(4);
    assert(math_factor(ts, ok, 0) == Ok::<(MathTree, int), Seq<char>>((n0, 1)));
    assert(math_factor(ts, ok, 2) == Ok::<(MathTree, int), Seq<char>>((n2, 3)));
    assert(math_factor(ts, ok, 4) == Ok::<(MathTree, int), Seq<char>>((n4, 5)));
    assert(math_term_rest(ts, ok, n4, 5) == Ok::<(MathTree, int), Seq<char>>((n4, 5)));
    assert(math_term(ts, ok, 4) == Ok::<(MathTree, int), Seq<char>>((n4, 5)));
    if (ts[1] == "+"@ || ts[1] == "-"@) && (ts[3] == "*"@ || ts[3] == "/"@) {
        let prod = MathTree::Op(ts[3][0], Box::new(n2), Box::new(n4));
        let whole = MathTree::Op(ts[1][0], Box::new(n0), Box::new(prod));
        assert(math_term_rest(ts, ok, n0, 1) == Ok::<(MathTree, int), Seq<char>>((n0, 1)));
        assert(math_term(ts, ok, 0) == Ok::<(MathTree, int), Seq<char>>((n0, 1)));
        assert(math_term_rest(ts, ok, prod, 5) == Ok::<(MathTree, int), Seq<char>>((prod, 5)));
        assert(math_term_rest(ts, ok, n2, 3) == Ok::<(MathTree, int), Seq<char>>((prod, 5)));
        assert(math_term(ts, ok, 2) == Ok::<(MathTree, int), Seq<char>>((prod, 5)));
        assert(math_expr_rest(ts, ok, whole, 5) == Ok::<(MathTree, int), Seq<char>>((whole, 5)));
        assert(math_expr_rest(ts, ok, n0, 1) == Ok::<(MathTree, int), Seq<char>>((whole, 5)));
        assert(math_expr(ts, ok, 0) == Ok::<(MathTree, int), Seq<char>>((whole, 5)));
    }
    if (ts[1] == "*"@ || ts[1] == "/"@) && (ts[3] == "+"@ || ts[3] == "-"@) {
        let prod = MathTree::Op(ts[1][0], Box::new(n0), Box::new(n2));
        let whole = MathTree::Op(ts[3][0], Box::new(prod), Box::new(n4));
        assert(math_term_rest(ts, ok, prod, 3) == Ok::<(MathTree, int), Seq<char>>((prod, 3)));
        assert(math_term_rest(ts, ok, n0, 1) == Ok::<(MathTree, int), Seq<char>>((prod, 3)));
        assert(math_term(ts, ok, 0) == Ok::<(MathTree, int), Seq<char>>((prod, 3)));
        assert(math_expr_rest(ts, ok, whole, 5) == Ok::<(MathTree, int), Seq<char>>((whole, 5)));
        assert(math_expr_rest(ts, ok, prod, 3) == Ok::<(MathTree, int), Seq<char>>((whole, 5)));
        assert(math_expr(ts, ok, 0) == Ok::<(MathTree, int), Seq<char>>((whole, 5)));
    }
}

/// A parsed arithmetic expression (see `MathTree`).
pub enum MathNode {
    Num(usize),
    Op(char, Box<MathNode>, Box<MathNode>),
}

pub open spec fn math_tree(n: MathNode) -> MathTree
    decreases n,
{
    match n {
        MathNode::Num(i) => MathTree::Num(i as int),
        MathNode::Op(c, l, r) => MathTree::Op(c, Box::new(math_tree(*l)), Box::new(math_tree(*r))),
    }
}

/// Splits an arithmetic expression into tokens (see `tokens_from`).
pub fn math_tokens(expr: &str) -> (r: Vec<String>)
    ensures
        texts_view(r@) == tokens_from(expr@, 0, Seq::empty()),
{
    let s = chars_of(expr);
    let mut out: Vec<String> = Vec::new();
    let mut cur: Vec<char> = Vec::new();
    let mut i: usize = 0;
    proof {
        assert(texts_view(out@) + tokens_from(s@, 0, cur@) =~= tokens_from(s@, 0, Seq::empty()));
    }
    while i < s.len()
        invariant
            i <= s@.len(),
            s@ == expr@,
            texts_view(out@) + tokens_from(s@, i as int, cur@) == tokens_from(s@, 0, Seq::empty()),
        decreases s.len() - i,
    {
        let c = s[i];
        if is_whitespace(c) {
        } else if c == '+' || c == '-' || c == '*' || c == '/' || c == '(' || c == ')' {
            let ghost before = texts_view(out@);
            let ghost cur0 = cur@;
            if cur.len() > 0 {
                out.push(string_from(&cur));
            }
            let mut one = String::new();
            crate::text::push_char(&mut one, c);
            let ghost one_v = one@;
            out.push(one);
            cur = Vec::new();
            proof {
                assert(one_v =~= seq![c]);
                if cur0.len() > 0 {
                    assert(texts_view(out@) =~= before + seq![cur0] + seq![seq![c]]);
                } else {
                    assert(texts_view(out@) =~= before + seq![seq![c]]);
                }
                assert(texts_view(out@) + tokens_from(s@, i + 1, cur@) =~= before + tokens_from(
                    s@,
                    i as int,
                    cur0,
                ));
            }
        } else {
            cur.push(c);
        }
        i += 1;
    }
    if cur.len() > 0 {
        let ghost before = texts_view(out@);
        let ghost cur0 = cur@;
        out.push(string_from(&cur));
        proof {
            assert(texts_view(out@) =~= before + seq![cur0]);
        }
    } else {
        proof {
            assert(texts_view(out@) + tokens_from(s@, i as int, cur@) =~= texts_view(out@));
        }
    }
    out
}

type Step = Result<(MathNode, usize), String>;

pub open spec fn step_meets(r: Step, g: MathParsed, p: int) -> bool {
    match g {
        Ok((t, q)) => r matches Ok((n, e)) && math_tree(n) == t && e == q && p < q,
        Err(m) => r matches Err(x) && x@ == m,
    }
}

fn math_expr_exec(ts: &Vec<String>, ok: &Vec<bool>, p: usize) -> (r: Step)
    requires
        ok@.len() == ts@.len(),
        p <= ts@.len(),
    ensures
        step_meets(r, math_expr(texts_view(ts@), ok@, p as int), p as int),
        r matches Ok((_, e)) ==> e <= ts@.len(),
    decreases ts@.len() - p, 3nat,
{
    match math_term_exec(ts, ok, p) {
        Ok((t, q)) => math_expr_rest_exec(ts, ok, t, q, p),
        Err(m) => Err(m),
    }
}

fn math_expr_rest_exec(ts: &Vec<String>, ok: &Vec<bool>, left: MathNode, q: usize, p0: usize) -> (r: Step)
    requires
        ok@.len() == ts@.len(),
        p0 < q <= ts@.len(),
    ensures
        step_meets(r, math_expr_rest(texts_view(ts@), ok@, math_tree(left), q as int), p0 as int),
        r matches Ok((_, e)) ==> q <= e <= ts@.len(),
    decreases ts@.len() - q, 0nat,
{
    if q >= ts.len() || !(chars_eq_str(&chars_of(ts[q].as_str()), "+") || chars_eq_str(
        &chars_of(ts[q].as_str()),
        "-",
    )) {
        return Ok((left, q));
    }
    let op = if chars_eq_str(&chars_of(ts[q].as_str()), "+") {
        '+'
    } else {
        '-'
    };
    proof {
        reveal_strlit("+");
        reveal_strlit("-");
        assert(texts_view(ts@)[q as int] == ts@[q as int]@);
    }
    match math_term_exec(ts, ok, q + 1) {
        Ok((t, q2)) => {
            let node = MathNode::Op(op, Box::new(left), Box::new(t));
            math_expr_rest_exec(ts, ok, node, q2, p0)
        },
        Err(m) => Err(m),
    }
}

fn math_term_exec(ts: &Vec<String>, ok: &Vec<bool>, p: usize) -> (r: Step)
    requires
        ok@.len() == ts@.len(),
        p <= ts@.len(),
    ensures
        step_meets(r, math_term(texts_view(ts@), ok@, p as int), p as int),
        r matches Ok((_, e)) ==> e <= ts@.len(),
    decreases ts@.len() - p, 2nat,
{
    match math_factor_exec(ts, ok, p) {
        Ok((f, q)) => math_term_rest_exec(ts, ok, f, q, p),
        Err(m) => Err(m),
    }
}

fn math_term_rest_exec(ts: &Vec<String>, ok: &Vec<bool>, left: MathNode, q: usize, p0: usize) -> (r: Step)
    requires
        ok@.len() == ts@.len(),
        p0 < q <= ts@.len(),
    ensures
        step_meets(r, math_term_rest(texts_view(ts@), ok@, math_tree(left), q as int), p0 as int),
        r matches Ok((_, e)) ==> q <= e <= ts@.len(),
    decreases ts@.len() - q, 0nat,
{
    if q >= ts.len() || !(chars_eq_str(&chars_of(ts[q].as_str()), "*") || chars_eq_str(
        &chars_of(ts[q].as_str()),
        "/",
    )) {
        return Ok((left, q));
    }
    let op = if chars_eq_str(&chars_of(ts[q].as_str()), "*") {
        '*'
    } else {
        '/'
    };
    proof {
        reveal_strlit("*");
        reveal_strlit("/");
        assert(texts_view(ts@)[q as int] == ts@[q as int]@);
    }
    match math_factor_exec(ts, ok, q + 1) {
        Ok((f, q2)) => {
            let node = MathNode::Op(op, Box::new(left), Box::new(f));
            math_term_rest_exec(ts, ok, node, q2, p0)
        },
        Err(m) => Err(m),
    }
}

fn math_factor_exec(ts: &Vec<String>, ok: &Vec<bool>, p: usize) -> (r: Step)
    requires
        ok@.len() == ts@.len(),
        p <= ts@.len(),
    ensures
        step_meets(r, math_factor(texts_view(ts@), ok@, p as int), p as int),
        r matches Ok((_, e)) ==> e <= ts@.len(),
    decreases ts@.len() - p, 1nat,
{
    if p >= ts.len() {
        return Err(lit("Unexpected end of expression"));
    }
    proof {
        assert(texts_view(ts@)[p as int] == ts@[p as int]@);
    }
    if chars_eq_str(&chars_of(ts[p].as_str()), "(") {
        return match math_expr_exec(ts, ok, p + 1) {
            Ok((e, q)) => {
                if q >= ts.len() || !chars_eq_str(&chars_of(ts[q].as_str()), ")") {
                    proof {
                        if q < ts@.len() {
                            assert(texts_view(ts@)[q as int] == ts@[q as int]@);
                        }
                    }
                    Err(lit("Missing closing parenthesis"))
                } else {
                    proof {
                        assert(texts_view(ts@)[q as int] == ts@[q as int]@);
                    }
                    Ok((e, q + 1))
                }
            },
            Err(m) => Err(m),
        };
    }
    if ok[p] {
        Ok((MathNode::Num(p), p + 1))
    } else {
        Err(concat(lit("Invalid number: "), ts[p].as_str()))
    }
}

/// Parses the tokens of an arithmetic expression (`ok` telling, for each token, whether it
/// reads as a number), which must take all of them.
pub fn parse_math(ts: &Vec<String>, ok: &Vec<bool>) -> (r: Result<MathNode, String>)
    requires
        ok@.len() == ts@.len(),
    ensures
        match math_program(texts_view(ts@), ok@) {
            Ok(t) => r matches Ok(n) && math_tree(n) == t,
            Err(m) => r matches Err(x) && x@ == m,
        },
{
    match math_expr_exec(ts, ok, 0) {
        Ok((e, q)) => {
            if q < ts.len() {
                proof {
                    assert(texts_view(ts@)[q as int] == ts@[q as int]@);
                }
                Err(concat(lit("Unexpected token at end: "), ts[q].as_str()))
            } else {
                Ok(e)
            }
        },
        Err(m) => Err(m),
    }
}

} // verus!
