use vstd::prelude::*;
use crate::error::IshError;
use crate::lang::linter::name_end;
use crate::lang::config::{parse_usize, parse_usize_exec};
use crate::runtime::gobbler::{Gobbler, HeapObject};
use crate::runtime::scope::{clone_value, entry_get, entry_value, visible, Scopes};
use crate::runtime::value::IshValue;
use crate::text::{chars_of, concat, is_alphanumeric, lit, string_from, trim, trim_chars};

verus! {

broadcast use vstd::std_specs::vec::group_vec_axioms;

/// A piece of a text after `$`-expansion has been scanned. The host puts the text back together
/// piece by piece, doing the outside work of each.
pub enum Piece {
    /// This text, as it stands.
    Text(String),
    /// `$((...))`: the text inside, which the host expands in turn and evaluates as arithmetic.
    Math(String),
    /// `$(...)`: a command, whose output the host captures.
    Subshell(String),
    /// `$?` or `$LAST`: the exit code of the last command.
    ExitCode,
    /// `$$`: the id of the shell's process.
    ProcessId,
    /// `$!`: the process id of the last background job.
    LastJob,
    /// `$name` for a variable in scope, with the text between `[` and `]` after it, if any.
    Scoped(String, Option<String>),
    /// `$name` for a name no scope holds: the environment variable, which the host looks up
    /// (failing with `Variable not found: name` where there is none).
    Environment(String),
}

/// The mathematical form of a `Piece`.
pub enum PieceView {
    Text(Seq<char>),
    Math(Seq<char>),
    Subshell(Seq<char>),
    ExitCode,
    ProcessId,
    LastJob,
    Scoped(Seq<char>, Option<Seq<char>>),
    Environment(Seq<char>),
}

impl View for Piece {
    type V = PieceView;

    open spec fn view(&self) -> PieceView {
        match self {
            Piece::Text(t) => PieceView::Text(t@),
            Piece::Math(t) => PieceView::Math(t@),
            Piece::Subshell(t) => PieceView::Subshell(t@),
            Piece::ExitCode => PieceView::ExitCode,
            Piece::ProcessId => PieceView::ProcessId,
            Piece::LastJob => PieceView::LastJob,
            Piece::Scoped(n, i) => PieceView::Scoped(
                n@,
                match i {
                    Some(t) => Some(t@),
                    None => None,
                },
            ),
            Piece::Environment(n) => PieceView::Environment(n@),
        }
    }
}

/// The pieces as plain values.
pub open spec fn piece_views(ps: Seq<Piece>) -> Seq<PieceView> {
    ps.map_values(|p: Piece| p@)
}

/// The inside of `$((...))` from index `j` on, at parenthesis depth `depth`, after `inner`: the
/// text inside (without the `))` that closes it) and the index after the first `)` of those two;
/// nothing where the text ends first.
pub open spec fn math_close(s: Seq<char>, j: int, depth: int, inner: Seq<char>) -> Option<
    (Seq<char>, int),
>
    decreases s.len() - j,
{
    if j < 0 || j >= s.len() {
        None
    } else if s[j] == '(' {
        math_close(s, j + 1, depth + 1, inner.push(s[j]))
    } else if s[j] == ')' {
        if depth - 1 == 0 {
            Some((inner, j + 1))
        } else if depth - 1 == 1 {
            math_close(s, j + 1, 1, inner)
        } else {
            math_close(s, j + 1, depth - 1, inner.push(s[j]))
        }
    } else {
        math_close(s, j + 1, depth, inner.push(s[j]))
    }
}

/// The inside of `$(...)` from index `j` on, at parenthesis depth `depth`, after `inner`: the
/// text inside and the index after its closing `)`; nothing where the text ends first.
pub open spec fn subshell_close(s: Seq<char>, j: int, depth: int, inner: Seq<char>) -> Option<
    (Seq<char>, int),
>
    decreases s.len() - j,
{
    if j < 0 || j >= s.len() {
        None
    } else if s[j] == '(' {
        subshell_close(s, j + 1, depth + 1, inner.push(s[j]))
    } else if s[j] == ')' {
        if depth - 1 == 0 {
            Some((inner, j + 1))
        } else {
            subshell_close(s, j + 1, depth - 1, inner.push(s[j]))
        }
    } else {
        subshell_close(s, j + 1, depth, inner.push(s[j]))
    }
}

/// The index of the first `]` from `j` on, or the end of the text.
pub open spec fn bracket_end(s: Seq<char>, j: int) -> int
    decreases s.len() - j,
{
    if j < 0 || j >= s.len() {
        s.len() as int
    } else if s[j] == ']' {
        j
    } else {
        bracket_end(s, j + 1)
    }
}

/// A piece before the pieces of the rest.
pub open spec fn before(p: PieceView, rest: Result<Seq<PieceView>, Seq<char>>) -> Result<
    Seq<PieceView>,
    Seq<char>,
> {
    match rest {
        Ok(ps) => Ok(seq![p] + ps),
        Err(m) => Err(m),
    }
}

/// The pieces of `s` from index `i` on, with the variables in scope those that `frames` (with
/// the innermost function call's first scope at `base`) make visible; the message of a
/// `$((` or `$(` that is never closed otherwise. After `$`, `?`, `!`, `$` or `0` is a name of one
/// character, else the run of alphanumeric characters and `_`; a `$` with no name is text. A
/// variable in scope takes a following `[...]` (up to the first `]`, or the end) as its index.
pub open spec fn pieces_from(
    frames: Seq<Seq<(String, IshValue)>>,
    base: int,
    s: Seq<char>,
    i: int,
) -> Result<Seq<PieceView>, Seq<char>>
    decreases s.len() - i,
{
    if i < 0 || i >= s.len() {
        Ok(Seq::empty())
    } else if s[i] != '$' {
        before(PieceView::Text(seq![s[i]]), pieces_from(frames, base, s, i + 1))
    } else if i + 1 < s.len() && s[i + 1] == '(' {
        if i + 2 < s.len() && s[i + 2] == '(' {
            match math_close(s, i + 3, 2, Seq::empty()) {
                None => Err("Unclosed math expansion `$((`"@),
                Some((inner, j)) => {
                    let k = if j < s.len() && s[j] == ')' {
                        j + 1
                    } else {
                        j
                    };
                    if i < k <= s.len() {
                        before(PieceView::Math(inner), pieces_from(frames, base, s, k))
                    } else {
                        Ok(Seq::empty())
                    }
                },
            }
        } else {
            match subshell_close(s, i + 2, 1, Seq::empty()) {
                None => Err("Unclosed subshell `$(`"@),
                Some((inner, j)) => if i < j <= s.len() {
                    before(PieceView::Subshell(inner), pieces_from(frames, base, s, j))
                } else {
                    Ok(Seq::empty())
                },
            }
        }
    } else {
        let special = i + 1 < s.len() && (s[i + 1] == '?' || s[i + 1] == '!' || s[i + 1] == '$'
            || s[i + 1] == '0');
        let end = if special {
            i + 2
        } else {
            name_end(s, i + 1)
        };
        if !(i + 1 <= end <= s.len()) {
            Ok(Seq::empty())
        } else {
            let name = s.subrange(i + 1, end);
            if name.len() == 0 {
                before(PieceView::Text(seq!['$']), pieces_from(frames, base, s, i + 1))
            } else if name == seq!['?'] || name == seq!['L', 'A', 'S', 'T'] {
                before(PieceView::ExitCode, pieces_from(frames, base, s, end))
            } else if name == seq!['$'] {
                before(PieceView::ProcessId, pieces_from(frames, base, s, end))
            } else if name == seq!['!'] {
                before(PieceView::LastJob, pieces_from(frames, base, s, end))
            } else if name == seq!['0'] {
                before(PieceView::Text(seq!['i', 's', 'h']), pieces_from(frames, base, s, end))
            } else if visible(frames, base, name) is Some {
                if end < s.len() && s[end] == '[' {
                    let close = bracket_end(s, end + 1);
                    let next = if close < s.len() {
                        close + 1
                    } else {
                        close
                    };
                    if end + 1 <= close <= s.len() && end < next <= s.len() {
                        before(
                            PieceView::Scoped(name, Some(s.subrange(end + 1, close))),
                            pieces_from(frames, base, s, next),
                        )
                    } else {
                        Ok(Seq::empty())
                    }
                } else {
                    before(PieceView::Scoped(name, None), pieces_from(frames, base, s, end))
                }
            } else {
                before(PieceView::Environment(name), pieces_from(frames, base, s, end))
            }
        }
    }
}

proof fn lemma_name_end(s: Seq<char>, i: int)
    requires
        0 <= i <= s.len(),
    ensures
        i <= name_end(s, i) <= s.len(),
    decreases s.len() - i,
{
    if i < s.len() {
        lemma_name_end(s, i + 1);
    }
}

proof fn lemma_bracket_end(s: Seq<char>, j: int)
    requires
        0 <= j <= s.len(),
    ensures
        j <= bracket_end(s, j) <= s.len(),
    decreases s.len() - j,
{
    if j < s.len() {
        lemma_bracket_end(s, j + 1);
    }
}

fn chars_text(cs: &Vec<char>, a: usize, b: usize) -> (t: String)
    requires
        a <= b <= cs@.len(),
    ensures
        t@ == cs@.subrange(a as int, b as int),
{
    let mut v: Vec<char> = Vec::new();
    let mut k = a;
    while k < b
        invariant
            a <= k <= b <= cs@.len(),
            v@ == cs@.subrange(a as int, k as int),
        decreases b - k,
    {
        v.push(cs[k]);
        k += 1;
        proof {
            assert(v@ =~= cs@.subrange(a as int, k as int));
        }
    }
    string_from(&v)
}

/// Scans `$((...))` whose inside starts at `j`.
fn scan_math(cs: &Vec<char>, j: usize) -> (r: Option<(Vec<char>, usize)>)
    requires
        3 <= j <= cs@.len(),
    ensures
        match math_close(cs@, j as int, 2, Seq::empty()) {
            Some((inner, k)) => r matches Some((v, e)) && v@ == inner && e == k && j < e <= cs@.len(),
            None => r is None,
        },
{
    let mut inner: Vec<char> = Vec::new();
    let mut depth: usize = 2;
    let mut k = j;
    while k < cs.len()
        invariant
            3 <= j <= k <= cs@.len(),
            1 <= depth <= k - j + 2,
            math_close(cs@, j as int, 2, Seq::empty()) == math_close(cs@, k as int, depth as int, inner@),
        decreases cs.len() - k,
    {
        let c = cs[k];
        if c == '(' {
            inner.push(c);
            depth += 1;
        } else if c == ')' {
            if depth == 1 {
                return Some((inner, k + 1));
            } else if depth == 2 {
                depth = 1;
            } else {
                inner.push(c);
                depth -= 1;
            }
        } else {
            inner.push(c);
        }
        k += 1;
    }
    None
}

/// Scans `$(...)` whose inside starts at `j`.
fn scan_subshell(cs: &Vec<char>, j: usize) -> (r: Option<(Vec<char>, usize)>)
    requires
        2 <= j <= cs@.len(),
    ensures
        match subshell_close(cs@, j as int, 1, Seq::empty()) {
            Some((inner, k)) => r matches Some((v, e)) && v@ == inner && e == k && j < e <= cs@.len(),
            None => r is None,
        },
{
    let mut inner: Vec<char> = Vec::new();
    let mut depth: usize = 1;
    let mut k = j;
    while k < cs.len()
        invariant
            2 <= j <= k <= cs@.len(),
            1 <= depth <= k - j + 1,
            subshell_close(cs@, j as int, 1, Seq::empty()) == subshell_close(cs@, k as int, depth as int, inner@),
        decreases cs.len() - k,
    {
        let c = cs[k];
        if c == '(' {
            inner.push(c);
            depth += 1;
        } else if c == ')' {
            if depth == 1 {
                return Some((inner, k + 1));
            } else {
                inner.push(c);
                depth -= 1;
            }
        } else {
            inner.push(c);
        }
        k += 1;
    }
    None
}

fn name_end_of(cs: &Vec<char>, i: usize) -> (e: usize)
    requires
        i <= cs@.len(),
    ensures
        e == name_end(cs@, i as int),
        i <= e <= cs@.len(),
{
    let mut e = i;
    while e < cs.len() && (is_alphanumeric(cs[e]) || cs[e] == '_')
        invariant
            i <= e <= cs@.len(),
            name_end(cs@, e as int) == name_end(cs@, i as int),
        decreases cs.len() - e,
    {
        e += 1;
    }
    e
}

fn bracket_end_of(cs: &Vec<char>, j: usize) -> (e: usize)
    requires
        j <= cs@.len(),
    ensures
        e == bracket_end(cs@, j as int),
        j <= e <= cs@.len(),
{
    let mut e = j;
    while e < cs.len() && cs[e] != ']'
        invariant
            j <= e <= cs@.len(),
            bracket_end(cs@, e as int) == bracket_end(cs@, j as int),
        decreases cs.len() - e,
    {
        e += 1;
    }
    e
}

/// The piece at a `$(` of `cs` at `i` and the index after it.
#[verifier::rlimit(40)]
fn paren_piece(cs: &Vec<char>, i: usize, scopes: &Scopes) -> (r: Result<(Piece, usize), IshError>)
    requires
        i + 1 < cs@.len(),
        cs@[i as int] == '$',
        cs@[i + 1] == '(',
    ensures
        match r {
            Ok((p, next)) => i < next <= cs@.len() && pieces_from(scopes.vars(), scopes.base(), cs@, i as int)
                == before(p@, pieces_from(scopes.vars(), scopes.base(), cs@, next as int)),
            Err(e) => pieces_from(scopes.vars(), scopes.base(), cs@, i as int) matches Err(m) && (e matches IshError::ParseError(x) && x@ == m),
        },
{
    let ghost s = cs@;
    let ghost fr = scopes.vars();
    let ghost b = scopes.base();
    let n: usize = cs.len();
    let next: usize;
    let piece: Piece;
    if i + 2 < cs.len() && cs[i + 2] == '(' {
        match scan_math(cs, i + 3) {
            None => {
                return Err(IshError::ParseError(lit("Unclosed math expansion `$((`")));
            },
            Some((inner, j)) => {
                piece = Piece::Math(string_from(&inner));
                next = if j < cs.len() && cs[j] == ')' {
                    j + 1
                } else {
                    j
                };
                proof { assert(pieces_from(fr, b, s, i as int) == before(piece@, pieces_from(fr, b, s, next as int))); }
            },
        }
    } else {
        match scan_subshell(cs, i + 2) {
            None => {
                return Err(IshError::ParseError(lit("Unclosed subshell `$(`")));
            },
            Some((inner, j)) => {
                piece = Piece::Subshell(string_from(&inner));
                next = j;
                proof { assert(pieces_from(fr, b, s, i as int) == before(piece@, pieces_from(fr, b, s, next as int))); }
            },
        }
    }

    Ok((piece, next))
}

/// The piece at a `$` of `cs` at `i` that is not followed by `(`, and the index after it.
#[verifier::rlimit(40)]
fn name_piece(cs: &Vec<char>, i: usize, scopes: &Scopes) -> (r: Result<(Piece, usize), IshError>)
    requires
        i < cs@.len(),
        cs@[i as int] == '$',
        !(i + 1 < cs@.len() && cs@[i + 1] == '('),
        scopes.base() != 0 ==> scopes.vars().len() > 0,
    ensures
        match r {
            Ok((p, next)) => i < next <= cs@.len() && pieces_from(scopes.vars(), scopes.base(), cs@, i as int)
                == before(p@, pieces_from(scopes.vars(), scopes.base(), cs@, next as int)),
            Err(e) => pieces_from(scopes.vars(), scopes.base(), cs@, i as int) matches Err(m) && (e matches IshError::ParseError(x) && x@ == m),
        },
{
    let ghost s = cs@;
    let ghost fr = scopes.vars();
    let ghost b = scopes.base();
    let n: usize = cs.len();
    let next: usize;
    let piece: Piece;
    let special = i + 1 < cs.len() && (cs[i + 1] == '?' || cs[i + 1] == '!' || cs[i + 1]
        == '$' || cs[i + 1] == '0');
    let end = if special {
        i + 2
    } else {
        name_end_of(cs, i + 1)
    };
    let ghost name_v = s.subrange(i + 1, end as int);
    if end == i + 1 {
        piece = Piece::Text(lit("$"));
        next = i + 1;
        proof {
            reveal_strlit("$");
            assert("$"@ =~= seq!['$']);
            assert(pieces_from(fr, b, s, i as int) == before(piece@, pieces_from(fr, b, s, next as int)));
        }
    } else {
        let name = chars_text(cs, i + 1, end);
        let is_last = end - (i + 1) == 4 && cs[i + 1] == 'L' && cs[i + 2] == 'A' && cs[i
            + 3] == 'S' && cs[i + 4] == 'T';
        if special && cs[i + 1] == '?' || is_last {
            piece = Piece::ExitCode;
            next = end;
            proof {
                if is_last {
                    assert(name_v =~= seq!['L', 'A', 'S', 'T']);
                } else {
                    assert(name_v =~= seq!['?']);
                }
                    assert(pieces_from(fr, b, s, i as int) == before(piece@, pieces_from(fr, b, s, next as int)));
            }
        } else if special && cs[i + 1] == '$' {
            piece = Piece::ProcessId;
            next = end;
            proof {
                assert(name_v =~= seq!['$']);
                assert(name_v != seq!['?']) by {
                    assert(name_v[0] != seq!['?'][0]);
                }
                assert(pieces_from(fr, b, s, i as int) == before(piece@, pieces_from(fr, b, s, next as int)));
            }
        } else if special && cs[i + 1] == '!' {
            piece = Piece::LastJob;
            next = end;
            proof {
                assert(name_v =~= seq!['!']);
                assert(name_v != seq!['?'] && name_v != seq!['$']) by {
                    assert(name_v[0] != seq!['?'][0]);
                    assert(name_v[0] != seq!['$'][0]);
                }
                assert(pieces_from(fr, b, s, i as int) == before(piece@, pieces_from(fr, b, s, next as int)));
            }
        } else if special {
            piece = Piece::Text(lit("ish"));
            next = end;
            proof {
                reveal_strlit("ish");
                assert(name_v =~= seq!['0']);
                assert(name_v != seq!['?'] && name_v != seq!['$'] && name_v != seq!['!']) by {
                    assert(name_v[0] != seq!['?'][0]);
                    assert(name_v[0] != seq!['$'][0]);
                    assert(name_v[0] != seq!['!'][0]);
                }
                assert("ish"@ =~= seq!['i', 's', 'h']);
                assert(pieces_from(fr, b, s, i as int) == before(piece@, pieces_from(fr, b, s, next as int)));
            }
        } else {
            proof {
                assert(name_v.len() >= 1);
                assert(name_v != seq!['?'] && name_v != seq!['$'] && name_v != seq!['!']
                    && name_v != seq!['0']) by {
                    assert(name_v[0] == s[i + 1]);
                }
                if name_v == seq!['L', 'A', 'S', 'T'] {
                    assert(is_last);
                }
            }
            if scopes.lookup(name.as_str()).is_some() {
                if end < cs.len() && cs[end] == '[' {
                    let close = bracket_end_of(cs, end + 1);
                    let idx = chars_text(cs, end + 1, close);
                    next = if close < cs.len() {
                        close + 1
                    } else {
                        close
                    };
                    piece = Piece::Scoped(name, Some(idx));
                    proof { assert(pieces_from(fr, b, s, i as int) == before(piece@, pieces_from(fr, b, s, next as int))); }
                } else {
                    piece = Piece::Scoped(name, None);
                    next = end;
                    proof { assert(pieces_from(fr, b, s, i as int) == before(piece@, pieces_from(fr, b, s, next as int))); }
                }
            } else {
                piece = Piece::Environment(name);
                next = end;
                proof { assert(pieces_from(fr, b, s, i as int) == before(piece@, pieces_from(fr, b, s, next as int))); }
            }
        }
    }

    Ok((piece, next))
}

/// The piece of `cs` at `i` and the index after it (see `pieces_from`).
fn next_piece(cs: &Vec<char>, i: usize, scopes: &Scopes) -> (r: Result<(Piece, usize), IshError>)
    requires
        i < cs@.len(),
        scopes.base() != 0 ==> scopes.vars().len() > 0,
    ensures
        match r {
            Ok((p, next)) => i < next <= cs@.len() && pieces_from(scopes.vars(), scopes.base(), cs@, i as int)
                == before(p@, pieces_from(scopes.vars(), scopes.base(), cs@, next as int)),
            Err(e) => pieces_from(scopes.vars(), scopes.base(), cs@, i as int) matches Err(m) && (e matches IshError::ParseError(x) && x@ == m),
        },
{
    let ghost s = cs@;
    let n: usize = cs.len();
    if cs[i] != '$' {
        let piece = Piece::Text(chars_text(cs, i, i + 1));
        proof {
            assert(s.subrange(i as int, i + 1) =~= seq![s[i as int]]);
        }
        Ok((piece, i + 1))
    } else if i + 1 < cs.len() && cs[i + 1] == '(' {
        paren_piece(cs, i, scopes)
    } else {
        name_piece(cs, i, scopes)
    }
}

/// Scans a text for `$`-expansions (see `pieces_from`), with the variables in scope those that
/// `scopes` makes visible: the pieces in order, or a `ParseError` for a `$((` or `$(` that is
/// never closed.
pub fn expansion_pieces(text: &str, scopes: &Scopes) -> (r: Result<Vec<Piece>, IshError>)
    requires
        scopes.base() != 0 ==> scopes.vars().len() > 0,
    ensures
        match pieces_from(scopes.vars(), scopes.base(), text@, 0) {
            Ok(ps) => r matches Ok(v) && piece_views(v@) == ps,
            Err(m) => r matches Err(IshError::ParseError(x)) && x@ == m,
        },
{
    let cs = chars_of(text);
    let ghost fr = scopes.vars();
    let ghost b = scopes.base();
    let mut out: Vec<Piece> = Vec::new();
    let mut i: usize = 0;
    while i < cs.len()
        invariant
            cs@ == text@,
            i <= cs@.len(),
            fr == scopes.vars(),
            b == scopes.base(),
            scopes.base() != 0 ==> scopes.vars().len() > 0,
            pieces_from(fr, b, cs@, 0) == match pieces_from(fr, b, cs@, i as int) {
                Ok(ps) => Ok::<Seq<PieceView>, Seq<char>>(piece_views(out@) + ps),
                Err(m) => Err(m),
            },
        decreases cs.len() - i,
    {
        let ghost done = piece_views(out@);
        let ghost s = cs@;
        let (piece, next) = match next_piece(&cs, i, scopes) {
            Ok(pn) => pn,
            Err(e) => {
                return Err(e);
            },
        };
        out.push(piece);
        proof {
            assert(piece_views(out@) =~= done.push(out@.last()@));
            match pieces_from(fr, b, s, next as int) {
                Ok(ps) => {
                    assert(done + (seq![out@.last()@] + ps) =~= piece_views(out@) + ps);
                },
                Err(m) => {},
            }
        }
        i = next;
    }
    proof {
        assert(piece_views(out@) + Seq::<PieceView>::empty() =~= piece_views(out@));
    }
    Ok(out)
}

/// The key that the text between `[` and `]` after a variable names.
pub enum IndexKey {
    /// This key: the text inside quotes (`"..."` or `'...'`), or a number.
    Key(String),
    /// A `$`-expression, which the host expands (in turn) to give the key.
    Variable(String),
}

/// A quoted text of one character only, where Rust's slicing panics.
pub open spec fn lone_quote(idx: Seq<char>) -> bool {
    trim(idx) == seq!['"'] || trim(idx) == seq!['\'']
}

/// The key an index text names, after trimming: the inside of double or single quotes, a
/// `$`-expression, or a number (`str::parse::<usize>`); otherwise the error message.
pub open spec fn index_key_of(idx: Seq<char>) -> Result<(bool, Seq<char>), Seq<char>> {
    let t = trim(idx);
    if t.len() > 0 && t[0] == '"' && t.last() == '"' {
        Ok((false, t.subrange(1, t.len() - 1)))
    } else if t.len() > 0 && t[0] == '\'' && t.last() == '\'' {
        Ok((false, t.subrange(1, t.len() - 1)))
    } else if t.len() > 0 && t[0] == '$' {
        Ok((true, t))
    } else if parse_usize(t) is Some {
        Ok((false, t))
    } else {
        Err("Map/Array index must be in quotes, a number, or a variable. Found: ["@ + idx + "]"@)
    }
}

/// The key of an index text (see `index_key_of`, where `true` marks a `$`-expression), or an
/// `ExecutionError` with its message.
pub fn index_key(idx: &String) -> (r: Result<IndexKey, IshError>)
    requires
        !lone_quote(idx@),
    ensures
        match index_key_of(idx@) {
            Ok((var, k)) => match r {
                Ok(IndexKey::Key(x)) => !var && x@ == k,
                Ok(IndexKey::Variable(x)) => var && x@ == k,
                Err(_) => false,
            },
            Err(m) => r matches Err(IshError::ExecutionError(x)) && x@ == m,
        },
{
    let t = trim_chars(&chars_of(idx.as_str()));
    let n = t.len();
    if n > 0 && ((t[0] == '"' && t[n - 1] == '"') || (t[0] == '\'' && t[n - 1] == '\'')) {
        proof {
            if n == 1 {
                assert(t@ =~= seq![t@[0]]);
            }
        }
        let mut inner: Vec<char> = Vec::new();
        let mut k: usize = 1;
        while k < n - 1
            invariant
                1 <= k <= n - 1,
                n == t@.len(),
                n >= 2,
                inner@ == t@.subrange(1, k as int),
            decreases n - 1 - k,
        {
            inner.push(t[k]);
            k += 1;
            proof {
                assert(inner@ =~= t@.subrange(1, k as int));
            }
        }
        Ok(IndexKey::Key(string_from(&inner)))
    } else if n > 0 && t[0] == '$' {
        Ok(IndexKey::Variable(string_from(&t)))
    } else if parse_usize_exec(&t).is_some() {
        Ok(IndexKey::Key(string_from(&t)))
    } else {
        Err(
            IshError::ExecutionError(
                concat(
                    concat(
                        lit("Map/Array index must be in quotes, a number, or a variable. Found: ["),
                        idx.as_str(),
                    ),
                    "]",
                ),
            ),
        )
    }
}

/// The value a variable's value gives under a key: the item at that position of the array or
/// list it refers to (where the key is a number within it), or the entry under that key of the
/// map or object it refers to; the value itself otherwise.
pub open spec fn indexed(heap: Map<usize, HeapObject>, v: IshValue, key: Seq<char>) -> IshValue {
    match v {
        IshValue::Reference(id) => if heap.contains_key(id) {
            match heap[id] {
                HeapObject::Array(items) => match parse_usize(key) {
                    Some(k) => if k < items@.len() {
                        items@[k as int]
                    } else {
                        v
                    },
                    None => v,
                },
                HeapObject::List(items) => match parse_usize(key) {
                    Some(k) => if k < items@.len() {
                        items@[k as int]
                    } else {
                        v
                    },
                    None => v,
                },
                HeapObject::Dict(entries) => match entry_value(entries@, key) {
                    Some(x) => x,
                    None => v,
                },
                HeapObject::Object { properties, .. } => match entry_value(properties@, key) {
                    Some(x) => x,
                    None => v,
                },
            }
        } else {
            v
        },
        _ => v,
    }
}

/// The value a variable's value gives under a key (see `indexed`).
pub fn indexed_value(heap: &Gobbler, v: &IshValue, key: &String) -> (r: IshValue)
    ensures
        r == indexed(heap.heap(), *v, key@),
{
    match v {
        IshValue::Reference(id) => match heap.get(*id) {
            Some(HeapObject::Array(items)) | Some(HeapObject::List(items)) => {
                match parse_usize_exec(&chars_of(key.as_str())) {
                    Some(k) => if k < items.len() {
                        clone_value(&items[k])
                    } else {
                        clone_value(v)
                    },
                    None => clone_value(v),
                }
            },
            Some(HeapObject::Dict(entries)) | Some(HeapObject::Object { properties: entries, .. }) => {
                match entry_get(entries, key.as_str()) {
                    Some(x) => x,
                    None => clone_value(v),
                }
            },
            None => clone_value(v),
        },
        _ => clone_value(v),
    }
}

} // verus!
