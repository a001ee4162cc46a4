use vstd::prelude::*;
use crate::text::{chars_of, is_whitespace, is_ws, lit, lower_text, string_from, sub_chars, to_lowercase};

verus! {

broadcast use vstd::std_specs::vec::group_vec_axioms;

/// Whether `a` begins with `b`.
pub open spec fn starts_with(a: Seq<char>, b: Seq<char>) -> bool {
    b.len() <= a.len() && a.subrange(0, b.len() as int) == b
}

/// A character with ASCII letters in lower case.
pub open spec fn ascii_lower(c: char) -> char {
    if 'A' <= c <= 'Z' {
        ((c as u32) + 32) as char
    } else {
        c
    }
}

/// `str::eq_ignore_ascii_case`.
pub open spec fn eq_ignore_ascii_case(a: Seq<char>, b: Seq<char>) -> bool {
    a.len() == b.len() && forall|i: int| 0 <= i < a.len() ==> ascii_lower(a[i]) == ascii_lower(b[i])
}

/// The index of the first character from `i` on that is whitespace, or the length.
pub open spec fn word_end(s: Seq<char>, i: int) -> int
    decreases s.len() - i,
{
    if 0 <= i < s.len() && !is_ws(s[i]) {
        word_end(s, i + 1)
    } else {
        i
    }
}

/// The whitespace-separated words of `s` from position `i` on (`str::split_whitespace`).
pub open spec fn words(s: Seq<char>, i: int) -> Seq<Seq<char>>
    decreases s.len() + 1 - i,
{
    let a = crate::text::skip_ws(s, i);
    if i < 0 || a < i || a >= s.len() {
        Seq::empty()
    } else {
        let b = word_end(s, a);
        if b <= a || b > s.len() {
            Seq::empty()
        } else {
            seq![s.subrange(a, b)] + words(s, b)
        }
    }
}

/// The candidates (in order) whose lower-case form begins with that of `partial`.
pub open spec fn matching(cands: Seq<Seq<char>>, partial: Seq<char>) -> Seq<Seq<char>>
    decreases cands.len(),
{
    if cands.len() == 0 {
        Seq::empty()
    } else {
        let rest = matching(cands.drop_last(), partial);
        if starts_with(lower_text(cands.last()), lower_text(partial)) {
            rest.push(cands.last())
        } else {
            rest
        }
    }
}

/// Adds the candidates (in order) that begin with `prefix` and are not there yet.
pub open spec fn add_prefixed(acc: Seq<Seq<char>>, cands: Seq<Seq<char>>, prefix: Seq<char>) -> Seq<
    Seq<char>,
>
    decreases cands.len(),
{
    if cands.len() == 0 {
        acc
    } else {
        let prev = add_prefixed(acc, cands.drop_last(), prefix);
        let c = cands.last();
        if starts_with(c, prefix) && !prev.contains(c) {
            prev.push(c)
        } else {
            prev
        }
    }
}

pub open spec fn builtin_commands() -> Seq<Seq<char>> {
    seq![":Color"@, ":Toggle"@, ":Editor"@]
}

pub open spec fn color_targets() -> Seq<Seq<char>> {
    seq!["--inputbox"@, "--output"@, "--banner"@]
}

pub open spec fn color_names() -> Seq<Seq<char>> {
    seq![
        "Red"@,
        "Green"@,
        "Blue"@,
        "Cyan"@,
        "Magenta"@,
        "Yellow"@,
        "White"@,
        "Black"@,
        "Gray"@,
        "DarkGray"@,
        "LightRed"@,
        "LightGreen"@,
        "LightBlue"@,
        "LightCyan"@,
        "LightMagenta"@,
        "LightYellow"@,
    ]
}

pub open spec fn toggle_flags() -> Seq<Seq<char>> {
    seq!["--autocd"@, "--suggestions"@]
}

pub open spec fn bool_words() -> Seq<Seq<char>> {
    seq!["true"@, "false"@]
}

pub open spec fn editor_names() -> Seq<Seq<char>> {
    seq!["vim"@, "nano"@, "code"@, "nvim"@, "emacs"@]
}

/// What to suggest for a line being typed.
pub enum Suggestions {
    /// These completions.
    Ready(Vec<String>),
    /// Paths that complete this partial path.
    Files(String),
}

/// The outcome as plain values: `Ok` with completions, or `Err` with a partial path to
/// complete.
pub open spec fn suggestions_view(s: Suggestions) -> Result<Seq<Seq<char>>, Seq<char>> {
    match s {
        Suggestions::Ready(v) => Ok(v@.map_values(|x: String| x@)),
        Suggestions::Files(p) => Err(p@),
    }
}

/// The argument position after a built-in command: whether the line is at its first (or
/// else second) argument, with the partial word typed so far.
pub open spec fn arg_slot(t: Seq<Seq<char>>, ends_ws: bool) -> Option<(bool, Seq<char>)> {
    if (t.len() == 1 && ends_ws) || (t.len() == 2 && !ends_ws) {
        Some((true, if t.len() == 2 { t[1] } else { Seq::empty() }))
    } else if (t.len() == 2 && ends_ws) || (t.len() == 3 && !ends_ws) {
        Some((false, if t.len() == 3 { t[2] } else { Seq::empty() }))
    } else {
        None
    }
}

/// The completions a built-in command line gets before the general ones, if any: a command
/// name, or the values of its first and second argument (`:Editor` has only one).
pub open spec fn builtin_suggestions(t: Seq<Seq<char>>, ends_ws: bool) -> Option<Seq<Seq<char>>> {
    if t.len() == 1 && !ends_ws {
        let r = matching(builtin_commands(), t[0]);
        if r.len() > 0 {
            Some(r)
        } else {
            None
        }
    } else if eq_ignore_ascii_case(t[0], ":Color"@) {
        match arg_slot(t, ends_ws) {
            Some((true, p)) => Some(matching(color_targets(), p)),
            Some((_, p)) => Some(matching(color_names(), p)),
            None => None,
        }
    } else if eq_ignore_ascii_case(t[0], ":Toggle"@) {
        match arg_slot(t, ends_ws) {
            Some((true, p)) => Some(matching(toggle_flags(), p)),
            Some((_, p)) => Some(matching(bool_words(), p)),
            None => None,
        }
    } else if eq_ignore_ascii_case(t[0], ":Editor"@) {
        match arg_slot(t, ends_ws) {
            Some((true, p)) => {
                let r = matching(editor_names(), p);
                if r.len() > 0 {
                    Some(r)
                } else {
                    None
                }
            },
            _ => None,
        }
    } else {
        None
    }
}

/// The suggestions for a line: nothing for a blank line; for a line starting with `:`, the
/// completions of a built-in command where there are any; once a word is complete, the paths
/// completing the last word; otherwise the earlier commands (latest first) and then the
/// known executables that begin with the line, each once.
pub open spec fn suggest(
    input: Seq<char>,
    history: Seq<Seq<char>>,
    executables: Seq<Seq<char>>,
) -> Result<Seq<Seq<char>>, Seq<char>> {
    let trimmed = input.subrange(crate::text::skip_ws(input, 0), input.len() as int);
    let t = words(trimmed, 0);
    let ends_ws = trimmed.len() > 0 && is_ws(trimmed.last());
    if trimmed.len() == 0 {
        Ok(Seq::empty())
    } else if trimmed[0] == ':' && builtin_suggestions(t, ends_ws) is Some {
        Ok(builtin_suggestions(t, ends_ws)->0)
    } else if ends_ws || t.len() > 1 {
        Err(if ends_ws { Seq::empty() } else { t.last() })
    } else {
        Ok(add_prefixed(add_prefixed(Seq::empty(), history.reverse(), trimmed), executables, trimmed))
    }
}

} // verus!

verus! {

pub open spec fn views(v: Seq<String>) -> Seq<Seq<char>> {
    v.map_values(|s: String| s@)
}

pub(crate) fn starts_with_exec(a: &Vec<char>, b: &Vec<char>) -> (r: bool)
    ensures
        r == starts_with(a@, b@),
{
    if b.len() > a.len() {
        return false;
    }
    let mut i: usize = 0;
    while i < b.len()
        invariant
            b@.len() <= a@.len(),
            i <= b@.len(),
            forall|k: int| 0 <= k < i ==> a@[k] == b@[k],
        decreases b.len() - i,
    {
        if a[i] != b[i] {
            proof {
                assert(a@.subrange(0, b@.len() as int)[i as int] != b@[i as int]);
            }
            return false;
        }
        i += 1;
    }
    proof {
        assert(a@.subrange(0, b@.len() as int) =~= b@);
    }
    true
}

fn ascii_lower_exec(c: char) -> (r: char)
    ensures
        r == ascii_lower(c),
{
    if 'A' <= c && c <= 'Z' {
        ((c as u8) + 32) as char
    } else {
        c
    }
}

fn eq_ignore_ascii_case_exec(a: &Vec<char>, b: &str) -> (r: bool)
    ensures
        r == eq_ignore_ascii_case(a@, b@),
{
    let bv = chars_of(b);
    if a.len() != bv.len() {
        return false;
    }
    let mut i: usize = 0;
    while i < a.len()
        invariant
            a@.len() == bv@.len(),
            bv@ == b@,
            i <= a@.len(),
            forall|k: int| 0 <= k < i ==> ascii_lower(a@[k]) == ascii_lower(bv@[k]),
        decreases a.len() - i,
    {
        if ascii_lower_exec(a[i]) != ascii_lower_exec(bv[i]) {
            return false;
        }
        i += 1;
    }
    true
}

pub(crate) fn words_exec(s: &Vec<char>) -> (r: Vec<Vec<char>>)
    ensures
        r@.map_values(|w: Vec<char>| w@) == words(s@, 0),
        s@.len() > 0 && !is_ws(s@[0]) ==> r@.len() > 0,
{
    let mut r: Vec<Vec<char>> = Vec::new();
    let mut i: usize = 0;
    while i < s.len()
        invariant
            i <= s@.len(),
            r@.map_values(|w: Vec<char>| w@) + words(s@, i as int) == words(s@, 0),
            s@.len() > 0 && !is_ws(s@[0]) && i > 0 ==> r@.len() > 0,
        decreases s.len() - i,
    {
        let mut a = i;
        while a < s.len() && is_whitespace(s[a])
            invariant
                i <= a <= s@.len(),
                crate::text::skip_ws(s@, i as int) == crate::text::skip_ws(s@, a as int),
            decreases s.len() - a,
        {
            a += 1;
        }
        if a >= s.len() {
            proof {
                assert(words(s@, i as int) == Seq::<Seq<char>>::empty());
                assert(r@.map_values(|w: Vec<char>| w@) + words(s@, i as int) =~= r@.map_values(
                    |w: Vec<char>| w@,
                ));
                assert(words(s@, s@.len() as int) == Seq::<Seq<char>>::empty());
                assert(r@.map_values(|w: Vec<char>| w@) + words(s@, s@.len() as int)
                    =~= r@.map_values(|w: Vec<char>| w@));
            }
            i = s.len();
        } else {
            let mut b = a;
            while b < s.len() && !is_whitespace(s[b])
                invariant
                    a <= b <= s@.len(),
                    word_end(s@, a as int) == word_end(s@, b as int),
                decreases s.len() - b,
            {
                b += 1;
            }
            let w = sub_chars(s, a, b);
            let ghost before = r@.map_values(|w: Vec<char>| w@);
            r.push(w);
            proof {
                assert(r@.map_values(|w: Vec<char>| w@) =~= before.push(s@.subrange(a as int, b as int)));
                assert(words(s@, i as int) == seq![s@.subrange(a as int, b as int)] + words(
                    s@,
                    b as int,
                ));
                assert(before + words(s@, i as int) =~= before.push(s@.subrange(a as int, b as int))
                    + words(s@, b as int));
            }
            i = b;
        }
    }
    proof {
        assert(words(s@, i as int) == Seq::<Seq<char>>::empty());
        assert(r@.map_values(|w: Vec<char>| w@) + words(s@, i as int) =~= r@.map_values(
            |w: Vec<char>| w@,
        ));
    }
    r
}

/// The candidates whose lower-case form begins with that of `partial`.
fn matching_exec(cands: &Vec<String>, partial: &Vec<char>) -> (r: Vec<String>)
    ensures
        views(r@) == matching(views(cands@), partial@),
{
    let lp = chars_of(to_lowercase(string_from(partial).as_str()).as_str());
    let mut r: Vec<String> = Vec::new();
    let mut i: usize = 0;
    while i < cands.len()
        invariant
            i <= cands@.len(),
            lp@ == lower_text(partial@),
            views(r@) == matching(views(cands@).take(i as int), partial@),
        decreases cands.len() - i,
    {
        proof {
            assert(views(cands@).take(i + 1).drop_last() =~= views(cands@).take(i as int));
            assert(views(cands@).take(i + 1).last() == cands@[i as int]@);
        }
        let lc = chars_of(to_lowercase(cands[i].as_str()).as_str());
        if starts_with_exec(&lc, &lp) {
            let ghost before = views(r@);
            r.push(cands[i].clone());
            proof {
                assert(views(r@) =~= before.push(cands@[i as int]@));
            }
        }
        i += 1;
    }
    proof {
        assert(views(cands@).take(cands@.len() as int) =~= views(cands@));
    }
    r
}

fn contains_exec(v: &Vec<String>, x: &Vec<char>) -> (r: bool)
    ensures
        r == views(v@).contains(x@),
{
    let mut i: usize = 0;
    while i < v.len()
        invariant
            i <= v@.len(),
            forall|k: int| 0 <= k < i ==> v@[k]@ != x@,
        decreases v.len() - i,
    {
        if crate::text::chars_eq(&chars_of(v[i].as_str()), x) {
            proof {
                assert(views(v@)[i as int] == x@);
            }
            return true;
        }
        i += 1;
    }
    proof {
        if views(v@).contains(x@) {
            let k = choose|k: int| 0 <= k < views(v@).len() && views(v@)[k] == x@;
            assert(v@[k]@ == x@);
        }
    }
    false
}

fn strings(items: &[&str]) -> (r: Vec<String>)
    ensures
        views(r@) == items@.map_values(|s: &str| s@),
{
    let mut r: Vec<String> = Vec::new();
    let mut i: usize = 0;
    while i < items.len()
        invariant
            i <= items@.len(),
            r@.len() == i,
            forall|k: int| 0 <= k < i ==> (#[trigger] r@[k])@ == items@[k]@,
        decreases items.len() - i,
    {
        r.push(lit(items[i]));
        i += 1;
    }
    proof {
        assert(views(r@) =~= items@.map_values(|s: &str| s@));
    }
    r
}

} // verus!

verus! {

fn arg_slot_exec(t: &Vec<Vec<char>>, ends_ws: bool) -> (r: Option<(bool, Vec<char>)>)
    ensures
        match r {
            Some((first, p)) => arg_slot(t@.map_values(|w: Vec<char>| w@), ends_ws) == Some(
                (first, p@),
            ),
            None => arg_slot(t@.map_values(|w: Vec<char>| w@), ends_ws) is None,
        },
{
    let n = t.len();
    if (n == 1 && ends_ws) || (n == 2 && !ends_ws) {
        let p = if n == 2 {
            t[1].clone()
        } else {
            Vec::new()
        };
        proof {
            if n == 2 {
                assert(p@ == t@[1]@);
            } else {
                assert(p@ =~= Seq::<char>::empty());
            }
        }
        Some((true, p))
    } else if (n == 2 && ends_ws) || (n == 3 && !ends_ws) {
        let p = if n == 3 {
            t[2].clone()
        } else {
            Vec::new()
        };
        proof {
            if n == 3 {
                assert(p@ == t@[2]@);
            } else {
                assert(p@ =~= Seq::<char>::empty());
            }
        }
        Some((false, p))
    } else {
        None
    }
}

/// The completions of a built-in command line (see `builtin_suggestions`).
fn builtin_exec(t: &Vec<Vec<char>>, ends_ws: bool) -> (r: Option<Vec<String>>)
    requires
        t@.len() >= 1,
    ensures
        match r {
            Some(v) => builtin_suggestions(t@.map_values(|w: Vec<char>| w@), ends_ws) == Some(
                views(v@),
            ),
            None => builtin_suggestions(t@.map_values(|w: Vec<char>| w@), ends_ws) is None,
        },
{
    let ghost tv = t@.map_values(|w: Vec<char>| w@);
    proof {
        assert(tv[0] == t@[0]@);
    }
    if t.len() == 1 && !ends_ws {
        let cands = strings(&[":Color", ":Toggle", ":Editor"]);
        proof {
            assert(views(cands@) =~= builtin_commands());
        }
        let r = matching_exec(&cands, &t[0]);
        return if r.len() > 0 {
            Some(r)
        } else {
            None
        };
    }
    if eq_ignore_ascii_case_exec(&t[0], ":Color") {
        match arg_slot_exec(t, ends_ws) {
            Some((true, p)) => {
                let cands = strings(&["--inputbox", "--output", "--banner"]);
                proof {
                    assert(views(cands@) =~= color_targets());
                }
                Some(matching_exec(&cands, &p))
            },
            Some((false, p)) => {
                let cands = strings(
                    &[
                        "Red",
                        "Green",
                        "Blue",
                        "Cyan",
                        "Magenta",
                        "Yellow",
                        "White",
                        "Black",
                        "Gray",
                        "DarkGray",
                        "LightRed",
                        "LightGreen",
                        "LightBlue",
                        "LightCyan",
                        "LightMagenta",
                        "LightYellow",
                    ],
                );
                proof {
                    assert(views(cands@) =~= color_names());
                }
                Some(matching_exec(&cands, &p))
            },
            None => None,
        }
    } else if eq_ignore_ascii_case_exec(&t[0], ":Toggle") {
        match arg_slot_exec(t, ends_ws) {
            Some((true, p)) => {
                let cands = strings(&["--autocd", "--suggestions"]);
                proof {
                    assert(views(cands@) =~= toggle_flags());
                }
                Some(matching_exec(&cands, &p))
            },
            Some((false, p)) => {
                let cands = strings(&["true", "false"]);
                proof {
                    assert(views(cands@) =~= bool_words());
                }
                Some(matching_exec(&cands, &p))
            },
            None => None,
        }
    } else if eq_ignore_ascii_case_exec(&t[0], ":Editor") {
        match arg_slot_exec(t, ends_ws) {
            Some((true, p)) => {
                let cands = strings(&["vim", "nano", "code", "nvim", "emacs"]);
                proof {
                    assert(views(cands@) =~= editor_names());
                }
                let r = matching_exec(&cands, &p);
                if r.len() > 0 {
                    Some(r)
                } else {
                    None
                }
            },
            _ => None,
        }
    } else {
        None
    }
}

} // verus!

verus! {

/// Completions for the line being typed: built-in commands and their arguments, earlier
/// commands, and the executables found on the search path.
pub struct SuggestionManager {
    path_executables: Vec<String>,
}

impl SuggestionManager {
    /// The executables known, in the order they are suggested.
    pub closed spec fn executables(&self) -> Seq<Seq<char>> {
        views(self.path_executables@)
    }

    /// No executables known yet.
    pub fn new() -> (m: Self)
        ensures
            m.executables().len() == 0,
    {
        SuggestionManager { path_executables: Vec::new() }
    }

    /// The suggestions for a line (see `suggest`); `history` is oldest first.
    pub fn get_suggestions(&self, input: &str, history: &[String]) -> (r: Suggestions)
        ensures
            suggestions_view(r) == suggest(input@, history@.map_values(|s: String| s@), self.executables()),
    {
        let cs = chars_of(input);
        let mut a: usize = 0;
        while a < cs.len() && is_whitespace(cs[a])
            invariant
                cs@ == input@,
                a <= cs@.len(),
                crate::text::skip_ws(input@, 0) == crate::text::skip_ws(input@, a as int),
            decreases cs.len() - a,
        {
            a += 1;
        }
        let trimmed = sub_chars(&cs, a, cs.len());
        if trimmed.len() == 0 {
            let empty: Vec<String> = Vec::new();
            proof {
                assert(views(empty@) =~= Seq::<Seq<char>>::empty());
            }
            return Suggestions::Ready(empty);
        }
        let t = words_exec(&trimmed);
        let ghost tv = t@.map_values(|w: Vec<char>| w@);
        let ends_ws = is_whitespace(trimmed[trimmed.len() - 1]);
        if trimmed[0] == ':' {
            match builtin_exec(&t, ends_ws) {
                Some(v) => {
                    return Suggestions::Ready(v);
                },
                None => {},
            }
        }
        if ends_ws || t.len() > 1 {
            let p = if ends_ws {
                String::new()
            } else {
                string_from(&t[t.len() - 1])
            };
            proof {
                if !ends_ws {
                    assert(tv.last() == t@[t@.len() - 1]@);
                }
            }
            return Suggestions::Files(p);
        }
        let ghost hv = history@.map_values(|s: String| s@);
        let ghost rev = hv.reverse();
        let mut results: Vec<String> = Vec::new();
        let mut k = history.len();
        while k > 0
            invariant
                k <= history@.len(),
                hv == history@.map_values(|s: String| s@),
                rev == hv.reverse(),
                views(results@) == add_prefixed(Seq::empty(), rev.take(history@.len() - k), trimmed@),
            decreases k,
        {
            proof {
                let m = history@.len() - k;
                assert(rev.take(m + 1).drop_last() =~= rev.take(m));
                assert(rev.take(m + 1).last() == history@[k - 1]@);
            }
            let h = chars_of(history[k - 1].as_str());
            if starts_with_exec(&h, &trimmed) && !contains_exec(&results, &h) {
                let ghost before = views(results@);
                results.push(history[k - 1].clone());
                proof {
                    assert(views(results@) =~= before.push(h@));
                }
            }
            k -= 1;
        }
        proof {
            assert(rev.take(history@.len() as int) =~= rev);
        }
        let ghost after_history = views(results@);
        let ghost ev = self.executables();
        let mut i: usize = 0;
        while i < self.path_executables.len()
            invariant
                i <= self.path_executables@.len(),
                ev == self.executables(),
                views(results@) == add_prefixed(after_history, ev.take(i as int), trimmed@),
            decreases self.path_executables.len() - i,
        {
            proof {
                assert(ev.take(i + 1).drop_last() =~= ev.take(i as int));
                assert(ev.take(i + 1).last() == self.path_executables@[i as int]@);
            }
            let e = chars_of(self.path_executables[i].as_str());
            if starts_with_exec(&e, &trimmed) && !contains_exec(&results, &e) {
                let ghost before = views(results@);
                results.push(self.path_executables[i].clone());
                proof {
                    assert(views(results@) =~= before.push(e@));
                }
            }
            i += 1;
        }
        proof {
            assert(ev.take(ev.len() as int) =~= ev);
        }
        Suggestions::Ready(results)
    }
}

} // verus!

verus! {

/// The order of `String`: by character codes, a prefix first.
pub open spec fn lex_lt(a: Seq<char>, b: Seq<char>) -> bool
    decreases a.len(),
{
    if a.len() == 0 {
        b.len() > 0
    } else if b.len() == 0 {
        false
    } else if a[0] != b[0] {
        a[0] < b[0]
    } else {
        lex_lt(a.drop_first(), b.drop_first())
    }
}

/// Each entry comes strictly before the next: sorted, without repeats.
pub open spec fn strictly_sorted(v: Seq<Seq<char>>) -> bool {
    forall|i: int, j: int| 0 <= i < j < v.len() ==> lex_lt(#[trigger] v[i], #[trigger] v[j])
}

proof fn lemma_lex_transitive(a: Seq<char>, b: Seq<char>, c: Seq<char>)
    requires
        lex_lt(a, b),
        lex_lt(b, c),
    ensures
        lex_lt(a, c),
    decreases a.len(),
{
    if a.len() > 0 && b.len() > 0 && c.len() > 0 && a[0] == b[0] && b[0] == c[0] {
        lemma_lex_transitive(a.drop_first(), b.drop_first(), c.drop_first());
    }
}

proof fn lemma_lex_irreflexive(a: Seq<char>)
    ensures
        !lex_lt(a, a),
    decreases a.len(),
{
    if a.len() > 0 {
        lemma_lex_irreflexive(a.drop_first());
    }
}

proof fn lemma_lex_total(a: Seq<char>, b: Seq<char>)
    ensures
        a == b || lex_lt(a, b) || lex_lt(b, a),
        !(lex_lt(a, b) && lex_lt(b, a)),
    decreases a.len(),
{
    if a.len() > 0 && b.len() > 0 {
        lemma_lex_total(a.drop_first(), b.drop_first());
        if a[0] == b[0] {
            if a.drop_first() == b.drop_first() {
                assert(a =~= seq![a[0]] + a.drop_first());
                assert(b =~= seq![b[0]] + b.drop_first());
            }
        } else {
            assert(a[0] < b[0] || b[0] < a[0]);
        }
    } else if a.len() == 0 && b.len() == 0 {
        assert(a =~= b);
    }
}

proof fn lemma_push_to_set(v: Seq<Seq<char>>, x: Seq<char>)
    ensures
        v.push(x).to_set() == v.to_set().insert(x),
{
    assert forall|y: Seq<char>| #[trigger] v.push(x).to_set().contains(y) == v.to_set().insert(
        x,
    ).contains(y) by {
        if v.push(x).contains(y) {
            let k = choose|k: int| 0 <= k < v.push(x).len() && v.push(x)[k] == y;
            if k < v.len() {
                assert(v[k] == y);
            }
        }
        if v.contains(y) {
            let k = choose|k: int| 0 <= k < v.len() && v[k] == y;
            assert(v.push(x)[k] == y);
        }
        if y == x {
            assert(v.push(x)[v.len() as int] == x);
        }
    }
    assert(v.push(x).to_set() =~= v.to_set().insert(x));
}

fn lex_lt_exec(a: &Vec<char>, b: &Vec<char>) -> (r: bool)
    ensures
        r == lex_lt(a@, b@),
{
    let mut i: usize = 0;
    proof {
        assert(a@.subrange(0, a@.len() as int) =~= a@);
        assert(b@.subrange(0, b@.len() as int) =~= b@);
    }
    while i < a.len() && i < b.len() && a[i] == b[i]
        invariant
            i <= a@.len(),
            i <= b@.len(),
            lex_lt(a@, b@) == lex_lt(a@.subrange(i as int, a@.len() as int), b@.subrange(
                i as int,
                b@.len() as int,
            )),
        decreases a.len() - i,
    {
        proof {
            assert(a@.subrange(i as int, a@.len() as int).drop_first() =~= a@.subrange(
                i + 1,
                a@.len() as int,
            ));
            assert(b@.subrange(i as int, b@.len() as int).drop_first() =~= b@.subrange(
                i + 1,
                b@.len() as int,
            ));
        }
        i += 1;
    }
    if i == a.len() {
        i < b.len()
    } else if i == b.len() {
        false
    } else {
        a[i] < b[i]
    }
}

impl SuggestionManager {
    /// Sets the executables found on the search path: sorted, each once.
    pub fn set_executables(&mut self, names: Vec<String>)
        ensures
            strictly_sorted(final(self).executables()),
            final(self).executables().to_set() == views(names@).to_set(),
    {
        let mut sorted: Vec<String> = Vec::new();
        let mut keys: Vec<Vec<char>> = Vec::new();
        let mut i: usize = 0;
        while i < names.len()
            invariant
                i <= names@.len(),
                keys@.len() == sorted@.len(),
                forall|k: int| 0 <= k < keys@.len() ==> (#[trigger] keys@[k])@ == sorted@[k]@,
                strictly_sorted(views(sorted@)),
                views(sorted@).to_set() == views(names@).take(i as int).to_set(),
            decreases names.len() - i,
        {
            let x = chars_of(names[i].as_str());
            let mut p: usize = 0;
            while p < keys.len() && lex_lt_exec(&keys[p], &x)
                invariant
                    p <= keys@.len(),
                    forall|k: int| 0 <= k < p ==> lex_lt(#[trigger] keys@[k]@, x@),
                decreases keys.len() - p,
            {
                p += 1;
            }
            let ghost old_sorted = views(sorted@);
            let ghost before = views(names@).take(i as int);
            proof {
                assert(views(names@).take(i + 1) =~= before.push(x@));
                assert(forall|k: int| 0 <= k < keys@.len() ==> old_sorted[k] == keys@[k]@);
            }
            let present = p < keys.len() && crate::text::chars_eq(&keys[p], &x);
            if !present {
                proof {
                    if p < keys@.len() {
                        lemma_lex_total(keys@[p as int]@, x@);
                    }
                    assert forall|j: int| p <= j < old_sorted.len() implies lex_lt(x@, old_sorted[j]) by {
                        lemma_lex_total(keys@[p as int]@, x@);
                        if j > p {
                            lemma_lex_transitive(x@, old_sorted[p as int], old_sorted[j]);
                        }
                    }
                }
                sorted.insert(p, names[i].clone());
                keys.insert(p, x);
                proof {
                    assert(views(sorted@) =~= old_sorted.insert(p as int, names@[i as int]@));
                    assert forall|a: int, b: int| 0 <= a < b < views(sorted@).len() implies lex_lt(
                        #[trigger] views(sorted@)[a],
                        #[trigger] views(sorted@)[b],
                    ) by {
                        if a < p && b == p {
                        } else if a == p {
                        } else if a < p && b > p {
                            assert(views(sorted@)[b] == old_sorted[b - 1]);
                        } else if b < p {
                        } else {
                            assert(views(sorted@)[a] == old_sorted[a - 1]);
                            assert(views(sorted@)[b] == old_sorted[b - 1]);
                        }
                    }
                    assert(views(sorted@).to_set() =~= old_sorted.to_set().insert(x@)) by {
                        assert forall|y: Seq<char>| views(sorted@).to_set().contains(y) implies old_sorted.to_set().insert(x@).contains(y) by {
                            let k = choose|k: int| 0 <= k < views(sorted@).len() && views(sorted@)[k] == y;
                            if k < p {
                                assert(old_sorted[k] == y);
                            } else if k > p {
                                assert(old_sorted[k - 1] == y);
                            }
                        }
                        assert forall|y: Seq<char>| old_sorted.to_set().insert(x@).contains(y) implies views(sorted@).to_set().contains(y) by {
                            if y == x@ {
                                assert(views(sorted@)[p as int] == y);
                            } else {
                                let k = choose|k: int| 0 <= k < old_sorted.len() && old_sorted[k] == y;
                                if k < p {
                                    assert(views(sorted@)[k] == y);
                                } else {
                                    assert(views(sorted@)[k + 1] == y);
                                }
                            }
                        }
                    }
                    lemma_push_to_set(before, x@);
                }
            } else {
                proof {
                    assert(old_sorted[p as int] == x@);
                    lemma_push_to_set(before, x@);
                    assert(old_sorted.to_set().insert(x@) =~= old_sorted.to_set());
                }
            }
            i += 1;
        }
        proof {
            assert(views(names@).take(names@.len() as int) =~= views(names@));
        }
        self.path_executables = sorted;
    }
}

} // verus!

verus! {

/// No entry occurs twice.
pub open spec fn no_repeats(v: Seq<Seq<char>>) -> bool {
    forall|i: int, j: int| 0 <= i < j < v.len() ==> v[i] != v[j]
}

proof fn lemma_add_prefixed(acc: Seq<Seq<char>>, cands: Seq<Seq<char>>, prefix: Seq<char>)
    requires
        no_repeats(acc),
        forall|i: int| 0 <= i < acc.len() ==> starts_with(#[trigger] acc[i], prefix),
    ensures
        no_repeats(add_prefixed(acc, cands, prefix)),
        forall|i: int|
            0 <= i < add_prefixed(acc, cands, prefix).len() ==> starts_with(
                #[trigger] add_prefixed(acc, cands, prefix)[i],
                prefix,
            ),
    decreases cands.len(),
{
    if cands.len() > 0 {
        lemma_add_prefixed(acc, cands.drop_last(), prefix);
        let prev = add_prefixed(acc, cands.drop_last(), prefix);
        let c = cands.last();
        if starts_with(c, prefix) && !prev.contains(c) {
            let r = prev.push(c);
            assert forall|i: int, j: int| 0 <= i < j < r.len() implies r[i] != r[j] by {
                if j == prev.len() {
                    assert(r[i] == prev[i]);
                    if prev[i] == c {
                        assert(prev.contains(c));
                    }
                }
            }
        }
    }
}

/// The completions taken from earlier commands and executables all begin with the line typed,
/// and none is offered twice.
pub proof fn lemma_completions_distinct(
    prefix: Seq<char>,
    history: Seq<Seq<char>>,
    executables: Seq<Seq<char>>,
)
    ensures
        ({
            let r = add_prefixed(
                add_prefixed(Seq::empty(), history.reverse(), prefix),
                executables,
                prefix,
            );
            &&& no_repeats(r)
            &&& forall|i: int| 0 <= i < r.len() ==> starts_with(#[trigger] r[i], prefix)
        }),
{
    lemma_add_prefixed(Seq::empty(), history.reverse(), prefix);
    lemma_add_prefixed(
        add_prefixed(Seq::empty(), history.reverse(), prefix),
        executables,
        prefix,
    );
}

} // verus!
