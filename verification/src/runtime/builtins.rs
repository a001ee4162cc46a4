use vstd::prelude::*;
use crate::runtime::ops::{parse_i32, parse_int};
use crate::text::{chars_eq_str, chars_of, concat, lit, push_char, string_from, sub_chars};

verus! {

/// What a built-in command of the shell does, as plain values (see `Builtin`).
pub enum BuiltinView {
    Change(Option<Seq<char>>),
    Quit(i32),
    ListVars,
    SetVars(Seq<(Seq<char>, Seq<char>)>),
    Out(Seq<char>),
    Cwd,
    Show(Seq<char>),
    Read(Seq<Seq<char>>),
    Create(bool, Seq<Seq<char>>),
    Input(Option<Seq<char>>),
    InputKey(Option<Seq<char>>),
    Remove(bool, Seq<Seq<char>>),
    Expr(Seq<char>),
    Help,
    Fails(Seq<char>),
    NotBuiltin,
}

/// What a built-in command of the shell does, decided from its name and arguments; the caller
/// does the work on the file system, the environment and the terminal.
pub enum Builtin {
    /// Change to this directory (the home directory where none is given).
    Change(Option<String>),
    /// Leave with this exit code.
    Quit(i32),
    /// List the environment variables.
    ListVars,
    /// Set these environment variables, in order.
    SetVars(Vec<(String, String)>),
    /// Print this text.
    Out(String),
    /// Print the working directory.
    Cwd,
    /// List this directory.
    Show(String),
    /// Print these files.
    Read(Vec<String>),
    /// Create these directories (`true`) or files (`false`).
    Create(bool, Vec<String>),
    /// Read a line, after this prompt.
    Input(Option<String>),
    /// Read a key, after this prompt.
    InputKey(Option<String>),
    /// Remove these paths, recursively or not.
    Remove(bool, Vec<String>),
    /// Evaluate this arithmetic expression.
    Expr(String),
    /// Print the help text.
    Help,
    /// Fail with this message.
    Fails(String),
    /// The command is no built-in.
    NotBuiltin,
}

pub open spec fn texts_view(v: Seq<String>) -> Seq<Seq<char>> {
    v.map_values(|s: String| s@)
}

pub open spec fn pairs_view(v: Seq<(String, String)>) -> Seq<(Seq<char>, Seq<char>)> {
    v.map_values(|p: (String, String)| (p.0@, p.1@))
}

pub open spec fn opt_text(o: Option<String>) -> Option<Seq<char>> {
    match o {
        Some(s) => Some(s@),
        None => None,
    }
}

impl View for Builtin {
    type V = BuiltinView;

    open spec fn view(&self) -> BuiltinView {
        match self {
            Builtin::Change(p) => BuiltinView::Change(opt_text(*p)),
            Builtin::Quit(c) => BuiltinView::Quit(*c),
            Builtin::ListVars => BuiltinView::ListVars,
            Builtin::SetVars(v) => BuiltinView::SetVars(pairs_view(v@)),
            Builtin::Out(s) => BuiltinView::Out(s@),
            Builtin::Cwd => BuiltinView::Cwd,
            Builtin::Show(s) => BuiltinView::Show(s@),
            Builtin::Read(v) => BuiltinView::Read(texts_view(v@)),
            Builtin::Create(d, v) => BuiltinView::Create(*d, texts_view(v@)),
            Builtin::Input(p) => BuiltinView::Input(opt_text(*p)),
            Builtin::InputKey(p) => BuiltinView::InputKey(opt_text(*p)),
            Builtin::Remove(r, v) => BuiltinView::Remove(*r, texts_view(v@)),
            Builtin::Expr(s) => BuiltinView::Expr(s@),
            Builtin::Help => BuiltinView::Help,
            Builtin::Fails(s) => BuiltinView::Fails(s@),
            Builtin::NotBuiltin => BuiltinView::NotBuiltin,
        }
    }
}

/// The arguments joined by single spaces.
pub open spec fn spaced(args: Seq<Seq<char>>) -> Seq<char>
    decreases args.len(),
{
    if args.len() == 0 {
        Seq::empty()
    } else if args.len() == 1 {
        args[0]
    } else {
        spaced(args.drop_last()) + seq![' '] + args.last()
    }
}

/// `s` without the `c` characters at its end.
pub open spec fn trim_end_char(s: Seq<char>, c: char) -> Seq<char>
    decreases s.len(),
{
    if s.len() > 0 && s.last() == c {
        trim_end_char(s.drop_last(), c)
    } else {
        s
    }
}

/// `s` without the `c` characters at its start.
pub open spec fn trim_start_char(s: Seq<char>, c: char) -> Seq<char>
    decreases s.len(),
{
    if s.len() > 0 && s[0] == c {
        trim_start_char(s.drop_first(), c)
    } else {
        s
    }
}

/// Where the first `=` stands, or -1.
pub open spec fn first_eq(s: Seq<char>, i: int) -> int
    decreases s.len() - i,
{
    if i < 0 || i >= s.len() {
        -1
    } else if s[i] == '=' {
        i
    } else {
        first_eq(s, i + 1)
    }
}

/// The assignments of `declare`, from argument `i` on: `name = value`, `name= value`,
/// `name =value`, or one argument `name=value` (a name alone sets the empty value).
pub open spec fn declared_vars(args: Seq<Seq<char>>, i: int) -> Seq<(Seq<char>, Seq<char>)>
    decreases args.len() - i,
{
    if i < 0 || i >= args.len() {
        Seq::empty()
    } else if i + 2 < args.len() && args[i + 1] == "="@ {
        seq![(args[i], args[i + 2])] + declared_vars(args, i + 3)
    } else if i + 1 < args.len() && args[i].len() > 0 && args[i].last() == '=' {
        seq![(trim_end_char(args[i], '='), args[i + 1])] + declared_vars(args, i + 2)
    } else if i + 1 < args.len() && args[i + 1].len() > 0 && args[i + 1][0] == '=' {
        seq![(args[i], trim_start_char(args[i + 1], '='))] + declared_vars(args, i + 2)
    } else {
        let k = first_eq(args[i], 0);
        let pair = if k < 0 {
            (args[i], Seq::<char>::empty())
        } else {
            (args[i].subrange(0, k), args[i].subrange(k + 1, args[i].len() as int))
        };
        seq![pair] + declared_vars(args, i + 1)
    }
}

/// The flags and paths of `create`: `-d` makes the rest directories, `-f` files (the last flag
/// counts).
pub open spec fn create_dirs(args: Seq<Seq<char>>) -> bool
    decreases args.len(),
{
    if args.len() == 0 {
        false
    } else if args.last() == "-d"@ {
        true
    } else if args.last() == "-f"@ {
        false
    } else {
        create_dirs(args.drop_last())
    }
}

/// The arguments that are not among the flags given.
pub open spec fn non_flags(args: Seq<Seq<char>>, flags: Seq<Seq<char>>) -> Seq<Seq<char>> {
    args.filter(|a: Seq<char>| !flags.contains(a))
}

/// The flags of `irm` that make removal recursive.
pub open spec fn recursive_flags() -> Seq<Seq<char>> {
    seq!["-r"@, "-R"@, "--recursive"@]
}

/// The flags of `create`.
pub open spec fn create_flags() -> Seq<Seq<char>> {
    seq!["-d"@, "-f"@]
}

/// What the built-in command `program` does with `args`.
pub open spec fn builtin_of(program: Seq<char>, args: Seq<Seq<char>>) -> BuiltinView {
    if program == "change"@ {
        BuiltinView::Change(
            if args.len() == 0 {
                None
            } else {
                Some(args[0])
            },
        )
    } else if program == "quit"@ {
        BuiltinView::Quit(
            if args.len() == 0 {
                0
            } else {
                match parse_i32(args[0]) {
                    Some(c) => c,
                    None => 0,
                }
            },
        )
    } else if program == "declare"@ {
        if args.len() == 0 {
            BuiltinView::ListVars
        } else {
            BuiltinView::SetVars(declared_vars(args, 0))
        }
    } else if program == "out"@ {
        BuiltinView::Out(spaced(args) + seq!['\n'])
    } else if program == "cwd"@ {
        BuiltinView::Cwd
    } else if program == "show"@ {
        BuiltinView::Show(
            if args.len() == 0 {
                "."@
            } else {
                args[0]
            },
        )
    } else if program == "read"@ {
        if args.len() == 0 {
            BuiltinView::Fails("read error: expected file path"@)
        } else {
            BuiltinView::Read(args)
        }
    } else if program == "create"@ {
        if args.len() == 0 {
            BuiltinView::Fails("create error: expected path"@)
        } else if non_flags(args, create_flags()).len() == 0 {
            BuiltinView::Fails("create error: expected path after flags"@)
        } else {
            BuiltinView::Create(create_dirs(args), non_flags(args, create_flags()))
        }
    } else if program == "input"@ {
        BuiltinView::Input(
            if args.len() == 0 {
                None
            } else {
                Some(spaced(args))
            },
        )
    } else if program == "inputkey"@ {
        BuiltinView::InputKey(
            if args.len() == 0 {
                None
            } else {
                Some(spaced(args))
            },
        )
    } else if program == "irm"@ {
        if args.len() == 0 {
            BuiltinView::Fails("irm error: expected path"@)
        } else {
            BuiltinView::Remove(
                non_flags(args, recursive_flags()).len() < args.len(),
                non_flags(args, recursive_flags()),
            )
        }
    } else if program == "expr"@ {
        if args.len() == 0 {
            BuiltinView::Fails("expr error: missing expression"@)
        } else {
            BuiltinView::Expr(spaced(args))
        }
    } else if program == "help"@ {
        BuiltinView::Help
    } else {
        BuiltinView::NotBuiltin
    }
}

fn join_spaced(args: &Vec<String>) -> (r: String)
    ensures
        r@ == spaced(texts_view(args@)),
{
    let mut out = String::new();
    let mut i: usize = 0;
    proof {
        assert(texts_view(args@).take(0) =~= Seq::<Seq<char>>::empty());
    }
    while i < args.len()
        invariant
            i <= args@.len(),
            out@ == spaced(texts_view(args@).take(i as int)),
        decreases args.len() - i,
    {
        proof {
            assert(texts_view(args@).take(i + 1).drop_last() =~= texts_view(args@).take(i as int));
            assert(texts_view(args@).take(i + 1).last() == args@[i as int]@);
        }
        if i == 0 {
            out = args[0].clone();
            proof {
                assert(texts_view(args@).take(1).len() == 1);
            }
        } else {
            let mut spaced_out = out;
            push_char(&mut spaced_out, ' ');
            out = concat(spaced_out, args[i].as_str());
        }
        i += 1;
    }
    proof {
        assert(texts_view(args@).take(args@.len() as int) =~= texts_view(args@));
    }
    out
}

fn strip_end(s: &Vec<char>, c: char) -> (r: Vec<char>)
    ensures
        r@ == trim_end_char(s@, c),
{
    let mut b = s.len();
    proof {
        assert(s@.take(b as int) =~= s@);
    }
    while b > 0 && s[b - 1] == c
        invariant
            b <= s@.len(),
            trim_end_char(s@, c) == trim_end_char(s@.take(b as int), c),
        decreases b,
    {
        proof {
            assert(s@.take(b as int).drop_last() =~= s@.take(b - 1));
        }
        b -= 1;
    }
    sub_chars(s, 0, b)
}

fn strip_start(s: &Vec<char>, c: char) -> (r: Vec<char>)
    ensures
        r@ == trim_start_char(s@, c),
{
    let mut a: usize = 0;
    proof {
        assert(s@.skip(0) =~= s@);
    }
    while a < s.len() && s[a] == c
        invariant
            a <= s@.len(),
            trim_start_char(s@, c) == trim_start_char(s@.skip(a as int), c),
        decreases s.len() - a,
    {
        proof {
            assert(s@.skip(a as int).drop_first() =~= s@.skip(a + 1));
        }
        a += 1;
    }
    proof {
        assert(s@.subrange(a as int, s@.len() as int) =~= s@.skip(a as int));
    }
    sub_chars(s, a, s.len())
}

fn declare_pairs(args: &Vec<String>) -> (r: Vec<(String, String)>)
    ensures
        pairs_view(r@) == declared_vars(texts_view(args@), 0),
{
    let ghost a = texts_view(args@);
    let mut out: Vec<(String, String)> = Vec::new();
    let mut i: usize = 0;
    proof {
        assert(pairs_view(out@) + declared_vars(a, 0) =~= declared_vars(a, 0));
    }
    while i < args.len()
        invariant
            i <= args@.len(),
            a == texts_view(args@),
            pairs_view(out@) + declared_vars(a, i as int) == declared_vars(a, 0),
        decreases args.len() - i,
    {
        let ghost before = pairs_view(out@);
        let ghost i0 = i;
        let cur = chars_of(args[i].as_str());
        if args.len() - i > 2 && crate::text::string_eq_str(&args[i + 1], "=") {
            out.push((args[i].clone(), args[i + 2].clone()));
            i += 3;
        } else if args.len() - i > 1 && cur.len() > 0 && cur[cur.len() - 1] == '=' {
            let name = string_from(&strip_end(&cur, '='));
            out.push((name, args[i + 1].clone()));
            i += 2;
        } else if args.len() - i > 1 && {
            let next = chars_of(args[i + 1].as_str());
            next.len() > 0 && next[0] == '='
        } {
            let next = chars_of(args[i + 1].as_str());
            let value = string_from(&strip_start(&next, '='));
            out.push((args[i].clone(), value));
            i += 2;
        } else {
            let pair = match crate::lang::config::find_char_exec(&cur, '=', 0) {
                Some(k) => {
                    proof {
                        lemma_first_eq_is_find(cur@, 0);
                    }
                    (string_from(&sub_chars(&cur, 0, k)), string_from(&sub_chars(&cur, k + 1, cur.len())))
                },
                None => {
                    proof {
                        lemma_first_eq_is_find(cur@, 0);
                    }
                    (args[i].clone(), String::new())
                },
            };
            out.push(pair);
            i += 1;
        }
        proof {
            assert(pairs_view(out@) =~= before.push(pairs_view(out@).last()));
            assert(pairs_view(out@) + declared_vars(a, i as int) =~= before + declared_vars(a, i0 as int));
        }
    }
    out
}

proof fn lemma_first_eq_is_find(s: Seq<char>, i: int)
    ensures
        first_eq(s, i) == crate::lang::config::find_char(s, '=', i),
    decreases s.len() - i,
{
    if 0 <= i < s.len() && s[i] != '=' {
        lemma_first_eq_is_find(s, i + 1);
    }
}

fn is_recursive_flag(a: &String) -> (r: bool)
    ensures
        r == recursive_flags().contains(a@),
{
    let r = crate::text::string_eq_str(a, "-r") || crate::text::string_eq_str(a, "-R")
        || crate::text::string_eq_str(a, "--recursive");
    proof {
        let f = recursive_flags();
        if r {
            if a@ == "-r"@ {
                assert(f[0] == a@);
            } else if a@ == "-R"@ {
                assert(f[1] == a@);
            } else {
                assert(f[2] == a@);
            }
        } else {
            assert forall|j: int| 0 <= j < f.len() implies f[j] != a@ by {}
        }
    }
    r
}

fn is_create_flag(a: &String) -> (r: bool)
    ensures
        r == create_flags().contains(a@),
{
    let r = crate::text::string_eq_str(a, "-d") || crate::text::string_eq_str(a, "-f");
    proof {
        let f = create_flags();
        if r {
            if a@ == "-d"@ {
                assert(f[0] == a@);
            } else {
                assert(f[1] == a@);
            }
        } else {
            assert forall|j: int| 0 <= j < f.len() implies f[j] != a@ by {}
        }
    }
    r
}

fn remove_paths(args: &Vec<String>) -> (r: (bool, Vec<String>))
    ensures
        r.0 == (non_flags(texts_view(args@), recursive_flags()).len() < args@.len()),
        texts_view(r.1@) == non_flags(texts_view(args@), recursive_flags()),
{
    let ghost a = texts_view(args@);
    let mut paths: Vec<String> = Vec::new();
    let mut i: usize = 0;
    proof {
        assert(a.take(0) =~= Seq::<Seq<char>>::empty());
        assert(texts_view(paths@) =~= non_flags(a.take(0), recursive_flags()));
    }
    while i < args.len()
        invariant
            i <= args@.len(),
            a == texts_view(args@),
            texts_view(paths@) == non_flags(a.take(i as int), recursive_flags()),
            non_flags(a.take(i as int), recursive_flags()).len() <= i,
        decreases args.len() - i,
    {
        proof {
            assert(a.take(i + 1).drop_last() =~= a.take(i as int));
            assert(a.take(i + 1).last() == args@[i as int]@);
        }
        let flag = is_recursive_flag(&args[i]);
        proof {
            reveal(Seq::filter);
            let f = |x: Seq<char>| !recursive_flags().contains(x);
            assert(non_flags(a.take(i + 1), recursive_flags()) == a.take(i + 1).filter(f));
            assert(a.take(i + 1).filter(f) == (if f(a.take(i + 1).last()) {
                a.take(i + 1).drop_last().filter(f).push(a.take(i + 1).last())
            } else {
                a.take(i + 1).drop_last().filter(f)
            }));
        }
        if !flag {
            let ghost before = texts_view(paths@);
            paths.push(args[i].clone());
            proof {
                assert(texts_view(paths@) =~= before.push(args@[i as int]@));
            }
        }
        i += 1;
    }
    proof {
        assert(a.take(args@.len() as int) =~= a);
    }
    (paths.len() < args.len(), paths)
}

fn create_paths(args: &Vec<String>) -> (r: (bool, Vec<String>))
    ensures
        r.0 == create_dirs(texts_view(args@)),
        texts_view(r.1@) == non_flags(texts_view(args@), create_flags()),
{
    let ghost a = texts_view(args@);
    let mut paths: Vec<String> = Vec::new();
    let mut dirs = false;
    let mut i: usize = 0;
    proof {
        assert(a.take(0) =~= Seq::<Seq<char>>::empty());
        assert(texts_view(paths@) =~= non_flags(a.take(0), create_flags()));
    }
    while i < args.len()
        invariant
            i <= args@.len(),
            a == texts_view(args@),
            texts_view(paths@) == non_flags(a.take(i as int), create_flags()),
            dirs == create_dirs(a.take(i as int)),
        decreases args.len() - i,
    {
        proof {
            assert(a.take(i + 1).drop_last() =~= a.take(i as int));
            assert(a.take(i + 1).last() == args@[i as int]@);
        }
        if crate::text::string_eq_str(&args[i], "-d") {
            dirs = true;
        } else if crate::text::string_eq_str(&args[i], "-f") {
            dirs = false;
        }
        let flag = is_create_flag(&args[i]);
        proof {
            reveal(Seq::filter);
            let f = |x: Seq<char>| !create_flags().contains(x);
            assert(non_flags(a.take(i + 1), create_flags()) == a.take(i + 1).filter(f));
            assert(a.take(i + 1).filter(f) == (if f(a.take(i + 1).last()) {
                a.take(i + 1).drop_last().filter(f).push(a.take(i + 1).last())
            } else {
                a.take(i + 1).drop_last().filter(f)
            }));
        }
        if !flag {
            let ghost before = texts_view(paths@);
            paths.push(args[i].clone());
            proof {
                assert(texts_view(paths@) =~= before.push(args@[i as int]@));
            }
        }
        i += 1;
    }
    proof {
        assert(a.take(args@.len() as int) =~= a);
    }
    (dirs, paths)
}

/// What the built-in command `program` does with `args` (see `builtin_of`).
pub fn builtin(program: &str, args: &Vec<String>) -> (r: Builtin)
    ensures
        r@ == builtin_of(program@, texts_view(args@)),
{
    let p = chars_of(program);
    if chars_eq_str(&p, "change") {
        return Builtin::Change(if args.len() == 0 { None } else { Some(args[0].clone()) });
    }
    if chars_eq_str(&p, "quit") {
        let code = if args.len() == 0 {
            0
        } else {
            match parse_int(&chars_of(args[0].as_str())) {
                Some(c) => c,
                None => 0,
            }
        };
        return Builtin::Quit(code);
    }
    if chars_eq_str(&p, "declare") {
        if args.len() == 0 {
            return Builtin::ListVars;
        }
        return Builtin::SetVars(declare_pairs(args));
    }
    if chars_eq_str(&p, "out") {
        let mut t = join_spaced(args);
        let ghost t0 = t@;
        push_char(&mut t, '\n');
        proof {
            assert(t@ =~= t0 + seq!['\n']);
        }
        return Builtin::Out(t);
    }
    if chars_eq_str(&p, "cwd") {
        return Builtin::Cwd;
    }
    if chars_eq_str(&p, "show") {
        return Builtin::Show(if args.len() == 0 { lit(".") } else { args[0].clone() });
    }
    if chars_eq_str(&p, "read") {
        if args.len() == 0 {
            return Builtin::Fails(lit("read error: expected file path"));
        }
        let mut files: Vec<String> = Vec::new();
        let mut i: usize = 0;
        while i < args.len()
            invariant
                i <= args@.len(),
                texts_view(files@) == texts_view(args@).take(i as int),
            decreases args.len() - i,
        {
            let ghost before = texts_view(files@);
            files.push(args[i].clone());
            proof {
                assert(texts_view(files@) =~= before.push(args@[i as int]@));
            }
            i += 1;
            proof {
                assert(texts_view(files@) =~= texts_view(args@).take(i as int));
            }
        }
        proof {
            assert(texts_view(args@).take(args@.len() as int) =~= texts_view(args@));
        }
        return Builtin::Read(files);
    }
    if chars_eq_str(&p, "create") {
        if args.len() == 0 {
            return Builtin::Fails(lit("create error: expected path"));
        }
        let (dirs, paths) = create_paths(args);
        if paths.len() == 0 {
            return Builtin::Fails(lit("create error: expected path after flags"));
        }
        return Builtin::Create(dirs, paths);
    }
    if chars_eq_str(&p, "input") {
        return Builtin::Input(if args.len() == 0 { None } else { Some(join_spaced(args)) });
    }
    if chars_eq_str(&p, "inputkey") {
        return Builtin::InputKey(if args.len() == 0 { None } else { Some(join_spaced(args)) });
    }
    if chars_eq_str(&p, "irm") {
        if args.len() == 0 {
            return Builtin::Fails(lit("irm error: expected path"));
        }
        let (recursive, paths) = remove_paths(args);
        return Builtin::Remove(recursive, paths);
    }
    if chars_eq_str(&p, "expr") {
        if args.len() == 0 {
            return Builtin::Fails(lit("expr error: missing expression"));
        }
        return Builtin::Expr(join_spaced(args));
    }
    if chars_eq_str(&p, "help") {
        return Builtin::Help;
    }
    Builtin::NotBuiltin
}

} // verus!
