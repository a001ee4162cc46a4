use vstd::prelude::*;
use crate::lang::config::{parse_usize, parse_usize_exec};
use crate::managers::suggestions::{starts_with, starts_with_exec, words, words_exec};
use crate::text::{chars_of, concat, lit, lower_text, string_from, to_lowercase, trim, trim_chars};

verus! {

/// Whether ratatui reads the text as a colour (`ratatui::style::Color::from_str`: a named
/// colour, an index, or `#RRGGBB`).
pub uninterp spec fn ratatui_color(s: Seq<char>) -> bool;

/// Whether ratatui reads the text as a colour (`str::parse::<ratatui::style::Color>`).
#[verifier::external_body]
fn is_ratatui_color(s: &str) -> (r: bool)
    ensures
        r == ratatui_color(s@),
{
    s.parse::<ratatui::style::Color>().is_ok()
}

/// The part of the shell whose colour `:Color` sets.
#[derive(Debug, Clone, Copy, PartialEq, Eq, Structural)]
pub enum ColorTarget {
    InputBox,
    Output,
    Banner,
}

/// What the shell does with a line the user entered. For every line but a blank one it first
/// adds the line to the history and echoes it as `> line`.
pub enum ShellCommand {
    /// A blank line: nothing.
    Blank,
    /// `exit` or `quit`: leave the shell.
    Quit,
    /// `clear` or `cls`: clear the output.
    Clear,
    /// `cd path`: change the current directory (printing `cd error: ...` where that fails).
    ChangeDir(String),
    /// `:Color target color`: set the colour (written as given) of a part of the shell, save the
    /// settings and print `Color for target set to color` (or the saving error).
    SetColor(ColorTarget, String, String),
    /// `:Toggle --autocd value`: set auto-cd, print `Autocd set to: value`, save the settings.
    SetAutocd(bool),
    /// `:Toggle --suggestions value`: set suggestions, print `Suggestions set to: value`,
    /// save the settings.
    SetSuggestions(bool),
    /// `:Editor name`: set the editor and print `Editor set to: name` (the settings are not
    /// saved).
    SetEditor(String),
    /// Print the message, then save the settings where the flag is set.
    Say(String, bool),
    /// `jobs`: print the list of jobs.
    Jobs,
    /// `kill id`: kill the job and print what that gives.
    Kill(u32),
    /// `fg id`: wait for the job and print what that gives.
    Foreground(u32),
    /// Anything else: tokenize, parse, lint and run the line as a program.
    Run(String),
}

/// The mathematical form of a `ShellCommand`.
pub enum ShellPlan {
    Blank,
    Quit,
    Clear,
    ChangeDir(Seq<char>),
    SetColor(ColorTarget, Seq<char>, Seq<char>),
    SetAutocd(bool),
    SetSuggestions(bool),
    SetEditor(Seq<char>),
    Say(Seq<char>, bool),
    Jobs,
    Kill(u32),
    Foreground(u32),
    Run(Seq<char>),
}

impl View for ShellCommand {
    type V = ShellPlan;

    open spec fn view(&self) -> ShellPlan {
        match self {
            ShellCommand::Blank => ShellPlan::Blank,
            ShellCommand::Quit => ShellPlan::Quit,
            ShellCommand::Clear => ShellPlan::Clear,
            ShellCommand::ChangeDir(p) => ShellPlan::ChangeDir(p@),
            ShellCommand::SetColor(t, n, c) => ShellPlan::SetColor(*t, n@, c@),
            ShellCommand::SetAutocd(b) => ShellPlan::SetAutocd(*b),
            ShellCommand::SetSuggestions(b) => ShellPlan::SetSuggestions(*b),
            ShellCommand::SetEditor(e) => ShellPlan::SetEditor(e@),
            ShellCommand::Say(m, s) => ShellPlan::Say(m@, *s),
            ShellCommand::Jobs => ShellPlan::Jobs,
            ShellCommand::Kill(i) => ShellPlan::Kill(*i),
            ShellCommand::Foreground(i) => ShellPlan::Foreground(*i),
            ShellCommand::Run(c) => ShellPlan::Run(c@),
        }
    }
}

/// `str::parse::<u32>`: an optional `+`, then decimal digits whose value fits in 32 bits.
pub open spec fn parse_u32(s: Seq<char>) -> Option<u32> {
    match parse_usize(s) {
        Some(v) => if v <= u32::MAX {
            Some(v as u32)
        } else {
            None
        },
        None => None,
    }
}

/// `:Color` with the words after it.
pub open spec fn color_plan(args: Seq<Seq<char>>) -> ShellPlan {
    if args.len() != 2 {
        ShellPlan::Say("Usage: :Color <Target> <Color>"@, false)
    } else if !ratatui_color(args[1]) {
        ShellPlan::Say("Invalid color: "@ + args[1], false)
    } else if lower_text(args[0]) == "--inputbox"@ {
        ShellPlan::SetColor(ColorTarget::InputBox, args[0], args[1])
    } else if lower_text(args[0]) == "--output"@ {
        ShellPlan::SetColor(ColorTarget::Output, args[0], args[1])
    } else if lower_text(args[0]) == "--banner"@ {
        ShellPlan::SetColor(ColorTarget::Banner, args[0], args[1])
    } else {
        ShellPlan::Say(
            "Unknown color target: "@ + args[0] + ". Use --inputbox, --output, or --banner."@,
            false,
        )
    }
}

/// `:Toggle` with the words after it.
pub open spec fn toggle_plan(args: Seq<Seq<char>>) -> ShellPlan {
    if args.len() != 2 {
        ShellPlan::Say("Usage: :Toggle <Flag> <true/false>"@, false)
    } else if lower_text(args[0]) == "--autocd"@ {
        ShellPlan::SetAutocd(args[1] == "true"@)
    } else if lower_text(args[0]) == "--suggestions"@ {
        ShellPlan::SetSuggestions(args[1] == "true"@)
    } else {
        ShellPlan::Say("Unknown flag: "@ + args[0] + ". Use --autocd or --suggestions."@, true)
    }
}

/// A job command (`kill` or `fg`) on the text after its name.
pub open spec fn job_plan(rest: Seq<char>, kill: bool) -> ShellPlan {
    match parse_u32(trim(rest)) {
        Some(id) => if kill {
            ShellPlan::Kill(id)
        } else {
            ShellPlan::Foreground(id)
        },
        None => if kill {
            ShellPlan::Say("Usage: kill <job_id>"@, false)
        } else {
            ShellPlan::Say("Usage: fg <job_id>"@, false)
        },
    }
}

/// What the shell does with the line `cmd` (see `ShellCommand`): the line is trimmed, then
/// tested in turn for each built-in command; `kill` and `fg` are tested on the line as typed.
pub open spec fn shell_plan(cmd: Seq<char>) -> ShellPlan {
    let t = trim(cmd);
    if t.len() == 0 {
        ShellPlan::Blank
    } else if t == "exit"@ || t == "quit"@ {
        ShellPlan::Quit
    } else if t == "clear"@ || t == "cls"@ {
        ShellPlan::Clear
    } else if starts_with(t, "cd "@) {
        ShellPlan::ChangeDir(trim(t.skip(3)))
    } else if starts_with(t, ":Color "@) {
        color_plan(words(t.skip(7), 0))
    } else if starts_with(t, ":Toggle "@) {
        toggle_plan(words(t.skip(8), 0))
    } else if starts_with(t, ":Editor "@) {
        ShellPlan::SetEditor(trim(t.skip(8)))
    } else if t == "jobs"@ {
        ShellPlan::Jobs
    } else if starts_with(cmd, "kill "@) {
        job_plan(cmd.skip(5), true)
    } else if starts_with(cmd, "fg "@) {
        job_plan(cmd.skip(3), false)
    } else {
        ShellPlan::Run(cmd)
    }
}

fn tail(v: &Vec<char>, k: usize) -> (r: Vec<char>)
    requires
        k <= v@.len(),
    ensures
        r@ == v@.skip(k as int),
{
    let mut r: Vec<char> = Vec::new();
    let mut i = k;
    while i < v.len()
        invariant
            k <= i <= v@.len(),
            r@ == v@.subrange(k as int, i as int),
        decreases v.len() - i,
    {
        r.push(v[i]);
        i += 1;
        proof {
            assert(r@ =~= v@.subrange(k as int, i as int));
        }
    }
    proof {
        assert(r@ =~= v@.skip(k as int));
    }
    r
}

fn prefix(v: &Vec<char>, p: &str) -> (r: bool)
    ensures
        r == starts_with(v@, p@),
{
    starts_with_exec(v, &chars_of(p))
}

fn is(v: &Vec<char>, p: &str) -> (r: bool)
    ensures
        r == (v@ == p@),
{
    crate::text::chars_eq_str(v, p)
}

fn color_command(args: &Vec<Vec<char>>) -> (r: ShellCommand)
    ensures
        r@ == color_plan(args@.map_values(|w: Vec<char>| w@)),
{
    let ghost a = args@.map_values(|w: Vec<char>| w@);
    if args.len() != 2 {
        return ShellCommand::Say(lit("Usage: :Color <Target> <Color>"), false);
    }
    proof {
        assert(a[0] == args@[0]@ && a[1] == args@[1]@);
    }
    let target = string_from(&args[0]);
    let color = string_from(&args[1]);
    if !is_ratatui_color(color.as_str()) {
        return ShellCommand::Say(concat(lit("Invalid color: "), color.as_str()), false);
    }
    let l = chars_of(to_lowercase(target.as_str()).as_str());
    if is(&l, "--inputbox") {
        ShellCommand::SetColor(ColorTarget::InputBox, target, color)
    } else if is(&l, "--output") {
        ShellCommand::SetColor(ColorTarget::Output, target, color)
    } else if is(&l, "--banner") {
        ShellCommand::SetColor(ColorTarget::Banner, target, color)
    } else {
        let m = concat(concat(lit("Unknown color target: "), target.as_str()), ". Use --inputbox, --output, or --banner.");
        ShellCommand::Say(m, false)
    }
}

fn toggle_command(args: &Vec<Vec<char>>) -> (r: ShellCommand)
    ensures
        r@ == toggle_plan(args@.map_values(|w: Vec<char>| w@)),
{
    let ghost a = args@.map_values(|w: Vec<char>| w@);
    if args.len() != 2 {
        return ShellCommand::Say(lit("Usage: :Toggle <Flag> <true/false>"), false);
    }
    proof {
        assert(a[0] == args@[0]@ && a[1] == args@[1]@);
    }
    let flag = string_from(&args[0]);
    let value = is(&args[1], "true");
    let l = chars_of(to_lowercase(flag.as_str()).as_str());
    if is(&l, "--autocd") {
        ShellCommand::SetAutocd(value)
    } else if is(&l, "--suggestions") {
        ShellCommand::SetSuggestions(value)
    } else {
        let m = concat(concat(lit("Unknown flag: "), flag.as_str()), ". Use --autocd or --suggestions.");
        ShellCommand::Say(m, true)
    }
}

fn job_command(rest: &Vec<char>, kill: bool) -> (r: ShellCommand)
    ensures
        r@ == job_plan(rest@, kill),
{
    let t = trim_chars(rest);
    match parse_usize_exec(&t) {
        Some(v) => if v <= 0xffff_ffff {
            if kill {
                ShellCommand::Kill(v as u32)
            } else {
                ShellCommand::Foreground(v as u32)
            }
        } else if kill {
            ShellCommand::Say(lit("Usage: kill <job_id>"), false)
        } else {
            ShellCommand::Say(lit("Usage: fg <job_id>"), false)
        },
        None => if kill {
            ShellCommand::Say(lit("Usage: kill <job_id>"), false)
        } else {
            ShellCommand::Say(lit("Usage: fg <job_id>"), false)
        },
    }
}

/// What the shell does with the line the user entered (see `shell_plan`).
pub fn shell_command(cmd: &str) -> (r: ShellCommand)
    ensures
        r@ == shell_plan(cmd@),
{
    let c = chars_of(cmd);
    let t = trim_chars(&c);
    proof {
        reveal_strlit("cd ");
        reveal_strlit(":Color ");
        reveal_strlit(":Toggle ");
        reveal_strlit(":Editor ");
        reveal_strlit("kill ");
        reveal_strlit("fg ");
    }
    if t.len() == 0 {
        ShellCommand::Blank
    } else if is(&t, "exit") || is(&t, "quit") {
        ShellCommand::Quit
    } else if is(&t, "clear") || is(&t, "cls") {
        ShellCommand::Clear
    } else if prefix(&t, "cd ") {
        ShellCommand::ChangeDir(string_from(&trim_chars(&tail(&t, 3))))
    } else if prefix(&t, ":Color ") {
        let w = words_exec(&tail(&t, 7));
        color_command(&w)
    } else if prefix(&t, ":Toggle ") {
        let w = words_exec(&tail(&t, 8));
        toggle_command(&w)
    } else if prefix(&t, ":Editor ") {
        ShellCommand::SetEditor(string_from(&trim_chars(&tail(&t, 8))))
    } else if is(&t, "jobs") {
        ShellCommand::Jobs
    } else if prefix(&c, "kill ") {
        job_command(&tail(&c, 5), true)
    } else if prefix(&c, "fg ") {
        job_command(&tail(&c, 3), false)
    } else {
        ShellCommand::Run(string_from(&c))
    }
}

} // verus!
