use vstd::prelude::*;
use crate::error::IshError;
use crate::io::color::{byte_len, byte_len_capped, hex_color, hex_splits_char, Color};
use crate::runtime::gobbler::{Gobbler, HeapObject};
use crate::runtime::ops::{show, shown};
use crate::runtime::str_lib::strings_array;
use crate::runtime::value::IshValue;
use crate::text::{chars_eq_str, chars_of, concat, lit, lower_text, string_eq_str, to_lowercase};

verus! {

/// A float function of the `Math` library, which the host computes on the arguments.
#[derive(Debug, Clone, Copy, PartialEq, Eq, Structural)]
pub enum MathOp {
    Abs,
    Ceiling,
    Floor,
    Round,
    Pow,
    Min,
    Max,
    Sqrt,
}

/// What a method of a runtime library asks of the host: an answer it gives at once, or one
/// piece of outside work, after which the host answers as each variant says.
pub enum Request {
    /// Answer this value.
    Answer(IshValue),
    /// Write the text and a line break to standard output; answer `null`.
    WriteLine(String),
    /// Write the text to standard output; answer `null`.
    Write(String),
    /// Read a line from standard input; answer it as a string.
    ReadLine,
    /// Read one key press; answer it as a string.
    ReadKey,
    /// Select the colour of the text; answer `null`.
    Foreground(Color),
    /// Select the colour of the background; answer `null`.
    Background(Color),
    /// Go back to the terminal's own colours; answer `null`.
    ResetColors,
    /// Answer whether something exists at the path.
    Exists(String),
    /// Read the file at the path; answer the array of its lines (see `IshFS::lines_value`).
    ReadLines(String),
    /// Read the file at the path; answer its text.
    ReadText(String),
    /// Write `data` to the file at `path`, created where missing, after its text where
    /// `append` holds and in its place otherwise; answer `true`.
    WriteText { path: String, data: String, append: bool },
    /// Answer the array of the paths of the entries of the directory (empty where it cannot be
    /// read).
    ListDir(String),
    /// Answer the seconds since the Unix epoch (see `IshTime::clock_value`).
    ReadClock,
    /// Answer the environment variable (see `IshOS::env_value`).
    GetEnv(String),
    /// Set the environment variable to the value; answer `true`.
    SetEnv(String, String),
    /// Answer the name of the operating system.
    Platform,
    /// Answer the name of the processor architecture.
    Arch,
    /// Answer the current directory.
    CurrentDir,
    /// Run the program with the arguments and wait for it; answer its result object (see
    /// `IshExtProc::result_value`).
    Run { program: String, arguments: Vec<String> },
    /// Answer the float function of the first argument (and the second, for `Pow`, `Min`
    /// and `Max`).
    Calculate(MathOp),
    /// Fail with an `ExecutionError` with this message.
    Fails(String),
    /// An argument is a float, whose text the host writes; the host does the call itself.
    NeedsFloat,
}

/// The mathematical form of a `Request`.
pub enum Plan {
    Text(Seq<char>),
    Value(IshValue),
    WriteLine(Seq<char>),
    Write(Seq<char>),
    ReadLine,
    ReadKey,
    Foreground(Color),
    Background(Color),
    ResetColors,
    Exists(Seq<char>),
    ReadLines(Seq<char>),
    ReadText(Seq<char>),
    WriteText(Seq<char>, Seq<char>, bool),
    ListDir(Seq<char>),
    ReadClock,
    GetEnv(Seq<char>),
    SetEnv(Seq<char>, Seq<char>),
    Platform,
    Arch,
    CurrentDir,
    Run(Seq<char>, Seq<Seq<char>>),
    Calculate(MathOp),
    Fails(Seq<char>),
    NeedsFloat,
}

impl View for Request {
    type V = Plan;

    /// An answer that is a string is its text; every other value stands as it is.
    open spec fn view(&self) -> Plan {
        match self {
            Request::Answer(IshValue::String(s)) => Plan::Text(s@),
            Request::Answer(v) => Plan::Value(*v),
            Request::WriteLine(s) => Plan::WriteLine(s@),
            Request::Write(s) => Plan::Write(s@),
            Request::ReadLine => Plan::ReadLine,
            Request::ReadKey => Plan::ReadKey,
            Request::Foreground(c) => Plan::Foreground(*c),
            Request::Background(c) => Plan::Background(*c),
            Request::ResetColors => Plan::ResetColors,
            Request::Exists(p) => Plan::Exists(p@),
            Request::ReadLines(p) => Plan::ReadLines(p@),
            Request::ReadText(p) => Plan::ReadText(p@),
            Request::WriteText { path, data, append } => Plan::WriteText(path@, data@, *append),
            Request::ListDir(p) => Plan::ListDir(p@),
            Request::ReadClock => Plan::ReadClock,
            Request::GetEnv(k) => Plan::GetEnv(k@),
            Request::SetEnv(k, v) => Plan::SetEnv(k@, v@),
            Request::Platform => Plan::Platform,
            Request::Arch => Plan::Arch,
            Request::CurrentDir => Plan::CurrentDir,
            Request::Run { program, arguments } => Plan::Run(
                program@,
                arguments@.map_values(|a: String| a@),
            ),
            Request::Calculate(op) => Plan::Calculate(*op),
            Request::Fails(m) => Plan::Fails(m@),
            Request::NeedsFloat => Plan::NeedsFloat,
        }
    }
}

/// The message of a method that a library does not have.
pub open spec fn unknown_method(method: Seq<char>, library: Seq<char>) -> Seq<char> {
    "Method "@ + method + " not found in "@ + library
}

/// A method on the text of its first argument: fails with `missing` where there is none.
pub open spec fn on_text(args: Seq<IshValue>, missing: Seq<char>, plan: spec_fn(Seq<char>) -> Plan) -> Plan {
    if args.len() == 0 {
        Plan::Fails(missing)
    } else if args[0] is Float {
        Plan::NeedsFloat
    } else {
        plan(shown(args[0]))
    }
}

fn unknown_message(method: &str, library: &str) -> (r: String)
    ensures
        r@ == unknown_method(method@, library@),
{
    concat(concat(concat(lit("Method "), method), " not found in "), library)
}

fn unknown(method: &str, library: &str) -> (r: Request)
    ensures
        r@ == Plan::Fails(unknown_method(method@, library@)),
{
    Request::Fails(unknown_message(method, library))
}

fn fails(m: &str) -> (r: Request)
    ensures
        r@ == Plan::Fails(m@),
{
    Request::Fails(lit(m))
}

fn answer_text(m: &str) -> (r: Request)
    ensures
        r@ == Plan::Text(m@),
{
    Request::Answer(IshValue::String(lit(m)))
}

fn is_float_value(v: &IshValue) -> (r: bool)
    ensures
        r == (*v is Float),
{
    match v {
        IshValue::Float(_) => true,
        _ => false,
    }
}

/// The `Net` library of the runtime, which has no network access of its own yet.
pub struct IshNet;

impl IshNet {
    /// The name under which programs call the library.
    pub fn name(&self) -> (r: &'static str)
        ensures
            r@ == "Net"@,
    {
        "Net"
    }

    /// The library answers every method name (unknown ones with an error).
    pub fn handles_method(&self, method: &str) -> (r: bool)
        ensures
            r,
    {
        true
    }

    /// `Get` and `Post` answer that they are not implemented, `Download` answers `false`, and
    /// any other method fails.
    pub fn execute_method(&self, method: &str, args: &[IshValue]) -> (r: Result<IshValue, IshError>)
        ensures
            method@ == "Get"@ ==> (r matches Ok(IshValue::String(s)) && s@
                == "Net.Get not implemented natively yet"@),
            method@ == "Post"@ ==> (r matches Ok(IshValue::String(s)) && s@
                == "Net.Post not implemented natively yet"@),
            method@ == "Download"@ ==> r == Ok::<IshValue, IshError>(IshValue::Bool(false)),
            method@ != "Get"@ && method@ != "Post"@ && method@ != "Download"@ ==> (r matches Err(
                IshError::ExecutionError(m),
            ) && m@ == unknown_method(method@, "Net"@)),
    {
        proof {
            reveal_strlit("Get");
            reveal_strlit("Post");
            reveal_strlit("Download");
            assert("Get"@.len() == 3 && "Post"@.len() == 4 && "Download"@.len() == 8);
        }
        let m = chars_of(method);
        if chars_eq_str(&m, "Get") {
            Ok(IshValue::String(lit("Net.Get not implemented natively yet")))
        } else if chars_eq_str(&m, "Post") {
            Ok(IshValue::String(lit("Net.Post not implemented natively yet")))
        } else if chars_eq_str(&m, "Download") {
            Ok(IshValue::Bool(false))
        } else {
            Err(IshError::ExecutionError(unknown_message(method, "Net")))
        }
    }
}

/// What a method of the `Time` library asks of the host.
pub open spec fn time_plan(method: Seq<char>, args: Seq<IshValue>) -> Plan {
    if method == "Now"@ || method == "Unix"@ {
        Plan::ReadClock
    } else if method == "Format"@ {
        on_text(args, "Time.Format requires 1 arg"@, |t: Seq<char>| Plan::Text("Formatted: "@ + t))
    } else {
        Plan::Fails(unknown_method(method, "Time"@))
    }
}

/// The `Time` library of the runtime.
pub struct IshTime;

impl IshTime {
    /// The name under which programs call the library.
    pub fn name(&self) -> (r: &'static str)
        ensures
            r@ == "Time"@,
    {
        "Time"
    }

    /// The library answers every method name (unknown ones with an error).
    pub fn handles_method(&self, method: &str) -> (r: bool)
        ensures
            r,
    {
        true
    }

    /// What calling `method` with `args` asks of the host (see `time_plan`).
    pub fn plan_method(&self, method: &str, args: &[IshValue]) -> (r: Request)
        ensures
            r@ == time_plan(method@, args@),
    {
        let m = chars_of(method);
        if chars_eq_str(&m, "Now") || chars_eq_str(&m, "Unix") {
            Request::ReadClock
        } else if chars_eq_str(&m, "Format") {
            if args.len() == 0 {
                fails("Time.Format requires 1 arg")
            } else if is_float_value(&args[0]) {
                Request::NeedsFloat
            } else {
                Request::Answer(IshValue::String(concat(lit("Formatted: "), show(&args[0]).as_str())))
            }
        } else {
            unknown(method, "Time")
        }
    }

    /// The answer to `ReadClock` for a clock that reads `seconds`: the seconds as an integer,
    /// cut to 32 bits as Rust's `as i32` does.
    pub fn clock_value(&self, seconds: u64) -> (v: IshValue)
        ensures
            v == IshValue::Int(seconds as i32),
    {
        IshValue::Int(seconds as i32)
    }
}

/// A colour argument is read as hex where it starts with `#` or is six bytes long.
pub open spec fn takes_hex(t: Seq<char>) -> bool {
    (t.len() > 0 && t[0] == '#') || byte_len(t) == 6
}

/// The basic colour a name gives (compared in lower case, see `lower_text`), if any.
pub open spec fn basic_color(t: Seq<char>) -> Option<Color> {
    let l = lower_text(t);
    if l == "black"@ {
        Some(Color::Black)
    } else if l == "red"@ {
        Some(Color::Red)
    } else if l == "green"@ {
        Some(Color::Green)
    } else if l == "yellow"@ {
        Some(Color::Yellow)
    } else if l == "blue"@ {
        Some(Color::Blue)
    } else if l == "magenta"@ {
        Some(Color::Magenta)
    } else if l == "cyan"@ {
        Some(Color::Cyan)
    } else if l == "white"@ {
        Some(Color::White)
    } else {
        None
    }
}

/// The colour a colour argument names: one of the eight basic names in any case (the library
/// guide's list), else a hex colour (see `hex_color`) where the text starts with `#` or is six
/// bytes long; otherwise the error message.
pub open spec fn color_named(t: Seq<char>) -> Result<Color, Seq<char>> {
    match basic_color(t) {
        Some(c) => Ok(c),
        None => if takes_hex(t) {
            match hex_color(t) {
                Ok((r, g, b)) => Ok(Color::RGB(r, g, b)),
                Err(body) => Err("Invalid hex color: "@ + body),
            }
        } else {
            Err("Unknown color: "@ + t)
        },
    }
}

/// A colour method whose argument is hex text whose pairs would cut a character (where
/// Rust panics).
pub open spec fn color_splits(method: Seq<char>, args: Seq<IshValue>) -> bool {
    &&& (method == "ForeColor"@ || method == "BackColor"@)
    &&& args.len() > 0
    &&& !(args[0] is Float)
    &&& basic_color(shown(args[0])) is None
    &&& takes_hex(shown(args[0]))
    &&& hex_splits_char(shown(args[0]))
}

/// The request of a colour method, from the colour its argument names.
pub open spec fn color_plan(args: Seq<IshValue>, missing: Seq<char>, background: bool) -> Plan {
    if args.len() == 0 {
        Plan::Fails(missing)
    } else if args[0] is Float {
        Plan::NeedsFloat
    } else {
        match color_named(shown(args[0])) {
            Ok(c) => if background {
                Plan::Background(c)
            } else {
                Plan::Foreground(c)
            },
            Err(m) => Plan::Fails(m),
        }
    }
}

/// What a method of the `CommandLine` library asks of the host.
pub open spec fn console_plan(method: Seq<char>, args: Seq<IshValue>) -> Plan {
    if method == "OutputLine"@ {
        if args.len() == 0 {
            Plan::WriteLine(Seq::empty())
        } else if args[0] is Float {
            Plan::NeedsFloat
        } else {
            Plan::WriteLine(shown(args[0]))
        }
    } else if method == "Output"@ {
        if args.len() == 0 {
            Plan::Value(IshValue::Null)
        } else if args[0] is Float {
            Plan::NeedsFloat
        } else {
            Plan::Write(shown(args[0]))
        }
    } else if method == "Input"@ {
        Plan::ReadLine
    } else if method == "Read"@ {
        Plan::ReadKey
    } else if method == "Out"@ {
        Plan::Text("<StdoutStream>"@)
    } else if method == "Error"@ {
        Plan::Text("<StderrStream>"@)
    } else if method == "In"@ {
        Plan::Text("<StdinStream>"@)
    } else if method == "ForeColor"@ {
        color_plan(args, "ForeColor requires a color argument"@, false)
    } else if method == "BackColor"@ {
        color_plan(args, "BackColor requires a color argument"@, true)
    } else if method == "ResetColor"@ {
        Plan::ResetColors
    } else {
        Plan::Fails(unknown_method(method, "CommandLine"@))
    }
}

fn basic_color_of(t: &String) -> (r: Option<Color>)
    ensures
        r == basic_color(t@),
{
    let l = to_lowercase(t.as_str());
    if string_eq_str(&l, "black") {
        Some(Color::Black)
    } else if string_eq_str(&l, "red") {
        Some(Color::Red)
    } else if string_eq_str(&l, "green") {
        Some(Color::Green)
    } else if string_eq_str(&l, "yellow") {
        Some(Color::Yellow)
    } else if string_eq_str(&l, "blue") {
        Some(Color::Blue)
    } else if string_eq_str(&l, "magenta") {
        Some(Color::Magenta)
    } else if string_eq_str(&l, "cyan") {
        Some(Color::Cyan)
    } else if string_eq_str(&l, "white") {
        Some(Color::White)
    } else {
        None
    }
}

fn takes_hex_exec(t: &String) -> (r: bool)
    ensures
        r == takes_hex(t@),
{
    let cs = chars_of(t.as_str());
    (cs.len() > 0 && cs[0] == '#') || byte_len_capped(&cs) == 6
}

fn color_of(t: &String) -> (r: Result<Color, String>)
    requires
        !(basic_color(t@) is None && takes_hex(t@) && hex_splits_char(t@)),
    ensures
        match color_named(t@) {
            Ok(c) => r == Ok::<Color, String>(c),
            Err(m) => r matches Err(x) && x@ == m,
        },
{
    match basic_color_of(t) {
        Some(c) => Ok(c),
        None => if takes_hex_exec(t) {
            match Color::from_hex(t.as_str()) {
                Ok(c) => Ok(c),
                Err(e) => {
                    let m = e.message();
                    proof {
                        assert(hex_color(t@) is Err);
                    }
                    Err(m)
                },
            }
        } else {
            Err(concat(lit("Unknown color: "), t.as_str()))
        },
    }
}

proof fn lemma_console_names()
    ensures
        "OutputLine"@ != "Output"@,
        "OutputLine"@ != "Input"@,
        "OutputLine"@ != "Read"@,
        "OutputLine"@ != "Out"@,
        "OutputLine"@ != "Error"@,
        "OutputLine"@ != "In"@,
        "OutputLine"@ != "ForeColor"@,
        "OutputLine"@ != "BackColor"@,
        "Output"@ != "Input"@,
        "Output"@ != "Read"@,
        "Output"@ != "Out"@,
        "Output"@ != "Error"@,
        "Output"@ != "In"@,
        "Output"@ != "ForeColor"@,
        "Output"@ != "BackColor"@,
        "Input"@ != "Read"@,
        "Input"@ != "Out"@,
        "Input"@ != "Error"@,
        "Input"@ != "In"@,
        "Input"@ != "ForeColor"@,
        "Input"@ != "BackColor"@,
        "Read"@ != "Out"@,
        "Read"@ != "Error"@,
        "Read"@ != "In"@,
        "Read"@ != "ForeColor"@,
        "Read"@ != "BackColor"@,
        "Out"@ != "Error"@,
        "Out"@ != "In"@,
        "Out"@ != "ForeColor"@,
        "Out"@ != "BackColor"@,
        "Error"@ != "In"@,
        "Error"@ != "ForeColor"@,
        "Error"@ != "BackColor"@,
        "In"@ != "ForeColor"@,
        "In"@ != "BackColor"@,
        "ForeColor"@ != "BackColor"@,
{
    reveal_strlit("OutputLine");
    reveal_strlit("Output");
    reveal_strlit("Input");
    reveal_strlit("Read");
    reveal_strlit("Out");
    reveal_strlit("Error");
    reveal_strlit("In");
    reveal_strlit("ForeColor");
    reveal_strlit("BackColor");
    assert("OutputLine"@.len() == 10 && "Output"@.len() == 6 && "Input"@.len() == 5
        && "Read"@.len() == 4 && "Out"@.len() == 3 && "Error"@.len() == 5 && "In"@.len() == 2
        && "ForeColor"@.len() == 9 && "BackColor"@.len() == 9);
    assert("Input"@[0] != "Error"@[0]);
    assert("ForeColor"@[0] != "BackColor"@[0]);
}

/// The `CommandLine` library of the runtime: the terminal's streams and colours.
pub struct IshCommandLine;

impl IshCommandLine {
    /// The name under which programs call the library.
    pub fn name(&self) -> (r: &'static str)
        ensures
            r@ == "CommandLine"@,
    {
        "CommandLine"
    }

    /// The library answers every method name (unknown ones with an error).
    pub fn handles_method(&self, method: &str) -> (r: bool)
        ensures
            r,
    {
        true
    }

    /// Whether a colour method with these arguments would cut a character of its hex text
    /// (see `color_splits`).
    pub fn splits_char(&self, method: &str, args: &[IshValue]) -> (r: bool)
        ensures
            r == color_splits(method@, args@),
    {
        let m = chars_of(method);
        if !(chars_eq_str(&m, "ForeColor") || chars_eq_str(&m, "BackColor")) || args.len() == 0
            || is_float_value(&args[0]) {
            return false;
        }
        let t = show(&args[0]);
        basic_color_of(&t).is_none() && takes_hex_exec(&t) && Color::splits_char(t.as_str())
    }

    /// What calling `method` with `args` asks of the host, where the call does not cut a
    /// character of its colour text (see `color_splits`); nothing where it would.
    pub fn checked_plan(&self, method: &str, args: &[IshValue]) -> (r: Option<Request>)
        ensures
            r is None <==> color_splits(method@, args@),
            r matches Some(q) ==> q@ == console_plan(method@, args@),
    {
        if self.splits_char(method, args) {
            None
        } else {
            Some(self.plan_method(method, args))
        }
    }

    /// What calling `method` with `args` asks of the host (see `console_plan`).
    pub fn plan_method(&self, method: &str, args: &[IshValue]) -> (r: Request)
        requires
            !color_splits(method@, args@),
        ensures
            r@ == console_plan(method@, args@),
    {
        proof {
            lemma_console_names();
        }
        let m = chars_of(method);
        if chars_eq_str(&m, "OutputLine") {
            if args.len() == 0 {
                let empty = lit("");
                proof {
                    reveal_strlit("");
                    assert(empty@ =~= Seq::<char>::empty());
                }
                Request::WriteLine(empty)
            } else if is_float_value(&args[0]) {
                Request::NeedsFloat
            } else {
                Request::WriteLine(show(&args[0]))
            }
        } else if chars_eq_str(&m, "Output") {
            if args.len() == 0 {
                Request::Answer(IshValue::Null)
            } else if is_float_value(&args[0]) {
                Request::NeedsFloat
            } else {
                Request::Write(show(&args[0]))
            }
        } else if chars_eq_str(&m, "Input") {
            Request::ReadLine
        } else if chars_eq_str(&m, "Read") {
            Request::ReadKey
        } else if chars_eq_str(&m, "Out") {
            answer_text("<StdoutStream>")
        } else if chars_eq_str(&m, "Error") {
            answer_text("<StderrStream>")
        } else if chars_eq_str(&m, "In") {
            answer_text("<StdinStream>")
        } else if chars_eq_str(&m, "ForeColor") || chars_eq_str(&m, "BackColor") {
            let back = chars_eq_str(&m, "BackColor");
            if args.len() == 0 {
                if back {
                    fails("BackColor requires a color argument")
                } else {
                    fails("ForeColor requires a color argument")
                }
            } else if is_float_value(&args[0]) {
                Request::NeedsFloat
            } else {
                match color_of(&show(&args[0])) {
                    Ok(c) => if back {
                        Request::Background(c)
                    } else {
                        Request::Foreground(c)
                    },
                    Err(e) => Request::Fails(e),
                }
            }
        } else if chars_eq_str(&m, "ResetColor") {
            Request::ResetColors
        } else {
            unknown(method, "CommandLine")
        }
    }
}

/// What a method of the `FS` library asks of the host.
pub open spec fn fs_plan(method: Seq<char>, args: Seq<IshValue>) -> Plan {
    if method == "Exists"@ {
        on_text(args, "FS.Exists requires 1 arg"@, |p: Seq<char>| Plan::Exists(p))
    } else if method == "ReadAllLines"@ {
        on_text(args, "FS.ReadAllLines requires 1 arg"@, |p: Seq<char>| Plan::ReadLines(p))
    } else if method == "ReadAllText"@ {
        on_text(args, "FS.ReadAllText requires 1 arg"@, |p: Seq<char>| Plan::ReadText(p))
    } else if method == "WriteAllText"@ {
        if args.len() < 2 {
            Plan::Fails("FS.WriteAllText requires <path> <data> [append]"@)
        } else if args[0] is Float || args[1] is Float {
            Plan::NeedsFloat
        } else {
            Plan::WriteText(
                shown(args[0]),
                shown(args[1]),
                args.len() > 2 && args[2] == IshValue::Bool(true),
            )
        }
    } else if method == "List"@ {
        on_text(args, "FS.List requires 1 arg"@, |p: Seq<char>| Plan::ListDir(p))
    } else {
        Plan::Fails(unknown_method(method, "FS"@))
    }
}

/// The lines of a text as Rust's `str::lines` gives them, from index `start` on: each ends
/// at a `\n`, which it does not hold, nor a `\r` just before it; the last may end at the end
/// of the text instead, and then keeps a final `\r`.
pub open spec fn lines_from(s: Seq<char>, start: int) -> Seq<Seq<char>>
    decreases s.len() - start,
{
    if start < 0 || start >= s.len() {
        Seq::empty()
    } else {
        let e = line_end(s, start);
        proof {
            lemma_line_end(s, start);
        }
        if e < s.len() {
            let line = s.subrange(start, e);
            let cut = if line.len() > 0 && line.last() == '\r' {
                line.drop_last()
            } else {
                line
            };
            seq![cut] + lines_from(s, e + 1)
        } else {
            seq![s.subrange(start, s.len() as int)]
        }
    }
}

/// The index of the first `\n` from `i` on, or the length of the text where there is none.
pub open spec fn line_end(s: Seq<char>, i: int) -> int
    decreases s.len() - i,
{
    if i < 0 || i >= s.len() {
        s.len() as int
    } else if s[i] == '\n' {
        i
    } else {
        line_end(s, i + 1)
    }
}

/// `line_end` gives the first `\n` from `i` on, or the end of the text.
pub proof fn lemma_line_end(s: Seq<char>, i: int)
    requires
        0 <= i <= s.len(),
    ensures
        i <= line_end(s, i) <= s.len(),
        line_end(s, i) < s.len() ==> s[line_end(s, i)] == '\n',
        forall|k: int| i <= k < line_end(s, i) ==> s[k] != '\n',
    decreases s.len() - i,
{
    if i < s.len() && s[i] != '\n' {
        lemma_line_end(s, i + 1);
    }
}

/// Puts a new array of the strings on the heap and answers a reference to it.
fn strings_value(heap: &mut Gobbler, items: Vec<String>) -> (v: IshValue)
    requires
        old(heap).wf(),
        old(heap).next_id < usize::MAX,
        old(heap).allocations_since_minor < usize::MAX,
    ensures
        final(heap).wf(),
        v == IshValue::Reference(old(heap).next_id),
        final(heap).heap() == old(heap).heap().insert(old(heap).next_id, final(heap).heap()[old(heap).next_id]),
        strings_array(final(heap).heap()[old(heap).next_id], items@.map_values(|t: String| t@)),
{
    let mut values: Vec<IshValue> = Vec::new();
    let mut i: usize = 0;
    while i < items.len()
        invariant
            i <= items@.len(),
            values@.len() == i,
            forall|j: int| 0 <= j < i ==> (#[trigger] values@[j] matches IshValue::String(t) && t@ == items@[j]@),
        decreases items.len() - i,
    {
        values.push(IshValue::String(items[i].clone()));
        i += 1;
    }
    let o = HeapObject::Array(values);
    let id = heap.allocate(o);
    proof {
        assert(heap.heap() =~= old(heap).heap().insert(id, o)) by {
            assert(heap.heap() == heap.old_heap@.union_prefer_right(heap.young_heap@));
        }
    }
    IshValue::Reference(id)
}

/// The `FS` library of the runtime: files and directories.
pub struct IshFS;

impl IshFS {
    /// The name under which programs call the library.
    pub fn name(&self) -> (r: &'static str)
        ensures
            r@ == "FS"@,
    {
        "FS"
    }

    /// The library answers every method name (unknown ones with an error).
    pub fn handles_method(&self, method: &str) -> (r: bool)
        ensures
            r,
    {
        true
    }

    /// What calling `method` with `args` asks of the host (see `fs_plan`).
    pub fn plan_method(&self, method: &str, args: &[IshValue]) -> (r: Request)
        ensures
            r@ == fs_plan(method@, args@),
    {
        let m = chars_of(method);
        if chars_eq_str(&m, "Exists") {
            if args.len() == 0 {
                fails("FS.Exists requires 1 arg")
            } else if is_float_value(&args[0]) {
                Request::NeedsFloat
            } else {
                Request::Exists(show(&args[0]))
            }
        } else if chars_eq_str(&m, "ReadAllLines") {
            if args.len() == 0 {
                fails("FS.ReadAllLines requires 1 arg")
            } else if is_float_value(&args[0]) {
                Request::NeedsFloat
            } else {
                Request::ReadLines(show(&args[0]))
            }
        } else if chars_eq_str(&m, "ReadAllText") {
            if args.len() == 0 {
                fails("FS.ReadAllText requires 1 arg")
            } else if is_float_value(&args[0]) {
                Request::NeedsFloat
            } else {
                Request::ReadText(show(&args[0]))
            }
        } else if chars_eq_str(&m, "WriteAllText") {
            if args.len() < 2 {
                fails("FS.WriteAllText requires <path> <data> [append]")
            } else if is_float_value(&args[0]) || is_float_value(&args[1]) {
                Request::NeedsFloat
            } else {
                let append = args.len() > 2 && match &args[2] {
                    IshValue::Bool(b) => *b,
                    _ => false,
                };
                Request::WriteText { path: show(&args[0]), data: show(&args[1]), append }
            }
        } else if chars_eq_str(&m, "List") {
            if args.len() == 0 {
                fails("FS.List requires 1 arg")
            } else if is_float_value(&args[0]) {
                Request::NeedsFloat
            } else {
                Request::ListDir(show(&args[0]))
            }
        } else {
            unknown(method, "FS")
        }
    }

    /// The lines of a text (see `lines_from`), as `str::lines` gives them.
    pub fn text_lines(&self, content: &str) -> (lines: Vec<String>)
        ensures
            lines@.map_values(|t: String| t@) == lines_from(content@, 0),
    {
        let s = chars_of(content);
        let mut lines: Vec<String> = Vec::new();
        let mut start: usize = 0;
        while start < s.len()
            invariant
                s@ == content@,
                start <= s@.len(),
                lines@.map_values(|t: String| t@) + lines_from(s@, start as int) == lines_from(
                    s@,
                    0,
                ),
            decreases s.len() - start,
        {
            let mut e = start;
            while e < s.len() && s[e] != '\n'
                invariant
                    start <= e <= s@.len(),
                    line_end(s@, start as int) == line_end(s@, e as int),
                decreases s.len() - e,
            {
                e += 1;
            }
            proof {
                lemma_line_end(s@, start as int);
            }
            let mut line: Vec<char> = Vec::new();
            let mut k = start;
            while k < e
                invariant
                    start <= k <= e <= s@.len(),
                    line@ == s@.subrange(start as int, k as int),
                decreases e - k,
            {
                line.push(s[k]);
                k += 1;
                proof {
                    assert(line@ =~= s@.subrange(start as int, k as int));
                }
            }
            let ghost before = lines@.map_values(|t: String| t@);
            if e < s.len() {
                if line.len() > 0 && line[line.len() - 1] == '\r' {
                    line.pop();
                }
                lines.push(crate::text::string_from(&line));
                proof {
                    assert(lines@.map_values(|t: String| t@) =~= before.push(line@));
                    assert(before.push(line@) + lines_from(s@, e + 1) =~= before + (seq![line@]
                        + lines_from(s@, e + 1)));
                }
                start = e + 1;
            } else {
                lines.push(crate::text::string_from(&line));
                proof {
                    assert(lines@.map_values(|t: String| t@) =~= before.push(line@));
                    assert(lines_from(s@, e as int) =~= Seq::<Seq<char>>::empty());
                    assert(before.push(line@) + lines_from(s@, e as int) =~= before + seq![line@]);
                }
                start = e;
            }
        }
        proof {
            assert(lines_from(s@, start as int) =~= Seq::<Seq<char>>::empty());
            assert(lines@.map_values(|t: String| t@) + Seq::<Seq<char>>::empty() =~= lines@.map_values(
                |t: String| t@,
            ));
        }
        lines
    }

    /// The answer to `ReadLines` for a file that holds `content`: a new array of its lines
    /// (see `lines_from`).
    pub fn lines_value(&self, heap: &mut Gobbler, content: &str) -> (v: IshValue)
        requires
            old(heap).wf(),
            old(heap).next_id < usize::MAX,
            old(heap).allocations_since_minor < usize::MAX,
        ensures
            final(heap).wf(),
            v == IshValue::Reference(old(heap).next_id),
            final(heap).heap() == old(heap).heap().insert(old(heap).next_id, final(heap).heap()[old(heap).next_id]),
            strings_array(final(heap).heap()[old(heap).next_id], lines_from(content@, 0)),
    {
        let lines = self.text_lines(content);
        strings_value(heap, lines)
    }

    /// The answer to `ListDir` for a directory with entries at `paths`: a new array of them.
    pub fn listing_value(&self, heap: &mut Gobbler, paths: Vec<String>) -> (v: IshValue)
        requires
            old(heap).wf(),
            old(heap).next_id < usize::MAX,
            old(heap).allocations_since_minor < usize::MAX,
        ensures
            final(heap).wf(),
            v == IshValue::Reference(old(heap).next_id),
            final(heap).heap() == old(heap).heap().insert(old(heap).next_id, final(heap).heap()[old(heap).next_id]),
            strings_array(final(heap).heap()[old(heap).next_id], paths@.map_values(|t: String| t@)),
    {
        strings_value(heap, paths)
    }
}

/// What a method of the `OS` library asks of the host.
pub open spec fn os_plan(method: Seq<char>, args: Seq<IshValue>) -> Plan {
    if method == "GetEnv"@ {
        on_text(args, "OS.GetEnv requires 1 arg"@, |k: Seq<char>| Plan::GetEnv(k))
    } else if method == "SetEnv"@ {
        if args.len() < 2 {
            Plan::Fails("OS.SetEnv requires 2 args"@)
        } else if args[0] is Float || args[1] is Float {
            Plan::NeedsFloat
        } else {
            Plan::SetEnv(shown(args[0]), shown(args[1]))
        }
    } else if method == "Platform"@ {
        Plan::Platform
    } else if method == "Arch"@ {
        Plan::Arch
    } else if method == "Cwd"@ {
        Plan::CurrentDir
    } else {
        Plan::Fails(unknown_method(method, "OS"@))
    }
}

/// The `OS` library of the runtime: the environment and the platform.
pub struct IshOS;

impl IshOS {
    /// The name under which programs call the library.
    pub fn name(&self) -> (r: &'static str)
        ensures
            r@ == "OS"@,
    {
        "OS"
    }

    /// The library answers every method name (unknown ones with an error).
    pub fn handles_method(&self, method: &str) -> (r: bool)
        ensures
            r,
    {
        true
    }

    /// What calling `method` with `args` asks of the host (see `os_plan`).
    pub fn plan_method(&self, method: &str, args: &[IshValue]) -> (r: Request)
        ensures
            r@ == os_plan(method@, args@),
    {
        let m = chars_of(method);
        if chars_eq_str(&m, "GetEnv") {
            if args.len() == 0 {
                fails("OS.GetEnv requires 1 arg")
            } else if is_float_value(&args[0]) {
                Request::NeedsFloat
            } else {
                Request::GetEnv(show(&args[0]))
            }
        } else if chars_eq_str(&m, "SetEnv") {
            if args.len() < 2 {
                fails("OS.SetEnv requires 2 args")
            } else if is_float_value(&args[0]) || is_float_value(&args[1]) {
                Request::NeedsFloat
            } else {
                Request::SetEnv(show(&args[0]), show(&args[1]))
            }
        } else if chars_eq_str(&m, "Platform") {
            Request::Platform
        } else if chars_eq_str(&m, "Arch") {
            Request::Arch
        } else if chars_eq_str(&m, "Cwd") {
            Request::CurrentDir
        } else {
            unknown(method, "OS")
        }
    }

    /// The answer to `GetEnv` for what the environment holds under the name: the value as a
    /// string, or `null` where there is none.
    pub fn env_value(&self, found: Option<String>) -> (v: IshValue)
        ensures
            match found {
                Some(t) => v matches IshValue::String(x) && x@ == t@,
                None => v == IshValue::Null,
            },
    {
        match found {
            Some(t) => IshValue::String(t),
            None => IshValue::Null,
        }
    }
}

/// A `Math` method on `n` arguments: fails with `missing` where there are fewer.
pub open spec fn math_arity(args: Seq<IshValue>, n: nat, missing: Seq<char>, op: MathOp) -> Plan {
    if args.len() < n {
        Plan::Fails(missing)
    } else {
        Plan::Calculate(op)
    }
}

/// What a method of the `Math` library asks of the host.
pub open spec fn math_plan(method: Seq<char>, args: Seq<IshValue>) -> Plan {
    if method == "Abs"@ {
        math_arity(args, 1, "Math.Abs requires 1 arg"@, MathOp::Abs)
    } else if method == "Ceiling"@ {
        math_arity(args, 1, "Math.Ceiling requires 1 arg"@, MathOp::Ceiling)
    } else if method == "Floor"@ {
        math_arity(args, 1, "Math.Floor requires 1 arg"@, MathOp::Floor)
    } else if method == "Round"@ {
        math_arity(args, 1, "Math.Round requires 1 arg"@, MathOp::Round)
    } else if method == "Pow"@ {
        math_arity(args, 2, "Math.Pow requires 2 args"@, MathOp::Pow)
    } else if method == "Min"@ {
        math_arity(args, 2, "Math.Min requires 2 args"@, MathOp::Min)
    } else if method == "Max"@ {
        math_arity(args, 2, "Math.Max requires 2 args"@, MathOp::Max)
    } else if method == "Sqrt"@ {
        math_arity(args, 1, "Math.Sqrt requires 1 arg"@, MathOp::Sqrt)
    } else {
        Plan::Fails(unknown_method(method, "Math"@))
    }
}

fn arity(args: &[IshValue], n: usize, missing: &str, op: MathOp) -> (r: Request)
    ensures
        r@ == math_arity(args@, n as nat, missing@, op),
{
    if args.len() < n {
        fails(missing)
    } else {
        Request::Calculate(op)
    }
}

/// The `Math` library of the runtime. Its functions are float functions, which the host
/// computes; the library checks the method and the number of arguments.
pub struct IshMath;

impl IshMath {
    /// The name under which programs call the library.
    pub fn name(&self) -> (r: &'static str)
        ensures
            r@ == "Math"@,
    {
        "Math"
    }

    /// The library answers every method name (unknown ones with an error).
    pub fn handles_method(&self, method: &str) -> (r: bool)
        ensures
            r,
    {
        true
    }

    /// What calling `method` with `args` asks of the host (see `math_plan`).
    pub fn plan_method(&self, method: &str, args: &[IshValue]) -> (r: Request)
        ensures
            r@ == math_plan(method@, args@),
    {
        let m = chars_of(method);
        if chars_eq_str(&m, "Abs") {
            arity(args, 1, "Math.Abs requires 1 arg", MathOp::Abs)
        } else if chars_eq_str(&m, "Ceiling") {
            arity(args, 1, "Math.Ceiling requires 1 arg", MathOp::Ceiling)
        } else if chars_eq_str(&m, "Floor") {
            arity(args, 1, "Math.Floor requires 1 arg", MathOp::Floor)
        } else if chars_eq_str(&m, "Round") {
            arity(args, 1, "Math.Round requires 1 arg", MathOp::Round)
        } else if chars_eq_str(&m, "Pow") {
            arity(args, 2, "Math.Pow requires 2 args", MathOp::Pow)
        } else if chars_eq_str(&m, "Min") {
            arity(args, 2, "Math.Min requires 2 args", MathOp::Min)
        } else if chars_eq_str(&m, "Max") {
            arity(args, 2, "Math.Max requires 2 args", MathOp::Max)
        } else if chars_eq_str(&m, "Sqrt") {
            arity(args, 1, "Math.Sqrt requires 1 arg", MathOp::Sqrt)
        } else {
            unknown(method, "Math")
        }
    }
}

/// The arguments of `ExtProc.Start` after the program: the texts of the items of the array
/// that the second argument refers to, or the second argument where it is a string, or none;
/// nothing where an item is a float (whose text the host writes).
pub open spec fn run_arguments(heap: Map<usize, HeapObject>, args: Seq<IshValue>) -> Option<Seq<Seq<char>>> {
    if args.len() > 1 {
        match args[1] {
            IshValue::Reference(id) => if heap.contains_key(id) {
                match heap[id] {
                    HeapObject::Array(items) => if exists|j: int|
                        0 <= j < items@.len() && #[trigger] items@[j] is Float {
                        None
                    } else {
                        Some(items@.map_values(|v: IshValue| shown(v)))
                    },
                    _ => Some(Seq::empty()),
                }
            } else {
                Some(Seq::empty())
            },
            IshValue::String(t) => Some(seq![t@]),
            _ => Some(Seq::empty()),
        }
    } else {
        Some(Seq::empty())
    }
}

/// What a method of the `ExtProc` library asks of the host, with `heap` the objects.
pub open spec fn process_plan(heap: Map<usize, HeapObject>, method: Seq<char>, args: Seq<IshValue>) -> Plan {
    if method == "Start"@ {
        if args.len() == 0 {
            Plan::Fails("ExtProc.Start requires <program> [args[]]"@)
        } else if args[0] is Float {
            Plan::NeedsFloat
        } else {
            match run_arguments(heap, args) {
                Some(a) => Plan::Run(shown(args[0]), a),
                None => Plan::NeedsFloat,
            }
        }
    } else {
        Plan::Fails(unknown_method(method, "ExtProc"@))
    }
}

/// The result object of a finished program: class `ExtProcResult`, with its exit code (-1
/// where it has none), standard output and standard error.
pub open spec fn process_result(o: HeapObject, code: Option<i32>, out: Seq<char>, err: Seq<char>) -> bool {
    &&& o matches HeapObject::Object { class_name, properties }
    &&& class_name@ == "ExtProcResult"@
    &&& properties@.len() == 3
    &&& properties@[0].0@ == "ExitCode"@
    &&& properties@[0].1 == IshValue::Int(
        match code {
            Some(c) => c,
            None => -1i32,
        },
    )
    &&& properties@[1].0@ == "StandardOutput"@
    &&& properties@[1].1 matches IshValue::String(t) && t@ == out
    &&& properties@[2].0@ == "StandardError"@
    &&& properties@[2].1 matches IshValue::String(t) && t@ == err
}

/// The `ExtProc` library of the runtime: running other programs.
pub struct IshExtProc;

impl IshExtProc {
    /// The name under which programs call the library.
    pub fn name(&self) -> (r: &'static str)
        ensures
            r@ == "ExtProc"@,
    {
        "ExtProc"
    }

    /// The library answers every method name (unknown ones with an error).
    pub fn handles_method(&self, method: &str) -> (r: bool)
        ensures
            r,
    {
        true
    }

    /// What calling `method` with `args` asks of the host (see `process_plan`).
    pub fn plan_method(&self, method: &str, args: &[IshValue], heap: &Gobbler) -> (r: Request)
        ensures
            r@ == process_plan(heap.heap(), method@, args@),
    {
        let m = chars_of(method);
        if !chars_eq_str(&m, "Start") {
            return unknown(method, "ExtProc");
        }
        if args.len() == 0 {
            return fails("ExtProc.Start requires <program> [args[]]");
        }
        if is_float_value(&args[0]) {
            return Request::NeedsFloat;
        }
        let mut arguments: Vec<String> = Vec::new();
        if args.len() > 1 {
            match &args[1] {
                IshValue::Reference(id) => {
                    match heap.get(*id) {
                        Some(HeapObject::Array(items)) => {
                            let mut i: usize = 0;
                            while i < items.len()
                                invariant
                                    i <= items@.len(),
                                    method@ == "Start"@,
                                    args@.len() > 1,
                                    !(args@[0] is Float),
                                    args@[1] == IshValue::Reference(*id),
                                    heap.heap().contains_key(*id),
                                    heap.heap()[*id] == HeapObject::Array(*items),
                                    arguments@.len() == i,
                                    forall|j: int| 0 <= j < i ==> !(#[trigger] items@[j] is Float),
                                    forall|j: int|
                                        0 <= j < i ==> #[trigger] arguments@[j]@ == shown(items@[j]),
                                decreases items.len() - i,
                            {
                                if is_float_value(&items[i]) {
                                    proof {
                                        assert(items@[i as int] is Float);
                                    }
                                    return Request::NeedsFloat;
                                }
                                arguments.push(show(&items[i]));
                                i += 1;
                            }
                            proof {
                                assert(arguments@.map_values(|a: String| a@) =~= items@.map_values(
                                    |v: IshValue| shown(v),
                                ));
                            }
                        },
                        _ => {},
                    }
                },
                IshValue::String(t) => {
                    arguments.push(t.clone());
                    proof {
                        assert(arguments@.map_values(|a: String| a@) =~= seq![t@]);
                    }
                },
                _ => {},
            }
        }
        proof {
            if arguments@.len() == 0 {
                assert(arguments@.map_values(|a: String| a@) =~= Seq::<Seq<char>>::empty());
            }
        }
        Request::Run { program: show(&args[0]), arguments }
    }

    /// The answer to `Run` for a program that finished with exit code `code` (none where a
    /// signal ended it) and printed `out` and `err`: a new result object (see
    /// `process_result`).
    pub fn result_value(&self, heap: &mut Gobbler, code: Option<i32>, out: String, err: String) -> (v: IshValue)
        requires
            old(heap).wf(),
            old(heap).next_id < usize::MAX,
            old(heap).allocations_since_minor < usize::MAX,
        ensures
            final(heap).wf(),
            v == IshValue::Reference(old(heap).next_id),
            final(heap).heap() == old(heap).heap().insert(old(heap).next_id, final(heap).heap()[old(heap).next_id]),
            process_result(final(heap).heap()[old(heap).next_id], code, out@, err@),
    {
        let exit = match code {
            Some(c) => c,
            None => -1,
        };
        let mut properties: Vec<(String, IshValue)> = Vec::new();
        properties.push((lit("ExitCode"), IshValue::Int(exit)));
        properties.push((lit("StandardOutput"), IshValue::String(out)));
        properties.push((lit("StandardError"), IshValue::String(err)));
        proof {
            reveal_strlit("ExitCode");
            reveal_strlit("StandardOutput");
            reveal_strlit("StandardError");
            assert(properties@[0].0@.len() == 8 && properties@[1].0@.len() == 14
                && properties@[2].0@.len() == 13);
        }
        let o = HeapObject::Object { class_name: lit("ExtProcResult"), properties };
        let id = heap.allocate(o);
        proof {
            assert(heap.heap() =~= old(heap).heap().insert(id, o));
        }
        IshValue::Reference(id)
    }
}

} // verus!
