use ish::error::IshError;
use ish::io::color::Color;
use ish::runtime::gobbler::{Gobbler, HeapObject};
use ish::runtime::stdlib::{
    IshCommandLine, IshExtProc, IshFS, IshMath, IshNet, IshOS, IshTime, MathOp, Request,
};
use ish::runtime::value::IshValue;

fn text(x: &str) -> IshValue {
    IshValue::String(x.to_string())
}

fn fails_with(r: &Request, m: &str) -> bool {
    matches!(r, Request::Fails(x) if x == m)
}

#[test]
fn net_answers_without_network() {
    let net = IshNet;
    assert_eq!(net.name(), "Net");
    assert_eq!(net.execute_method("Get", &[]), Ok(text("Net.Get not implemented natively yet")));
    assert_eq!(net.execute_method("Post", &[]), Ok(text("Net.Post not implemented natively yet")));
    assert_eq!(net.execute_method("Download", &[]), Ok(IshValue::Bool(false)));
    assert_eq!(
        net.execute_method("Fetch", &[]),
        Err(IshError::ExecutionError("Method Fetch not found in Net".to_string()))
    );
}

#[test]
fn time_plans() {
    let time = IshTime;
    assert!(matches!(time.plan_method("Now", &[]), Request::ReadClock));
    assert!(matches!(time.plan_method("Unix", &[]), Request::ReadClock));
    assert!(matches!(time.plan_method("Format", &[IshValue::Int(5)]),
        Request::Answer(IshValue::String(s)) if s == "Formatted: 5"));
    assert!(fails_with(&time.plan_method("Format", &[]), "Time.Format requires 1 arg"));
    assert!(matches!(time.plan_method("Format", &[IshValue::Float(0)]), Request::NeedsFloat));
    assert!(fails_with(&time.plan_method("Later", &[]), "Method Later not found in Time"));
    assert_eq!(time.clock_value(1_700_000_000), IshValue::Int(1_700_000_000));
    assert_eq!(time.clock_value(0x1_0000_0005), IshValue::Int(5));
}

#[test]
fn console_output_and_streams() {
    let cl = IshCommandLine;
    assert!(matches!(cl.plan_method("OutputLine", &[]), Request::WriteLine(s) if s.is_empty()));
    assert!(matches!(cl.plan_method("OutputLine", &[IshValue::Int(-3)]), Request::WriteLine(s) if s == "-3"));
    assert!(matches!(cl.plan_method("Output", &[]), Request::Answer(IshValue::Null)));
    assert!(matches!(cl.plan_method("Output", &[IshValue::Bool(true)]), Request::Write(s) if s == "true"));
    assert!(matches!(cl.plan_method("Input", &[]), Request::ReadLine));
    assert!(matches!(cl.plan_method("Read", &[]), Request::ReadKey));
    assert!(matches!(cl.plan_method("Out", &[]), Request::Answer(IshValue::String(s)) if s == "<StdoutStream>"));
    assert!(matches!(cl.plan_method("Error", &[]), Request::Answer(IshValue::String(s)) if s == "<StderrStream>"));
    assert!(matches!(cl.plan_method("In", &[]), Request::Answer(IshValue::String(s)) if s == "<StdinStream>"));
    assert!(matches!(cl.plan_method("ResetColor", &[]), Request::ResetColors));
    assert!(fails_with(&cl.plan_method("Beep", &[]), "Method Beep not found in CommandLine"));
}

#[test]
fn console_colors() {
    let cl = IshCommandLine;
    assert!(matches!(cl.plan_method("ForeColor", &[text("Red")]), Request::Foreground(Color::Red)));
    assert!(matches!(cl.plan_method("BackColor", &[text("cyan")]), Request::Background(Color::Cyan)));
    assert!(matches!(cl.plan_method("ForeColor", &[text("#FF8000")]),
        Request::Foreground(Color::RGB(255, 128, 0))));
    assert!(matches!(cl.plan_method("BackColor", &[text("00ff7f")]),
        Request::Background(Color::RGB(0, 255, 127))));
    assert!(fails_with(&cl.plan_method("ForeColor", &[text("#GG0000")]), "Invalid hex color: GG0000"));
    assert!(fails_with(&cl.plan_method("ForeColor", &[text("pink")]), "Unknown color: pink"));
    for (name, color) in [("black", Color::Black), ("red", Color::Red), ("green", Color::Green),
        ("yellow", Color::Yellow), ("blue", Color::Blue), ("magenta", Color::Magenta),
        ("cyan", Color::Cyan), ("white", Color::White), ("YELLOW", Color::Yellow)] {
        assert!(matches!(cl.plan_method("ForeColor", &[text(name)]), Request::Foreground(c) if c == color));
    }
    assert!(matches!(cl.checked_plan("ForeColor", &[text("yellow")]), Some(Request::Foreground(Color::Yellow))));
    assert!(cl.checked_plan("ForeColor", &[text("aé123")]).is_none());
    // Six bytes that are no colour name are read as hex.
    assert!(fails_with(&cl.plan_method("ForeColor", &[text("purple")]), "Invalid hex color: purple"));
    assert!(fails_with(&cl.plan_method("ForeColor", &[]), "ForeColor requires a color argument"));
    assert!(fails_with(&cl.plan_method("BackColor", &[]), "BackColor requires a color argument"));
    assert!(!cl.splits_char("ForeColor", &[text("#FF8000")]));
    assert!(cl.splits_char("ForeColor", &[text("aé123")]));
    assert!(Color::splits_char("aé123"));
    assert!(!Color::splits_char("é1234"));
}

#[test]
fn fs_plans() {
    let fs = IshFS;
    assert!(matches!(fs.plan_method("Exists", &[text("/tmp")]), Request::Exists(p) if p == "/tmp"));
    assert!(matches!(fs.plan_method("ReadAllLines", &[text("a")]), Request::ReadLines(p) if p == "a"));
    assert!(matches!(fs.plan_method("ReadAllText", &[text("a")]), Request::ReadText(p) if p == "a"));
    assert!(matches!(fs.plan_method("List", &[text("d")]), Request::ListDir(p) if p == "d"));
    assert!(matches!(fs.plan_method("WriteAllText", &[text("f"), IshValue::Int(7)]),
        Request::WriteText { path, data, append: false } if path == "f" && data == "7"));
    assert!(matches!(fs.plan_method("WriteAllText", &[text("f"), text("x"), IshValue::Bool(true)]),
        Request::WriteText { append: true, .. }));
    assert!(matches!(fs.plan_method("WriteAllText", &[text("f"), text("x"), IshValue::Int(1)]),
        Request::WriteText { append: false, .. }));
    assert!(fails_with(&fs.plan_method("WriteAllText", &[text("f")]),
        "FS.WriteAllText requires <path> <data> [append]"));
    assert!(fails_with(&fs.plan_method("Exists", &[]), "FS.Exists requires 1 arg"));
    assert!(fails_with(&fs.plan_method("ReadAllLines", &[]), "FS.ReadAllLines requires 1 arg"));
    assert!(fails_with(&fs.plan_method("ReadAllText", &[]), "FS.ReadAllText requires 1 arg"));
    assert!(fails_with(&fs.plan_method("List", &[]), "FS.List requires 1 arg"));
    assert!(fails_with(&fs.plan_method("Delete", &[]), "Method Delete not found in FS"));
}

#[test]
fn fs_lines_follow_str_lines() {
    let fs = IshFS;
    let sample = "foo\r\nbar\n\nbaz\r";
    let expected: Vec<String> = sample.lines().map(|l| l.to_string()).collect();
    assert_eq!(fs.text_lines(sample), expected);
    assert_eq!(fs.text_lines(sample), vec!["foo", "bar", "", "baz\r"]);
    assert_eq!(fs.text_lines("a\nb\n"), vec!["a", "b"]);
    assert!(fs.text_lines("").is_empty());
    assert_eq!(fs.text_lines("\n"), vec![""]);
}

#[test]
fn fs_lines_value_allocates_array() {
    let fs = IshFS;
    let mut heap = Gobbler::new();
    let v = fs.lines_value(&mut heap, "x\ny");
    assert_eq!(v, IshValue::Reference(1));
    assert_eq!(heap.get(1), Some(&HeapObject::Array(vec![text("x"), text("y")])));
    let w = fs.listing_value(&mut heap, vec!["d/a".to_string()]);
    assert_eq!(w, IshValue::Reference(2));
    assert_eq!(heap.get(2), Some(&HeapObject::Array(vec![text("d/a")])));
}

#[test]
fn os_plans() {
    let os = IshOS;
    assert!(matches!(os.plan_method("GetEnv", &[text("HOME")]), Request::GetEnv(k) if k == "HOME"));
    assert!(matches!(os.plan_method("SetEnv", &[text("K"), IshValue::Int(1)]),
        Request::SetEnv(k, v) if k == "K" && v == "1"));
    assert!(matches!(os.plan_method("Platform", &[]), Request::Platform));
    assert!(matches!(os.plan_method("Arch", &[]), Request::Arch));
    assert!(matches!(os.plan_method("Cwd", &[]), Request::CurrentDir));
    assert!(fails_with(&os.plan_method("GetEnv", &[]), "OS.GetEnv requires 1 arg"));
    assert!(fails_with(&os.plan_method("SetEnv", &[text("K")]), "OS.SetEnv requires 2 args"));
    assert!(fails_with(&os.plan_method("Reboot", &[]), "Method Reboot not found in OS"));
    assert_eq!(os.env_value(Some("v".to_string())), text("v"));
    assert_eq!(os.env_value(None), IshValue::Null);
}

#[test]
fn math_plans() {
    let math = IshMath;
    assert!(matches!(math.plan_method("Abs", &[IshValue::Int(-1)]), Request::Calculate(MathOp::Abs)));
    assert!(matches!(math.plan_method("Pow", &[IshValue::Int(2), IshValue::Int(3)]),
        Request::Calculate(MathOp::Pow)));
    assert!(fails_with(&math.plan_method("Pow", &[IshValue::Int(2)]), "Math.Pow requires 2 args"));
    assert!(fails_with(&math.plan_method("Sqrt", &[]), "Math.Sqrt requires 1 arg"));
    assert!(fails_with(&math.plan_method("Log", &[]), "Method Log not found in Math"));
}

#[test]
fn extproc_plans_and_result() {
    let ext = IshExtProc;
    let mut heap = Gobbler::new();
    let id = heap.allocate(HeapObject::Array(vec![text("-l"), IshValue::Int(2)]));
    assert!(matches!(ext.plan_method("Start", &[text("ls"), IshValue::Reference(id)], &heap),
        Request::Run { program, arguments } if program == "ls" && arguments == vec!["-l", "2"]));
    assert!(matches!(ext.plan_method("Start", &[text("ls"), text("-a")], &heap),
        Request::Run { arguments, .. } if arguments == vec!["-a"]));
    assert!(matches!(ext.plan_method("Start", &[text("ls"), IshValue::Reference(99)], &heap),
        Request::Run { arguments, .. } if arguments.is_empty()));
    let fid = heap.allocate(HeapObject::Array(vec![IshValue::Float(0)]));
    assert!(matches!(ext.plan_method("Start", &[text("ls"), IshValue::Reference(fid)], &heap),
        Request::NeedsFloat));
    assert!(fails_with(&ext.plan_method("Start", &[], &heap), "ExtProc.Start requires <program> [args[]]"));
    assert!(fails_with(&ext.plan_method("Stop", &[], &heap), "Method Stop not found in ExtProc"));
    let r = ext.result_value(&mut heap, None, "out".to_string(), "err".to_string());
    assert_eq!(r, IshValue::Reference(3));
    assert_eq!(
        heap.get(3),
        Some(&HeapObject::Object {
            class_name: "ExtProcResult".to_string(),
            properties: vec![
                ("ExitCode".to_string(), IshValue::Int(-1)),
                ("StandardOutput".to_string(), text("out")),
                ("StandardError".to_string(), text("err")),
            ],
        })
    );
}
