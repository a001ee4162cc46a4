use ish::ui::shell::{shell_command, ColorTarget, ShellCommand};

fn say(c: &ShellCommand) -> Option<(String, bool)> {
    match c {
        ShellCommand::Say(m, s) => Some((m.clone(), *s)),
        _ => None,
    }
}

#[test]
fn basic_commands() {
    assert!(matches!(shell_command("   "), ShellCommand::Blank));
    assert!(matches!(shell_command(" exit "), ShellCommand::Quit));
    assert!(matches!(shell_command("quit"), ShellCommand::Quit));
    assert!(matches!(shell_command("cls"), ShellCommand::Clear));
    assert!(matches!(shell_command("cd  /tmp "), ShellCommand::ChangeDir(p) if p == "/tmp"));
    assert!(matches!(shell_command("jobs"), ShellCommand::Jobs));
    assert!(matches!(shell_command("kill 12"), ShellCommand::Kill(12)));
    assert!(matches!(shell_command("fg +3"), ShellCommand::Foreground(3)));
    assert_eq!(say(&shell_command("kill x")), Some(("Usage: kill <job_id>".to_string(), false)));
    assert_eq!(say(&shell_command("fg 99999999999")), Some(("Usage: fg <job_id>".to_string(), false)));
    assert!(matches!(shell_command(" kill 1"), ShellCommand::Run(c) if c == " kill 1"));
    assert!(matches!(shell_command("ls -la"), ShellCommand::Run(c) if c == "ls -la"));
}

#[test]
fn settings_commands() {
    assert!(matches!(shell_command(":Color --Output LightRed"),
        ShellCommand::SetColor(ColorTarget::Output, t, c) if t == "--Output" && c == "LightRed"));
    assert!(matches!(shell_command(":Color --banner #ff0000"),
        ShellCommand::SetColor(ColorTarget::Banner, _, _)));
    assert_eq!(say(&shell_command(":Color --output notacolor")),
        Some(("Invalid color: notacolor".to_string(), false)));
    assert_eq!(say(&shell_command(":Color --side red")),
        Some(("Unknown color target: --side. Use --inputbox, --output, or --banner.".to_string(), false)));
    assert_eq!(say(&shell_command(":Color red")),
        Some(("Usage: :Color <Target> <Color>".to_string(), false)));
    assert!(matches!(shell_command(":Toggle --AutoCd true"), ShellCommand::SetAutocd(true)));
    assert!(matches!(shell_command(":Toggle --suggestions no"), ShellCommand::SetSuggestions(false)));
    assert_eq!(say(&shell_command(":Toggle --x true")),
        Some(("Unknown flag: --x. Use --autocd or --suggestions.".to_string(), true)));
    assert_eq!(say(&shell_command(":Toggle --x")),
        Some(("Usage: :Toggle <Flag> <true/false>".to_string(), false)));
    assert!(matches!(shell_command(":Editor  vim "), ShellCommand::SetEditor(e) if e == "vim"));
}
