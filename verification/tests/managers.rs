use ish::managers::config::ConfigManager;
use ish::managers::history::HistoryManager;
use ish::managers::suggestions::{SuggestionManager, Suggestions};

fn ready(s: Suggestions) -> Vec<String> {
    match s {
        Suggestions::Ready(v) => v,
        Suggestions::Files(p) => panic!("expected completions, got a path {:?}", p),
    }
}

fn files(s: Suggestions) -> String {
    match s {
        Suggestions::Files(p) => p,
        Suggestions::Ready(v) => panic!("expected a path, got {:?}", v),
    }
}

#[test]
fn history_add_and_browse() {
    let mut h = HistoryManager::new();
    assert!(h.add("  ls -la  ".to_string()));
    assert!(!h.add("ls -la".to_string()));
    assert!(!h.add("   ".to_string()));
    assert!(h.add("pwd".to_string()));
    assert_eq!(h.get_all(), &["ls -la".to_string(), "pwd".to_string()]);
    assert_eq!(h.get_previous(), Some("pwd".to_string()));
    assert_eq!(h.get_previous(), Some("ls -la".to_string()));
    assert_eq!(h.get_previous(), None);
    assert_eq!(h.get_next(), Some("pwd".to_string()));
    assert_eq!(h.get_next(), Some(String::new()));
    assert_eq!(h.get_next(), Some(String::new()));
    assert_eq!(h.get_previous(), Some("pwd".to_string()));
    h.clear();
    assert!(h.get_all().is_empty());
    assert_eq!(h.get_previous(), None);
}

#[test]
fn history_text_round_trip() {
    let h = HistoryManager::from_text("echo a\n\n   \r\ncd /tmp\r\nlast");
    assert_eq!(h.get_all(), &["echo a".to_string(), "cd /tmp".to_string(), "last".to_string()]);
    assert_eq!(h.to_text(), "echo a\ncd /tmp\nlast\n");
    let mut h = h;
    assert_eq!(h.get_previous(), Some("last".to_string()));
}

#[test]
fn settings_defaults_and_file() {
    let mut m = ConfigManager::new();
    assert!(m.current_config.autocd);
    assert!(m.current_config.suggestions);
    assert_eq!(m.current_config.editor, "vim");
    assert_eq!(m.current_config.input_color, "LightBlue");
    assert_eq!(m.current_config.output_color, "White");
    assert_eq!(m.current_config.banner_color, "LightBlue");
    m.load_text("autocd = false\nsuggestions=yes\neditor = nano\nbanner_color=Red=Dark\nnoise\nunknown=1\n");
    assert!(!m.current_config.autocd);
    assert!(!m.current_config.suggestions);
    assert_eq!(m.current_config.editor, "nano");
    assert_eq!(m.current_config.banner_color, "Red=Dark");
    assert_eq!(
        m.to_text(),
        "autocd=false\nsuggestions=false\neditor=nano\ninput_color=LightBlue\noutput_color=White\nbanner_color=Red=Dark\n"
    );
}

#[test]
fn suggestions_for_builtins() {
    let s = SuggestionManager::new();
    assert_eq!(ready(s.get_suggestions(":c", &[])), vec![":Color".to_string()]);
    assert_eq!(ready(s.get_suggestions(":Co", &[])), vec![":Color".to_string()]);
    assert_eq!(ready(s.get_suggestions(":Toggle --autocd ", &[])), vec!["true".to_string(), "false".to_string()]);
    assert_eq!(ready(s.get_suggestions(":", &[])), vec![":Color".to_string(), ":Toggle".to_string(), ":Editor".to_string()]);
    assert_eq!(ready(s.get_suggestions(":color ", &[])), vec!["--inputbox".to_string(), "--output".to_string(), "--banner".to_string()]);
    assert_eq!(ready(s.get_suggestions(":Color --o", &[])), vec!["--output".to_string()]);
    assert_eq!(
        ready(s.get_suggestions(":Color --output light", &[])),
        vec!["LightRed", "LightGreen", "LightBlue", "LightCyan", "LightMagenta", "LightYellow"]
            .into_iter()
            .map(String::from)
            .collect::<Vec<String>>()
    );
    assert_eq!(ready(s.get_suggestions(":TOGGLE --a", &[])), vec!["--autocd".to_string()]);
    assert_eq!(ready(s.get_suggestions(":Toggle --autocd f", &[])), vec!["false".to_string()]);
    assert_eq!(ready(s.get_suggestions(":Editor n", &[])), vec!["nano".to_string(), "nvim".to_string()]);
}

#[test]
fn suggestions_fall_back_to_paths_and_history() {
    let mut s = SuggestionManager::new();
    assert!(ready(s.get_suggestions("   ", &[])).is_empty());
    assert_eq!(files(s.get_suggestions("cat src/ma", &[])), "src/ma");
    assert_eq!(files(s.get_suggestions("cat ", &[])), "");
    assert_eq!(files(s.get_suggestions(":Editor x", &[])), "x");
    s.set_executables(vec!["git".to_string(), "gcc".to_string(), "git".to_string(), "ls".to_string()]);
    let history = vec!["git status".to_string(), "gcc main.c".to_string(), "git status".to_string(), "ls".to_string()];
    assert_eq!(
        ready(s.get_suggestions("  g", &history)),
        vec!["git status", "gcc main.c", "gcc", "git"].into_iter().map(String::from).collect::<Vec<String>>()
    );
    assert_eq!(ready(s.get_suggestions(":x", &history)), Vec::<String>::new());
}
