use ish::lang::config::parse_usize_exec;
use ish::managers::config::ConfigManager;
use ish::managers::history::HistoryManager;
use ish::text::usize_text;
use ish::ui::input::InputBox;
use ish::ui::key::Key;
use ish::ui::suggestions::SuggestionsBox;

#[test]
fn history_file_round_trip() {
    let mut h = HistoryManager::new();
    h.add("echo one".to_string());
    h.add("  ls  ".to_string());
    h.add("git log --oneline".to_string());
    let back = HistoryManager::from_text(&h.to_text());
    assert_eq!(back.get_all(), h.get_all());
}

#[test]
fn settings_file_round_trip() {
    let mut m = ConfigManager::new();
    m.current_config.autocd = false;
    m.current_config.editor = "code --wait".to_string();
    m.current_config.banner_color = "a=b".to_string();
    let text = m.to_text();
    let mut other = ConfigManager::new();
    other.current_config.suggestions = false;
    other.current_config.input_color = "Red".to_string();
    other.load_text(&text);
    assert_eq!(other.current_config.autocd, m.current_config.autocd);
    assert_eq!(other.current_config.suggestions, m.current_config.suggestions);
    assert_eq!(other.current_config.editor, m.current_config.editor);
    assert_eq!(other.current_config.input_color, m.current_config.input_color);
    assert_eq!(other.current_config.output_color, m.current_config.output_color);
    assert_eq!(other.current_config.banner_color, m.current_config.banner_color);
}

#[test]
fn number_text_round_trip() {
    for n in [0usize, 7, 10, 99, 1024, 65535, usize::MAX] {
        let text: Vec<char> = usize_text(n).chars().collect();
        assert_eq!(parse_usize_exec(&text), Some(n));
    }
    assert_eq!(usize_text(1234), "1234");
}

#[test]
fn typing_then_backspace_restores() {
    let mut b = InputBox::new();
    b.set_input("hello".to_string());
    b.handle_key(Key::Left);
    b.handle_key(Key::Left);
    b.handle_key(Key::Char('X'));
    assert_eq!(b.input, "helXlo");
    b.handle_key(Key::Backspace);
    assert_eq!(b.input, "hello");
    assert_eq!(b.cursor_pos, 3);
}

#[test]
fn down_then_up_restores_selection() {
    let mut s = SuggestionsBox::new();
    s.suggestions = vec!["a".to_string(), "b".to_string()];
    for start in 0..2usize {
        s.selected = Some(start);
        s.handle_key(Key::Down);
        s.handle_key(Key::Up);
        assert_eq!(s.selected, Some(start));
        s.handle_key(Key::Up);
        s.handle_key(Key::Down);
        assert_eq!(s.selected, Some(start));
    }
}
