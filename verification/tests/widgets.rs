use ish::ui::events::{accept_suggestion, route_key, KeyRoute};
use ish::ui::banner::BannerBox;
use ish::ui::input::InputBox;
use ish::ui::key::Key;
use ish::ui::output::OutputBox;
use ish::ui::suggestions::SuggestionsBox;

#[test]
fn input_editing() {
    let mut b = InputBox::new();
    assert_eq!(b.handle_key(Key::Char('a')), None);
    assert_eq!(b.handle_key(Key::Char('c')), None);
    assert_eq!(b.handle_key(Key::Left), None);
    assert_eq!(b.handle_key(Key::Char('b')), None);
    assert_eq!(b.input, "abc");
    assert_eq!(b.cursor_pos, 2);
    assert_eq!(b.handle_key(Key::Backspace), None);
    assert_eq!(b.input, "ac");
    assert_eq!(b.cursor_pos, 1);
    b.handle_key(Key::Right);
    b.handle_key(Key::Right);
    assert_eq!(b.cursor_pos, 2);
    b.handle_key(Key::Up);
    assert_eq!(b.input, "ac");
    assert_eq!(b.handle_key(Key::Enter), Some("ac".to_string()));
    assert_eq!(b.input, "");
    assert_eq!(b.cursor_pos, 0);
    b.handle_key(Key::Backspace);
    b.handle_key(Key::Left);
    assert_eq!(b.cursor_pos, 0);
}

#[test]
fn input_unicode_and_set() {
    let mut b = InputBox::new();
    b.set_input("héllo".to_string());
    assert_eq!(b.cursor_pos, 5);
    b.handle_key(Key::Left);
    b.handle_key(Key::Left);
    b.handle_key(Key::Left);
    b.handle_key(Key::Backspace);
    assert_eq!(b.input, "hllo");
    b.handle_key(Key::Char('ë'));
    assert_eq!(b.input, "hëllo");
    b.clear();
    assert_eq!(b.input, "");
    assert_eq!(b.cursor_pos, 0);
    b.cursor_pos = 9;
    b.handle_key(Key::Char('z'));
    assert_eq!(b.input, "z");
    assert_eq!(b.cursor_pos, 10);
}

#[test]
fn output_lines() {
    let mut o = OutputBox::new();
    assert_eq!(o.history, vec!["Welcome to Ish (Intelli-Shell)".to_string(), "Type a command...".to_string()]);
    o.append("done".to_string());
    assert_eq!(o.history.len(), 3);
    assert_eq!(o.history[2], "done");
}

#[test]
fn banner_title() {
    assert_eq!(BannerBox::new().title(), "Ish - Intelli-Shell");
}

#[test]
fn suggestion_selection_wraps() {
    let mut s = SuggestionsBox::new();
    assert!(!s.is_active());
    s.suggestions = vec!["a".to_string(), "b".to_string(), "c".to_string()];
    s.is_active = true;
    assert!(s.is_active());
    s.handle_key(Key::Down);
    assert_eq!(s.selected, Some(0));
    s.handle_key(Key::Down);
    s.handle_key(Key::Down);
    assert_eq!(s.selected, Some(2));
    s.handle_key(Key::Down);
    assert_eq!(s.selected, Some(0));
    s.handle_key(Key::Up);
    assert_eq!(s.selected, Some(2));
    s.handle_key(Key::Esc);
    assert!(!s.is_active());
    assert_eq!(s.selected, Some(2));
    s.selected = None;
    s.handle_key(Key::Up);
    assert_eq!(s.selected, Some(0));
}

#[test]
fn output_chunk_completes_lines() {
    let (lines, rest) = ish::ui::output::take_chunk(Some("ab".to_string()), "c\nde\nf");
    assert_eq!(lines, vec!["abc".to_string(), "de".to_string()]);
    assert_eq!(rest, "f");
}

#[test]
fn output_chunk_without_newline_extends_partial() {
    let (lines, rest) = ish::ui::output::take_chunk(Some("ab".to_string()), "cd");
    assert!(lines.is_empty());
    assert_eq!(rest, "abcd");
    let (lines, rest) = ish::ui::output::take_chunk(None, "x\n");
    assert_eq!(lines, vec!["x".to_string()]);
    assert_eq!(rest, "");
}

#[test]
fn keys_are_routed() {
    assert_eq!(route_key(Key::Esc, false, true), KeyRoute::Quit);
    assert_eq!(route_key(Key::Down, false, true), KeyRoute::Suggestions);
    assert_eq!(route_key(Key::Tab, false, true), KeyRoute::Suggestions);
    assert_eq!(route_key(Key::Down, false, false), KeyRoute::HistoryNext);
    assert_eq!(route_key(Key::Up, false, false), KeyRoute::HistoryPrevious);
    assert_eq!(route_key(Key::Up, true, false), KeyRoute::ScrollUp);
    assert_eq!(route_key(Key::PageDown, false, true), KeyRoute::ScrollDown);
    assert_eq!(route_key(Key::Char('a'), false, true), KeyRoute::Input);
    assert_eq!(route_key(Key::Right, false, false), KeyRoute::Input);
}

#[test]
fn accepting_a_suggestion_replaces_the_last_word() {
    assert_eq!(accept_suggestion(":Color --inp", "--inputbox"), ":Color --inputbox");
    assert_eq!(accept_suggestion(":Color  ", "--output"), ":Color --output");
    assert_eq!(accept_suggestion("", ":Toggle"), ":Toggle");
    assert_eq!(accept_suggestion("gi", "git"), "git");
}
