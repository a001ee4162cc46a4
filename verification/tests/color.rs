use ish::io::color::{Color, ColorManager};
use ish::io::error::IshIOError;

#[test]
fn hex_colors() {
    assert_eq!(Color::from_hex("#FF8000"), Ok(Color::RGB(255, 128, 0)));
    assert_eq!(Color::from_hex("00ff7f"), Ok(Color::RGB(0, 255, 127)));
    assert_eq!(Color::from_hex("##0a0B0c"), Ok(Color::RGB(10, 11, 12)));
    assert_eq!(Color::from_hex("+F+F+F"), Ok(Color::RGB(15, 15, 15)));
}

#[test]
fn hex_color_errors() {
    assert_eq!(Color::from_hex("#FFF"), Err(IshIOError::InvalidHexColor("FFF".to_string())));
    assert_eq!(Color::from_hex("#GG0000"), Err(IshIOError::InvalidHexColor("GG0000".to_string())));
    assert_eq!(Color::from_hex("#é1234"), Err(IshIOError::InvalidHexColor("é1234".to_string())));
    assert_eq!(Color::from_hex(""), Err(IshIOError::InvalidHexColor(String::new())));
}

#[test]
fn escape_sequences() {
    let mut m = ColorManager::new();
    assert_eq!(m.set_foreground(Color::Red), "\x1b[31m");
    assert_eq!(m.set_background(Color::Blue), "\x1b[44m");
    assert_eq!(m.set_foreground(Color::RGB(255, 128, 0)), "\x1b[38;2;255;128;0m");
    assert_eq!(m.set_background(Color::RGB(1, 2, 3)), "\x1b[48;2;1;2;3m");
    assert_eq!(m.reset(), "\x1b[0m");
    let mut d = ColorManager::default();
    assert_eq!(d.set_foreground(Color::White), "\x1b[37m");
}

#[test]
fn error_messages() {
    assert_eq!(IshIOError::InvalidHexColor("x".to_string()).message(), "Invalid hex color: x");
    assert_eq!(IshIOError::StreamError("s".to_string()).message(), "Stream error: s");
}
