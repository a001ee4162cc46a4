use vstd::prelude::*;
use crate::io::error::IshIOError;
use crate::text::{chars_of, concat, decimal, lit, string_from, usize_text};

verus! {

broadcast use vstd::std_specs::vec::group_vec_axioms;

/// A terminal colour: one of the eight basic ones, or a 24-bit one.
#[derive(Debug, Clone, Copy, PartialEq, Eq, Structural)]
pub enum Color {
    Black,
    Red,
    Green,
    Yellow,
    Blue,
    Magenta,
    Cyan,
    White,
    RGB(u8, u8, u8),
}

/// The number of bytes of a character in UTF-8.
pub open spec fn utf8_len(c: char) -> nat {
    if (c as u32) < 0x80 {
        1
    } else if (c as u32) < 0x800 {
        2
    } else if (c as u32) < 0x10000 {
        3
    } else {
        4
    }
}

/// The number of bytes of a text in UTF-8.
pub open spec fn byte_len(s: Seq<char>) -> nat
    decreases s.len(),
{
    if s.len() == 0 {
        0
    } else {
        byte_len(s.drop_last()) + utf8_len(s.last())
    }
}

/// Whether byte offset `b` falls between two characters of `s`.
pub open spec fn is_boundary(s: Seq<char>, b: nat) -> bool {
    exists|i: int| 0 <= i <= s.len() && byte_len(#[trigger] s.take(i)) == b
}

/// The index of the first character from `i` on that is not `#`.
pub open spec fn skip_hashes(s: Seq<char>, i: int) -> int
    decreases s.len() - i,
{
    if 0 <= i < s.len() && s[i] == '#' {
        skip_hashes(s, i + 1)
    } else {
        i
    }
}

/// The text without its leading `#` characters.
pub open spec fn hex_body(s: Seq<char>) -> Seq<char> {
    s.subrange(skip_hashes(s, 0), s.len() as int)
}

/// The value of a hexadecimal digit.
pub open spec fn hex_digit(c: char) -> Option<u8> {
    if '0' <= c <= '9' {
        Some(((c as u32) - ('0' as u32)) as u8)
    } else if 'a' <= c <= 'f' {
        Some(((c as u32) - ('a' as u32) + 10) as u8)
    } else if 'A' <= c <= 'F' {
        Some(((c as u32) - ('A' as u32) + 10) as u8)
    } else {
        None
    }
}

/// `u8::from_str_radix(_, 16)` on two characters: two hexadecimal digits, or `+` and one.
pub open spec fn pair_value(a: char, b: char) -> Option<u8> {
    if a == '+' {
        hex_digit(b)
    } else {
        match (hex_digit(a), hex_digit(b)) {
            (Some(x), Some(y)) => Some((x * 16 + y) as u8),
            _ => None,
        }
    }
}

/// Six bytes whose second or third pair would split a character: the text cannot be cut into
/// byte pairs.
pub open spec fn hex_splits_char(s: Seq<char>) -> bool {
    let t = hex_body(s);
    &&& byte_len(t) == 6
    &&& (!is_boundary(t, 2) || (t.len() >= 2 && pair_value(t[0], t[1]) is Some && !is_boundary(
        t,
        4,
    )))
}

/// The colour a hex text names: after its leading `#`s, six bytes that are three pairs of
/// hexadecimal digits (see `pair_value`); otherwise the text after the `#`s, as the error.
pub open spec fn hex_color(s: Seq<char>) -> Result<(u8, u8, u8), Seq<char>> {
    let t = hex_body(s);
    if byte_len(t) == 6 && t.len() == 6 && pair_value(t[0], t[1]) is Some && pair_value(t[2], t[3])
        is Some && pair_value(t[4], t[5]) is Some {
        Ok((pair_value(t[0], t[1])->0, pair_value(t[2], t[3])->0, pair_value(t[4], t[5])->0))
    } else {
        Err(t)
    }
}

/// The escape sequence that selects a colour for text, or for the background.
pub open spec fn ansi_code(c: Color, background: bool) -> Seq<char> {
    match c {
        Color::Black => if background { "\x1b[40m"@ } else { "\x1b[30m"@ },
        Color::Red => if background { "\x1b[41m"@ } else { "\x1b[31m"@ },
        Color::Green => if background { "\x1b[42m"@ } else { "\x1b[32m"@ },
        Color::Yellow => if background { "\x1b[43m"@ } else { "\x1b[33m"@ },
        Color::Blue => if background { "\x1b[44m"@ } else { "\x1b[34m"@ },
        Color::Magenta => if background { "\x1b[45m"@ } else { "\x1b[35m"@ },
        Color::Cyan => if background { "\x1b[46m"@ } else { "\x1b[36m"@ },
        Color::White => if background { "\x1b[47m"@ } else { "\x1b[37m"@ },
        Color::RGB(r, g, b) => "\x1b["@ + decimal(if background { 48nat } else { 38nat })
            + ";2;"@ + decimal(r as nat) + ";"@ + decimal(g as nat) + ";"@ + decimal(b as nat)
            + "m"@,
    }
}

fn hex_digit_exec(c: char) -> (r: Option<u8>)
    ensures
        r == hex_digit(c),
{
    if '0' <= c && c <= '9' {
        Some((c as u32 - '0' as u32) as u8)
    } else if 'a' <= c && c <= 'f' {
        Some((c as u32 - 'a' as u32 + 10) as u8)
    } else if 'A' <= c && c <= 'F' {
        Some((c as u32 - 'A' as u32 + 10) as u8)
    } else {
        None
    }
}

fn pair_value_exec(a: char, b: char) -> (r: Option<u8>)
    ensures
        r == pair_value(a, b),
{
    if a == '+' {
        hex_digit_exec(b)
    } else {
        match (hex_digit_exec(a), hex_digit_exec(b)) {
            (Some(x), Some(y)) => Some(x * 16 + y),
            _ => None,
        }
    }
}

fn utf8_len_exec(c: char) -> (r: usize)
    ensures
        r == utf8_len(c),
{
    let v = c as u32;
    if v < 0x80 {
        1
    } else if v < 0x800 {
        2
    } else if v < 0x10000 {
        3
    } else {
        4
    }
}

/// The number of bytes of `t` in UTF-8, where it is at most 6; 7 where it is more.
pub(crate) fn byte_len_capped(t: &Vec<char>) -> (bytes: usize)
    ensures
        bytes <= 7,
        bytes <= 6 ==> bytes == byte_len(t@),
        bytes == 7 ==> byte_len(t@) > 6,
{
    let mut bytes: usize = 0;
    let mut i: usize = 0;
    proof {
        assert(t@.take(0) =~= Seq::<char>::empty());
    }
    while i < t.len()
        invariant
            i <= t@.len(),
            bytes <= 7,
            bytes <= 6 ==> bytes == byte_len(t@.take(i as int)),
            bytes == 7 ==> byte_len(t@.take(i as int)) > 6,
        decreases t.len() - i,
    {
        proof {
            assert(t@.take(i + 1).drop_last() =~= t@.take(i as int));
        }
        let n = utf8_len_exec(t[i]);
        bytes = if bytes + n > 6 {
            7
        } else {
            bytes + n
        };
        i += 1;
    }
    proof {
        assert(t@.take(t@.len() as int) =~= t@);
    }
    bytes
}

/// The characters of a hex colour text after its leading `#`s.
fn body_chars(hex: &str) -> (t: Vec<char>)
    ensures
        t@ == hex_body(hex@),
{
    let cs = chars_of(hex);
    let mut k: usize = 0;
    while k < cs.len() && cs[k] == '#'
        invariant
            cs@ == hex@,
            k <= cs@.len(),
            skip_hashes(hex@, 0) == skip_hashes(hex@, k as int),
        decreases cs.len() - k,
    {
        k += 1;
    }
    let mut t: Vec<char> = Vec::new();
    let mut j = k;
    while j < cs.len()
        invariant
            k <= j <= cs@.len(),
            t@ == cs@.subrange(k as int, j as int),
        decreases cs.len() - j,
    {
        t.push(cs[j]);
        j += 1;
        proof {
            assert(t@ =~= cs@.subrange(k as int, j as int));
        }
    }
    t
}

impl Color {
    /// Reads `#RRGGBB` (any number of leading `#`s): three pairs of hexadecimal digits. Gives
    /// `InvalidHexColor` with the text after the `#`s otherwise (see `hex_color`).
    pub fn from_hex(hex: &str) -> (r: Result<Color, IshIOError>)
        requires
            !hex_splits_char(hex@),
        ensures
            match hex_color(hex@) {
                Ok((red, green, blue)) => r == Ok::<Color, IshIOError>(Color::RGB(red, green, blue)),
                Err(t) => r matches Err(IshIOError::InvalidHexColor(m)) && m@ == t,
            },
    {
        let t = body_chars(hex);
        let bytes = byte_len_capped(&t);
        if bytes == 6 && t.len() == 6 {
            match (pair_value_exec(t[0], t[1]), pair_value_exec(t[2], t[3]), pair_value_exec(t[4], t[5])) {
                (Some(red), Some(green), Some(blue)) => {
                    return Ok(Color::RGB(red, green, blue));
                },
                _ => {},
            }
        }
        Err(IshIOError::InvalidHexColor(string_from(&t)))
    }

    /// Whether the six bytes of `hex` after its `#`s cannot be cut into pairs without cutting
    /// a character (see `hex_splits_char`), which `from_hex` does not accept.
    pub fn splits_char(hex: &str) -> (r: bool)
        ensures
            r == hex_splits_char(hex@),
    {
        let t = body_chars(hex);
        let mut bytes: usize = 0;
        let mut at_two = false;
        let mut at_four = false;
        let mut i: usize = 0;
        proof {
            assert(t@.take(0) =~= Seq::<char>::empty());
        }
        while i < t.len()
            invariant
                i <= t@.len(),
                bytes <= 7,
                bytes <= 6 ==> bytes == byte_len(t@.take(i as int)),
                bytes == 7 ==> byte_len(t@.take(i as int)) > 6,
                at_two == exists|j: int| 0 <= j <= i && byte_len(#[trigger] t@.take(j)) == 2,
                at_four == exists|j: int| 0 <= j <= i && byte_len(#[trigger] t@.take(j)) == 4,
            decreases t.len() - i,
        {
            proof {
                assert(t@.take(i + 1).drop_last() =~= t@.take(i as int));
            }
            let n = utf8_len_exec(t[i]);
            bytes = if bytes + n > 6 {
                7
            } else {
                bytes + n
            };
            if bytes == 2 {
                at_two = true;
            }
            if bytes == 4 {
                at_four = true;
            }
            i += 1;
            proof {
                let k = i as int;
                assert(at_two == exists|j: int| 0 <= j <= k && byte_len(#[trigger] t@.take(j)) == 2)
                    by {
                    if byte_len(t@.take(k)) == 2 {
                        assert(at_two);
                    }
                }
                assert(at_four == exists|j: int| 0 <= j <= k && byte_len(#[trigger] t@.take(j)) == 4)
                    by {
                    if byte_len(t@.take(k)) == 4 {
                        assert(at_four);
                    }
                }
            }
        }
        proof {
            assert(t@.take(t@.len() as int) =~= t@);
        }
        bytes == 6 && (!at_two || (t.len() >= 2 && pair_value_exec(t[0], t[1]).is_some()
            && !at_four))
    }

    /// The escape sequence that selects this colour (see `ansi_code`).
    fn to_ansi_code(&self, is_background: bool) -> (r: String)
        ensures
            r@ == ansi_code(*self, is_background),
    {
        match self {
            Color::Black => lit(if is_background { "\x1b[40m" } else { "\x1b[30m" }),
            Color::Red => lit(if is_background { "\x1b[41m" } else { "\x1b[31m" }),
            Color::Green => lit(if is_background { "\x1b[42m" } else { "\x1b[32m" }),
            Color::Yellow => lit(if is_background { "\x1b[43m" } else { "\x1b[33m" }),
            Color::Blue => lit(if is_background { "\x1b[44m" } else { "\x1b[34m" }),
            Color::Magenta => lit(if is_background { "\x1b[45m" } else { "\x1b[35m" }),
            Color::Cyan => lit(if is_background { "\x1b[46m" } else { "\x1b[36m" }),
            Color::White => lit(if is_background { "\x1b[47m" } else { "\x1b[37m" }),
            Color::RGB(r, g, b) => {
                let prefix: usize = if is_background {
                    48
                } else {
                    38
                };
                let mut s = concat(lit("\x1b["), usize_text(prefix).as_str());
                s = concat(s, ";2;");
                s = concat(s, usize_text(*r as usize).as_str());
                s = concat(s, ";");
                s = concat(s, usize_text(*g as usize).as_str());
                s = concat(s, ";");
                s = concat(s, usize_text(*b as usize).as_str());
                concat(s, "m")
            },
        }
    }
}

/// The colours chosen for text and background; each change gives the escape sequence to
/// write.
pub struct ColorManager {
    foreground: Option<Color>,
    background: Option<Color>,
}

impl ColorManager {
    pub closed spec fn foreground(&self) -> Option<Color> {
        self.foreground
    }

    pub closed spec fn background(&self) -> Option<Color> {
        self.background
    }

    /// No colour chosen.
    pub fn new() -> (m: Self)
        ensures
            m.foreground() is None,
            m.background() is None,
    {
        ColorManager { foreground: None, background: None }
    }

    /// Chooses the text colour; gives the escape sequence that selects it.
    pub fn set_foreground(&mut self, color: Color) -> (code: String)
        ensures
            final(self).foreground() == Some(color),
            final(self).background() == old(self).background(),
            code@ == ansi_code(color, false),
    {
        self.foreground = Some(color);
        color.to_ansi_code(false)
    }

    /// Chooses the background colour; gives the escape sequence that selects it.
    pub fn set_background(&mut self, color: Color) -> (code: String)
        ensures
            final(self).background() == Some(color),
            final(self).foreground() == old(self).foreground(),
            code@ == ansi_code(color, true),
    {
        self.background = Some(color);
        color.to_ansi_code(true)
    }

    /// Forgets both colours; gives the escape sequence that restores the terminal's own.
    pub fn reset(&mut self) -> (code: String)
        ensures
            final(self).foreground() is None,
            final(self).background() is None,
            code@ == "\x1b[0m"@,
    {
        self.foreground = None;
        self.background = None;
        lit("\x1b[0m")
    }
}

impl Default for ColorManager {
    fn default() -> (m: Self)
        ensures
            m.foreground() is None,
            m.background() is None,
    {
        Self::new()
    }
}

} // verus!
