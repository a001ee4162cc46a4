use vstd::prelude::*;
use crate::text::{chars_of, string_from};
use crate::ui::key::Key;

verus! {

broadcast use vstd::std_specs::vec::group_vec_axioms;

/// The line being typed, with the cursor as a character position.
pub struct InputBox {
    pub input: String,
    pub cursor_pos: usize,
}

/// What a key does to the line and the cursor, and the line it hands in (on Enter).
pub open spec fn input_step(input: Seq<char>, cursor: int, key: Key) -> (Seq<char>, int, Option<Seq<char>>) {
    match key {
        Key::Char(c) => {
            let at = if cursor <= input.len() { cursor } else { input.len() as int };
            (input.insert(at, c), cursor + 1, None)
        },
        Key::Backspace => if cursor > 0 {
            (input.remove(cursor - 1), cursor - 1, None)
        } else {
            (input, cursor, None)
        },
        Key::Left => (input, if cursor > 0 { cursor - 1 } else { cursor }, None),
        Key::Right => (input, if cursor < input.len() { cursor + 1 } else { cursor }, None),
        Key::Enter => (Seq::empty(), 0, Some(input)),
        _ => (input, cursor, None),
    }
}

/// Typing a character and then Backspace leaves the line and the cursor as they were.
pub proof fn lemma_type_then_backspace(input: Seq<char>, cursor: int, c: char)
    requires
        0 <= cursor <= input.len(),
    ensures
        ({
            let (line1, cursor1, _) = input_step(input, cursor, Key::Char(c));
            let (line2, cursor2, out) = input_step(line1, cursor1, Key::Backspace);
            line2 == input && cursor2 == cursor && out is None
        }),
{
    assert(input.insert(cursor, c).remove(cursor) =~= input);
}

/// Enter hands in exactly the line typed, and leaves an empty line with the cursor at the start.
pub proof fn lemma_enter_hands_in_line(input: Seq<char>, cursor: int)
    ensures
        input_step(input, cursor, Key::Enter) == (Seq::<char>::empty(), 0int, Some(input)),
{
}

impl InputBox {
    /// An empty line.
    pub fn new() -> (b: Self)
        ensures
            b.input@.len() == 0,
            b.cursor_pos == 0,
    {
        InputBox { input: String::new(), cursor_pos: 0 }
    }

    /// Empties the line.
    pub fn clear(&mut self)
        ensures
            final(self).input@.len() == 0,
            final(self).cursor_pos == 0,
    {
        self.input = String::new();
        self.cursor_pos = 0;
    }

    /// Replaces the line; the cursor goes to its end.
    pub fn set_input(&mut self, text: String)
        ensures
            final(self).input@ == text@,
            final(self).cursor_pos == text@.len(),
    {
        let n = chars_of(text.as_str()).len();
        self.input = text;
        self.cursor_pos = n;
    }

    /// Handles a key (see `input_step`): a character is inserted at the cursor (at the end when
    /// the cursor is past it), Backspace deletes before the cursor, Left and Right move it
    /// within the line, Enter hands in the line and empties it.
    pub fn handle_key(&mut self, key: Key) -> (r: Option<String>)
        requires
            key is Char ==> old(self).cursor_pos < usize::MAX,
            key is Backspace && old(self).cursor_pos > 0 ==> old(self).cursor_pos <= old(
                self,
            ).input@.len(),
        ensures
            ({
                let (line, cursor, out) = input_step(
                    old(self).input@,
                    old(self).cursor_pos as int,
                    key,
                );
                &&& final(self).input@ == line
                &&& final(self).cursor_pos == cursor
                &&& match out {
                    Some(s) => r matches Some(t) && t@ == s,
                    None => r is None,
                }
            }),
    {
        match key {
            Key::Char(c) => {
                let cs = chars_of(self.input.as_str());
                let at = if self.cursor_pos <= cs.len() {
                    self.cursor_pos
                } else {
                    cs.len()
                };
                let mut out: Vec<char> = Vec::new();
                let mut i: usize = 0;
                while i < at
                    invariant
                        at <= cs@.len(),
                        i <= at,
                        out@ == cs@.take(i as int),
                    decreases at - i,
                {
                    out.push(cs[i]);
                    i += 1;
                    proof {
                        assert(out@ =~= cs@.take(i as int));
                    }
                }
                out.push(c);
                let mut j = at;
                while j < cs.len()
                    invariant
                        at <= j <= cs@.len(),
                        out@ == cs@.take(at as int).push(c) + cs@.subrange(at as int, j as int),
                    decreases cs.len() - j,
                {
                    out.push(cs[j]);
                    j += 1;
                    proof {
                        assert(out@ =~= cs@.take(at as int).push(c) + cs@.subrange(
                            at as int,
                            j as int,
                        ));
                    }
                }
                proof {
                    assert(out@ =~= cs@.insert(at as int, c));
                }
                self.input = string_from(&out);
                self.cursor_pos = self.cursor_pos + 1;
                None
            },
            Key::Backspace => {
                if self.cursor_pos > 0 {
                    let cs = chars_of(self.input.as_str());
                    let k = self.cursor_pos - 1;
                    let mut out: Vec<char> = Vec::new();
                    let mut i: usize = 0;
                    while i < cs.len()
                        invariant
                            k < cs@.len(),
                            i <= cs@.len(),
                            i <= k ==> out@ == cs@.take(i as int),
                            i > k ==> out@ == cs@.take(k as int) + cs@.subrange(k + 1, i as int),
                        decreases cs.len() - i,
                    {
                        if i != k {
                            out.push(cs[i]);
                        }
                        i += 1;
                        proof {
                            if i <= k {
                                assert(out@ =~= cs@.take(i as int));
                            } else {
                                assert(out@ =~= cs@.take(k as int) + cs@.subrange(k + 1, i as int));
                            }
                        }
                    }
                    proof {
                        assert(out@ =~= cs@.remove(k as int));
                    }
                    self.input = string_from(&out);
                    self.cursor_pos = k;
                }
                None
            },
            Key::Left => {
                if self.cursor_pos > 0 {
                    self.cursor_pos -= 1;
                }
                None
            },
            Key::Right => {
                if self.cursor_pos < chars_of(self.input.as_str()).len() {
                    self.cursor_pos += 1;
                }
                None
            },
            Key::Enter => {
                let val = self.input.clone();
                self.input = String::new();
                self.cursor_pos = 0;
                Some(val)
            },
            _ => None,
        }
    }
}

} // verus!
