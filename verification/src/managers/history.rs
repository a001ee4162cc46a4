use vstd::prelude::*;
use crate::lang::config::{
    find_char, lemma_find_char_at, lemma_find_char_prefix, lemma_find_char_result, line_end,
};
use crate::text::{chars_of, concat, string_from, sub_chars, trim, trim_chars};

verus! {

broadcast use vstd::std_specs::vec::group_vec_axioms;

/// A line of `s` starting at `i` and ending at `j` (a line break or the end): without the
/// line break and one carriage return before it (`str::lines`).
pub open spec fn line_at(s: Seq<char>, i: int, j: int) -> Seq<char> {
    let seg = s.subrange(i, j);
    if j < s.len() && seg.len() > 0 && seg.last() == '\r' {
        seg.drop_last()
    } else {
        seg
    }
}

/// The lines of `s` from position `i` on that hold more than whitespace, in order.
pub open spec fn kept_lines(s: Seq<char>, i: int) -> Seq<Seq<char>>
    decreases s.len() + 1 - i,
{
    if i < 0 || i >= s.len() {
        Seq::empty()
    } else {
        let j = line_end(s, i);
        if j < i || j > s.len() {
            Seq::empty()
        } else {
            let line = line_at(s, i, j);
            let rest = kept_lines(s, j + 1);
            if trim(line).len() > 0 {
                seq![line] + rest
            } else {
                rest
            }
        }
    }
}

/// The text a history file holds: each entry followed by a line break.
pub open spec fn history_text(entries: Seq<Seq<char>>) -> Seq<char>
    decreases entries.len(),
{
    if entries.len() == 0 {
        Seq::empty()
    } else {
        history_text(entries.drop_last()) + entries.last() + seq!['\n']
    }
}

/// The commands entered, oldest first, with a cursor for stepping through them.
pub struct HistoryManager {
    history: Vec<String>,
    current_index: usize,
}

impl HistoryManager {
    /// The commands, oldest first.
    pub closed spec fn entries(&self) -> Seq<Seq<char>> {
        self.history@.map_values(|s: String| s@)
    }

    /// The cursor: the index of the command shown, or the number of commands when none is.
    pub closed spec fn index(&self) -> int {
        self.current_index as int
    }

    /// The cursor never passes the end.
    pub open spec fn wf(&self) -> bool {
        0 <= self.index() <= self.entries().len()
    }

    /// An empty history.
    pub fn new() -> (h: Self)
        ensures
            h.wf(),
            h.entries().len() == 0,
            h.index() == 0,
    {
        HistoryManager { history: Vec::new(), current_index: 0 }
    }

    /// A history read from the text of a history file: its lines that hold more than
    /// whitespace, with the cursor after the last.
    pub fn from_text(content: &str) -> (h: Self)
        ensures
            h.wf(),
            h.entries() == kept_lines(content@, 0),
            h.index() == h.entries().len(),
    {
        let cs = chars_of(content);
        let mut history: Vec<String> = Vec::new();
        let mut i: usize = 0;
        while i < cs.len()
            invariant
                cs@ == content@,
                i <= cs@.len(),
                history@.map_values(|s: String| s@) + kept_lines(cs@, i as int) == kept_lines(
                    cs@,
                    0,
                ),
            decreases cs.len() - i,
        {
            let j = match crate::lang::config::find_char_exec(&cs, '\n', i) {
                Some(j) => j,
                None => cs.len(),
            };
            proof {
                assert(line_end(cs@, i as int) == j);
            }
            let mut line = sub_chars(&cs, i, j);
            if j < cs.len() && line.len() > 0 && line[line.len() - 1] == '\r' {
                line.pop();
            }
            proof {
                assert(line@ =~= line_at(cs@, i as int, j as int));
            }
            let kept = trim_chars(&line);
            let ghost before = history@.map_values(|s: String| s@);
            if kept.len() > 0 {
                history.push(string_from(&line));
                proof {
                    assert(history@.map_values(|s: String| s@) =~= before.push(line@));
                    assert(before + kept_lines(cs@, i as int) =~= before.push(line@) + kept_lines(
                        cs@,
                        j + 1,
                    ));
                }
            }
            i = if j < cs.len() {
                j + 1
            } else {
                cs.len()
            };
            proof {
                if j == cs@.len() {
                    assert(kept_lines(cs@, j + 1) == Seq::<Seq<char>>::empty());
                    assert(kept_lines(cs@, j as int) == Seq::<Seq<char>>::empty());
                }
            }
        }
        proof {
            assert(history@.map_values(|s: String| s@) =~= kept_lines(cs@, 0));
        }
        let n = history.len();
        HistoryManager { history, current_index: n }
    }

    /// The text a history file gets: each command followed by a line break.
    pub fn to_text(&self) -> (s: String)
        ensures
            s@ == history_text(self.entries()),
    {
        let mut s = String::new();
        let mut i: usize = 0;
        while i < self.history.len()
            invariant
                i <= self.history@.len(),
                s@ == history_text(self.entries().take(i as int)),
            decreases self.history.len() - i,
        {
            proof {
                assert(self.entries().take(i + 1).drop_last() =~= self.entries().take(i as int));
            }
            s = concat(s, self.history[i].as_str());
            s = concat(s, "\n");
            proof {
                reveal_strlit("\n");
            }
            i += 1;
        }
        proof {
            assert(self.entries().take(self.history@.len() as int) =~= self.entries());
        }
        s
    }

    /// Adds a command, trimmed; a blank command is ignored. A command equal to the last one is
    /// not added again. After a non-blank command the cursor is past the end. Answers whether
    /// the history grew (and should be saved).
    pub fn add(&mut self, command: String) -> (grew: bool)
        requires
            old(self).wf(),
        ensures
            final(self).wf(),
            trim(command@).len() == 0 ==> *final(self) == *old(self) && !grew,
            trim(command@).len() > 0 ==> {
                let cmd = trim(command@);
                let e = old(self).entries();
                &&& grew == (e.len() == 0 || e.last() != cmd)
                &&& final(self).entries() == (if grew {
                    e.push(cmd)
                } else {
                    e
                })
                &&& final(self).index() == final(self).entries().len()
            },
    {
        let cv = chars_of(command.as_str());
        let cmd = trim_chars(&cv);
        if cmd.len() == 0 {
            return false;
        }
        let n = self.history.len();
        let same = n > 0 && crate::text::chars_eq(&chars_of(self.history[n - 1].as_str()), &cmd);
        let ghost e = self.entries();
        let mut grew = false;
        if !same {
            self.history.push(string_from(&cmd));
            grew = true;
            proof {
                assert(self.entries() =~= e.push(cmd@));
            }
        }
        self.current_index = self.history.len();
        grew
    }

    /// Steps back: the previous command, or nothing at the start.
    pub fn get_previous(&mut self) -> (r: Option<String>)
        requires
            old(self).wf(),
        ensures
            final(self).wf(),
            final(self).entries() == old(self).entries(),
            old(self).index() > 0 ==> (final(self).index() == old(self).index() - 1 && (r matches Some(
                c,
            ) && c@ == old(self).entries()[old(self).index() - 1])),
            old(self).index() == 0 ==> final(self).index() == 0 && r is None,
    {
        if self.current_index > 0 {
            self.current_index -= 1;
            Some(self.history[self.current_index].clone())
        } else {
            None
        }
    }

    /// Steps forward: the next command, or an empty text and the cursor past the end when
    /// there is none.
    pub fn get_next(&mut self) -> (r: Option<String>)
        requires
            old(self).wf(),
        ensures
            final(self).wf(),
            final(self).entries() == old(self).entries(),
            old(self).index() + 1 < old(self).entries().len() ==> (final(self).index() == old(
                self,
            ).index() + 1 && (r matches Some(c) && c@ == old(self).entries()[old(self).index() + 1])),
            old(self).index() + 1 >= old(self).entries().len() ==> (final(self).index() == old(
                self,
            ).entries().len() && (r matches Some(c) && c@.len() == 0)),
    {
        if self.current_index < self.history.len() && self.history.len() - self.current_index > 1 {
            self.current_index += 1;
            Some(self.history[self.current_index].clone())
        } else {
            self.current_index = self.history.len();
            Some(String::new())
        }
    }

    /// All commands, oldest first.
    pub fn get_all(&self) -> (r: &[String])
        ensures
            r@.map_values(|s: String| s@) == self.entries(),
    {
        self.history.as_slice()
    }

    /// Forgets all commands.
    pub fn clear(&mut self)
        ensures
            final(self).wf(),
            final(self).entries().len() == 0,
            final(self).index() == 0,
    {
        self.history.clear();
        self.current_index = 0;
        proof {
            assert(self.entries() =~= Seq::<Seq<char>>::empty());
        }
    }
}

} // verus!

verus! {

/// A line that a file can hold as it is: no line break in it, and no carriage return at its
/// end.
pub open spec fn plain_line(l: Seq<char>) -> bool {
    &&& forall|k: int| 0 <= k < l.len() ==> l[k] != '\n'
    &&& !(l.len() > 0 && l.last() == '\r')
}

/// Appending a line and a line break to a text made of whole lines appends that line to the
/// lines read from any line start.
pub(crate) proof fn lemma_lines_append(a: Seq<char>, l: Seq<char>, i: int)
    requires
        0 <= i <= a.len(),
        i == 0 || a[i - 1] == '\n',
        a.len() == 0 || a.last() == '\n',
        plain_line(l),
    ensures
        line_end(a + l + seq!['\n'], i) == (if i == a.len() {
            i + l.len()
        } else {
            line_end(a, i)
        }),
        i < a.len() ==> i <= line_end(a, i) < a.len() && a[line_end(a, i)] == '\n' && line_at(
            a + l + seq!['\n'],
            i,
            line_end(a, i),
        ) == line_at(a, i, line_end(a, i)),
        i == a.len() ==> line_at(a + l + seq!['\n'], i, i + l.len()) == l,
{
    let s = a + l + seq!['\n'];
    if i == a.len() {
        assert forall|k: int| i <= k < i + l.len() implies s[k] != '\n' by {
            assert(s[k] == l[k - i]);
        }
        lemma_find_char_at(s, '\n', i, i + l.len());
        assert(s.subrange(i, i + l.len()) =~= l);
    } else {
        lemma_find_char_result(a, '\n', i);
        assert(a[a.len() - 1] == '\n');
        let j = find_char(a, '\n', i);
        assert(s =~= a + (l + seq!['\n']));
        lemma_find_char_prefix(a, l + seq!['\n'], '\n', i);
        assert(s.subrange(i, j) =~= a.subrange(i, j));
    }
}

proof fn lemma_kept_append(a: Seq<char>, l: Seq<char>, i: int)
    requires
        0 <= i <= a.len(),
        i == 0 || a[i - 1] == '\n',
        a.len() == 0 || a.last() == '\n',
        plain_line(l),
        trim(l).len() > 0,
    ensures
        kept_lines(a + l + seq!['\n'], i) == kept_lines(a, i) + seq![l],
    decreases a.len() - i,
{
    let s = a + l + seq!['\n'];
    lemma_lines_append(a, l, i);
    if i == a.len() {
        assert(kept_lines(s, i + l.len() + 1) == Seq::<Seq<char>>::empty());
        assert(kept_lines(a, i) == Seq::<Seq<char>>::empty());
        assert(kept_lines(s, i) =~= seq![l]);
        assert(kept_lines(a, i) + seq![l] =~= seq![l]);
    } else {
        let j = line_end(a, i);
        lemma_kept_append(a, l, j + 1);
        let line = line_at(a, i, j);
        if trim(line).len() > 0 {
            assert(kept_lines(s, i) == seq![line] + kept_lines(s, j + 1));
            assert(kept_lines(a, i) == seq![line] + kept_lines(a, j + 1));
            assert(seq![line] + (kept_lines(a, j + 1) + seq![l]) =~= (seq![line] + kept_lines(
                a,
                j + 1,
            )) + seq![l]);
        }
    }
}

/// Saving a history and reading the file back gives the same commands, when each is a
/// non-blank line.
pub proof fn lemma_history_round_trip(entries: Seq<Seq<char>>)
    requires
        forall|k: int| 0 <= k < entries.len() ==> plain_line(#[trigger] entries[k]) && trim(
            entries[k],
        ).len() > 0,
    ensures
        kept_lines(history_text(entries), 0) == entries,
    decreases entries.len(),
{
    if entries.len() == 0 {
        assert(kept_lines(Seq::<char>::empty(), 0) == Seq::<Seq<char>>::empty());
    } else {
        let d = entries.drop_last();
        assert forall|k: int| 0 <= k < d.len() implies plain_line(#[trigger] d[k]) && trim(d[k]).len()
            > 0 by {
            assert(d[k] == entries[k]);
        }
        lemma_history_round_trip(d);
        let t = history_text(d);
        assert(t.len() == 0 || t.last() == '\n') by {
            if d.len() > 0 {
                assert(history_text(d) == history_text(d.drop_last()) + d.last() + seq!['\n']);
            }
        }
        lemma_kept_append(t, entries.last(), 0);
        assert(d.push(entries.last()) =~= entries);
        assert(d + seq![entries.last()] =~= entries);
    }
}

} // verus!
