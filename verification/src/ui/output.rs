use vstd::prelude::*;
use crate::runtime::str_lib::{parts_from, split_text, texts};
use crate::text::{concat, lit, string_from};

verus! {

/// The lines shown in the output pane, oldest first.
pub struct OutputBox {
    pub history: Vec<String>,
}

impl OutputBox {
    /// A pane showing the welcome lines.
    pub fn new() -> (o: Self)
        ensures
            o.history@.map_values(|s: String| s@) == seq![
                "Welcome to Ish (Intelli-Shell)"@,
                "Type a command..."@,
            ],
    {
        let mut history: Vec<String> = Vec::new();
        history.push(lit("Welcome to Ish (Intelli-Shell)"));
        history.push(lit("Type a command..."));
        proof {
            assert(history@.map_values(|s: String| s@) =~= seq![
                "Welcome to Ish (Intelli-Shell)"@,
                "Type a command..."@,
            ]);
        }
        OutputBox { history }
    }

    /// Adds a line at the bottom.
    pub fn append(&mut self, line: String)
        ensures
            final(self).history@ == old(self).history@.push(line),
    {
        self.history.push(line);
    }
}

/// The lines a chunk of a program's output completes, after the unfinished line `partial`, and
/// the unfinished line left: the chunk is split at each `\n`; the first piece ends `partial`,
/// the last piece is left unfinished.
pub open spec fn chunk_lines(partial: Seq<char>, chunk: Seq<char>) -> (Seq<Seq<char>>, Seq<char>) {
    let parts = parts_from(chunk, seq!['\n'], 0, 0);
    if parts.len() > 1 {
        (seq![partial + parts[0]] + parts.subrange(1, parts.len() - 1), parts.last())
    } else {
        (Seq::empty(), partial + parts[0])
    }
}

proof fn lemma_parts_nonempty(s: Seq<char>, sep: Seq<char>, i: int, start: int)
    ensures
        parts_from(s, sep, i, start).len() >= 1,
    decreases s.len() + 1 - i,
{
    if sep.len() == 0 || i < 0 || i + sep.len() > s.len() {
    } else if crate::runtime::strings::occurs_at(s, sep, i) {
        lemma_parts_nonempty(s, sep, i + sep.len(), i + sep.len());
    } else {
        lemma_parts_nonempty(s, sep, i + 1, start);
    }
}

/// Splits a chunk of a program's output into the lines it completes and the unfinished line
/// left (see `chunk_lines`), where `partial` is the unfinished line so far.
pub fn take_chunk(partial: Option<String>, chunk: &str) -> (r: (Vec<String>, String))
    ensures
        ({
            let p = match partial {
                Some(t) => t@,
                None => Seq::empty(),
            };
            &&& r.0@.map_values(|t: String| t@) == chunk_lines(p, chunk@).0
            &&& r.1@ == chunk_lines(p, chunk@).1
        }),
{
    let p = match partial {
        Some(t) => t,
        None => String::new(),
    };
    let ghost pv = p@;
    let mut sep: Vec<char> = Vec::new();
    sep.push('\n');
    let parts = split_text(&crate::text::chars_of(chunk), &sep);
    proof {
        assert(sep@ =~= seq!['\n']);
        lemma_parts_nonempty(chunk@, seq!['\n'], 0, 0);
        assert(texts(parts@) == parts_from(chunk@, seq!['\n'], 0, 0));
        assert(texts(parts@)[0] == parts@[0]@);
    }
    let n = parts.len();
    if n > 1 {
        let mut lines: Vec<String> = Vec::new();
        lines.push(concat(p, string_from(&parts[0]).as_str()));
        let mut i: usize = 1;
        while i < n - 1
            invariant
                1 <= i <= n - 1,
                n == parts@.len(),
                lines@.map_values(|t: String| t@) == seq![pv + texts(parts@)[0]] + texts(parts@).subrange(
                    1,
                    i as int,
                ),
            decreases n - 1 - i,
        {
            let ghost before = lines@;
            let next = string_from(&parts[i]);
            lines.push(next);
            proof {
                let goal = seq![pv + texts(parts@)[0]] + texts(parts@).subrange(1, i + 1);
                assert(texts(parts@)[i as int] == parts@[i as int]@);
                assert(lines@ == before.push(next));
                let m = lines@.map_values(|t: String| t@);
                let b = before.map_values(|t: String| t@);
                assert(texts(parts@).len() == n);
                assert(b.len() == i);
                assert(lines@.len() == i + 1);
                assert(m.len() == goal.len());
                assert forall|k: int| 0 <= k < goal.len() implies #[trigger] m[k] == goal[k] by {
                    if k < i {
                        assert(lines@[k] == before[k]);
                        assert(b[k] == before[k]@);
                    }
                }
                assert(m =~= goal);
            }
            i += 1;
        }
        proof {
            assert(texts(parts@)[n - 1] == parts@[n - 1]@);
        }
        (lines, string_from(&parts[n - 1]))
    } else {
        let lines: Vec<String> = Vec::new();
        proof {
            assert(lines@.map_values(|t: String| t@) =~= Seq::<Seq<char>>::empty());
        }
        (lines, concat(p, string_from(&parts[0]).as_str()))
    }
}

} // verus!
