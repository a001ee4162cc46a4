use vstd::prelude::*;
use crate::managers::suggestions::{words, words_exec};
use crate::text::{chars_of, is_whitespace, is_ws, string_from};
use crate::ui::key::Key;

verus! {

/// Which part of the shell a key press goes to.
#[derive(Debug, Clone, Copy, PartialEq, Eq, Structural)]
pub enum KeyRoute {
    /// Esc: leave the shell.
    Quit,
    /// The open suggestion list (moving the selection, accepting, closing).
    Suggestions,
    /// Scroll the output up a page.
    ScrollUp,
    /// Scroll the output down a page.
    ScrollDown,
    /// The previous command of the history.
    HistoryPrevious,
    /// The next command of the history.
    HistoryNext,
    /// The input line.
    Input,
}

/// Where a key press goes: Esc quits; while the suggestion list is shown, Down, Up, Right and
/// Tab go to it; Page Up and Ctrl+Up scroll up, Page Down and Ctrl+Down scroll down; Up and
/// Down walk the history; anything else edits the input line.
pub open spec fn key_route(key: Key, ctrl: bool, suggestions_shown: bool) -> KeyRoute {
    if key is Esc {
        KeyRoute::Quit
    } else if suggestions_shown && (key is Down || key is Up || key is Right || key is Tab) {
        KeyRoute::Suggestions
    } else if key is PageUp || (key is Up && ctrl) {
        KeyRoute::ScrollUp
    } else if key is PageDown || (key is Down && ctrl) {
        KeyRoute::ScrollDown
    } else if key is Up {
        KeyRoute::HistoryPrevious
    } else if key is Down {
        KeyRoute::HistoryNext
    } else {
        KeyRoute::Input
    }
}

/// Routes a key press (see `key_route`).
pub fn route_key(key: Key, ctrl: bool, suggestions_shown: bool) -> (r: KeyRoute)
    ensures
        r == key_route(key, ctrl, suggestions_shown),
{
    let to_list = match key {
        Key::Down | Key::Up | Key::Right | Key::Tab => suggestions_shown,
        _ => false,
    };
    if to_list {
        return KeyRoute::Suggestions;
    }
    match key {
        Key::Esc => KeyRoute::Quit,
        Key::PageUp => KeyRoute::ScrollUp,
        Key::PageDown => KeyRoute::ScrollDown,
        Key::Up => if ctrl {
            KeyRoute::ScrollUp
        } else {
            KeyRoute::HistoryPrevious
        },
        Key::Down => if ctrl {
            KeyRoute::ScrollDown
        } else {
            KeyRoute::HistoryNext
        },
        _ => KeyRoute::Input,
    }
}

/// Words joined with single spaces.
pub open spec fn spaced(ws: Seq<Seq<char>>) -> Seq<char>
    decreases ws.len(),
{
    if ws.len() == 0 {
        Seq::empty()
    } else if ws.len() == 1 {
        ws[0]
    } else {
        spaced(ws.drop_last()) + seq![' '] + ws.last()
    }
}

/// The input line after accepting the suggestion `accepted`: the words of the line, without
/// the last one where the line does not end in whitespace (the word being completed), joined
/// by single spaces, then a space where that is not empty, then the suggestion.
pub open spec fn accepted_line(input: Seq<char>, accepted: Seq<char>) -> Seq<char> {
    let ws = words(input, 0);
    let kept = if !(input.len() > 0 && is_ws(input.last())) && ws.len() > 0 {
        ws.drop_last()
    } else {
        ws
    };
    let base = spaced(kept);
    (if base.len() > 0 {
        base.push(' ')
    } else {
        base
    }) + accepted
}

/// The input line after accepting a suggestion (see `accepted_line`).
pub fn accept_suggestion(input: &str, accepted: &str) -> (r: String)
    ensures
        r@ == accepted_line(input@, accepted@),
{
    let iv = chars_of(input);
    let ws = words_exec(&iv);
    let ends_ws = iv.len() > 0 && is_whitespace(iv[iv.len() - 1]);
    let keep: usize = if !ends_ws && ws.len() > 0 {
        ws.len() - 1
    } else {
        ws.len()
    };
    let ghost all = ws@.map_values(|w: Vec<char>| w@);
    let ghost kept = if !ends_ws && all.len() > 0 {
        all.drop_last()
    } else {
        all
    };
    proof {
        assert(all == words(input@, 0));
        assert(kept.len() == keep);
    }
    let mut out: Vec<char> = Vec::new();
    let mut i: usize = 0;
    while i < keep
        invariant
            i <= keep <= ws@.len(),
            all == ws@.map_values(|w: Vec<char>| w@),
            kept == all.subrange(0, keep as int),
            out@ == spaced(kept.subrange(0, i as int)),
        decreases keep - i,
    {
        if i > 0 {
            out.push(' ');
        }
        let w = &ws[i];
        let mut j: usize = 0;
        let ghost start = out@;
        while j < w.len()
            invariant
                j <= w@.len(),
                out@ == start + w@.subrange(0, j as int),
            decreases w.len() - j,
        {
            out.push(w[j]);
            j += 1;
            proof {
                assert(out@ =~= start + w@.subrange(0, j as int));
            }
        }
        proof {
            let pre = kept.subrange(0, i as int);
            let now = kept.subrange(0, i + 1);
            assert(now.drop_last() =~= pre);
            assert(now.last() == all[i as int]);
            assert(all[i as int] == w@);
            assert(w@.subrange(0, w@.len() as int) =~= w@);
            if i == 0 {
                assert(pre =~= Seq::<Seq<char>>::empty());
                assert(out@ =~= spaced(now));
            } else {
                assert(out@ =~= spaced(pre) + seq![' '] + w@);
            }
        }
        i += 1;
    }
    proof {
        assert(kept.subrange(0, keep as int) =~= kept);
    }
    if out.len() > 0 {
        out.push(' ');
    }
    let av = chars_of(accepted);
    let mut j: usize = 0;
    let ghost start = out@;
    while j < av.len()
        invariant
            av@ == accepted@,
            j <= accepted@.len(),
            out@ == start + accepted@.subrange(0, j as int),
        decreases av.len() - j,
    {
        out.push(av[j]);
        j += 1;
        proof {
            assert(out@ =~= start + accepted@.subrange(0, j as int));
        }
    }
    proof {
        assert(accepted@.subrange(0, accepted@.len() as int) =~= accepted@);
    }
    string_from(&out)
}

} // verus!
