use vstd::prelude::*;
use crate::lang::config::{find_char, find_char_exec, line_end};
use crate::managers::history::{lemma_lines_append, line_at, plain_line};
use crate::lang::config::lemma_find_char_at;
use crate::text::is_ws;
use crate::text::{chars_eq_str, chars_of, concat, lit, string_from, sub_chars, trim, trim_chars};

verus! {

broadcast use vstd::std_specs::vec::group_vec_axioms;

/// The shell's settings.
#[derive(Debug, Clone)]
pub struct Config {
    pub autocd: bool,
    pub suggestions: bool,
    pub editor: String,
    pub input_color: String,
    pub output_color: String,
    pub banner_color: String,
}

/// The shell's settings as plain values.
pub struct SettingsView {
    pub autocd: bool,
    pub suggestions: bool,
    pub editor: Seq<char>,
    pub input_color: Seq<char>,
    pub output_color: Seq<char>,
    pub banner_color: Seq<char>,
}

impl View for Config {
    type V = SettingsView;

    open spec fn view(&self) -> SettingsView {
        SettingsView {
            autocd: self.autocd,
            suggestions: self.suggestions,
            editor: self.editor@,
            input_color: self.input_color@,
            output_color: self.output_color@,
            banner_color: self.banner_color@,
        }
    }
}

/// The settings before any settings file is read.
pub open spec fn default_settings() -> SettingsView {
    SettingsView {
        autocd: true,
        suggestions: true,
        editor: "vim"@,
        input_color: "LightBlue"@,
        output_color: "White"@,
        banner_color: "LightBlue"@,
    }
}

/// The effect of a line `key = value` (both trimmed): a flag is on exactly when its value is
/// `true`; unknown keys change nothing.
pub open spec fn set_setting(c: SettingsView, key: Seq<char>, value: Seq<char>) -> SettingsView {
    if key == "autocd"@ {
        SettingsView { autocd: value == "true"@, ..c }
    } else if key == "suggestions"@ {
        SettingsView { suggestions: value == "true"@, ..c }
    } else if key == "editor"@ {
        SettingsView { editor: value, ..c }
    } else if key == "input_color"@ {
        SettingsView { input_color: value, ..c }
    } else if key == "output_color"@ {
        SettingsView { output_color: value, ..c }
    } else if key == "banner_color"@ {
        SettingsView { banner_color: value, ..c }
    } else {
        c
    }
}

/// The effect of one line: split at its first `=`; a line without `=` changes nothing.
pub open spec fn apply_line(c: SettingsView, line: Seq<char>) -> SettingsView {
    let k = find_char(line, '=', 0);
    if k < 0 {
        c
    } else {
        set_setting(c, trim(line.subrange(0, k)), trim(line.subrange(k + 1, line.len() as int)))
    }
}

/// The settings after the lines of `s` from position `i` on.
pub open spec fn apply_lines(c: SettingsView, s: Seq<char>, i: int) -> SettingsView
    decreases s.len() + 1 - i,
{
    if i < 0 || i >= s.len() {
        c
    } else {
        let j = line_end(s, i);
        if j < i || j > s.len() {
            c
        } else {
            apply_lines(apply_line(c, line_at(s, i, j)), s, j + 1)
        }
    }
}

pub open spec fn bool_text(b: bool) -> Seq<char> {
    if b {
        "true"@
    } else {
        "false"@
    }
}

/// The text of a settings file: one `key=value` line per setting.
pub open spec fn settings_text(c: SettingsView) -> Seq<char> {
    "autocd="@ + bool_text(c.autocd) + "\n"@ + "suggestions="@ + bool_text(c.suggestions) + "\n"@
        + "editor="@ + c.editor + "\n"@ + "input_color="@ + c.input_color + "\n"@
        + "output_color="@ + c.output_color + "\n"@ + "banner_color="@ + c.banner_color + "\n"@
}

impl Default for Config {
    fn default() -> (c: Self)
        ensures
            c@ == default_settings(),
    {
        Config {
            autocd: true,
            suggestions: true,
            editor: lit("vim"),
            input_color: lit("LightBlue"),
            output_color: lit("White"),
            banner_color: lit("LightBlue"),
        }
    }
}

/// The shell's settings, read from and written to the text of a settings file.
pub struct ConfigManager {
    pub current_config: Config,
}

impl ConfigManager {
    /// Default settings.
    pub fn new() -> (m: Self)
        ensures
            m.current_config@ == default_settings(),
    {
        ConfigManager { current_config: Config::default() }
    }

    /// Takes in the lines `key=value` of a settings file (see `apply_lines`).
    pub fn load_text(&mut self, content: &str)
        ensures
            final(self).current_config@ == apply_lines(old(self).current_config@, content@, 0),
    {
        let cs = chars_of(content);
        let mut i: usize = 0;
        while i < cs.len()
            invariant
                cs@ == content@,
                i <= cs@.len(),
                apply_lines(old(self).current_config@, cs@, 0) == apply_lines(
                    self.current_config@,
                    cs@,
                    i as int,
                ),
            decreases cs.len() - i,
        {
            let j = match find_char_exec(&cs, '\n', i) {
                Some(j) => j,
                None => cs.len(),
            };
            proof {
                assert(line_end(cs@, i as int) == j);
            }
            let mut line = sub_chars(&cs, i, j);
            if j < cs.len() && line.len() > 0 && line[line.len() - 1] == '\r' {
                line.pop();
            }
            proof {
                assert(line@ =~= line_at(cs@, i as int, j as int));
            }
            let ghost before = self.current_config@;
            proof {
                assert(apply_lines(before, cs@, i as int) == apply_lines(
                    apply_line(before, line@),
                    cs@,
                    j + 1,
                ));
            }
            self.apply_line(&line);
            proof {
                if j == cs@.len() {
                    assert(apply_lines(self.current_config@, cs@, j + 1) == self.current_config@);
                    assert(apply_lines(self.current_config@, cs@, j as int)
                        == self.current_config@);
                }
            }
            i = if j < cs.len() {
                j + 1
            } else {
                cs.len()
            };
        }
    }

    fn apply_line(&mut self, line: &Vec<char>)
        ensures
            final(self).current_config@ == apply_line(old(self).current_config@, line@),
    {
        match find_char_exec(line, '=', 0) {
            None => {},
            Some(k) => {
                proof {
                    assert(k < line.len());
                }
                let key = trim_chars(&sub_chars(line, 0, k));
                let value = trim_chars(&sub_chars(line, k + 1, line.len()));
                let c = &mut self.current_config;
                if chars_eq_str(&key, "autocd") {
                    c.autocd = chars_eq_str(&value, "true");
                } else if chars_eq_str(&key, "suggestions") {
                    c.suggestions = chars_eq_str(&value, "true");
                } else if chars_eq_str(&key, "editor") {
                    c.editor = string_from(&value);
                } else if chars_eq_str(&key, "input_color") {
                    c.input_color = string_from(&value);
                } else if chars_eq_str(&key, "output_color") {
                    c.output_color = string_from(&value);
                } else if chars_eq_str(&key, "banner_color") {
                    c.banner_color = string_from(&value);
                }
            },
        }
    }

    /// The text of the settings file for the current settings (see `settings_text`).
    pub fn to_text(&self) -> (s: String)
        ensures
            s@ == settings_text(self.current_config@),
    {
        let c = &self.current_config;
        let mut s = lit("autocd=");
        s = concat(s, if c.autocd { "true" } else { "false" });
        s = concat(s, "\n");
        s = concat(s, "suggestions=");
        s = concat(s, if c.suggestions { "true" } else { "false" });
        s = concat(s, "\n");
        s = concat(s, "editor=");
        s = concat(s, c.editor.as_str());
        s = concat(s, "\n");
        s = concat(s, "input_color=");
        s = concat(s, c.input_color.as_str());
        s = concat(s, "\n");
        s = concat(s, "output_color=");
        s = concat(s, c.output_color.as_str());
        s = concat(s, "\n");
        s = concat(s, "banner_color=");
        s = concat(s, c.banner_color.as_str());
        s = concat(s, "\n");
        s
    }
}

} // verus!

verus! {

/// Appending a line and a line break to a text made of whole lines applies that line last.
proof fn lemma_apply_append(c: SettingsView, a: Seq<char>, l: Seq<char>, i: int)
    requires
        0 <= i <= a.len(),
        i == 0 || a[i - 1] == '\n',
        a.len() == 0 || a.last() == '\n',
        plain_line(l),
    ensures
        apply_lines(c, a + l + seq!['\n'], i) == apply_line(apply_lines(c, a, i), l),
    decreases a.len() - i,
{
    let s = a + l + seq!['\n'];
    lemma_lines_append(a, l, i);
    if i == a.len() {
        assert(apply_lines(apply_line(c, l), s, i + l.len() + 1) == apply_line(c, l));
    } else {
        let j = line_end(a, i);
        lemma_apply_append(apply_line(c, line_at(a, i, j)), a, l, j + 1);
    }
}

/// A text is its own trim when it does not begin or end with whitespace.
proof fn lemma_trim_plain(s: Seq<char>)
    requires
        s.len() > 0,
        !is_ws(s[0]),
        !is_ws(s.last()),
    ensures
        trim(s) == s,
{
    assert(s.subrange(0, s.len() as int) =~= s);
}

/// A setting that a settings file keeps as it is: no line break, no whitespace around it.
pub open spec fn plain_value(v: Seq<char>) -> bool {
    &&& forall|k: int| 0 <= k < v.len() ==> v[k] != '\n'
    &&& v.len() > 0 ==> !is_ws(v[0]) && !is_ws(v.last())
}

/// Reading the line `key=value` sets that key to that value.
proof fn lemma_apply_setting(c: SettingsView, key: Seq<char>, v: Seq<char>)
    requires
        key.len() > 0,
        !is_ws(key[0]),
        !is_ws(key.last()),
        forall|k: int| 0 <= k < key.len() ==> key[k] != '=' && key[k] != '\n',
        plain_value(v),
    ensures
        apply_line(c, key + seq!['='] + v) == set_setting(c, key, v),
        plain_line(key + seq!['='] + v),
{
    let line = key + seq!['='] + v;
    lemma_find_char_at(line, '=', 0, key.len() as int);
    assert(line.subrange(0, key.len() as int) =~= key);
    assert(line.subrange(key.len() + 1int, line.len() as int) =~= v);
    lemma_trim_plain(key);
    assert forall|k: int| 0 <= k < line.len() implies line[k] != '\n' by {
        if k < key.len() {
            assert(line[k] == key[k]);
        } else if k > key.len() {
            assert(line[k] == v[k - key.len() - 1]);
        }
    }
    if v.len() > 0 {
        lemma_trim_plain(v);
        assert(line.last() == v.last());
    } else {
        assert(trim(v) =~= v);
    }
}

} // verus!

verus! {

proof fn lemma_key_ok(key: Seq<char>)
    requires
        key.len() > 0,
        forall|k: int| 0 <= k < key.len() ==> ('a' <= #[trigger] key[k] <= 'z' || key[k] == '_'),
    ensures
        !is_ws(key[0]),
        !is_ws(key.last()),
        forall|k: int| 0 <= k < key.len() ==> key[k] != '=' && key[k] != '\n',
{
    assert('a' <= key[0] <= 'z' || key[0] == '_');
    assert('a' <= key[key.len() - 1] <= 'z' || key[key.len() - 1] == '_');
}

/// Reading one more line `key=value` after whole lines sets that key last.
proof fn lemma_apply_step(before: SettingsView, t: Seq<char>, key: Seq<char>, v: Seq<char>)
    requires
        t.len() == 0 || t.last() == '\n',
        key.len() > 0,
        forall|k: int| 0 <= k < key.len() ==> ('a' <= #[trigger] key[k] <= 'z' || key[k] == '_'),
        plain_value(v),
    ensures
        apply_lines(before, t + (key + seq!['='] + v) + seq!['\n'], 0) == set_setting(
            apply_lines(before, t, 0),
            key,
            v,
        ),
{
    lemma_key_ok(key);
    lemma_apply_setting(apply_lines(before, t, 0), key, v);
    lemma_apply_append(before, t, key + seq!['='] + v, 0);
}

proof fn lemma_bool_text(b: bool)
    ensures
        plain_value(bool_text(b)),
        (bool_text(b) == "true"@) == b,
{
    reveal_strlit("true");
    reveal_strlit("false");
    assert("false"@.len() == 5);
    assert(bool_text(b).last() == 'e');
}

/// The file's lines, one after another.
pub open spec fn settings_lines(c: SettingsView) -> Seq<char> {
    let nl = seq!['\n'];
    let eq = seq!['='];
    Seq::<char>::empty() + ("autocd"@ + eq + bool_text(c.autocd)) + nl + ("suggestions"@ + eq
        + bool_text(c.suggestions)) + nl + ("editor"@ + eq + c.editor) + nl + ("input_color"@ + eq
        + c.input_color) + nl + ("output_color"@ + eq + c.output_color) + nl + ("banner_color"@
        + eq + c.banner_color) + nl
}

proof fn lemma_settings_text_lines(c: SettingsView)
    ensures
        settings_text(c) == settings_lines(c),
{
    reveal_strlit("autocd=");
    reveal_strlit("suggestions=");
    reveal_strlit("editor=");
    reveal_strlit("input_color=");
    reveal_strlit("output_color=");
    reveal_strlit("banner_color=");
    reveal_strlit("autocd");
    reveal_strlit("suggestions");
    reveal_strlit("editor");
    reveal_strlit("input_color");
    reveal_strlit("output_color");
    reveal_strlit("banner_color");
    reveal_strlit("\n");
    assert(settings_text(c) =~= settings_lines(c));
}

proof fn lemma_keys_lowercase()
    ensures
        forall|k: int| 0 <= k < "autocd"@.len() ==> ('a' <= #[trigger] "autocd"@[k] <= 'z'
            || "autocd"@[k] == '_'),
        forall|k: int| 0 <= k < "suggestions"@.len() ==> ('a' <= #[trigger] "suggestions"@[k]
            <= 'z' || "suggestions"@[k] == '_'),
        forall|k: int| 0 <= k < "editor"@.len() ==> ('a' <= #[trigger] "editor"@[k] <= 'z'
            || "editor"@[k] == '_'),
        forall|k: int| 0 <= k < "input_color"@.len() ==> ('a' <= #[trigger] "input_color"@[k]
            <= 'z' || "input_color"@[k] == '_'),
        forall|k: int| 0 <= k < "output_color"@.len() ==> ('a' <= #[trigger] "output_color"@[k]
            <= 'z' || "output_color"@[k] == '_'),
        forall|k: int| 0 <= k < "banner_color"@.len() ==> ('a' <= #[trigger] "banner_color"@[k]
            <= 'z' || "banner_color"@[k] == '_'),
        "autocd"@.len() > 0,
        "suggestions"@.len() > 0,
        "editor"@.len() > 0,
        "input_color"@.len() > 0,
        "output_color"@.len() > 0,
        "banner_color"@.len() > 0,
{
    reveal_strlit("autocd");
    reveal_strlit("suggestions");
    reveal_strlit("editor");
    reveal_strlit("input_color");
    reveal_strlit("output_color");
    reveal_strlit("banner_color");
}

/// Setting all six keys in file order gives exactly those settings.
proof fn lemma_set_all(before: SettingsView, c: SettingsView)
    ensures
        set_setting(
            set_setting(
                set_setting(
                    set_setting(
                        set_setting(
                            set_setting(before, "autocd"@, bool_text(c.autocd)),
                            "suggestions"@,
                            bool_text(c.suggestions),
                        ),
                        "editor"@,
                        c.editor,
                    ),
                    "input_color"@,
                    c.input_color,
                ),
                "output_color"@,
                c.output_color,
            ),
            "banner_color"@,
            c.banner_color,
        ) == c,
{
    reveal_strlit("autocd");
    reveal_strlit("suggestions");
    reveal_strlit("editor");
    reveal_strlit("input_color");
    reveal_strlit("output_color");
    reveal_strlit("banner_color");
    lemma_bool_text(c.autocd);
    lemma_bool_text(c.suggestions);
    assert("editor"@[0] != "autocd"@[0]);
    assert("output_color"@[0] != "banner_color"@[0]);
    assert("suggestions"@[0] != "input_color"@[0]);
}

/// Saving the settings and reading the file back gives the same settings, whatever they were
/// before reading, when each text setting is a single line without whitespace around it.
pub proof fn lemma_settings_round_trip(before: SettingsView, c: SettingsView)
    requires
        plain_value(c.editor),
        plain_value(c.input_color),
        plain_value(c.output_color),
        plain_value(c.banner_color),
    ensures
        apply_lines(before, settings_text(c), 0) == c,
{
    let nl = seq!['\n'];
    let eq = seq!['='];
    lemma_settings_text_lines(c);
    lemma_keys_lowercase();
    lemma_bool_text(c.autocd);
    lemma_bool_text(c.suggestions);
    let t0 = Seq::<char>::empty();
    let t1 = t0 + ("autocd"@ + eq + bool_text(c.autocd)) + nl;
    let t2 = t1 + ("suggestions"@ + eq + bool_text(c.suggestions)) + nl;
    let t3 = t2 + ("editor"@ + eq + c.editor) + nl;
    let t4 = t3 + ("input_color"@ + eq + c.input_color) + nl;
    let t5 = t4 + ("output_color"@ + eq + c.output_color) + nl;
    assert(apply_lines(before, t0, 0) == before);
    lemma_apply_step(before, t0, "autocd"@, bool_text(c.autocd));
    lemma_apply_step(before, t1, "suggestions"@, bool_text(c.suggestions));
    lemma_apply_step(before, t2, "editor"@, c.editor);
    lemma_apply_step(before, t3, "input_color"@, c.input_color);
    lemma_apply_step(before, t4, "output_color"@, c.output_color);
    lemma_apply_step(before, t5, "banner_color"@, c.banner_color);
    lemma_set_all(before, c);
}

} // verus!
