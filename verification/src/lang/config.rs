use vstd::prelude::*;
use crate::error::IshError;
use crate::text::{
    chars_eq_str, chars_of, decimal, digit_char, string_from, sub_chars, trim, trim_chars,
};

verus! {

broadcast use vstd::std_specs::vec::group_vec_axioms;

/// The `[Project]` settings of a project file.
#[derive(Debug, Clone)]
pub struct ProjectConfig {
    pub name: String,
    pub version: String,
    pub author: String,
    pub readme: Option<String>,
    pub entry_file: String,
    pub entry_class: String,
    pub entry_method: String,
    pub with_args: bool,
    pub include_dirs: Vec<String>,
    pub verbose: bool,
    pub dotenv: bool,
}

/// The `[Configuration]` limits of a project file.
#[derive(Debug, Clone, Copy)]
pub struct InterpreterConfig {
    pub array_size_limit: usize,
    pub list_size_limit: usize,
    pub map_size_limit: usize,
    pub string_length_limit: usize,
    pub max_variables: usize,
    pub max_memory_threshold_mb: usize,
}

/// A project file's settings.
#[derive(Debug, Clone)]
pub struct IshConfig {
    pub project: ProjectConfig,
    pub interpreter: InterpreterConfig,
}

/// The project settings as plain values.
pub struct ProjectView {
    pub name: Seq<char>,
    pub version: Seq<char>,
    pub author: Seq<char>,
    pub readme: Option<Seq<char>>,
    pub entry_file: Seq<char>,
    pub entry_class: Seq<char>,
    pub entry_method: Seq<char>,
    pub with_args: bool,
    pub include_dirs: Seq<Seq<char>>,
    pub verbose: bool,
    pub dotenv: bool,
}

/// A project file's settings as plain values.
pub struct ConfigView {
    pub project: ProjectView,
    pub interpreter: InterpreterConfig,
}

impl View for IshConfig {
    type V = ConfigView;

    open spec fn view(&self) -> ConfigView {
        ConfigView {
            project: ProjectView {
                name: self.project.name@,
                version: self.project.version@,
                author: self.project.author@,
                readme: match self.project.readme {
                    Some(r) => Some(r@),
                    None => None,
                },
                entry_file: self.project.entry_file@,
                entry_class: self.project.entry_class@,
                entry_method: self.project.entry_method@,
                with_args: self.project.with_args,
                include_dirs: self.project.include_dirs@.map_values(|s: String| s@),
                verbose: self.project.verbose,
                dotenv: self.project.dotenv,
            },
            interpreter: self.interpreter,
        }
    }
}

/// The settings when a project file says nothing.
pub open spec fn default_config() -> ConfigView {
    ConfigView {
        project: ProjectView {
            name: "Ish-Project"@,
            version: "1.0.0"@,
            author: "Unknown"@,
            readme: None,
            entry_file: "Main.ish"@,
            entry_class: "Program"@,
            entry_method: "Main"@,
            with_args: true,
            include_dirs: Seq::empty(),
            verbose: false,
            dotenv: false,
        },
        interpreter: InterpreterConfig {
            array_size_limit: 1024,
            list_size_limit: 1024,
            map_size_limit: 1024,
            string_length_limit: 1024,
            max_variables: 1024,
            max_memory_threshold_mb: 128,
        },
    }
}

/// The index of the first `//` from `i` on, or the length.
pub open spec fn comment_start(s: Seq<char>, i: int) -> int
    decreases s.len() - i,
{
    if i < 0 || i + 1 >= s.len() {
        s.len() as int
    } else if s[i] == '/' && s[i + 1] == '/' {
        i
    } else {
        comment_start(s, i + 1)
    }
}

/// The index of the first `c` from `i` on, or -1.
pub open spec fn find_char(s: Seq<char>, c: char, i: int) -> int
    decreases s.len() - i,
{
    if i < 0 || i >= s.len() {
        -1
    } else if s[i] == c {
        i
    } else {
        find_char(s, c, i + 1)
    }
}

/// The index of the first line break from `i` on, or the length.
pub open spec fn line_end(s: Seq<char>, i: int) -> int {
    let j = find_char(s, '\n', i);
    if j < 0 {
        s.len() as int
    } else {
        j
    }
}

/// A value without one trailing `;` (and the whitespace before it).
pub open spec fn strip_semicolon(v: Seq<char>) -> Seq<char> {
    if v.len() > 0 && v.last() == ';' {
        trim(v.drop_last())
    } else {
        v
    }
}

/// Whether a value is enclosed in double quotes (a lone `"` counts).
pub open spec fn quoted(v: Seq<char>) -> bool {
    v.len() > 0 && v[0] == '"' && v.last() == '"'
}

/// The value of an item line `- value`: without a trailing `;` and enclosing quotes.
pub open spec fn item_value(rest: Seq<char>) -> Seq<char> {
    let v = strip_semicolon(trim(rest));
    if quoted(v) && v.len() >= 2 {
        v.subrange(1, v.len() - 1)
    } else {
        v
    }
}

/// The value of a digit string, most significant first.
pub open spec fn digits_value(d: Seq<char>) -> nat
    decreases d.len(),
{
    if d.len() == 0 {
        0
    } else {
        digits_value(d.drop_last()) * 10 + ((d.last() as nat) - ('0' as nat)) as nat
    }
}

pub open spec fn all_digits(d: Seq<char>) -> bool {
    forall|i: int| 0 <= i < d.len() ==> '0' <= #[trigger] d[i] <= '9'
}

/// `str::parse::<usize>`: an optional `+`, then one or more decimal digits, whose value fits.
pub open spec fn parse_usize(s: Seq<char>) -> Option<usize> {
    let d = if s.len() > 0 && s[0] == '+' {
        s.drop_first()
    } else {
        s
    };
    if d.len() > 0 && all_digits(d) && digits_value(d) <= usize::MAX {
        Some(digits_value(d) as usize)
    } else {
        None
    }
}

/// `str::parse::<bool>`: exactly `true` or `false`.
pub open spec fn parse_bool(s: Seq<char>) -> Option<bool> {
    if s == "true"@ {
        Some(true)
    } else if s == "false"@ {
        Some(false)
    } else {
        None
    }
}

pub open spec fn bool_or(o: Option<bool>, d: bool) -> bool {
    match o {
        Some(b) => b,
        None => d,
    }
}

/// The effect of `key: value` in a section. Unknown sections and keys change nothing; a
/// limit that is not a number changes nothing; a flag that is not `true` or `false` gets its
/// default (`With-Args` true, `Verbose` and `DotEnv` false).
pub open spec fn set_value(c: ConfigView, section: Seq<char>, key: Seq<char>, p: Seq<char>) -> ConfigView {
    let pr = c.project;
    let it = c.interpreter;
    if section == "Project"@ {
        if key == "Name"@ {
            ConfigView { project: ProjectView { name: p, ..pr }, ..c }
        } else if key == "Version"@ {
            ConfigView { project: ProjectView { version: p, ..pr }, ..c }
        } else if key == "Author"@ {
            ConfigView { project: ProjectView { author: p, ..pr }, ..c }
        } else if key == "Readme"@ {
            ConfigView { project: ProjectView { readme: Some(p), ..pr }, ..c }
        } else if key == "Entry-File"@ {
            ConfigView { project: ProjectView { entry_file: p, ..pr }, ..c }
        } else if key == "Entry-Class"@ {
            ConfigView { project: ProjectView { entry_class: p, ..pr }, ..c }
        } else if key == "Entry-Method"@ {
            ConfigView { project: ProjectView { entry_method: p, ..pr }, ..c }
        } else if key == "With-Args"@ {
            ConfigView { project: ProjectView { with_args: bool_or(parse_bool(p), true), ..pr }, ..c }
        } else if key == "Verbose"@ {
            ConfigView { project: ProjectView { verbose: bool_or(parse_bool(p), false), ..pr }, ..c }
        } else if key == "DotEnv"@ {
            ConfigView { project: ProjectView { dotenv: bool_or(parse_bool(p), false), ..pr }, ..c }
        } else {
            c
        }
    } else if section == "Configuration"@ {
        match parse_usize(p) {
            Some(n) => {
                if key == "Array-Size-Limit"@ {
                    ConfigView { interpreter: InterpreterConfig { array_size_limit: n, ..it }, ..c }
                } else if key == "List-Size-Limit"@ {
                    ConfigView { interpreter: InterpreterConfig { list_size_limit: n, ..it }, ..c }
                } else if key == "Map-Size-Limit"@ {
                    ConfigView { interpreter: InterpreterConfig { map_size_limit: n, ..it }, ..c }
                } else if key == "String-Length-Limit"@ {
                    ConfigView {
                        interpreter: InterpreterConfig { string_length_limit: n, ..it },
                        ..c
                    }
                } else if key == "Max-variables"@ {
                    ConfigView { interpreter: InterpreterConfig { max_variables: n, ..it }, ..c }
                } else if key == "Max-Memory-Threshold"@ {
                    ConfigView {
                        interpreter: InterpreterConfig { max_memory_threshold_mb: n, ..it },
                        ..c
                    }
                } else {
                    c
                }
            },
            None => c,
        }
    } else {
        c
    }
}

/// What the reader knows between lines: the settings so far, the current section, and the key
/// whose item list (`- value` lines) is open.
pub struct ReadState {
    pub config: ConfigView,
    pub section: Seq<char>,
    pub array_key: Option<Seq<char>>,
}

/// A line with its comment cut off and trimmed.
pub open spec fn content_of(raw: Seq<char>) -> Seq<char> {
    trim(raw.subrange(0, comment_start(raw, 0)))
}

/// The effect of one line. `[Name]` opens a section; `- value` adds an item to the open list
/// (only `Include` of `[Project]` keeps them); `key:` with no value opens a list; `key: value`
/// sets a value, without a trailing `;` and enclosing quotes; other lines change nothing.
pub open spec fn read_line(st: ReadState, raw: Seq<char>) -> ReadState {
    let line = content_of(raw);
    if line.len() == 0 {
        st
    } else if line[0] == '[' && line.last() == ']' {
        ReadState { section: trim(line.subrange(1, line.len() - 1)), array_key: None, ..st }
    } else if line[0] == '-' {
        match st.array_key {
            Some(k) => {
                if st.section == "Project"@ && k == "Include"@ {
                    let pr = st.config.project;
                    ReadState {
                        config: ConfigView {
                            project: ProjectView {
                                include_dirs: pr.include_dirs.push(item_value(line.drop_first())),
                                ..pr
                            },
                            ..st.config
                        },
                        ..st
                    }
                } else {
                    st
                }
            },
            None => st,
        }
    } else {
        let ci = find_char(line, ':', 0);
        if ci < 0 {
            st
        } else {
            let key = trim(line.subrange(0, ci));
            let v = strip_semicolon(trim(line.subrange(ci + 1, line.len() as int)));
            if v.len() == 0 {
                ReadState { array_key: Some(key), ..st }
            } else {
                let p = if v.len() >= 2 && v[0] == '"' && v.last() == '"' {
                    v.subrange(1, v.len() - 1)
                } else {
                    v
                };
                ReadState {
                    config: set_value(st.config, st.section, key, p),
                    array_key: None,
                    ..st
                }
            }
        }
    }
}

/// Whether a line is an item `- "` in an open list: its value is a lone quote, which the
/// reader cannot take apart.
pub open spec fn line_fails(st: ReadState, raw: Seq<char>) -> bool {
    let line = content_of(raw);
    &&& line.len() > 0
    &&& !(line[0] == '[' && line.last() == ']')
    &&& line[0] == '-'
    &&& st.array_key is Some
    &&& strip_semicolon(trim(line.drop_first())) == seq!['"']
}

/// The state after the lines of `s` from position `i` on.
pub open spec fn read_from(st: ReadState, s: Seq<char>, i: int) -> ReadState
    decreases s.len() + 1 - i,
{
    if i < 0 || i >= s.len() {
        st
    } else {
        let j = line_end(s, i);
        if j < i || j > s.len() {
            st
        } else {
            read_from(read_line(st, s.subrange(i, j)), s, j + 1)
        }
    }
}

/// Whether one of the lines of `s` from position `i` on fails.
pub open spec fn fails_from(st: ReadState, s: Seq<char>, i: int) -> bool
    decreases s.len() + 1 - i,
{
    if i < 0 || i >= s.len() {
        false
    } else {
        let j = line_end(s, i);
        if j < i || j > s.len() {
            false
        } else {
            line_fails(st, s.subrange(i, j)) || fails_from(read_line(st, s.subrange(i, j)), s, j + 1)
        }
    }
}

/// The reader's starting state: default settings in section `Project`, no list open.
pub open spec fn start_state() -> ReadState {
    ReadState { config: default_config(), section: "Project"@, array_key: None }
}

/// The settings a project file gives.
pub open spec fn read_config(s: Seq<char>) -> ConfigView {
    read_from(start_state(), s, 0).config
}

/// Whether a project file holds an item line that the reader cannot take apart.
pub open spec fn config_fails(s: Seq<char>) -> bool {
    fails_from(start_state(), s, 0)
}

} // verus!

verus! {

impl Default for IshConfig {
    fn default() -> (r: Self)
        ensures
            r@ == default_config(),
    {
        let r = IshConfig {
            project: ProjectConfig {
                name: crate::text::lit("Ish-Project"),
                version: crate::text::lit("1.0.0"),
                author: crate::text::lit("Unknown"),
                readme: None,
                entry_file: crate::text::lit("Main.ish"),
                entry_class: crate::text::lit("Program"),
                entry_method: crate::text::lit("Main"),
                with_args: true,
                include_dirs: Vec::new(),
                verbose: false,
                dotenv: false,
            },
            interpreter: InterpreterConfig {
                array_size_limit: 1024,
                list_size_limit: 1024,
                map_size_limit: 1024,
                string_length_limit: 1024,
                max_variables: 1024,
                max_memory_threshold_mb: 128,
            },
        };
        proof {
            assert(r@.project.include_dirs =~= Seq::<Seq<char>>::empty());
        }
        r
    }
}

/// The index of the first `//`, or the length.
fn comment_start_exec(v: &Vec<char>) -> (r: usize)
    ensures
        r == comment_start(v@, 0),
        r <= v@.len(),
{
    let mut i: usize = 0;
    while i < v.len() && v.len() - i > 1
        invariant
            i <= v@.len(),
            comment_start(v@, 0) == comment_start(v@, i as int),
        decreases v.len() - i,
    {
        if v[i] == '/' && v[i + 1] == '/' {
            return i;
        }
        i += 1;
    }
    v.len()
}

/// The index of the first `c` from `i` on, if any.
pub(crate) fn find_char_exec(v: &Vec<char>, c: char, i: usize) -> (r: Option<usize>)
    ensures
        match r {
            Some(j) => j == find_char(v@, c, i as int) && i <= j < v@.len(),
            None => find_char(v@, c, i as int) == -1,
        },
{
    let mut k = i;
    while k < v.len()
        invariant
            i <= k,
            find_char(v@, c, i as int) == find_char(v@, c, k as int),
        decreases v.len() - k,
    {
        if v[k] == c {
            return Some(k);
        }
        k += 1;
    }
    None
}

fn strip_semicolon_exec(v: Vec<char>) -> (r: Vec<char>)
    ensures
        r@ == strip_semicolon(v@),
{
    if v.len() > 0 && v[v.len() - 1] == ';' {
        let w = sub_chars(&v, 0, v.len() - 1);
        proof {
            assert(w@ =~= v@.drop_last());
        }
        trim_chars(&w)
    } else {
        v
    }
}

proof fn lemma_digits_monotone(d: Seq<char>, i: int, j: int)
    requires
        0 <= i <= j <= d.len(),
        all_digits(d),
    ensures
        digits_value(d.take(i)) <= digits_value(d.take(j)),
    decreases j - i,
{
    if i < j {
        lemma_digits_monotone(d, i, j - 1);
        assert(d.take(j).drop_last() =~= d.take(j - 1));
        assert(d.take(j).last() == d[j - 1]);
    }
}

/// Reads a non-negative number as `str::parse::<usize>` does.
pub fn parse_usize_exec(p: &Vec<char>) -> (r: Option<usize>)
    ensures
        r == parse_usize(p@),
{
    let start: usize = if p.len() > 0 && p[0] == '+' {
        1
    } else {
        0
    };
    let ghost d = if p@.len() > 0 && p@[0] == '+' {
        p@.drop_first()
    } else {
        p@
    };
    proof {
        assert(d =~= p@.subrange(start as int, p@.len() as int));
    }
    if p.len() == start {
        return None;
    }
    let mut acc: usize = 0;
    let mut k = start;
    while k < p.len()
        invariant
            start <= k <= p@.len(),
            d == p@.subrange(start as int, p@.len() as int),
            d == (if p@.len() > 0 && p@[0] == '+' {
                p@.drop_first()
            } else {
                p@
            }),
            all_digits(d.take(k - start)),
            acc == digits_value(d.take(k - start)),
        decreases p.len() - k,
    {
        let c = p[k];
        proof {
            assert(d[k - start] == c);
        }
        if !('0' <= c && c <= '9') {
            return None;
        }
        proof {
            assert(d.take(k - start + 1).drop_last() =~= d.take(k - start));
            assert(d.take(k - start + 1).last() == c);
            assert(all_digits(d.take(k - start + 1)));
            assert(digits_value(d.take(k - start + 1)) == acc * 10 + (c as nat - '0' as nat));
        }
        let dig = (c as u32 - '0' as u32) as usize;
        let ok = match acc.checked_mul(10) {
            Some(m) => match m.checked_add(dig) {
                Some(n) => {
                    acc = n;
                    true
                },
                None => false,
            },
            None => false,
        };
        if !ok {
            proof {
                if all_digits(d) {
                    lemma_digits_monotone(d, k - start + 1, d.len() as int);
                    assert(d.take(d.len() as int) =~= d);
                }
            }
            return None;
        }
        k += 1;
    }
    proof {
        assert(d.take(d.len() as int) =~= d);
    }
    Some(acc)
}

/// Reads `true` or `false` as `str::parse::<bool>` does.
pub fn parse_bool_exec(p: &Vec<char>) -> (r: Option<bool>)
    ensures
        r == parse_bool(p@),
{
    if chars_eq_str(p, "true") {
        Some(true)
    } else if chars_eq_str(p, "false") {
        Some(false)
    } else {
        None
    }
}

fn bool_or_exec(o: Option<bool>, d: bool) -> (r: bool)
    ensures
        r == bool_or(o, d),
{
    match o {
        Some(b) => b,
        None => d,
    }
}

} // verus!

verus! {

/// Applies `key: value` in a section to the settings (see `set_value`).
fn set_value_exec(c: &mut IshConfig, section: &Vec<char>, key: &Vec<char>, p: &Vec<char>)
    ensures
        final(c)@ == set_value(old(c)@, section@, key@, p@),
{
    if chars_eq_str(section, "Project") {
        if chars_eq_str(key, "Name") {
            c.project.name = string_from(p);
        } else if chars_eq_str(key, "Version") {
            c.project.version = string_from(p);
        } else if chars_eq_str(key, "Author") {
            c.project.author = string_from(p);
        } else if chars_eq_str(key, "Readme") {
            c.project.readme = Some(string_from(p));
        } else if chars_eq_str(key, "Entry-File") {
            c.project.entry_file = string_from(p);
        } else if chars_eq_str(key, "Entry-Class") {
            c.project.entry_class = string_from(p);
        } else if chars_eq_str(key, "Entry-Method") {
            c.project.entry_method = string_from(p);
        } else if chars_eq_str(key, "With-Args") {
            c.project.with_args = bool_or_exec(parse_bool_exec(p), true);
        } else if chars_eq_str(key, "Verbose") {
            c.project.verbose = bool_or_exec(parse_bool_exec(p), false);
        } else if chars_eq_str(key, "DotEnv") {
            c.project.dotenv = bool_or_exec(parse_bool_exec(p), false);
        }
    } else if chars_eq_str(section, "Configuration") {
        match parse_usize_exec(p) {
            Some(n) => {
                if chars_eq_str(key, "Array-Size-Limit") {
                    c.interpreter.array_size_limit = n;
                } else if chars_eq_str(key, "List-Size-Limit") {
                    c.interpreter.list_size_limit = n;
                } else if chars_eq_str(key, "Map-Size-Limit") {
                    c.interpreter.map_size_limit = n;
                } else if chars_eq_str(key, "String-Length-Limit") {
                    c.interpreter.string_length_limit = n;
                } else if chars_eq_str(key, "Max-variables") {
                    c.interpreter.max_variables = n;
                } else if chars_eq_str(key, "Max-Memory-Threshold") {
                    c.interpreter.max_memory_threshold_mb = n;
                }
            },
            None => {},
        }
    }
}

/// The reader's state between lines (see `ReadState`).
struct Reader {
    config: IshConfig,
    section: Vec<char>,
    array_key: Option<Vec<char>>,
}

impl View for Reader {
    type V = ReadState;

    closed spec fn view(&self) -> ReadState {
        ReadState {
            config: self.config@,
            section: self.section@,
            array_key: match self.array_key {
                Some(k) => Some(k@),
                None => None,
            },
        }
    }
}

impl Reader {
    /// Takes in one line (see `read_line`).
    fn read_line(&mut self, raw: &Vec<char>)
        requires
            !line_fails(old(self)@, raw@),
        ensures
            final(self)@ == read_line(old(self)@, raw@),
    {
        let cut = comment_start_exec(raw);
        let before = sub_chars(raw, 0, cut);
        let line = trim_chars(&before);
        let n = line.len();
        if n == 0 {
            return;
        }
        proof {
            assert(line@ == content_of(raw@));
        }
        if line[0] == '[' && line[n - 1] == ']' {
            proof {
                assert(line@[0] == '[' && line@.last() == ']');
            }
            let inner = sub_chars(&line, 1, n - 1);
            self.section = trim_chars(&inner);
            self.array_key = None;
            return;
        }
        if line[0] == '-' {
            let is_include = match &self.array_key {
                Some(k) => chars_eq_str(&self.section, "Project") && chars_eq_str(k, "Include"),
                None => false,
            };
            if is_include {
                let rest = sub_chars(&line, 1, n);
                proof {
                    assert(rest@ =~= line@.drop_first());
                }
                let v = strip_semicolon_exec(trim_chars(&rest));
                let item = if v.len() >= 2 && v[0] == '"' && v[v.len() - 1] == '"' {
                    sub_chars(&v, 1, v.len() - 1)
                } else {
                    v
                };
                let ghost dirs = self.config.project.include_dirs@;
                self.config.project.include_dirs.push(string_from(&item));
                proof {
                    assert(self.config.project.include_dirs@.map_values(|s: String| s@)
                        =~= dirs.map_values(|s: String| s@).push(item@));
                }
            }
            return;
        }
        match find_char_exec(&line, ':', 0) {
            None => {},
            Some(ci) => {
                let key_part = sub_chars(&line, 0, ci);
                let key = trim_chars(&key_part);
                let val_part = sub_chars(&line, ci + 1, n);
                let v = strip_semicolon_exec(trim_chars(&val_part));
                if v.len() == 0 {
                    self.array_key = Some(key);
                } else {
                    let p = if v.len() >= 2 && v[0] == '"' && v[v.len() - 1] == '"' {
                        sub_chars(&v, 1, v.len() - 1)
                    } else {
                        v
                    };
                    set_value_exec(&mut self.config, &self.section, &key, &p);
                    self.array_key = None;
                }
            },
        }
    }
}

/// Reads a project file's settings: lines `[Section]`, `Key: value` and, under `Key:`, items
/// `- value`; `//` starts a comment. Every setting that the file does not give keeps its
/// default (see `read_config`).
pub fn parse_config_str(content: &str) -> (r: Result<IshConfig, IshError>)
    requires
        !config_fails(content@),
    ensures
        r matches Ok(c) && c@ == read_config(content@),
{
    let cs = chars_of(content);
    let mut reader = Reader {
        config: IshConfig::default(),
        section: chars_of("Project"),
        array_key: None,
    };
    proof {
        assert(reader@ == start_state());
    }
    let mut i: usize = 0;
    while i < cs.len()
        invariant
            cs@ == content@,
            i <= cs@.len(),
            read_from(start_state(), cs@, 0) == read_from(reader@, cs@, i as int),
            !fails_from(reader@, cs@, i as int),
        decreases cs.len() - i,
    {
        let j = match find_char_exec(&cs, '\n', i) {
            Some(j) => j,
            None => cs.len(),
        };
        let raw = sub_chars(&cs, i, j);
        let ghost before = reader@;
        proof {
            assert(line_end(cs@, i as int) == j);
            assert(read_from(before, cs@, i as int) == read_from(
                read_line(before, raw@),
                cs@,
                j + 1,
            ));
        }
        reader.read_line(&raw);
        proof {
            if j == cs@.len() {
                assert(read_from(reader@, cs@, j + 1) == reader@);
                assert(read_from(reader@, cs@, j as int) == reader@);
                assert(!fails_from(reader@, cs@, j as int));
            }
        }
        i = if j < cs.len() {
            j + 1
        } else {
            cs.len()
        };
    }
    Ok(reader.config)
}

} // verus!

verus! {

impl Reader {
    /// Whether the line is an item that the reader cannot take apart (see `line_fails`).
    fn line_fails(&self, raw: &Vec<char>) -> (r: bool)
        ensures
            r == line_fails(self@, raw@),
    {
        let cut = comment_start_exec(raw);
        let before = sub_chars(raw, 0, cut);
        let line = trim_chars(&before);
        let n = line.len();
        proof {
            assert(line@ == content_of(raw@));
        }
        if n == 0 || (line[0] == '[' && line[n - 1] == ']') || line[0] != '-' || self.array_key.is_none() {
            return false;
        }
        let rest = sub_chars(&line, 1, n);
        proof {
            assert(rest@ =~= line@.drop_first());
        }
        let v = strip_semicolon_exec(trim_chars(&rest));
        let r = v.len() == 1 && v[0] == '"';
        proof {
            if v@.len() == 1 && v@[0] == '"' {
                assert(v@ =~= seq!['"']);
            }
        }
        r
    }
}

/// Whether a project file holds an item line that the reader cannot take apart (see
/// `config_fails`); `parse_config_str` reads every other text.
pub fn config_has_bad_item(content: &str) -> (r: bool)
    ensures
        r == config_fails(content@),
{
    let cs = chars_of(content);
    let mut reader = Reader {
        config: IshConfig::default(),
        section: chars_of("Project"),
        array_key: None,
    };
    proof {
        assert(reader@ == start_state());
    }
    let mut i: usize = 0;
    while i < cs.len()
        invariant
            cs@ == content@,
            i <= cs@.len(),
            fails_from(start_state(), cs@, 0) == fails_from(reader@, cs@, i as int),
        decreases cs.len() - i,
    {
        let j = match find_char_exec(&cs, '\n', i) {
            Some(j) => j,
            None => cs.len(),
        };
        let raw = sub_chars(&cs, i, j);
        let ghost before = reader@;
        proof {
            assert(line_end(cs@, i as int) == j);
        }
        if reader.line_fails(&raw) {
            return true;
        }
        reader.read_line(&raw);
        proof {
            if j == cs@.len() {
                assert(fails_from(reader@, cs@, j + 1) == false);
                assert(fails_from(reader@, cs@, j as int) == false);
            }
        }
        i = if j < cs.len() {
            j + 1
        } else {
            cs.len()
        };
    }
    false
}

} // verus!

verus! {

/// `find_char` reaches the first `c` at or after `i`.
pub(crate) proof fn lemma_find_char_at(s: Seq<char>, c: char, i: int, j: int)
    requires
        0 <= i <= j < s.len(),
        forall|k: int| i <= k < j ==> s[k] != c,
        s[j] == c,
    ensures
        find_char(s, c, i) == j,
    decreases j - i,
{
    if i < j {
        lemma_find_char_at(s, c, i + 1, j);
    }
}

/// Text appended after a `c` that `find_char` finds does not change what it finds.
pub(crate) proof fn lemma_find_char_prefix(a: Seq<char>, x: Seq<char>, c: char, i: int)
    requires
        0 <= i,
        find_char(a, c, i) >= 0,
    ensures
        find_char(a + x, c, i) == find_char(a, c, i),
    decreases a.len() - i,
{
    if i < a.len() && a[i] != c {
        lemma_find_char_prefix(a, x, c, i + 1);
    }
}

/// `find_char` gives -1 or an index from `i` on that holds `c`.
pub(crate) proof fn lemma_find_char_result(s: Seq<char>, c: char, i: int)
    ensures
        find_char(s, c, i) == -1 || (i <= find_char(s, c, i) < s.len() && s[find_char(s, c, i)]
            == c && forall|k: int| i <= k < find_char(s, c, i) ==> s[k] != c),
        0 <= i && find_char(s, c, i) == -1 ==> forall|k: int| i <= k < s.len() ==> s[k] != c,
    decreases s.len() - i,
{
    if 0 <= i < s.len() && s[i] != c {
        lemma_find_char_result(s, c, i + 1);
    }
}

} // verus!

verus! {

proof fn lemma_decimal_digits(n: nat)
    ensures
        decimal(n).len() > 0,
        all_digits(decimal(n)),
        digits_value(decimal(n)) == n,
    decreases n,
{
    if n < 10 {
        let d = decimal(n);
        assert(d.drop_last() =~= Seq::<char>::empty());
        assert(digit_char(n as int) as nat == 48 + n);
        assert(d.last() == digit_char(n as int));
        assert(digits_value(d) == digits_value(d.drop_last()) * 10 + n);
    } else {
        lemma_decimal_digits(n / 10);
        let d = decimal(n);
        assert(d.drop_last() =~= decimal(n / 10));
        assert(digit_char((n % 10) as int) as nat == 48 + n % 10);
        assert(d.last() == digit_char((n % 10) as int));
        assert(n == (n / 10) * 10 + n % 10) by (nonlinear_arith);
        assert(digits_value(d) == digits_value(decimal(n / 10)) * 10 + n % 10);
        assert forall|i: int| 0 <= i < d.len() implies '0' <= #[trigger] d[i] <= '9' by {
            if i < d.len() - 1 {
                assert(d[i] == decimal(n / 10)[i]);
            }
        }
    }
}

/// A number written in decimal (as `usize_text` writes it) reads back as the same number.
pub proof fn lemma_number_round_trip(n: usize)
    ensures
        parse_usize(decimal(n as nat)) == Some(n),
{
    lemma_decimal_digits(n as nat);
    let d = decimal(n as nat);
    assert('0' <= d[0] <= '9');
}

} // verus!
