use vstd::prelude::*;
use crate::runtime::value::{distinct_names, Entries, IshValue};
use crate::text::string_eq_str;

verus! {

/// Where `name` first occurs among `entries`, looking from position `i` on, or -1.
pub open spec fn find_from(entries: Seq<(String, IshValue)>, name: Seq<char>, i: nat) -> int
    decreases entries.len() - i,
{
    if i >= entries.len() {
        -1
    } else if entries[i as int].0@ == name {
        i as int
    } else {
        find_from(entries, name, i + 1)
    }
}

/// Where `name` occurs among `entries`, or -1.
pub open spec fn entry_index(entries: Seq<(String, IshValue)>, name: Seq<char>) -> int {
    find_from(entries, name, 0)
}

/// The value that `entries` give `name`.
pub open spec fn entry_value(entries: Seq<(String, IshValue)>, name: Seq<char>) -> Option<
    IshValue,
> {
    let k = entry_index(entries, name);
    if k < 0 {
        None
    } else {
        Some(entries[k].1)
    }
}

/// `entries` with the value of `name`, where it occurs, replaced by `v`.
pub open spec fn set_entry(entries: Seq<(String, IshValue)>, name: Seq<char>, v: IshValue) -> Seq<
    (String, IshValue),
> {
    let k = entry_index(entries, name);
    if k < 0 {
        entries
    } else {
        entries.update(k, (entries[k].0, v))
    }
}

/// `entries` with `name` bound to `v`: replaced where it occurs, added at the end otherwise.
pub open spec fn put_entry(entries: Seq<(String, IshValue)>, name: String, v: IshValue) -> Seq<
    (String, IshValue),
> {
    if entry_index(entries, name@) < 0 {
        entries.push((name, v))
    } else {
        set_entry(entries, name@, v)
    }
}

/// `entries` without `name`.
pub open spec fn drop_entry(entries: Seq<(String, IshValue)>, name: Seq<char>) -> Seq<
    (String, IshValue),
> {
    let k = entry_index(entries, name);
    if k < 0 {
        entries
    } else {
        entries.remove(k)
    }
}

/// The value of `name` in the scopes below `hi` and at or above `lo`, the innermost first.
pub open spec fn scan(frames: Seq<Seq<(String, IshValue)>>, hi: int, lo: int, name: Seq<char>) -> Option<
    IshValue,
>
    decreases hi - lo,
{
    if hi <= lo || hi <= 0 {
        None
    } else {
        match entry_value(frames[hi - 1], name) {
            Some(v) => Some(v),
            None => scan(frames, hi - 1, lo, name),
        }
    }
}

/// The value that a name has in sight: in the scopes of the innermost function (those from
/// `base` on), the innermost first, then, inside a function, in the global scope.
pub open spec fn visible(frames: Seq<Seq<(String, IshValue)>>, base: int, name: Seq<char>) -> Option<
    IshValue,
> {
    match scan(frames, frames.len() as int, base, name) {
        Some(v) => Some(v),
        None => if base != 0 {
            entry_value(frames[0], name)
        } else {
            None
        },
    }
}

/// The innermost scope below `hi` that holds `name`, or -1.
pub open spec fn holder(frames: Seq<Seq<(String, IshValue)>>, hi: int, name: Seq<char>) -> int
    decreases hi,
{
    if hi <= 0 {
        -1
    } else if entry_index(frames[hi - 1], name) >= 0 {
        hi - 1
    } else {
        holder(frames, hi - 1, name)
    }
}

/// The object that `this` names, looking through the scopes in sight as `visible` does, and
/// passing over scopes where `this` is not a reference.
pub open spec fn scan_this(frames: Seq<Seq<(String, IshValue)>>, hi: int, lo: int) -> Option<usize>
    decreases hi - lo,
{
    if hi <= lo || hi <= 0 {
        None
    } else {
        match entry_value(frames[hi - 1], seq!['t', 'h', 'i', 's']) {
            Some(IshValue::Reference(id)) => Some(id),
            _ => scan_this(frames, hi - 1, lo),
        }
    }
}

/// The object that `this` names in sight.
pub open spec fn visible_this(frames: Seq<Seq<(String, IshValue)>>, base: int) -> Option<usize> {
    match scan_this(frames, frames.len() as int, base) {
        Some(id) => Some(id),
        None => if base != 0 {
            match entry_value(frames[0], seq!['t', 'h', 'i', 's']) {
                Some(IshValue::Reference(id)) => Some(id),
                _ => None,
            }
        } else {
            None
        },
    }
}

proof fn lemma_find_from(entries: Seq<(String, IshValue)>, name: Seq<char>, i: nat)
    ensures
        find_from(entries, name, i) == -1 || (i <= find_from(entries, name, i) < entries.len()
            && entries[find_from(entries, name, i)].0@ == name),
        forall|j: int|
            i <= j < entries.len() && (find_from(entries, name, i) == -1 || j < find_from(
                entries,
                name,
                i,
            )) ==> #[trigger] entries[j].0@ != name,
    decreases entries.len() - i,
{
    if i < entries.len() && entries[i as int].0@ != name {
        lemma_find_from(entries, name, i + 1);
    }
}

/// Two sequences of entries with the same names at each position find a name at the same place.
proof fn lemma_find_same_names(a: Seq<(String, IshValue)>, b: Seq<(String, IshValue)>, name: Seq<char>, i: nat)
    requires
        a.len() == b.len(),
        forall|j: int| 0 <= j < a.len() ==> (#[trigger] a[j]).0@ == b[j].0@,
    ensures
        find_from(a, name, i) == find_from(b, name, i),
    decreases a.len() - i,
{
    if i < a.len() {
        assert(a[i as int].0@ == b[i as int].0@);
        lemma_find_same_names(a, b, name, i + 1);
    }
}

pub(crate) proof fn lemma_index_facts(entries: Seq<(String, IshValue)>, name: Seq<char>)
    ensures
        entry_index(entries, name) == -1 || (0 <= entry_index(entries, name) < entries.len()
            && entries[entry_index(entries, name)].0@ == name),
        entry_index(entries, name) == -1 ==> forall|j: int|
            0 <= j < entries.len() ==> #[trigger] entries[j].0@ != name,
        entry_index(entries, name) >= 0 ==> forall|j: int|
            0 <= j < entry_index(entries, name) ==> #[trigger] entries[j].0@ != name,
{
    lemma_find_from(entries, name, 0);
}

/// In distinct entries, a name found somewhere is found there.
proof fn lemma_index_unique(entries: Seq<(String, IshValue)>, name: Seq<char>, k: int)
    requires
        distinct_names(entries),
        0 <= k < entries.len(),
        entries[k].0@ == name,
    ensures
        entry_index(entries, name) == k,
{
    lemma_index_facts(entries, name);
    let e = entry_index(entries, name);
    if e != k {
        if e >= 0 {
            if e < k {
                assert(entries[e].0@ != entries[k].0@);
            } else {
                assert(entries[k].0@ != entries[e].0@);
            }
        }
    }
}

/// Replacing a value keeps the names, and the name then has the new value.
pub(crate) proof fn lemma_set_entry(entries: Seq<(String, IshValue)>, name: Seq<char>, v: IshValue)
    ensures
        set_entry(entries, name, v).len() == entries.len(),
        forall|j: int|
            0 <= j < entries.len() ==> (#[trigger] set_entry(entries, name, v)[j]).0@
                == entries[j].0@,
        entry_index(set_entry(entries, name, v), name) == entry_index(entries, name),
        entry_index(entries, name) >= 0 ==> entry_value(set_entry(entries, name, v), name) == Some(
            v,
        ),
        distinct_names(entries) ==> distinct_names(set_entry(entries, name, v)),
{
    lemma_index_facts(entries, name);
    let s = set_entry(entries, name, v);
    assert forall|j: int| 0 <= j < entries.len() implies (#[trigger] s[j]).0@ == entries[j].0@ by {}
    lemma_find_same_names(s, entries, name, 0);
}

/// Binding a name in distinct entries keeps them distinct, and the name then has the value.
pub(crate) proof fn lemma_put_entry(entries: Seq<(String, IshValue)>, name: String, v: IshValue)
    requires
        distinct_names(entries),
    ensures
        distinct_names(put_entry(entries, name, v)),
        entry_value(put_entry(entries, name, v), name@) == Some(v),
{
    lemma_index_facts(entries, name@);
    if entry_index(entries, name@) < 0 {
        let p = entries.push((name, v));
        assert forall|i: int, j: int| 0 <= i < j < p.len() implies #[trigger] p[i].0@ != #[trigger] p[j].0@ by {
            if j == entries.len() {
                assert(entries[i].0@ != name@);
            } else {
                assert(entries[i].0@ != entries[j].0@);
            }
        }
        lemma_index_unique(p, name@, entries.len() as int);
    } else {
        lemma_set_entry(entries, name@, v);
    }
}

/// Dropping a name from distinct entries keeps them distinct.
proof fn lemma_drop_entry(entries: Seq<(String, IshValue)>, name: Seq<char>)
    requires
        distinct_names(entries),
    ensures
        distinct_names(drop_entry(entries, name)),
        entry_value(drop_entry(entries, name), name) is None,
{
    lemma_index_facts(entries, name);
    let k = entry_index(entries, name);
    let d = drop_entry(entries, name);
    if k >= 0 {
        assert forall|i: int, j: int| 0 <= i < j < d.len() implies #[trigger] d[i].0@ != #[trigger] d[j].0@ by {
            let a = if i < k { i } else { i + 1 };
            let b = if j < k { j } else { j + 1 };
            assert(entries[a].0@ != entries[b].0@);
        }
        lemma_index_facts(d, name);
        if entry_index(d, name) >= 0 {
            let m = entry_index(d, name);
            let a = if m < k { m } else { m + 1 };
            if a < k {
                assert(entries[a].0@ != entries[k].0@);
            } else {
                assert(entries[k].0@ != entries[a].0@);
            }
        }
    } else {
        lemma_index_facts(d, name);
    }
}

/// The same value as `v`.
pub fn clone_value(v: &IshValue) -> (r: IshValue)
    ensures
        r == *v,
{
    match v {
        IshValue::String(s) => IshValue::String(s.clone()),
        IshValue::Int(i) => IshValue::Int(*i),
        IshValue::Float(f) => IshValue::Float(*f),
        IshValue::Bool(b) => IshValue::Bool(*b),
        IshValue::Char(c) => IshValue::Char(*c),
        IshValue::Null => IshValue::Null,
        IshValue::Reference(id) => IshValue::Reference(*id),
        IshValue::TypeRef(t) => IshValue::TypeRef(t.clone()),
    }
}

/// Where `name` occurs among `entries`.
fn index_of(entries: &Entries, name: &str) -> (r: Option<usize>)
    ensures
        match r {
            Some(k) => k == entry_index(entries@, name@),
            None => entry_index(entries@, name@) < 0,
        },
{
    let mut i: usize = 0;
    while i < entries.len()
        invariant
            i <= entries.len(),
            find_from(entries@, name@, 0) == find_from(entries@, name@, i as nat),
        decreases entries.len() - i,
    {
        if string_eq_str(&entries[i].0, name) {
            return Some(i);
        }
        i += 1;
    }
    None
}

/// The value that `entries` give `name`.
pub fn entry_get(entries: &Entries, name: &str) -> (r: Option<IshValue>)
    ensures
        r == entry_value(entries@, name@),
{
    proof {
        lemma_index_facts(entries@, name@);
    }
    match index_of(entries, name) {
        Some(k) => Some(clone_value(&entries[k].1)),
        None => None,
    }
}

/// The value that `entries` give `this`.
fn this_entry(entries: &Entries) -> (r: Option<IshValue>)
    ensures
        r == entry_value(entries@, seq!['t', 'h', 'i', 's']),
{
    proof {
        reveal_strlit("this");
        assert("this"@ =~= seq!['t', 'h', 'i', 's']);
    }
    entry_get(entries, "this")
}

/// Binds `name` to `v` among `entries`.
pub(crate) fn put(entries: &mut Entries, name: String, v: IshValue)
    ensures
        final(entries)@ == put_entry(old(entries)@, name, v),
{
    proof {
        lemma_index_facts(entries@, name@);
    }
    match index_of(entries, name.as_str()) {
        Some(k) => {
            let key = entries[k].0.clone();
            entries.set(k, (key, v));
        },
        None => {
            entries.push((name, v));
        },
    }
}

/// Replaces the value of `name` among `entries`, where it occurs.
fn set_at(entries: &mut Entries, k: usize, v: IshValue)
    requires
        k < old(entries)@.len(),
    ensures
        final(entries)@ == old(entries)@.update(k as int, (old(entries)@[k as int].0, v)),
{
    let key = entries[k].0.clone();
    entries.set(k, (key, v));
}

/// The variables of a running program: a stack of scopes, the innermost last, each binding
/// names to values, and the stack of indices at which the scopes of each function call begin.
pub struct Scopes {
    pub frames: Vec<Entries>,
    pub bases: Vec<usize>,
}

impl Scopes {
    /// The scopes, each as the sequence of its bindings.
    pub open spec fn vars(&self) -> Seq<Seq<(String, IshValue)>> {
        self.frames@.map_values(|f: Entries| f@)
    }

    /// The first scope of the innermost function call (0 outside any call).
    pub open spec fn base(&self) -> int {
        if self.bases@.len() == 0 {
            0
        } else {
            self.bases@.last() as int
        }
    }

    /// No scope binds a name twice.
    pub open spec fn wf(&self) -> bool {
        forall|i: int| 0 <= i < self.vars().len() ==> distinct_names(#[trigger] self.vars()[i])
    }

    /// One global scope, outside any function call.
    pub fn new() -> (s: Self)
        ensures
            s.wf(),
            s.vars() == seq![Seq::<(String, IshValue)>::empty()],
            s.bases@ == seq![0usize],
    {
        let mut frames: Vec<Entries> = Vec::new();
        frames.push(Vec::new());
        let mut bases: Vec<usize> = Vec::new();
        bases.push(0);
        let s = Scopes { frames, bases };
        proof {
            assert(s.vars() =~= seq![Seq::<(String, IshValue)>::empty()]);
        }
        s
    }

    /// Opens an empty innermost scope.
    pub fn push_scope(&mut self)
        requires
            old(self).wf(),
        ensures
            final(self).wf(),
            final(self).vars() == old(self).vars().push(Seq::empty()),
            final(self).bases == old(self).bases,
    {
        self.frames.push(Vec::new());
        proof {
            assert(self.vars() =~= old(self).vars().push(Seq::empty()));
        }
    }

    /// Closes the innermost scope and gives back its bindings (nothing where no scope is open).
    pub fn pop_scope(&mut self) -> (r: Option<Entries>)
        requires
            old(self).wf(),
        ensures
            final(self).wf(),
            final(self).bases == old(self).bases,
            old(self).vars().len() == 0 ==> r is None && final(self).vars() == old(self).vars(),
            old(self).vars().len() > 0 ==> r is Some && r.unwrap()@ == old(self).vars().last()
                && final(self).vars() == old(self).vars().drop_last(),
    {
        let r = self.frames.pop();
        proof {
            if old(self).vars().len() > 0 {
                assert(self.vars() =~= old(self).vars().drop_last());
            }
        }
        r
    }

    /// Enters a function call: opens its first scope, from which the variables in sight begin.
    pub fn enter_function(&mut self)
        requires
            old(self).wf(),
        ensures
            final(self).wf(),
            final(self).vars() == old(self).vars().push(Seq::empty()),
            final(self).bases@ == old(self).bases@.push(old(self).vars().len() as usize),
    {
        self.frames.push(Vec::new());
        let top = self.frames.len() - 1;
        self.bases.push(top);
        proof {
            assert(self.vars() =~= old(self).vars().push(Seq::empty()));
        }
    }

    /// Leaves a function call: forgets where its scopes begin and closes its innermost scope,
    /// giving back its bindings.
    pub fn leave_function(&mut self) -> (r: Option<Entries>)
        requires
            old(self).wf(),
        ensures
            final(self).wf(),
            final(self).bases@ == (if old(self).bases@.len() == 0 {
                old(self).bases@
            } else {
                old(self).bases@.drop_last()
            }),
            old(self).vars().len() == 0 ==> r is None && final(self).vars() == old(self).vars(),
            old(self).vars().len() > 0 ==> r is Some && r.unwrap()@ == old(self).vars().last()
                && final(self).vars() == old(self).vars().drop_last(),
    {
        self.bases.pop();
        let r = self.frames.pop();
        proof {
            if old(self).vars().len() > 0 {
                assert(self.vars() =~= old(self).vars().drop_last());
            }
        }
        r
    }

    /// Declares `name` with value `v` in the innermost scope (replacing a binding of it there);
    /// with no scope open, nothing happens.
    pub fn declare(&mut self, name: String, v: IshValue)
        requires
            old(self).wf(),
        ensures
            final(self).wf(),
            final(self).bases == old(self).bases,
            final(self).vars() == (if old(self).vars().len() == 0 {
                old(self).vars()
            } else {
                old(self).vars().update(
                    old(self).vars().len() - 1,
                    put_entry(old(self).vars().last(), name, v),
                )
            }),
    {
        let n = self.frames.len();
        if n > 0 {
            proof {
                assert(self.vars()[n - 1] == self.frames@[n - 1]@);
                lemma_put_entry(self.vars()[n - 1], name, v);
            }
            put(&mut self.frames[n - 1], name, v);
            proof {
                assert(self.vars() =~= old(self).vars().update(
                    n - 1,
                    put_entry(old(self).vars().last(), name, v),
                ));
                assert forall|i: int| 0 <= i < self.vars().len() implies distinct_names(
                    #[trigger] self.vars()[i],
                ) by {
                    if i != n - 1 {
                        assert(self.vars()[i] == old(self).vars()[i]);
                    }
                }
            }
        }
    }

    /// Forgets the binding of `name` in the innermost scope, if any.
    pub fn remove(&mut self, name: &str)
        requires
            old(self).wf(),
        ensures
            final(self).wf(),
            final(self).bases == old(self).bases,
            final(self).vars() == (if old(self).vars().len() == 0 {
                old(self).vars()
            } else {
                old(self).vars().update(
                    old(self).vars().len() - 1,
                    drop_entry(old(self).vars().last(), name@),
                )
            }),
    {
        let n = self.frames.len();
        if n > 0 {
            proof {
                assert(self.vars()[n - 1] == self.frames@[n - 1]@);
                lemma_drop_entry(self.vars()[n - 1], name@);
                lemma_index_facts(self.vars()[n - 1], name@);
            }
            match index_of(&self.frames[n - 1], name) {
                Some(k) => {
                    let _ = self.frames[n - 1].remove(k);
                },
                None => {},
            }
            proof {
                assert(self.vars() =~= old(self).vars().update(
                    n - 1,
                    drop_entry(old(self).vars().last(), name@),
                ));
                assert forall|i: int| 0 <= i < self.vars().len() implies distinct_names(
                    #[trigger] self.vars()[i],
                ) by {
                    if i != n - 1 {
                        assert(self.vars()[i] == old(self).vars()[i]);
                    }
                }
            }
        }
    }

    /// The value of `name` in sight: in the scopes of the innermost function call, the
    /// innermost first, then, inside a call, in the global scope.
    pub fn lookup(&self, name: &str) -> (r: Option<IshValue>)
        requires
            self.base() != 0 ==> self.vars().len() > 0,
        ensures
            r == visible(self.vars(), self.base(), name@),
    {
        let base: usize = if self.bases.len() == 0 {
            0
        } else {
            self.bases[self.bases.len() - 1]
        };
        let ghost fr = self.vars();
        let mut hi = self.frames.len();
        while hi > base
            invariant
                fr == self.vars(),
                hi <= fr.len(),
                base == self.base(),
                scan(fr, fr.len() as int, base as int, name@) == scan(
                    fr,
                    hi as int,
                    base as int,
                    name@,
                ),
            decreases hi,
        {
            proof {
                assert(fr[hi - 1] == self.frames@[hi - 1]@);
            }
            let found = entry_get(&self.frames[hi - 1], name);
            if found.is_some() {
                return found;
            }
            hi -= 1;
        }
        if base != 0 {
            proof {
                assert(fr[0] == self.frames@[0]@);
            }
            entry_get(&self.frames[0], name)
        } else {
            None
        }
    }

    /// The value of `name` in the innermost scope that binds it, whether in sight or not.
    pub fn innermost(&self, name: &str) -> (r: Option<IshValue>)
        ensures
            r == (if holder(self.vars(), self.vars().len() as int, name@) < 0 {
                None
            } else {
                entry_value(self.vars()[holder(self.vars(), self.vars().len() as int, name@)], name@)
            }),
    {
        let ghost fr = self.vars();
        let mut hi = self.frames.len();
        while hi > 0
            invariant
                fr == self.vars(),
                hi <= fr.len(),
                holder(fr, fr.len() as int, name@) == holder(fr, hi as int, name@),
            decreases hi,
        {
            proof {
                assert(fr[hi - 1] == self.frames@[hi - 1]@);
                lemma_index_facts(fr[hi - 1], name@);
            }
            let found = entry_get(&self.frames[hi - 1], name);
            if found.is_some() {
                return found;
            }
            hi -= 1;
        }
        None
    }

    /// Gives `name` the value `v` in the innermost scope that binds it, whether in sight or not;
    /// false, with nothing changed, where no scope binds it.
    pub fn assign(&mut self, name: &str, v: IshValue) -> (found: bool)
        requires
            old(self).wf(),
        ensures
            final(self).wf(),
            final(self).bases == old(self).bases,
            found == (holder(old(self).vars(), old(self).vars().len() as int, name@) >= 0),
            found ==> final(self).vars() == old(self).vars().update(
                holder(old(self).vars(), old(self).vars().len() as int, name@),
                set_entry(
                    old(self).vars()[holder(
                        old(self).vars(),
                        old(self).vars().len() as int,
                        name@,
                    )],
                    name@,
                    v,
                ),
            ),
            !found ==> final(self).vars() == old(self).vars(),
    {
        let ghost fr = self.vars();
        let mut hi = self.frames.len();
        while hi > 0
            invariant
                fr == self.vars(),
                *self == *old(self),
                self.wf(),
                hi <= fr.len(),
                holder(fr, fr.len() as int, name@) == holder(fr, hi as int, name@),
            decreases hi,
        {
            proof {
                assert(fr[hi - 1] == self.frames@[hi - 1]@);
            }
            match index_of(&self.frames[hi - 1], name) {
                Some(k) => {
                    proof {
                        assert(distinct_names(fr[hi - 1]));
                        lemma_index_facts(fr[hi - 1], name@);
                        lemma_set_entry(fr[hi - 1], name@, v);
                    }
                    set_at(&mut self.frames[hi - 1], k, v);
                    proof {
                        assert(self.vars() =~= fr.update(
                            hi - 1,
                            set_entry(fr[hi - 1], name@, v),
                        ));
                        assert forall|i: int| 0 <= i < self.vars().len() implies distinct_names(
                            #[trigger] self.vars()[i],
                        ) by {
                            if i != hi - 1 {
                                assert(self.vars()[i] == fr[i]);
                            }
                        }
                    }
                    return true;
                },
                None => {},
            }
            hi -= 1;
        }
        false
    }

    /// Edits, in place, the string that `name` holds in the innermost scope binding it, whether
    /// in sight or not: empties it (`clear`), or appends `suffix` where one is given. False,
    /// with nothing changed, where that binding holds no string.
    pub fn edit_text(&mut self, name: &str, clear: bool, suffix: Option<&str>) -> (edited: bool)
        requires
            old(self).wf(),
        ensures
            final(self).wf(),
            final(self).bases == old(self).bases,
            ({
                let h = holder(old(self).vars(), old(self).vars().len() as int, name@);
                &&& edited == (h >= 0 && entry_value(old(self).vars()[h], name@) matches Some(
                    IshValue::String(_),
                ))
                &&& !edited ==> final(self).vars() == old(self).vars()
                &&& edited ==> (entry_value(old(self).vars()[h], name@) matches Some(
                    IshValue::String(s0),
                ) && entry_value(final(self).vars()[h], name@) matches Some(IshValue::String(s1))
                    && s1@ == (if clear {
                    Seq::empty()
                } else {
                    match suffix {
                        Some(t) => s0@ + t@,
                        None => s0@,
                    }
                }) && final(self).vars() == old(self).vars().update(
                    h,
                    set_entry(
                        old(self).vars()[h],
                        name@,
                        entry_value(final(self).vars()[h], name@).unwrap(),
                    ),
                ))
            }),
    {
        let ghost fr = self.vars();
        proof {
            lemma_holder(fr, fr.len() as int, name@);
        }
        let mut hi = self.frames.len();
        while hi > 0
            invariant
                fr == self.vars(),
                *self == *old(self),
                self.wf(),
                hi <= fr.len(),
                holder(fr, fr.len() as int, name@) == holder(fr, hi as int, name@),
            decreases hi,
        {
            proof {
                assert(fr[hi - 1] == self.frames@[hi - 1]@);
            }
            match index_of(&self.frames[hi - 1], name) {
                Some(k) => {
                    proof {
                        lemma_index_facts(fr[hi - 1], name@);
                    }
                    let new_text = match &self.frames[hi - 1][k].1 {
                        IshValue::String(s) => {
                            if clear {
                                String::new()
                            } else {
                                match suffix {
                                    Some(t) => crate::text::concat(s.clone(), t),
                                    None => s.clone(),
                                }
                            }
                        },
                        _ => {
                            return false;
                        },
                    };
                    let ghost nv = IshValue::String(new_text);
                    proof {
                        assert(distinct_names(fr[hi - 1]));
                        lemma_index_facts(fr[hi - 1], name@);
                        lemma_set_entry(fr[hi - 1], name@, nv);
                    }
                    set_at(&mut self.frames[hi - 1], k, IshValue::String(new_text));
                    proof {
                        assert(self.vars() =~= fr.update(hi - 1, set_entry(fr[hi - 1], name@, nv)));
                        assert(self.vars()[hi - 1] == set_entry(fr[hi - 1], name@, nv));
                        assert forall|i: int| 0 <= i < self.vars().len() implies distinct_names(
                            #[trigger] self.vars()[i],
                        ) by {
                            if i != hi - 1 {
                                assert(self.vars()[i] == fr[i]);
                            }
                        }
                    }
                    return true;
                },
                None => {},
            }
            hi -= 1;
        }
        false
    }

    /// The object that `this` names in the innermost scope where it names one, whether in sight
    /// or not.
    pub fn this_anywhere(&self) -> (r: Option<usize>)
        ensures
            r == scan_this(self.vars(), self.vars().len() as int, 0),
    {
        let ghost fr = self.vars();
        let mut hi = self.frames.len();
        while hi > 0
            invariant
                fr == self.vars(),
                hi <= fr.len(),
                scan_this(fr, fr.len() as int, 0) == scan_this(fr, hi as int, 0),
            decreases hi,
        {
            proof {
                assert(fr[hi - 1] == self.frames@[hi - 1]@);
            }
            match this_entry(&self.frames[hi - 1]) {
                Some(IshValue::Reference(id)) => {
                    return Some(id);
                },
                _ => {},
            }
            hi -= 1;
        }
        None
    }

    /// The object that `this` names in sight, passing over scopes where `this` is no reference.
    pub fn this_object(&self) -> (r: Option<usize>)
        requires
            self.base() != 0 ==> self.vars().len() > 0,
        ensures
            r == visible_this(self.vars(), self.base()),
    {
        let base: usize = if self.bases.len() == 0 {
            0
        } else {
            self.bases[self.bases.len() - 1]
        };
        let ghost fr = self.vars();
        let mut hi = self.frames.len();
        while hi > base
            invariant
                fr == self.vars(),
                hi <= fr.len(),
                base == self.base(),
                scan_this(fr, fr.len() as int, base as int) == scan_this(
                    fr,
                    hi as int,
                    base as int,
                ),
            decreases hi,
        {
            proof {
                assert(fr[hi - 1] == self.frames@[hi - 1]@);
            }
            match this_entry(&self.frames[hi - 1]) {
                Some(IshValue::Reference(id)) => {
                    return Some(id);
                },
                _ => {},
            }
            hi -= 1;
        }
        if base != 0 {
            proof {
                assert(fr[0] == self.frames@[0]@);
            }
            match this_entry(&self.frames[0]) {
                Some(IshValue::Reference(id)) => Some(id),
                _ => None,
            }
        } else {
            None
        }
    }
}


pub(crate) proof fn lemma_holder(frames: Seq<Seq<(String, IshValue)>>, hi: int, name: Seq<char>)
    requires
        hi >= 0,
    ensures
        holder(frames, hi, name) < hi,
        holder(frames, hi, name) >= 0 ==> entry_index(frames[holder(frames, hi, name)], name)
            >= 0,
        forall|i: int|
            holder(frames, hi, name) < i < hi ==> entry_index(#[trigger] frames[i], name) < 0,
    decreases hi,
{
    if hi > 0 && entry_index(frames[hi - 1], name) < 0 {
        lemma_holder(frames, hi - 1, name);
    }
}

/// Scopes that do not bind a name are passed over in a search.
proof fn lemma_scan_skip(
    frames: Seq<Seq<(String, IshValue)>>,
    hi: int,
    mid: int,
    lo: int,
    name: Seq<char>,
)
    requires
        lo <= mid <= hi,
        0 <= mid,
        forall|i: int| mid <= i < hi ==> entry_index(#[trigger] frames[i], name) < 0,
    ensures
        scan(frames, hi, lo, name) == scan(frames, mid, lo, name),
    decreases hi - mid,
{
    if hi > mid {
        assert(entry_index(frames[hi - 1], name) < 0);
        lemma_scan_skip(frames, hi - 1, mid, lo, name);
    }
}

/// A variable just declared in the innermost scope is read back with the value given, while
/// that scope is in sight.
pub proof fn lemma_declared_in_sight(
    vars: Seq<Seq<(String, IshValue)>>,
    base: int,
    name: String,
    v: IshValue,
)
    requires
        0 <= base < vars.len(),
        distinct_names(vars.last()),
    ensures
        visible(vars.update(vars.len() - 1, put_entry(vars.last(), name, v)), base, name@)
            == Some(v),
{
    lemma_put_entry(vars.last(), name, v);
}

/// Closing a scope undoes opening it, whatever was declared in it meanwhile.
pub proof fn lemma_scope_undone(vars: Seq<Seq<(String, IshValue)>>, name: String, v: IshValue)
    ensures
        ({
            let pushed = vars.push(Seq::empty());
            pushed.update(pushed.len() - 1, put_entry(pushed.last(), name, v)).drop_last()
        }) == vars,
{
    let pushed = vars.push(Seq::empty());
    assert(pushed.update(pushed.len() - 1, put_entry(pushed.last(), name, v)).drop_last() =~= vars);
}

/// An assignment is read back wherever the variable assigned is in sight: in a scope of the
/// innermost function call, or in the global scope.
pub proof fn lemma_assigned_in_sight(
    vars: Seq<Seq<(String, IshValue)>>,
    base: int,
    name: Seq<char>,
    v: IshValue,
)
    requires
        base >= 0,
        holder(vars, vars.len() as int, name) >= 0,
        holder(vars, vars.len() as int, name) >= base || holder(vars, vars.len() as int, name)
            == 0,
    ensures
        visible(
            vars.update(
                holder(vars, vars.len() as int, name),
                set_entry(vars[holder(vars, vars.len() as int, name)], name, v),
            ),
            base,
            name,
        ) == Some(v),
{
    let h = holder(vars, vars.len() as int, name);
    lemma_holder(vars, vars.len() as int, name);
    let after = vars.update(h, set_entry(vars[h], name, v));
    lemma_set_entry(vars[h], name, v);
    assert forall|i: int| h < i < vars.len() implies entry_index(#[trigger] after[i], name) < 0 by {
        assert(after[i] == vars[i]);
    }
    if h >= base {
        lemma_scan_skip(after, vars.len() as int, h + 1, base, name);
    } else if base < vars.len() {
        lemma_scan_skip(after, vars.len() as int, base, base, name);
    }
}

} // verus!
