use vstd::prelude::*;

verus! {

/// A value of the language at run time. A float is held as the bits of its IEEE-754
/// single-precision encoding; a reference names an object on the collected heap.
#[derive(Debug, Clone, PartialEq)]
pub enum IshValue {
    String(String),
    Int(i32),
    Float(u32),
    Bool(bool),
    Char(char),
    Null,
    Reference(usize),
    TypeRef(String),
}

/// Named values, as a scope of variables or the properties of an object holds them.
pub type Entries = Vec<(String, IshValue)>;

/// Some value among `vals` refers to object `id`.
pub open spec fn refers(vals: Seq<IshValue>, id: usize) -> bool {
    exists|i: int| 0 <= i < vals.len() && vals[i] == IshValue::Reference(id)
}

/// Some named value among `entries` refers to object `id`.
pub open spec fn entry_refers(entries: Seq<(String, IshValue)>, id: usize) -> bool {
    exists|i: int| 0 <= i < entries.len() && entries[i].1 == IshValue::Reference(id)
}

/// No name occurs twice among `entries`.
pub open spec fn distinct_names(entries: Seq<(String, IshValue)>) -> bool {
    forall|i: int, j: int|
        0 <= i < j < entries.len() ==> #[trigger] entries[i].0@ != #[trigger] entries[j].0@
}

} // verus!
