use vstd::prelude::*;

verus! {

/// The title bar of the shell.
pub struct BannerBox {}

impl BannerBox {
    pub fn new() -> (b: Self) {
        BannerBox {}
    }

    /// The title it shows.
    pub fn title(&self) -> (t: &'static str)
        ensures
            t@ == "Ish - Intelli-Shell"@,
    {
        "Ish - Intelli-Shell"
    }
}

} // verus!
