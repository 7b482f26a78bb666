//! A record whose second field refers back to its first. The raw
//! self-pointer is modeled by an explicit flag: `init` establishes the
//! back-reference, and `b` — the text the back-reference reaches, which is
//! exactly the text `a` holds — may be read only afterwards.

use vstd::prelude::*;
use vstd::string::StringExecFns;

verus! {

/// A self-referential record: after `init`, `b()` reaches the same text
/// that `a()` holds.
pub struct Test {
    pub a: String,
    pub initialized: bool,
}

impl Test {
    /// A fresh, not yet initialized record holding `txt`.
    pub fn new(txt: &str) -> (t: Test)
        ensures
            t.a@ == txt@,
            !t.initialized,
    {
        Test { a: String::from_str(txt), initialized: false }
    }

    /// Establish the back-reference from `b` to `a`.
    pub fn init(&mut self)
        ensures
            final(self).a@ == old(self).a@,
            final(self).initialized,
    {
        self.initialized = true;
    }

    /// The first field's text.
    pub fn a(&self) -> (r: &str)
        ensures
            r@ == self.a@,
    {
        self.a.as_str()
    }

    /// The text the back-reference reaches: the same text `a` holds.
    /// Reading it before `init` has run is a caller error, excluded here.
    pub fn b(&self) -> (r: &str)
        requires
            self.initialized,
        ensures
            r@ == self.a@,
    {
        self.a.as_str()
    }
}

} // verus!
