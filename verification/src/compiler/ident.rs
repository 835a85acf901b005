//! The names of variables.
use crate::table::Key;
use vstd::prelude::*;

verus! {

/// The name of a variable.
#[derive(Debug)]
pub struct Ident(String);

impl View for Ident {
    type V = Seq<char>;

    closed spec fn view(&self) -> Seq<char> {
        self.0@
    }
}

impl Ident {
    /// The name that this text spells.
    pub fn new(name: &str) -> (r: Self)
        ensures
            r@ == name@,
    {
        Ident(name.to_string())
    }

    /// The text of the name.
    pub fn as_str(&self) -> (r: &str)
        ensures
            r@ == self@,
    {
        self.0.as_str()
    }
}

impl Clone for Ident {
    fn clone(&self) -> (r: Self)
        ensures
            r == *self,
    {
        Ident(self.0.clone())
    }
}

impl vstd::std_specs::cmp::PartialEqSpecImpl for Ident {
    open spec fn obeys_eq_spec() -> bool {
        true
    }

    open spec fn eq_spec(&self, other: &Self) -> bool {
        self@ == other@
    }
}

impl PartialEq for Ident {
    fn eq(&self, other: &Self) -> (r: bool) {
        self.0 == other.0
    }
}

impl Key for Ident {
    fn same(&self, other: &Self) -> (r: bool) {
        self.0 == other.0
    }

    fn duplicate(&self) -> (r: Self) {
        self.clone()
    }

    proof fn unused(keys: Set<Seq<char>>) -> (r: Seq<char>) {
        crate::table::lemma_unused_text(keys, 0)
    }
}

} // verus!
