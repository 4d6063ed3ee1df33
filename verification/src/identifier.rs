//! Identifiers of the parties that hold and present credentials.

use vstd::prelude::*;

verus! {

/// The name under which an identity is known to its peers.
#[derive(Debug, PartialEq, Eq)]
pub struct Identifier {
    pub value: String,
}

impl View for Identifier {
    type V = Seq<char>;

    open spec fn view(&self) -> Seq<char> {
        self.value@
    }
}

impl Clone for Identifier {
    fn clone(&self) -> (r: Identifier)
        ensures
            r@ == self@,
    {
        Identifier { value: self.value.clone() }
    }
}

impl Identifier {
    pub fn new(value: &str) -> (r: Identifier)
        ensures
            r@ == value@,
    {
        Identifier { value: value.to_owned() }
    }

    pub fn as_str(&self) -> (s: &str)
        ensures
            s@ == self@,
    {
        self.value.as_str()
    }

    /// Whether two identifiers are the same.
    pub fn equals(&self, other: &Identifier) -> (b: bool)
        ensures
            b == (self@ == other@),
    {
        self.value == other.value
    }
}

/// The view of an optional text.
pub open spec fn opt_text(o: Option<String>) -> Option<Seq<char>> {
    match o {
        Some(s) => Some(s@),
        None => None,
    }
}

/// The view of an optional identifier.
pub open spec fn opt_identifier(o: Option<Identifier>) -> Option<Seq<char>> {
    match o {
        Some(s) => Some(s@),
        None => None,
    }
}

/// A copy of an optional text.
pub fn clone_opt_text(o: &Option<String>) -> (r: Option<String>)
    ensures
        opt_text(r) == opt_text(*o),
{
    match o {
        Some(s) => Some(s.clone()),
        None => None,
    }
}

/// A copy of an optional identifier.
pub fn clone_opt_identifier(o: &Option<Identifier>) -> (r: Option<Identifier>)
    ensures
        opt_identifier(r) == opt_identifier(*o),
{
    match o {
        Some(s) => Some(s.clone()),
        None => None,
    }
}

} // verus!
