//! Account identities as the contracts see them: the textual form of an
//! address, compared by value.

use vstd::prelude::*;

verus! {

/// An account or contract address, held as its textual (strkey) form.
#[derive(Debug, PartialEq, Eq)]
pub struct Address {
    text: String,
}

impl View for Address {
    type V = Seq<char>;

    closed spec fn view(&self) -> Seq<char> {
        self.text@
    }
}

impl Address {
    /// Builds an address from its textual form.
    pub fn new(text: String) -> (r: Address)
        ensures
            r@ == text@,
    {
        Address { text }
    }

    /// The textual form of this address.
    pub fn as_text(&self) -> (r: &str)
        ensures
            r@ == self@,
    {
        self.text.as_str()
    }

    /// Whether two addresses denote the same account.
    pub fn same_as(&self, other: &Address) -> (r: bool)
        ensures
            r == (self@ == other@),
    {
        self.text == other.text
    }
}

/// The view of an optional address.
pub open spec fn opt_address_view(a: Option<Address>) -> Option<Seq<char>> {
    match a {
        Some(x) => Some(x@),
        None => None,
    }
}

impl Clone for Address {
    fn clone(&self) -> (r: Address)
        ensures
            r == *self,
    {
        Address { text: self.text.clone() }
    }
}

} // verus!
