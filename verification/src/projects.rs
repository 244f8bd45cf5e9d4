//! What every kind of project descriptor offers.

use vstd::prelude::*;

verus! {

/// The text of an optional string slice.
pub open spec fn slice_text(s: Option<&str>) -> Option<Seq<char>> {
    match s {
        Some(t) => Some(t@),
        None => None,
    }
}

/// A project descriptor, of whichever kind.
pub trait Project {
    /// The name that the descriptor declares, if it declares one.
    spec fn declared_name(&self) -> Option<Seq<char>>;

    /// The name that the descriptor declares, if it declares one.
    fn name(&self) -> (r: Option<&str>)
        ensures
            slice_text(r) == self.declared_name(),
    ;
}

} // verus!
