//! Lists of names.

use vstd::prelude::*;

verus! {

/// The names that a list holds, each as the text that it is.
pub open spec fn names_of(list: Seq<String>) -> Seq<Seq<char>> {
    Seq::new(list.len(), |i: int| list[i]@)
}

} // verus!
