//! What a caller asks for.

use vstd::prelude::*;

verus! {

/// A search: the text to look for and the collection to look in.
#[derive(Clone, Debug, PartialEq, Eq)]
pub struct VectorQueryModel {
    pub collection: String,
    pub query: String,
}

} // verus!
