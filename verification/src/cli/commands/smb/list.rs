use vstd::prelude::*;

verus! {

/// Arguments of the share-list command: none.
#[derive(Debug)]
pub struct ListArgs;

} // verus!
