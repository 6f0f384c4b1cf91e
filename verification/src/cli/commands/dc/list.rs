use vstd::prelude::*;

verus! {

/// Arguments of the server-list command: none.
#[derive(Debug)]
pub struct ListArgs;

} // verus!
