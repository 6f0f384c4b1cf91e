use vstd::prelude::*;

verus! {

/// Arguments of the screen-clear command: none.
#[derive(Debug)]
pub struct ClearArgs;

} // verus!
