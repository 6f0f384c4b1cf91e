use vstd::prelude::*;

verus! {

/// Arguments of the exit command: none.
#[derive(Debug)]
pub struct ExitArgs;

} // verus!
