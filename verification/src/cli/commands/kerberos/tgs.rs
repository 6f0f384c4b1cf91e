use vstd::prelude::*;

verus! {

/// Arguments of the service-ticket command: none yet.
#[derive(Debug)]
pub struct TgsArgs;

} // verus!
