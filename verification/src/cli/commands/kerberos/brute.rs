use vstd::prelude::*;

verus! {

/// Arguments of the password-spray command: none yet.
#[derive(Debug)]
pub struct BruteArgs;

} // verus!
