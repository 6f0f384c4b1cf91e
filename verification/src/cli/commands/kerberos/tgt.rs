use vstd::prelude::*;

verus! {

/// Arguments of the ticket-acquisition command: none; it uses the active
/// target and credential.
#[derive(Debug)]
pub struct TgtArgs;

} // verus!
