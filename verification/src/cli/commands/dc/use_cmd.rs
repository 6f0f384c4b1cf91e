use vstd::prelude::*;

verus! {

/// Arguments of the server-select command.
#[derive(Debug)]
pub struct UseArgs {
    /// Domain name of the server to use.
    pub domain_name: String,
}

} // verus!
