use vstd::prelude::*;

verus! {

/// Arguments of the credential-remove command: an id prefix, and whether to
/// skip the confirmation.
#[derive(Debug)]
pub struct RemoveArgs {
    /// Credential id to remove; a prefix matches from the beginning.
    pub credential_id: String,
    /// Remove without confirmation.
    pub force: bool,
}

} // verus!
