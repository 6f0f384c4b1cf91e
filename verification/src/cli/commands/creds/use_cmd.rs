use vstd::prelude::*;

use crate::data::credential::AuthType;

verus! {

/// Arguments of the credential-select command.
#[derive(Debug)]
pub struct UseArgs {
    /// The principal name of the credential to use.
    pub name: String,
    /// The payload variant to match.
    pub auth_type: AuthType,
}

} // verus!
