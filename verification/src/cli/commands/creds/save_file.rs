use vstd::prelude::*;

verus! {

/// Arguments of the credential save-file command.
#[derive(Debug)]
pub struct SaveFileArgs {
    /// Path to save the credentials file to.
    pub path: String,
}

} // verus!
