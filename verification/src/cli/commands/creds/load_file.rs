use vstd::prelude::*;

verus! {

/// Arguments of the credential load-file command.
#[derive(Debug)]
pub struct LoadFileArgs {
    /// Path to load the credentials file from.
    pub path: String,
}

} // verus!
