use vstd::prelude::*;

verus! {

/// Arguments of the share-walk command.
#[derive(Debug)]
pub struct SharesArgs {
    /// Walk every share recursively.
    pub all: bool,
    /// Walk only this share.
    pub share: Option<String>,
}

} // verus!
