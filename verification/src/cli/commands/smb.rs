pub mod list;
pub mod shares;

use vstd::prelude::*;

use crate::cli::commands::smb::list::ListArgs;
use crate::cli::commands::smb::shares::SharesArgs;

verus! {

/// The file-share subcommands.
#[derive(Debug)]
pub enum SmbCommands {
    List(ListArgs),
    Shares(SharesArgs),
}

/// Arguments of the file-share command group.
#[derive(Debug)]
pub struct SmbArgs {
    pub command: SmbCommands,
}

} // verus!
