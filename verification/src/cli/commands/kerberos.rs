pub mod brute;
pub mod tgs;
pub mod tgt;

use vstd::prelude::*;

use crate::cli::commands::kerberos::brute::BruteArgs;
use crate::cli::commands::kerberos::tgs::TgsArgs;
use crate::cli::commands::kerberos::tgt::TgtArgs;

verus! {

/// The ticket-protocol subcommands.
#[derive(Debug)]
pub enum KerberosCommands {
    Brute(BruteArgs),
    Tgs(TgsArgs),
    Tgt(TgtArgs),
}

/// Arguments of the ticket-protocol command group.
#[derive(Debug)]
pub struct KerberosArgs {
    pub command: KerberosCommands,
}

} // verus!
