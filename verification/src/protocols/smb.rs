use vstd::prelude::*;

verus! {

/// Which authentication methods a file-share connection may use.
#[derive(Debug, Clone, Copy, PartialEq, Eq, Structural)]
pub enum SmbAuthType {
    Kerberos,
    Ntlm,
    Both,
}

} // verus!
