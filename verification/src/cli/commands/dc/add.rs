use vstd::prelude::*;

use crate::data::domain_controller::DomainController;

verus! {

/// Arguments of the server-add command.
#[derive(Debug)]
pub struct AddArgs {
    /// Network address of the server, in textual form.
    pub ip: String,
    /// Whether the secure directory variant is enabled.
    pub ldaps: bool,
    /// Directory port to use.
    pub ldap_port: u16,
    /// Domain name, when known up front; discovery fills it in otherwise.
    pub domain: Option<String>,
}

impl AddArgs {
    /// The server entry this command describes, before any name discovery:
    /// the given address, flags and port, and the domain when supplied, with
    /// a placeholder name otherwise.
    pub fn to_domain_controller(&self) -> (r: DomainController)
        ensures
            r.ip_address@ == self.ip@,
            self.domain matches Some(d) ==> r.domain_name@ == d@,
            self.domain is None ==> r.domain_name@ == "UNKNOWN"@,
            r.ldap_port == self.ldap_port,
            r.gc_port == 3268u16,
            r.ldaps_enabled == self.ldaps,
    {
        let name = match &self.domain {
            Option::Some(d) => d.clone(),
            Option::None => String::from_str("UNKNOWN"),
        };
        let mut dc = DomainController::new(self.ip.clone(), name);
        dc.ldaps_enabled = self.ldaps;
        dc.ldap_port = self.ldap_port;
        dc
    }
}

} // verus!
