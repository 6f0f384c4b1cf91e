use vstd::prelude::*;

use crate::strutil::{dec_of, push_char, u64_to_string};

verus! {

/// A known directory server, keyed by the domain it serves.
#[derive(Debug)]
pub struct DomainController {
    /// Network address of the server, in textual form.
    pub ip_address: String,
    /// Domain name this server serves; the identity key in the store.
    pub domain_name: String,
    /// Directory port (usually 389, or 636 when the secure variant is on).
    pub ldap_port: u16,
    /// Global-catalog port (usually 3268, or 3269 when the secure variant is on).
    pub gc_port: u16,
    /// Whether the secure directory variant is enabled.
    pub ldaps_enabled: bool,
}

/// Deep equality of server entries, field by field.
pub open spec fn dc_eq_spec(a: DomainController, b: DomainController) -> bool {
    &&& a.ip_address@ == b.ip_address@
    &&& a.domain_name@ == b.domain_name@
    &&& a.ldap_port == b.ldap_port
    &&& a.gc_port == b.gc_port
    &&& a.ldaps_enabled == b.ldaps_enabled
}

impl Clone for DomainController {
    /// Clones preserve every field, character for character.
    fn clone(&self) -> (r: DomainController)
        ensures
            dc_eq_spec(r, *self),
    {
        DomainController {
            ip_address: self.ip_address.clone(),
            domain_name: self.domain_name.clone(),
            ldap_port: self.ldap_port,
            gc_port: self.gc_port,
            ldaps_enabled: self.ldaps_enabled,
        }
    }
}

impl PartialEq for DomainController {
    fn eq(&self, other: &DomainController) -> (r: bool) {
        crate::strutil::str_eq(self.ip_address.as_str(), other.ip_address.as_str())
            && crate::strutil::str_eq(self.domain_name.as_str(), other.domain_name.as_str())
            && self.ldap_port == other.ldap_port && self.gc_port == other.gc_port
            && self.ldaps_enabled == other.ldaps_enabled
    }
}

impl vstd::std_specs::cmp::PartialEqSpecImpl for DomainController {
    open spec fn obeys_eq_spec() -> bool {
        true
    }

    open spec fn eq_spec(&self, other: &DomainController) -> bool {
        dc_eq_spec(*self, *other)
    }
}

/// The connection string scheme://address:port.
pub open spec fn url_spec(scheme: Seq<char>, address: Seq<char>, port: u16) -> Seq<char> {
    scheme + seq![':', '/', '/'] + address + seq![':'] + dec_of(port as nat)
}

fn build_url(scheme: &str, address: &str, port: u16) -> (r: String)
    ensures
        r@ == url_spec(scheme@, address@, port),
{
    let mut s = String::from_str(scheme);
    push_char(&mut s, ':');
    push_char(&mut s, '/');
    push_char(&mut s, '/');
    s.append(address);
    push_char(&mut s, ':');
    let p = u64_to_string(port as u64);
    s.append(p.as_str());
    proof {
        assert(s@ =~= url_spec(scheme@, address@, port));
    }
    s
}

impl DomainController {
    /// Create a server entry with the default ports and the secure variant off.
    pub fn new(ip_address: String, domain_name: String) -> (r: DomainController)
        ensures
            r.ip_address == ip_address,
            r.domain_name == domain_name,
            r.ldap_port == 389u16,
            r.gc_port == 3268u16,
            r.ldaps_enabled == false,
    {
        DomainController { ip_address, domain_name, ldap_port: 389, gc_port: 3268, ldaps_enabled: false }
    }

    /// The directory connection string: the secure scheme and port 636 when
    /// the secure variant is on, otherwise the plain scheme and the stored port.
    pub fn ldap_url(&self) -> (r: String)
        ensures
            self.ldaps_enabled ==> r@ == url_spec("ldaps"@, self.ip_address@, 636u16),
            !self.ldaps_enabled ==> r@ == url_spec("ldap"@, self.ip_address@, self.ldap_port),
    {
        if self.ldaps_enabled {
            build_url("ldaps", self.ip_address.as_str(), 636)
        } else {
            build_url("ldap", self.ip_address.as_str(), self.ldap_port)
        }
    }

    /// The global-catalog connection string: port 3269 when the secure
    /// variant is on, otherwise the stored global-catalog port.
    pub fn gc_url(&self) -> (r: String)
        ensures
            self.ldaps_enabled ==> r@ == url_spec("ldap"@, self.ip_address@, 3269u16),
            !self.ldaps_enabled ==> r@ == url_spec("ldap"@, self.ip_address@, self.gc_port),
    {
        if self.ldaps_enabled {
            build_url("ldap", self.ip_address.as_str(), 3269)
        } else {
            build_url("ldap", self.ip_address.as_str(), self.gc_port)
        }
    }
}

} // verus!
