use vstd::prelude::*;

use crate::data::credential::opt_str_eq_spec;
use crate::stores::credentials_store::CredentialFilter;

verus! {

/// Arguments of the credential-list command.
#[derive(Debug)]
pub struct ListArgs {
    /// Accepted on the command line but never consulted; the filter has no
    /// domain criterion.
    pub domain: Option<String>,
    /// Filter by principal name.
    pub username: Option<String>,
    /// Show only validated credentials.
    pub validated_only: bool,
    /// Filter by source.
    pub source: Option<String>,
}

impl ListArgs {
    /// The store filter these listing options denote.
    pub fn to_filter(&self) -> (r: CredentialFilter)
        ensures
            opt_str_eq_spec(r.domain, self.domain),
            opt_str_eq_spec(r.username, self.username),
            r.credential_type is None,
            r.auth_type is None,
            opt_str_eq_spec(r.source, self.source),
            r.validated_only == self.validated_only,
            r.has_privileges is None,
    {
        CredentialFilter {
            domain: clone_opt(&self.domain),
            username: clone_opt(&self.username),
            credential_type: Option::None,
            auth_type: Option::None,
            source: clone_opt(&self.source),
            validated_only: self.validated_only,
            has_privileges: Option::None,
        }
    }
}

fn clone_opt(v: &Option<String>) -> (r: Option<String>)
    ensures
        opt_str_eq_spec(r, *v),
{
    match v {
        Option::None => Option::None,
        Option::Some(s) => Option::Some(s.clone()),
    }
}

} // verus!
