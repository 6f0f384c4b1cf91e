use vstd::prelude::*;

use crate::data::credential::{
    auth_data_eq_spec, cred_type_of, AuthData, AuthType, CredType, Credential, CredentialType,
};

verus! {

/// Arguments of the credential-add command.
#[derive(Debug)]
pub struct AddArgs {
    /// Principal name (UPN, SAM, or DN format).
    pub username: String,
    /// Which payload variant the material is.
    pub auth_type: AuthType,
    /// The authentication material itself.
    pub auth_data: String,
    /// Role classification tag.
    pub cred_type: CredType,
    /// Where the credential came from.
    pub source: String,
    /// Free-form notes.
    pub notes: Option<String>,
}

/// The payload variant an auth tag wraps a material string into.
pub open spec fn auth_data_of(t: AuthType, material: String) -> AuthData {
    match t {
        AuthType::Password => AuthData::Password(material),
        AuthType::NtlmHash => AuthData::NtlmHash(material),
        AuthType::LmHash => AuthData::LmHash(material),
        AuthType::Tgt => AuthData::KerberosTicket(material),
    }
}

/// Wrap a material string into the payload variant its tag selects.
pub fn build_auth_data(auth_type: AuthType, material: String) -> (r: AuthData)
    ensures
        r == auth_data_of(auth_type, material),
{
    match auth_type {
        AuthType::Password => AuthData::Password(material),
        AuthType::NtlmHash => AuthData::NtlmHash(material),
        AuthType::LmHash => AuthData::LmHash(material),
        AuthType::Tgt => AuthData::KerberosTicket(material),
    }
}

impl AddArgs {
    /// The credential this command describes: a fresh id, the given
    /// principal, the material wrapped in exactly the variant the tag
    /// selects, the given classification, nothing validated yet.
    pub fn to_credential(&self) -> (r: Credential)
        ensures
            r.id@.len() == 36,
            r.username@ == self.username@,
            auth_data_eq_spec(r.auth_data, auth_data_of(self.auth_type, self.auth_data)),
            r.credential_type == cred_type_of(self.cred_type),
            r.privileges@.len() == 0,
            r.is_validated == false,
            r.last_used is None,
            r.source@ == self.source@,
            r.target_dc is None,
            crate::data::credential::opt_str_eq_spec(r.notes, self.notes),
            r.metadata@.len() == 0,
    {
        Credential {
            id: crate::data::credential::generate_credential_id(),
            username: self.username.clone(),
            auth_data: build_auth_data(self.auth_type, self.auth_data.clone()),
            credential_type: CredentialType::from(self.cred_type),
            privileges: Vec::new(),
            is_validated: false,
            last_used: Option::None,
            discovered_at: crate::data::credential::current_timestamp(),
            source: self.source.clone(),
            target_dc: Option::None,
            notes: match &self.notes {
                Option::None => Option::None,
                Option::Some(n) => Option::Some(n.clone()),
            },
            metadata: Vec::new(),
        }
    }
}

} // verus!
