use vstd::prelude::*;

use crate::data::credential::{
    auth_label_spec, cred_eq_spec, AuthData, AuthType, Credential,
};
use crate::data::domain_controller::{dc_eq_spec, DomainController};
use crate::stores::credentials_store::{auth_tag_matches, CredentialsStore};
use crate::strutil::{eq_ignore_case, lower_seq, push_char};

verus! {

/// The active selection that gates ticket operations: at most one server and
/// one credential.
#[derive(Debug)]
pub struct SessionContext {
    pub current_used_dc: Option<DomainController>,
    pub current_used_creds: Option<Credential>,
}

/// A credential matches a selection by principal name, and by auth-material
/// tag when a hint is given.
pub open spec fn selection_matches(c: Credential, name: Seq<char>, tag: Option<AuthType>) -> bool {
    lower_seq(c.username@) == lower_seq(name) && (tag matches Some(t) ==> auth_tag_matches(
        c.auth_data,
        t,
    ))
}

impl SessionContext {
    /// A fresh context with nothing selected.
    pub fn new() -> (r: SessionContext)
        ensures
            r.current_used_dc is None,
            r.current_used_creds is None,
    {
        SessionContext { current_used_dc: Option::None, current_used_creds: Option::None }
    }

    /// Select or clear the active server.
    pub fn set_current_dc(&mut self, dc: Option<DomainController>)
        ensures
            final(self).current_used_dc == dc,
            final(self).current_used_creds == old(self).current_used_creds,
    {
        self.current_used_dc = dc;
    }

    /// Select or clear the active credential.
    pub fn set_current_creds(&mut self, creds: Option<Credential>)
        ensures
            final(self).current_used_creds == creds,
            final(self).current_used_dc == old(self).current_used_dc,
    {
        self.current_used_creds = creds;
    }

    /// The prompt label for the active server: its domain name.
    pub fn dc_label(&self) -> (r: Option<String>)
        ensures
            r is Some <==> self.current_used_dc is Some,
            self.current_used_dc matches Some(d) ==> (r matches Some(l) && l@ == d.domain_name@),
    {
        match &self.current_used_dc {
            Option::Some(d) => Option::Some(d.domain_name.clone()),
            Option::None => Option::None,
        }
    }

    /// The prompt label for the active credential: username, a colon, and the
    /// authentication payload's display label.
    pub fn credential_label(&self) -> (r: Option<String>)
        ensures
            r is Some <==> self.current_used_creds is Some,
            self.current_used_creds matches Some(c) ==> (r matches Some(l) && l@ == c.username@
                + seq![':'] + auth_label_spec(c.auth_data)),
    {
        match &self.current_used_creds {
            Option::Some(c) => {
                let mut l = c.username.clone();
                push_char(&mut l, ':');
                let t = c.auth_data_type();
                l.append(t.as_str());
                Option::Some(l)
            },
            Option::None => Option::None,
        }
    }

    /// The active pair, required together: fails with one stable error
    /// whenever either the server or the credential is unset.
    pub fn get_current_context(&self) -> (r: Result<(DomainController, Credential), String>)
        ensures
            (self.current_used_dc is Some && self.current_used_creds is Some) <==> r is Ok,
            self.current_used_dc matches Some(d) ==> (self.current_used_creds matches Some(c)
                ==> (r matches Ok(p) && dc_eq_spec(p.0, d) && cred_eq_spec(p.1, c))),
            r matches Err(m) ==> m@ == "Please set a domain controller and a credential"@,
    {
        match (&self.current_used_dc, &self.current_used_creds) {
            (Option::Some(d), Option::Some(c)) => Result::Ok((d.clone(), c.clone())),
            _ => Result::Err(String::from_str("Please set a domain controller and a credential")),
        }
    }
}

/// The first stored credential matching the given principal name and
/// auth-material tag, as credential selection resolves it: ambiguity is
/// resolved by first match.
pub fn select_credential(store: &CredentialsStore, name: &str, auth_type: Option<AuthType>) -> (r:
    Option<Credential>)
    ensures
        r is None ==> forall|i: int|
            0 <= i < store.creds().len() ==> !selection_matches(
                #[trigger] store.creds()[i],
                name@,
                auth_type,
            ),
        r matches Some(c) ==> exists|i: int|
            {
                &&& 0 <= i < store.creds().len()
                &&& selection_matches(#[trigger] store.creds()[i], name@, auth_type)
                &&& cred_eq_spec(c, store.creds()[i])
                &&& forall|j: int|
                    0 <= j < i ==> !selection_matches(store.creds()[j], name@, auth_type)
            },
{
    let all = store.get_all_credentials();
    let mut i: usize = 0;
    while i < all.len()
        invariant
            crate::stores::credentials_store::creds_seq_eq(all@, store.creds()),
            0 <= i <= all@.len(),
            forall|j: int|
                0 <= j < i ==> !selection_matches(store.creds()[j], name@, auth_type),
        decreases all@.len() - i,
    {
        let c = &all[i];
        let name_ok = eq_ignore_case(c.username.as_str(), name);
        let tag_ok: bool = match auth_type {
            Option::None => true,
            Option::Some(AuthType::Password) => matches!(&c.auth_data, AuthData::Password(_)),
            Option::Some(AuthType::NtlmHash) => matches!(&c.auth_data, AuthData::NtlmHash(_)),
            Option::Some(AuthType::LmHash) => matches!(&c.auth_data, AuthData::LmHash(_)),
            Option::Some(AuthType::Tgt) => matches!(&c.auth_data, AuthData::KerberosTicket(_)),
        };
        if name_ok && tag_ok {
            let out = all[i].clone();
            proof {
                assert(cred_eq_spec(all@[i as int], store.creds()[i as int]));
                assert(selection_matches(store.creds()[i as int], name@, auth_type));
                crate::data::credential::lemma_cred_eq_trans(
                    out,
                    all@[i as int],
                    store.creds()[i as int],
                );
            }
            return Option::Some(out);
        }
        proof {
            assert(cred_eq_spec(all@[i as int], store.creds()[i as int]));
        }
        i = i + 1;
    }
    Option::None
}

} // verus!
