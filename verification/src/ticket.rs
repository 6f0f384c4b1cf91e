use vstd::prelude::*;

use crate::data::credential::{
    current_timestamp, generate_credential_id, AuthData, Credential, CredentialType,
};
use crate::data::domain_controller::DomainController;
use crate::stores::credentials_store::{contains_id, CredentialsStore};

verus! {

/// A ticket-acquisition failure: unusable auth material, a key-derivation
/// problem, a transport or codec failure carried verbatim, or a store
/// rejection (an id collision, unexpected for generated ids).
#[derive(Debug)]
pub enum TicketError {
    UnsupportedAuthType,
    KeyDerivation(String),
    Transport(String),
    Codec(String),
    StoreAdd(String),
}

/// The 32-hex-character digest the fixed one-way transform assigns to a
/// password; a function of the characters alone.
pub uninterp spec fn ntlm_digest_of(s: Seq<char>) -> Seq<char>;

/// Relies on ntlm_hash::ntlm_hash: the hex digest of the password, a
/// function of the characters alone, always 32 characters. The crate indexes
/// out of bounds past 31 bytes, so longer or non-ASCII input is excluded.
#[verifier::external_body]
fn ntlm_hash_of(password: &str) -> (r: String)
    requires
        password.is_ascii(),
        password@.len() <= 31,
    ensures
        r@ == ntlm_digest_of(password@),
        r@.len() == 32,
{
    ntlm_hash::ntlm_hash(password)
}

/// The padded base64 text of a byte sequence; a function of the bytes alone.
pub uninterp spec fn base64_of(b: Seq<u8>) -> Seq<char>;

/// Relies on base64's standard engine: padded base64 text of the bytes, a
/// function of the bytes alone, four characters for every started group of
/// three bytes. Input near the address-space limit is excluded so the output
/// length cannot overflow.
#[verifier::external_body]
fn base64_encode(data: &Vec<u8>) -> (r: String)
    requires
        data@.len() <= usize::MAX / 4,
    ensures
        r@ == base64_of(data@),
        r@.len() == 4 * ((data@.len() + 2) / 3),
{
    base64::Engine::encode(&base64::engine::general_purpose::STANDARD, data)
}

/// Whether a password can be fed to the fixed one-way transform.
pub open spec fn hashable_password(p: String) -> bool {
    p.is_ascii() && p@.len() <= 31
}

/// Derive symmetric key material from a credential's payload: a plaintext
/// secret is run through the fixed one-way transform; a digest is used as it
/// stands; every other variant is unsupported.
pub fn derive_key_material(auth: &AuthData) -> (r: Result<String, TicketError>)
    ensures
        *auth matches AuthData::Password(p) ==> {
            &&& hashable_password(p) ==> (r matches Ok(k) && k@ == ntlm_digest_of(p@))
            &&& !hashable_password(p) ==> (r matches Err(e) && e is KeyDerivation)
        },
        *auth matches AuthData::NtlmHash(h) ==> (r matches Ok(k) && k@ == h@),
        !(auth is Password || auth is NtlmHash) ==> (r matches Err(e) && e
            is UnsupportedAuthType),
{
    match auth {
        AuthData::Password(p) => {
            if p.as_str().is_ascii() && p.as_str().unicode_len() <= 31 {
                Result::Ok(ntlm_hash_of(p.as_str()))
            } else {
                Result::Err(
                    TicketError::KeyDerivation(
                        String::from_str("password cannot be fed to the one-way transform"),
                    ),
                )
            }
        },
        AuthData::NtlmHash(h) => Result::Ok(h.clone()),
        _ => Result::Err(TicketError::UnsupportedAuthType),
    }
}

/// Everything the external protocol codec needs to request a ticket.
#[derive(Debug)]
pub struct TgtRequest {
    /// The realm: the target's logical domain name.
    pub realm: String,
    /// The KDC: the target's network address.
    pub kdc_address: String,
    /// The principal requesting the ticket.
    pub username: String,
    /// Hex key material derived from the credential.
    pub key_hex: String,
}

/// Build the codec-level request context from the active target and
/// credential, deriving the key material. Fails exactly when key derivation
/// does.
pub fn build_tgt_request(dc: &DomainController, creds: &Credential) -> (r: Result<
    TgtRequest,
    TicketError,
>)
    ensures
        creds.auth_data matches AuthData::Password(p) ==> {
            &&& hashable_password(p) ==> (r matches Ok(q) && q.key_hex@ == ntlm_digest_of(p@))
            &&& !hashable_password(p) ==> (r matches Err(e) && e is KeyDerivation)
        },
        creds.auth_data matches AuthData::NtlmHash(h) ==> (r matches Ok(q) && q.key_hex@ == h@),
        r matches Ok(q) ==> q.realm@ == dc.domain_name@ && q.kdc_address@ == dc.ip_address@
            && q.username@ == creds.username@,
        !(creds.auth_data is Password || creds.auth_data is NtlmHash) ==> (r matches Err(e) && e
            is UnsupportedAuthType),
{
    let key_hex = match derive_key_material(&creds.auth_data) {
        Result::Ok(k) => k,
        Result::Err(e) => {
            return Result::Err(e);
        },
    };
    Result::Ok(
        TgtRequest {
            realm: dc.domain_name.clone(),
            kdc_address: dc.ip_address.clone(),
            username: creds.username.clone(),
            key_hex,
        },
    )
}

/// Persist an acquired ticket: base64-encode the credential-cache bytes and
/// add a new credential carrying them, under the given id, with the source
/// credential's principal name, the ticket-acquisition provenance, and every
/// other field defaulted. Fails exactly when the id is already taken.
pub fn store_ticket(
    store: &mut CredentialsStore,
    creds: &Credential,
    ccache: &Vec<u8>,
    new_id: String,
) -> (r: Result<(), TicketError>)
    requires
        old(store).wf(),
        ccache@.len() <= usize::MAX / 4,
    ensures
        final(store).wf(),
        contains_id(old(store).creds(), new_id@) ==> (r matches Err(e) && e is StoreAdd
            && *final(store) == *old(store)),
        !contains_id(old(store).creds(), new_id@) ==> r is Ok && {
            let s = final(store).creds();
            &&& s.len() == old(store).creds().len() + 1
            &&& forall|j: int| 0 <= j < old(store).creds().len() ==> s[j] == old(store).creds()[j]
            &&& s.last().id == new_id
            &&& s.last().username@ == creds.username@
            &&& (s.last().auth_data matches AuthData::KerberosTicket(t) && t@ == base64_of(
                ccache@,
            ))
            &&& s.last().source@ == "ticket-acquisition"@
            &&& s.last().credential_type is Unknown
            &&& s.last().privileges@.len() == 0
            &&& s.last().is_validated == false
            &&& s.last().last_used is None
            &&& s.last().target_dc is None
            &&& s.last().notes is None
            &&& s.last().metadata@.len() == 0
        },
{
    let new_creds = Credential {
        id: new_id,
        username: creds.username.clone(),
        auth_data: AuthData::KerberosTicket(base64_encode(ccache)),
        credential_type: CredentialType::Unknown,
        privileges: Vec::new(),
        is_validated: false,
        last_used: Option::None,
        discovered_at: current_timestamp(),
        source: String::from_str("ticket-acquisition"),
        target_dc: Option::None,
        notes: Option::None,
        metadata: Vec::new(),
    };
    match store.add_credential(new_creds) {
        Result::Ok(_) => Result::Ok(()),
        Result::Err(e) => Result::Err(TicketError::StoreAdd(e)),
    }
}

/// Persist an acquired ticket under a freshly generated id. Id generation is
/// random, so success cannot be promised: a collision surfaces as the store
/// rejection `store_ticket` reports, and the store is then unchanged.
pub fn store_ticket_with_fresh_id(
    store: &mut CredentialsStore,
    creds: &Credential,
    ccache: &Vec<u8>,
) -> (r: Result<String, TicketError>)
    requires
        old(store).wf(),
        ccache@.len() <= usize::MAX / 4,
    ensures
        final(store).wf(),
        r matches Ok(id) ==> id@.len() == 36 && {
            let s = final(store).creds();
            &&& s.len() == old(store).creds().len() + 1
            &&& forall|j: int| 0 <= j < old(store).creds().len() ==> s[j] == old(store).creds()[j]
            &&& s.last().id@ == id@
            &&& s.last().username@ == creds.username@
            &&& (s.last().auth_data matches AuthData::KerberosTicket(t) && t@ == base64_of(
                ccache@,
            ))
            &&& s.last().source@ == "ticket-acquisition"@
        },
        r matches Err(e) ==> e is StoreAdd && *final(store) == *old(store),
{
    let new_id = generate_credential_id();
    let ghost gid = new_id@;
    let id_copy = new_id.clone();
    match store_ticket(store, creds, ccache, new_id) {
        Result::Ok(_) => Result::Ok(id_copy),
        Result::Err(e) => Result::Err(e),
    }
}

} // verus!
