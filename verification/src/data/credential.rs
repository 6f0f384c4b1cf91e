use vstd::prelude::*;

use crate::strutil::{eq_ignore_case, lower_seq, push_char, str_eq};

verus! {

/// Authentication-material tags as selected on the command line.
#[derive(Debug, Clone, Copy, PartialEq, Eq, Structural)]
pub enum AuthType {
    Password,
    NtlmHash,
    LmHash,
    Tgt,
}

/// Credential-role tags as selected on the command line.
#[derive(Debug, Clone, Copy, PartialEq, Eq, Structural)]
pub enum CredType {
    DomainUser,
    LocalAdmin,
    DomainAdmin,
    EnterpriseAdmin,
    ServiceAccount,
    MachineAccount,
    ManagedServiceAccount,
    GroupManagedServiceAccount,
    ServicePrincipal,
    BuiltIn,
    Unknown,
}

/// The authentication payload of a credential.
#[derive(Debug)]
pub enum AuthData {
    Password(String),
    NtlmHash(String),
    LmHash(String),
    LmNtlm { lm: String, ntlm: String },
    KerberosTicket(String),
    Certificate { cert_data: String, private_key: Option<String> },
    Token(String),
    Custom(Vec<(String, String)>),
}

/// The role classification of a credential.
#[derive(Debug)]
pub enum CredentialType {
    DomainUser,
    LocalAdmin,
    DomainAdmin,
    EnterpriseAdmin,
    ServiceAccount,
    MachineAccount,
    ManagedServiceAccount,
    GroupManagedServiceAccount,
    ServicePrincipal,
    BuiltIn,
    Unknown,
    Custom(String),
}

/// Validation status of a credential against its target.
#[derive(Debug, Clone, Copy, PartialEq, Eq, Structural)]
pub enum CredentialStatus {
    Active,
    Expired,
    Disabled,
    LockedOut,
    PasswordExpired,
    Invalid,
    Unknown,
}

/// A harvested identity with its secret material and classification metadata.
#[derive(Debug)]
pub struct Credential {
    /// Unique identifier for this credential.
    pub id: String,
    /// Principal name (UPN, SAM, or DN format).
    pub username: String,
    /// Authentication payload.
    pub auth_data: AuthData,
    /// Role classification.
    pub credential_type: CredentialType,
    /// Privilege labels or group memberships.
    pub privileges: Vec<String>,
    /// Whether this credential has been validated.
    pub is_validated: bool,
    /// Unix seconds of the last successful use, if any.
    pub last_used: Option<i64>,
    /// Unix seconds when this credential was obtained.
    pub discovered_at: i64,
    /// Where this credential came from.
    pub source: String,
    /// Logical name of the server it was obtained on or tested against.
    pub target_dc: Option<String>,
    /// Free-form notes.
    pub notes: Option<String>,
    /// Additional key/value metadata.
    pub metadata: Vec<(String, String)>,
}

/// Equality of optional strings, by character content.
pub open spec fn opt_str_eq_spec(a: Option<String>, b: Option<String>) -> bool {
    match (a, b) {
        (Option::None, Option::None) => true,
        (Option::Some(x), Option::Some(y)) => x@ == y@,
        _ => false,
    }
}

/// Equality of string sequences, element-wise by character content.
pub open spec fn str_seq_eq_spec(a: Seq<String>, b: Seq<String>) -> bool {
    a.len() == b.len() && forall|i: int| 0 <= i < a.len() ==> (#[trigger] a[i])@ == b[i]@
}

/// Equality of key/value pair sequences, element-wise by character content.
pub open spec fn pair_seq_eq_spec(a: Seq<(String, String)>, b: Seq<(String, String)>) -> bool {
    a.len() == b.len() && forall|i: int|
        0 <= i < a.len() ==> (#[trigger] a[i]).0@ == b[i].0@ && a[i].1@ == b[i].1@
}

/// Deep equality of authentication payloads.
pub open spec fn auth_data_eq_spec(a: AuthData, b: AuthData) -> bool {
    match (a, b) {
        (AuthData::Password(x), AuthData::Password(y)) => x@ == y@,
        (AuthData::NtlmHash(x), AuthData::NtlmHash(y)) => x@ == y@,
        (AuthData::LmHash(x), AuthData::LmHash(y)) => x@ == y@,
        (
            AuthData::LmNtlm { lm: a1, ntlm: a2 },
            AuthData::LmNtlm { lm: b1, ntlm: b2 },
        ) => a1@ == b1@ && a2@ == b2@,
        (AuthData::KerberosTicket(x), AuthData::KerberosTicket(y)) => x@ == y@,
        (
            AuthData::Certificate { cert_data: a1, private_key: a2 },
            AuthData::Certificate { cert_data: b1, private_key: b2 },
        ) => a1@ == b1@ && opt_str_eq_spec(a2, b2),
        (AuthData::Token(x), AuthData::Token(y)) => x@ == y@,
        (AuthData::Custom(x), AuthData::Custom(y)) => pair_seq_eq_spec(x@, y@),
        _ => false,
    }
}

/// Deep equality of role classifications.
pub open spec fn cred_type_eq_spec(a: CredentialType, b: CredentialType) -> bool {
    match (a, b) {
        (CredentialType::DomainUser, CredentialType::DomainUser) => true,
        (CredentialType::LocalAdmin, CredentialType::LocalAdmin) => true,
        (CredentialType::DomainAdmin, CredentialType::DomainAdmin) => true,
        (CredentialType::EnterpriseAdmin, CredentialType::EnterpriseAdmin) => true,
        (CredentialType::ServiceAccount, CredentialType::ServiceAccount) => true,
        (CredentialType::MachineAccount, CredentialType::MachineAccount) => true,
        (CredentialType::ManagedServiceAccount, CredentialType::ManagedServiceAccount) => true,
        (
            CredentialType::GroupManagedServiceAccount,
            CredentialType::GroupManagedServiceAccount,
        ) => true,
        (CredentialType::ServicePrincipal, CredentialType::ServicePrincipal) => true,
        (CredentialType::BuiltIn, CredentialType::BuiltIn) => true,
        (CredentialType::Unknown, CredentialType::Unknown) => true,
        (CredentialType::Custom(x), CredentialType::Custom(y)) => x@ == y@,
        _ => false,
    }
}

/// Deep equality of credentials, field by field.
pub open spec fn cred_eq_spec(a: Credential, b: Credential) -> bool {
    &&& a.id@ == b.id@
    &&& a.username@ == b.username@
    &&& auth_data_eq_spec(a.auth_data, b.auth_data)
    &&& cred_type_eq_spec(a.credential_type, b.credential_type)
    &&& str_seq_eq_spec(a.privileges@, b.privileges@)
    &&& a.is_validated == b.is_validated
    &&& a.last_used == b.last_used
    &&& a.discovered_at == b.discovered_at
    &&& a.source@ == b.source@
    &&& opt_str_eq_spec(a.target_dc, b.target_dc)
    &&& opt_str_eq_spec(a.notes, b.notes)
    &&& pair_seq_eq_spec(a.metadata@, b.metadata@)
}

fn opt_str_eq(a: &Option<String>, b: &Option<String>) -> (r: bool)
    ensures
        r == opt_str_eq_spec(*a, *b),
{
    match (a, b) {
        (Option::None, Option::None) => true,
        (Option::Some(x), Option::Some(y)) => str_eq(x.as_str(), y.as_str()),
        _ => false,
    }
}

fn str_vec_eq(a: &Vec<String>, b: &Vec<String>) -> (r: bool)
    ensures
        r == str_seq_eq_spec(a@, b@),
{
    if a.len() != b.len() {
        return false;
    }
    let mut i: usize = 0;
    while i < a.len()
        invariant
            a@.len() == b@.len(),
            0 <= i <= a@.len(),
            forall|j: int| 0 <= j < i ==> (#[trigger] a@[j])@ == b@[j]@,
        decreases a@.len() - i,
    {
        if !str_eq(a[i].as_str(), b[i].as_str()) {
            return false;
        }
        i = i + 1;
    }
    true
}

fn pair_vec_eq(a: &Vec<(String, String)>, b: &Vec<(String, String)>) -> (r: bool)
    ensures
        r == pair_seq_eq_spec(a@, b@),
{
    if a.len() != b.len() {
        return false;
    }
    let mut i: usize = 0;
    while i < a.len()
        invariant
            a@.len() == b@.len(),
            0 <= i <= a@.len(),
            forall|j: int|
                0 <= j < i ==> (#[trigger] a@[j]).0@ == b@[j].0@ && a@[j].1@ == b@[j].1@,
        decreases a@.len() - i,
    {
        if !str_eq(a[i].0.as_str(), b[i].0.as_str()) {
            return false;
        }
        if !str_eq(a[i].1.as_str(), b[i].1.as_str()) {
            return false;
        }
        i = i + 1;
    }
    true
}

fn clone_string_vec(v: &Vec<String>) -> (r: Vec<String>)
    ensures
        str_seq_eq_spec(r@, v@),
{
    let mut out: Vec<String> = Vec::new();
    let mut i: usize = 0;
    while i < v.len()
        invariant
            0 <= i <= v@.len(),
            out@.len() == i,
            forall|j: int| 0 <= j < i ==> (#[trigger] out@[j])@ == v@[j]@,
        decreases v@.len() - i,
    {
        out.push(v[i].clone());
        i = i + 1;
    }
    out
}

fn clone_pair_vec(v: &Vec<(String, String)>) -> (r: Vec<(String, String)>)
    ensures
        pair_seq_eq_spec(r@, v@),
{
    let mut out: Vec<(String, String)> = Vec::new();
    let mut i: usize = 0;
    while i < v.len()
        invariant
            0 <= i <= v@.len(),
            out@.len() == i,
            forall|j: int|
                0 <= j < i ==> (#[trigger] out@[j]).0@ == v@[j].0@ && out@[j].1@ == v@[j].1@,
        decreases v@.len() - i,
    {
        out.push((v[i].0.clone(), v[i].1.clone()));
        i = i + 1;
    }
    out
}

fn clone_opt_string(v: &Option<String>) -> (r: Option<String>)
    ensures
        opt_str_eq_spec(r, *v),
{
    match v {
        Option::None => Option::None,
        Option::Some(s) => Option::Some(s.clone()),
    }
}

impl Clone for AuthData {
    /// Clones preserve the payload character for character.
    fn clone(&self) -> (r: AuthData)
        ensures
            auth_data_eq_spec(r, *self),
    {
        match self {
            AuthData::Password(x) => AuthData::Password(x.clone()),
            AuthData::NtlmHash(x) => AuthData::NtlmHash(x.clone()),
            AuthData::LmHash(x) => AuthData::LmHash(x.clone()),
            AuthData::LmNtlm { lm, ntlm } => AuthData::LmNtlm {
                lm: lm.clone(),
                ntlm: ntlm.clone(),
            },
            AuthData::KerberosTicket(x) => AuthData::KerberosTicket(x.clone()),
            AuthData::Certificate { cert_data, private_key } => AuthData::Certificate {
                cert_data: cert_data.clone(),
                private_key: clone_opt_string(private_key),
            },
            AuthData::Token(x) => AuthData::Token(x.clone()),
            AuthData::Custom(x) => AuthData::Custom(clone_pair_vec(x)),
        }
    }
}

impl Clone for CredentialType {
    /// Clones preserve the classification, including any custom label.
    fn clone(&self) -> (r: CredentialType)
        ensures
            cred_type_eq_spec(r, *self),
    {
        match self {
            CredentialType::DomainUser => CredentialType::DomainUser,
            CredentialType::LocalAdmin => CredentialType::LocalAdmin,
            CredentialType::DomainAdmin => CredentialType::DomainAdmin,
            CredentialType::EnterpriseAdmin => CredentialType::EnterpriseAdmin,
            CredentialType::ServiceAccount => CredentialType::ServiceAccount,
            CredentialType::MachineAccount => CredentialType::MachineAccount,
            CredentialType::ManagedServiceAccount => CredentialType::ManagedServiceAccount,
            CredentialType::GroupManagedServiceAccount => {
                CredentialType::GroupManagedServiceAccount
            },
            CredentialType::ServicePrincipal => CredentialType::ServicePrincipal,
            CredentialType::BuiltIn => CredentialType::BuiltIn,
            CredentialType::Unknown => CredentialType::Unknown,
            CredentialType::Custom(x) => CredentialType::Custom(x.clone()),
        }
    }
}

impl Clone for Credential {
    /// Clones preserve every field, character for character.
    fn clone(&self) -> (r: Credential)
        ensures
            cred_eq_spec(r, *self),
    {
        Credential {
            id: self.id.clone(),
            username: self.username.clone(),
            auth_data: self.auth_data.clone(),
            credential_type: self.credential_type.clone(),
            privileges: clone_string_vec(&self.privileges),
            is_validated: self.is_validated,
            last_used: self.last_used,
            discovered_at: self.discovered_at,
            source: self.source.clone(),
            target_dc: clone_opt_string(&self.target_dc),
            notes: clone_opt_string(&self.notes),
            metadata: clone_pair_vec(&self.metadata),
        }
    }
}

impl PartialEq for AuthData {
    fn eq(&self, other: &AuthData) -> (r: bool) {
        match (self, other) {
            (AuthData::Password(x), AuthData::Password(y)) => str_eq(x.as_str(), y.as_str()),
            (AuthData::NtlmHash(x), AuthData::NtlmHash(y)) => str_eq(x.as_str(), y.as_str()),
            (AuthData::LmHash(x), AuthData::LmHash(y)) => str_eq(x.as_str(), y.as_str()),
            (
                AuthData::LmNtlm { lm: a1, ntlm: a2 },
                AuthData::LmNtlm { lm: b1, ntlm: b2 },
            ) => str_eq(a1.as_str(), b1.as_str()) && str_eq(a2.as_str(), b2.as_str()),
            (AuthData::KerberosTicket(x), AuthData::KerberosTicket(y)) => str_eq(
                x.as_str(),
                y.as_str(),
            ),
            (
                AuthData::Certificate { cert_data: a1, private_key: a2 },
                AuthData::Certificate { cert_data: b1, private_key: b2 },
            ) => str_eq(a1.as_str(), b1.as_str()) && opt_str_eq(a2, b2),
            (AuthData::Token(x), AuthData::Token(y)) => str_eq(x.as_str(), y.as_str()),
            (AuthData::Custom(x), AuthData::Custom(y)) => pair_vec_eq(x, y),
            _ => false,
        }
    }
}

impl vstd::std_specs::cmp::PartialEqSpecImpl for AuthData {
    open spec fn obeys_eq_spec() -> bool {
        true
    }

    open spec fn eq_spec(&self, other: &AuthData) -> bool {
        auth_data_eq_spec(*self, *other)
    }
}

impl PartialEq for CredentialType {
    fn eq(&self, other: &CredentialType) -> (r: bool) {
        match (self, other) {
            (CredentialType::DomainUser, CredentialType::DomainUser) => true,
            (CredentialType::LocalAdmin, CredentialType::LocalAdmin) => true,
            (CredentialType::DomainAdmin, CredentialType::DomainAdmin) => true,
            (CredentialType::EnterpriseAdmin, CredentialType::EnterpriseAdmin) => true,
            (CredentialType::ServiceAccount, CredentialType::ServiceAccount) => true,
            (CredentialType::MachineAccount, CredentialType::MachineAccount) => true,
            (
                CredentialType::ManagedServiceAccount,
                CredentialType::ManagedServiceAccount,
            ) => true,
            (
                CredentialType::GroupManagedServiceAccount,
                CredentialType::GroupManagedServiceAccount,
            ) => true,
            (CredentialType::ServicePrincipal, CredentialType::ServicePrincipal) => true,
            (CredentialType::BuiltIn, CredentialType::BuiltIn) => true,
            (CredentialType::Unknown, CredentialType::Unknown) => true,
            (CredentialType::Custom(x), CredentialType::Custom(y)) => str_eq(
                x.as_str(),
                y.as_str(),
            ),
            _ => false,
        }
    }
}

impl vstd::std_specs::cmp::PartialEqSpecImpl for CredentialType {
    open spec fn obeys_eq_spec() -> bool {
        true
    }

    open spec fn eq_spec(&self, other: &CredentialType) -> bool {
        cred_type_eq_spec(*self, *other)
    }
}

impl PartialEq for Credential {
    fn eq(&self, other: &Credential) -> (r: bool) {
        str_eq(self.id.as_str(), other.id.as_str())
            && str_eq(self.username.as_str(), other.username.as_str())
            && self.auth_data == other.auth_data
            && self.credential_type == other.credential_type
            && str_vec_eq(&self.privileges, &other.privileges)
            && self.is_validated == other.is_validated
            && opt_i64_eq(&self.last_used, &other.last_used)
            && self.discovered_at == other.discovered_at
            && str_eq(self.source.as_str(), other.source.as_str())
            && opt_str_eq(&self.target_dc, &other.target_dc)
            && opt_str_eq(&self.notes, &other.notes)
            && pair_vec_eq(&self.metadata, &other.metadata)
    }
}

impl vstd::std_specs::cmp::PartialEqSpecImpl for Credential {
    open spec fn obeys_eq_spec() -> bool {
        true
    }

    open spec fn eq_spec(&self, other: &Credential) -> bool {
        cred_eq_spec(*self, *other)
    }
}

fn opt_i64_eq(a: &Option<i64>, b: &Option<i64>) -> (r: bool)
    ensures
        r == (*a == *b),
{
    match (a, b) {
        (Option::None, Option::None) => true,
        (Option::Some(x), Option::Some(y)) => *x == *y,
        _ => false,
    }
}

/// The role classification denoted by a command-line role tag.
pub open spec fn cred_type_of(ct: CredType) -> CredentialType {
    match ct {
        CredType::DomainUser => CredentialType::DomainUser,
        CredType::LocalAdmin => CredentialType::LocalAdmin,
        CredType::DomainAdmin => CredentialType::DomainAdmin,
        CredType::EnterpriseAdmin => CredentialType::EnterpriseAdmin,
        CredType::ServiceAccount => CredentialType::ServiceAccount,
        CredType::MachineAccount => CredentialType::MachineAccount,
        CredType::ManagedServiceAccount => CredentialType::ManagedServiceAccount,
        CredType::GroupManagedServiceAccount => CredentialType::GroupManagedServiceAccount,
        CredType::ServicePrincipal => CredentialType::ServicePrincipal,
        CredType::BuiltIn => CredentialType::BuiltIn,
        CredType::Unknown => CredentialType::Unknown,
    }
}

impl From<CredType> for CredentialType {
    fn from(cred_type: CredType) -> (r: CredentialType) {
        match cred_type {
            CredType::DomainUser => CredentialType::DomainUser,
            CredType::LocalAdmin => CredentialType::LocalAdmin,
            CredType::DomainAdmin => CredentialType::DomainAdmin,
            CredType::EnterpriseAdmin => CredentialType::EnterpriseAdmin,
            CredType::ServiceAccount => CredentialType::ServiceAccount,
            CredType::MachineAccount => CredentialType::MachineAccount,
            CredType::ManagedServiceAccount => CredentialType::ManagedServiceAccount,
            CredType::GroupManagedServiceAccount => CredentialType::GroupManagedServiceAccount,
            CredType::ServicePrincipal => CredentialType::ServicePrincipal,
            CredType::BuiltIn => CredentialType::BuiltIn,
            CredType::Unknown => CredentialType::Unknown,
        }
    }
}

impl vstd::std_specs::convert::FromSpecImpl<CredType> for CredentialType {
    open spec fn obeys_from_spec() -> bool {
        true
    }

    open spec fn from_spec(ct: CredType) -> CredentialType {
        cred_type_of(ct)
    }
}

/// Relies on uuid::Uuid::new_v4 and its Display form: a fresh random
/// identifier rendered as the 36-character hyphenated text.
#[verifier::external_body]
pub(crate) fn generate_credential_id() -> (r: String)
    ensures
        r@.len() == 36,
{
    uuid::Uuid::new_v4().to_string()
}

/// Relies on chrono::Utc::now: the current wall-clock time as Unix seconds.
#[verifier::external_body]
pub(crate) fn current_timestamp() -> (r: i64) {
    chrono::Utc::now().timestamp()
}

/// The principal in user-principal-name form for a given domain.
pub open spec fn upn_spec(username: Seq<char>, domain: Seq<char>) -> Seq<char> {
    if username.contains('@') {
        username
    } else {
        username + seq!['@'] + domain
    }
}

/// The principal in backslash-joined domain form.
pub open spec fn domain_username_spec(username: Seq<char>, domain: Seq<char>) -> Seq<char> {
    if username.contains('\\') {
        username
    } else {
        domain + seq!['\\'] + username
    }
}

/// Whether the credential carries the given privilege label, ASCII-case-insensitively.
pub open spec fn has_privilege_spec(privileges: Seq<String>, privilege: Seq<char>) -> bool {
    exists|i: int|
        0 <= i < privileges.len() && lower_seq((#[trigger] privileges[i])@) == lower_seq(privilege)
}

/// First metadata value stored under the given key, if any.
pub open spec fn meta_lookup(m: Seq<(String, String)>, k: Seq<char>) -> Option<Seq<char>>
    decreases m.len(),
{
    if m.len() == 0 {
        Option::None
    } else if m[0].0@ == k {
        Option::Some(m[0].1@)
    } else {
        meta_lookup(m.subrange(1, m.len() as int), k)
    }
}

/// The metadata sequence with every entry under the given key removed.
pub open spec fn meta_without(m: Seq<(String, String)>, k: Seq<char>) -> Seq<(String, String)>
    decreases m.len(),
{
    if m.len() == 0 {
        m
    } else if m[0].0@ == k {
        meta_without(m.subrange(1, m.len() as int), k)
    } else {
        seq![m[0]] + meta_without(m.subrange(1, m.len() as int), k)
    }
}

/// The display label of an authentication payload: it names the variant
/// only and never contains the secret material itself.
pub open spec fn auth_label_spec(a: AuthData) -> Seq<char> {
    match a {
        AuthData::Password(_) => "Password"@,
        AuthData::NtlmHash(_) => "NTLM Hash"@,
        AuthData::LmHash(_) => "LM Hash"@,
        AuthData::LmNtlm { .. } => "LM/NTLM Hash"@,
        AuthData::KerberosTicket(_) => "Kerberos Ticket"@,
        AuthData::Certificate { .. } => "Certificate"@,
        AuthData::Token(_) => "Token"@,
        AuthData::Custom(_) => "Custom"@,
    }
}

/// Credential deep equality is transitive.
pub proof fn lemma_cred_eq_trans(a: Credential, b: Credential, c: Credential)
    requires
        cred_eq_spec(a, b),
        cred_eq_spec(b, c),
    ensures
        cred_eq_spec(a, c),
{
}

/// The display label of a role classification; a custom classification
/// shows its own label.
pub open spec fn ctype_label_spec(c: CredentialType) -> Seq<char> {
    match c {
        CredentialType::DomainUser => "DomainUser"@,
        CredentialType::LocalAdmin => "LocalAdmin"@,
        CredentialType::DomainAdmin => "DomainAdmin"@,
        CredentialType::EnterpriseAdmin => "EnterpriseAdmin"@,
        CredentialType::ServiceAccount => "ServiceAccount"@,
        CredentialType::MachineAccount => "MachineAccount"@,
        CredentialType::ManagedServiceAccount => "ManagedServiceAccount"@,
        CredentialType::GroupManagedServiceAccount => "GroupManagedServiceAccount"@,
        CredentialType::ServicePrincipal => "ServicePrincipal"@,
        CredentialType::BuiltIn => "BuiltIn"@,
        CredentialType::Unknown => "Unknown"@,
        CredentialType::Custom(x) => x@,
    }
}

impl CredentialType {
    /// The display label of this classification.
    pub fn label(&self) -> (r: String)
        ensures
            r@ == ctype_label_spec(*self),
    {
        match self {
            CredentialType::DomainUser => String::from_str("DomainUser"),
            CredentialType::LocalAdmin => String::from_str("LocalAdmin"),
            CredentialType::DomainAdmin => String::from_str("DomainAdmin"),
            CredentialType::EnterpriseAdmin => String::from_str("EnterpriseAdmin"),
            CredentialType::ServiceAccount => String::from_str("ServiceAccount"),
            CredentialType::MachineAccount => String::from_str("MachineAccount"),
            CredentialType::ManagedServiceAccount => String::from_str("ManagedServiceAccount"),
            CredentialType::GroupManagedServiceAccount => {
                String::from_str("GroupManagedServiceAccount")
            },
            CredentialType::ServicePrincipal => String::from_str("ServicePrincipal"),
            CredentialType::BuiltIn => String::from_str("BuiltIn"),
            CredentialType::Unknown => String::from_str("Unknown"),
            CredentialType::Custom(x) => x.clone(),
        }
    }
}

/// The fields of a credential that in-place updates never touch.
pub open spec fn same_identity(a: Credential, b: Credential) -> bool {
    &&& a.id == b.id
    &&& a.username == b.username
    &&& a.auth_data == b.auth_data
    &&& a.credential_type == b.credential_type
    &&& a.discovered_at == b.discovered_at
    &&& a.source == b.source
    &&& a.target_dc == b.target_dc
    &&& a.notes == b.notes
}

impl Credential {
    /// Create a credential holding a plaintext password.
    pub fn new_password(username: String, password: String, source: String) -> (r: Credential)
        ensures
            r.id@.len() == 36,
            r.username == username,
            r.auth_data == AuthData::Password(password),
            r.credential_type is Unknown,
            r.privileges@.len() == 0,
            r.is_validated == false,
            r.last_used is None,
            r.source == source,
            r.target_dc is None,
            r.notes is None,
            r.metadata@.len() == 0,
    {
        Credential {
            id: generate_credential_id(),
            username,
            auth_data: AuthData::Password(password),
            credential_type: CredentialType::Unknown,
            privileges: Vec::new(),
            is_validated: false,
            last_used: Option::None,
            discovered_at: current_timestamp(),
            source,
            target_dc: Option::None,
            notes: Option::None,
            metadata: Vec::new(),
        }
    }

    /// Create a credential holding an NTLM hash.
    pub fn new_ntlm_hash(username: String, ntlm_hash: String, source: String) -> (r: Credential)
        ensures
            r.id@.len() == 36,
            r.username == username,
            r.auth_data == AuthData::NtlmHash(ntlm_hash),
            r.credential_type is Unknown,
            r.privileges@.len() == 0,
            r.is_validated == false,
            r.last_used is None,
            r.source == source,
            r.target_dc is None,
            r.notes is None,
            r.metadata@.len() == 0,
    {
        Credential {
            id: generate_credential_id(),
            username,
            auth_data: AuthData::NtlmHash(ntlm_hash),
            credential_type: CredentialType::Unknown,
            privileges: Vec::new(),
            is_validated: false,
            last_used: Option::None,
            discovered_at: current_timestamp(),
            source,
            target_dc: Option::None,
            notes: Option::None,
            metadata: Vec::new(),
        }
    }

    /// The username in UPN form, appending the domain when none is present.
    pub fn upn(&self, domain: &String) -> (r: String)
        ensures
            r@ == upn_spec(self.username@, domain@),
    {
        if crate::strutil::contains_char(self.username.as_str(), '@') {
            self.username.clone()
        } else {
            let mut s = self.username.clone();
            push_char(&mut s, '@');
            s.append(domain.as_str());
            s
        }
    }

    /// The username in DOMAIN\username form, prepending the domain when no
    /// backslash is present.
    pub fn domain_username(&self, domain: &String) -> (r: String)
        ensures
            r@ == domain_username_spec(self.username@, domain@),
    {
        if crate::strutil::contains_char(self.username.as_str(), '\\') {
            self.username.clone()
        } else {
            let mut s = domain.clone();
            push_char(&mut s, '\\');
            s.append(self.username.as_str());
            s
        }
    }

    /// Whether this credential carries the given privilege label.
    pub fn has_privilege(&self, privilege: &str) -> (r: bool)
        ensures
            r == has_privilege_spec(self.privileges@, privilege@),
    {
        let mut i: usize = 0;
        while i < self.privileges.len()
            invariant
                0 <= i <= self.privileges@.len(),
                forall|j: int|
                    0 <= j < i ==> lower_seq((#[trigger] self.privileges@[j])@) != lower_seq(
                        privilege@,
                    ),
            decreases self.privileges@.len() - i,
        {
            if eq_ignore_case(self.privileges[i].as_str(), privilege) {
                return true;
            }
            i = i + 1;
        }
        false
    }

    /// Add a privilege label unless an equivalent one is already present.
    pub fn add_privilege(&mut self, privilege: String)
        ensures
            same_identity(*final(self), *old(self)),
            final(self).is_validated == old(self).is_validated,
            final(self).last_used == old(self).last_used,
            final(self).metadata == old(self).metadata,
            has_privilege_spec(old(self).privileges@, privilege@) ==> final(self).privileges
                == old(self).privileges,
            !has_privilege_spec(old(self).privileges@, privilege@) ==> final(self).privileges@
                == old(self).privileges@.push(privilege),
    {
        if !self.has_privilege(privilege.as_str()) {
            self.privileges.push(privilege);
        }
    }

    /// Mark this credential validated and record the time of use.
    pub fn mark_validated(&mut self)
        ensures
            same_identity(*final(self), *old(self)),
            final(self).is_validated == true,
            final(self).last_used is Some,
            final(self).privileges == old(self).privileges,
            final(self).metadata == old(self).metadata,
    {
        self.is_validated = true;
        self.last_used = Option::Some(current_timestamp());
    }

    /// Record the time of the latest use of this credential.
    pub fn update_last_used(&mut self)
        ensures
            same_identity(*final(self), *old(self)),
            final(self).last_used is Some,
            final(self).is_validated == old(self).is_validated,
            final(self).privileges == old(self).privileges,
            final(self).metadata == old(self).metadata,
    {
        self.last_used = Option::Some(current_timestamp());
    }

    /// Store a metadata value under a key, replacing any previous entries
    /// under that key.
    pub fn set_metadata(&mut self, key: String, value: String)
        ensures
            same_identity(*final(self), *old(self)),
            final(self).metadata@ == meta_without(old(self).metadata@, key@).push((key, value)),
            final(self).is_validated == old(self).is_validated,
            final(self).last_used == old(self).last_used,
            final(self).privileges == old(self).privileges,
    {
        let mut kept: Vec<(String, String)> = Vec::new();
        let mut i: usize = 0;
        while i < self.metadata.len()
            invariant
                0 <= i <= self.metadata@.len(),
                kept@ == meta_without(self.metadata@.subrange(0, i as int), key@),
            decreases self.metadata@.len() - i,
        {
            proof {
                lemma_meta_without_push(self.metadata@.subrange(0, i as int), self.metadata@[
                    i as int], key@);
                assert(self.metadata@.subrange(0, i + 1) =~= self.metadata@.subrange(
                    0,
                    i as int,
                ).push(self.metadata@[i as int]));
            }
            if !str_eq(self.metadata[i].0.as_str(), key.as_str()) {
                let entry = (self.metadata[i].0.clone(), self.metadata[i].1.clone());
                proof {
                    assert(entry.0@ == self.metadata@[i as int].0@);
                }
                kept.push(entry);
                proof {
                    assert(kept@ =~= meta_without(self.metadata@.subrange(0, i + 1), key@));
                }
            }
            i = i + 1;
        }
        proof {
            assert(self.metadata@.subrange(0, self.metadata@.len() as int) =~= self.metadata@);
        }
        kept.push((key, value));
        self.metadata = kept;
    }

    /// Look up the first metadata value stored under a key.
    pub fn get_metadata(&self, key: &str) -> (r: Option<&String>)
        ensures
            r is Some <==> meta_lookup(self.metadata@, key@) is Some,
            r matches Some(v) ==> meta_lookup(self.metadata@, key@) == Option::Some(v@),
    {
        proof {
            assert(self.metadata@.subrange(0, self.metadata@.len() as int) =~= self.metadata@);
        }
        let mut i: usize = 0;
        while i < self.metadata.len()
            invariant
                0 <= i <= self.metadata@.len(),
                meta_lookup(self.metadata@, key@) == meta_lookup(
                    self.metadata@.subrange(i as int, self.metadata@.len() as int),
                    key@,
                ),
            decreases self.metadata@.len() - i,
        {
            proof {
                assert(self.metadata@.subrange(i as int, self.metadata@.len() as int).len() > 0);
                assert(self.metadata@.subrange(i as int, self.metadata@.len() as int)[0]
                    == self.metadata@[i as int]);
                assert(self.metadata@.subrange(i as int, self.metadata@.len() as int).subrange(
                    1,
                    (self.metadata@.len() - i) as int,
                ) =~= self.metadata@.subrange(i + 1, self.metadata@.len() as int));
            }
            if str_eq(self.metadata[i].0.as_str(), key) {
                return Option::Some(&self.metadata[i].1);
            }
            i = i + 1;
        }
        proof {
            assert(self.metadata@.subrange(
                self.metadata@.len() as int,
                self.metadata@.len() as int,
            ).len() == 0);
        }
        Option::None
    }

    /// Whether the payload carries secret material usable as-is.
    pub fn has_sensitive_auth_data(&self) -> (r: bool)
        ensures
            r == (self.auth_data is Password || (self.auth_data matches AuthData::Certificate {
                private_key,
                ..
            } && private_key is Some)),
    {
        match &self.auth_data {
            AuthData::Password(_) => true,
            AuthData::Certificate { private_key: Option::Some(_), .. } => true,
            _ => false,
        }
    }

    /// A safe display label for the authentication payload: it identifies
    /// the variant and never contains the secret material itself.
    pub fn auth_data_type(&self) -> (r: String)
        ensures
            r@ == auth_label_spec(self.auth_data),
    {
        match &self.auth_data {
            AuthData::Password(_) => String::from_str("Password"),
            AuthData::NtlmHash(_) => String::from_str("NTLM Hash"),
            AuthData::LmHash(_) => String::from_str("LM Hash"),
            AuthData::LmNtlm { .. } => String::from_str("LM/NTLM Hash"),
            AuthData::KerberosTicket(_) => String::from_str("Kerberos Ticket"),
            AuthData::Certificate { .. } => String::from_str("Certificate"),
            AuthData::Token(_) => String::from_str("Token"),
            AuthData::Custom(_) => String::from_str("Custom"),
        }
    }
}

proof fn lemma_meta_without_push(m: Seq<(String, String)>, e: (String, String), k: Seq<char>)
    ensures
        e.0@ == k ==> meta_without(m.push(e), k) == meta_without(m, k),
        e.0@ != k ==> meta_without(m.push(e), k) == meta_without(m, k).push(e),
    decreases m.len(),
{
    let mp = m.push(e);
    if m.len() == 0 {
        assert(mp[0] == e);
        assert(mp.subrange(1, mp.len() as int) =~= m);
        assert(meta_without(m, k) == m);
        if e.0@ != k {
            assert(seq![e] + m =~= m.push(e));
        }
    } else {
        let tail = m.subrange(1, m.len() as int);
        assert(mp[0] == m[0]);
        assert(mp.subrange(1, mp.len() as int) =~= tail.push(e));
        lemma_meta_without_push(tail, e, k);
        if e.0@ != k && m[0].0@ != k {
            assert(seq![m[0]] + meta_without(tail, k).push(e) =~= (seq![m[0]] + meta_without(
                tail,
                k,
            )).push(e));
        }
    }
}

} // verus!
