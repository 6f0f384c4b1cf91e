use vstd::prelude::*;

use crate::data::credential::{
    cred_eq_spec, cred_type_eq_spec, has_privilege_spec, AuthData, AuthType, Credential,
    CredentialType,
};
use crate::stores::index::{
    build_index, build_type_index, creds_for_key, creds_for_type, find_bucket, find_type_bucket,
    has_bucket_for, has_type_bucket_for, ids_for_key, ids_for_type, index_ok,
    lemma_creds_for_key_nonempty, lemma_creds_for_type_nonempty, lemma_ids_creds_align,
    lemma_ids_creds_align_type, sel_key, type_index_ok, type_matches, views_of, Bucket, FieldSel,
    TypeBucket,
};
use crate::strutil::{contains_seq, contains_str, eq_ignore_case, lower_seq, lower_str,
    push_char, starts_with_seq, starts_with_str, str_eq};

verus! {

/// Aggregate counts over the stored credentials.
#[derive(Debug)]
pub struct CredentialStats {
    pub total_credentials: usize,
    pub validated_credentials: usize,
    pub by_type: Vec<(CredentialType, usize)>,
    pub by_domain: Vec<(String, usize)>,
    pub by_source: Vec<(String, usize)>,
}

/// Conjunctive criteria for selecting credentials. The domain field is
/// accepted for the command surface but is no criterion: the conjunction
/// never consults it.
#[derive(Debug)]
pub struct CredentialFilter {
    /// Accepted but never consulted; no domain criterion exists.
    pub domain: Option<String>,
    pub username: Option<String>,
    pub credential_type: Option<CredentialType>,
    pub auth_type: Option<AuthType>,
    pub source: Option<String>,
    pub validated_only: bool,
    pub has_privileges: Option<Vec<String>>,
}

impl Default for CredentialFilter {
    /// The empty criteria: selects every credential.
    fn default() -> (r: CredentialFilter)
        ensures
            r.domain is None,
            r.username is None,
            r.credential_type is None,
            r.auth_type is None,
            r.source is None,
            r.validated_only == false,
            r.has_privileges is None,
    {
        CredentialFilter {
            domain: Option::None,
            username: Option::None,
            credential_type: Option::None,
            auth_type: Option::None,
            source: Option::None,
            validated_only: false,
            has_privileges: Option::None,
        }
    }
}

/// The outcome of removing by id prefix: the prefix named no credential,
/// several (nothing removed; their ids are reported), or exactly one.
#[derive(Debug)]
pub enum RemoveOutcome {
    NotFound,
    Ambiguous(Vec<String>),
    Removed(Credential),
}

/// Some credential in the sequence has the given id.
pub open spec fn contains_id(s: Seq<Credential>, id: Seq<char>) -> bool {
    exists|i: int| 0 <= i < s.len() && (#[trigger] s[i]).id@ == id
}

/// All ids in the sequence are distinct.
pub open spec fn unique_ids(s: Seq<Credential>) -> bool {
    forall|i: int, j: int|
        0 <= i < j < s.len() ==> (#[trigger] s[i]).id@ != (#[trigger] s[j]).id@
}

/// How many credentials in the sequence are validated.
pub open spec fn count_validated(s: Seq<Credential>) -> nat
    decreases s.len(),
{
    if s.len() == 0 {
        0
    } else {
        count_validated(s.drop_last()) + if s.last().is_validated {
            1nat
        } else {
            0nat
        }
    }
}

/// Pointwise deep equality of credential sequences.
pub open spec fn creds_seq_eq(a: Seq<Credential>, b: Seq<Credential>) -> bool {
    a.len() == b.len() && forall|i: int| 0 <= i < a.len() ==> cred_eq_spec(#[trigger] a[i], b[i])
}

/// The stats record is derived from the store and its indices.
pub open spec fn stats_ok(
    st: CredentialStats,
    s: Seq<Credential>,
    tidx: Seq<TypeBucket>,
    sidx: Seq<Bucket>,
) -> bool {
    &&& st.total_credentials == s.len()
    &&& st.validated_credentials == count_validated(s)
    &&& st.by_domain@.len() == 0
    &&& st.by_type@.len() == tidx.len()
    &&& forall|i: int|
        0 <= i < tidx.len() ==> cred_type_eq_spec((#[trigger] st.by_type@[i]).0, tidx[i].key)
            && st.by_type@[i].1 == tidx[i].ids@.len()
    &&& st.by_source@.len() == sidx.len()
    &&& forall|i: int|
        0 <= i < sidx.len() ==> (#[trigger] st.by_source@[i]).0@ == sidx[i].key@
            && st.by_source@[i].1 == sidx[i].ids@.len()
}

/// The multi-indexed owner of all known credentials.
#[derive(Debug)]
pub struct CredentialsStore {
    credentials: Vec<Credential>,
    username_index: Vec<Bucket>,
    type_index: Vec<TypeBucket>,
    source_index: Vec<Bucket>,
    stats: CredentialStats,
}

/// The auth-material tag selects the matching payload variant.
pub open spec fn auth_tag_matches(a: AuthData, t: AuthType) -> bool {
    match t {
        AuthType::Password => a is Password,
        AuthType::NtlmHash => a is NtlmHash,
        AuthType::LmHash => a is LmHash,
        AuthType::Tgt => a is KerberosTicket,
    }
}

/// A credential satisfies every criterion the filter supplies.
pub open spec fn matches_filter(c: Credential, f: CredentialFilter) -> bool {
    &&& (f.username matches Some(u) ==> lower_seq(c.username@) == lower_seq(u@))
    &&& (f.auth_type matches Some(t) ==> auth_tag_matches(c.auth_data, t))
    &&& (f.credential_type matches Some(ct) ==> cred_type_eq_spec(c.credential_type, ct))
    &&& (f.source matches Some(sc) ==> lower_seq(c.source@) == lower_seq(sc@))
    &&& (f.validated_only ==> c.is_validated)
    &&& (f.has_privileges matches Some(ps) ==> forall|i: int|
        0 <= i < ps@.len() ==> has_privilege_spec(c.privileges@, (#[trigger] ps@[i])@))
}

/// The credentials, in store order, satisfying the filter.
pub open spec fn filtered(s: Seq<Credential>, f: CredentialFilter) -> Seq<Credential>
    decreases s.len(),
{
    if s.len() == 0 {
        Seq::empty()
    } else {
        let prev = filtered(s.drop_last(), f);
        if matches_filter(s.last(), f) {
            prev.push(s.last())
        } else {
            prev
        }
    }
}

/// A credential matches a free-text search: the lowercased query occurs in
/// the lowercased username, source, or notes.
pub open spec fn matches_search(c: Credential, q: Seq<char>) -> bool {
    ||| contains_seq(lower_seq(c.username@), lower_seq(q))
    ||| contains_seq(lower_seq(c.source@), lower_seq(q))
    ||| (c.notes matches Some(n) && contains_seq(lower_seq(n@), lower_seq(q)))
}

/// The credentials, in store order, matching a free-text search.
pub open spec fn searched(s: Seq<Credential>, q: Seq<char>) -> Seq<Credential>
    decreases s.len(),
{
    if s.len() == 0 {
        Seq::empty()
    } else {
        let prev = searched(s.drop_last(), q);
        if matches_search(s.last(), q) {
            prev.push(s.last())
        } else {
            prev
        }
    }
}

/// The validated credentials, in store order.
pub open spec fn validated_of(s: Seq<Credential>) -> Seq<Credential>
    decreases s.len(),
{
    if s.len() == 0 {
        Seq::empty()
    } else {
        let prev = validated_of(s.drop_last());
        if s.last().is_validated {
            prev.push(s.last())
        } else {
            prev
        }
    }
}

/// The credentials carrying the given privilege label, in store order.
pub open spec fn with_privilege_of(s: Seq<Credential>, p: Seq<char>) -> Seq<Credential>
    decreases s.len(),
{
    if s.len() == 0 {
        Seq::empty()
    } else {
        let prev = with_privilege_of(s.drop_last(), p);
        if has_privilege_spec(s.last().privileges@, p) {
            prev.push(s.last())
        } else {
            prev
        }
    }
}

/// The credentials whose id starts with the prefix, in store order.
pub open spec fn prefix_matches(s: Seq<Credential>, p: Seq<char>) -> Seq<Credential>
    decreases s.len(),
{
    if s.len() == 0 {
        Seq::empty()
    } else {
        let prev = prefix_matches(s.drop_last(), p);
        if starts_with_seq(s.last().id@, p) {
            prev.push(s.last())
        } else {
            prev
        }
    }
}

/// The ids of a credential sequence, in order.
pub open spec fn ids_of(s: Seq<Credential>) -> Seq<Seq<char>> {
    s.map_values(|c: Credential| c.id@)
}

/// Position of the first credential with the given id, if any.
fn find_id(creds: &Vec<Credential>, id: &str) -> (r: Option<usize>)
    ensures
        r matches Some(i) ==> 0 <= i < creds@.len() && creds@[i as int].id@ == id@,
        r is None ==> !contains_id(creds@, id@),
{
    let mut i: usize = 0;
    while i < creds.len()
        invariant
            0 <= i <= creds@.len(),
            forall|j: int| 0 <= j < i ==> (#[trigger] creds@[j]).id@ != id@,
        decreases creds@.len() - i,
    {
        if str_eq(creds[i].id.as_str(), id) {
            return Option::Some(i);
        }
        i = i + 1;
    }
    Option::None
}

/// Compute the stats record from the store and its indices.
fn compute_stats(creds: &Vec<Credential>, tidx: &Vec<TypeBucket>, sidx: &Vec<Bucket>) -> (r:
    CredentialStats)
    ensures
        stats_ok(r, creds@, tidx@, sidx@),
{
    let mut validated: usize = 0;
    let mut i: usize = 0;
    proof {
        assert(creds@.subrange(0, 0) =~= Seq::<Credential>::empty());
    }
    while i < creds.len()
        invariant
            0 <= i <= creds@.len(),
            validated == count_validated(creds@.subrange(0, i as int)),
            validated <= i,
        decreases creds@.len() - i,
    {
        proof {
            assert(creds@.subrange(0, i + 1).drop_last() =~= creds@.subrange(0, i as int));
            assert(creds@.subrange(0, i + 1).last() == creds@[i as int]);
        }
        if creds[i].is_validated {
            validated = validated + 1;
        }
        i = i + 1;
    }
    proof {
        assert(creds@.subrange(0, creds@.len() as int) =~= creds@);
    }
    let mut by_type: Vec<(CredentialType, usize)> = Vec::new();
    let mut b: usize = 0;
    while b < tidx.len()
        invariant
            0 <= b <= tidx@.len(),
            by_type@.len() == b,
            forall|t: int|
                0 <= t < b ==> cred_type_eq_spec((#[trigger] by_type@[t]).0, tidx@[t].key)
                    && by_type@[t].1 == tidx@[t].ids@.len(),
        decreases tidx@.len() - b,
    {
        by_type.push((tidx[b].key.clone(), tidx[b].ids.len()));
        b = b + 1;
    }
    let mut by_source: Vec<(String, usize)> = Vec::new();
    let mut c: usize = 0;
    while c < sidx.len()
        invariant
            0 <= c <= sidx@.len(),
            by_source@.len() == c,
            forall|t: int|
                0 <= t < c ==> (#[trigger] by_source@[t]).0@ == sidx@[t].key@ && by_source@[t].1
                    == sidx@[t].ids@.len(),
        decreases sidx@.len() - c,
    {
        by_source.push((sidx[c].key.clone(), sidx[c].ids.len()));
        c = c + 1;
    }
    CredentialStats {
        total_credentials: creds.len(),
        validated_credentials: validated,
        by_type,
        by_domain: Vec::new(),
        by_source,
    }
}

impl Default for CredentialsStore {
    /// The default store is the empty one.
    fn default() -> (r: CredentialsStore)
        ensures
            r.wf(),
            r.creds().len() == 0,
    {
        CredentialsStore::new()
    }
}

impl CredentialsStore {
    /// The stored credentials, in insertion order: the primary map's contents.
    pub closed spec fn creds(&self) -> Seq<Credential> {
        self.credentials@
    }

    /// Well-formedness: ids unique; the three indices and the stats are
    /// exactly what the primary contents derive.
    pub closed spec fn wf(&self) -> bool {
        &&& unique_ids(self.credentials@)
        &&& index_ok(FieldSel::Username, self.username_index@, self.credentials@)
        &&& type_index_ok(self.type_index@, self.credentials@)
        &&& index_ok(FieldSel::Source, self.source_index@, self.credentials@)
        &&& stats_ok(self.stats, self.credentials@, self.type_index@, self.source_index@)
    }

    /// Create a new empty credentials store.
    pub fn new() -> (r: CredentialsStore)
        ensures
            r.wf(),
            r.creds().len() == 0,
    {
        let credentials: Vec<Credential> = Vec::new();
        let username_index = build_index(FieldSel::Username, &credentials);
        let type_index = build_type_index(&credentials);
        let source_index = build_index(FieldSel::Source, &credentials);
        let stats = compute_stats(&credentials, &type_index, &source_index);
        CredentialsStore { credentials, username_index, type_index, source_index, stats }
    }

    /// Rebuild the three indices and the stats from the primary contents.
    fn reindex(&mut self)
        ensures
            final(self).credentials == old(self).credentials,
            index_ok(FieldSel::Username, final(self).username_index@, final(self).credentials@),
            type_index_ok(final(self).type_index@, final(self).credentials@),
            index_ok(FieldSel::Source, final(self).source_index@, final(self).credentials@),
            stats_ok(
                final(self).stats,
                final(self).credentials@,
                final(self).type_index@,
                final(self).source_index@,
            ),
            final(self).username_index@.len() <= final(self).credentials@.len(),
            final(self).type_index@.len() <= final(self).credentials@.len(),
            final(self).source_index@.len() <= final(self).credentials@.len(),
    {
        self.username_index = build_index(FieldSel::Username, &self.credentials);
        self.type_index = build_type_index(&self.credentials);
        self.source_index = build_index(FieldSel::Source, &self.credentials);
        self.stats = compute_stats(&self.credentials, &self.type_index, &self.source_index);
    }

    /// Add a credential. A duplicate id is rejected, not overwritten.
    pub fn add_credential(&mut self, credential: Credential) -> (r: Result<String, String>)
        requires
            old(self).wf(),
        ensures
            final(self).wf(),
            contains_id(old(self).creds(), credential.id@) ==> r is Err && *final(self) == *old(
                self,
            ),
            !contains_id(old(self).creds(), credential.id@) ==> (r matches Ok(id) && id@
                == credential.id@ && final(self).creds() == old(self).creds().push(credential)),
    {
        match find_id(&self.credentials, credential.id.as_str()) {
            Option::Some(_) => {
                let mut msg = String::from_str("Credential with ID ");
                msg.append(credential.id.as_str());
                msg.append(" already exists");
                Result::Err(msg)
            },
            Option::None => {
                let id = credential.id.clone();
                let ghost old_creds = self.credentials@;
                self.credentials.push(credential);
                proof {
                    assert forall|i: int, j: int|
                        0 <= i < j < self.credentials@.len() implies (
                    #[trigger] self.credentials@[i]).id@ != (#[trigger] self.credentials@[j]).id@
                        by {
                        if j < old_creds.len() {
                            assert(self.credentials@[i] == old_creds[i]);
                            assert(self.credentials@[j] == old_creds[j]);
                        } else {
                            assert(self.credentials@[i] == old_creds[i]);
                            assert(!contains_id(old_creds, self.credentials@[j].id@));
                        }
                    }
                }
                self.reindex();
                Result::Ok(id)
            },
        }
    }

    /// Look up a credential by exact id.
    pub fn get_credential(&self, id: &str) -> (r: Option<&Credential>)
        ensures
            r is Some <==> contains_id(self.creds(), id@),
            r matches Some(c) ==> c.id@ == id@ && exists|i: int|
                0 <= i < self.creds().len() && #[trigger] self.creds()[i] == *c,
    {
        match find_id(&self.credentials, id) {
            Option::Some(i) => {
                proof {
                    assert(self.creds()[i as int] == self.creds()[i as int]);
                }
                Option::Some(&self.credentials[i])
            },
            Option::None => Option::None,
        }
    }

    /// Remove a credential by exact id; returns it when present.
    pub fn remove_credential(&mut self, id: &str) -> (r: Option<Credential>)
        requires
            old(self).wf(),
        ensures
            final(self).wf(),
            !contains_id(old(self).creds(), id@) ==> r is None && *final(self) == *old(self),
            contains_id(old(self).creds(), id@) ==> exists|i: int|
                0 <= i < old(self).creds().len() && (#[trigger] old(self).creds()[i]).id@ == id@
                    && r == Option::Some(old(self).creds()[i]) && final(self).creds() == old(
                    self,
                ).creds().remove(i),
    {
        match find_id(&self.credentials, id) {
            Option::None => Option::None,
            Option::Some(i) => {
                let ghost old_creds = self.credentials@;
                let c = self.credentials.remove(i);
                proof {
                    lemma_unique_remove(old_creds, i as int);
                }
                self.reindex();
                Option::Some(c)
            },
        }
    }

    /// Replace the credential stored under `id` with `updated_credential`.
    /// Changing the id to one already present elsewhere is rejected.
    pub fn update_credential(&mut self, id: &str, updated_credential: Credential) -> (r: Result<
        (),
        String,
    >)
        requires
            old(self).wf(),
        ensures
            final(self).wf(),
            !contains_id(old(self).creds(), id@) ==> r is Err && *final(self) == *old(self),
            contains_id(old(self).creds(), id@) && updated_credential.id@ != id@ && contains_id(
                old(self).creds(),
                updated_credential.id@,
            ) ==> r is Err && *final(self) == *old(self),
            contains_id(old(self).creds(), id@) && (updated_credential.id@ == id@ || !contains_id(
                old(self).creds(),
                updated_credential.id@,
            )) ==> r is Ok && exists|i: int|
                0 <= i < old(self).creds().len() && (#[trigger] old(self).creds()[i]).id@ == id@
                    && final(self).creds() == old(self).creds().update(i, updated_credential),
    {
        let i = match find_id(&self.credentials, id) {
            Option::None => {
                let mut msg = String::from_str("Credential with ID ");
                msg.append(id);
                msg.append(" not found");
                return Result::Err(msg);
            },
            Option::Some(i) => i,
        };
        if !str_eq(updated_credential.id.as_str(), id) {
            match find_id(&self.credentials, updated_credential.id.as_str()) {
                Option::Some(_) => {
                    let mut msg = String::from_str("Credential with ID ");
                    msg.append(updated_credential.id.as_str());
                    msg.append(" already exists");
                    return Result::Err(msg);
                },
                Option::None => {},
            }
        }
        let ghost old_creds = self.credentials@;
        let ghost upd = updated_credential;
        let _ = self.credentials.remove(i);
        self.credentials.insert(i, updated_credential);
        proof {
            assert(self.credentials@ =~= old_creds.update(i as int, upd));
            assert forall|a: int, b: int|
                0 <= a < b < self.credentials@.len() implies (
            #[trigger] self.credentials@[a]).id@ != (#[trigger] self.credentials@[b]).id@ by {
                if a != i && b != i {
                    assert(self.credentials@[a] == old_creds[a]);
                    assert(self.credentials@[b] == old_creds[b]);
                } else if a == i {
                    assert(self.credentials@[b] == old_creds[b]);
                    if upd.id@ == id@ {
                        assert(old_creds[i as int].id@ == id@);
                    } else {
                        assert(!contains_id(old_creds, upd.id@));
                    }
                } else {
                    assert(self.credentials@[a] == old_creds[a]);
                    if upd.id@ == id@ {
                        assert(old_creds[i as int].id@ == id@);
                    } else {
                        assert(!contains_id(old_creds, upd.id@));
                    }
                }
            }
        }
        self.reindex();
        Result::Ok(())
    }

    /// Copies of all stored credentials, in store order.
    pub fn get_all_credentials(&self) -> (r: Vec<Credential>)
        ensures
            creds_seq_eq(r@, self.creds()),
    {
        let mut out: Vec<Credential> = Vec::new();
        let mut i: usize = 0;
        while i < self.credentials.len()
            invariant
                0 <= i <= self.creds().len(),
                out@.len() == i,
                forall|j: int| 0 <= j < i ==> cred_eq_spec(#[trigger] out@[j], self.creds()[j]),
            decreases self.creds().len() - i,
        {
            out.push(self.credentials[i].clone());
            i = i + 1;
        }
        out
    }

    /// Mark the credential with the given id validated, stamping its last use.
    pub fn mark_credential_validated(&mut self, id: &str) -> (r: Result<(), String>)
        requires
            old(self).wf(),
        ensures
            final(self).wf(),
            !contains_id(old(self).creds(), id@) ==> r is Err && *final(self) == *old(self),
            contains_id(old(self).creds(), id@) ==> r is Ok && exists|i: int|
                {
                    &&& 0 <= i < old(self).creds().len()
                    &&& (#[trigger] old(self).creds()[i]).id@ == id@
                    &&& final(self).creds().len() == old(self).creds().len()
                    &&& crate::data::credential::same_identity(
                        final(self).creds()[i],
                        old(self).creds()[i],
                    )
                    &&& final(self).creds()[i].privileges == old(self).creds()[i].privileges
                    &&& final(self).creds()[i].metadata == old(self).creds()[i].metadata
                    &&& final(self).creds()[i].is_validated == true
                    &&& final(self).creds()[i].last_used is Some
                    &&& forall|j: int|
                        0 <= j < old(self).creds().len() && j != i ==> final(self).creds()[j]
                            == old(self).creds()[j]
                },
    {
        let i = match find_id(&self.credentials, id) {
            Option::None => {
                let mut msg = String::from_str("Credential with ID ");
                msg.append(id);
                msg.append(" not found");
                return Result::Err(msg);
            },
            Option::Some(i) => i,
        };
        let ghost old_creds = self.credentials@;
        let mut c = self.credentials.remove(i);
        c.mark_validated();
        self.credentials.insert(i, c);
        proof {
            assert(forall|j: int|
                0 <= j < old_creds.len() && j != i ==> #[trigger] self.credentials@[j]
                    == old_creds[j]) by {
                assert forall|j: int|
                    0 <= j < old_creds.len() && j != i implies #[trigger] self.credentials@[j]
                    == old_creds[j] by {
                    if j < i {
                    } else {
                    }
                }
            }
            lemma_unique_update_same_id(old_creds, i as int, self.credentials@);
        }
        self.reindex();
        Result::Ok(())
    }

    /// Stamp the last-used time of the credential with the given id.
    pub fn update_credential_last_used(&mut self, id: &str) -> (r: Result<(), String>)
        requires
            old(self).wf(),
        ensures
            final(self).wf(),
            !contains_id(old(self).creds(), id@) ==> r is Err && *final(self) == *old(self),
            contains_id(old(self).creds(), id@) ==> r is Ok && exists|i: int|
                {
                    &&& 0 <= i < old(self).creds().len()
                    &&& (#[trigger] old(self).creds()[i]).id@ == id@
                    &&& final(self).creds().len() == old(self).creds().len()
                    &&& crate::data::credential::same_identity(
                        final(self).creds()[i],
                        old(self).creds()[i],
                    )
                    &&& final(self).creds()[i].privileges == old(self).creds()[i].privileges
                    &&& final(self).creds()[i].metadata == old(self).creds()[i].metadata
                    &&& final(self).creds()[i].is_validated == old(self).creds()[i].is_validated
                    &&& final(self).creds()[i].last_used is Some
                    &&& forall|j: int|
                        0 <= j < old(self).creds().len() && j != i ==> final(self).creds()[j]
                            == old(self).creds()[j]
                },
    {
        let i = match find_id(&self.credentials, id) {
            Option::None => {
                let mut msg = String::from_str("Credential with ID ");
                msg.append(id);
                msg.append(" not found");
                return Result::Err(msg);
            },
            Option::Some(i) => i,
        };
        let ghost old_creds = self.credentials@;
        let mut c = self.credentials.remove(i);
        c.update_last_used();
        self.credentials.insert(i, c);
        proof {
            assert forall|j: int|
                0 <= j < old_creds.len() && j != i implies #[trigger] self.credentials@[j]
                == old_creds[j] by {}
            lemma_unique_update_same_id(old_creds, i as int, self.credentials@);
        }
        self.reindex();
        Result::Ok(())
    }

    /// The statistics the store currently holds.
    pub closed spec fn spec_stats(&self) -> CredentialStats {
        self.stats
    }

    /// Law: a well-formed store's primary contents carry distinct ids.
    /// Outside callers can rely on this without sight of the closed
    /// well-formedness definition.
    pub proof fn lemma_wf_unique_ids(&self)
        requires
            self.wf(),
        ensures
            unique_ids(self.creds()),
    {
    }

    /// In a well-formed store the statistics reflect the contents.
    pub proof fn lemma_stats_reflect(&self)
        requires
            self.wf(),
        ensures
            self.spec_stats().total_credentials == self.creds().len(),
            self.spec_stats().validated_credentials == count_validated(self.creds()),
            self.spec_stats().by_domain@.len() == 0,
    {
    }

    /// Law: in a well-formed store every per-classification stats entry
    /// counts exactly the stored credentials of that classification, and
    /// every per-source entry counts exactly those filed under that
    /// lowercased source key.
    pub proof fn lemma_stats_counts(&self)
        requires
            self.wf(),
        ensures
            forall|i: int|
                0 <= i < self.spec_stats().by_type@.len() ==> (
                #[trigger] self.spec_stats().by_type@[i]).1 == creds_for_type(
                    self.creds(),
                    self.spec_stats().by_type@[i].0,
                ).len(),
            forall|i: int|
                0 <= i < self.spec_stats().by_source@.len() ==> (
                #[trigger] self.spec_stats().by_source@[i]).1 == creds_for_key(
                    FieldSel::Source,
                    self.creds(),
                    self.spec_stats().by_source@[i].0@,
                ).len(),
    {
        assert forall|i: int| 0 <= i < self.spec_stats().by_type@.len() implies (
        #[trigger] self.spec_stats().by_type@[i]).1 == creds_for_type(
            self.creds(),
            self.spec_stats().by_type@[i].0,
        ).len() by {
            let bk = self.type_index@[i];
            assert(views_of(bk.ids@).len() == ids_for_type(self.creds(), bk.key).len());
            crate::stores::index::lemma_ids_creds_align_type(self.creds(), bk.key);
            crate::stores::index::lemma_cred_type_eq_symm(
                self.spec_stats().by_type@[i].0,
                bk.key,
            );
            crate::stores::index::lemma_for_type_congruent(
                self.creds(),
                self.spec_stats().by_type@[i].0,
                bk.key,
            );
            assert(views_of(bk.ids@).len() == bk.ids@.len());
        }
        assert forall|i: int| 0 <= i < self.spec_stats().by_source@.len() implies (
        #[trigger] self.spec_stats().by_source@[i]).1 == creds_for_key(
            FieldSel::Source,
            self.creds(),
            self.spec_stats().by_source@[i].0@,
        ).len() by {
            let bk = self.source_index@[i];
            assert(views_of(bk.ids@).len() == ids_for_key(
                FieldSel::Source,
                self.creds(),
                bk.key@,
            ).len());
            lemma_ids_creds_align(FieldSel::Source, self.creds(), bk.key@);
            assert(views_of(bk.ids@).len() == bk.ids@.len());
        }
    }

    /// The current aggregate statistics.
    pub fn get_stats(&self) -> (r: &CredentialStats)
        ensures
            *r == self.spec_stats(),
    {
        &self.stats
    }

    /// Total number of stored credentials.
    pub fn len(&self) -> (r: usize)
        ensures
            r == self.creds().len(),
    {
        self.credentials.len()
    }

    /// Whether the store holds no credentials.
    pub fn is_empty(&self) -> (r: bool)
        ensures
            r == (self.creds().len() == 0),
    {
        self.credentials.is_empty()
    }

    /// Remove every credential and reset indices and statistics: afterwards
    /// the statistics equal the default record.
    pub fn clear(&mut self)
        ensures
            final(self).wf(),
            final(self).creds().len() == 0,
            final(self).spec_stats().total_credentials == 0,
            final(self).spec_stats().validated_credentials == 0,
            final(self).spec_stats().by_type@.len() == 0,
            final(self).spec_stats().by_domain@.len() == 0,
            final(self).spec_stats().by_source@.len() == 0,
    {
        self.credentials.clear();
        self.reindex();
    }
}

/// Distinct ids survive removing one element.
proof fn lemma_unique_remove(s: Seq<Credential>, i: int)
    requires
        unique_ids(s),
        0 <= i < s.len(),
    ensures
        unique_ids(s.remove(i)),
{
    let t = s.remove(i);
    assert forall|a: int, b: int| 0 <= a < b < t.len() implies (#[trigger] t[a]).id@ != (
    #[trigger] t[b]).id@ by {
        let a0 = if a < i {
            a
        } else {
            a + 1
        };
        let b0 = if b < i {
            b
        } else {
            b + 1
        };
        assert(t[a] == s[a0]);
        assert(t[b] == s[b0]);
    }
}

/// Distinct ids survive replacing an element with one of the same id.
proof fn lemma_unique_update_same_id(s: Seq<Credential>, i: int, t: Seq<Credential>)
    requires
        unique_ids(s),
        0 <= i < s.len(),
        t.len() == s.len(),
        t[i].id@ == s[i].id@,
        forall|j: int| 0 <= j < s.len() && j != i ==> #[trigger] t[j] == s[j],
    ensures
        unique_ids(t),
{
    assert forall|a: int, b: int| 0 <= a < b < t.len() implies (#[trigger] t[a]).id@ != (
    #[trigger] t[b]).id@ by {
        assert(s[a].id@ != s[b].id@);
    }
}

fn all_privileges_present(c: &Credential, ps: &Vec<String>) -> (r: bool)
    ensures
        r == (forall|i: int|
            0 <= i < ps@.len() ==> has_privilege_spec(c.privileges@, (#[trigger] ps@[i])@)),
{
    let mut j: usize = 0;
    while j < ps.len()
        invariant
            0 <= j <= ps@.len(),
            forall|t: int| 0 <= t < j ==> has_privilege_spec(c.privileges@, (#[trigger] ps@[t])@),
        decreases ps@.len() - j,
    {
        if !c.has_privilege(ps[j].as_str()) {
            return false;
        }
        j = j + 1;
    }
    true
}

fn matches_filter_exec(c: &Credential, f: &CredentialFilter) -> (r: bool)
    ensures
        r == matches_filter(*c, *f),
{
    let user_ok: bool = match &f.username {
        Option::Some(u) => eq_ignore_case(c.username.as_str(), u.as_str()),
        Option::None => true,
    };
    let tag_ok: bool = match &f.auth_type {
        Option::Some(t) => match t {
            AuthType::Password => matches!(&c.auth_data, AuthData::Password(_)),
            AuthType::NtlmHash => matches!(&c.auth_data, AuthData::NtlmHash(_)),
            AuthType::LmHash => matches!(&c.auth_data, AuthData::LmHash(_)),
            AuthType::Tgt => matches!(&c.auth_data, AuthData::KerberosTicket(_)),
        },
        Option::None => true,
    };
    let type_ok: bool = match &f.credential_type {
        Option::Some(ct) => c.credential_type == *ct,
        Option::None => true,
    };
    let source_ok: bool = match &f.source {
        Option::Some(sc) => eq_ignore_case(c.source.as_str(), sc.as_str()),
        Option::None => true,
    };
    let validated_ok: bool = !f.validated_only || c.is_validated;
    let privs_ok: bool = match &f.has_privileges {
        Option::Some(ps) => all_privileges_present(c, ps),
        Option::None => true,
    };
    user_ok && tag_ok && type_ok && source_ok && validated_ok && privs_ok
}

impl CredentialsStore {
    /// All credentials satisfying every supplied criterion, in store order.
    /// The criteria are a pure conjunction: each supplied one is applied.
    pub fn filter_credentials(&self, filter: &CredentialFilter) -> (r: Vec<Credential>)
        ensures
            creds_seq_eq(r@, filtered(self.creds(), *filter)),
    {
        let mut out: Vec<Credential> = Vec::new();
        let mut i: usize = 0;
        proof {
            assert(self.creds().subrange(0, 0) =~= Seq::<Credential>::empty());
        }
        while i < self.credentials.len()
            invariant
                0 <= i <= self.creds().len(),
                creds_seq_eq(out@, filtered(self.creds().subrange(0, i as int), *filter)),
            decreases self.creds().len() - i,
        {
            proof {
                assert(self.creds().subrange(0, i + 1).drop_last() =~= self.creds().subrange(
                    0,
                    i as int,
                ));
                assert(self.creds().subrange(0, i + 1).last() == self.creds()[i as int]);
            }
            if matches_filter_exec(&self.credentials[i], filter) {
                out.push(self.credentials[i].clone());
            }
            i = i + 1;
        }
        proof {
            assert(self.creds().subrange(0, self.creds().len() as int) =~= self.creds());
        }
        out
    }

    /// All credentials whose username, source or notes contain the query,
    /// ASCII-case-insensitively, in store order.
    pub fn search_credentials(&self, query: &str) -> (r: Vec<Credential>)
        ensures
            creds_seq_eq(r@, searched(self.creds(), query@)),
    {
        let ql = lower_str(query);
        let mut out: Vec<Credential> = Vec::new();
        let mut i: usize = 0;
        proof {
            assert(self.creds().subrange(0, 0) =~= Seq::<Credential>::empty());
        }
        while i < self.credentials.len()
            invariant
                0 <= i <= self.creds().len(),
                ql@ == lower_seq(query@),
                creds_seq_eq(out@, searched(self.creds().subrange(0, i as int), query@)),
            decreases self.creds().len() - i,
        {
            proof {
                assert(self.creds().subrange(0, i + 1).drop_last() =~= self.creds().subrange(
                    0,
                    i as int,
                ));
                assert(self.creds().subrange(0, i + 1).last() == self.creds()[i as int]);
            }
            let c = &self.credentials[i];
            let lu = lower_str(c.username.as_str());
            let ls = lower_str(c.source.as_str());
            let mut hit: bool = contains_str(lu.as_str(), ql.as_str()) || contains_str(
                ls.as_str(),
                ql.as_str(),
            );
            if !hit {
                match &c.notes {
                    Option::Some(n) => {
                        let ln = lower_str(n.as_str());
                        hit = contains_str(ln.as_str(), ql.as_str());
                    },
                    Option::None => {},
                }
            }
            if hit {
                out.push(self.credentials[i].clone());
            }
            i = i + 1;
        }
        proof {
            assert(self.creds().subrange(0, self.creds().len() as int) =~= self.creds());
        }
        out
    }

    /// The validated credentials, in store order.
    pub fn get_validated_credentials(&self) -> (r: Vec<Credential>)
        ensures
            creds_seq_eq(r@, validated_of(self.creds())),
    {
        let mut out: Vec<Credential> = Vec::new();
        let mut i: usize = 0;
        proof {
            assert(self.creds().subrange(0, 0) =~= Seq::<Credential>::empty());
        }
        while i < self.credentials.len()
            invariant
                0 <= i <= self.creds().len(),
                creds_seq_eq(out@, validated_of(self.creds().subrange(0, i as int))),
            decreases self.creds().len() - i,
        {
            proof {
                assert(self.creds().subrange(0, i + 1).drop_last() =~= self.creds().subrange(
                    0,
                    i as int,
                ));
                assert(self.creds().subrange(0, i + 1).last() == self.creds()[i as int]);
            }
            if self.credentials[i].is_validated {
                out.push(self.credentials[i].clone());
            }
            i = i + 1;
        }
        proof {
            assert(self.creds().subrange(0, self.creds().len() as int) =~= self.creds());
        }
        out
    }

    /// The credentials carrying the given privilege label, in store order.
    pub fn get_credentials_with_privilege(&self, privilege: &str) -> (r: Vec<Credential>)
        ensures
            creds_seq_eq(r@, with_privilege_of(self.creds(), privilege@)),
    {
        let mut out: Vec<Credential> = Vec::new();
        let mut i: usize = 0;
        proof {
            assert(self.creds().subrange(0, 0) =~= Seq::<Credential>::empty());
        }
        while i < self.credentials.len()
            invariant
                0 <= i <= self.creds().len(),
                creds_seq_eq(out@, with_privilege_of(self.creds().subrange(0, i as int), privilege@)),
            decreases self.creds().len() - i,
        {
            proof {
                assert(self.creds().subrange(0, i + 1).drop_last() =~= self.creds().subrange(
                    0,
                    i as int,
                ));
                assert(self.creds().subrange(0, i + 1).last() == self.creds()[i as int]);
            }
            if self.credentials[i].has_privilege(privilege) {
                out.push(self.credentials[i].clone());
            }
            i = i + 1;
        }
        proof {
            assert(self.creds().subrange(0, self.creds().len() as int) =~= self.creds());
        }
        out
    }

    /// The credentials filed under the lowercased username, answered from the
    /// username index.
    pub fn get_credentials_by_username(&self, username: &str) -> (r: Vec<Credential>)
        requires
            self.wf(),
        ensures
            creds_seq_eq(
                r@,
                creds_for_key(FieldSel::Username, self.creds(), lower_seq(username@)),
            ),
    {
        let key = lower_str(username);
        match find_bucket(&self.username_index, key.as_str()) {
            Option::None => {
                proof {
                    lemma_creds_for_key_nonempty(FieldSel::Username, self.creds(), key@);
                    if creds_for_key(FieldSel::Username, self.creds(), key@).len() > 0 {
                        let i = choose|i: int|
                            0 <= i < self.creds().len() && sel_key(
                                FieldSel::Username,
                                #[trigger] self.creds()[i],
                            ) == key@;
                        assert(has_bucket_for(self.username_index@, sel_key(
                            FieldSel::Username,
                            self.creds()[i],
                        )));
                        let b = choose|b: int|
                            0 <= b < self.username_index@.len() && (
                            #[trigger] self.username_index@[b]).key@ == key@;
                        assert(false);
                    }
                }
                Vec::new()
            },
            Option::Some(b) => self.collect_from_bucket_username(b, Ghost(key@)),
        }
    }

    /// Walk one username-index bucket, resolving each id in the primary map.
    fn collect_from_bucket_username(&self, b: usize, gkey: Ghost<Seq<char>>) -> (r: Vec<
        Credential,
    >)
        requires
            self.wf(),
            0 <= b < self.username_index@.len(),
            self.username_index@[b as int].key@ == gkey@,
        ensures
            creds_seq_eq(r@, creds_for_key(FieldSel::Username, self.creds(), gkey@)),
    {
        let ghost target = creds_for_key(FieldSel::Username, self.creds(), gkey@);
        proof {
            lemma_ids_creds_align(FieldSel::Username, self.creds(), gkey@);
        }
        let ids = &self.username_index[b].ids;
        let mut out: Vec<Credential> = Vec::new();
        let mut j: usize = 0;
        while j < ids.len()
            invariant
                self.wf(),
                0 <= b < self.username_index@.len(),
                self.username_index@[b as int].key@ == gkey@,
                ids == &self.username_index@[b as int].ids,
                target == creds_for_key(FieldSel::Username, self.creds(), gkey@),
                ids@.len() == target.len(),
                0 <= j <= ids@.len(),
                creds_seq_eq(out@, target.subrange(0, j as int)),
            decreases ids@.len() - j,
        {
            proof {
                lemma_ids_creds_align(FieldSel::Username, self.creds(), gkey@);
                assert(views_of(ids@)[j as int] == ids@[j as int]@);
                assert(ids@[j as int]@ == target[j as int].id@);
            }
            let ci = match find_id(&self.credentials, ids[j].as_str()) {
                Option::Some(ci) => ci,
                Option::None => {
                    proof {
                        let m = choose|m: int|
                            0 <= m < self.creds().len() && #[trigger] self.creds()[m] == target[
                            j as int];
                        assert(self.creds()[m].id@ == ids@[j as int]@);
                        assert(contains_id(self.creds(), ids@[j as int]@));
                        assert(false);
                    }
                    vstd::pervasive::unreached()
                },
            };
            proof {
                let m = choose|m: int|
                    0 <= m < self.creds().len() && #[trigger] self.creds()[m] == target[j as int];
                if ci as int != m {
                    assert(self.creds()[ci as int].id@ == self.creds()[m].id@);
                    assert(false);
                }
                assert(self.creds()[ci as int] == target[j as int]);
                assert(target.subrange(0, j + 1) =~= target.subrange(0, j as int).push(target[
                    j as int]));
            }
            out.push(self.credentials[ci].clone());
            j = j + 1;
        }
        proof {
            assert(target.subrange(0, target.len() as int) =~= target);
        }
        out
    }

    /// The credentials filed under the lowercased source label, answered from
    /// the source index.
    pub fn get_credentials_by_source(&self, source: &str) -> (r: Vec<Credential>)
        requires
            self.wf(),
        ensures
            creds_seq_eq(r@, creds_for_key(FieldSel::Source, self.creds(), lower_seq(source@))),
    {
        let key = lower_str(source);
        match find_bucket(&self.source_index, key.as_str()) {
            Option::None => {
                proof {
                    lemma_creds_for_key_nonempty(FieldSel::Source, self.creds(), key@);
                    if creds_for_key(FieldSel::Source, self.creds(), key@).len() > 0 {
                        let i = choose|i: int|
                            0 <= i < self.creds().len() && sel_key(
                                FieldSel::Source,
                                #[trigger] self.creds()[i],
                            ) == key@;
                        assert(has_bucket_for(self.source_index@, sel_key(
                            FieldSel::Source,
                            self.creds()[i],
                        )));
                        let b = choose|b: int|
                            0 <= b < self.source_index@.len() && (
                            #[trigger] self.source_index@[b]).key@ == key@;
                        assert(false);
                    }
                }
                Vec::new()
            },
            Option::Some(b) => self.collect_from_bucket_source(b, Ghost(key@)),
        }
    }

    /// Walk one source-index bucket, resolving each id in the primary map.
    fn collect_from_bucket_source(&self, b: usize, gkey: Ghost<Seq<char>>) -> (r: Vec<Credential>)
        requires
            self.wf(),
            0 <= b < self.source_index@.len(),
            self.source_index@[b as int].key@ == gkey@,
        ensures
            creds_seq_eq(r@, creds_for_key(FieldSel::Source, self.creds(), gkey@)),
    {
        let ghost target = creds_for_key(FieldSel::Source, self.creds(), gkey@);
        proof {
            lemma_ids_creds_align(FieldSel::Source, self.creds(), gkey@);
        }
        let ids = &self.source_index[b].ids;
        let mut out: Vec<Credential> = Vec::new();
        let mut j: usize = 0;
        while j < ids.len()
            invariant
                self.wf(),
                0 <= b < self.source_index@.len(),
                self.source_index@[b as int].key@ == gkey@,
                ids == &self.source_index@[b as int].ids,
                target == creds_for_key(FieldSel::Source, self.creds(), gkey@),
                ids@.len() == target.len(),
                0 <= j <= ids@.len(),
                creds_seq_eq(out@, target.subrange(0, j as int)),
            decreases ids@.len() - j,
        {
            proof {
                lemma_ids_creds_align(FieldSel::Source, self.creds(), gkey@);
                assert(views_of(ids@)[j as int] == ids@[j as int]@);
                assert(ids@[j as int]@ == target[j as int].id@);
            }
            let ci = match find_id(&self.credentials, ids[j].as_str()) {
                Option::Some(ci) => ci,
                Option::None => {
                    proof {
                        let m = choose|m: int|
                            0 <= m < self.creds().len() && #[trigger] self.creds()[m] == target[
                            j as int];
                        assert(self.creds()[m].id@ == ids@[j as int]@);
                        assert(contains_id(self.creds(), ids@[j as int]@));
                        assert(false);
                    }
                    vstd::pervasive::unreached()
                },
            };
            proof {
                let m = choose|m: int|
                    0 <= m < self.creds().len() && #[trigger] self.creds()[m] == target[j as int];
                if ci as int != m {
                    assert(self.creds()[ci as int].id@ == self.creds()[m].id@);
                    assert(false);
                }
                assert(self.creds()[ci as int] == target[j as int]);
                assert(target.subrange(0, j + 1) =~= target.subrange(0, j as int).push(target[
                    j as int]));
            }
            out.push(self.credentials[ci].clone());
            j = j + 1;
        }
        proof {
            assert(target.subrange(0, target.len() as int) =~= target);
        }
        out
    }

    /// The credentials with the given classification, answered from the
    /// classification index.
    pub fn get_credentials_by_type(&self, credential_type: &CredentialType) -> (r: Vec<Credential>)
        requires
            self.wf(),
        ensures
            creds_seq_eq(r@, creds_for_type(self.creds(), *credential_type)),
    {
        match find_type_bucket(&self.type_index, credential_type) {
            Option::None => {
                proof {
                    lemma_creds_for_type_nonempty(self.creds(), *credential_type);
                    if creds_for_type(self.creds(), *credential_type).len() > 0 {
                        let i = choose|i: int|
                            0 <= i < self.creds().len() && type_matches(
                                #[trigger] self.creds()[i],
                                *credential_type,
                            );
                        assert(has_type_bucket_for(
                            self.type_index@,
                            self.creds()[i].credential_type,
                        ));
                        let b = choose|b: int|
                            0 <= b < self.type_index@.len() && cred_type_eq_spec(
                                (#[trigger] self.type_index@[b]).key,
                                self.creds()[i].credential_type,
                            );
                        crate::stores::index::lemma_cred_type_eq_symm(
                            self.creds()[i].credential_type,
                            *credential_type,
                        );
                        crate::stores::index::lemma_cred_type_eq_trans(
                            self.type_index@[b].key,
                            self.creds()[i].credential_type,
                            *credential_type,
                        );
                        assert(false);
                    }
                }
                Vec::new()
            },
            Option::Some(b) => {
                proof {
                    crate::stores::index::lemma_for_type_congruent(
                        self.creds(),
                        self.type_index@[b as int].key,
                        *credential_type,
                    );
                }
                self.collect_from_bucket_type(b, credential_type)
            },
        }
    }

    /// Walk one classification bucket, resolving each id in the primary map.
    fn collect_from_bucket_type(&self, b: usize, key: &CredentialType) -> (r: Vec<Credential>)
        requires
            self.wf(),
            0 <= b < self.type_index@.len(),
            ids_for_type(self.creds(), self.type_index@[b as int].key) == ids_for_type(
                self.creds(),
                *key,
            ),
            creds_for_type(self.creds(), self.type_index@[b as int].key) == creds_for_type(
                self.creds(),
                *key,
            ),
        ensures
            creds_seq_eq(r@, creds_for_type(self.creds(), *key)),
    {
        let ghost target = creds_for_type(self.creds(), *key);
        proof {
            lemma_ids_creds_align_type(self.creds(), *key);
        }
        let ids = &self.type_index[b].ids;
        let mut out: Vec<Credential> = Vec::new();
        let mut j: usize = 0;
        while j < ids.len()
            invariant
                self.wf(),
                0 <= b < self.type_index@.len(),
                ids == &self.type_index@[b as int].ids,
                views_of(ids@) == ids_for_type(self.creds(), *key),
                target == creds_for_type(self.creds(), *key),
                ids@.len() == target.len(),
                0 <= j <= ids@.len(),
                creds_seq_eq(out@, target.subrange(0, j as int)),
            decreases ids@.len() - j,
        {
            proof {
                lemma_ids_creds_align_type(self.creds(), *key);
                assert(views_of(ids@)[j as int] == ids@[j as int]@);
                assert(ids@[j as int]@ == target[j as int].id@);
            }
            let ci = match find_id(&self.credentials, ids[j].as_str()) {
                Option::Some(ci) => ci,
                Option::None => {
                    proof {
                        let m = choose|m: int|
                            0 <= m < self.creds().len() && #[trigger] self.creds()[m] == target[
                            j as int];
                        assert(self.creds()[m].id@ == ids@[j as int]@);
                        assert(contains_id(self.creds(), ids@[j as int]@));
                        assert(false);
                    }
                    vstd::pervasive::unreached()
                },
            };
            proof {
                let m = choose|m: int|
                    0 <= m < self.creds().len() && #[trigger] self.creds()[m] == target[j as int];
                if ci as int != m {
                    assert(self.creds()[ci as int].id@ == self.creds()[m].id@);
                    assert(false);
                }
                assert(self.creds()[ci as int] == target[j as int]);
                assert(target.subrange(0, j + 1) =~= target.subrange(0, j as int).push(target[
                    j as int]));
            }
            out.push(self.credentials[ci].clone());
            j = j + 1;
        }
        proof {
            assert(target.subrange(0, target.len() as int) =~= target);
        }
        out
    }

    /// Remove by id prefix. With no match nothing happens; with several the
    /// matching ids are reported and nothing is removed; with exactly one the
    /// credential is removed and returned.
    pub fn remove_by_id_prefix(&mut self, prefix: &str) -> (r: RemoveOutcome)
        requires
            old(self).wf(),
        ensures
            final(self).wf(),
            prefix_matches(old(self).creds(), prefix@).len() == 0 ==> r is NotFound && *final(self)
                == *old(self),
            prefix_matches(old(self).creds(), prefix@).len() >= 2 ==> (r matches RemoveOutcome::Ambiguous(ids)
                && views_of(ids@) == ids_of(prefix_matches(old(self).creds(), prefix@))
                && *final(self) == *old(self)),
            prefix_matches(old(self).creds(), prefix@).len() == 1 ==> (r matches RemoveOutcome::Removed(c)
                && exists|i: int|
                0 <= i < old(self).creds().len() && #[trigger] old(self).creds()[i] == c
                    && starts_with_seq(c.id@, prefix@)
                    && final(self).creds() == old(self).creds().remove(i)),
    {
        let ghost s = self.creds();
        let mut idxs: Vec<usize> = Vec::new();
        let mut ids: Vec<String> = Vec::new();
        let mut i: usize = 0;
        proof {
            assert(s.subrange(0, 0) =~= Seq::<Credential>::empty());
            assert(views_of(ids@) =~= Seq::<Seq<char>>::empty());
            assert(ids_of(prefix_matches(s.subrange(0, 0), prefix@)) =~= Seq::<Seq<char>>::empty());
        }
        while i < self.credentials.len()
            invariant
                s == self.creds(),
                0 <= i <= s.len(),
                idxs@.len() == prefix_matches(s.subrange(0, i as int), prefix@).len(),
                ids@.len() == idxs@.len(),
                views_of(ids@) == ids_of(prefix_matches(s.subrange(0, i as int), prefix@)),
                forall|k: int|
                    0 <= k < idxs@.len() ==> 0 <= #[trigger] idxs@[k] < i && s[idxs@[k] as int]
                        == prefix_matches(s.subrange(0, i as int), prefix@)[k],
            decreases s.len() - i,
        {
            proof {
                assert(s.subrange(0, i + 1).drop_last() =~= s.subrange(0, i as int));
                assert(s.subrange(0, i + 1).last() == s[i as int]);
            }
            let ghost prev = prefix_matches(s.subrange(0, i as int), prefix@);
            if starts_with_str(self.credentials[i].id.as_str(), prefix) {
                let id = self.credentials[i].id.clone();
                proof {
                    crate::stores::index::lemma_views_of_push(ids@, id);
                    assert(ids_of(prefix_matches(s.subrange(0, i + 1), prefix@)) =~= ids_of(
                        prev,
                    ).push(s[i as int].id@));
                    assert(views_of(ids@).push(id@) =~= ids_of(prev).push(s[i as int].id@));
                }
                ids.push(id);
                idxs.push(i);
            }
            i = i + 1;
        }
        proof {
            assert(s.subrange(0, s.len() as int) =~= s);
        }
        if idxs.len() == 0 {
            RemoveOutcome::NotFound
        } else if idxs.len() >= 2 {
            RemoveOutcome::Ambiguous(ids)
        } else {
            let i0 = idxs[0];
            let ghost old_creds = self.credentials@;
            let c = self.credentials.remove(i0);
            proof {
                lemma_unique_remove(old_creds, i0 as int);
                lemma_prefix_matches_props(s, prefix@);
                assert(old_creds == s);
                assert(s[i0 as int] == prefix_matches(s, prefix@)[0]);
                assert(starts_with_seq(prefix_matches(s, prefix@)[0].id@, prefix@));
                assert(s[i0 as int] == c);
                assert((i0 as int) < s.len());
                assert(starts_with_seq(c.id@, prefix@));
                assert(self.credentials@ == s.remove(i0 as int));
            }
            self.reindex();
            RemoveOutcome::Removed(c)
        }
    }
}

/// Every credential selected by an id prefix indeed starts with it.
proof fn lemma_prefix_matches_props(s: Seq<Credential>, p: Seq<char>)
    ensures
        forall|t: int|
            0 <= t < prefix_matches(s, p).len() ==> starts_with_seq(
                (#[trigger] prefix_matches(s, p)[t]).id@,
                p,
            ),
    decreases s.len(),
{
    if s.len() > 0 {
        lemma_prefix_matches_props(s.drop_last(), p);
    }
}

/// Law: two credentials that share an id cannot coexist. Once the first is
/// added, the store contains that id, so by the contract of
/// `add_credential` a second add with the same id returns an error and
/// leaves the store exactly as it was: the store keeps one copy.
pub proof fn lemma_duplicate_id_add(s: Seq<Credential>, c1: Credential, c2: Credential)
    requires
        c1.id@ == c2.id@,
    ensures
        contains_id(s.push(c1), c2.id@),
        s.push(c1).len() == s.len() + 1,
{
    assert(s.push(c1)[s.len() as int] == c1);
}

/// Law: removing the only credential with an id leaves no credential with
/// that id, so by the contract of `get_credential` a subsequent lookup
/// returns nothing.
pub proof fn lemma_removed_id_absent(s: Seq<Credential>, i: int, id: Seq<char>)
    requires
        unique_ids(s),
        0 <= i < s.len(),
        s[i].id@ == id,
    ensures
        !contains_id(s.remove(i), id),
{
    let t = s.remove(i);
    assert forall|a: int| 0 <= a < t.len() implies (#[trigger] t[a]).id@ != id by {
        let a0 = if a < i {
            a
        } else {
            a + 1
        };
        assert(t[a] == s[a0]);
    }
}

impl CredentialsStore {
    /// The username index as the store holds it.
    pub closed spec fn spec_username_index(&self) -> Seq<Bucket> {
        self.username_index@
    }

    /// The classification index as the store holds it.
    pub closed spec fn spec_type_index(&self) -> Seq<TypeBucket> {
        self.type_index@
    }

    /// The source index as the store holds it.
    pub closed spec fn spec_source_index(&self) -> Seq<Bucket> {
        self.source_index@
    }

    /// Law: in a well-formed store, an id absent from the primary map is
    /// absent from every bucket of all three indices.
    pub proof fn lemma_absent_id_not_indexed(&self, id: Seq<char>)
        requires
            self.wf(),
            !contains_id(self.creds(), id),
        ensures
            forall|b: int|
                0 <= b < self.spec_username_index().len() ==> !views_of(
                    (#[trigger] self.spec_username_index()[b]).ids@,
                ).contains(id),
            forall|b: int|
                0 <= b < self.spec_type_index().len() ==> !views_of(
                    (#[trigger] self.spec_type_index()[b]).ids@,
                ).contains(id),
            forall|b: int|
                0 <= b < self.spec_source_index().len() ==> !views_of(
                    (#[trigger] self.spec_source_index()[b]).ids@,
                ).contains(id),
    {
        assert forall|b: int| 0 <= b < self.spec_username_index().len() implies !views_of(
            (#[trigger] self.spec_username_index()[b]).ids@,
        ).contains(id) by {
            let bk = self.spec_username_index()[b];
            lemma_ids_creds_align(FieldSel::Username, self.creds(), bk.key@);
            if views_of(bk.ids@).contains(id) {
                let t = choose|t: int|
                    0 <= t < views_of(bk.ids@).len() && views_of(bk.ids@)[t] == id;
                let c = creds_for_key(FieldSel::Username, self.creds(), bk.key@)[t];
                let m = choose|m: int|
                    0 <= m < self.creds().len() && #[trigger] self.creds()[m] == creds_for_key(
                        FieldSel::Username,
                        self.creds(),
                        bk.key@,
                    )[t];
                assert(self.creds()[m].id@ == id);
                assert(false);
            }
        }
        assert forall|b: int| 0 <= b < self.spec_type_index().len() implies !views_of(
            (#[trigger] self.spec_type_index()[b]).ids@,
        ).contains(id) by {
            let bk = self.spec_type_index()[b];
            lemma_ids_creds_align_type(self.creds(), bk.key);
            if views_of(bk.ids@).contains(id) {
                let t = choose|t: int|
                    0 <= t < views_of(bk.ids@).len() && views_of(bk.ids@)[t] == id;
                let m = choose|m: int|
                    0 <= m < self.creds().len() && #[trigger] self.creds()[m] == creds_for_type(
                        self.creds(),
                        bk.key,
                    )[t];
                assert(self.creds()[m].id@ == id);
                assert(false);
            }
        }
        assert forall|b: int| 0 <= b < self.spec_source_index().len() implies !views_of(
            (#[trigger] self.spec_source_index()[b]).ids@,
        ).contains(id) by {
            let bk = self.spec_source_index()[b];
            lemma_ids_creds_align(FieldSel::Source, self.creds(), bk.key@);
            if views_of(bk.ids@).contains(id) {
                let t = choose|t: int|
                    0 <= t < views_of(bk.ids@).len() && views_of(bk.ids@)[t] == id;
                let m = choose|m: int|
                    0 <= m < self.creds().len() && #[trigger] self.creds()[m] == creds_for_key(
                        FieldSel::Source,
                        self.creds(),
                        bk.key@,
                    )[t];
                assert(self.creds()[m].id@ == id);
                assert(false);
            }
        }
    }
}


fn ids_unique_exec(creds: &Vec<Credential>) -> (r: bool)
    ensures
        r == unique_ids(creds@),
{
    let mut i: usize = 0;
    while i < creds.len()
        invariant
            0 <= i <= creds@.len(),
            forall|a: int, b: int|
                0 <= a < b < creds@.len() && a < i ==> (#[trigger] creds@[a]).id@ != (
                #[trigger] creds@[b]).id@,
        decreases creds@.len() - i,
    {
        let mut j: usize = i + 1;
        while j < creds.len()
            invariant
                0 <= i < j <= creds@.len(),
                forall|b: int| i < b < j ==> (#[trigger] creds@[b]).id@ != creds@[i as int].id@,
            decreases creds@.len() - j,
        {
            if str_eq(creds[i].id.as_str(), creds[j].id.as_str()) {
                return false;
            }
            j = j + 1;
        }
        i = i + 1;
    }
    true
}

impl CredentialsStore {
    /// Render the whole store in its text serialization: the primary map's
    /// contents; indices and statistics are recomputed on load, not stored.
    pub fn serialize(&self) -> (r: String)
        ensures
            r@ == crate::codec::enc_store(self.creds()),
    {
        crate::codec::serialize_credentials(&self.credentials)
    }

    /// Read a store back from its text serialization. Succeeds exactly when
    /// the text parses in full and the records carry distinct ids; the
    /// records become the primary contents and the indices and statistics
    /// are rebuilt from them.
    pub fn deserialize(text: &str) -> (r: Result<CredentialsStore, String>)
        ensures
            r is Ok <==> (crate::codec::parse_store(text@) matches Some(ms)
                && crate::codec::models_unique(ms)),
            r matches Ok(st) ==> st.wf() && (crate::codec::parse_store(text@) matches Some(ms)
                && st.creds().len() == ms.len() && forall|i: int|
                0 <= i < ms.len() ==> crate::codec::cred_models(#[trigger] ms[i], st.creds()[i])),
    {
        let credentials = match crate::codec::parse_store_exec(text) {
            Option::None => {
                return Result::Err(String::from_str("malformed credentials serialization"));
            },
            Option::Some(v) => v,
        };
        if !ids_unique_exec(&credentials) {
            proof {
                let ms = crate::codec::parse_store(text@).unwrap();
                let (a, b) = choose|a: int, b: int|
                    0 <= a < b < credentials@.len() && (#[trigger] credentials@[a]).id@ == (
                    #[trigger] credentials@[b]).id@;
                assert(ms[a].id == ms[b].id);
            }
            return Result::Err(String::from_str("duplicate credential id in serialization"));
        }
        proof {
            let ms = crate::codec::parse_store(text@).unwrap();
            assert forall|a: int, b: int| 0 <= a < b < ms.len() implies (#[trigger] ms[a]).id != (
            #[trigger] ms[b]).id by {
                assert(credentials@[a].id@ != credentials@[b].id@);
            }
        }
        let username_index = build_index(FieldSel::Username, &credentials);
        let type_index = build_type_index(&credentials);
        let source_index = build_index(FieldSel::Source, &credentials);
        let stats = compute_stats(&credentials, &type_index, &source_index);
        Result::Ok(
            CredentialsStore { credentials, username_index, type_index, source_index, stats },
        )
    }

    /// Load a serialization into this store: on success the contents are
    /// fully replaced by the loaded records; on failure the prior store is
    /// left untouched.
    pub fn load_from_serialized(&mut self, text: &str) -> (r: Result<usize, String>)
        requires
            old(self).wf(),
        ensures
            final(self).wf(),
            r is Ok <==> (crate::codec::parse_store(text@) matches Some(ms)
                && crate::codec::models_unique(ms)),
            r matches Ok(n) ==> (crate::codec::parse_store(text@) matches Some(ms) && n == ms.len()
                && final(self).creds().len() == ms.len() && forall|i: int|
                0 <= i < ms.len() ==> crate::codec::cred_models(
                    #[trigger] ms[i],
                    final(self).creds()[i],
                )),
            r is Err ==> *final(self) == *old(self),
    {
        match CredentialsStore::deserialize(text) {
            Result::Ok(loaded) => {
                let n = loaded.len();
                *self = loaded;
                Result::Ok(n)
            },
            Result::Err(e) => Result::Err(e),
        }
    }
}

/// The privilege labels joined by semicolons.
pub open spec fn join_semi(l: Seq<String>) -> Seq<char>
    decreases l.len(),
{
    if l.len() == 0 {
        Seq::empty()
    } else if l.len() == 1 {
        l[0]@
    } else {
        l[0]@ + seq![';'] + join_semi(l.skip(1))
    }
}

proof fn lemma_join_semi_snoc(l: Seq<String>, x: String)
    ensures
        l.len() == 0 ==> join_semi(l.push(x)) == x@,
        l.len() > 0 ==> join_semi(l.push(x)) == join_semi(l) + seq![';'] + x@,
    decreases l.len(),
{
    let lp = l.push(x);
    if l.len() == 0 {
        assert(lp[0] == x);
        assert(join_semi(lp) == x@);
    } else {
        assert(lp[0] == l[0]);
        assert(lp.skip(1) =~= l.skip(1).push(x));
        lemma_join_semi_snoc(l.skip(1), x);
        if l.len() == 1 {
            assert(join_semi(lp) =~= l[0]@ + seq![';'] + x@);
            assert(join_semi(l) == l[0]@);
            assert(join_semi(lp) =~= join_semi(l) + seq![';'] + x@);
        } else {
            assert(join_semi(lp) =~= (l[0]@ + seq![';'] + join_semi(l.skip(1))) + seq![';']
                + x@);
            assert(join_semi(lp) =~= join_semi(l) + seq![';'] + x@);
        }
    }
}

fn join_privileges(l: &Vec<String>) -> (r: String)
    ensures
        r@ == join_semi(l@),
{
    let mut out: String = String::new();
    let mut i: usize = 0;
    proof {
        assert(l@.subrange(0, 0) =~= Seq::<String>::empty());
    }
    while i < l.len()
        invariant
            0 <= i <= l@.len(),
            out@ == join_semi(l@.subrange(0, i as int)),
        decreases l@.len() - i,
    {
        if i > 0 {
            push_char(&mut out, ';');
        }
        out.append(l[i].as_str());
        proof {
            assert(l@.subrange(0, i + 1) =~= l@.subrange(0, i as int).push(l@[i as int]));
            lemma_join_semi_snoc(l@.subrange(0, i as int), l@[i as int]);
            assert(out@ =~= join_semi(l@.subrange(0, i + 1)));
        }
        i = i + 1;
    }
    proof {
        assert(l@.subrange(0, l@.len() as int) =~= l@);
    }
    out
}

/// The flag column of an exported row.
pub open spec fn csv_bool(b: bool) -> Seq<char> {
    if b {
        "true"@
    } else {
        "false"@
    }
}

/// The last-used column: the UTC calendar text (raw seconds outside the
/// covered range), or a marker for a credential never used.
pub open spec fn csv_last_used(o: Option<i64>) -> Seq<char> {
    match o {
        Option::None => "Never"@,
        Option::Some(v) => crate::civil::civil_or_raw(v as int),
    }
}

/// One exported row: the non-secret columns of a credential, comma-joined.
pub open spec fn csv_row(c: Credential) -> Seq<char> {
    c.id@ + seq![','] + c.username@ + seq![','] + crate::data::credential::ctype_label_spec(
        c.credential_type,
    ) + seq![','] + c.source@ + seq![','] + csv_bool(c.is_validated) + seq![','] + join_semi(
        c.privileges@,
    ) + seq![','] + csv_last_used(c.last_used) + seq![','] + crate::civil::civil_or_raw(
        c.discovered_at as int,
    ) + seq!['\n']
}

/// The exported rows, in store order.
pub open spec fn csv_rows(s: Seq<Credential>) -> Seq<char>
    decreases s.len(),
{
    if s.len() == 0 {
        Seq::empty()
    } else {
        csv_rows(s.drop_last()) + csv_row(s.last())
    }
}

/// The column header line of an export. It names a Domain column that the
/// rows deliberately leave out: a credential has no domain field, and the
/// export's established shape keeps the column heading anyway.
pub open spec fn csv_header() -> Seq<char> {
    "ID,Username,Domain,Type,Source,Validated,Privileges,Last Used,Discovered At\n"@
}

/// The whole export: the header, then one row per credential.
pub open spec fn csv_of(s: Seq<Credential>) -> Seq<char> {
    csv_header() + csv_rows(s)
}

#[verifier::spinoff_prover]
#[verifier::rlimit(100)]
fn write_csv_row(out: &mut String, c: &Credential)
    ensures
        final(out)@ == old(out)@ + csv_row(*c),
{
    out.append(c.id.as_str());
    push_char(out, ',');
    out.append(c.username.as_str());
    push_char(out, ',');
    let tl = c.credential_type.label();
    out.append(tl.as_str());
    push_char(out, ',');
    out.append(c.source.as_str());
    push_char(out, ',');
    if c.is_validated {
        out.append("true");
    } else {
        out.append("false");
    }
    push_char(out, ',');
    let pj = join_privileges(&c.privileges);
    out.append(pj.as_str());
    push_char(out, ',');
    match &c.last_used {
        Option::None => out.append("Never"),
        Option::Some(v) => {
            let d = crate::civil::civil_or_raw_string(*v);
            out.append(d.as_str());
        },
    }
    push_char(out, ',');
    let da = crate::civil::civil_or_raw_string(c.discovered_at);
    out.append(da.as_str());
    push_char(out, '\n');
    proof {
        assert(out@ =~= old(out)@ + csv_row(*c));
    }
}

impl CredentialsStore {
    /// Export the store's non-secret columns in comma-separated rows; the
    /// authentication material never appears in the export.
    pub fn export_to_csv(&self) -> (r: String)
        ensures
            r@ == csv_of(self.creds()),
    {
        let mut out = String::from_str(
            "ID,Username,Domain,Type,Source,Validated,Privileges,Last Used,Discovered At\n",
        );
        let mut i: usize = 0;
        proof {
            assert(self.creds().subrange(0, 0) =~= Seq::<Credential>::empty());
            assert(csv_rows(self.creds().subrange(0, 0)) =~= Seq::<char>::empty());
            assert(out@ =~= csv_header() + csv_rows(self.creds().subrange(0, 0)));
        }
        while i < self.credentials.len()
            invariant
                0 <= i <= self.creds().len(),
                out@ == csv_header() + csv_rows(self.creds().subrange(0, i as int)),
            decreases self.creds().len() - i,
        {
            write_csv_row(&mut out, &self.credentials[i]);
            proof {
                assert(self.creds().subrange(0, i + 1).drop_last() =~= self.creds().subrange(
                    0,
                    i as int,
                ));
                assert(self.creds().subrange(0, i + 1).last() == self.creds()[i as int]);
                assert(out@ =~= csv_header() + csv_rows(self.creds().subrange(0, i + 1)));
            }
            i = i + 1;
        }
        proof {
            assert(self.creds().subrange(0, self.creds().len() as int) =~= self.creds());
        }
        out
    }
}

} // verus!
