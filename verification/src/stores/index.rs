use vstd::prelude::*;

use crate::data::credential::{cred_type_eq_spec, Credential, CredentialType};
use crate::strutil::{lower_seq, lower_str, str_eq};

verus! {

/// One derived-index bucket: a lowercased key and the ids filed under it.
#[derive(Debug)]
pub struct Bucket {
    pub key: String,
    pub ids: Vec<String>,
}

/// One derived-index bucket keyed by role classification.
#[derive(Debug)]
pub struct TypeBucket {
    pub key: CredentialType,
    pub ids: Vec<String>,
}

/// Which credential field a string-keyed index is derived from.
#[derive(Debug, Clone, Copy)]
pub enum FieldSel {
    Username,
    Source,
}

/// The index key a credential files under for the selected field.
pub open spec fn sel_key(f: FieldSel, c: Credential) -> Seq<char> {
    match f {
        FieldSel::Username => lower_seq(c.username@),
        FieldSel::Source => lower_seq(c.source@),
    }
}

/// The character contents of a sequence of id strings.
pub open spec fn views_of(ids: Seq<String>) -> Seq<Seq<char>> {
    ids.map_values(|s: String| s@)
}

pub proof fn lemma_views_of_push(ids: Seq<String>, x: String)
    ensures
        views_of(ids.push(x)) =~= views_of(ids).push(x@),
{
    assert forall|i: int| 0 <= i < ids.len() + 1 implies views_of(ids.push(x))[i] == views_of(
        ids,
    ).push(x@)[i] by {
        if i < ids.len() {
            assert(ids.push(x)[i] == ids[i]);
        } else {
            assert(ids.push(x)[i] == x);
        }
    }
}

/// The ids, in store order, of the credentials filing under key `k`.
pub open spec fn ids_for_key(f: FieldSel, s: Seq<Credential>, k: Seq<char>) -> Seq<Seq<char>>
    decreases s.len(),
{
    if s.len() == 0 {
        Seq::empty()
    } else {
        let prev = ids_for_key(f, s.drop_last(), k);
        if sel_key(f, s.last()) == k {
            prev.push(s.last().id@)
        } else {
            prev
        }
    }
}

/// The credentials, in store order, filing under key `k`.
pub open spec fn creds_for_key(f: FieldSel, s: Seq<Credential>, k: Seq<char>) -> Seq<Credential>
    decreases s.len(),
{
    if s.len() == 0 {
        Seq::empty()
    } else {
        let prev = creds_for_key(f, s.drop_last(), k);
        if sel_key(f, s.last()) == k {
            prev.push(s.last())
        } else {
            prev
        }
    }
}

/// The id list derived for a key names exactly the credentials derived for it,
/// in the same order; each such credential is an element of the store and
/// files under that key.
pub proof fn lemma_ids_creds_align(f: FieldSel, s: Seq<Credential>, k: Seq<char>)
    ensures
        ids_for_key(f, s, k).len() == creds_for_key(f, s, k).len(),
        forall|i: int|
            0 <= i < ids_for_key(f, s, k).len() ==> ids_for_key(f, s, k)[i] == (
            #[trigger] creds_for_key(f, s, k)[i]).id@,
        forall|i: int|
            0 <= i < creds_for_key(f, s, k).len() ==> sel_key(
                f,
                #[trigger] creds_for_key(f, s, k)[i],
            ) == k,
        forall|i: int|
            0 <= i < creds_for_key(f, s, k).len() ==> exists|j: int|
                0 <= j < s.len() && s[j] == #[trigger] creds_for_key(f, s, k)[i],
    decreases s.len(),
{
    if s.len() > 0 {
        lemma_ids_creds_align(f, s.drop_last(), k);
        assert forall|i: int|
            0 <= i < creds_for_key(f, s, k).len() implies exists|j: int|
            0 <= j < s.len() && s[j] == #[trigger] creds_for_key(f, s, k)[i] by {
            if i < creds_for_key(f, s.drop_last(), k).len() {
                let j = choose|j: int|
                    0 <= j < s.drop_last().len() && s.drop_last()[j] == creds_for_key(
                        f,
                        s.drop_last(),
                        k,
                    )[i];
                assert(s[j] == creds_for_key(f, s, k)[i]);
            } else {
                assert(s[s.len() - 1] == creds_for_key(f, s, k)[i]);
            }
        }
    }
}

/// A key derives a nonempty credential list exactly when some credential
/// files under it.
pub proof fn lemma_creds_for_key_nonempty(f: FieldSel, s: Seq<Credential>, k: Seq<char>)
    ensures
        (creds_for_key(f, s, k).len() > 0) <==> (exists|i: int|
            0 <= i < s.len() && sel_key(f, #[trigger] s[i]) == k),
    decreases s.len(),
{
    if s.len() > 0 {
        lemma_creds_for_key_nonempty(f, s.drop_last(), k);
        if sel_key(f, s.last()) == k {
            assert(sel_key(f, s[s.len() - 1]) == k);
        } else {
            if creds_for_key(f, s.drop_last(), k).len() > 0 {
                let i = choose|i: int|
                    0 <= i < s.drop_last().len() && sel_key(f, s.drop_last()[i]) == k;
                assert(sel_key(f, s[i]) == k);
            }
            if exists|i: int| 0 <= i < s.len() && sel_key(f, #[trigger] s[i]) == k {
                let i = choose|i: int| 0 <= i < s.len() && sel_key(f, #[trigger] s[i]) == k;
                if i < s.len() - 1 {
                    assert(sel_key(f, s.drop_last()[i]) == k);
                }
            }
        }
    }
}

/// A bucket holds exactly the ids the store derives for its key.
pub open spec fn bucket_ok(f: FieldSel, b: Bucket, s: Seq<Credential>) -> bool {
    views_of(b.ids@) == ids_for_key(f, s, b.key@)
}

/// Some bucket of the index holds the given key.
pub open spec fn has_bucket_for(idx: Seq<Bucket>, k: Seq<char>) -> bool {
    exists|b: int| 0 <= b < idx.len() && (#[trigger] idx[b]).key@ == k
}

/// A string-keyed index is consistent with the store: every bucket is derived
/// from the store, keys are distinct, and every credential's key has a bucket.
pub open spec fn index_ok(f: FieldSel, idx: Seq<Bucket>, s: Seq<Credential>) -> bool {
    &&& forall|b: int| 0 <= b < idx.len() ==> bucket_ok(f, #[trigger] idx[b], s)
    &&& forall|b1: int, b2: int|
        0 <= b1 < b2 < idx.len() ==> (#[trigger] idx[b1]).key@ != (#[trigger] idx[b2]).key@
    &&& forall|i: int| 0 <= i < s.len() ==> has_bucket_for(idx, #[trigger] sel_key(f, s[i]))
}

/// The key string a credential files under for the selected field.
pub fn key_of(f: FieldSel, c: &Credential) -> (r: String)
    ensures
        r@ == sel_key(f, *c),
{
    match f {
        FieldSel::Username => lower_str(c.username.as_str()),
        FieldSel::Source => lower_str(c.source.as_str()),
    }
}

/// Position of the bucket holding the given key, if any.
pub fn find_bucket(idx: &Vec<Bucket>, key: &str) -> (r: Option<usize>)
    ensures
        r matches Some(b) ==> 0 <= b < idx@.len() && idx@[b as int].key@ == key@,
        r is None ==> forall|b: int| 0 <= b < idx@.len() ==> (#[trigger] idx@[b]).key@ != key@,
{
    let mut b: usize = 0;
    while b < idx.len()
        invariant
            0 <= b <= idx@.len(),
            forall|t: int| 0 <= t < b ==> (#[trigger] idx@[t]).key@ != key@,
        decreases idx@.len() - b,
    {
        if str_eq(idx[b].key.as_str(), key) {
            return Option::Some(b);
        }
        b = b + 1;
    }
    Option::None
}

/// All ids whose credential files under the key, in store order.
fn collect_ids(f: FieldSel, creds: &Vec<Credential>, key: &str) -> (r: Vec<String>)
    ensures
        views_of(r@) == ids_for_key(f, creds@, key@),
{
    let mut out: Vec<String> = Vec::new();
    let mut j: usize = 0;
    proof {
        assert(creds@.subrange(0, 0) =~= Seq::<Credential>::empty());
        assert(views_of(out@) =~= Seq::<Seq<char>>::empty());
    }
    while j < creds.len()
        invariant
            0 <= j <= creds@.len(),
            views_of(out@) == ids_for_key(f, creds@.subrange(0, j as int), key@),
        decreases creds@.len() - j,
    {
        let k = key_of(f, &creds[j]);
        proof {
            assert(creds@.subrange(0, j + 1).drop_last() =~= creds@.subrange(0, j as int));
            assert(creds@.subrange(0, j + 1).last() == creds@[j as int]);
        }
        if str_eq(k.as_str(), key) {
            let id = creds[j].id.clone();
            proof {
                lemma_views_of_push(out@, id);
                assert(views_of(out@).push(id@) =~= ids_for_key(
                    f,
                    creds@.subrange(0, j + 1),
                    key@,
                ));
            }
            out.push(id);
        }
        j = j + 1;
    }
    proof {
        assert(creds@.subrange(0, creds@.len() as int) =~= creds@);
    }
    out
}

/// Build the whole string-keyed index for the store.
pub fn build_index(f: FieldSel, creds: &Vec<Credential>) -> (r: Vec<Bucket>)
    ensures
        index_ok(f, r@, creds@),
        r@.len() <= creds@.len(),
{
    let mut buckets: Vec<Bucket> = Vec::new();
    let mut i: usize = 0;
    while i < creds.len()
        invariant
            0 <= i <= creds@.len(),
            buckets@.len() <= i,
            forall|b: int| 0 <= b < buckets@.len() ==> bucket_ok(f, #[trigger] buckets@[b], creds@),
            forall|b1: int, b2: int|
                0 <= b1 < b2 < buckets@.len() ==> (#[trigger] buckets@[b1]).key@ != (
                #[trigger] buckets@[b2]).key@,
            forall|t: int| 0 <= t < i ==> has_bucket_for(buckets@, #[trigger] sel_key(f, creds@[t])),
        decreases creds@.len() - i,
    {
        let key = key_of(f, &creds[i]);
        match find_bucket(&buckets, key.as_str()) {
            Option::Some(b) => {
                proof {
                    assert(buckets@[b as int].key@ == sel_key(f, creds@[i as int]));
                    assert(has_bucket_for(buckets@, sel_key(f, creds@[i as int])));
                }
            },
            Option::None => {
                let ids = collect_ids(f, creds, key.as_str());
                let ghost old_buckets = buckets@;
                let ghost gkey = key@;
                buckets.push(Bucket { key, ids });
                proof {
                    let n = old_buckets.len() as int;
                    assert(buckets@.len() == old_buckets.len() + 1);
                    assert(forall|b: int| 0 <= b < n ==> #[trigger] buckets@[b] == old_buckets[b]);
                    assert(buckets@[n].key@ == gkey);
                    assert(gkey == sel_key(f, creds@[i as int]));
                    assert(views_of(buckets@[n].ids@) == ids_for_key(f, creds@, gkey));
                    assert(bucket_ok(f, buckets@[n], creds@));
                    assert(has_bucket_for(buckets@, sel_key(f, creds@[i as int])));
                    assert forall|t: int| 0 <= t < i implies has_bucket_for(
                        buckets@,
                        #[trigger] sel_key(f, creds@[t]),
                    ) by {
                        let b = choose|b: int|
                            0 <= b < old_buckets.len() && (#[trigger] old_buckets[b]).key@
                                == sel_key(f, creds@[t]);
                        assert(buckets@[b] == old_buckets[b]);
                        assert(buckets@[b].key@ == sel_key(f, creds@[t]));
                    }
                }
            },
        }
        i = i + 1;
    }
    buckets
}

/// Role-classification analogue of `sel_key` equality.
pub open spec fn type_matches(c: Credential, k: CredentialType) -> bool {
    cred_type_eq_spec(c.credential_type, k)
}

/// The ids, in store order, of the credentials with the given classification.
pub open spec fn ids_for_type(s: Seq<Credential>, k: CredentialType) -> Seq<Seq<char>>
    decreases s.len(),
{
    if s.len() == 0 {
        Seq::empty()
    } else {
        let prev = ids_for_type(s.drop_last(), k);
        if type_matches(s.last(), k) {
            prev.push(s.last().id@)
        } else {
            prev
        }
    }
}

/// The credentials, in store order, with the given classification.
pub open spec fn creds_for_type(s: Seq<Credential>, k: CredentialType) -> Seq<Credential>
    decreases s.len(),
{
    if s.len() == 0 {
        Seq::empty()
    } else {
        let prev = creds_for_type(s.drop_last(), k);
        if type_matches(s.last(), k) {
            prev.push(s.last())
        } else {
            prev
        }
    }
}

/// Alignment of derived id and credential lists for a classification key.
pub proof fn lemma_ids_creds_align_type(s: Seq<Credential>, k: CredentialType)
    ensures
        ids_for_type(s, k).len() == creds_for_type(s, k).len(),
        forall|i: int|
            0 <= i < ids_for_type(s, k).len() ==> ids_for_type(s, k)[i] == (
            #[trigger] creds_for_type(s, k)[i]).id@,
        forall|i: int|
            0 <= i < creds_for_type(s, k).len() ==> type_matches(
                #[trigger] creds_for_type(s, k)[i],
                k,
            ),
        forall|i: int|
            0 <= i < creds_for_type(s, k).len() ==> exists|j: int|
                0 <= j < s.len() && s[j] == #[trigger] creds_for_type(s, k)[i],
    decreases s.len(),
{
    if s.len() > 0 {
        lemma_ids_creds_align_type(s.drop_last(), k);
        assert forall|i: int|
            0 <= i < creds_for_type(s, k).len() implies exists|j: int|
            0 <= j < s.len() && s[j] == #[trigger] creds_for_type(s, k)[i] by {
            if i < creds_for_type(s.drop_last(), k).len() {
                let j = choose|j: int|
                    0 <= j < s.drop_last().len() && s.drop_last()[j] == creds_for_type(
                        s.drop_last(),
                        k,
                    )[i];
                assert(s[j] == creds_for_type(s, k)[i]);
            } else {
                assert(s[s.len() - 1] == creds_for_type(s, k)[i]);
            }
        }
    }
}

/// A classification derives a nonempty list exactly when some credential has it.
pub proof fn lemma_creds_for_type_nonempty(s: Seq<Credential>, k: CredentialType)
    ensures
        (creds_for_type(s, k).len() > 0) <==> (exists|i: int|
            0 <= i < s.len() && type_matches(#[trigger] s[i], k)),
    decreases s.len(),
{
    if s.len() > 0 {
        lemma_creds_for_type_nonempty(s.drop_last(), k);
        if type_matches(s.last(), k) {
            assert(type_matches(s[s.len() - 1], k));
        } else {
            if creds_for_type(s.drop_last(), k).len() > 0 {
                let i = choose|i: int|
                    0 <= i < s.drop_last().len() && type_matches(s.drop_last()[i], k);
                assert(type_matches(s[i], k));
            }
            if exists|i: int| 0 <= i < s.len() && type_matches(#[trigger] s[i], k) {
                let i = choose|i: int| 0 <= i < s.len() && type_matches(#[trigger] s[i], k);
                if i < s.len() - 1 {
                    assert(type_matches(s.drop_last()[i], k));
                }
            }
        }
    }
}

/// A type bucket holds exactly the ids the store derives for its key.
pub open spec fn type_bucket_ok(b: TypeBucket, s: Seq<Credential>) -> bool {
    views_of(b.ids@) == ids_for_type(s, b.key)
}

/// Some bucket of the classification index matches the given classification.
pub open spec fn has_type_bucket_for(idx: Seq<TypeBucket>, t: CredentialType) -> bool {
    exists|b: int| 0 <= b < idx.len() && cred_type_eq_spec((#[trigger] idx[b]).key, t)
}

/// Consistency of the classification index with the store.
pub open spec fn type_index_ok(idx: Seq<TypeBucket>, s: Seq<Credential>) -> bool {
    &&& forall|b: int| 0 <= b < idx.len() ==> type_bucket_ok(#[trigger] idx[b], s)
    &&& forall|b1: int, b2: int|
        0 <= b1 < b2 < idx.len() ==> !cred_type_eq_spec(
            (#[trigger] idx[b1]).key,
            (#[trigger] idx[b2]).key,
        )
    &&& forall|i: int|
        0 <= i < s.len() ==> has_type_bucket_for(idx, (#[trigger] s[i]).credential_type)
}

/// Position of the type bucket holding the given classification, if any.
pub fn find_type_bucket(idx: &Vec<TypeBucket>, key: &CredentialType) -> (r: Option<usize>)
    ensures
        r matches Some(b) ==> 0 <= b < idx@.len() && cred_type_eq_spec(idx@[b as int].key, *key),
        r is None ==> forall|b: int|
            0 <= b < idx@.len() ==> !cred_type_eq_spec((#[trigger] idx@[b]).key, *key),
{
    let mut b: usize = 0;
    while b < idx.len()
        invariant
            0 <= b <= idx@.len(),
            forall|t: int| 0 <= t < b ==> !cred_type_eq_spec((#[trigger] idx@[t]).key, *key),
        decreases idx@.len() - b,
    {
        if idx[b].key == *key {
            return Option::Some(b);
        }
        b = b + 1;
    }
    Option::None
}

/// All ids whose credential has a classification equal to the key.
fn collect_type_ids(creds: &Vec<Credential>, key: &CredentialType) -> (r: Vec<String>)
    ensures
        views_of(r@) == ids_for_type(creds@, *key),
{
    let mut out: Vec<String> = Vec::new();
    let mut j: usize = 0;
    proof {
        assert(creds@.subrange(0, 0) =~= Seq::<Credential>::empty());
        assert(views_of(out@) =~= Seq::<Seq<char>>::empty());
    }
    while j < creds.len()
        invariant
            0 <= j <= creds@.len(),
            views_of(out@) == ids_for_type(creds@.subrange(0, j as int), *key),
        decreases creds@.len() - j,
    {
        proof {
            assert(creds@.subrange(0, j + 1).drop_last() =~= creds@.subrange(0, j as int));
            assert(creds@.subrange(0, j + 1).last() == creds@[j as int]);
        }
        if creds[j].credential_type == *key {
            let id = creds[j].id.clone();
            proof {
                lemma_views_of_push(out@, id);
                assert(views_of(out@).push(id@) =~= ids_for_type(
                    creds@.subrange(0, j + 1),
                    *key,
                ));
            }
            out.push(id);
        }
        j = j + 1;
    }
    proof {
        assert(creds@.subrange(0, creds@.len() as int) =~= creds@);
    }
    out
}

/// Build the whole classification index for the store.
pub fn build_type_index(creds: &Vec<Credential>) -> (r: Vec<TypeBucket>)
    ensures
        type_index_ok(r@, creds@),
        r@.len() <= creds@.len(),
{
    let mut buckets: Vec<TypeBucket> = Vec::new();
    let mut i: usize = 0;
    while i < creds.len()
        invariant
            0 <= i <= creds@.len(),
            buckets@.len() <= i,
            forall|b: int|
                0 <= b < buckets@.len() ==> type_bucket_ok(#[trigger] buckets@[b], creds@),
            forall|b1: int, b2: int|
                0 <= b1 < b2 < buckets@.len() ==> !cred_type_eq_spec(
                    (#[trigger] buckets@[b1]).key,
                    (#[trigger] buckets@[b2]).key,
                ),
            forall|t: int|
                0 <= t < i ==> has_type_bucket_for(
                    buckets@,
                    (#[trigger] creds@[t]).credential_type,
                ),
        decreases creds@.len() - i,
    {
        let key = creds[i].credential_type.clone();
        match find_type_bucket(&buckets, &key) {
            Option::Some(b) => {
                proof {
                    lemma_cred_type_eq_trans(
                        buckets@[b as int].key,
                        key,
                        creds@[i as int].credential_type,
                    );
                    assert(has_type_bucket_for(buckets@, creds@[i as int].credential_type));
                }
            },
            Option::None => {
                let ids = collect_type_ids(creds, &key);
                let ghost old_buckets = buckets@;
                let ghost gkey = key;
                buckets.push(TypeBucket { key, ids });
                proof {
                    let n = old_buckets.len() as int;
                    assert(buckets@.len() == old_buckets.len() + 1);
                    assert(forall|b: int| 0 <= b < n ==> #[trigger] buckets@[b] == old_buckets[b]);
                    assert(buckets@[n].key == gkey);
                    lemma_cred_type_eq_refl(gkey);
                    lemma_cred_type_eq_trans(
                        buckets@[n].key,
                        gkey,
                        creds@[i as int].credential_type,
                    );
                    assert(views_of(buckets@[n].ids@) == ids_for_type(creds@, gkey));
                    assert(type_bucket_ok(buckets@[n], creds@));
                    assert forall|b1: int, b2: int|
                        0 <= b1 < b2 < buckets@.len() implies !cred_type_eq_spec(
                        (#[trigger] buckets@[b1]).key,
                        (#[trigger] buckets@[b2]).key,
                    ) by {
                        if b2 < n {
                            assert(buckets@[b1] == old_buckets[b1]);
                            assert(buckets@[b2] == old_buckets[b2]);
                        } else {
                            assert(buckets@[b1] == old_buckets[b1]);
                            assert(!cred_type_eq_spec(old_buckets[b1].key, gkey));
                        }
                    }
                    assert(has_type_bucket_for(buckets@, creds@[i as int].credential_type));
                    assert forall|t: int| 0 <= t < i implies has_type_bucket_for(
                        buckets@,
                        (#[trigger] creds@[t]).credential_type,
                    ) by {
                        let b = choose|b: int|
                            0 <= b < old_buckets.len() && cred_type_eq_spec(
                                (#[trigger] old_buckets[b]).key,
                                creds@[t].credential_type,
                            );
                        assert(buckets@[b] == old_buckets[b]);
                        assert(cred_type_eq_spec(buckets@[b].key, creds@[t].credential_type));
                    }
                }
            },
        }
        i = i + 1;
    }
    buckets
}

/// Classification equality is reflexive.
pub proof fn lemma_cred_type_eq_refl(a: CredentialType)
    ensures
        cred_type_eq_spec(a, a),
{
}

/// Classification equality is symmetric.
pub proof fn lemma_cred_type_eq_symm(a: CredentialType, b: CredentialType)
    requires
        cred_type_eq_spec(a, b),
    ensures
        cred_type_eq_spec(b, a),
{
}

/// Equal classifications derive the same id and credential lists.
pub proof fn lemma_for_type_congruent(s: Seq<Credential>, k1: CredentialType, k2: CredentialType)
    requires
        cred_type_eq_spec(k1, k2),
    ensures
        ids_for_type(s, k1) == ids_for_type(s, k2),
        creds_for_type(s, k1) == creds_for_type(s, k2),
    decreases s.len(),
{
    if s.len() > 0 {
        lemma_for_type_congruent(s.drop_last(), k1, k2);
        if cred_type_eq_spec(s.last().credential_type, k1) {
            lemma_cred_type_eq_trans(s.last().credential_type, k1, k2);
        }
        if cred_type_eq_spec(s.last().credential_type, k2) {
            lemma_cred_type_eq_symm(k1, k2);
            lemma_cred_type_eq_trans(s.last().credential_type, k2, k1);
        }
    }
}

/// Classification equality is transitive.
pub proof fn lemma_cred_type_eq_trans(a: CredentialType, b: CredentialType, c: CredentialType)
    requires
        cred_type_eq_spec(a, b),
        cred_type_eq_spec(b, c),
    ensures
        cred_type_eq_spec(a, c),
{
}

} // verus!
