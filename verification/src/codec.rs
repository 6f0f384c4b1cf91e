use vstd::prelude::*;

use crate::data::credential::{AuthData, Credential, CredentialType};
use crate::strutil::{dec_digit_char, dec_of, push_char, u64_to_string};

verus! {

/// A decimal digit character.
pub open spec fn is_digit(c: char) -> bool {
    '0' <= c && c <= '9'
}

/// The numeric value of a digit character.
pub open spec fn digit_val(c: char) -> nat {
    ((c as nat) - 48) as nat
}

/// The value of a digit string, most significant digit first.
pub open spec fn dec_val(s: Seq<char>) -> nat
    decreases s.len(),
{
    if s.len() == 0 {
        0
    } else {
        dec_val(s.drop_last()) * 10 + digit_val(s.last())
    }
}

/// Every character of a decimal rendering is a digit.
pub proof fn lemma_dec_of_digits(n: nat)
    ensures
        forall|i: int| 0 <= i < dec_of(n).len() ==> is_digit(#[trigger] dec_of(n)[i]),
        dec_of(n).len() >= 1,
    decreases n,
{
    if n >= 10 {
        lemma_dec_of_digits(n / 10);
    }
}

/// The decimal rendering reads back as the number it renders.
pub proof fn lemma_dec_val_of(n: nat)
    ensures
        dec_val(dec_of(n)) == n,
    decreases n,
{
    if n < 10 {
        assert(dec_of(n) =~= seq![dec_digit_char(n)]);
        assert(dec_of(n).drop_last() =~= Seq::<char>::empty());
        assert(dec_of(n).last() == dec_digit_char(n));
        assert(dec_val(Seq::<char>::empty()) == 0);
        assert(digit_val(dec_digit_char(n)) == n);
    } else {
        lemma_dec_val_of(n / 10);
        assert(dec_of(n) == dec_of((n / 10) as nat).push(dec_digit_char((n % 10) as nat)));
        assert(dec_of(n).drop_last() =~= dec_of((n / 10) as nat));
        assert(dec_of(n).last() == dec_digit_char((n % 10) as nat));
        assert(digit_val(dec_digit_char((n % 10) as nat)) == n % 10);
        assert(dec_val(dec_of(n)) == dec_val(dec_of((n / 10) as nat)) * 10 + n % 10);
    }
}

/// A decimal rendering has no leading zero unless it renders zero itself.
pub proof fn lemma_dec_of_no_leading_zero(n: nat)
    ensures
        n > 0 ==> dec_of(n)[0] != '0',
        n == 0 ==> dec_of(n) == seq!['0'],
    decreases n,
{
    if n >= 10 {
        lemma_dec_of_no_leading_zero(n / 10);
        assert(dec_of(n)[0] == dec_of(n / 10)[0]);
    }
}

/// Every prefix of a digit string reads as at most the whole string's value.
pub proof fn lemma_dec_val_prefix_mono(t: Seq<char>, j: int, d: int)
    requires
        0 <= j <= d <= t.len(),
        forall|k: int| 0 <= k < d ==> is_digit(#[trigger] t[k]),
    ensures
        dec_val(t.subrange(0, j)) <= dec_val(t.subrange(0, d)),
    decreases d - j,
{
    if j < d {
        lemma_dec_val_prefix_mono(t, j + 1, d);
        assert(t.subrange(0, j + 1).drop_last() =~= t.subrange(0, j));
        assert(t.subrange(0, j + 1).last() == t[j]);
        assert(dec_val(t.subrange(0, j + 1)) == dec_val(t.subrange(0, j)) * 10 + digit_val(t[j]));
    }
}

/// The count of leading digit characters.
pub open spec fn num_digits(s: Seq<char>) -> int
    decreases s.len(),
{
    if s.len() == 0 || !is_digit(s[0]) {
        0
    } else {
        1 + num_digits(s.skip(1))
    }
}

/// The leading-digit count is determined by a digit prefix and its delimiter.
pub proof fn lemma_num_digits_is(s: Seq<char>, d: int)
    requires
        0 <= d <= s.len(),
        forall|k: int| 0 <= k < d ==> is_digit(#[trigger] s[k]),
        d == s.len() || !is_digit(s[d]),
    ensures
        num_digits(s) == d,
    decreases d,
{
    if d == 0 {
    } else {
        assert(is_digit(s[0]));
        lemma_num_digits_is(s.skip(1), d - 1);
    }
}

/// An encoded number: its decimal digits closed by a colon.
pub open spec fn enc_num(n: nat) -> Seq<char> {
    dec_of(n) + seq![':']
}

/// Parse an encoded number from the front: a nonempty digit run without a
/// leading zero, closed by a colon.
pub open spec fn parse_num(s: Seq<char>) -> Option<(nat, int)> {
    let d = num_digits(s);
    if d == 0 {
        Option::None
    } else if d >= 2 && s[0] == '0' {
        Option::None
    } else if dec_val(s.subrange(0, d)) > 0xffff_ffff_ffff_ffff {
        Option::None
    } else if d < s.len() && s[d] == ':' {
        Option::Some((dec_val(s.subrange(0, d)), d + 1))
    } else {
        Option::None
    }
}

/// Parsing inverts encoding for numbers, whatever follows.
pub proof fn lemma_parse_num_rt(n: nat, rest: Seq<char>)
    requires
        n <= 0xffff_ffff_ffff_ffff,
    ensures
        parse_num(enc_num(n) + rest) == Option::Some((n, enc_num(n).len() as int)),
{
    let s = enc_num(n) + rest;
    let w = dec_of(n).len() as int;
    lemma_dec_of_digits(n);
    assert forall|k: int| 0 <= k < w implies is_digit(#[trigger] s[k]) by {
        assert(s[k] == dec_of(n)[k]);
    }
    assert(s[w] == ':');
    lemma_num_digits_is(s, w);
    lemma_dec_of_no_leading_zero(n);
    assert(s[0] == dec_of(n)[0]);
    lemma_dec_val_of(n);
    assert(s.subrange(0, w) =~= dec_of(n));
}

/// An encoded string: its length, then its characters verbatim.
pub open spec fn enc_str(v: Seq<char>) -> Seq<char> {
    enc_num(v.len()) + v
}

/// Parse an encoded string from the front.
pub open spec fn parse_str(s: Seq<char>) -> Option<(Seq<char>, int)> {
    match parse_num(s) {
        Option::None => Option::None,
        Option::Some((n, p)) => {
            if p + n <= s.len() {
                Option::Some((s.subrange(p, p + n as int), p + n as int))
            } else {
                Option::None
            }
        },
    }
}

/// Parsing inverts encoding for strings, whatever follows.
pub proof fn lemma_parse_str_rt(v: Seq<char>, rest: Seq<char>)
    requires
        v.len() <= 0xffff_ffff_ffff_ffff,
    ensures
        parse_str(enc_str(v) + rest) == Option::Some((v, enc_str(v).len() as int)),
{
    let s = enc_str(v) + rest;
    assert(s =~= enc_num(v.len()) + (v + rest));
    lemma_parse_num_rt(v.len(), v + rest);
    let p = enc_num(v.len()).len() as int;
    assert(s.subrange(p, p + v.len() as int) =~= v);
}

/// An encoded flag: one digit character.
pub open spec fn enc_bool(b: bool) -> Seq<char> {
    if b {
        seq!['1']
    } else {
        seq!['0']
    }
}

/// Parse an encoded flag from the front.
pub open spec fn parse_bool(s: Seq<char>) -> Option<(bool, int)> {
    if s.len() >= 1 && s[0] == '1' {
        Option::Some((true, 1))
    } else if s.len() >= 1 && s[0] == '0' {
        Option::Some((false, 1))
    } else {
        Option::None
    }
}

/// Parsing inverts encoding for flags, whatever follows.
pub proof fn lemma_parse_bool_rt(b: bool, rest: Seq<char>)
    ensures
        parse_bool(enc_bool(b) + rest) == Option::Some((b, 1int)),
{
    let s = enc_bool(b) + rest;
    assert(s[0] == enc_bool(b)[0]);
}

/// An encoded signed number: an explicit sign, then the magnitude.
pub open spec fn enc_i64(v: int) -> Seq<char> {
    if v >= 0 {
        seq!['+'] + enc_num(v as nat)
    } else {
        seq!['-'] + enc_num((-v) as nat)
    }
}

/// Parse an encoded signed number from the front.
pub open spec fn parse_i64(s: Seq<char>) -> Option<(int, int)> {
    if s.len() >= 1 && s[0] == '+' {
        match parse_num(s.skip(1)) {
            Option::None => Option::None,
            Option::Some((n, p)) => {
                if n <= 0x7fff_ffff_ffff_ffff {
                    Option::Some((n as int, p + 1))
                } else {
                    Option::None
                }
            },
        }
    } else if s.len() >= 1 && s[0] == '-' {
        match parse_num(s.skip(1)) {
            Option::None => Option::None,
            Option::Some((n, p)) => {
                if n <= 0x8000_0000_0000_0000 {
                    Option::Some((-(n as int), p + 1))
                } else {
                    Option::None
                }
            },
        }
    } else {
        Option::None
    }
}

/// Parsing inverts encoding for signed numbers, whatever follows.
pub proof fn lemma_parse_i64_rt(v: int, rest: Seq<char>)
    requires
        -0x8000_0000_0000_0000 <= v <= 0x7fff_ffff_ffff_ffff,
    ensures
        parse_i64(enc_i64(v) + rest) == Option::Some((v, enc_i64(v).len() as int)),
{
    let s = enc_i64(v) + rest;
    if v >= 0 {
        assert(s[0] == '+');
        assert(s.skip(1) =~= enc_num(v as nat) + rest);
        lemma_parse_num_rt(v as nat, rest);
    } else {
        assert(s[0] == '-');
        assert(s.skip(1) =~= enc_num((-v) as nat) + rest);
        lemma_parse_num_rt((-v) as nat, rest);
    }
}

/// Skipping past a concatenated prefix leaves exactly the remainder.
pub proof fn lemma_skip_concat(a: Seq<char>, b: Seq<char>)
    ensures
        (a + b).skip(a.len() as int) =~= b,
{
}

/// `s.skip(a).skip(b)` is `s.skip(a + b)`.
pub proof fn lemma_skip_skip(s: Seq<char>, a: int, b: int)
    requires
        0 <= a,
        0 <= b,
        a + b <= s.len(),
    ensures
        s.skip(a).skip(b) =~= s.skip(a + b),
{
}

/// An encoded optional string: an absence flag, then the string if present.
pub open spec fn enc_opt_str(o: Option<Seq<char>>) -> Seq<char> {
    match o {
        Option::None => seq!['0'],
        Option::Some(v) => seq!['1'] + enc_str(v),
    }
}

/// Parse an encoded optional string from the front.
pub open spec fn parse_opt_str(s: Seq<char>) -> Option<(Option<Seq<char>>, int)> {
    if s.len() >= 1 && s[0] == '0' {
        Option::Some((Option::None, 1))
    } else if s.len() >= 1 && s[0] == '1' {
        match parse_str(s.skip(1)) {
            Option::None => Option::None,
            Option::Some((v, p)) => Option::Some((Option::Some(v), p + 1)),
        }
    } else {
        Option::None
    }
}

/// Parsing inverts encoding for optional strings, whatever follows.
pub proof fn lemma_parse_opt_str_rt(o: Option<Seq<char>>, rest: Seq<char>)
    requires
        o matches Some(v) ==> v.len() <= 0xffff_ffff_ffff_ffff,
    ensures
        parse_opt_str(enc_opt_str(o) + rest) == Option::Some((o, enc_opt_str(o).len() as int)),
{
    let s = enc_opt_str(o) + rest;
    match o {
        Option::None => {
            assert(s[0] == '0');
        },
        Option::Some(v) => {
            assert(s[0] == '1');
            assert(s.skip(1) =~= enc_str(v) + rest);
            lemma_parse_str_rt(v, rest);
        },
    }
}

/// An encoded optional number: an absence flag, then the number if present.
pub open spec fn enc_opt_i64(o: Option<int>) -> Seq<char> {
    match o {
        Option::None => seq!['0'],
        Option::Some(v) => seq!['1'] + enc_i64(v),
    }
}

/// Parse an encoded optional number from the front.
pub open spec fn parse_opt_i64(s: Seq<char>) -> Option<(Option<int>, int)> {
    if s.len() >= 1 && s[0] == '0' {
        Option::Some((Option::None, 1))
    } else if s.len() >= 1 && s[0] == '1' {
        match parse_i64(s.skip(1)) {
            Option::None => Option::None,
            Option::Some((v, p)) => Option::Some((Option::Some(v), p + 1)),
        }
    } else {
        Option::None
    }
}

/// Parsing inverts encoding for optional numbers, whatever follows.
pub proof fn lemma_parse_opt_i64_rt(o: Option<int>, rest: Seq<char>)
    requires
        o matches Some(v) ==> -0x8000_0000_0000_0000 <= v <= 0x7fff_ffff_ffff_ffff,
    ensures
        parse_opt_i64(enc_opt_i64(o) + rest) == Option::Some((o, enc_opt_i64(o).len() as int)),
{
    let s = enc_opt_i64(o) + rest;
    match o {
        Option::None => {
            assert(s[0] == '0');
        },
        Option::Some(v) => {
            assert(s[0] == '1');
            assert(s.skip(1) =~= enc_i64(v) + rest);
            lemma_parse_i64_rt(v, rest);
        },
    }
}

/// The concatenated encodings of a string list's elements.
pub open spec fn enc_str_cat(l: Seq<Seq<char>>) -> Seq<char>
    decreases l.len(),
{
    if l.len() == 0 {
        Seq::empty()
    } else {
        enc_str(l[0]) + enc_str_cat(l.skip(1))
    }
}

/// An encoded string list: its count, then each string.
pub open spec fn enc_str_list(l: Seq<Seq<char>>) -> Seq<char> {
    enc_num(l.len()) + enc_str_cat(l)
}

/// Parse `n` consecutive encoded strings from the front.
pub open spec fn parse_strs(s: Seq<char>, n: nat) -> Option<(Seq<Seq<char>>, int)>
    decreases n,
{
    if n == 0 {
        Option::Some((Seq::empty(), 0))
    } else {
        match parse_str(s) {
            Option::None => Option::None,
            Option::Some((v, p)) => match parse_strs(s.skip(p), (n - 1) as nat) {
                Option::None => Option::None,
                Option::Some((l, q)) => Option::Some((seq![v] + l, p + q)),
            },
        }
    }
}

/// Parse an encoded string list from the front.
pub open spec fn parse_str_list(s: Seq<char>) -> Option<(Seq<Seq<char>>, int)> {
    match parse_num(s) {
        Option::None => Option::None,
        Option::Some((n, p)) => match parse_strs(s.skip(p), n) {
            Option::None => Option::None,
            Option::Some((l, q)) => Option::Some((l, p + q)),
        },
    }
}

/// Parsing inverts the concatenated string encodings, whatever follows.
pub proof fn lemma_parse_strs_rt(l: Seq<Seq<char>>, rest: Seq<char>)
    requires
        forall|i: int| 0 <= i < l.len() ==> (#[trigger] l[i]).len() <= 0xffff_ffff_ffff_ffff,
    ensures
        parse_strs(enc_str_cat(l) + rest, l.len()) == Option::Some((
            l,
            enc_str_cat(l).len() as int,
        )),
    decreases l.len(),
{
    let s = enc_str_cat(l) + rest;
    if l.len() == 0 {
        assert(l =~= Seq::<Seq<char>>::empty());
    } else {
        assert(s =~= enc_str(l[0]) + (enc_str_cat(l.skip(1)) + rest));
        lemma_parse_str_rt(l[0], enc_str_cat(l.skip(1)) + rest);
        let p = enc_str(l[0]).len() as int;
        lemma_skip_concat(enc_str(l[0]), enc_str_cat(l.skip(1)) + rest);
        assert(s.skip(p) =~= enc_str_cat(l.skip(1)) + rest);
        lemma_parse_strs_rt(l.skip(1), rest);
        assert(seq![l[0]] + l.skip(1) =~= l);
    }
}

/// Parsing inverts encoding for string lists, whatever follows.
pub proof fn lemma_parse_str_list_rt(l: Seq<Seq<char>>, rest: Seq<char>)
    requires
        l.len() <= 0xffff_ffff_ffff_ffff,
        forall|i: int| 0 <= i < l.len() ==> (#[trigger] l[i]).len() <= 0xffff_ffff_ffff_ffff,
    ensures
        parse_str_list(enc_str_list(l) + rest) == Option::Some((
            l,
            enc_str_list(l).len() as int,
        )),
{
    let s = enc_str_list(l) + rest;
    assert(s =~= enc_num(l.len()) + (enc_str_cat(l) + rest));
    lemma_parse_num_rt(l.len(), enc_str_cat(l) + rest);
    let p = enc_num(l.len()).len() as int;
    lemma_skip_concat(enc_num(l.len()), enc_str_cat(l) + rest);
    assert(s.skip(p) =~= enc_str_cat(l) + rest);
    lemma_parse_strs_rt(l, rest);
}

/// The concatenated encodings of a key/value list's entries.
pub open spec fn enc_pair_cat(l: Seq<(Seq<char>, Seq<char>)>) -> Seq<char>
    decreases l.len(),
{
    if l.len() == 0 {
        Seq::empty()
    } else {
        enc_str(l[0].0) + enc_str(l[0].1) + enc_pair_cat(l.skip(1))
    }
}

/// An encoded key/value list: its count, then each key and value.
pub open spec fn enc_pair_list(l: Seq<(Seq<char>, Seq<char>)>) -> Seq<char> {
    enc_num(l.len()) + enc_pair_cat(l)
}

/// Parse `n` consecutive encoded key/value entries from the front.
pub open spec fn parse_pairs(s: Seq<char>, n: nat) -> Option<(Seq<(Seq<char>, Seq<char>)>, int)>
    decreases n,
{
    if n == 0 {
        Option::Some((Seq::empty(), 0))
    } else {
        match parse_str(s) {
            Option::None => Option::None,
            Option::Some((k, p)) => match parse_str(s.skip(p)) {
                Option::None => Option::None,
                Option::Some((v, q)) => match parse_pairs(s.skip(p + q), (n - 1) as nat) {
                    Option::None => Option::None,
                    Option::Some((l, w)) => Option::Some((seq![(k, v)] + l, p + q + w)),
                },
            },
        }
    }
}

/// Parse an encoded key/value list from the front.
pub open spec fn parse_pair_list(s: Seq<char>) -> Option<(Seq<(Seq<char>, Seq<char>)>, int)> {
    match parse_num(s) {
        Option::None => Option::None,
        Option::Some((n, p)) => match parse_pairs(s.skip(p), n) {
            Option::None => Option::None,
            Option::Some((l, q)) => Option::Some((l, p + q)),
        },
    }
}

/// Parsing inverts the concatenated entry encodings, whatever follows.
pub proof fn lemma_parse_pairs_rt(l: Seq<(Seq<char>, Seq<char>)>, rest: Seq<char>)
    requires
        forall|i: int|
            0 <= i < l.len() ==> (#[trigger] l[i]).0.len() <= 0xffff_ffff_ffff_ffff
                && l[i].1.len() <= 0xffff_ffff_ffff_ffff,
    ensures
        parse_pairs(enc_pair_cat(l) + rest, l.len()) == Option::Some((
            l,
            enc_pair_cat(l).len() as int,
        )),
    decreases l.len(),
{
    let s = enc_pair_cat(l) + rest;
    if l.len() == 0 {
        assert(l =~= Seq::<(Seq<char>, Seq<char>)>::empty());
    } else {
        let k = l[0].0;
        let v = l[0].1;
        let tail_enc = enc_pair_cat(l.skip(1));
        assert(s =~= enc_str(k) + (enc_str(v) + (tail_enc + rest)));
        lemma_parse_str_rt(k, enc_str(v) + (tail_enc + rest));
        let p = enc_str(k).len() as int;
        lemma_skip_concat(enc_str(k), enc_str(v) + (tail_enc + rest));
        assert(s.skip(p) =~= enc_str(v) + (tail_enc + rest));
        lemma_parse_str_rt(v, tail_enc + rest);
        let q = enc_str(v).len() as int;
        lemma_skip_concat(enc_str(v), tail_enc + rest);
        assert(s.skip(p).skip(q) =~= tail_enc + rest);
        lemma_skip_skip(s, p, q);
        assert(s.skip(p + q) =~= tail_enc + rest);
        lemma_parse_pairs_rt(l.skip(1), rest);
        assert(seq![(k, v)] + l.skip(1) =~= l);
        assert(l[0] == (k, v));
    }
}

/// Parsing inverts encoding for key/value lists, whatever follows.
pub proof fn lemma_parse_pair_list_rt(l: Seq<(Seq<char>, Seq<char>)>, rest: Seq<char>)
    requires
        l.len() <= 0xffff_ffff_ffff_ffff,
        forall|i: int|
            0 <= i < l.len() ==> (#[trigger] l[i]).0.len() <= 0xffff_ffff_ffff_ffff
                && l[i].1.len() <= 0xffff_ffff_ffff_ffff,
    ensures
        parse_pair_list(enc_pair_list(l) + rest) == Option::Some((
            l,
            enc_pair_list(l).len() as int,
        )),
{
    let s = enc_pair_list(l) + rest;
    assert(s =~= enc_num(l.len()) + (enc_pair_cat(l) + rest));
    lemma_parse_num_rt(l.len(), enc_pair_cat(l) + rest);
    let p = enc_num(l.len()).len() as int;
    lemma_skip_concat(enc_num(l.len()), enc_pair_cat(l) + rest);
    assert(s.skip(p) =~= enc_pair_cat(l) + rest);
    lemma_parse_pairs_rt(l, rest);
}

/// The character contents of an optional string.
pub open spec fn opt_view(o: Option<String>) -> Option<Seq<char>> {
    match o {
        Option::None => Option::None,
        Option::Some(v) => Option::Some(v@),
    }
}

/// The numeric value of an optional machine integer.
pub open spec fn opt_int(o: Option<i64>) -> Option<int> {
    match o {
        Option::None => Option::None,
        Option::Some(v) => Option::Some(v as int),
    }
}

/// The character contents of a string list.
pub open spec fn str_views(l: Seq<String>) -> Seq<Seq<char>> {
    l.map_values(|v: String| v@)
}

/// The character contents of a key/value list.
pub open spec fn pair_views(l: Seq<(String, String)>) -> Seq<(Seq<char>, Seq<char>)> {
    l.map_values(|p: (String, String)| (p.0@, p.1@))
}

/// The ghost image of a parsed authentication payload.
pub enum AuthModel {
    Password(Seq<char>),
    NtlmHash(Seq<char>),
    LmHash(Seq<char>),
    LmNtlm { lm: Seq<char>, ntlm: Seq<char> },
    KerberosTicket(Seq<char>),
    Certificate { cert_data: Seq<char>, private_key: Option<Seq<char>> },
    Token(Seq<char>),
    Custom(Seq<(Seq<char>, Seq<char>)>),
}

/// The ghost image of a parsed role classification.
pub enum CredTypeModel {
    DomainUser,
    LocalAdmin,
    DomainAdmin,
    EnterpriseAdmin,
    ServiceAccount,
    MachineAccount,
    ManagedServiceAccount,
    GroupManagedServiceAccount,
    ServicePrincipal,
    BuiltIn,
    Unknown,
    Custom(Seq<char>),
}

/// The ghost image of a parsed credential record.
pub struct CredModel {
    pub id: Seq<char>,
    pub username: Seq<char>,
    pub auth: AuthModel,
    pub ctype: CredTypeModel,
    pub privileges: Seq<Seq<char>>,
    pub is_validated: bool,
    pub last_used: Option<int>,
    pub discovered_at: int,
    pub source: Seq<char>,
    pub target_dc: Option<Seq<char>>,
    pub notes: Option<Seq<char>>,
    pub metadata: Seq<(Seq<char>, Seq<char>)>,
}

/// A ghost payload image describes a payload, character for character.
pub open spec fn auth_models(m: AuthModel, a: AuthData) -> bool {
    match (m, a) {
        (AuthModel::Password(x), AuthData::Password(y)) => x == y@,
        (AuthModel::NtlmHash(x), AuthData::NtlmHash(y)) => x == y@,
        (AuthModel::LmHash(x), AuthData::LmHash(y)) => x == y@,
        (
            AuthModel::LmNtlm { lm: a1, ntlm: a2 },
            AuthData::LmNtlm { lm: b1, ntlm: b2 },
        ) => a1 == b1@ && a2 == b2@,
        (AuthModel::KerberosTicket(x), AuthData::KerberosTicket(y)) => x == y@,
        (
            AuthModel::Certificate { cert_data: a1, private_key: a2 },
            AuthData::Certificate { cert_data: b1, private_key: b2 },
        ) => a1 == b1@ && a2 == opt_view(b2),
        (AuthModel::Token(x), AuthData::Token(y)) => x == y@,
        (AuthModel::Custom(x), AuthData::Custom(y)) => x == pair_views(y@),
        _ => false,
    }
}

/// A ghost classification image describes a classification.
pub open spec fn ctype_models(m: CredTypeModel, c: CredentialType) -> bool {
    match (m, c) {
        (CredTypeModel::DomainUser, CredentialType::DomainUser) => true,
        (CredTypeModel::LocalAdmin, CredentialType::LocalAdmin) => true,
        (CredTypeModel::DomainAdmin, CredentialType::DomainAdmin) => true,
        (CredTypeModel::EnterpriseAdmin, CredentialType::EnterpriseAdmin) => true,
        (CredTypeModel::ServiceAccount, CredentialType::ServiceAccount) => true,
        (CredTypeModel::MachineAccount, CredentialType::MachineAccount) => true,
        (CredTypeModel::ManagedServiceAccount, CredentialType::ManagedServiceAccount) => true,
        (
            CredTypeModel::GroupManagedServiceAccount,
            CredentialType::GroupManagedServiceAccount,
        ) => true,
        (CredTypeModel::ServicePrincipal, CredentialType::ServicePrincipal) => true,
        (CredTypeModel::BuiltIn, CredentialType::BuiltIn) => true,
        (CredTypeModel::Unknown, CredentialType::Unknown) => true,
        (CredTypeModel::Custom(x), CredentialType::Custom(y)) => x == y@,
        _ => false,
    }
}

/// A ghost record image describes a credential, field for field.
pub open spec fn cred_models(m: CredModel, c: Credential) -> bool {
    &&& m.id == c.id@
    &&& m.username == c.username@
    &&& auth_models(m.auth, c.auth_data)
    &&& ctype_models(m.ctype, c.credential_type)
    &&& m.privileges == str_views(c.privileges@)
    &&& m.is_validated == c.is_validated
    &&& m.last_used == opt_int(c.last_used)
    &&& m.discovered_at == c.discovered_at as int
    &&& m.source == c.source@
    &&& m.target_dc == opt_view(c.target_dc)
    &&& m.notes == opt_view(c.notes)
    &&& m.metadata == pair_views(c.metadata@)
}

/// The encoded authentication payload: a variant tag, then its fields.
pub open spec fn enc_auth(a: AuthData) -> Seq<char> {
    match a {
        AuthData::Password(x) => enc_num(0) + enc_str(x@),
        AuthData::NtlmHash(x) => enc_num(1) + enc_str(x@),
        AuthData::LmHash(x) => enc_num(2) + enc_str(x@),
        AuthData::LmNtlm { lm, ntlm } => enc_num(3) + enc_str(lm@) + enc_str(ntlm@),
        AuthData::KerberosTicket(x) => enc_num(4) + enc_str(x@),
        AuthData::Certificate { cert_data, private_key } => enc_num(5) + enc_str(cert_data@)
            + enc_opt_str(opt_view(private_key)),
        AuthData::Token(x) => enc_num(6) + enc_str(x@),
        AuthData::Custom(m) => enc_num(7) + enc_pair_list(pair_views(m@)),
    }
}

/// Parse an encoded authentication payload from the front.
pub open spec fn parse_auth(s: Seq<char>) -> Option<(AuthModel, int)> {
    match parse_num(s) {
        Option::None => Option::None,
        Option::Some((t, p)) => {
            if t == 0 || t == 1 || t == 2 || t == 4 || t == 6 {
                match parse_str(s.skip(p)) {
                    Option::None => Option::None,
                    Option::Some((v, q)) => {
                        if t == 0 {
                            Option::Some((AuthModel::Password(v), p + q))
                        } else if t == 1 {
                            Option::Some((AuthModel::NtlmHash(v), p + q))
                        } else if t == 2 {
                            Option::Some((AuthModel::LmHash(v), p + q))
                        } else if t == 4 {
                            Option::Some((AuthModel::KerberosTicket(v), p + q))
                        } else {
                            Option::Some((AuthModel::Token(v), p + q))
                        }
                    },
                }
            } else if t == 3 {
                match parse_str(s.skip(p)) {
                    Option::None => Option::None,
                    Option::Some((lm, q)) => match parse_str(s.skip(p + q)) {
                        Option::None => Option::None,
                        Option::Some((ntlm, w)) => Option::Some((
                            AuthModel::LmNtlm { lm, ntlm },
                            p + q + w,
                        )),
                    },
                }
            } else if t == 5 {
                match parse_str(s.skip(p)) {
                    Option::None => Option::None,
                    Option::Some((cert, q)) => match parse_opt_str(s.skip(p + q)) {
                        Option::None => Option::None,
                        Option::Some((pk, w)) => Option::Some((
                            AuthModel::Certificate { cert_data: cert, private_key: pk },
                            p + q + w,
                        )),
                    },
                }
            } else if t == 7 {
                match parse_pair_list(s.skip(p)) {
                    Option::None => Option::None,
                    Option::Some((m, q)) => Option::Some((AuthModel::Custom(m), p + q)),
                }
            } else {
                Option::None
            }
        },
    }
}

/// Whether every string inside the payload fits the numeric format.
pub open spec fn auth_bounded(a: AuthData) -> bool {
    match a {
        AuthData::Password(x) => x@.len() <= 0xffff_ffff_ffff_ffff,
        AuthData::NtlmHash(x) => x@.len() <= 0xffff_ffff_ffff_ffff,
        AuthData::LmHash(x) => x@.len() <= 0xffff_ffff_ffff_ffff,
        AuthData::LmNtlm { lm, ntlm } => lm@.len() <= 0xffff_ffff_ffff_ffff && ntlm@.len()
            <= 0xffff_ffff_ffff_ffff,
        AuthData::KerberosTicket(x) => x@.len() <= 0xffff_ffff_ffff_ffff,
        AuthData::Certificate { cert_data, private_key } => cert_data@.len()
            <= 0xffff_ffff_ffff_ffff && (private_key matches Some(k) ==> k@.len()
            <= 0xffff_ffff_ffff_ffff),
        AuthData::Token(x) => x@.len() <= 0xffff_ffff_ffff_ffff,
        AuthData::Custom(m) => m@.len() <= 0xffff_ffff_ffff_ffff && forall|i: int|
            0 <= i < m@.len() ==> (#[trigger] m@[i]).0@.len() <= 0xffff_ffff_ffff_ffff
                && m@[i].1@.len() <= 0xffff_ffff_ffff_ffff,
    }
}

/// Parsing inverts encoding for payloads, whatever follows.
pub proof fn lemma_parse_auth_rt(a: AuthData, rest: Seq<char>)
    requires
        auth_bounded(a),
    ensures
        parse_auth(enc_auth(a) + rest) matches Some(mp) && auth_models(mp.0, a) && mp.1
            == enc_auth(a).len() as int,
{
    let s = enc_auth(a) + rest;
    match a {
        AuthData::Password(x) => {
            lemma_parse_auth_rt_single(0, x@, rest);
        },
        AuthData::NtlmHash(x) => {
            lemma_parse_auth_rt_single(1, x@, rest);
        },
        AuthData::LmHash(x) => {
            lemma_parse_auth_rt_single(2, x@, rest);
        },
        AuthData::KerberosTicket(x) => {
            lemma_parse_auth_rt_single(4, x@, rest);
        },
        AuthData::Token(x) => {
            lemma_parse_auth_rt_single(6, x@, rest);
        },
        AuthData::LmNtlm { lm, ntlm } => {
            assert(s =~= enc_num(3) + (enc_str(lm@) + (enc_str(ntlm@) + rest)));
            lemma_parse_num_rt(3, enc_str(lm@) + (enc_str(ntlm@) + rest));
            let p = enc_num(3).len() as int;
            lemma_skip_concat(enc_num(3), enc_str(lm@) + (enc_str(ntlm@) + rest));
            assert(s.skip(p) =~= enc_str(lm@) + (enc_str(ntlm@) + rest));
            lemma_parse_str_rt(lm@, enc_str(ntlm@) + rest);
            let q = enc_str(lm@).len() as int;
            lemma_skip_concat(enc_str(lm@), enc_str(ntlm@) + rest);
            lemma_skip_skip(s, p, q);
            assert(s.skip(p + q) =~= enc_str(ntlm@) + rest);
            lemma_parse_str_rt(ntlm@, rest);
        },
        AuthData::Certificate { cert_data, private_key } => {
            let pk = opt_view(private_key);
            assert(s =~= enc_num(5) + (enc_str(cert_data@) + (enc_opt_str(pk) + rest)));
            lemma_parse_num_rt(5, enc_str(cert_data@) + (enc_opt_str(pk) + rest));
            let p = enc_num(5).len() as int;
            lemma_skip_concat(enc_num(5), enc_str(cert_data@) + (enc_opt_str(pk) + rest));
            assert(s.skip(p) =~= enc_str(cert_data@) + (enc_opt_str(pk) + rest));
            lemma_parse_str_rt(cert_data@, enc_opt_str(pk) + rest);
            let q = enc_str(cert_data@).len() as int;
            lemma_skip_concat(enc_str(cert_data@), enc_opt_str(pk) + rest);
            lemma_skip_skip(s, p, q);
            assert(s.skip(p + q) =~= enc_opt_str(pk) + rest);
            lemma_parse_opt_str_rt(pk, rest);
        },
        AuthData::Custom(m) => {
            let pv = pair_views(m@);
            assert(s =~= enc_num(7) + (enc_pair_list(pv) + rest));
            lemma_parse_num_rt(7, enc_pair_list(pv) + rest);
            let p = enc_num(7).len() as int;
            lemma_skip_concat(enc_num(7), enc_pair_list(pv) + rest);
            assert(s.skip(p) =~= enc_pair_list(pv) + rest);
            assert(pv.len() == m@.len());
            assert forall|i: int| 0 <= i < pv.len() implies (#[trigger] pv[i]).0.len()
                <= 0xffff_ffff_ffff_ffff && pv[i].1.len() <= 0xffff_ffff_ffff_ffff by {
                assert(pv[i] == (m@[i].0@, m@[i].1@));
            }
            lemma_parse_pair_list_rt(pv, rest);
        },
    }
}

/// Round trip of the single-string payload variants.
proof fn lemma_parse_auth_rt_single(t: nat, v: Seq<char>, rest: Seq<char>)
    requires
        t == 0 || t == 1 || t == 2 || t == 4 || t == 6,
        v.len() <= 0xffff_ffff_ffff_ffff,
    ensures
        parse_auth(enc_num(t) + enc_str(v) + rest) matches Some(mp) && mp.1 == (enc_num(t)
            + enc_str(v)).len() as int && (t == 0 ==> mp.0 == AuthModel::Password(v)) && (t == 1
            ==> mp.0 == AuthModel::NtlmHash(v)) && (t == 2 ==> mp.0 == AuthModel::LmHash(v)) && (
        t == 4 ==> mp.0 == AuthModel::KerberosTicket(v)) && (t == 6 ==> mp.0 == AuthModel::Token(
            v,
        )),
{
    let s = enc_num(t) + enc_str(v) + rest;
    assert(s =~= enc_num(t) + (enc_str(v) + rest));
    lemma_parse_num_rt(t, enc_str(v) + rest);
    let p = enc_num(t).len() as int;
    lemma_skip_concat(enc_num(t), enc_str(v) + rest);
    assert(s.skip(p) =~= enc_str(v) + rest);
    lemma_parse_str_rt(v, rest);
}

/// The tag of a role classification.
pub open spec fn ctype_tag(c: CredentialType) -> nat {
    match c {
        CredentialType::DomainUser => 0,
        CredentialType::LocalAdmin => 1,
        CredentialType::DomainAdmin => 2,
        CredentialType::EnterpriseAdmin => 3,
        CredentialType::ServiceAccount => 4,
        CredentialType::MachineAccount => 5,
        CredentialType::ManagedServiceAccount => 6,
        CredentialType::GroupManagedServiceAccount => 7,
        CredentialType::ServicePrincipal => 8,
        CredentialType::BuiltIn => 9,
        CredentialType::Unknown => 10,
        CredentialType::Custom(_) => 11,
    }
}

/// The encoded role classification: a tag, plus the label for a custom one.
pub open spec fn enc_ctype(c: CredentialType) -> Seq<char> {
    match c {
        CredentialType::Custom(x) => enc_num(11) + enc_str(x@),
        _ => enc_num(ctype_tag(c)),
    }
}

/// The classification a small tag denotes.
pub open spec fn ctype_of_tag(t: nat) -> CredTypeModel {
    if t == 0 {
        CredTypeModel::DomainUser
    } else if t == 1 {
        CredTypeModel::LocalAdmin
    } else if t == 2 {
        CredTypeModel::DomainAdmin
    } else if t == 3 {
        CredTypeModel::EnterpriseAdmin
    } else if t == 4 {
        CredTypeModel::ServiceAccount
    } else if t == 5 {
        CredTypeModel::MachineAccount
    } else if t == 6 {
        CredTypeModel::ManagedServiceAccount
    } else if t == 7 {
        CredTypeModel::GroupManagedServiceAccount
    } else if t == 8 {
        CredTypeModel::ServicePrincipal
    } else if t == 9 {
        CredTypeModel::BuiltIn
    } else {
        CredTypeModel::Unknown
    }
}

/// Parse an encoded role classification from the front.
pub open spec fn parse_ctype(s: Seq<char>) -> Option<(CredTypeModel, int)> {
    match parse_num(s) {
        Option::None => Option::None,
        Option::Some((t, p)) => {
            if t <= 10 {
                Option::Some((ctype_of_tag(t), p))
            } else if t == 11 {
                match parse_str(s.skip(p)) {
                    Option::None => Option::None,
                    Option::Some((v, q)) => Option::Some((CredTypeModel::Custom(v), p + q)),
                }
            } else {
                Option::None
            }
        },
    }
}

/// Whether a classification's label fits the numeric format.
pub open spec fn ctype_bounded(c: CredentialType) -> bool {
    match c {
        CredentialType::Custom(x) => x@.len() <= 0xffff_ffff_ffff_ffff,
        _ => true,
    }
}

/// Parsing inverts encoding for classifications, whatever follows.
pub proof fn lemma_parse_ctype_rt(c: CredentialType, rest: Seq<char>)
    requires
        ctype_bounded(c),
    ensures
        parse_ctype(enc_ctype(c) + rest) matches Some(mp) && ctype_models(mp.0, c) && mp.1
            == enc_ctype(c).len() as int,
{
    let s = enc_ctype(c) + rest;
    match c {
        CredentialType::Custom(x) => {
            assert(s =~= enc_num(11) + (enc_str(x@) + rest));
            lemma_parse_num_rt(11, enc_str(x@) + rest);
            let p = enc_num(11).len() as int;
            lemma_skip_concat(enc_num(11), enc_str(x@) + rest);
            assert(s.skip(p) =~= enc_str(x@) + rest);
            lemma_parse_str_rt(x@, rest);
        },
        _ => {
            lemma_parse_num_rt(ctype_tag(c), rest);
            assert(s =~= enc_num(ctype_tag(c)) + rest);
        },
    }
}

/// The encoded credential record: every field in a fixed order.
pub open spec fn enc_cred(c: Credential) -> Seq<char> {
    enc_str(c.id@) + enc_str(c.username@) + enc_auth(c.auth_data) + enc_ctype(c.credential_type)
        + enc_str_list(str_views(c.privileges@)) + enc_bool(c.is_validated) + enc_opt_i64(
        opt_int(c.last_used),
    ) + enc_i64(c.discovered_at as int) + enc_str(c.source@) + enc_opt_str(opt_view(c.target_dc))
        + enc_opt_str(opt_view(c.notes)) + enc_pair_list(pair_views(c.metadata@))
}

/// Parse the first six record fields from the front.
pub open spec fn parse_cred_front(s: Seq<char>) -> Option<
    ((Seq<char>, Seq<char>, AuthModel, CredTypeModel, Seq<Seq<char>>, bool), int),
> {
    match parse_str(s) {
        Option::None => Option::None,
        Option::Some((id, p1)) => match parse_str(s.skip(p1)) {
            Option::None => Option::None,
            Option::Some((username, p2)) => match parse_auth(s.skip(p1 + p2)) {
                Option::None => Option::None,
                Option::Some((auth, p3)) => match parse_ctype(s.skip(p1 + p2 + p3)) {
                    Option::None => Option::None,
                    Option::Some((ctype, p4)) => match parse_str_list(s.skip(p1 + p2 + p3 + p4)) {
                        Option::None => Option::None,
                        Option::Some((privileges, p5)) => match parse_bool(
                            s.skip(p1 + p2 + p3 + p4 + p5),
                        ) {
                            Option::None => Option::None,
                            Option::Some((is_validated, p6)) => Option::Some(
                                (
                                    (id, username, auth, ctype, privileges, is_validated),
                                    p1 + p2 + p3 + p4 + p5 + p6,
                                ),
                            ),
                        },
                    },
                },
            },
        },
    }
}

/// Parse the last six record fields from the front.
pub open spec fn parse_cred_back(s: Seq<char>) -> Option<
    (
        (
            Option<int>,
            int,
            Seq<char>,
            Option<Seq<char>>,
            Option<Seq<char>>,
            Seq<(Seq<char>, Seq<char>)>,
        ),
        int,
    ),
> {
    match parse_opt_i64(s) {
        Option::None => Option::None,
        Option::Some((last_used, p7)) => match parse_i64(s.skip(p7)) {
            Option::None => Option::None,
            Option::Some((discovered_at, p8)) => match parse_str(s.skip(p7 + p8)) {
                Option::None => Option::None,
                Option::Some((source, p9)) => match parse_opt_str(s.skip(p7 + p8 + p9)) {
                    Option::None => Option::None,
                    Option::Some((target_dc, p10)) => match parse_opt_str(
                        s.skip(p7 + p8 + p9 + p10),
                    ) {
                        Option::None => Option::None,
                        Option::Some((notes, p11)) => match parse_pair_list(
                            s.skip(p7 + p8 + p9 + p10 + p11),
                        ) {
                            Option::None => Option::None,
                            Option::Some((metadata, p12)) => Option::Some(
                                (
                                    (last_used, discovered_at, source, target_dc, notes, metadata),
                                    p7 + p8 + p9 + p10 + p11 + p12,
                                ),
                            ),
                        },
                    },
                },
            },
        },
    }
}

/// Parse an encoded credential record from the front.
pub open spec fn parse_cred(s: Seq<char>) -> Option<(CredModel, int)> {
    match parse_cred_front(s) {
        Option::None => Option::None,
        Option::Some((f, p)) => match parse_cred_back(s.skip(p)) {
            Option::None => Option::None,
            Option::Some((b, q)) => Option::Some(
                (
                    CredModel {
                        id: f.0,
                        username: f.1,
                        auth: f.2,
                        ctype: f.3,
                        privileges: f.4,
                        is_validated: f.5,
                        last_used: b.0,
                        discovered_at: b.1,
                        source: b.2,
                        target_dc: b.3,
                        notes: b.4,
                        metadata: b.5,
                    },
                    p + q,
                ),
            ),
        },
    }
}

/// Whether every string and list in the record fits the numeric format.
pub open spec fn cred_bounded(c: Credential) -> bool {
    &&& c.id@.len() <= 0xffff_ffff_ffff_ffff
    &&& c.username@.len() <= 0xffff_ffff_ffff_ffff
    &&& auth_bounded(c.auth_data)
    &&& ctype_bounded(c.credential_type)
    &&& c.privileges@.len() <= 0xffff_ffff_ffff_ffff
    &&& forall|i: int|
        0 <= i < c.privileges@.len() ==> (#[trigger] c.privileges@[i])@.len()
            <= 0xffff_ffff_ffff_ffff
    &&& c.source@.len() <= 0xffff_ffff_ffff_ffff
    &&& (c.target_dc matches Some(v) ==> v@.len() <= 0xffff_ffff_ffff_ffff)
    &&& (c.notes matches Some(v) ==> v@.len() <= 0xffff_ffff_ffff_ffff)
    &&& c.metadata@.len() <= 0xffff_ffff_ffff_ffff
    &&& forall|i: int|
        0 <= i < c.metadata@.len() ==> (#[trigger] c.metadata@[i]).0@.len()
            <= 0xffff_ffff_ffff_ffff && c.metadata@[i].1@.len() <= 0xffff_ffff_ffff_ffff
}

/// The encoded first six record fields.
pub open spec fn enc_cred_front(c: Credential) -> Seq<char> {
    enc_str(c.id@) + enc_str(c.username@) + enc_auth(c.auth_data) + enc_ctype(c.credential_type)
        + enc_str_list(str_views(c.privileges@)) + enc_bool(c.is_validated)
}

/// The encoded last six record fields.
pub open spec fn enc_cred_back(c: Credential) -> Seq<char> {
    enc_opt_i64(opt_int(c.last_used)) + enc_i64(c.discovered_at as int) + enc_str(c.source@)
        + enc_opt_str(opt_view(c.target_dc)) + enc_opt_str(opt_view(c.notes)) + enc_pair_list(
        pair_views(c.metadata@),
    )
}

/// The record encoding is its two halves in order.
pub proof fn lemma_enc_cred_split(c: Credential)
    ensures
        enc_cred(c) =~= enc_cred_front(c) + enc_cred_back(c),
{
}

/// Parsing inverts encoding for the first six fields, whatever follows.
#[verifier::spinoff_prover]
#[verifier::rlimit(100)]
proof fn lemma_parse_cred_front_rt(c: Credential, rest: Seq<char>)
    requires
        cred_bounded(c),
    ensures
        parse_cred_front(enc_cred_front(c) + rest) matches Some(mp) && mp.1 == enc_cred_front(
            c,
        ).len() as int && mp.0.0 == c.id@ && mp.0.1 == c.username@ && auth_models(
            mp.0.2,
            c.auth_data,
        ) && ctype_models(mp.0.3, c.credential_type) && mp.0.4 == str_views(c.privileges@)
            && mp.0.5 == c.is_validated,
{
    let e1 = enc_str(c.id@);
    let e2 = enc_str(c.username@);
    let e3 = enc_auth(c.auth_data);
    let e4 = enc_ctype(c.credential_type);
    let e5 = enc_str_list(str_views(c.privileges@));
    let e6 = enc_bool(c.is_validated);
    let r5 = e6 + rest;
    let r4 = e5 + r5;
    let r3 = e4 + r4;
    let r2 = e3 + r3;
    let r1 = e2 + r2;
    let s = enc_cred_front(c) + rest;
    assert(s =~= e1 + r1);
    let p1 = e1.len() as int;
    let p2 = e2.len() as int;
    let p3 = e3.len() as int;
    let p4 = e4.len() as int;
    let p5 = e5.len() as int;
    lemma_parse_str_rt(c.id@, r1);
    lemma_skip_concat(e1, r1);
    assert(s.skip(p1) =~= r1);

    lemma_parse_str_rt(c.username@, r2);
    lemma_skip_concat(e2, r2);
    lemma_skip_skip(s, p1, p2);
    assert(s.skip(p1 + p2) =~= r2);

    lemma_parse_auth_rt(c.auth_data, r3);
    lemma_skip_concat(e3, r3);
    lemma_skip_skip(s, p1 + p2, p3);
    assert(s.skip(p1 + p2 + p3) =~= r3);

    lemma_parse_ctype_rt(c.credential_type, r4);
    lemma_skip_concat(e4, r4);
    lemma_skip_skip(s, p1 + p2 + p3, p4);
    assert(s.skip(p1 + p2 + p3 + p4) =~= r4);

    assert(str_views(c.privileges@).len() == c.privileges@.len());
    assert forall|i: int| 0 <= i < str_views(c.privileges@).len() implies (#[trigger] str_views(
        c.privileges@,
    )[i]).len() <= 0xffff_ffff_ffff_ffff by {
        assert(str_views(c.privileges@)[i] == c.privileges@[i]@);
    }
    lemma_parse_str_list_rt(str_views(c.privileges@), r5);
    lemma_skip_concat(e5, r5);
    lemma_skip_skip(s, p1 + p2 + p3 + p4, p5);
    assert(s.skip(p1 + p2 + p3 + p4 + p5) =~= r5);

    lemma_parse_bool_rt(c.is_validated, rest);
}

/// Parsing inverts encoding for the last six fields, whatever follows.
#[verifier::spinoff_prover]
#[verifier::rlimit(100)]
proof fn lemma_parse_cred_back_rt(c: Credential, rest: Seq<char>)
    requires
        cred_bounded(c),
    ensures
        parse_cred_back(enc_cred_back(c) + rest) matches Some(mp) && mp.1 == enc_cred_back(
            c,
        ).len() as int && mp.0.0 == opt_int(c.last_used) && mp.0.1 == c.discovered_at as int
            && mp.0.2 == c.source@ && mp.0.3 == opt_view(c.target_dc) && mp.0.4 == opt_view(
            c.notes,
        ) && mp.0.5 == pair_views(c.metadata@),
{
    let e7 = enc_opt_i64(opt_int(c.last_used));
    let e8 = enc_i64(c.discovered_at as int);
    let e9 = enc_str(c.source@);
    let e10 = enc_opt_str(opt_view(c.target_dc));
    let e11 = enc_opt_str(opt_view(c.notes));
    let e12 = enc_pair_list(pair_views(c.metadata@));
    let r11 = e12 + rest;
    let r10 = e11 + r11;
    let r9 = e10 + r10;
    let r8 = e9 + r9;
    let r7 = e8 + r8;
    let s = enc_cred_back(c) + rest;
    assert(s =~= e7 + r7);
    let p7 = e7.len() as int;
    let p8 = e8.len() as int;
    let p9 = e9.len() as int;
    let p10 = e10.len() as int;
    let p11 = e11.len() as int;
    lemma_parse_opt_i64_rt(opt_int(c.last_used), r7);
    lemma_skip_concat(e7, r7);
    assert(s.skip(p7) =~= r7);

    lemma_parse_i64_rt(c.discovered_at as int, r8);
    lemma_skip_concat(e8, r8);
    lemma_skip_skip(s, p7, p8);
    assert(s.skip(p7 + p8) =~= r8);

    lemma_parse_str_rt(c.source@, r9);
    lemma_skip_concat(e9, r9);
    lemma_skip_skip(s, p7 + p8, p9);
    assert(s.skip(p7 + p8 + p9) =~= r9);

    lemma_parse_opt_str_rt(opt_view(c.target_dc), r10);
    lemma_skip_concat(e10, r10);
    lemma_skip_skip(s, p7 + p8 + p9, p10);
    assert(s.skip(p7 + p8 + p9 + p10) =~= r10);

    lemma_parse_opt_str_rt(opt_view(c.notes), r11);
    lemma_skip_concat(e11, r11);
    lemma_skip_skip(s, p7 + p8 + p9 + p10, p11);
    assert(s.skip(p7 + p8 + p9 + p10 + p11) =~= r11);

    assert(pair_views(c.metadata@).len() == c.metadata@.len());
    assert forall|i: int| 0 <= i < pair_views(c.metadata@).len() implies (#[trigger] pair_views(
        c.metadata@,
    )[i]).0.len() <= 0xffff_ffff_ffff_ffff && pair_views(c.metadata@)[i].1.len()
        <= 0xffff_ffff_ffff_ffff by {
        assert(pair_views(c.metadata@)[i] == (c.metadata@[i].0@, c.metadata@[i].1@));
    }
    lemma_parse_pair_list_rt(pair_views(c.metadata@), rest);
}

/// Parsing inverts encoding for credential records, whatever follows.
pub proof fn lemma_parse_cred_rt(c: Credential, rest: Seq<char>)
    requires
        cred_bounded(c),
    ensures
        parse_cred(enc_cred(c) + rest) matches Some(mp) && cred_models(mp.0, c) && mp.1
            == enc_cred(c).len() as int,
{
    let s = enc_cred(c) + rest;
    lemma_enc_cred_split(c);
    assert(s =~= enc_cred_front(c) + (enc_cred_back(c) + rest));
    lemma_parse_cred_front_rt(c, enc_cred_back(c) + rest);
    let p = enc_cred_front(c).len() as int;
    lemma_skip_concat(enc_cred_front(c), enc_cred_back(c) + rest);
    assert(s.skip(p) =~= enc_cred_back(c) + rest);
    lemma_parse_cred_back_rt(c, rest);
}

/// The concatenated encodings of a credential sequence.
pub open spec fn enc_cred_cat(s: Seq<Credential>) -> Seq<char>
    decreases s.len(),
{
    if s.len() == 0 {
        Seq::empty()
    } else {
        enc_cred(s[0]) + enc_cred_cat(s.skip(1))
    }
}

/// The encoded store: the credential count, then each record.
pub open spec fn enc_store(s: Seq<Credential>) -> Seq<char> {
    enc_num(s.len()) + enc_cred_cat(s)
}

/// Parse `n` consecutive credential records from the front.
pub open spec fn parse_creds(s: Seq<char>, n: nat) -> Option<(Seq<CredModel>, int)>
    decreases n,
{
    if n == 0 {
        Option::Some((Seq::empty(), 0))
    } else {
        match parse_cred(s) {
            Option::None => Option::None,
            Option::Some((m, p)) => match parse_creds(s.skip(p), (n - 1) as nat) {
                Option::None => Option::None,
                Option::Some((l, q)) => Option::Some((seq![m] + l, p + q)),
            },
        }
    }
}

/// Parse a whole encoded store; every character must be consumed.
pub open spec fn parse_store(s: Seq<char>) -> Option<Seq<CredModel>> {
    match parse_num(s) {
        Option::None => Option::None,
        Option::Some((n, p)) => match parse_creds(s.skip(p), n) {
            Option::None => Option::None,
            Option::Some((l, q)) => {
                if p + q == s.len() {
                    Option::Some(l)
                } else {
                    Option::None
                }
            },
        },
    }
}

/// Whether every record of the store fits the numeric format.
pub open spec fn store_bounded(s: Seq<Credential>) -> bool {
    s.len() <= 0xffff_ffff_ffff_ffff && forall|i: int|
        0 <= i < s.len() ==> cred_bounded(#[trigger] s[i])
}

/// Parsing inverts the concatenated record encodings, whatever follows.
pub proof fn lemma_parse_creds_rt(l: Seq<Credential>, rest: Seq<char>)
    requires
        forall|i: int| 0 <= i < l.len() ==> cred_bounded(#[trigger] l[i]),
    ensures
        parse_creds(enc_cred_cat(l) + rest, l.len()) matches Some(mp) && mp.1 == enc_cred_cat(
            l,
        ).len() as int && mp.0.len() == l.len() && forall|i: int|
            0 <= i < l.len() ==> cred_models(#[trigger] mp.0[i], l[i]),
    decreases l.len(),
{
    let s = enc_cred_cat(l) + rest;
    if l.len() == 0 {
        assert(l =~= Seq::<Credential>::empty());
    } else {
        assert(s =~= enc_cred(l[0]) + (enc_cred_cat(l.skip(1)) + rest));
        lemma_parse_cred_rt(l[0], enc_cred_cat(l.skip(1)) + rest);
        let p = enc_cred(l[0]).len() as int;
        lemma_skip_concat(enc_cred(l[0]), enc_cred_cat(l.skip(1)) + rest);
        assert(s.skip(p) =~= enc_cred_cat(l.skip(1)) + rest);
        lemma_parse_creds_rt(l.skip(1), rest);
        let m0 = parse_cred(s).unwrap().0;
        let tailm = parse_creds(s.skip(p), (l.len() - 1) as nat).unwrap().0;
        assert forall|i: int| 0 <= i < l.len() implies cred_models(
            #[trigger] (seq![m0] + tailm)[i],
            l[i],
        ) by {
            if i == 0 {
                assert((seq![m0] + tailm)[0] == m0);
            } else {
                assert((seq![m0] + tailm)[i] == tailm[i - 1]);
                assert(l.skip(1)[i - 1] == l[i]);
            }
        }
    }
}

/// Law: saving and loading round-trip. Parsing the encoded store succeeds,
/// consumes the whole text, and yields one record image per stored
/// credential, equal to it field for field. The bound asks only that every
/// string and list fit the machine's integer range.
pub proof fn lemma_store_round_trip(s: Seq<Credential>)
    requires
        store_bounded(s),
    ensures
        parse_store(enc_store(s)) matches Some(ms) && ms.len() == s.len() && forall|i: int|
            0 <= i < s.len() ==> cred_models(#[trigger] ms[i], s[i]),
{
    let t = enc_store(s);
    assert(t + Seq::<char>::empty() =~= t);
    assert(t =~= enc_num(s.len()) + (enc_cred_cat(s) + Seq::<char>::empty()));
    lemma_parse_num_rt(s.len(), enc_cred_cat(s) + Seq::<char>::empty());
    let p = enc_num(s.len()).len() as int;
    lemma_skip_concat(enc_num(s.len()), enc_cred_cat(s) + Seq::<char>::empty());
    assert(t.skip(p) =~= enc_cred_cat(s) + Seq::<char>::empty());
    lemma_parse_creds_rt(s, Seq::<char>::empty());
}

/// Appending an element extends the concatenated string encodings.
pub proof fn lemma_enc_str_cat_snoc(l: Seq<Seq<char>>, x: Seq<char>)
    ensures
        enc_str_cat(l.push(x)) =~= enc_str_cat(l) + enc_str(x),
    decreases l.len(),
{
    if l.len() == 0 {
        assert(l =~= Seq::<Seq<char>>::empty());
        assert(l.push(x)[0] == x);
        assert(l.push(x).skip(1) =~= Seq::<Seq<char>>::empty());
        assert(enc_str_cat(Seq::<Seq<char>>::empty()) =~= Seq::<char>::empty());
        assert(enc_str_cat(l.push(x)) =~= enc_str(x) + enc_str_cat(l.push(x).skip(1)));
        assert(enc_str_cat(l.push(x)) =~= enc_str_cat(l) + enc_str(x));
    } else {
        assert(l.push(x)[0] == l[0]);
        assert(l.push(x).skip(1) =~= l.skip(1).push(x));
        lemma_enc_str_cat_snoc(l.skip(1), x);
        assert(enc_str_cat(l.push(x)) =~= enc_str(l[0]) + (enc_str_cat(l.skip(1)) + enc_str(x)));
        assert(enc_str_cat(l.push(x)) =~= enc_str_cat(l) + enc_str(x));
    }
}

/// Appending an entry extends the concatenated entry encodings.
pub proof fn lemma_enc_pair_cat_snoc(l: Seq<(Seq<char>, Seq<char>)>, x: (Seq<char>, Seq<char>))
    ensures
        enc_pair_cat(l.push(x)) =~= enc_pair_cat(l) + (enc_str(x.0) + enc_str(x.1)),
    decreases l.len(),
{
    if l.len() == 0 {
        assert(l =~= Seq::<(Seq<char>, Seq<char>)>::empty());
        assert(l.push(x)[0] == x);
        assert(l.push(x).skip(1) =~= Seq::<(Seq<char>, Seq<char>)>::empty());
        assert(enc_pair_cat(Seq::<(Seq<char>, Seq<char>)>::empty()) =~= Seq::<char>::empty());
        assert(enc_pair_cat(l.push(x)) =~= enc_str(x.0) + enc_str(x.1) + enc_pair_cat(
            l.push(x).skip(1),
        ));
        assert(enc_pair_cat(l.push(x)) =~= enc_pair_cat(l) + (enc_str(x.0) + enc_str(x.1)));
    } else {
        assert(l.push(x)[0] == l[0]);
        assert(l.push(x).skip(1) =~= l.skip(1).push(x));
        lemma_enc_pair_cat_snoc(l.skip(1), x);
        assert(enc_pair_cat(l.push(x)) =~= enc_str(l[0].0) + enc_str(l[0].1) + (enc_pair_cat(
            l.skip(1),
        ) + (enc_str(x.0) + enc_str(x.1))));
        assert(enc_pair_cat(l.push(x)) =~= enc_pair_cat(l) + (enc_str(x.0) + enc_str(x.1)));
    }
}

/// Appending a record extends the concatenated record encodings.
pub proof fn lemma_enc_cred_cat_snoc(l: Seq<Credential>, x: Credential)
    ensures
        enc_cred_cat(l.push(x)) =~= enc_cred_cat(l) + enc_cred(x),
    decreases l.len(),
{
    if l.len() == 0 {
        assert(l =~= Seq::<Credential>::empty());
        assert(l.push(x)[0] == x);
        assert(l.push(x).skip(1) =~= Seq::<Credential>::empty());
        assert(enc_cred_cat(Seq::<Credential>::empty()) =~= Seq::<char>::empty());
        assert(enc_cred_cat(l.push(x)) =~= enc_cred(x) + enc_cred_cat(l.push(x).skip(1)));
        assert(enc_cred_cat(l.push(x)) =~= enc_cred_cat(l) + enc_cred(x));
    } else {
        assert(l.push(x)[0] == l[0]);
        assert(l.push(x).skip(1) =~= l.skip(1).push(x));
        lemma_enc_cred_cat_snoc(l.skip(1), x);
        assert(enc_cred_cat(l.push(x)) =~= enc_cred(l[0]) + (enc_cred_cat(l.skip(1)) + enc_cred(
            x,
        )));
        assert(enc_cred_cat(l.push(x)) =~= enc_cred_cat(l) + enc_cred(x));
    }
}

fn write_num(out: &mut String, n: u64)
    ensures
        final(out)@ == old(out)@ + enc_num(n as nat),
{
    let d = u64_to_string(n);
    out.append(d.as_str());
    push_char(out, ':');
    proof {
        assert(out@ =~= old(out)@ + enc_num(n as nat));
    }
}

fn write_str_field(out: &mut String, v: &str)
    ensures
        final(out)@ == old(out)@ + enc_str(v@),
{
    let n: usize = v.unicode_len();
    write_num(out, n as u64);
    out.append(v);
    proof {
        assert(out@ =~= old(out)@ + enc_str(v@));
    }
}

fn write_bool(out: &mut String, b: bool)
    ensures
        final(out)@ == old(out)@ + enc_bool(b),
{
    if b {
        push_char(out, '1');
    } else {
        push_char(out, '0');
    }
    proof {
        assert(out@ =~= old(out)@ + enc_bool(b));
    }
}

fn write_i64(out: &mut String, v: i64)
    ensures
        final(out)@ == old(out)@ + enc_i64(v as int),
{
    if v >= 0 {
        push_char(out, '+');
        write_num(out, v as u64);
        proof {
            assert(out@ =~= old(out)@ + enc_i64(v as int));
        }
    } else {
        push_char(out, '-');
        let m: u64 = (-(v + 1)) as u64 + 1;
        proof {
            assert(m as nat == (-(v as int)) as nat);
        }
        write_num(out, m);
        proof {
            assert(out@ =~= old(out)@ + enc_i64(v as int));
        }
    }
}

fn write_opt_str(out: &mut String, v: &Option<String>)
    ensures
        final(out)@ == old(out)@ + enc_opt_str(opt_view(*v)),
{
    match v {
        Option::None => {
            push_char(out, '0');
            proof {
                assert(out@ =~= old(out)@ + enc_opt_str(opt_view(*v)));
            }
        },
        Option::Some(x) => {
            push_char(out, '1');
            write_str_field(out, x.as_str());
            proof {
                assert(out@ =~= old(out)@ + enc_opt_str(opt_view(*v)));
            }
        },
    }
}

fn write_opt_i64(out: &mut String, v: &Option<i64>)
    ensures
        final(out)@ == old(out)@ + enc_opt_i64(opt_int(*v)),
{
    match v {
        Option::None => {
            push_char(out, '0');
            proof {
                assert(out@ =~= old(out)@ + enc_opt_i64(opt_int(*v)));
            }
        },
        Option::Some(x) => {
            push_char(out, '1');
            write_i64(out, *x);
            proof {
                assert(out@ =~= old(out)@ + enc_opt_i64(opt_int(*v)));
            }
        },
    }
}

fn write_str_list(out: &mut String, v: &Vec<String>)
    ensures
        final(out)@ == old(out)@ + enc_str_list(str_views(v@)),
{
    write_num(out, v.len() as u64);
    let ghost base = out@;
    let mut i: usize = 0;
    proof {
        assert(str_views(v@.subrange(0, 0)) =~= Seq::<Seq<char>>::empty());
    }
    while i < v.len()
        invariant
            0 <= i <= v@.len(),
            out@ == base + enc_str_cat(str_views(v@.subrange(0, i as int))),
        decreases v@.len() - i,
    {
        write_str_field(out, v[i].as_str());
        proof {
            assert(str_views(v@.subrange(0, i + 1)) =~= str_views(v@.subrange(0, i as int)).push(
                v@[i as int]@,
            ));
            lemma_enc_str_cat_snoc(str_views(v@.subrange(0, i as int)), v@[i as int]@);
            assert(out@ =~= base + enc_str_cat(str_views(v@.subrange(0, i + 1))));
        }
        i = i + 1;
    }
    proof {
        assert(v@.subrange(0, v@.len() as int) =~= v@);
        assert(str_views(v@.subrange(0, v@.len() as int)) =~= str_views(v@));
        assert(str_views(v@).len() == v@.len());
        assert(out@ =~= old(out)@ + enc_str_list(str_views(v@)));
    }
}

fn write_pair_list(out: &mut String, v: &Vec<(String, String)>)
    ensures
        final(out)@ == old(out)@ + enc_pair_list(pair_views(v@)),
{
    write_num(out, v.len() as u64);
    let ghost base = out@;
    let mut i: usize = 0;
    proof {
        assert(pair_views(v@.subrange(0, 0)) =~= Seq::<(Seq<char>, Seq<char>)>::empty());
    }
    while i < v.len()
        invariant
            0 <= i <= v@.len(),
            out@ == base + enc_pair_cat(pair_views(v@.subrange(0, i as int))),
        decreases v@.len() - i,
    {
        write_str_field(out, v[i].0.as_str());
        write_str_field(out, v[i].1.as_str());
        proof {
            assert(pair_views(v@.subrange(0, i + 1)) =~= pair_views(
                v@.subrange(0, i as int),
            ).push((v@[i as int].0@, v@[i as int].1@)));
            lemma_enc_pair_cat_snoc(pair_views(v@.subrange(0, i as int)), (
                v@[i as int].0@,
                v@[i as int].1@,
            ));
            assert(out@ =~= base + enc_pair_cat(pair_views(v@.subrange(0, i + 1))));
        }
        i = i + 1;
    }
    proof {
        assert(v@.subrange(0, v@.len() as int) =~= v@);
        assert(pair_views(v@.subrange(0, v@.len() as int)) =~= pair_views(v@));
        assert(pair_views(v@).len() == v@.len());
        assert(out@ =~= old(out)@ + enc_pair_list(pair_views(v@)));
    }
}

fn write_auth(out: &mut String, a: &AuthData)
    ensures
        final(out)@ == old(out)@ + enc_auth(*a),
{
    match a {
        AuthData::Password(x) => {
            write_num(out, 0);
            write_str_field(out, x.as_str());
        },
        AuthData::NtlmHash(x) => {
            write_num(out, 1);
            write_str_field(out, x.as_str());
        },
        AuthData::LmHash(x) => {
            write_num(out, 2);
            write_str_field(out, x.as_str());
        },
        AuthData::LmNtlm { lm, ntlm } => {
            write_num(out, 3);
            write_str_field(out, lm.as_str());
            write_str_field(out, ntlm.as_str());
        },
        AuthData::KerberosTicket(x) => {
            write_num(out, 4);
            write_str_field(out, x.as_str());
        },
        AuthData::Certificate { cert_data, private_key } => {
            write_num(out, 5);
            write_str_field(out, cert_data.as_str());
            write_opt_str(out, private_key);
        },
        AuthData::Token(x) => {
            write_num(out, 6);
            write_str_field(out, x.as_str());
        },
        AuthData::Custom(m) => {
            write_num(out, 7);
            write_pair_list(out, m);
        },
    }
    proof {
        assert(out@ =~= old(out)@ + enc_auth(*a));
    }
}

fn write_ctype(out: &mut String, c: &CredentialType)
    ensures
        final(out)@ == old(out)@ + enc_ctype(*c),
{
    match c {
        CredentialType::DomainUser => write_num(out, 0),
        CredentialType::LocalAdmin => write_num(out, 1),
        CredentialType::DomainAdmin => write_num(out, 2),
        CredentialType::EnterpriseAdmin => write_num(out, 3),
        CredentialType::ServiceAccount => write_num(out, 4),
        CredentialType::MachineAccount => write_num(out, 5),
        CredentialType::ManagedServiceAccount => write_num(out, 6),
        CredentialType::GroupManagedServiceAccount => write_num(out, 7),
        CredentialType::ServicePrincipal => write_num(out, 8),
        CredentialType::BuiltIn => write_num(out, 9),
        CredentialType::Unknown => write_num(out, 10),
        CredentialType::Custom(x) => {
            write_num(out, 11);
            write_str_field(out, x.as_str());
        },
    }
    proof {
        assert(out@ =~= old(out)@ + enc_ctype(*c));
    }
}

fn write_cred(out: &mut String, c: &Credential)
    ensures
        final(out)@ == old(out)@ + enc_cred(*c),
{
    write_str_field(out, c.id.as_str());
    write_str_field(out, c.username.as_str());
    write_auth(out, &c.auth_data);
    write_ctype(out, &c.credential_type);
    write_str_list(out, &c.privileges);
    write_bool(out, c.is_validated);
    write_opt_i64(out, &c.last_used);
    write_i64(out, c.discovered_at);
    write_str_field(out, c.source.as_str());
    write_opt_str(out, &c.target_dc);
    write_opt_str(out, &c.notes);
    write_pair_list(out, &c.metadata);
    proof {
        assert(out@ =~= old(out)@ + enc_cred(*c));
    }
}

/// Render a credential sequence in the store's text format.
pub fn serialize_credentials(creds: &Vec<Credential>) -> (r: String)
    ensures
        r@ == enc_store(creds@),
{
    let mut out = String::new();
    write_num(&mut out, creds.len() as u64);
    let ghost base = out@;
    let mut i: usize = 0;
    proof {
        assert(enc_cred_cat(creds@.subrange(0, 0)) =~= Seq::<char>::empty());
        assert(out@ =~= base + enc_cred_cat(creds@.subrange(0, 0)));
    }
    while i < creds.len()
        invariant
            0 <= i <= creds@.len(),
            out@ == base + enc_cred_cat(creds@.subrange(0, i as int)),
        decreases creds@.len() - i,
    {
        write_cred(&mut out, &creds[i]);
        proof {
            assert(creds@.subrange(0, i + 1) =~= creds@.subrange(0, i as int).push(
                creds@[i as int],
            ));
            lemma_enc_cred_cat_snoc(creds@.subrange(0, i as int), creds@[i as int]);
            assert(out@ =~= base + enc_cred_cat(creds@.subrange(0, i + 1)));
        }
        i = i + 1;
    }
    proof {
        assert(creds@.subrange(0, creds@.len() as int) =~= creds@);
        assert(out@ =~= enc_store(creds@));
    }
    out
}

fn is_digit_exec(c: char) -> (r: bool)
    ensures
        r == is_digit(c),
{
    '0' <= c && c <= '9'
}

fn parse_num_exec(s: &str, pos: usize) -> (r: Option<(u64, usize)>)
    requires
        pos <= s@.len(),
    ensures
        (r is Some) == (parse_num(s@.skip(pos as int)) is Some),
        r matches Some(vp) ==> (parse_num(s@.skip(pos as int)) matches Some(sp) && vp.0 as nat
            == sp.0 && vp.1 == pos + sp.1 && pos < vp.1 <= s@.len()),
{
    let ghost t = s@.skip(pos as int);
    let total: usize = s.unicode_len();
    let mut d: usize = 0;
    while pos + d < total && is_digit_exec(s.get_char(pos + d))
        invariant
            pos <= s@.len(),
            total == s@.len(),
            t == s@.skip(pos as int),
            0 <= d,
            pos + d <= total,
            forall|k: int| 0 <= k < d ==> is_digit(#[trigger] t[k]),
        decreases total - pos - d,
    {
        proof {
            assert(t[d as int] == s@[pos + d]);
        }
        d = d + 1;
    }
    proof {
        if pos + d < total {
            assert(t[d as int] == s@[pos + d]);
            assert(!is_digit(t[d as int]));
        }
        lemma_num_digits_is(t, d as int);
    }
    if d == 0 {
        return Option::None;
    }
    if d >= 2 && s.get_char(pos) == '0' {
        proof {
            assert(t[0] == s@[pos as int]);
        }
        return Option::None;
    }
    proof {
        assert(t[0] == s@[pos as int]);
    }
    let mut v: u64 = 0;
    let mut j: usize = 0;
    proof {
        assert(t.subrange(0, 0) =~= Seq::<char>::empty());
    }
    while j < d
        invariant
            pos <= s@.len(),
            total == s@.len(),
            t == s@.skip(pos as int),
            pos + d <= total,
            0 <= j <= d,
            num_digits(t) == d,
            forall|k: int| 0 <= k < d ==> is_digit(#[trigger] t[k]),
            v as nat == dec_val(t.subrange(0, j as int)),
        decreases d - j,
    {
        let c = s.get_char(pos + j);
        proof {
            assert(t[j as int] == s@[pos + j]);
            assert(is_digit(t[j as int]));
        }
        let dig: u64 = (c as u32 - 48) as u64;
        proof {
            assert(dig as nat == digit_val(t[j as int]));
        }
        if v > 0xffff_ffff_ffff_ffffu64 / 10 || (v == 0xffff_ffff_ffff_ffffu64 / 10 && dig
            > 0xffff_ffff_ffff_ffffu64 % 10) {
            proof {
                assert(t.subrange(0, j + 1).drop_last() =~= t.subrange(0, j as int));
                assert(t.subrange(0, j + 1).last() == t[j as int]);
                assert(dec_val(t.subrange(0, j + 1)) > 0xffff_ffff_ffff_ffff);
                lemma_dec_val_prefix_mono(t, j + 1, d as int);
                assert(dec_val(t.subrange(0, d as int)) > 0xffff_ffff_ffff_ffff);
            }
            return Option::None;
        }
        proof {
            assert(t.subrange(0, j + 1).drop_last() =~= t.subrange(0, j as int));
            assert(t.subrange(0, j + 1).last() == t[j as int]);
        }
        v = v * 10 + dig;
        j = j + 1;
    }
    if pos + d >= total {
        return Option::None;
    }
    if s.get_char(pos + d) != ':' {
        proof {
            assert(t[d as int] == s@[pos + d]);
        }
        return Option::None;
    }
    proof {
        assert(t[d as int] == s@[pos + d]);
        assert(t[d as int] == ':');
        assert(parse_num(t) == Option::Some((dec_val(t.subrange(0, d as int)), d + 1 as int)));
    }
    Option::Some((v, pos + d + 1))
}

fn parse_str_exec(s: &str, pos: usize) -> (r: Option<(String, usize)>)
    requires
        pos <= s@.len(),
    ensures
        (r is Some) == (parse_str(s@.skip(pos as int)) is Some),
        r matches Some(vp) ==> (parse_str(s@.skip(pos as int)) matches Some(sp) && vp.0@ == sp.0
            && vp.1 == pos + sp.1 && pos < vp.1 <= s@.len()),
{
    let ghost t = s@.skip(pos as int);
    match parse_num_exec(s, pos) {
        Option::None => Option::None,
        Option::Some((n, np)) => {
            let total: usize = s.unicode_len();
            if n > (total - np) as u64 {
                proof {
                    assert(parse_str(t) is None);
                }
                return Option::None;
            }
            let take: usize = n as usize;
            let sub = s.substring_char(np, np + take);
            let owned = String::from_str(sub);
            proof {
                let sp = parse_num(t).unwrap();
                assert(t.subrange(sp.1, sp.1 + sp.0 as int) =~= s@.subrange(
                    np as int,
                    np + take as int,
                ));
            }
            Option::Some((owned, np + take))
        },
    }
}

fn parse_bool_exec(s: &str, pos: usize) -> (r: Option<(bool, usize)>)
    requires
        pos <= s@.len(),
    ensures
        (r is Some) == (parse_bool(s@.skip(pos as int)) is Some),
        r matches Some(vp) ==> (parse_bool(s@.skip(pos as int)) matches Some(sp) && vp.0 == sp.0
            && vp.1 == pos + sp.1 && pos < vp.1 <= s@.len()),
{
    let ghost t = s@.skip(pos as int);
    let total: usize = s.unicode_len();
    if pos >= total {
        return Option::None;
    }
    let c = s.get_char(pos);
    proof {
        assert(t[0] == s@[pos as int]);
    }
    if c == '1' {
        Option::Some((true, pos + 1))
    } else if c == '0' {
        Option::Some((false, pos + 1))
    } else {
        Option::None
    }
}

fn parse_i64_exec(s: &str, pos: usize) -> (r: Option<(i64, usize)>)
    requires
        pos <= s@.len(),
    ensures
        (r is Some) == (parse_i64(s@.skip(pos as int)) is Some),
        r matches Some(vp) ==> (parse_i64(s@.skip(pos as int)) matches Some(sp) && vp.0 as int
            == sp.0 && vp.1 == pos + sp.1 && pos < vp.1 <= s@.len()),
{
    let ghost t = s@.skip(pos as int);
    let total: usize = s.unicode_len();
    if pos >= total {
        return Option::None;
    }
    let c = s.get_char(pos);
    proof {
        assert(t[0] == s@[pos as int]);
        crate::codec::lemma_skip_skip(s@, pos as int, 1);
    }
    if c == '+' {
        match parse_num_exec(s, pos + 1) {
            Option::None => Option::None,
            Option::Some((n, np)) => {
                if n <= 0x7fff_ffff_ffff_ffffu64 {
                    Option::Some((n as i64, np))
                } else {
                    Option::None
                }
            },
        }
    } else if c == '-' {
        match parse_num_exec(s, pos + 1) {
            Option::None => Option::None,
            Option::Some((n, np)) => {
                if n < 0x8000_0000_0000_0000u64 {
                    Option::Some((-(n as i64), np))
                } else if n == 0x8000_0000_0000_0000u64 {
                    Option::Some((i64::MIN, np))
                } else {
                    Option::None
                }
            },
        }
    } else {
        Option::None
    }
}

fn parse_opt_str_exec(s: &str, pos: usize) -> (r: Option<(Option<String>, usize)>)
    requires
        pos <= s@.len(),
    ensures
        (r is Some) == (parse_opt_str(s@.skip(pos as int)) is Some),
        r matches Some(vp) ==> (parse_opt_str(s@.skip(pos as int)) matches Some(sp) && opt_view(
            vp.0,
        ) == sp.0 && vp.1 == pos + sp.1 && pos < vp.1 <= s@.len()),
{
    let ghost t = s@.skip(pos as int);
    let total: usize = s.unicode_len();
    if pos >= total {
        return Option::None;
    }
    let c = s.get_char(pos);
    proof {
        assert(t[0] == s@[pos as int]);
        crate::codec::lemma_skip_skip(s@, pos as int, 1);
    }
    if c == '0' {
        Option::Some((Option::None, pos + 1))
    } else if c == '1' {
        match parse_str_exec(s, pos + 1) {
            Option::None => Option::None,
            Option::Some((v, np)) => Option::Some((Option::Some(v), np)),
        }
    } else {
        Option::None
    }
}

fn parse_opt_i64_exec(s: &str, pos: usize) -> (r: Option<(Option<i64>, usize)>)
    requires
        pos <= s@.len(),
    ensures
        (r is Some) == (parse_opt_i64(s@.skip(pos as int)) is Some),
        r matches Some(vp) ==> (parse_opt_i64(s@.skip(pos as int)) matches Some(sp) && opt_int(
            vp.0,
        ) == sp.0 && vp.1 == pos + sp.1 && pos < vp.1 <= s@.len()),
{
    let ghost t = s@.skip(pos as int);
    let total: usize = s.unicode_len();
    if pos >= total {
        return Option::None;
    }
    let c = s.get_char(pos);
    proof {
        assert(t[0] == s@[pos as int]);
        crate::codec::lemma_skip_skip(s@, pos as int, 1);
    }
    if c == '0' {
        Option::Some((Option::None, pos + 1))
    } else if c == '1' {
        match parse_i64_exec(s, pos + 1) {
            Option::None => Option::None,
            Option::Some((v, np)) => Option::Some((Option::Some(v), np)),
        }
    } else {
        Option::None
    }
}

fn parse_strs_exec(s: &str, pos: usize, n: u64) -> (r: Option<(Vec<String>, usize)>)
    requires
        pos <= s@.len(),
    ensures
        (r is Some) == (parse_strs(s@.skip(pos as int), n as nat) is Some),
        r matches Some(vp) ==> (parse_strs(s@.skip(pos as int), n as nat) matches Some(sp)
            && str_views(vp.0@) == sp.0 && vp.1 == pos + sp.1 && pos <= vp.1 <= s@.len()),
    decreases n,
{
    let ghost t = s@.skip(pos as int);
    if n == 0 {
        let out: Vec<String> = Vec::new();
        proof {
            assert(str_views(out@) =~= Seq::<Seq<char>>::empty());
        }
        return Option::Some((out, pos));
    }
    let (v, np) = match parse_str_exec(s, pos) {
        Option::None => {
            return Option::None;
        },
        Option::Some(x) => x,
    };
    proof {
        let sp = parse_str(t).unwrap();
        lemma_skip_skip(s@, pos as int, sp.1);
        assert(s@.skip(np as int) == t.skip(sp.1));
    }
    match parse_strs_exec(s, np, n - 1) {
        Option::None => Option::None,
        Option::Some((mut rest, fp)) => {
            let mut out: Vec<String> = Vec::new();
            out.push(v);
            out.append(&mut rest);
            proof {
                let sp = parse_str(t).unwrap();
                let rp = parse_strs(t.skip(sp.1), (n - 1) as nat).unwrap();
                assert(str_views(out@) =~= seq![sp.0] + rp.0);
            }
            Option::Some((out, fp))
        },
    }
}

fn parse_pairs_exec(s: &str, pos: usize, n: u64) -> (r: Option<(Vec<(String, String)>, usize)>)
    requires
        pos <= s@.len(),
    ensures
        (r is Some) == (parse_pairs(s@.skip(pos as int), n as nat) is Some),
        r matches Some(vp) ==> (parse_pairs(s@.skip(pos as int), n as nat) matches Some(sp)
            && pair_views(vp.0@) == sp.0 && vp.1 == pos + sp.1 && pos <= vp.1 <= s@.len()),
    decreases n,
{
    let ghost t = s@.skip(pos as int);
    if n == 0 {
        let out: Vec<(String, String)> = Vec::new();
        proof {
            assert(pair_views(out@) =~= Seq::<(Seq<char>, Seq<char>)>::empty());
        }
        return Option::Some((out, pos));
    }
    let (k, kp) = match parse_str_exec(s, pos) {
        Option::None => {
            return Option::None;
        },
        Option::Some(x) => x,
    };
    proof {
        let sp = parse_str(t).unwrap();
        lemma_skip_skip(s@, pos as int, sp.1);
        assert(s@.skip(kp as int) == t.skip(sp.1));
    }
    let (v, vp2) = match parse_str_exec(s, kp) {
        Option::None => {
            return Option::None;
        },
        Option::Some(x) => x,
    };
    proof {
        let sp = parse_str(t).unwrap();
        let sq = parse_str(t.skip(sp.1)).unwrap();
        lemma_skip_skip(s@, pos as int, sp.1 + sq.1);
        lemma_skip_skip(t, sp.1, sq.1);
        assert(s@.skip(vp2 as int) == t.skip(sp.1 + sq.1));
    }
    match parse_pairs_exec(s, vp2, n - 1) {
        Option::None => Option::None,
        Option::Some((mut rest, fp)) => {
            let mut out: Vec<(String, String)> = Vec::new();
            out.push((k, v));
            out.append(&mut rest);
            proof {
                let sp = parse_str(t).unwrap();
                let sq = parse_str(t.skip(sp.1)).unwrap();
                let rp = parse_pairs(t.skip(sp.1 + sq.1), (n - 1) as nat).unwrap();
                assert(pair_views(out@) =~= seq![(sp.0, sq.0)] + rp.0);
            }
            Option::Some((out, fp))
        },
    }
}

fn parse_str_list_exec(s: &str, pos: usize) -> (r: Option<(Vec<String>, usize)>)
    requires
        pos <= s@.len(),
    ensures
        (r is Some) == (parse_str_list(s@.skip(pos as int)) is Some),
        r matches Some(vp) ==> (parse_str_list(s@.skip(pos as int)) matches Some(sp) && str_views(
            vp.0@,
        ) == sp.0 && vp.1 == pos + sp.1 && pos <= vp.1 <= s@.len()),
{
    let ghost t = s@.skip(pos as int);
    let (n, np) = match parse_num_exec(s, pos) {
        Option::None => {
            return Option::None;
        },
        Option::Some(x) => x,
    };
    proof {
        let sp = parse_num(t).unwrap();
        lemma_skip_skip(s@, pos as int, sp.1);
        assert(s@.skip(np as int) == t.skip(sp.1));
    }
    match parse_strs_exec(s, np, n) {
        Option::None => Option::None,
        Option::Some((l, fp)) => Option::Some((l, fp)),
    }
}

fn parse_pair_list_exec(s: &str, pos: usize) -> (r: Option<(Vec<(String, String)>, usize)>)
    requires
        pos <= s@.len(),
    ensures
        (r is Some) == (parse_pair_list(s@.skip(pos as int)) is Some),
        r matches Some(vp) ==> (parse_pair_list(s@.skip(pos as int)) matches Some(sp)
            && pair_views(vp.0@) == sp.0 && vp.1 == pos + sp.1 && pos <= vp.1 <= s@.len()),
{
    let ghost t = s@.skip(pos as int);
    let (n, np) = match parse_num_exec(s, pos) {
        Option::None => {
            return Option::None;
        },
        Option::Some(x) => x,
    };
    proof {
        let sp = parse_num(t).unwrap();
        lemma_skip_skip(s@, pos as int, sp.1);
        assert(s@.skip(np as int) == t.skip(sp.1));
    }
    match parse_pairs_exec(s, np, n) {
        Option::None => Option::None,
        Option::Some((l, fp)) => Option::Some((l, fp)),
    }
}

fn parse_auth_exec(s: &str, pos: usize) -> (r: Option<(AuthData, usize)>)
    requires
        pos <= s@.len(),
    ensures
        (r is Some) == (parse_auth(s@.skip(pos as int)) is Some),
        r matches Some(vp) ==> (parse_auth(s@.skip(pos as int)) matches Some(sp) && auth_models(
            sp.0,
            vp.0,
        ) && vp.1 == pos + sp.1 && pos <= vp.1 <= s@.len()),
{
    let ghost t = s@.skip(pos as int);
    let (tag, np) = match parse_num_exec(s, pos) {
        Option::None => {
            return Option::None;
        },
        Option::Some(x) => x,
    };
    proof {
        let sp = parse_num(t).unwrap();
        lemma_skip_skip(s@, pos as int, sp.1);
        assert(s@.skip(np as int) == t.skip(sp.1));
    }
    if tag == 0 || tag == 1 || tag == 2 || tag == 4 || tag == 6 {
        match parse_str_exec(s, np) {
            Option::None => Option::None,
            Option::Some((v, fp)) => {
                let a = if tag == 0 {
                    AuthData::Password(v)
                } else if tag == 1 {
                    AuthData::NtlmHash(v)
                } else if tag == 2 {
                    AuthData::LmHash(v)
                } else if tag == 4 {
                    AuthData::KerberosTicket(v)
                } else {
                    AuthData::Token(v)
                };
                Option::Some((a, fp))
            },
        }
    } else if tag == 3 {
        let (lm, lp) = match parse_str_exec(s, np) {
            Option::None => {
                return Option::None;
            },
            Option::Some(x) => x,
        };
        proof {
            let sp = parse_num(t).unwrap();
            let sq = parse_str(t.skip(sp.1)).unwrap();
            lemma_skip_skip(s@, pos as int, sp.1 + sq.1);
            lemma_skip_skip(t, sp.1, sq.1);
            assert(s@.skip(lp as int) == t.skip(sp.1 + sq.1));
        }
        match parse_str_exec(s, lp) {
            Option::None => Option::None,
            Option::Some((ntlm, fp)) => Option::Some((AuthData::LmNtlm { lm, ntlm }, fp)),
        }
    } else if tag == 5 {
        let (cert, cp) = match parse_str_exec(s, np) {
            Option::None => {
                return Option::None;
            },
            Option::Some(x) => x,
        };
        proof {
            let sp = parse_num(t).unwrap();
            let sq = parse_str(t.skip(sp.1)).unwrap();
            lemma_skip_skip(s@, pos as int, sp.1 + sq.1);
            lemma_skip_skip(t, sp.1, sq.1);
            assert(s@.skip(cp as int) == t.skip(sp.1 + sq.1));
        }
        match parse_opt_str_exec(s, cp) {
            Option::None => Option::None,
            Option::Some((pk, fp)) => Option::Some(
                (AuthData::Certificate { cert_data: cert, private_key: pk }, fp),
            ),
        }
    } else if tag == 7 {
        match parse_pair_list_exec(s, np) {
            Option::None => Option::None,
            Option::Some((m, fp)) => Option::Some((AuthData::Custom(m), fp)),
        }
    } else {
        Option::None
    }
}

fn parse_ctype_exec(s: &str, pos: usize) -> (r: Option<(CredentialType, usize)>)
    requires
        pos <= s@.len(),
    ensures
        (r is Some) == (parse_ctype(s@.skip(pos as int)) is Some),
        r matches Some(vp) ==> (parse_ctype(s@.skip(pos as int)) matches Some(sp) && ctype_models(
            sp.0,
            vp.0,
        ) && vp.1 == pos + sp.1 && pos <= vp.1 <= s@.len()),
{
    let ghost t = s@.skip(pos as int);
    let (tag, np) = match parse_num_exec(s, pos) {
        Option::None => {
            return Option::None;
        },
        Option::Some(x) => x,
    };
    proof {
        let sp = parse_num(t).unwrap();
        lemma_skip_skip(s@, pos as int, sp.1);
        assert(s@.skip(np as int) == t.skip(sp.1));
    }
    if tag <= 10 {
        let c = if tag == 0 {
            CredentialType::DomainUser
        } else if tag == 1 {
            CredentialType::LocalAdmin
        } else if tag == 2 {
            CredentialType::DomainAdmin
        } else if tag == 3 {
            CredentialType::EnterpriseAdmin
        } else if tag == 4 {
            CredentialType::ServiceAccount
        } else if tag == 5 {
            CredentialType::MachineAccount
        } else if tag == 6 {
            CredentialType::ManagedServiceAccount
        } else if tag == 7 {
            CredentialType::GroupManagedServiceAccount
        } else if tag == 8 {
            CredentialType::ServicePrincipal
        } else if tag == 9 {
            CredentialType::BuiltIn
        } else {
            CredentialType::Unknown
        };
        Option::Some((c, np))
    } else if tag == 11 {
        match parse_str_exec(s, np) {
            Option::None => Option::None,
            Option::Some((v, fp)) => Option::Some((CredentialType::Custom(v), fp)),
        }
    } else {
        Option::None
    }
}

#[verifier::rlimit(100)]
fn parse_cred_front_exec(s: &str, pos: usize) -> (r: Option<
    ((String, String, AuthData, CredentialType, Vec<String>, bool), usize),
>)
    requires
        pos <= s@.len(),
    ensures
        (r is Some) == (parse_cred_front(s@.skip(pos as int)) is Some),
        r matches Some(vp) ==> (parse_cred_front(s@.skip(pos as int)) matches Some(sp) && vp.0.0@
            == sp.0.0 && vp.0.1@ == sp.0.1 && auth_models(sp.0.2, vp.0.2) && ctype_models(
            sp.0.3,
            vp.0.3,
        ) && str_views(vp.0.4@) == sp.0.4 && vp.0.5 == sp.0.5 && vp.1 == pos + sp.1 && pos < vp.1
            <= s@.len()),
{
    let ghost t = s@.skip(pos as int);
    let (id, c1) = match parse_str_exec(s, pos) {
        Option::None => {
            return Option::None;
        },
        Option::Some(x) => x,
    };
    let ghost p1 = parse_str(t).unwrap().1;
    proof {
        lemma_skip_skip(s@, pos as int, p1);
        assert(s@.skip(c1 as int) == t.skip(p1));
    }
    let (username, c2) = match parse_str_exec(s, c1) {
        Option::None => {
            return Option::None;
        },
        Option::Some(x) => x,
    };
    let ghost p2 = parse_str(t.skip(p1)).unwrap().1;
    proof {
        lemma_skip_skip(s@, pos as int, p1 + p2);
        lemma_skip_skip(t, p1, p2);
        assert(s@.skip(c2 as int) == t.skip(p1 + p2));
    }
    let (auth, c3) = match parse_auth_exec(s, c2) {
        Option::None => {
            return Option::None;
        },
        Option::Some(x) => x,
    };
    let ghost p3 = parse_auth(t.skip(p1 + p2)).unwrap().1;
    proof {
        lemma_skip_skip(s@, pos as int, p1 + p2 + p3);
        lemma_skip_skip(t, p1 + p2, p3);
        assert(s@.skip(c3 as int) == t.skip(p1 + p2 + p3));
    }
    let (ctype, c4) = match parse_ctype_exec(s, c3) {
        Option::None => {
            return Option::None;
        },
        Option::Some(x) => x,
    };
    let ghost p4 = parse_ctype(t.skip(p1 + p2 + p3)).unwrap().1;
    proof {
        lemma_skip_skip(s@, pos as int, p1 + p2 + p3 + p4);
        lemma_skip_skip(t, p1 + p2 + p3, p4);
        assert(s@.skip(c4 as int) == t.skip(p1 + p2 + p3 + p4));
    }
    let (privileges, c5) = match parse_str_list_exec(s, c4) {
        Option::None => {
            return Option::None;
        },
        Option::Some(x) => x,
    };
    let ghost p5 = parse_str_list(t.skip(p1 + p2 + p3 + p4)).unwrap().1;
    proof {
        lemma_skip_skip(s@, pos as int, p1 + p2 + p3 + p4 + p5);
        lemma_skip_skip(t, p1 + p2 + p3 + p4, p5);
        assert(s@.skip(c5 as int) == t.skip(p1 + p2 + p3 + p4 + p5));
    }
    match parse_bool_exec(s, c5) {
        Option::None => Option::None,
        Option::Some((is_validated, c6)) => Option::Some(
            ((id, username, auth, ctype, privileges, is_validated), c6),
        ),
    }
}

#[verifier::rlimit(100)]
fn parse_cred_back_exec(s: &str, pos: usize) -> (r: Option<
    ((Option<i64>, i64, String, Option<String>, Option<String>, Vec<(String, String)>), usize),
>)
    requires
        pos <= s@.len(),
    ensures
        (r is Some) == (parse_cred_back(s@.skip(pos as int)) is Some),
        r matches Some(vp) ==> (parse_cred_back(s@.skip(pos as int)) matches Some(sp) && opt_int(
            vp.0.0,
        ) == sp.0.0 && vp.0.1 as int == sp.0.1 && vp.0.2@ == sp.0.2 && opt_view(vp.0.3) == sp.0.3
            && opt_view(vp.0.4) == sp.0.4 && pair_views(vp.0.5@) == sp.0.5 && vp.1 == pos + sp.1
            && pos < vp.1 <= s@.len()),
{
    let ghost t = s@.skip(pos as int);
    let (last_used, c7) = match parse_opt_i64_exec(s, pos) {
        Option::None => {
            return Option::None;
        },
        Option::Some(x) => x,
    };
    let ghost p7 = parse_opt_i64(t).unwrap().1;
    proof {
        lemma_skip_skip(s@, pos as int, p7);
        assert(s@.skip(c7 as int) == t.skip(p7));
    }
    let (discovered_at, c8) = match parse_i64_exec(s, c7) {
        Option::None => {
            return Option::None;
        },
        Option::Some(x) => x,
    };
    let ghost p8 = parse_i64(t.skip(p7)).unwrap().1;
    proof {
        lemma_skip_skip(s@, pos as int, p7 + p8);
        lemma_skip_skip(t, p7, p8);
        assert(s@.skip(c8 as int) == t.skip(p7 + p8));
    }
    let (source, c9) = match parse_str_exec(s, c8) {
        Option::None => {
            return Option::None;
        },
        Option::Some(x) => x,
    };
    let ghost p9 = parse_str(t.skip(p7 + p8)).unwrap().1;
    proof {
        lemma_skip_skip(s@, pos as int, p7 + p8 + p9);
        lemma_skip_skip(t, p7 + p8, p9);
        assert(s@.skip(c9 as int) == t.skip(p7 + p8 + p9));
    }
    let (target_dc, c10) = match parse_opt_str_exec(s, c9) {
        Option::None => {
            return Option::None;
        },
        Option::Some(x) => x,
    };
    let ghost p10 = parse_opt_str(t.skip(p7 + p8 + p9)).unwrap().1;
    proof {
        lemma_skip_skip(s@, pos as int, p7 + p8 + p9 + p10);
        lemma_skip_skip(t, p7 + p8 + p9, p10);
        assert(s@.skip(c10 as int) == t.skip(p7 + p8 + p9 + p10));
    }
    let (notes, c11) = match parse_opt_str_exec(s, c10) {
        Option::None => {
            return Option::None;
        },
        Option::Some(x) => x,
    };
    let ghost p11 = parse_opt_str(t.skip(p7 + p8 + p9 + p10)).unwrap().1;
    proof {
        lemma_skip_skip(s@, pos as int, p7 + p8 + p9 + p10 + p11);
        lemma_skip_skip(t, p7 + p8 + p9 + p10, p11);
        assert(s@.skip(c11 as int) == t.skip(p7 + p8 + p9 + p10 + p11));
    }
    match parse_pair_list_exec(s, c11) {
        Option::None => Option::None,
        Option::Some((metadata, c12)) => Option::Some(
            ((last_used, discovered_at, source, target_dc, notes, metadata), c12),
        ),
    }
}

fn parse_cred_exec(s: &str, pos: usize) -> (r: Option<(Credential, usize)>)
    requires
        pos <= s@.len(),
    ensures
        (r is Some) == (parse_cred(s@.skip(pos as int)) is Some),
        r matches Some(vp) ==> (parse_cred(s@.skip(pos as int)) matches Some(sp) && cred_models(
            sp.0,
            vp.0,
        ) && vp.1 == pos + sp.1 && pos < vp.1 <= s@.len()),
{
    let ghost t = s@.skip(pos as int);
    let (front, cf) = match parse_cred_front_exec(s, pos) {
        Option::None => {
            return Option::None;
        },
        Option::Some(x) => x,
    };
    let ghost pf = parse_cred_front(t).unwrap().1;
    proof {
        lemma_skip_skip(s@, pos as int, pf);
        assert(s@.skip(cf as int) == t.skip(pf));
    }
    match parse_cred_back_exec(s, cf) {
        Option::None => Option::None,
        Option::Some((back, cb)) => {
            let (id, username, auth_data, credential_type, privileges, is_validated) = front;
            let (last_used, discovered_at, source, target_dc, notes, metadata) = back;
            let c = Credential {
                id,
                username,
                auth_data,
                credential_type,
                privileges,
                is_validated,
                last_used,
                discovered_at,
                source,
                target_dc,
                notes,
                metadata,
            };
            Option::Some((c, cb))
        },
    }
}

fn parse_creds_exec(s: &str, pos: usize, n: u64) -> (r: Option<(Vec<Credential>, usize)>)
    requires
        pos <= s@.len(),
    ensures
        (r is Some) == (parse_creds(s@.skip(pos as int), n as nat) is Some),
        r matches Some(vp) ==> (parse_creds(s@.skip(pos as int), n as nat) matches Some(sp)
            && vp.0@.len() == sp.0.len() && (forall|i: int|
            0 <= i < sp.0.len() ==> cred_models(#[trigger] sp.0[i], vp.0@[i])) && vp.1 == pos
            + sp.1 && pos <= vp.1 <= s@.len()),
    decreases n,
{
    let ghost t = s@.skip(pos as int);
    if n == 0 {
        let out: Vec<Credential> = Vec::new();
        return Option::Some((out, pos));
    }
    let (c, np) = match parse_cred_exec(s, pos) {
        Option::None => {
            return Option::None;
        },
        Option::Some(x) => x,
    };
    proof {
        let sp = parse_cred(t).unwrap();
        lemma_skip_skip(s@, pos as int, sp.1);
        assert(s@.skip(np as int) == t.skip(sp.1));
    }
    match parse_creds_exec(s, np, n - 1) {
        Option::None => Option::None,
        Option::Some((mut rest, fp)) => {
            let mut out: Vec<Credential> = Vec::new();
            out.push(c);
            out.append(&mut rest);
            proof {
                let sp = parse_cred(t).unwrap();
                let rp = parse_creds(t.skip(sp.1), (n - 1) as nat).unwrap();
                assert((seq![sp.0] + rp.0).len() == out@.len());
                assert forall|i: int| 0 <= i < (seq![sp.0] + rp.0).len() implies cred_models(
                    #[trigger] (seq![sp.0] + rp.0)[i],
                    out@[i],
                ) by {
                    if i == 0 {
                        assert((seq![sp.0] + rp.0)[0] == sp.0);
                        assert(out@[0] == c);
                    } else {
                        assert((seq![sp.0] + rp.0)[i] == rp.0[i - 1]);
                    }
                }
            }
            Option::Some((out, fp))
        },
    }
}

/// All record images carry distinct ids.
pub open spec fn models_unique(ms: Seq<CredModel>) -> bool {
    forall|i: int, j: int| 0 <= i < j < ms.len() ==> (#[trigger] ms[i]).id != (#[trigger] ms[j]).id
}

/// Parse a whole store rendering; every character must be consumed.
pub fn parse_store_exec(s: &str) -> (r: Option<Vec<Credential>>)
    ensures
        (r is Some) == (parse_store(s@) is Some),
        r matches Some(v) ==> (parse_store(s@) matches Some(ms) && v@.len() == ms.len() && (
        forall|i: int| 0 <= i < ms.len() ==> cred_models(#[trigger] ms[i], v@[i]))),
{
    let ghost t = s@.skip(0);
    proof {
        assert(t =~= s@);
    }
    let (n, np) = match parse_num_exec(s, 0) {
        Option::None => {
            return Option::None;
        },
        Option::Some(x) => x,
    };
    proof {
        let sp = parse_num(s@).unwrap();
        assert(s@.skip(np as int) == s@.skip(sp.1));
    }
    let (l, fp) = match parse_creds_exec(s, np, n) {
        Option::None => {
            return Option::None;
        },
        Option::Some(x) => x,
    };
    let total: usize = s.unicode_len();
    if fp == total {
        Option::Some(l)
    } else {
        Option::None
    }
}

} // verus!
