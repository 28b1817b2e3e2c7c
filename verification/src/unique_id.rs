//! Unique identifiers: opaque strings of the form `prefix:timestamp:key`,
//! where the timestamp is the current millisecond count and the key is a
//! random alphanumeric string of a requested length.

use vstd::prelude::*;
use vstd::string::StrSliceExecFns;
use vstd::string::StringExecFns;
use rand::Rng;

use crate::errors::UniqueIdError;
use crate::text::colon_free;
use crate::text::i64_to_string;
use crate::text::is_ascii_alnum_char;
use crate::text::is_ascii_digit_char;
use crate::text::push_char;
use crate::text::spec_dec;
use crate::text::spec_dec_signed;
use crate::text::spec_split_colon;
use crate::text::split_colon;
use crate::text::lemma_split_three_parts;

verus! {

/// A non-empty, colon-free segment: what the timestamp part of an
/// identifier looks like.
pub open spec fn is_segment(s: Seq<char>) -> bool {
    s.len() > 0 && colon_free(s)
}

/// An alphanumeric key of the given length.
pub open spec fn is_alnum_key(s: Seq<char>, keylen: nat) -> bool {
    s.len() == keylen && forall|i: int| 0 <= i < s.len() ==> is_ascii_alnum_char(#[trigger] s[i])
}

/// An identifier string shaped as `prefix:timestamp:key`: the prefix given
/// at construction, then a non-empty colon-free timestamp segment, then an
/// alphanumeric key of the requested length.
pub open spec fn id_shaped(id: Seq<char>, prefix: Seq<char>, keylen: nat) -> bool {
    exists|ts: Seq<char>, key: Seq<char>|
        {
            &&& id == prefix + seq![':'] + ts + seq![':'] + key
            &&& #[trigger] is_segment(ts)
            &&& #[trigger] is_alnum_key(key, keylen)
        }
}

proof fn lemma_spec_dec_digits(n: nat)
    ensures
        spec_dec(n).len() > 0,
        forall|i: int| 0 <= i < spec_dec(n).len() ==> is_ascii_digit_char(#[trigger] spec_dec(n)[i]),
    decreases n,
{
    if n >= 10 {
        lemma_spec_dec_digits(n / 10);
    }
}

proof fn lemma_dec_signed_segment(v: int)
    ensures
        is_segment(spec_dec_signed(v)),
{
    if v >= 0 {
        lemma_spec_dec_digits(v as nat);
    } else {
        lemma_spec_dec_digits((-v) as nat);
    }
}

/// Relies on chrono's Utc::now: the number of non-leap milliseconds since
/// the Unix epoch.  Nothing is assumed of the value.
#[verifier::external_body]
fn now_millis() -> i64 {
    chrono::Utc::now().timestamp_millis()
}

/// Relies on rand's Alphanumeric distribution: every sampled byte is one
/// of `A`-`Z`, `a`-`z`, `0`-`9`, so the collected string has exactly the
/// requested number of ASCII alphanumeric characters.
#[verifier::external_body]
fn random_alphanumeric_key(length: usize) -> (r: String)
    ensures
        r@.len() == length,
        forall|i: int| 0 <= i < r@.len() ==> is_ascii_alnum_char(#[trigger] r@[i]),
{
    rand::thread_rng().sample_iter(&rand::distributions::Alphanumeric).take(length).map(
        char::from,
    ).collect::<String>()
}

/// The parts of a `UniqueId`.
#[derive(Debug)]
pub enum UniqueIdParts {
    Prefix,
    Timestamp,
    Key,
}

/// Something that carries a `UniqueId`.
pub trait Identifier {
    fn get_id(&self) -> &UniqueId;
}

/// A unique identifier composed of a prefix, a timestamp, and a random
/// alphanumeric key, joined by colons.
#[derive(Debug)]
pub struct UniqueId(String);

impl View for UniqueId {
    type V = Seq<char>;

    closed spec fn view(&self) -> Seq<char> {
        self.0@
    }
}

impl DeepView for UniqueId {
    type V = Seq<char>;

    open spec fn deep_view(&self) -> Seq<char> {
        self.view()
    }
}

impl Clone for UniqueId {
    fn clone(&self) -> (r: Self)
        ensures
            r@ == self@,
    {
        UniqueId(self.0.clone())
    }
}

impl PartialEq for UniqueId {
    fn eq(&self, other: &Self) -> (r: bool) {
        self.0 == other.0
    }
}

impl vstd::std_specs::cmp::PartialEqSpecImpl for UniqueId {
    open spec fn obeys_eq_spec() -> bool {
        true
    }

    open spec fn eq_spec(&self, other: &UniqueId) -> bool {
        self.view() == other.view()
    }
}

impl Identifier for UniqueId {
    fn get_id(&self) -> &UniqueId {
        self
    }
}

impl UniqueId {
    /// The identifier as a string.
    pub fn as_str(&self) -> (r: &str)
        ensures
            r@ == self@,
    {
        self.0.as_str()
    }

    /// Wraps an arbitrary string as an identifier; `parse` decides
    /// whether it is well formed.
    pub fn from_string(s: String) -> (r: UniqueId)
        ensures
            r@ == s@,
    {
        UniqueId(s)
    }

    /// The requested key length: the given value, or eight by default.
    pub open spec fn requested_len(length: Option<usize>) -> nat {
        match length {
            Option::Some(l) => l as nat,
            Option::None => 8,
        }
    }

    /// Creates a new identifier from a prefix and a random key of the
    /// requested length.  Fails exactly when the prefix is empty.
    pub fn new(prefix: &str, length: Option<usize>) -> (r: Result<UniqueId, UniqueIdError>)
        ensures
            match r {
                Ok(id) => prefix@.len() > 0 && id_shaped(
                    id@,
                    prefix@,
                    UniqueId::requested_len(length),
                ),
                Err(e) => prefix@.len() == 0 && e matches UniqueIdError::MissingPrefix,
            },
    {
        if prefix.unicode_len() == 0 {
            Err(UniqueIdError::MissingPrefix)
        } else {
            let len: usize = match length {
                Some(l) => l,
                None => 8,
            };
            let ts = now_millis();
            let ts_str = i64_to_string(ts);
            let key = random_alphanumeric_key(len);
            let mut id = prefix.to_owned();
            push_char(&mut id, ':');
            id.append(ts_str.as_str());
            push_char(&mut id, ':');
            id.append(key.as_str());
            proof {
                lemma_dec_signed_segment(ts as int);
                assert(id@ =~= prefix@ + seq![':'] + ts_str@ + seq![':'] + key@);
                assert(is_segment(ts_str@));
                assert(is_alnum_key(key@, UniqueId::requested_len(length)));
            }
            Ok(UniqueId(id))
        }
    }

    /// Returns the requested part of the identifier.  Fails with
    /// `WrongFormat` carrying the part count when the identifier does not
    /// split on colons into exactly three parts.
    pub fn parse(&self, part: UniqueIdParts) -> (r: Result<String, UniqueIdError>)
        ensures
            ({
                let parts = spec_split_colon(self@);
                if parts.len() == 3 {
                    match r {
                        Ok(s) => s@ == match part {
                            UniqueIdParts::Prefix => parts[0],
                            UniqueIdParts::Timestamp => parts[1],
                            UniqueIdParts::Key => parts[2],
                        },
                        Err(_) => false,
                    }
                } else {
                    match r {
                        Ok(_) => false,
                        Err(e) => e matches UniqueIdError::WrongFormat(n) && n == parts.len(),
                    }
                }
            }),
    {
        let parts = split_colon(self.0.as_str());
        if parts.len() == 3 {
            let s = match part {
                UniqueIdParts::Prefix => parts[0].clone(),
                UniqueIdParts::Timestamp => parts[1].clone(),
                UniqueIdParts::Key => parts[2].clone(),
            };
            Ok(s)
        } else {
            Err(UniqueIdError::WrongFormat(parts.len()))
        }
    }
}

/// An identifier built from a colon-free prefix parses back into exactly
/// its three segments, the last being the key of the requested length.
pub proof fn lemma_id_parses(id: Seq<char>, prefix: Seq<char>, keylen: nat)
    requires
        id_shaped(id, prefix, keylen),
        colon_free(prefix),
    ensures
        spec_split_colon(id).len() == 3,
        spec_split_colon(id)[0] == prefix,
        spec_split_colon(id)[2].len() == keylen,
{
    let (ts, key): (Seq<char>, Seq<char>) = choose|ts: Seq<char>, key: Seq<char>|
        {
            &&& id == prefix + seq![':'] + ts + seq![':'] + key
            &&& #[trigger] is_segment(ts)
            &&& #[trigger] is_alnum_key(key, keylen)
        };
    assert(colon_free(key)) by {
        assert(forall|i: int| 0 <= i < key.len() ==> is_ascii_alnum_char(#[trigger] key[i]));
    }
    lemma_split_three_parts(prefix, ts, key);
}

} // verus!
