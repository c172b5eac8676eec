//! Trusted boundary to the cryptographic collaborators: the keyed digest
//! that signs tokens and the one-way password hash.

use vstd::prelude::*;

verus! {

/// The keyed digest of a message under a key, as computed by
/// HMAC-SHA256; a function of the key and message characters alone.
pub uninterp spec fn hmac_sha256_of(key: Seq<char>, msg: Seq<char>) -> Seq<u8>;

/// Relies on `hmac::Hmac<sha2::Sha256>`: a deterministic keyed digest of
/// the message bytes whose output is 32 bytes; keys of any length are
/// accepted, so building the instance cannot fail.
#[verifier::external_body]
pub(crate) fn hmac_sha256(key: &str, msg: &str) -> (r: Vec<u8>)
    ensures
        r@ == hmac_sha256_of(key@, msg@),
        r@.len() == 32,
{
    let mut mac = <hmac::Hmac<sha2::Sha256> as hmac::KeyInit>::new_from_slice(key.as_bytes())
        .expect("HMAC accepts keys of any length");
    hmac::Mac::update(&mut mac, msg.as_bytes());
    hmac::Mac::finalize(mac).into_bytes().to_vec()
}

/// Whether `bcrypt::verify` accepts the password for the stored hash
/// text; a function of the password and hash characters alone.
pub uninterp spec fn bcrypt_matches(password: Seq<char>, hashed: Seq<char>) -> bool;

/// Relies on `bcrypt::hash` with the crate's default cost: it returns a
/// salted hash that `bcrypt::verify` accepts for the same password. The
/// cost is in the documented valid range, so the only failure left is
/// the operating system's random source.
#[verifier::external_body]
pub(crate) fn bcrypt_hash(password: &str) -> (r: String)
    ensures
        bcrypt_matches(password@, r@),
{
    bcrypt::hash(password, bcrypt::DEFAULT_COST).expect("the default cost is valid")
}

/// Relies on `bcrypt::verify`: true exactly when the password matches
/// the hash; a malformed hash text is reported as an error, taken here
/// as no match.
#[verifier::external_body]
pub(crate) fn bcrypt_check(password: &str, hashed: &str) -> (r: bool)
    ensures
        r == bcrypt_matches(password@, hashed@),
{
    bcrypt::verify(password, hashed).unwrap_or(false)
}

} // verus!
