//! The token service: issuing and verifying signed bearer tokens, and
//! the request guard that turns an `Authorization` header into an
//! authenticated subject.
//!
//! A token is the claim text followed by a separator and the lower-case
//! hexadecimal HMAC-SHA256 signature of that text under the shared
//! secret. The claim text carries the subject behind a marker
//! character; a signed claim text without the marker has no subject.

use vstd::prelude::*;
use vstd::string::StrSliceExecFns;
use vstd::string::StringExecFns;
use crate::codec::{hex_of, hex_string, lemma_hex_injective, lemma_hex_no_dot};
use crate::crypto::{hmac_sha256, hmac_sha256_of};

verus! {

/// Why a presented token was rejected.
#[derive(Clone, Copy, Debug, PartialEq, Eq, Structural)]
pub enum AuthError {
    InvalidSignature,
    MissingSubject,
}

/// An authenticated subject, as yielded by the request guard.
pub struct ApiKey(pub String);

/// The shared signing secret. Hardcoded, as a documented weakness of
/// this service; a production deployment must source it from
/// configuration instead.
pub open spec fn spec_secret() -> Seq<char> {
    "secret"@
}

fn secret() -> (r: &'static str)
    ensures
        r@ == spec_secret(),
{
    "secret"
}

/// The claim text for a subject: the subject marker followed by the
/// subject itself.
pub open spec fn spec_payload(s: Seq<char>) -> Seq<char> {
    seq!['s'] + s
}

/// The signature text for a claim text.
pub open spec fn spec_signature(payload: Seq<char>) -> Seq<char> {
    hex_of(hmac_sha256_of(spec_secret(), payload))
}

/// The token issued for a subject.
pub open spec fn spec_issue(s: Seq<char>) -> Seq<char> {
    spec_payload(s) + seq!['.'] + spec_signature(spec_payload(s))
}

/// The index of the last separator in a token, or -1 when there is none.
pub open spec fn last_dot(t: Seq<char>) -> int
    decreases t.len(),
{
    if t.len() == 0 {
        -1
    } else if t.last() == '.' {
        t.len() - 1
    } else {
        last_dot(t.drop_last())
    }
}

/// What verification returns for a presented token: the subject of a
/// well-signed claim text, or the reason for rejection.
pub open spec fn spec_verify(t: Seq<char>) -> Result<Seq<char>, AuthError> {
    let k = last_dot(t);
    if k < 0 {
        Err(AuthError::InvalidSignature)
    } else {
        let payload = t.subrange(0, k);
        let sig = t.subrange(k + 1, t.len() as int);
        if sig != spec_signature(payload) {
            Err(AuthError::InvalidSignature)
        } else if payload.len() > 0 && payload[0] == 's' {
            Ok(payload.subrange(1, payload.len() as int))
        } else {
            Err(AuthError::MissingSubject)
        }
    }
}

proof fn lemma_last_dot_props(t: Seq<char>)
    ensures
        -1 <= last_dot(t) < t.len(),
        last_dot(t) >= 0 ==> t[last_dot(t)] == '.',
        forall|j: int| last_dot(t) < j < t.len() ==> t[j] != '.',
    decreases t.len(),
{
    if t.len() > 0 && t.last() != '.' {
        lemma_last_dot_props(t.drop_last());
        if last_dot(t) >= 0 {
            assert(t[last_dot(t)] == t.drop_last()[last_dot(t)]);
        }
        assert forall|j: int| last_dot(t) < j < t.len() implies t[j] != '.' by {
            if j < t.len() - 1 {
                assert(t[j] == t.drop_last()[j]);
            }
        }
    }
}

proof fn lemma_last_dot_at(t: Seq<char>, k: int)
    requires
        0 <= k < t.len(),
        t[k] == '.',
        forall|j: int| k < j < t.len() ==> t[j] != '.',
    ensures
        last_dot(t) == k,
    decreases t.len(),
{
    if k < t.len() - 1 {
        assert(t.last() != '.');
        assert(t.drop_last()[k] == '.');
        assert forall|j: int| k < j < t.drop_last().len() implies t.drop_last()[j] != '.' by {
            assert(t.drop_last()[j] == t[j]);
        }
        lemma_last_dot_at(t.drop_last(), k);
    }
}

proof fn lemma_last_dot_none(t: Seq<char>)
    requires
        forall|j: int| 0 <= j < t.len() ==> t[j] != '.',
    ensures
        last_dot(t) == -1,
    decreases t.len(),
{
    if t.len() > 0 {
        lemma_last_dot_none(t.drop_last());
    }
}

fn find_last_dot(s: &str) -> (r: Option<usize>)
    ensures
        match r {
            Some(k) => last_dot(s@) == k as int,
            None => last_dot(s@) == -1,
        },
{
    let n = s.unicode_len();
    let mut i: usize = n;
    while i > 0
        invariant
            i <= n == s@.len(),
            forall|j: int| i <= j < s@.len() ==> s@[j] != '.',
        decreases i,
    {
        i = i - 1;
        if s.get_char(i) == '.' {
            proof {
                lemma_last_dot_at(s@, i as int);
            }
            return Some(i);
        }
    }
    proof {
        lemma_last_dot_none(s@);
    }
    None
}

/// Issues the signed token whose claim set binds the given subject.
pub fn issue(subject: &str) -> (r: String)
    ensures
        r@ == spec_issue(subject@),
{
    proof {
        reveal_strlit("s");
        reveal_strlit(".");
    }
    let mut token = "s".to_owned();
    token.append(subject);
    proof {
        assert(token@ =~= spec_payload(subject@));
    }
    let mac = hmac_sha256(secret(), token.as_str());
    let sig = hex_string(&mac);
    token.append(".");
    token.append(sig.as_str());
    proof {
        assert(token@ =~= spec_issue(subject@));
    }
    token
}

/// Verifies a presented token: recomputes the signature of the claim
/// text, compares it with the embedded one, and extracts the subject.
pub fn verify(token: &str) -> (r: Result<String, AuthError>)
    ensures
        match r {
            Ok(s) => spec_verify(token@) == Ok::<Seq<char>, AuthError>(s@),
            Err(e) => spec_verify(token@) == Err::<Seq<char>, AuthError>(e),
        },
{
    let k = match find_last_dot(token) {
        Some(k) => k,
        None => {
            return Err(AuthError::InvalidSignature);
        },
    };
    let n = token.unicode_len();
    proof {
        lemma_last_dot_props(token@);
    }
    let payload = token.substring_char(0, k);
    let sig = token.substring_char(k + 1, n);
    let mac = hmac_sha256(secret(), payload);
    let expected = hex_string(&mac);
    let presented = sig.to_owned();
    if !(presented == expected) {
        return Err(AuthError::InvalidSignature);
    }
    let payload_len = payload.unicode_len();
    if payload_len >= 1 && payload.get_char(0) == 's' {
        let subject = payload.substring_char(1, payload_len);
        Ok(subject.to_owned())
    } else {
        Err(AuthError::MissingSubject)
    }
}

/// Reads a presented token, yielding its subject or a message saying
/// why it was rejected.
pub fn read_token(key: &str) -> (r: Result<String, String>)
    ensures
        match r {
            Ok(s) => spec_verify(key@) == Ok::<Seq<char>, AuthError>(s@),
            Err(m) => spec_verify(key@) is Err && (spec_verify(key@)
                == Err::<Seq<char>, AuthError>(AuthError::InvalidSignature) ==> m@
                == "invalid signature"@) && (spec_verify(key@) == Err::<Seq<char>, AuthError>(
                AuthError::MissingSubject,
            ) ==> m@ == "No subject"@),
        },
{
    match verify(key) {
        Ok(subject) => Ok(subject),
        Err(AuthError::InvalidSignature) => Err("invalid signature".to_owned()),
        Err(AuthError::MissingSubject) => Err("No subject".to_owned()),
    }
}

/// What the request guard decides for a request.
pub enum GuardOutcome {
    /// Exactly one `Authorization` header held a well-signed token: the
    /// request carries this authenticated subject.
    Success(ApiKey),
    /// The guard is not a match for the request: zero or several
    /// `Authorization` headers were present.
    Forward,
    /// Exactly one header was present but its token was rejected.
    Failure,
}

/// The request-level gate: given the values of the `Authorization`
/// headers of a request, decides whether the request is authenticated.
pub fn authenticate(auth_headers: &Vec<String>) -> (r: GuardOutcome)
    ensures
        auth_headers@.len() != 1 ==> r is Forward,
        auth_headers@.len() == 1 ==> match spec_verify(auth_headers@[0]@) {
            Ok(s) => r matches GuardOutcome::Success(key) && key.0@ == s,
            Err(_) => r is Failure,
        },
{
    if auth_headers.len() != 1 {
        return GuardOutcome::Forward;
    }
    match read_token(auth_headers[0].as_str()) {
        Ok(subject) => GuardOutcome::Success(ApiKey(subject)),
        Err(_) => GuardOutcome::Failure,
    }
}

/// Every issued token verifies back to the subject it was issued for.
pub proof fn lemma_verify_issue(s: Seq<char>)
    ensures
        spec_verify(spec_issue(s)) == Ok::<Seq<char>, AuthError>(s),
{
    let p = spec_payload(s);
    let mac = hmac_sha256_of(spec_secret(), p);
    let sig = hex_of(mac);
    let t = spec_issue(s);
    lemma_hex_no_dot(mac);
    assert(t[p.len() as int] == '.');
    assert forall|j: int| p.len() < j < t.len() implies t[j] != '.' by {
        assert(t[j] == sig[j - p.len() - 1]);
    }
    lemma_last_dot_at(t, p.len() as int);
    assert(t.subrange(0, p.len() as int) =~= p);
    assert(t.subrange(p.len() as int + 1, t.len() as int) =~= sig);
    assert(p[0] == 's');
    assert(p.subrange(1, p.len() as int) =~= s);
}

/// Only issued tokens verify: a token that verification accepts is
/// exactly the token that `issue` produces for the accepted subject.
pub proof fn lemma_verify_sound(t: Seq<char>, s: Seq<char>)
    requires
        spec_verify(t) == Ok::<Seq<char>, AuthError>(s),
    ensures
        t == spec_issue(s),
{
    lemma_last_dot_props(t);
    let k = last_dot(t);
    let payload = t.subrange(0, k);
    let sig = t.subrange(k + 1, t.len() as int);
    assert(sig == spec_signature(payload));
    assert(payload.len() > 0 && payload[0] == 's');
    assert(s == payload.subrange(1, payload.len() as int));
    assert(spec_payload(s) =~= payload);
    assert(t =~= payload + seq!['.'] + sig);
    assert(spec_issue(s) == payload + seq!['.'] + sig);
}

/// Distinct subjects get distinct tokens.
pub proof fn lemma_issue_injective(s1: Seq<char>, s2: Seq<char>)
    requires
        spec_issue(s1) == spec_issue(s2),
    ensures
        s1 == s2,
{
    lemma_verify_issue(s1);
    lemma_verify_issue(s2);
}

/// A text that is not an issued token never verifies.
pub proof fn lemma_unissued_fails(t: Seq<char>)
    requires
        forall|s: Seq<char>| t != spec_issue(s),
    ensures
        spec_verify(t) is Err,
{
    match spec_verify(t) {
        Ok(s) => {
            lemma_verify_sound(t, s);
            assert(t == spec_issue(s));
            assert(false);
        },
        Err(_) => {},
    }
}

/// Replacing any character of a valid token's signature part by a
/// different character that is not the separator makes verification
/// fail with `InvalidSignature`.
pub proof fn lemma_tamper_signature(s: Seq<char>, i: int, c: char)
    requires
        spec_payload(s).len() < i < spec_issue(s).len(),
        c != spec_issue(s)[i],
        c != '.',
    ensures
        spec_verify(spec_issue(s).update(i, c)) == Err::<Seq<char>, AuthError>(
            AuthError::InvalidSignature,
        ),
{
    let p = spec_payload(s);
    let mac = hmac_sha256_of(spec_secret(), p);
    let sig = hex_of(mac);
    let t = spec_issue(s);
    let t2 = t.update(i, c);
    lemma_hex_no_dot(mac);
    assert(t2[p.len() as int] == '.');
    assert forall|j: int| p.len() < j < t2.len() implies t2[j] != '.' by {
        if j != i {
            assert(t2[j] == sig[j - p.len() - 1]);
        }
    }
    lemma_last_dot_at(t2, p.len() as int);
    let payload2 = t2.subrange(0, p.len() as int);
    let sig2 = t2.subrange(p.len() as int + 1, t2.len() as int);
    assert(payload2 =~= p);
    assert(sig2[i - p.len() - 1] == c);
    assert(sig[i - p.len() - 1] == t[i]);
    assert(sig2 != sig);
}

/// Replacing a character of a valid token's claim part makes
/// verification fail with `InvalidSignature`, as long as the altered
/// claim text does not collide with the unaltered one under the keyed
/// digest.
pub proof fn lemma_tamper_payload(s: Seq<char>, i: int, c: char)
    requires
        0 <= i < spec_payload(s).len(),
        hmac_sha256_of(spec_secret(), spec_payload(s).update(i, c)) != hmac_sha256_of(
            spec_secret(),
            spec_payload(s),
        ),
    ensures
        spec_verify(spec_issue(s).update(i, c)) == Err::<Seq<char>, AuthError>(
            AuthError::InvalidSignature,
        ),
{
    let p = spec_payload(s);
    let p2 = p.update(i, c);
    let mac = hmac_sha256_of(spec_secret(), p);
    let mac2 = hmac_sha256_of(spec_secret(), p2);
    let sig = hex_of(mac);
    let t = spec_issue(s);
    let t2 = t.update(i, c);
    lemma_hex_no_dot(mac);
    assert(t2[p.len() as int] == '.');
    assert forall|j: int| p.len() < j < t2.len() implies t2[j] != '.' by {
        assert(t2[j] == sig[j - p.len() - 1]);
    }
    lemma_last_dot_at(t2, p.len() as int);
    let payload2 = t2.subrange(0, p.len() as int);
    let sig2 = t2.subrange(p.len() as int + 1, t2.len() as int);
    assert(payload2 =~= p2);
    assert(sig2 =~= sig);
    if hex_of(mac2) == sig {
        lemma_hex_injective(mac2, mac);
        assert(false);
    }
}

} // verus!
