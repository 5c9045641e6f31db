//! Decisions of the sign-in flow.
//!
//! An identity token names the key that signed it. This module keeps the
//! cache of signing keys, tells when the cache is stale, picks the key a
//! token asks for, and accepts a token's claims only from a trusted issuer.
//! Fetching keys and checking signatures is the caller's business.

use vstd::prelude::*;
use vstd::string::StringExecFns;

verus! {

/// Query of a redirect that follows an accepted sign-in.
#[derive(Debug)]
pub struct AuthSuccess {
    pub code: String,
    pub scope: String,
}

/// Query of a redirect that follows a refused sign-in.
#[derive(Debug)]
pub struct AuthFail {
    pub error: String,
}

/// One RSA signing key of the identity provider.
#[derive(Debug)]
pub struct Certificate {
    /// Key id.
    pub kid: String,
    /// RSA modulus.
    pub n: String,
    /// RSA exponent.
    pub e: String,
}

/// Cache of the identity provider's signing keys.
#[derive(Debug)]
pub struct Certs {
    pub keys: Vec<Certificate>,
    /// Second, counted from the Unix epoch, from which the keys are stale.
    pub expire: u64,
}

/// What an identity token states about its bearer.
#[derive(Debug)]
pub struct Claims {
    /// Issuer.
    pub iss: String,
    /// Audience.
    pub aud: String,
    /// Expiry.
    pub exp: usize,
    pub sub: String,
    pub name: String,
    pub picture: String,
    pub given_name: String,
    pub family_name: String,
}

/// Why an identity token was turned down.
#[derive(Clone, Copy, Debug, PartialEq, Eq, Structural)]
pub enum AuthError {
    /// The token is not a well-formed signed token.
    InvalidToken,
    /// The token names no key, or a key the cache does not hold.
    MissingKey,
    /// The token was issued by somebody else.
    UntrustedIssuer,
}

/// `jsonwebtoken::errors::Error`, why a token could not be read; opaque.
#[verifier::external_type_specification]
#[verifier::external_body]
pub struct ExTokenError(jsonwebtoken::errors::Error);

/// The key id in the header of `token`: `None` when the token has no
/// readable header, `Some(None)` when its header names no key.
pub uninterp spec fn header_key_id(token: Seq<char>) -> Option<Option<Seq<char>>>;

/// View of an optional string.
pub open spec fn text_of(text: Option<String>) -> Option<Seq<char>> {
    match text {
        Some(text) => Some(text@),
        None => None,
    }
}

/// Reads the key id from the header of `id_token` with
/// `jsonwebtoken::decode_header`, which parses the header without checking
/// any signature. The header is a function of the token's text alone; the
/// contract gives that function the name [`header_key_id`].
#[verifier::external_body]
fn decode_key_id(id_token: &str) -> (decoded: Result<Option<String>, jsonwebtoken::errors::Error>)
    ensures
        match decoded {
            Ok(kid) => header_key_id(id_token@) == Some(text_of(kid)),
            Err(_) => header_key_id(id_token@) is None,
        },
{
    jsonwebtoken::decode_header(id_token).map(|header| header.kid)
}

/// The `max-age` directive, in seconds, of the `Cache-Control` header whose
/// lines are `lines`: `None` when the lines are no such header or carry no
/// `max-age`.
pub uninterp spec fn cache_max_age(lines: Seq<Seq<u8>>) -> Option<u64>;

/// Parses the header lines `lines` with `headers::CacheControl::decode`,
/// after turning each into a `HeaderValue` with `HeaderValue::from_bytes`,
/// and reads `CacheControl::max_age` in whole seconds. The answer is a
/// function of the lines alone; the contract gives that function the name
/// [`cache_max_age`].
#[verifier::external_body]
fn decode_max_age(lines: &Vec<Vec<u8>>) -> (max_age: Option<u64>)
    ensures
        max_age == cache_max_age(lines.deep_view()),
{
    let values: Result<Vec<headers::HeaderValue>, _> =
        lines.iter().map(|line| headers::HeaderValue::from_bytes(line)).collect();
    let decoded = <headers::CacheControl as headers::Header>::decode(&mut values.ok()?.iter());
    decoded.ok()?.max_age().map(|age| age.as_secs())
}

/// `keys[index]` carries `kid`, and no earlier key does.
pub open spec fn is_first_match(keys: Seq<Certificate>, kid: Seq<char>, index: int) -> bool {
    &&& 0 <= index < keys.len()
    &&& keys[index].kid@ == kid
    &&& forall|j: int| 0 <= j < index ==> (#[trigger] keys[j]).kid@ != kid
}

/// Some key carries `kid`.
pub open spec fn has_key(keys: Seq<Certificate>, kid: Seq<char>) -> bool {
    exists|i: int| 0 <= i < keys.len() && (#[trigger] keys[i]).kid@ == kid
}

/// The issuers whose tokens are accepted.
pub open spec fn is_trusted_issuer(issuer: Seq<char>) -> bool {
    issuer == "accounts.google.com"@ || issuer == "https://accounts.google.com"@
}

impl Default for Certs {
    /// An empty cache that is stale at any time.
    fn default() -> (certs: Certs)
        ensures
            certs.keys@.len() == 0,
            certs.expire == 0,
    {
        Certs { keys: Vec::new(), expire: 0 }
    }
}

impl Certs {
    /// Whether the cached keys may still be used at second `now`.
    pub fn is_fresh(&self, now: u64) -> (fresh: bool)
        ensures
            fresh == (self.expire > now),
    {
        self.expire > now
    }

    /// Replaces the cached keys by `keys`, fetched at second `now` and good
    /// for `max_age` seconds.
    pub fn refresh(&mut self, keys: Vec<Certificate>, now: u64, max_age: u64)
        requires
            now + max_age <= u64::MAX,
        ensures
            final(self).keys == keys,
            final(self).expire == now + max_age,
    {
        self.keys = keys;
        self.expire = now + max_age;
    }

    /// Replaces the cached keys by `keys`, fetched at second `now` together
    /// with the `Cache-Control` header lines `cache_control`, which say for
    /// how long the keys are good.
    ///
    /// Returns `false`, and leaves the cache as it was, when the lines name
    /// no `max-age` or the expiry would not fit in a `u64`.
    pub fn update(&mut self, keys: Vec<Certificate>, now: u64, cache_control: &Vec<Vec<u8>>) -> (updated:
        bool)
        ensures
            match cache_max_age(cache_control.deep_view()) {
                Some(max_age) if now + max_age <= u64::MAX => {
                    &&& updated
                    &&& final(self).keys == keys
                    &&& final(self).expire == now + max_age
                },
                _ => !updated && *final(self) == *old(self),
            },
    {
        match decode_max_age(cache_control) {
            Some(max_age) => {
                if max_age <= u64::MAX - now {
                    self.refresh(keys, now, max_age);
                    true
                } else {
                    false
                }
            },
            None => false,
        }
    }

    /// The key a token header asks for: the first cached key that carries
    /// `kid`. A header without key id, or with one the cache does not hold,
    /// is answered with `MissingKey`.
    pub fn key_for(&self, kid: &Option<String>) -> (selected: Result<&Certificate, AuthError>)
        ensures
            match *kid {
                Some(wanted) => match selected {
                    Ok(key) => exists|i: int|
                        is_first_match(self.keys@, wanted@, i) && self.keys@[i] == *key,
                    Err(error) => error == AuthError::MissingKey && !has_key(self.keys@, wanted@),
                },
                None => selected == Err::<&Certificate, AuthError>(AuthError::MissingKey),
            },
    {
        match kid {
            Some(wanted) => {
                let mut i: usize = 0;
                while i < self.keys.len()
                    invariant
                        *kid == Some(*wanted),
                        i <= self.keys@.len(),
                        forall|j: int| 0 <= j < i ==> (#[trigger] self.keys@[j]).kid@ != wanted@,
                    decreases self.keys@.len() - i,
                {
                    if self.keys[i].kid == *wanted {
                        assert(is_first_match(self.keys@, wanted@, i as int));
                        return Ok(&self.keys[i]);
                    }
                    i += 1;
                }
                Err(AuthError::MissingKey)
            },
            None => Err(AuthError::MissingKey),
        }
    }

    /// The cached key that `id_token` asks for in its header.
    ///
    /// A token without readable header is answered with `InvalidToken`;
    /// otherwise the answer is that of [`Certs::key_for`] on the header's
    /// key id.
    pub fn select_key(&self, id_token: &str) -> (selected: Result<&Certificate, AuthError>)
        ensures
            match header_key_id(id_token@) {
                None => selected == Err::<&Certificate, AuthError>(AuthError::InvalidToken),
                Some(None) => selected == Err::<&Certificate, AuthError>(AuthError::MissingKey),
                Some(Some(kid)) => match selected {
                    Ok(key) => exists|i: int|
                        is_first_match(self.keys@, kid, i) && self.keys@[i] == *key,
                    Err(error) => error == AuthError::MissingKey && !has_key(self.keys@, kid),
                },
            },
    {
        match decode_key_id(id_token) {
            Ok(kid) => self.key_for(&kid),
            Err(_) => Err(AuthError::InvalidToken),
        }
    }
}

impl Claims {
    /// Whether the claims come from a trusted issuer.
    pub fn has_trusted_issuer(&self) -> (trusted: bool)
        ensures
            trusted == is_trusted_issuer(self.iss@),
    {
        let plain = String::from_str("accounts.google.com");
        let secure = String::from_str("https://accounts.google.com");
        self.iss == plain || self.iss == secure
    }

    /// Hands the claims back when their issuer is trusted.
    pub fn check_issuer(self) -> (checked: Result<Claims, AuthError>)
        ensures
            is_trusted_issuer(self.iss@) ==> checked == Ok::<Claims, AuthError>(self),
            !is_trusted_issuer(self.iss@) ==> checked == Err::<Claims, AuthError>(
                AuthError::UntrustedIssuer,
            ),
    {
        if self.has_trusted_issuer() {
            Ok(self)
        } else {
            Err(AuthError::UntrustedIssuer)
        }
    }
}

} // verus!
