//! The token service: issuance and validation of stateless, signed,
//! time-bounded session tokens.
//!
//! A token carries the subject (a user id) and an absolute expiry. Both the
//! secret and the expiry window are configuration supplied at construction;
//! the current time is supplied by the caller at each operation.

use vstd::prelude::*;
use crate::domain_error::DomainError;

verus! {

/// The payload of a session token: the subject it identifies and the
/// absolute expiry, in seconds since the epoch.
#[derive(Debug, Clone, Copy, PartialEq, Eq, Structural)]
pub struct Claims {
    pub sub: u128,
    pub exp: u64,
}

/// What jsonwebtoken's decoding returns for a token checked against `secret`
/// under HS256 with time-based checks disabled: the subject and expiry claims
/// when that decoding accepts the token, nothing for any token it rejects.
/// The outcome depends on the two arguments alone.
pub uninterp spec fn decoded_claims(token: Seq<char>, secret: Seq<char>) -> Option<(u128, u64)>;

/// What jsonwebtoken's encoding produces for a subject and expiry signed with
/// `secret` under HS256 and the default header: a function of the three
/// arguments alone, so token issuance is deterministic up to its inputs.
pub uninterp spec fn encoded_token(sub: u128, exp: u64, secret: Seq<char>) -> Seq<char>;

/// Relies on jsonwebtoken::encode (HS256, default header): it signs the
/// serialized claims with the secret and, for this subject-and-expiry claims
/// object, cannot fail; jsonwebtoken::decode with the same secret recovers
/// exactly those claims.
#[verifier::external_body]
fn jwt_encode(sub: u128, exp: u64, secret: &str) -> (r: Option<String>)
    ensures
        r is Some,
        r matches Some(t) ==> t@ == encoded_token(sub, exp, secret@) && decoded_claims(t@, secret@)
            == Some((sub, exp)),
{
    let mut claims = serde_json::Map::new();
    let subject = uuid::Uuid::from_u128(sub).to_string();
    claims.insert("sub".to_string(), serde_json::Value::String(subject));
    claims.insert("exp".to_string(), serde_json::Value::from(exp));
    jsonwebtoken::encode(
        &jsonwebtoken::Header::default(),
        &serde_json::Value::Object(claims),
        &jsonwebtoken::EncodingKey::from_secret(secret.as_bytes()),
    )
    .ok()
}

/// Relies on jsonwebtoken::decode (HS256, signature and structure checked,
/// time-based checks disabled): it returns the subject and expiry claims of
/// every token its checks accept, and an error for every token they reject.
/// With the clock out of play the outcome is a function of the token and the
/// secret alone.
#[verifier::external_body]
fn jwt_decode(token: &str, secret: &str) -> (r: Option<(u128, u64)>)
    ensures
        r == decoded_claims(token@, secret@),
{
    let mut validation = jsonwebtoken::Validation::new(jsonwebtoken::Algorithm::HS256);
    validation.validate_exp = false;
    let key = jsonwebtoken::DecodingKey::from_secret(secret.as_bytes());
    let data = jsonwebtoken::decode::<serde_json::Value>(token, &key, &validation).ok()?;
    let sub = data.claims.get("sub").and_then(|v| v.as_str());
    let sub = sub.and_then(|s| uuid::Uuid::parse_str(s).ok());
    let exp = data.claims.get("exp").and_then(|v| v.as_u64());
    match (sub, exp) {
        (Some(s), Some(e)) => Some((s.as_u128(), e)),
        _ => None,
    }
}

/// The outcome of validating a token whose decoding gave `decoded`, at time
/// `now`: the claims when the token decoded and its expiry is in the future,
/// nothing otherwise.
pub open spec fn token_validation(decoded: Option<(u128, u64)>, now: u64) -> Option<Claims> {
    match decoded {
        Some(c) => if c.1 > now {
            Some(Claims { sub: c.0, exp: c.1 })
        } else {
            None
        },
        None => None,
    }
}

/// Issues and validates session tokens over a fixed secret and expiry window.
pub struct TokenService {
    secret: String,
    expiry_hours: u64,
}

impl TokenService {
    /// The signing secret.
    pub closed spec fn secret_view(&self) -> Seq<char> {
        self.secret@
    }

    /// The configured expiry window, in hours.
    pub closed spec fn expiry_window(&self) -> u64 {
        self.expiry_hours
    }

    /// Builds the service over a secret and an expiry window in hours; an
    /// unset window defaults to 24 hours.
    pub fn new(secret: String, expiry_hours: Option<u64>) -> (r: Self)
        ensures
            r.secret_view() == secret@,
            r.expiry_window() == (match expiry_hours {
                Some(h) => h,
                None => 24u64,
            }),
    {
        let hours: u64 = match expiry_hours {
            Some(h) => h,
            None => 24,
        };
        TokenService { secret, expiry_hours: hours }
    }

    /// Builds a token for `subject` expiring `expiry_window` hours after
    /// `now`. Issuance succeeds whenever the expiry fits the clock's range,
    /// and the token is a function of the subject, the expiry and the secret
    /// alone: it decodes, under the same secret, to exactly that subject and
    /// expiry.
    pub fn issue(&self, subject: u128, now: u64) -> (r: Result<String, DomainError>)
        ensures
            now + self.expiry_window() * 3600 <= u64::MAX ==> r is Ok,
            r matches Ok(t) ==> now + self.expiry_window() * 3600 <= u64::MAX && t@
                == encoded_token(
                subject,
                (now + self.expiry_window() * 3600) as u64,
                self.secret_view(),
            ) && decoded_claims(t@, self.secret_view()) == Some(
                (subject, (now + self.expiry_window() * 3600) as u64),
            ),
            r matches Err(e) ==> e matches DomainError::Infra(_),
    {
        let window = match self.expiry_hours.checked_mul(3600) {
            Some(w) => w,
            None => {
                return Err(DomainError::Infra("expiry window out of range".to_owned()));
            },
        };
        let exp = match now.checked_add(window) {
            Some(e) => e,
            None => {
                return Err(DomainError::Infra("expiry out of range".to_owned()));
            },
        };
        match jwt_encode(subject, exp, self.secret.as_str()) {
            Some(t) => Ok(t),
            None => Err(DomainError::Infra("token signing failed".to_owned())),
        }
    }

    /// Checks the token's signature and structure and that its expiry lies
    /// strictly in the future. Every failure collapses to Unauthorized: the
    /// caller cannot tell an expired token from a forged or malformed one.
    pub fn validate(&self, token: &str, now: u64) -> (r: Result<Claims, DomainError>)
        ensures
            r matches Ok(c) ==> token_validation(
                decoded_claims(token@, self.secret_view()),
                now,
            ) == Some(c),
            token_validation(decoded_claims(token@, self.secret_view()), now) matches Some(c)
                ==> r == Ok::<Claims, DomainError>(c),
            r matches Err(e) ==> token_validation(
                decoded_claims(token@, self.secret_view()),
                now,
            ) is None && e matches DomainError::Unauthorized(_),
    {
        match jwt_decode(token, self.secret.as_str()) {
            Some((sub, exp)) => {
                if exp > now {
                    Ok(Claims { sub, exp })
                } else {
                    Err(DomainError::Unauthorized("Invalid token".to_owned()))
                }
            },
            None => Err(DomainError::Unauthorized("Invalid token".to_owned())),
        }
    }
}

/// A token issued for a subject and validated with the same secret strictly
/// before its expiry yields claims with the subject unchanged.
pub proof fn lemma_issue_validate_round_trip(
    token: Seq<char>,
    secret: Seq<char>,
    subject: u128,
    exp: u64,
    now: u64,
)
    requires
        decoded_claims(token, secret) == Some((subject, exp)),
        now < exp,
    ensures
        token_validation(decoded_claims(token, secret), now) == Some(
            Claims { sub: subject, exp: exp },
        ),
{
}

/// A token whose embedded expiry is not strictly in the future is rejected,
/// whatever its signature.
pub proof fn lemma_expired_token_rejected(token: Seq<char>, secret: Seq<char>, now: u64)
    requires
        decoded_claims(token, secret) matches Some(c) && c.1 <= now,
    ensures
        token_validation(decoded_claims(token, secret), now) is None,
{
}


} // verus!
