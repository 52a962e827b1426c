//! The authorization guard: extracts a bearer credential from a
//! header-equivalent field, validates it, and, for operations on one's own
//! user record, enforces that the token's subject matches the target.
//!
//! The guard keeps no state; every call is independent.

use vstd::prelude::*;
use crate::domain_error::DomainError;
use crate::token::{decoded_claims, token_validation, Claims, TokenService};

verus! {

/// Leading spaces, dropped.
pub open spec fn drop_leading_spaces(s: Seq<char>) -> Seq<char>
    decreases s.len(),
{
    if s.len() > 0 && s[0] == ' ' {
        drop_leading_spaces(s.drop_first())
    } else {
        s
    }
}

/// Trailing spaces, dropped.
pub open spec fn drop_trailing_spaces(s: Seq<char>) -> Seq<char>
    decreases s.len(),
{
    if s.len() > 0 && s.last() == ' ' {
        drop_trailing_spaces(s.drop_last())
    } else {
        s
    }
}

/// Spaces on both ends, dropped.
pub open spec fn trimmed_spaces(s: Seq<char>) -> Seq<char> {
    drop_trailing_spaces(drop_leading_spaces(s))
}

/// What the guard reads out of an authorization header value: the part after
/// the bearer prefix, spaces around it ignored; nothing when the prefix is
/// missing.
pub open spec fn bearer_token(header: Seq<char>) -> Option<Seq<char>> {
    if header.len() >= 7 && header.subrange(0, 7) == "Bearer "@ {
        Some(trimmed_spaces(header.subrange(7, header.len() as int)))
    } else {
        None
    }
}

proof fn lemma_drop_leading(s: Seq<char>, i: int)
    requires
        0 <= i <= s.len(),
        forall|k: int| 0 <= k < i ==> s[k] == ' ',
        i == s.len() || s[i] != ' ',
    ensures
        drop_leading_spaces(s) == s.skip(i),
    decreases i,
{
    if i == 0 {
        assert(s.skip(0) =~= s);
    } else {
        lemma_drop_leading(s.drop_first(), i - 1);
        assert(s.drop_first().skip(i - 1) =~= s.skip(i));
    }
}

proof fn lemma_drop_trailing(s: Seq<char>, j: int)
    requires
        0 <= j <= s.len(),
        forall|k: int| j <= k < s.len() ==> s[k] == ' ',
        j == 0 || s[j - 1] != ' ',
    ensures
        drop_trailing_spaces(s) == s.take(j),
    decreases s.len(),
{
    if j == s.len() {
        assert(s.take(j) =~= s);
    } else {
        lemma_drop_trailing(s.drop_last(), j);
        assert(s.drop_last().take(j) =~= s.take(j));
    }
}

/// Pulls the token out of a bearer-style header value: the characters after
/// the `Bearer ` prefix, spaces around them ignored.
#[verifier::loop_isolation(false)]
pub fn extract_bearer(header: &str) -> (r: Option<String>)
    ensures
        r matches Some(t) ==> bearer_token(header@) == Some(t@),
        r is None ==> bearer_token(header@) is None,
{
    proof {
        reveal_strlit("Bearer ");
    }
    let n = header.unicode_len();
    if n < 7 {
        return None;
    }
    let prefix = "Bearer ";
    let mut i: usize = 0;
    while i < 7
        invariant
            0 <= i <= 7,
            n == header@.len(),
            n >= 7,
            forall|k: int| 0 <= k < i ==> header@[k] == ("Bearer "@)[k],
        decreases 7 - i,
    {
        if header.get_char(i) != prefix.get_char(i) {
            proof {
                assert(header@.subrange(0, 7)[i as int] == header@[i as int]);
                assert(header@.subrange(0, 7) != "Bearer "@);
            }
            return None;
        }
        i += 1;
    }
    proof {
        assert(header@.subrange(0, 7) =~= "Bearer "@);
    }
    let mut start: usize = 7;
    while start < n && header.get_char(start) == ' '
        invariant
            7 <= start <= n,
            forall|k: int| 7 <= k < start ==> header@[k] == ' ',
        decreases n - start,
    {
        start += 1;
    }
    let mut end: usize = n;
    while end > start && header.get_char(end - 1) == ' '
        invariant
            start <= end <= n,
            forall|k: int| end <= k < n ==> header@[k] == ' ',
        decreases end,
    {
        end -= 1;
    }
    let token = header.substring_char(start, end);
    proof {
        let sub = header@.subrange(7, n as int);
        assert(forall|k: int| 0 <= k < start - 7 ==> sub[k] == ' ');
        lemma_drop_leading(sub, start as int - 7);
        let mid = header@.subrange(start as int, n as int);
        assert(sub.skip(start as int - 7) =~= mid);
        assert(forall|k: int| end - start <= k < mid.len() ==> mid[k] == ' ');
        lemma_drop_trailing(mid, end as int - start as int);
        assert(mid.take(end as int - start as int) =~= header@.subrange(
            start as int,
            end as int,
        ));
        assert(bearer_token(header@) == Some(token@));
    }
    Some(token.to_owned())
}

/// Validates the credential carried by a header value: the token after the
/// bearer prefix must decode under the service's secret and be unexpired.
/// Every failure, a missing prefix included, collapses to Unauthorized.
pub fn authorize(ts: &TokenService, header: &str, now: u64) -> (r: Result<Claims, DomainError>)
    ensures
        r matches Ok(c) ==> (bearer_token(header@) matches Some(t) && token_validation(
            decoded_claims(t, ts.secret_view()),
            now,
        ) == Some(c)),
        (bearer_token(header@) matches Some(t) && token_validation(
            decoded_claims(t, ts.secret_view()),
            now,
        ) is Some) ==> r is Ok,
        r matches Err(e) ==> e matches DomainError::Unauthorized(_),
{
    match extract_bearer(header) {
        None => Err(DomainError::Unauthorized("Missing bearer token".to_owned())),
        Some(token) => ts.validate(token.as_str(), now),
    }
}

/// Validates the credential and additionally requires that it speaks for
/// `target_user_id`: the rule for operations that act on one's own user
/// record. An identity mismatch is Unauthorized, indistinguishable from a
/// bad token.
pub fn authorize_owner(ts: &TokenService, header: &str, now: u64, target_user_id: u128) -> (r:
    Result<Claims, DomainError>)
    ensures
        r matches Ok(c) ==> c.sub == target_user_id && (bearer_token(header@) matches Some(t)
            && token_validation(decoded_claims(t, ts.secret_view()), now) == Some(c)),
        (bearer_token(header@) matches Some(t) && token_validation(
            decoded_claims(t, ts.secret_view()),
            now,
        ) matches Some(c) && c.sub == target_user_id) ==> r is Ok,
        r matches Err(e) ==> e matches DomainError::Unauthorized(_),
{
    match authorize(ts, header, now) {
        Err(e) => Err(e),
        Ok(claims) => {
            if claims.sub == target_user_id {
                Ok(claims)
            } else {
                Err(DomainError::Unauthorized("Identity mismatch".to_owned()))
            }
        },
    }
}

} // verus!
