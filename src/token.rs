use vstd::prelude::*;

use crate::models::copy_opt_string;

verus! {

/// The snapshot of a user that an access token carries. Timestamps are
/// seconds since the Unix epoch.
#[derive(Debug, Clone, Default, PartialEq, Eq)]
pub struct TokenUser {
    pub id: i32,
    pub email: String,
    pub first_name: Option<String>,
    pub last_name: Option<String>,
    pub activated: bool,
    pub updated_at: Option<i64>,
    pub created_at: Option<i64>,
}

impl TokenUser {
    /// A field-by-field copy.
    pub fn copy(&self) -> (r: TokenUser)
        ensures
            r == *self,
    {
        TokenUser {
            id: self.id,
            email: self.email.clone(),
            first_name: copy_opt_string(&self.first_name),
            last_name: copy_opt_string(&self.last_name),
            activated: self.activated,
            updated_at: self.updated_at,
            created_at: self.created_at,
        }
    }
}

/// The claims of an access token: when it was issued, when it expires (both
/// in seconds since the Unix epoch), and the user it speaks for.
#[derive(Debug, Clone, Default, PartialEq, Eq)]
pub struct UserToken {
    pub iat: i64,
    pub exp: i64,
    pub user: TokenUser,
}

/// The claims of a refresh token: issue and expiry times, and the email of
/// the user it renews access for.
#[derive(Debug, Clone, Default, PartialEq, Eq)]
pub struct UserRefreshToken {
    pub iat: i64,
    pub exp: i64,
    pub user_email: String,
}

/// The signed access and refresh tokens handed out at login.
#[derive(Debug, Clone, Default, PartialEq, Eq)]
pub struct UserTokensDto {
    pub access_token: String,
    pub refresh_token: String,
}

/// Why a token was refused.
#[derive(Debug, Clone, Copy, PartialEq, Eq, Structural)]
pub enum TokenError {
    /// The signature did not match or the token could not be read.
    TokenInvalid,
    /// The expiry time has passed.
    TokenExpired,
    /// The refresh token is not in the store: it was revoked or never issued.
    TokenRevokedOrUnknown,
    /// The user the refresh token names no longer exists.
    UnknownUser,
    /// The user the refresh token names is deactivated.
    UserDeactivated,
}

/// Expiry `ttl` seconds after `now`.
pub open spec fn expiry(now: i64, ttl: u32) -> int {
    now + ttl
}

/// A token that expires at `exp` is still valid at `now`: expiry is
/// inclusive of its last second.
pub open spec fn is_unexpired(exp: i64, now: i64) -> bool {
    now <= exp
}

impl UserToken {
    /// Access-token claims for `user`, issued at `now`, valid `ttl` seconds.
    pub fn issue(user: TokenUser, now: i64, ttl: u32) -> (r: UserToken)
        requires
            now + ttl <= i64::MAX,
        ensures
            r.iat == now,
            r.exp == expiry(now, ttl),
            r.user == user,
    {
        UserToken { iat: now, exp: now + ttl as i64, user }
    }

}

impl UserRefreshToken {
    /// Refresh-token claims for the user with email `email`, issued at `now`,
    /// valid `ttl` seconds.
    pub fn issue(email: String, now: i64, ttl: u32) -> (r: UserRefreshToken)
        requires
            now + ttl <= i64::MAX,
        ensures
            r.iat == now,
            r.exp == expiry(now, ttl),
            r.user_email == email,
    {
        UserRefreshToken { iat: now, exp: now + ttl as i64, user_email: email }
    }

}

/// What verifying access-token claims gives at time `now`: the user when the
/// token has not expired.
pub open spec fn access_outcome(claims: UserToken, now: i64) -> Result<TokenUser, TokenError> {
    if is_unexpired(claims.exp, now) {
        Ok(claims.user)
    } else {
        Err(TokenError::TokenExpired)
    }
}

/// Verifies the claims of an access token whose signature has been checked
/// (`None` when it did not match): the token's user while `now` has not
/// passed the expiry, else `TokenExpired`.
pub fn verify_access(claims: Option<UserToken>, now: i64) -> (r: Result<TokenUser, TokenError>)
    ensures
        claims is None ==> r == Err::<TokenUser, TokenError>(TokenError::TokenInvalid),
        claims matches Some(c) ==> r == access_outcome(c, now),
{
    match claims {
        None => Err(TokenError::TokenInvalid),
        Some(c) => {
            if now <= c.exp {
                Ok(c.user)
            } else {
                Err(TokenError::TokenExpired)
            }
        },
    }
}

/// Round trip: claims issued for `user` at `now` with lifetime `ttl` verify,
/// at any time from issue to expiry, to exactly that user.
pub proof fn lemma_issue_then_verify(user: TokenUser, now: i64, ttl: u32, later: i64)
    requires
        now + ttl <= i64::MAX,
        now <= later <= now + ttl,
    ensures
        access_outcome(UserToken { iat: now, exp: (now + ttl) as i64, user }, later) == Ok::<
            TokenUser,
            TokenError,
        >(user),
{
}

/// Expiry: claims whose expiry lies before `now` fail verification whatever
/// else they hold.
pub proof fn lemma_expired_fails(claims: UserToken, now: i64)
    requires
        claims.exp < now,
    ensures
        access_outcome(claims, now) == Err::<TokenUser, TokenError>(TokenError::TokenExpired),
{
}

} // verus!
