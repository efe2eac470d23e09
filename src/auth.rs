use vstd::prelude::*;

use crate::token::{access_outcome, expiry, is_unexpired, TokenError, TokenUser, UserRefreshToken, UserToken};
use crate::users::{token_user_of, user_with_email, User, UserStore};

verus! {

/// A stored refresh token: the signed token string of a user with its issue
/// and expiry times. Timestamps are seconds since the Unix epoch.
#[derive(Debug, Clone, Default, PartialEq, Eq)]
pub struct AuthRefreshToken {
    pub id: i32,
    pub user_id: i32,
    pub token: String,
    pub iat: i64,
    pub exp: i64,
    pub updated_at: Option<i64>,
    pub created_at: Option<i64>,
}

impl AuthRefreshToken {
    /// A field-by-field copy.
    pub fn copy(&self) -> (r: AuthRefreshToken)
        ensures
            r == *self,
    {
        AuthRefreshToken {
            id: self.id,
            user_id: self.user_id,
            token: self.token.clone(),
            iat: self.iat,
            exp: self.exp,
            updated_at: self.updated_at,
            created_at: self.created_at,
        }
    }
}

/// The first stored row whose token string is `token`, if any.
pub open spec fn row_with_token(rows: Seq<AuthRefreshToken>, token: Seq<char>) -> Option<
    AuthRefreshToken,
>
    decreases rows.len(),
{
    if rows.len() == 0 {
        None
    } else if rows[0].token@ == token {
        Some(rows[0])
    } else {
        row_with_token(rows.drop_first(), token)
    }
}

/// The refresh tokens issued and not yet revoked.
pub struct RefreshTokenStore {
    pub rows: Vec<AuthRefreshToken>,
    /// The id the next inserted row receives.
    pub next_id: i32,
}

impl RefreshTokenStore {
    pub fn new() -> (r: RefreshTokenStore)
        ensures
            r.rows@.len() == 0,
            r.next_id == 1,
    {
        RefreshTokenStore { rows: Vec::new(), next_id: 1 }
    }

    /// The stored row whose token string is exactly `q`, if any.
    pub fn find(&self, q: &str) -> (r: Option<AuthRefreshToken>)
        ensures
            r == row_with_token(self.rows@, q@),
    {
        let qs = q.to_owned();
        assert(self.rows@.subrange(0, self.rows@.len() as int) =~= self.rows@);
        let mut i: usize = 0;
        while i < self.rows.len()
            invariant
                i <= self.rows@.len(),
                qs@ == q@,
                row_with_token(self.rows@, q@) == row_with_token(
                    self.rows@.subrange(i as int, self.rows@.len() as int),
                    q@,
                ),
            decreases self.rows@.len() - i,
        {
            let ghost rest = self.rows@.subrange(i as int, self.rows@.len() as int);
            assert(rest.drop_first() =~= self.rows@.subrange(i + 1, self.rows@.len() as int));
            if self.rows[i].token == qs {
                return Some(self.rows[i].copy());
            }
            i = i + 1;
        }
        None
    }

    /// Stores `row` under the next free id, clearing its timestamps, and
    /// returns the stored row.
    pub fn insert(&mut self, row: AuthRefreshToken) -> (r: AuthRefreshToken)
        requires
            old(self).next_id < i32::MAX,
        ensures
            r == (AuthRefreshToken {
                id: old(self).next_id,
                updated_at: None,
                created_at: None,
                ..row
            }),
            final(self).rows@ == old(self).rows@.push(r),
            final(self).next_id == old(self).next_id + 1,
    {
        let stored = AuthRefreshToken { id: self.next_id, updated_at: None, created_at: None, ..row };
        let r = stored.copy();
        self.rows.push(stored);
        self.next_id = self.next_id + 1;
        r
    }

    /// Stores the signed refresh token `token` of `user_id`, issued with
    /// `claims`: exactly one row is appended, with the claims' times.
    pub fn save_refresh_token(&mut self, user_id: i32, token: String, claims: &UserRefreshToken) -> (r:
        AuthRefreshToken)
        requires
            old(self).next_id < i32::MAX,
        ensures
            r == (AuthRefreshToken {
                id: old(self).next_id,
                user_id,
                token,
                iat: claims.iat,
                exp: claims.exp,
                updated_at: None,
                created_at: None,
            }),
            final(self).rows@ == old(self).rows@.push(r),
            final(self).next_id == old(self).next_id + 1,
    {
        self.insert(refresh_token_row(user_id, token, claims))
    }

    /// Keeps the rows `keep` accepts, in order.
    fn retain_rows(&mut self, token: &str, user_id: i32, any_owner: bool)
        ensures
            final(self).next_id == old(self).next_id,
            final(self).rows@ == old(self).rows@.filter(
                |t: AuthRefreshToken| keeps_row(t, token@, user_id, any_owner),
            ),
    {
        let qs = token.to_owned();
        let ghost pred = |t: AuthRefreshToken| keeps_row(t, token@, user_id, any_owner);
        let mut kept: Vec<AuthRefreshToken> = Vec::new();
        let mut k: usize = 0;
        while k < self.rows.len()
            invariant
                k <= self.rows@.len(),
                qs@ == token@,
                pred == (|t: AuthRefreshToken| keeps_row(t, token@, user_id, any_owner)),
                kept@ == self.rows@.subrange(0, k as int).filter(pred),
            decreases self.rows@.len() - k,
        {
            let ghost prefix = self.rows@.subrange(0, k as int);
            assert(self.rows@.subrange(0, k + 1) =~= prefix.push(self.rows@[k as int]));
            assert(prefix.push(self.rows@[k as int]).drop_last() =~= prefix);
            proof {
                reveal(Seq::filter);
            }
            let keep = !(self.rows[k].token == qs && (any_owner || self.rows[k].user_id == user_id));
            assert(keep == pred(self.rows@[k as int]));
            if keep {
                kept.push(self.rows[k].copy());
            }
            k = k + 1;
        }
        assert(self.rows@.subrange(0, k as int) =~= self.rows@);
        self.rows = kept;
    }

    /// Logs out: deletes the row with token string `refresh_token` owned by
    /// `user_id`; a row of another user is left alone.
    pub fn logout(&mut self, refresh_token: &str, user_id: i32)
        ensures
            final(self).next_id == old(self).next_id,
            final(self).rows@ == old(self).rows@.filter(
                |t: AuthRefreshToken| keeps_row(t, refresh_token@, user_id, false),
            ),
    {
        self.retain_rows(refresh_token, user_id, false);
    }

    /// Revokes: deletes every row with token string `refresh_token`, whoever
    /// owns it.
    pub fn revoke_token(&mut self, refresh_token: &str)
        ensures
            final(self).next_id == old(self).next_id,
            final(self).rows@ == old(self).rows@.filter(
                |t: AuthRefreshToken| keeps_row(t, refresh_token@, 0, true),
            ),
    {
        self.retain_rows(refresh_token, 0, true);
    }
}

/// A row that survives deleting token string `token` of `user_id`, or of any
/// owner when `any_owner` holds.
pub open spec fn keeps_row(t: AuthRefreshToken, token: Seq<char>, user_id: i32, any_owner: bool) -> bool {
    !(t.token@ == token && (any_owner || t.user_id == user_id))
}

/// The claims issued at login for `user` at `now`: an access token valid
/// `access_ttl` seconds and a refresh token valid `refresh_ttl` seconds.
pub fn generate_tokens(user: &User, now: i64, access_ttl: u32, refresh_ttl: u32) -> (r: (
    UserToken,
    UserRefreshToken,
))
    requires
        now + access_ttl <= i64::MAX,
        now + refresh_ttl <= i64::MAX,
    ensures
        r.0.iat == now && r.0.exp == expiry(now, access_ttl) && r.0.user == token_user_of(*user),
        r.1.iat == now && r.1.exp == expiry(now, refresh_ttl) && r.1.user_email == user.email,
{
    let access = UserToken::issue(user.to_token_user(), now, access_ttl);
    let refresh = UserRefreshToken::issue(user.email.clone(), now, refresh_ttl);
    (access, refresh)
}

/// Round trip of login: access claims as `generate_tokens` issues them for
/// `user` at `now` verify, at any time up to their expiry, to that user's
/// snapshot.
pub proof fn lemma_generated_access_verifies(user: User, now: i64, access_ttl: u32, claims: UserToken, later: i64)
    requires
        now + access_ttl <= i64::MAX,
        claims.iat == now && claims.exp == expiry(now, access_ttl) && claims.user == token_user_of(user),
        now <= later <= now + access_ttl,
    ensures
        access_outcome(claims, later) == Ok::<TokenUser, TokenError>(token_user_of(user)),
{
}

/// The row that stores a signed refresh token `token` of `user_id` with the
/// times of its claims.
pub fn refresh_token_row(user_id: i32, token: String, claims: &UserRefreshToken) -> (r:
    AuthRefreshToken)
    ensures
        r == (AuthRefreshToken {
            id: 0,
            user_id,
            token,
            iat: claims.iat,
            exp: claims.exp,
            updated_at: None,
            created_at: None,
        }),
{
    AuthRefreshToken {
        id: 0,
        user_id,
        token,
        iat: claims.iat,
        exp: claims.exp,
        updated_at: None,
        created_at: None,
    }
}

/// What exchanging a refresh token gives, from the stored row (if any), the
/// claims read from it (`None` when its signature did not match), the time
/// and the user the claims name.
pub open spec fn rotation_outcome(
    row: Option<AuthRefreshToken>,
    claims: Option<UserRefreshToken>,
    now: i64,
    user: Option<User>,
) -> Result<User, TokenError> {
    match row {
        None => Err(TokenError::TokenRevokedOrUnknown),
        Some(_) => match claims {
            None => Err(TokenError::TokenInvalid),
            Some(c) => if !is_unexpired(c.exp, now) {
                Err(TokenError::TokenExpired)
            } else {
                match user {
                    None => Err(TokenError::UnknownUser),
                    Some(u) => if !u.activated {
                        Err(TokenError::UserDeactivated)
                    } else {
                        Ok(u)
                    },
                }
            },
        },
    }
}

/// Exchanges refresh token `token` for new access-token claims
/// issued at `now`. `claims` is what the token's signature check gave
/// (`None` when it failed). The token must be in the store, its claims
/// unexpired, and the user they name must exist and be activated. The
/// refresh token itself stays valid.
pub fn refresh_token(
    token: &str,
    claims: Option<UserRefreshToken>,
    now: i64,
    access_ttl: u32,
    tokens: &RefreshTokenStore,
    users: &UserStore,
) -> (r: Result<UserToken, TokenError>)
    requires
        now + access_ttl <= i64::MAX,
    ensures
        ({
            let row = row_with_token(tokens.rows@, token@);
            let user = match claims {
                Some(c) => user_with_email(users.users@, c.user_email@),
                None => None,
            };
            match rotation_outcome(row, claims, now, user) {
                Ok(u) => r matches Ok(t) && t.iat == now && t.exp == expiry(now, access_ttl)
                    && t.user == token_user_of(u),
                Err(e) => r == Err::<UserToken, TokenError>(e),
            }
        }),
{
    if tokens.find(token).is_none() {
        return Err(TokenError::TokenRevokedOrUnknown);
    }
    let c = match claims {
        None => return Err(TokenError::TokenInvalid),
        Some(c) => c,
    };
    if c.exp < now {
        return Err(TokenError::TokenExpired);
    }
    let user = match users.find_by_email(c.user_email.as_str()) {
        None => return Err(TokenError::UnknownUser),
        Some(u) => u,
    };
    if !user.activated {
        return Err(TokenError::UserDeactivated);
    }
    Ok(UserToken::issue(user.to_token_user(), now, access_ttl))
}

} // verus!
