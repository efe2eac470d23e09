use rand::RngCore;
use vstd::prelude::*;
use vstd::utf8::encode_utf8;

use crate::models::{copy_opt_string, CreateEntityResult, DeleteEntityParams, DeleteEntityResult};
use crate::token::TokenUser;

verus! {

/// Failure of the password hashing collaborator (bad parameters, or a
/// password it cannot take).
#[derive(Debug, Clone, Copy, PartialEq, Eq, Structural)]
pub struct HashError;

/// Relies on `argon2::Error`: the error argon2's hashing and verification
/// return, carried through opaque and mapped to `HashError`.
#[verifier::external_type_specification]
#[verifier::external_body]
pub struct ExArgon2Error(argon2::Error);

/// The encoded Argon2 hash of `password` with `salt` under argon2's default
/// configuration.
pub uninterp spec fn argon2_hash(password: Seq<char>, salt: Seq<u8>) -> Seq<char>;

/// Whether `password` matches the encoded Argon2 hash `encoded`.
pub uninterp spec fn argon2_verifies(encoded: Seq<char>, password: Seq<char>) -> bool;

/// Whether argon2 can check `password` against `encoded` at all: the
/// encoding parses and its parameters are within argon2's limits.
pub uninterp spec fn argon2_checks(encoded: Seq<char>, password: Seq<char>) -> bool;

/// Longest password, in UTF-8 bytes, that argon2 hashes.
pub const MAX_PASSWORD_BYTES: u64 = 0xFFFF_FFFF;

/// Relies on `argon2::hash_encoded` with `argon2::Config::default()`: the
/// encoded hash depends on the password and the salt alone. With the default
/// parameters and a 16-byte salt, the one check that can fail is the
/// password's length, at most 2^32 - 1 bytes.
#[verifier::external_body]
fn hash_encoded(password: &str, salt: [u8; 16]) -> (r: Result<String, argon2::Error>)
    ensures
        r is Ok <==> encode_utf8(password@).len() <= MAX_PASSWORD_BYTES,
        r matches Ok(h) ==> h@ == argon2_hash(password@, salt@),
{
    argon2::hash_encoded(password.as_bytes(), &salt, &argon2::Config::default())
}

/// Relies on `argon2::verify_encoded`: it fails only when the encoding does
/// not parse or its parameters are out of argon2's limits, and whether the
/// password matches depends on the encoded hash and the password alone.
#[verifier::external_body]
fn verify_encoded(encoded: &str, password: &str) -> (r: Result<bool, argon2::Error>)
    ensures
        r is Ok <==> argon2_checks(encoded@, password@),
        r matches Ok(b) ==> b == argon2_verifies(encoded@, password@),
{
    argon2::verify_encoded(encoded, password.as_bytes())
}

/// Relies on `rand::Error`: the failure of the operating system's random
/// source, carried through opaque and mapped to `HashError`.
#[verifier::external_type_specification]
#[verifier::external_body]
pub struct ExRandError(rand::Error);

/// Relies on `rand::rngs::OsRng` and `RngCore::try_fill_bytes`: sixteen bytes
/// from the operating system's random source, or its error; nothing is
/// promised of the bytes.
#[verifier::external_body]
fn random_salt() -> (r: Result<[u8; 16], rand::Error>) {
    let mut salt = [0u8; 16];
    match rand::rngs::OsRng.try_fill_bytes(&mut salt) {
        Ok(()) => Ok(salt),
        Err(e) => Err(e),
    }
}

/// Users are activated unless stated otherwise.
pub fn default_bool() -> (r: bool)
    ensures
        r,
{
    true
}

/// A user account. `password` holds the encoded hash once stored.
/// Timestamps are seconds since the Unix epoch.
#[derive(Debug, Clone, Default, PartialEq, Eq)]
pub struct User {
    pub id: i32,
    pub email: String,
    pub password: String,
    pub first_name: Option<String>,
    pub last_name: Option<String>,
    pub activated: bool,
    pub updated_at: Option<i64>,
    pub created_at: Option<i64>,
}

/// Credentials given at login.
#[derive(Debug, Clone, Default, PartialEq, Eq)]
pub struct SimpleUser {
    pub email: String,
    pub password: String,
}

impl User {
    /// A field-by-field copy.
    pub fn copy(&self) -> (r: User)
        ensures
            r == *self,
    {
        User {
            id: self.id,
            email: self.email.clone(),
            password: self.password.clone(),
            first_name: copy_opt_string(&self.first_name),
            last_name: copy_opt_string(&self.last_name),
            activated: self.activated,
            updated_at: self.updated_at,
            created_at: self.created_at,
        }
    }

    /// Replaces the password with its Argon2 hash under `salt`. Fails, and
    /// leaves the user as it was, exactly when the password is longer than
    /// argon2 takes.
    pub fn hash_password_with_salt(&mut self, salt: [u8; 16]) -> (r: Result<(), HashError>)
        ensures
            r is Ok <==> encode_utf8(old(self).password@).len() <= MAX_PASSWORD_BYTES,
            r is Ok ==> final(self).password@ == argon2_hash(old(self).password@, salt@),
            r is Ok ==> (*final(self) == (User { password: final(self).password, ..*old(self) })),
            r is Err ==> *final(self) == *old(self),
    {
        match hash_encoded(self.password.as_str(), salt) {
            Ok(h) => {
                self.password = h;
                Ok(())
            },
            Err(_) => Err(HashError),
        }
    }

    /// Replaces the password with its Argon2 hash under a fresh salt from the
    /// operating system. When the random source or the hashing fails, the
    /// error propagates and the user is left as it was.
    pub fn hash_password(&mut self) -> (r: Result<(), HashError>)
        ensures
            r is Ok ==> (exists|salt: Seq<u8>|
                final(self).password@ == argon2_hash(old(self).password@, salt)),
            r is Ok ==> (*final(self) == (User { password: final(self).password, ..*old(self) })),
            r is Err ==> *final(self) == *old(self),
            encode_utf8(old(self).password@).len() > MAX_PASSWORD_BYTES ==> r is Err,
    {
        match random_salt() {
            Ok(salt) => self.hash_password_with_salt(salt),
            Err(_) => Err(HashError),
        }
    }

    /// The snapshot of this user that access tokens carry.
    pub fn to_token_user(&self) -> (r: TokenUser)
        ensures
            r == token_user_of(*self),
    {
        TokenUser {
            id: self.id,
            email: self.email.clone(),
            first_name: copy_opt_string(&self.first_name),
            last_name: copy_opt_string(&self.last_name),
            activated: self.activated,
            updated_at: self.updated_at,
            created_at: self.created_at,
        }
    }
}

/// The fields of `u` that access tokens carry.
pub open spec fn token_user_of(u: User) -> TokenUser {
    TokenUser {
        id: u.id,
        email: u.email,
        first_name: u.first_name,
        last_name: u.last_name,
        activated: u.activated,
        updated_at: u.updated_at,
        created_at: u.created_at,
    }
}

/// The first user with email `email`, if any.
pub open spec fn user_with_email(users: Seq<User>, email: Seq<char>) -> Option<User>
    decreases users.len(),
{
    if users.len() == 0 {
        None
    } else if users[0].email@ == email {
        Some(users[0])
    } else {
        user_with_email(users.drop_first(), email)
    }
}

/// The user table.
pub struct UserStore {
    pub users: Vec<User>,
    /// The id the next inserted user receives.
    pub next_id: i32,
}

impl UserStore {
    pub fn new() -> (r: UserStore)
        ensures
            r.users@.len() == 0,
            r.next_id == 1,
    {
        UserStore { users: Vec::new(), next_id: 1 }
    }

    /// The first user with email `q`, if any.
    pub fn find_by_email(&self, q: &str) -> (r: Option<User>)
        ensures
            r == user_with_email(self.users@, q@),
    {
        let qs = q.to_owned();
        assert(self.users@.subrange(0, self.users@.len() as int) =~= self.users@);
        let mut i: usize = 0;
        while i < self.users.len()
            invariant
                i <= self.users@.len(),
                qs@ == q@,
                user_with_email(self.users@, q@) == user_with_email(
                    self.users@.subrange(i as int, self.users@.len() as int),
                    q@,
                ),
            decreases self.users@.len() - i,
        {
            let ghost rest = self.users@.subrange(i as int, self.users@.len() as int);
            assert(rest.drop_first() =~= self.users@.subrange(i + 1, self.users@.len() as int));
            if self.users[i].email == qs {
                return Some(self.users[i].copy());
            }
            i = i + 1;
        }
        None
    }

    /// Whether some user has the email of `user`.
    pub fn already_exists(&self, user: &User) -> (r: bool)
        ensures
            r == (user_with_email(self.users@, user.email@) is Some),
    {
        self.find_by_email(user.email.as_str()).is_some()
    }

    /// Stores `user` under the next free id, clearing its timestamps, and
    /// returns the stored row.
    pub fn insert(&mut self, user: User) -> (r: User)
        requires
            old(self).next_id < i32::MAX,
        ensures
            r == (User { id: old(self).next_id, updated_at: None, created_at: None, ..user }),
            final(self).users@ == old(self).users@.push(r),
            final(self).next_id == old(self).next_id + 1,
    {
        let row = User { id: self.next_id, updated_at: None, created_at: None, ..user };
        let r = row.copy();
        self.users.push(row);
        self.next_id = self.next_id + 1;
        r
    }
}

/// Some user has id `id`.
pub open spec fn has_user_id(users: Seq<User>, id: i32) -> bool {
    exists|i: int| 0 <= i < users.len() && users[i].id == id
}

impl UserStore {
    /// Creates `user` with its password hashed under `salt`, unless a user
    /// with its email exists. Fails, storing nothing, exactly when the
    /// password is longer than argon2 takes.
    pub fn create_user_with_salt(&mut self, user: User, salt: [u8; 16]) -> (r: Result<
        CreateEntityResult<User>,
        HashError,
    >)
        requires
            old(self).next_id < i32::MAX,
        ensures
            user_with_email(old(self).users@, user.email@) is Some ==> (r matches Ok(
                CreateEntityResult::Exists,
            ) && *final(self) == *old(self)),
            user_with_email(old(self).users@, user.email@) is None ==> (r is Err <==> encode_utf8(
                user.password@,
            ).len() > MAX_PASSWORD_BYTES),
            r is Err ==> *final(self) == *old(self),
            r matches Ok(CreateEntityResult::Created(u)) ==> {
                &&& user_with_email(old(self).users@, user.email@) is None
                &&& u.id == old(self).next_id
                &&& u == (User { id: u.id, password: u.password, updated_at: None, created_at: None, ..user })
                &&& u.password@ == argon2_hash(user.password@, salt@)
                &&& final(self).users@ == old(self).users@.push(u)
                &&& final(self).next_id == old(self).next_id + 1
            },
    {
        if self.already_exists(&user) {
            return Ok(CreateEntityResult::Exists);
        }
        let mut hashed = user;
        match hashed.hash_password_with_salt(salt) {
            Ok(()) => {},
            Err(e) => return Err(e),
        }
        Ok(CreateEntityResult::Created(self.insert(hashed)))
    }

    /// Creates `user` with its password hashed under a fresh salt from the
    /// operating system, unless a user with its email exists. A failure of
    /// the random source or of the hashing stores nothing.
    pub fn create_user(&mut self, user: User) -> (r: Result<CreateEntityResult<User>, HashError>)
        requires
            old(self).next_id < i32::MAX,
        ensures
            user_with_email(old(self).users@, user.email@) is Some ==> (r matches Ok(
                CreateEntityResult::Exists,
            ) && *final(self) == *old(self)),
            r is Err ==> *final(self) == *old(self),
            r matches Ok(CreateEntityResult::Created(u)) ==> {
                &&& user_with_email(old(self).users@, user.email@) is None
                &&& u.id == old(self).next_id
                &&& u == (User { id: u.id, password: u.password, updated_at: None, created_at: None, ..user })
                &&& exists|salt: Seq<u8>| u.password@ == argon2_hash(user.password@, salt)
                &&& final(self).users@ == old(self).users@.push(u)
                &&& final(self).next_id == old(self).next_id + 1
            },
    {
        if self.already_exists(&user) {
            return Ok(CreateEntityResult::Exists);
        }
        match random_salt() {
            Ok(salt) => self.create_user_with_salt(user, salt),
            Err(_) => Err(HashError),
        }
    }

    /// Deletes every user with id `params.id`: `Deleted` when there was one,
    /// `NotFound` otherwise.
    pub fn delete_user(&mut self, params: DeleteEntityParams) -> (r: DeleteEntityResult<User>)
        ensures
            final(self).next_id == old(self).next_id,
            final(self).users@ == old(self).users@.filter(|u: User| u.id != params.id),
            has_user_id(old(self).users@, params.id) ==> r is Deleted,
            !has_user_id(old(self).users@, params.id) ==> r is NotFound,
    {
        let ghost pred = |u: User| u.id != params.id;
        let mut kept: Vec<User> = Vec::new();
        let mut found = false;
        let mut k: usize = 0;
        while k < self.users.len()
            invariant
                k <= self.users@.len(),
                pred == (|u: User| u.id != params.id),
                kept@ == self.users@.subrange(0, k as int).filter(pred),
                found == has_user_id(self.users@.subrange(0, k as int), params.id),
            decreases self.users@.len() - k,
        {
            let ghost prefix = self.users@.subrange(0, k as int);
            let ghost next = self.users@.subrange(0, k + 1);
            assert(next =~= prefix.push(self.users@[k as int]));
            assert(prefix.push(self.users@[k as int]).drop_last() =~= prefix);
            proof {
                reveal(Seq::filter);
                if has_user_id(next, params.id) && !has_user_id(prefix, params.id) {
                    let i = choose|i: int| 0 <= i < next.len() && next[i].id == params.id;
                    assert(i == k);
                }
                if has_user_id(prefix, params.id) {
                    let i = choose|i: int| 0 <= i < prefix.len() && prefix[i].id == params.id;
                    assert(next[i] == prefix[i]);
                }
            }
            if self.users[k].id != params.id {
                kept.push(self.users[k].copy());
            } else {
                found = true;
                assert(next[k as int].id == params.id);
            }
            k = k + 1;
        }
        assert(self.users@.subrange(0, k as int) =~= self.users@);
        self.users = kept;
        if found {
            DeleteEntityResult::Deleted
        } else {
            DeleteEntityResult::NotFound
        }
    }

    /// Gives the first user with the id of `user` its email, password hashed
    /// under `salt`, names and activation, and returns the updated row;
    /// `None` when no user has that id. Fails, changing nothing, exactly when
    /// the password is longer than argon2 takes.
    pub fn update_user_with_salt(&mut self, user: User, salt: [u8; 16]) -> (r: Result<
        Option<User>,
        HashError,
    >)
        ensures
            final(self).next_id == old(self).next_id,
            r is Err <==> encode_utf8(user.password@).len() > MAX_PASSWORD_BYTES,
            r is Err ==> *final(self) == *old(self),
            r matches Ok(None) ==> (!has_user_id(old(self).users@, user.id) && *final(self)
                == *old(self)),
            r matches Ok(Some(u)) ==> (exists|i: int|
                0 <= i < old(self).users@.len() && old(self).users@[i].id == user.id && u == (User {
                    password: u.password,
                    updated_at: old(self).users@[i].updated_at,
                    created_at: old(self).users@[i].created_at,
                    ..user
                }) && final(self).users@ == old(self).users@.update(i, u)),
            r matches Ok(Some(u)) ==> u.password@ == argon2_hash(user.password@, salt@),
            has_user_id(old(self).users@, user.id) ==> (r is Err || r matches Ok(Some(_))),
    {
        let mut hashed = user.copy();
        match hashed.hash_password_with_salt(salt) {
            Ok(()) => {},
            Err(e) => return Err(e),
        }
        let mut i: usize = 0;
        while i < self.users.len()
            invariant
                *self == *old(self),
                hashed == (User { password: hashed.password, ..user }),
                hashed.password@ == argon2_hash(user.password@, salt@),
                encode_utf8(user.password@).len() <= MAX_PASSWORD_BYTES,
                i <= self.users@.len(),
                forall|k: int| 0 <= k < i ==> self.users@[k].id != user.id,
            decreases self.users@.len() - i,
        {
            if self.users[i].id == hashed.id {
                let old_row = self.users[i].copy();
                let row = User {
                    id: hashed.id,
                    email: hashed.email,
                    password: hashed.password,
                    first_name: hashed.first_name,
                    last_name: hashed.last_name,
                    activated: hashed.activated,
                    updated_at: old_row.updated_at,
                    created_at: old_row.created_at,
                };
                let r = row.copy();
                self.users.set(i, row);
                assert(old(self).users@[i as int].id == user.id);
                assert(r == (User {
                    password: r.password,
                    updated_at: old(self).users@[i as int].updated_at,
                    created_at: old(self).users@[i as int].created_at,
                    ..user
                }));
                assert(self.users@ == old(self).users@.update(i as int, r));
                assert(r.password == hashed.password);
                return Ok(Some(r));
            }
            i = i + 1;
        }
        Ok(None)
    }

    /// Gives the first user with the id of `user` its email, password hashed
    /// under a fresh salt from the operating system, names and activation,
    /// and returns the updated row; `None` when no user has that id. A
    /// failure of the random source or of the hashing changes nothing.
    pub fn update_user(&mut self, user: User) -> (r: Result<Option<User>, HashError>)
        ensures
            final(self).next_id == old(self).next_id,
            r is Err ==> *final(self) == *old(self),
            r matches Ok(None) ==> (!has_user_id(old(self).users@, user.id) && *final(self)
                == *old(self)),
            r matches Ok(Some(u)) ==> (exists|i: int|
                0 <= i < old(self).users@.len() && old(self).users@[i].id == user.id && u == (User {
                    password: u.password,
                    updated_at: old(self).users@[i].updated_at,
                    created_at: old(self).users@[i].created_at,
                    ..user
                }) && final(self).users@ == old(self).users@.update(i, u)),
            r matches Ok(Some(u)) ==> (exists|salt: Seq<u8>|
                u.password@ == argon2_hash(user.password@, salt)),
            has_user_id(old(self).users@, user.id) ==> (r is Err || r matches Ok(Some(_))),
            encode_utf8(user.password@).len() > MAX_PASSWORD_BYTES ==> r is Err,
    {
        match random_salt() {
            Ok(salt) => self.update_user_with_salt(user, salt),
            Err(_) => Err(HashError),
        }
    }
}

/// Whether the login of `user` goes through, given whether its password
/// matched: only an activated user with a matching password is let in.
pub fn accept_login(user: User, password_matches: bool) -> (r: Option<User>)
    ensures
        r == (if user.activated && password_matches {
            Some(user)
        } else {
            None
        }),
{
    if user.activated && password_matches {
        Some(user)
    } else {
        None
    }
}

/// Checks credentials: the user with that email when it exists, is
/// activated, and its stored hash matches the password; `None` otherwise,
/// without telling which check failed. Fails only when the stored hash
/// cannot be checked at all.
pub fn login(credentials: &SimpleUser, users: &UserStore) -> (r: Result<Option<User>, HashError>)
    ensures
        ({
            let found = user_with_email(users.users@, credentials.email@);
            &&& found is None ==> r == Ok::<Option<User>, HashError>(None)
            &&& match found {
                None => true,
                Some(u) => if !u.activated {
                    r == Ok::<Option<User>, HashError>(None)
                } else {
                    &&& (r is Ok <==> argon2_checks(u.password@, credentials.password@))
                    &&& r matches Ok(v) ==> v == (if argon2_verifies(
                        u.password@,
                        credentials.password@,
                    ) {
                        Some(u)
                    } else {
                        None
                    })
                },
            }
        }),
{
    let user = match users.find_by_email(credentials.email.as_str()) {
        None => return Ok(None),
        Some(u) => u,
    };
    if !user.activated {
        return Ok(None);
    }
    match verify_encoded(user.password.as_str(), credentials.password.as_str()) {
        Ok(matches) => Ok(accept_login(user, matches)),
        Err(_) => Err(HashError),
    }
}

} // verus!
