use taskrs::{CreateEntityResult, DeleteEntityParams, DeleteEntityResult};
use taskrs::{
    bearer_token, generate_tokens, login, refresh_token, refresh_token_row, verify_access,
    Authentication, Config, RefreshTokenStore, SimpleUser, TokenError, TokenUser, User, UserRefreshToken,
    UserStore, UserToken, DEFAULT_ACCESS_TTL,
};

fn sample_user() -> TokenUser {
    TokenUser { id: 4, email: "a@b.c".to_string(), first_name: Some("Ann".to_string()), activated: true, ..Default::default() }
}

fn stored_user(email: &str, password: &str, activated: bool) -> User {
    let mut u = User { email: email.to_string(), password: password.to_string(), activated, ..Default::default() };
    u.hash_password().unwrap();
    u
}

#[test]
fn issued_claims_verify_to_the_same_user() {
    let t = UserToken::issue(sample_user(), 1000, 3600);
    assert_eq!(t.iat, 1000);
    assert_eq!(t.exp, 4600);
    assert_eq!(verify_access(Some(t.clone()), 1000), Ok(sample_user()));
    assert_eq!(verify_access(Some(t), 4600), Ok(sample_user()));
}

#[test]
fn expired_claims_fail() {
    let t = UserToken::issue(sample_user(), 1000, 3600);
    assert_eq!(verify_access(Some(t), 4601), Err(TokenError::TokenExpired));
    assert_eq!(verify_access(None, 0), Err(TokenError::TokenInvalid));
}

#[test]
fn issued_refresh_token_is_stored_once() {
    let claims = UserRefreshToken::issue("a@x.y".to_string(), 100, 50);
    assert_eq!((claims.iat, claims.exp), (100, 150));
    let mut tokens = RefreshTokenStore::new();
    let row = tokens.save_refresh_token(7, "signed".to_string(), &claims);
    assert_eq!((row.id, row.user_id, row.iat, row.exp), (1, 7, 100, 150));
    assert_eq!(row.token, "signed");
    assert_eq!(tokens.rows.len(), 1);
    assert_eq!(tokens.find("signed").unwrap().user_id, 7);
}

#[test]
fn salted_hash_is_deterministic_and_checks() {
    let mut a = User { password: "pw".to_string(), ..Default::default() };
    let mut b = a.clone();
    a.hash_password_with_salt([7u8; 16]).unwrap();
    b.hash_password_with_salt([7u8; 16]).unwrap();
    assert_eq!(a.password, b.password);
    let mut c = User { password: "pw".to_string(), ..Default::default() };
    c.hash_password_with_salt([8u8; 16]).unwrap();
    assert_ne!(a.password, c.password);
    let mut users = UserStore::new();
    users.insert(User { email: "s@x.y".to_string(), activated: true, ..a });
    let ok = login(&SimpleUser { email: "s@x.y".to_string(), password: "pw".to_string() }, &users).unwrap();
    assert!(ok.is_some());
}

#[test]
fn unreadable_stored_hash_is_an_error() {
    let mut users = UserStore::new();
    users.insert(User { email: "r@x.y".to_string(), password: "not a hash".to_string(), activated: true, ..Default::default() });
    assert!(login(&SimpleUser { email: "r@x.y".to_string(), password: "pw".to_string() }, &users).is_err());
}

#[test]
fn generated_tokens_carry_user_and_lifetimes() {
    let user = User { id: 3, email: "x@y.z".to_string(), activated: true, ..Default::default() };
    let (access, refresh) = generate_tokens(&user, 50, 10, 20);
    assert_eq!(access.exp, 60);
    assert_eq!(access.user.id, 3);
    assert_eq!(refresh.exp, 70);
    assert_eq!(refresh.user_email, "x@y.z");
    let row = refresh_token_row(3, "tok".to_string(), &refresh);
    assert_eq!((row.user_id, row.iat, row.exp), (3, 50, 70));
}

#[test]
fn hashing_replaces_the_password() {
    let u = stored_user("h@x.y", "pw", true);
    assert_ne!(u.password, "pw");
    assert!(u.password.starts_with("$argon2"));
}

#[test]
fn login_checks_activation_and_password() {
    let mut users = UserStore::new();
    users.insert(stored_user("a@x.y", "right", true));
    users.insert(stored_user("b@x.y", "right", false));
    let ok = login(&SimpleUser { email: "a@x.y".to_string(), password: "right".to_string() }, &users).unwrap();
    assert_eq!(ok.unwrap().id, 1);
    assert!(login(&SimpleUser { email: "a@x.y".to_string(), password: "wrong".to_string() }, &users).unwrap().is_none());
    assert!(login(&SimpleUser { email: "b@x.y".to_string(), password: "right".to_string() }, &users).unwrap().is_none());
    assert!(login(&SimpleUser { email: "c@x.y".to_string(), password: "right".to_string() }, &users).unwrap().is_none());
}

#[test]
fn rotation_follows_the_store_and_the_claims() {
    let mut users = UserStore::new();
    users.insert(User { email: "a@x.y".to_string(), activated: true, ..Default::default() });
    users.insert(User { email: "off@x.y".to_string(), activated: false, ..Default::default() });
    let mut tokens = RefreshTokenStore::new();
    let claims = UserRefreshToken { iat: 0, exp: 100, user_email: "a@x.y".to_string() };
    tokens.insert(refresh_token_row(1, "tok".to_string(), &claims));
    let t = refresh_token("tok", Some(claims.clone()), 50, 10, &tokens, &users).unwrap();
    assert_eq!((t.iat, t.exp, t.user.id), (50, 60, 1));
    assert_eq!(refresh_token("other", Some(claims.clone()), 50, 10, &tokens, &users), Err(TokenError::TokenRevokedOrUnknown));
    assert_eq!(refresh_token("tok", None, 50, 10, &tokens, &users), Err(TokenError::TokenInvalid));
    assert_eq!(refresh_token("tok", Some(claims.clone()), 101, 10, &tokens, &users), Err(TokenError::TokenExpired));
    let gone = UserRefreshToken { user_email: "gone@x.y".to_string(), ..claims.clone() };
    assert_eq!(refresh_token("tok", Some(gone), 50, 10, &tokens, &users), Err(TokenError::UnknownUser));
    let off = UserRefreshToken { user_email: "off@x.y".to_string(), ..claims };
    assert_eq!(refresh_token("tok", Some(off), 50, 10, &tokens, &users), Err(TokenError::UserDeactivated));
}

#[test]
fn logout_only_removes_own_token_and_revoke_removes_any() {
    let claims = UserRefreshToken { iat: 0, exp: 100, user_email: "a@x.y".to_string() };
    let mut tokens = RefreshTokenStore::new();
    tokens.insert(refresh_token_row(1, "t1".to_string(), &claims));
    tokens.insert(refresh_token_row(2, "t2".to_string(), &claims));
    tokens.logout("t1", 2);
    assert_eq!(tokens.rows.len(), 2);
    tokens.logout("t1", 1);
    assert!(tokens.find("t1").is_none());
    tokens.revoke_token("t2");
    assert!(tokens.rows.is_empty());
}

#[test]
fn bearer_header_parsing() {
    assert_eq!(bearer_token("Bearer  abc.def "), Some("abc.def".to_string()));
    assert_eq!(bearer_token("bearer xyz"), Some("xyz".to_string()));
    assert_eq!(bearer_token("Basic xyz"), None);
    assert_eq!(bearer_token("Bear"), None);
    assert_eq!(bearer_token("Bearer\u{3000}tok\u{a0}\n"), Some("tok".to_string()));
}

#[test]
fn authentication_guard() {
    let auth = Authentication;
    let t = UserToken::issue(sample_user(), 0, 10);
    assert!(auth.allows(true, &None, 0));
    assert!(auth.allows(false, &Some(t.clone()), 10));
    assert!(!auth.allows(false, &Some(t), 11));
    assert!(!auth.allows(false, &None, 0));
    assert_eq!(auth.new_transform(5u8).service, 5);
}

#[test]
fn default_configuration() {
    let c = Config::new();
    assert_eq!(c.access_token_expiration_time, DEFAULT_ACCESS_TTL);
    assert_eq!(c.access_token_expiration_time, 3600);
    assert_eq!(c.refresh_token_expiration_time, 31536000);
    assert_eq!(c.server.port, 8080);
    assert_eq!(c.database.port, 5432);
    assert_eq!(Config::default(), c);
    assert_ne!(c.access_token_secret, c.refresh_token_secret);
    assert!(taskrs::default_bool());
}

#[test]
fn user_create_delete_update() {
    let mut users = UserStore::new();
    let new_user = User { email: "n@x.y".to_string(), password: "pw".to_string(), activated: true, ..Default::default() };
    let created = match users.create_user(new_user.clone()).unwrap() {
        CreateEntityResult::Created(u) => u,
        CreateEntityResult::Exists => panic!("unexpected"),
    };
    assert_eq!(created.id, 1);
    assert_ne!(created.password, "pw");
    assert!(matches!(users.create_user(new_user).unwrap(), CreateEntityResult::Exists));
    let changed = User { id: 1, email: "m@x.y".to_string(), password: "pw2".to_string(), activated: false, ..Default::default() };
    let updated = users.update_user(changed).unwrap().unwrap();
    assert_eq!(updated.email, "m@x.y");
    assert!(!updated.activated);
    assert_ne!(updated.password, "pw2");
    assert!(users.update_user(User { id: 9, ..Default::default() }).unwrap().is_none());
    assert!(matches!(users.delete_user(DeleteEntityParams { id: 1, cascade: None }), DeleteEntityResult::Deleted));
    assert!(matches!(users.delete_user(DeleteEntityParams { id: 1, cascade: None }), DeleteEntityResult::NotFound));
    assert!(users.users.is_empty());
}
