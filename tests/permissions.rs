use taskrs::{
    grant_permissions, has_all_permissions, has_one_permission, has_permission, revoke_permissions,
    set_permissions, AuthorizationError, ChangePermissionResult, Permission, PermissionCache,
    PermissionStore, StoreError, TokenUser, UserPermissionsDto,
};

fn perm(id: i32, name: &str) -> Permission {
    Permission {
        id,
        name: name.to_string(),
        group: "g".to_string(),
        description: None,
        updated_at: None,
        created_at: None,
    }
}

fn store() -> PermissionStore {
    let mut s = PermissionStore::new();
    s.user_ids = vec![1, 2];
    s.permissions = vec![perm(10, "x"), perm(11, "y"), perm(12, "z")];
    s
}

fn user(id: i32) -> TokenUser {
    TokenUser { id, email: format!("u{}@example.com", id), ..Default::default() }
}

fn dto(user_id: i32, ids: Vec<i32>) -> UserPermissionsDto {
    UserPermissionsDto { user_id, permission_ids: ids }
}

#[test]
fn grant_then_check_sees_the_new_permission() {
    let mut s = store();
    let mut cache = PermissionCache::new();
    let x = perm(10, "x");
    assert!(has_permission(&user(1), &x, &s, &mut cache).is_err());
    assert_eq!(grant_permissions(dto(1, vec![10]), &mut s, &mut cache), Ok(ChangePermissionResult::Changed));
    assert!(has_permission(&user(1), &x, &s, &mut cache).is_ok());
    assert!(has_permission(&user(2), &x, &s, &mut cache).is_err());
}

#[test]
fn granting_a_held_permission_adds_no_row() {
    let mut s = store();
    let mut cache = PermissionCache::new();
    grant_permissions(dto(1, vec![10, 11]), &mut s, &mut cache).unwrap();
    assert_eq!(s.user_permissions.len(), 2);
    assert_eq!(grant_permissions(dto(1, vec![10]), &mut s, &mut cache), Ok(ChangePermissionResult::Changed));
    assert_eq!(s.user_permissions.len(), 2);
    assert_eq!(grant_permissions(dto(1, vec![12, 12, 10]), &mut s, &mut cache), Ok(ChangePermissionResult::Changed));
    assert_eq!(s.user_permissions.len(), 3);
}

#[test]
fn set_exactly_nothing_removes_every_grant() {
    let mut s = store();
    let mut cache = PermissionCache::new();
    grant_permissions(dto(1, vec![10, 11]), &mut s, &mut cache).unwrap();
    grant_permissions(dto(2, vec![10]), &mut s, &mut cache).unwrap();
    assert!(has_permission(&user(1), &perm(10, "x"), &s, &mut cache).is_ok());
    assert_eq!(set_permissions(dto(1, vec![]), &mut s, &mut cache), Ok(ChangePermissionResult::Changed));
    assert!(s.user_permissions.iter().all(|g| g.user_id != 1));
    assert!(has_permission(&user(1), &perm(10, "x"), &s, &mut cache).is_err());
    assert!(has_permission(&user(1), &perm(11, "y"), &s, &mut cache).is_err());
    assert!(has_permission(&user(2), &perm(10, "x"), &s, &mut cache).is_ok());
}

#[test]
fn set_exactly_replaces_the_grants() {
    let mut s = store();
    let mut cache = PermissionCache::new();
    grant_permissions(dto(1, vec![10, 11]), &mut s, &mut cache).unwrap();
    set_permissions(dto(1, vec![11, 12]), &mut s, &mut cache).unwrap();
    let mut held: Vec<i32> = s.user_permissions.iter().filter(|g| g.user_id == 1).map(|g| g.permission_id).collect();
    held.sort();
    assert_eq!(held, vec![11, 12]);
    assert_eq!(cache.get(1).unwrap(), &vec!["y".to_string(), "z".to_string()]);
}

#[test]
fn revoke_removes_only_the_named_grants() {
    let mut s = store();
    let mut cache = PermissionCache::new();
    grant_permissions(dto(1, vec![10, 11]), &mut s, &mut cache).unwrap();
    assert_eq!(revoke_permissions(dto(1, vec![10]), &mut s, &mut cache), ChangePermissionResult::Changed);
    assert!(has_permission(&user(1), &perm(10, "x"), &s, &mut cache).is_err());
    assert!(has_permission(&user(1), &perm(11, "y"), &s, &mut cache).is_ok());
}

#[test]
fn unknown_user_is_reported() {
    let mut s = store();
    let mut cache = PermissionCache::new();
    assert_eq!(grant_permissions(dto(7, vec![10]), &mut s, &mut cache), Ok(ChangePermissionResult::InvalidUser));
    assert_eq!(set_permissions(dto(7, vec![10]), &mut s, &mut cache), Ok(ChangePermissionResult::InvalidUser));
    assert_eq!(revoke_permissions(dto(7, vec![10]), &mut s, &mut cache), ChangePermissionResult::InvalidUser);
    assert!(s.user_permissions.is_empty());
}

#[test]
fn unknown_permission_fails_the_change() {
    let mut s = store();
    let mut cache = PermissionCache::new();
    assert_eq!(grant_permissions(dto(1, vec![10, 99]), &mut s, &mut cache), Err(StoreError::UnknownPermission(99)));
    assert!(s.user_permissions.is_empty());
    assert_eq!(set_permissions(dto(1, vec![98]), &mut s, &mut cache), Err(StoreError::UnknownPermission(98)));
}

#[test]
fn one_of_and_all_of() {
    let mut s = store();
    let mut cache = PermissionCache::new();
    grant_permissions(dto(1, vec![10]), &mut s, &mut cache).unwrap();
    let needed = vec![perm(11, "y"), perm(10, "x")];
    assert!(has_one_permission(&user(1), &needed, &s, &mut cache).is_ok());
    match has_all_permissions(&user(1), &needed, &s, &mut cache) {
        Err(AuthorizationError::PermissionDenied(req)) => assert_eq!(req, vec!["y".to_string(), "x".to_string()]),
        Ok(()) => panic!("expected a denial"),
    }
    grant_permissions(dto(1, vec![11]), &mut s, &mut cache).unwrap();
    assert!(has_all_permissions(&user(1), &needed, &s, &mut cache).is_ok());
    assert!(has_one_permission(&user(2), &needed, &s, &mut cache).is_err());
}

#[test]
fn denial_names_the_permission() {
    let s = store();
    let mut cache = PermissionCache::new();
    match has_permission(&user(1), &perm(12, "z"), &s, &mut cache) {
        Err(AuthorizationError::PermissionDenied(req)) => assert_eq!(req, vec!["z".to_string()]),
        Ok(()) => panic!("expected a denial"),
    }
    // The miss filled the cache entry with what the store grants: nothing.
    assert_eq!(cache.get(1).unwrap().len(), 0);
}

#[test]
fn catalog_lists_every_checked_permission() {
    let all = taskrs::all_permissions();
    assert_eq!(all.len(), 17);
    assert_eq!(all[0].name, "auth_revoke_refresh_token");
    assert_eq!(all[16].name, "user_update");
    assert_eq!(all[6].description.as_deref(), Some("Allows a user to set a users permissions"));
}

#[test]
fn sync_updates_inserts_and_deletes_by_name() {
    let mut s = store();
    let mut cache = PermissionCache::new();
    grant_permissions(dto(1, vec![10, 12]), &mut s, &mut cache).unwrap();
    let mut canonical_x = perm(0, "x");
    canonical_x.group = "new group".to_string();
    canonical_x.description = Some("d".to_string());
    let canonical = vec![canonical_x, perm(0, "y"), perm(0, "w")];
    taskrs::update_permissions(&canonical, &mut s);
    let names: Vec<(i32, String, String)> = s.permissions.iter().map(|p| (p.id, p.name.clone(), p.group.clone())).collect();
    assert_eq!(
        names,
        vec![
            (10, "x".to_string(), "new group".to_string()),
            (11, "y".to_string(), "g".to_string()),
            (13, "w".to_string(), "g".to_string()),
        ]
    );
    assert_eq!(s.permissions[0].description.as_deref(), Some("d"));
    // The grant of the deleted permission "z" went with it.
    let held: Vec<i32> = s.user_permissions.iter().map(|g| g.permission_id).collect();
    assert_eq!(held, vec![10]);
}

#[test]
fn sync_twice_changes_nothing_more() {
    let mut s = store();
    let mut cache = PermissionCache::new();
    grant_permissions(dto(1, vec![10]), &mut s, &mut cache).unwrap();
    let canonical = vec![perm(0, "x"), perm(0, "w"), perm(0, "w")];
    taskrs::update_permissions(&canonical, &mut s);
    let once = s.permissions.clone();
    let grants = s.user_permissions.clone();
    assert_eq!(once.iter().filter(|p| p.name == "w").count(), 1);
    taskrs::update_permissions(&canonical, &mut s);
    assert_eq!(s.permissions, once);
    assert_eq!(s.user_permissions, grants);
}

#[test]
fn adding_a_user_is_recorded_once() {
    let mut s = store();
    s.add_user(3);
    s.add_user(3);
    assert_eq!(s.user_ids, vec![1, 2, 3]);
}
