use vstd::prelude::*;

use crate::permissions::Permission;

verus! {

/// A permission as the code defines it, before the store gives it an id.
fn definition(name: &str, group: &str, description: &str) -> (r: Permission)
    ensures
        r.id == 0,
        r.name@ == name@,
        r.group@ == group@,
        r.description matches Some(d) && d@ == description@,
        r.updated_at is None && r.created_at is None,
{
    Permission {
        id: 0,
        name: name.to_owned(),
        group: group.to_owned(),
        description: Some(description.to_owned()),
        updated_at: None,
        created_at: None,
    }
}

/// The names of the permissions the server checks, in catalog order.
pub open spec fn catalog_names() -> Seq<Seq<char>> {
    seq![
            "auth_revoke_refresh_token"@,
            "category_get_all"@,
            "category_create"@,
            "category_delete"@,
            "category_update"@,
            "permission_get_all"@,
            "permission_set"@,
            "permission_grant"@,
            "permission_revoke"@,
            "project_get_all"@,
            "project_create"@,
            "project_delete"@,
            "project_update"@,
            "user_get_all"@,
            "user_create"@,
            "user_delete"@,
            "user_update"@,
    ]
}

/// Every permission the server checks, in catalog order; the list the store
/// is brought in line with at startup.
pub fn all_permissions() -> (r: Vec<Permission>)
    ensures
        r@.map_values(|p: Permission| p.name@) == catalog_names(),
        forall|i: int| 0 <= i < r@.len() ==> (#[trigger] r@[i]).id == 0,
{
    let mut r: Vec<Permission> = Vec::new();
    r.push(definition("auth_revoke_refresh_token", "auth", "Allows a user to revoke refresh tokens of other users"));
    r.push(definition("category_get_all", "category", "Allows a user to get all categories"));
    r.push(definition("category_create", "category", "Allows a user to create new categories"));
    r.push(definition("category_delete", "category", "Allows a user to delete categories"));
    r.push(definition("category_update", "category", "Allows a user to update categories"));
    r.push(definition("permission_get_all", "permission", "Allows a user to get all permissions"));
    r.push(definition("permission_set", "permission", "Allows a user to set a users permissions"));
    r.push(definition("permission_grant", "permission", "Allows a user to grant a user permissions"));
    r.push(definition("permission_revoke", "permission", "Allows a user to revoke a users permissions"));
    r.push(definition("project_get_all", "project", "Allows a user to get all projects"));
    r.push(definition("project_create", "project", "Allows a user to create new projects"));
    r.push(definition("project_delete", "project", "Allows a user to delete projects"));
    r.push(definition("project_update", "project", "Allows a user to update projects"));
    r.push(definition("user_get_all", "user", "Allows a user to get information from other users"));
    r.push(definition("user_create", "user", "Allows a user to create new users"));
    r.push(definition("user_delete", "user", "Allows a user to delete users"));
    r.push(definition("user_update", "user", "Allows a user to update users"));
    assert(r@.map_values(|p: Permission| p.name@) =~= catalog_names());
    r
}

} // verus!
