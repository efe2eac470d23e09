use vstd::prelude::*;
use std::collections::HashMap;

use crate::models::copy_opt_string;
use crate::token::TokenUser;

verus! {

broadcast use vstd::std_specs::hash::group_hash_axioms;

/// A named capability. Timestamps are seconds since the Unix epoch.
#[derive(Debug, Clone, PartialEq, Eq)]
pub struct Permission {
    pub id: i32,
    pub name: String,
    pub group: String,
    pub description: Option<String>,
    pub updated_at: Option<i64>,
    pub created_at: Option<i64>,
}

impl Permission {
    /// A field-by-field copy.
    pub fn copy(&self) -> (r: Permission)
        ensures
            r == *self,
    {
        Permission {
            id: self.id,
            name: self.name.clone(),
            group: self.group.clone(),
            description: copy_opt_string(&self.description),
            updated_at: self.updated_at,
            created_at: self.created_at,
        }
    }
}

/// A grant of a permission to a user.
#[derive(Debug, Clone, Copy, PartialEq, Eq, Structural)]
pub struct UserPermission {
    pub user_id: i32,
    pub permission_id: i32,
    pub updated_at: Option<i64>,
    pub created_at: Option<i64>,
}

/// A grant about to be stored.
#[derive(Debug, Clone, Copy, PartialEq, Eq, Structural)]
pub struct NewUserPermission {
    pub user_id: i32,
    pub permission_id: i32,
}

/// A user and a list of permission ids to grant, revoke or set.
#[derive(Debug, Clone, Default)]
pub struct UserPermissionsDto {
    pub user_id: i32,
    pub permission_ids: Vec<i32>,
}

/// Outcome of a change to a user's grants.
#[derive(Debug, Clone, Copy, PartialEq, Eq, Structural)]
pub enum ChangePermissionResult {
    Changed,
    /// No user has the target id; nothing was changed.
    InvalidUser,
}

/// A failure of the permission store.
#[derive(Debug, Clone, Copy, PartialEq, Eq, Structural)]
pub enum StoreError {
    /// A grant would name a permission id that no permission has; nothing was
    /// changed.
    UnknownPermission(i32),
}

/// Some permission has id `pid`.
pub open spec fn has_permission_id(perms: Seq<Permission>, pid: i32) -> bool {
    exists|i: int| 0 <= i < perms.len() && perms[i].id == pid
}

/// The name of the permission with id `pid`.
pub open spec fn name_of(perms: Seq<Permission>, pid: i32) -> String {
    perms[choose|i: int| 0 <= i < perms.len() && perms[i].id == pid].name
}

/// The names of the permissions granted to `uid`, in the order of the grants:
/// the join of grants and permissions restricted to that user.
pub open spec fn granted_names(perms: Seq<Permission>, grants: Seq<UserPermission>, uid: i32) -> Seq<
    String,
>
    decreases grants.len(),
{
    if grants.len() == 0 {
        Seq::empty()
    } else {
        let rest = granted_names(perms, grants.drop_last(), uid);
        let g = grants.last();
        if g.user_id == uid && has_permission_id(perms, g.permission_id) {
            rest.push(name_of(perms, g.permission_id))
        } else {
            rest
        }
    }
}

/// `uid` holds a grant of permission `pid`.
pub open spec fn is_granted(grants: Seq<UserPermission>, uid: i32, pid: i32) -> bool {
    exists|k: int| 0 <= k < grants.len() && grants[k].user_id == uid && grants[k].permission_id == pid
}

/// No user holds the same permission twice.
pub open spec fn pairs_unique(grants: Seq<UserPermission>) -> bool {
    forall|a: int, b: int|
        0 <= a < b < grants.len() ==> !(grants[a].user_id == grants[b].user_id
            && grants[a].permission_id == grants[b].permission_id)
}

/// A grant that survives removing from `uid` the permissions `ids`, or all
/// of its permissions when `all` holds.
pub open spec fn keeps(g: UserPermission, uid: i32, ids: Seq<i32>, all: bool) -> bool {
    !(g.user_id == uid && (all || ids.contains(g.permission_id)))
}

/// Rows added after the grants of other users leave their names as they were.
proof fn lemma_names_append_other(
    perms: Seq<Permission>,
    g: Seq<UserPermission>,
    a: Seq<UserPermission>,
    u: i32,
)
    requires
        forall|i: int| 0 <= i < a.len() ==> (#[trigger] a[i]).user_id != u,
    ensures
        granted_names(perms, g + a, u) == granted_names(perms, g, u),
    decreases a.len(),
{
    if a.len() == 0 {
        assert(g + a =~= g);
    } else {
        let b = a.drop_last();
        assert((g + a).drop_last() =~= g + b);
        assert((g + a).last() == a.last());
        assert(a.last() == a[a.len() - 1]);
        lemma_names_append_other(perms, g, b, u);
    }
}

/// Removing only rows of other users leaves the names of `u` as they were.
proof fn lemma_names_filter_other(
    perms: Seq<Permission>,
    g: Seq<UserPermission>,
    pred: spec_fn(UserPermission) -> bool,
    u: i32,
)
    requires
        forall|i: int| 0 <= i < g.len() && (#[trigger] g[i]).user_id == u ==> pred(g[i]),
    ensures
        granted_names(perms, g.filter(pred), u) == granted_names(perms, g, u),
    decreases g.len(),
{
    reveal(Seq::filter);
    if g.len() > 0 {
        let d = g.drop_last();
        assert forall|i: int| 0 <= i < d.len() && (#[trigger] d[i]).user_id == u implies pred(
            d[i],
        ) by {
            assert(d[i] == g[i]);
        }
        lemma_names_filter_other(perms, d, pred, u);
        assert(g.last() == g[g.len() - 1]);
        if pred(g.last()) {
            assert(d.filter(pred).push(g.last()).drop_last() =~= d.filter(pred));
        }
    }
}

/// `new` holds the grants of `old` and a grant to `uid` of each of `ids`.
pub open spec fn is_grant_result(
    old: Seq<UserPermission>,
    new: Seq<UserPermission>,
    uid: i32,
    ids: Seq<i32>,
) -> bool {
    forall|u: i32, p: i32|
        #[trigger] is_granted(new, u, p) <==> (is_granted(old, u, p) || (u == uid && ids.contains(p)))
}

/// `new` holds the grants of `old` to users other than `uid`, and to `uid`
/// exactly a grant of each of `ids`.
pub open spec fn is_set_result(
    old: Seq<UserPermission>,
    new: Seq<UserPermission>,
    uid: i32,
    ids: Seq<i32>,
) -> bool {
    forall|u: i32, p: i32|
        #[trigger] is_granted(new, u, p) <==> ((u != uid && is_granted(old, u, p)) || (u == uid
            && ids.contains(p)))
}

/// Some entry of `names` reads `name`.
pub open spec fn lists_name(names: Seq<String>, name: Seq<char>) -> bool {
    exists|k: int| 0 <= k < names.len() && names[k]@ == name
}

/// Every name of `needed` is listed in `names`.
pub open spec fn lists_all(names: Seq<String>, needed: Seq<Permission>) -> bool {
    forall|k: int| 0 <= k < needed.len() ==> lists_name(names, #[trigger] needed[k].name@)
}

/// Some name of `needed` is listed in `names`.
pub open spec fn lists_one(names: Seq<String>, needed: Seq<Permission>) -> bool {
    exists|k: int| 0 <= k < needed.len() && lists_name(names, #[trigger] needed[k].name@)
}

/// The users, permissions and grants the authorization decisions rest on.
pub struct PermissionStore {
    pub user_ids: Vec<i32>,
    pub permissions: Vec<Permission>,
    pub user_permissions: Vec<UserPermission>,
}

impl PermissionStore {
    /// Permission ids are unique; every grant names an existing user and an
    /// existing permission; no user holds the same permission twice.
    pub open spec fn wf(&self) -> bool {
        &&& forall|i: int, j: int|
            0 <= i < j < self.permissions@.len() ==> self.permissions@[i].id
                != self.permissions@[j].id
        &&& forall|k: int|
            0 <= k < self.user_permissions@.len() ==> {
                &&& self.user_ids@.contains(#[trigger] self.user_permissions@[k].user_id)
                &&& has_permission_id(self.permissions@, self.user_permissions@[k].permission_id)
            }
        &&& pairs_unique(self.user_permissions@)
    }

    /// The names of the permissions granted to `uid`.
    pub open spec fn names_for(&self, uid: i32) -> Seq<String> {
        granted_names(self.permissions@, self.user_permissions@, uid)
    }

    pub fn new() -> (r: PermissionStore)
        ensures
            r.wf(),
            r.user_ids@.len() == 0,
            r.permissions@.len() == 0,
            r.user_permissions@.len() == 0,
    {
        PermissionStore { user_ids: Vec::new(), permissions: Vec::new(), user_permissions: Vec::new() }
    }

    /// Records that a user with id `uid` exists; nothing changes when one is
    /// already recorded.
    pub fn add_user(&mut self, uid: i32)
        requires
            old(self).wf(),
        ensures
            final(self).wf(),
            final(self).permissions == old(self).permissions,
            final(self).user_permissions == old(self).user_permissions,
            final(self).user_ids@.contains(uid),
            old(self).user_ids@.contains(uid) ==> final(self).user_ids == old(self).user_ids,
            !old(self).user_ids@.contains(uid) ==> final(self).user_ids@ == old(self).user_ids@.push(
                uid,
            ),
    {
        if !self.user_exists(uid) {
            let ghost before = self.user_ids@;
            self.user_ids.push(uid);
            assert(self.user_ids@[before.len() as int] == uid);
            assert forall|k: int| 0 <= k < self.user_permissions@.len() implies self.user_ids@.contains(
                #[trigger] self.user_permissions@[k].user_id,
            ) by {
                assert(before.contains(self.user_permissions@[k].user_id));
                let t = choose|t: int| 0 <= t < before.len() && before[t] == self.user_permissions@[k].user_id;
                assert(self.user_ids@[t] == before[t]);
            }
        }
    }

    /// Whether a user has id `uid`.
    pub fn user_exists(&self, uid: i32) -> (r: bool)
        ensures
            r == self.user_ids@.contains(uid),
    {
        let mut i: usize = 0;
        while i < self.user_ids.len()
            invariant
                i <= self.user_ids@.len(),
                forall|k: int| 0 <= k < i ==> self.user_ids@[k] != uid,
            decreases self.user_ids@.len() - i,
        {
            if self.user_ids[i] == uid {
                return true;
            }
            i = i + 1;
        }
        false
    }

    /// Position of the permission with id `pid`, if any.
    fn permission_position(&self, pid: i32) -> (r: Option<usize>)
        ensures
            r matches Some(i) ==> i < self.permissions@.len() && self.permissions@[i as int].id
                == pid,
            r is None ==> !has_permission_id(self.permissions@, pid),
    {
        let mut i: usize = 0;
        while i < self.permissions.len()
            invariant
                i <= self.permissions@.len(),
                forall|k: int| 0 <= k < i ==> self.permissions@[k].id != pid,
            decreases self.permissions@.len() - i,
        {
            if self.permissions[i].id == pid {
                return Some(i);
            }
            i = i + 1;
        }
        None
    }

    /// The names of the permissions granted to `uid`, read from the grants.
    pub fn load_names(&self, uid: i32) -> (r: Vec<String>)
        requires
            self.wf(),
        ensures
            r@ == self.names_for(uid),
    {
        let mut r: Vec<String> = Vec::new();
        let mut k: usize = 0;
        while k < self.user_permissions.len()
            invariant
                self.wf(),
                k <= self.user_permissions@.len(),
                r@ == granted_names(
                    self.permissions@,
                    self.user_permissions@.subrange(0, k as int),
                    uid,
                ),
            decreases self.user_permissions@.len() - k,
        {
            let g = self.user_permissions[k];
            assert(self.user_permissions@.subrange(0, k + 1).drop_last()
                =~= self.user_permissions@.subrange(0, k as int));
            if g.user_id == uid {
                match self.permission_position(g.permission_id) {
                    Some(i) => {
                        proof {
                            let c = choose|c: int|
                                0 <= c < self.permissions@.len() && self.permissions@[c].id
                                    == g.permission_id;
                            assert(c == i as int);
                        }
                        r.push(self.permissions[i].name.clone());
                    },
                    None => {},
                }
            }
            k = k + 1;
        }
        assert(self.user_permissions@.subrange(0, k as int) =~= self.user_permissions@);
        r
    }
}

/// Whether `uid` holds a grant of `pid`.
fn is_held(grants: &Vec<UserPermission>, uid: i32, pid: i32) -> (r: bool)
    ensures
        r == is_granted(grants@, uid, pid),
{
    let mut k: usize = 0;
    while k < grants.len()
        invariant
            k <= grants@.len(),
            forall|j: int|
                0 <= j < k ==> !(grants@[j].user_id == uid && grants@[j].permission_id == pid),
        decreases grants@.len() - k,
    {
        if grants[k].user_id == uid && grants[k].permission_id == pid {
            return true;
        }
        k = k + 1;
    }
    false
}

/// Whether `ids` holds `id`.
fn contains_id(ids: &Vec<i32>, id: i32) -> (r: bool)
    ensures
        r == ids@.contains(id),
{
    let mut k: usize = 0;
    while k < ids.len()
        invariant
            k <= ids@.len(),
            forall|j: int| 0 <= j < k ==> ids@[j] != id,
        decreases ids@.len() - k,
    {
        if ids[k] == id {
            assert(ids@[k as int] == id);
            return true;
        }
        k = k + 1;
    }
    false
}

/// The grants that `keeps` retains, in order.
fn retain_grants(grants: &Vec<UserPermission>, uid: i32, ids: &Vec<i32>, all: bool) -> (r: Vec<
    UserPermission,
>)
    ensures
        r@ == grants@.filter(|g: UserPermission| keeps(g, uid, ids@, all)),
        forall|m: int| 0 <= m < r@.len() ==> grants@.contains(#[trigger] r@[m]),
        pairs_unique(grants@) ==> pairs_unique(r@),
{
    let ghost pred = |g: UserPermission| keeps(g, uid, ids@, all);
    let mut r: Vec<UserPermission> = Vec::new();
    let ghost mut src: Seq<int> = Seq::empty();
    let mut k: usize = 0;
    while k < grants.len()
        invariant
            k <= grants@.len(),
            pred == (|g: UserPermission| keeps(g, uid, ids@, all)),
            r@ == grants@.subrange(0, k as int).filter(pred),
            src.len() == r@.len(),
            forall|m: int|
                0 <= m < r@.len() ==> 0 <= #[trigger] src[m] < k && r@[m] == grants@[src[m]],
            forall|a: int, b: int| 0 <= a < b < r@.len() ==> src[a] < src[b],
        decreases grants@.len() - k,
    {
        let ghost prefix = grants@.subrange(0, k as int);
        assert(grants@.subrange(0, k + 1) =~= prefix.push(grants@[k as int]));
        assert(prefix.push(grants@[k as int]).drop_last() =~= prefix);
        proof {
            reveal(Seq::filter);
        }
        let g = grants[k];
        let keep = !(g.user_id == uid && (all || contains_id(ids, g.permission_id)));
        assert(keep == pred(g));
        if keep {
            r.push(g);
            proof {
                src = src.push(k as int);
            }
        }
        k = k + 1;
    }
    assert(grants@.subrange(0, k as int) =~= grants@);
    assert forall|m: int| 0 <= m < r@.len() implies grants@.contains(#[trigger] r@[m]) by {
        assert(r@[m] == grants@[src[m]]);
    }
    proof {
        if pairs_unique(grants@) {
            assert forall|a: int, b: int| 0 <= a < b < r@.len() implies !(r@[a].user_id
                == r@[b].user_id && r@[a].permission_id == r@[b].permission_id) by {
                assert(src[a] < src[b]);
                assert(r@[a] == grants@[src[a]] && r@[b] == grants@[src[b]]);
            }
        }
    }
    r
}

/// The first id of `ids` that names no permission of `store`, if any.
fn first_unknown_permission(store: &PermissionStore, ids: &Vec<i32>) -> (r: Option<i32>)
    ensures
        r matches Some(p) ==> ids@.contains(p) && !has_permission_id(store.permissions@, p),
        r is None ==> forall|k: int|
            0 <= k < ids@.len() ==> has_permission_id(store.permissions@, #[trigger] ids@[k]),
{
    let mut k: usize = 0;
    while k < ids.len()
        invariant
            k <= ids@.len(),
            forall|j: int| 0 <= j < k ==> has_permission_id(store.permissions@, #[trigger] ids@[j]),
        decreases ids@.len() - k,
    {
        if store.permission_position(ids[k]).is_none() {
            assert(ids@.contains(ids@[k as int]));
            return Some(ids[k]);
        }
        k = k + 1;
    }
    None
}

/// Appends to the store a grant of each id of `ids` that `uid` does not hold
/// yet, in the order of `ids` and once each.
fn add_missing_grants(store: &mut PermissionStore, uid: i32, ids: &Vec<i32>)
    requires
        old(store).wf(),
        old(store).user_ids@.contains(uid),
        forall|k: int|
            0 <= k < ids@.len() ==> has_permission_id(old(store).permissions@, #[trigger] ids@[k]),
    ensures
        final(store).wf(),
        final(store).user_ids == old(store).user_ids,
        final(store).permissions == old(store).permissions,
        final(store).user_permissions@.len() >= old(store).user_permissions@.len(),
        final(store).user_permissions@.subrange(0, old(store).user_permissions@.len() as int)
            == old(store).user_permissions@,
        forall|i: int|
            old(store).user_permissions@.len() <= i < final(store).user_permissions@.len() ==> {
                &&& (#[trigger] final(store).user_permissions@[i]).user_id == uid
                &&& ids@.contains(final(store).user_permissions@[i].permission_id)
            },
        forall|k: int|
            0 <= k < ids@.len() ==> is_granted(
                final(store).user_permissions@,
                uid,
                #[trigger] ids@[k],
            ),
        (forall|k: int|
            0 <= k < ids@.len() ==> is_granted(old(store).user_permissions@, uid, #[trigger] ids@[k]))
            ==> final(store).user_permissions@ == old(store).user_permissions@,
{
    let ghost start = store.user_permissions@;
    let mut k: usize = 0;
    while k < ids.len()
        invariant
            store.wf(),
            store.user_ids == old(store).user_ids,
            store.permissions == old(store).permissions,
            store.user_ids@.contains(uid),
            forall|j: int|
                0 <= j < ids@.len() ==> has_permission_id(store.permissions@, #[trigger] ids@[j]),
            k <= ids@.len(),
            start == old(store).user_permissions@,
            store.user_permissions@.len() >= start.len(),
            store.user_permissions@.subrange(0, start.len() as int) == start,
            forall|i: int|
                start.len() <= i < store.user_permissions@.len() ==> {
                    &&& (#[trigger] store.user_permissions@[i]).user_id == uid
                    &&& ids@.contains(store.user_permissions@[i].permission_id)
                },
            forall|j: int|
                0 <= j < k ==> is_granted(store.user_permissions@, uid, #[trigger] ids@[j]),
            (forall|j: int| 0 <= j < ids@.len() ==> is_granted(start, uid, #[trigger] ids@[j]))
                ==> store.user_permissions@ == start,
        decreases ids@.len() - k,
    {
        let pid = ids[k];
        if !is_held(&store.user_permissions, uid, pid) {
            let ghost before = store.user_permissions@;
            proof {
                if forall|j: int| 0 <= j < ids@.len() ==> is_granted(start, uid, #[trigger] ids@[j]) {
                    assert(is_granted(start, uid, ids@[k as int]));
                    assert(false);
                }
            }
            store.user_permissions.push(
                UserPermission { user_id: uid, permission_id: pid, updated_at: None, created_at: None },
            );
            let ghost after = store.user_permissions@;
            assert(after.subrange(0, start.len() as int) =~= start) by {
                assert forall|i: int| 0 <= i < start.len() implies after[i] == start[i] by {
                    assert(before.subrange(0, start.len() as int)[i] == start[i]);
                }
            }
            assert forall|i: int|
                start.len() <= i < after.len() implies {
                    &&& (#[trigger] after[i]).user_id == uid
                    &&& ids@.contains(after[i].permission_id)
                } by {
                if i < before.len() {
                    assert(after[i] == before[i]);
                } else {
                    assert(ids@[k as int] == pid);
                }
            }
            assert forall|j: int| 0 <= j <= k implies is_granted(after, uid, #[trigger] ids@[j]) by {
                if j < k {
                    let t = choose|t: int|
                        0 <= t < before.len() && before[t].user_id == uid && before[t].permission_id
                            == ids@[j];
                    assert(after[t] == before[t]);
                } else {
                    assert(after[after.len() - 1].permission_id == ids@[j]);
                }
            }
            assert forall|a: int, b: int| 0 <= a < b < after.len() implies !(after[a].user_id
                == after[b].user_id && after[a].permission_id == after[b].permission_id) by {
                if b < before.len() {
                    assert(after[a] == before[a] && after[b] == before[b]);
                } else {
                    assert(after[a] == before[a]);
                }
            }
            assert forall|i: int| 0 <= i < after.len() implies {
                &&& store.user_ids@.contains(#[trigger] after[i].user_id)
                &&& has_permission_id(store.permissions@, after[i].permission_id)
            } by {
                if i < before.len() {
                    assert(after[i] == before[i]);
                } else {
                    assert(has_permission_id(store.permissions@, ids@[k as int]));
                }
            }
        }
        k = k + 1;
    }
}

/// Grants `dto.user_id` every permission of `dto.permission_ids` it does not
/// hold yet, then reloads that user's cache entry. Granting what is already
/// held changes nothing. `InvalidUser` when no user has that id; an id that
/// names no permission fails the whole change.
pub fn grant_permissions(
    dto: UserPermissionsDto,
    store: &mut PermissionStore,
    cache: &mut PermissionCache,
) -> (r: Result<ChangePermissionResult, StoreError>)
    requires
        old(store).wf(),
    ensures
        final(store).wf(),
        final(store).user_ids == old(store).user_ids,
        final(store).permissions == old(store).permissions,
        !old(store).user_ids@.contains(dto.user_id) ==> r == Ok::<
            ChangePermissionResult,
            StoreError,
        >(ChangePermissionResult::InvalidUser) && *final(store) == *old(store) && final(cache)@
            == old(cache)@,
        r matches Err(StoreError::UnknownPermission(p)) ==> dto.permission_ids@.contains(p)
            && !has_permission_id(old(store).permissions@, p) && *final(store) == *old(store)
            && final(cache)@ == old(cache)@,
        old(store).user_ids@.contains(dto.user_id) && (forall|k: int|
            0 <= k < dto.permission_ids@.len() ==> has_permission_id(
                old(store).permissions@,
                #[trigger] dto.permission_ids@[k],
            )) ==> r == Ok::<ChangePermissionResult, StoreError>(ChangePermissionResult::Changed),
        r == Ok::<ChangePermissionResult, StoreError>(ChangePermissionResult::Changed) ==> {
            &&& is_grant_result(
                old(store).user_permissions@,
                final(store).user_permissions@,
                dto.user_id,
                dto.permission_ids@,
            )
            &&& (forall|k: int|
                0 <= k < dto.permission_ids@.len() ==> is_granted(
                    old(store).user_permissions@,
                    dto.user_id,
                    #[trigger] dto.permission_ids@[k],
                )) ==> final(store).user_permissions@ == old(store).user_permissions@
            &&& final(cache)@ == old(cache)@.insert(dto.user_id, final(store).names_for(dto.user_id))
        },
        is_coherent(old(cache)@, *old(store)) ==> is_coherent(final(cache)@, *final(store)),
{
    let uid = dto.user_id;
    if !store.user_exists(uid) {
        return Ok(ChangePermissionResult::InvalidUser);
    }
    match first_unknown_permission(store, &dto.permission_ids) {
        Some(p) => return Err(StoreError::UnknownPermission(p)),
        None => {},
    }
    let ghost old_store = *store;
    let ghost old_grants = store.user_permissions@;
    add_missing_grants(store, uid, &dto.permission_ids);
    let ghost new_grants = store.user_permissions@;
    proof {
        let added = new_grants.subrange(old_grants.len() as int, new_grants.len() as int);
        assert(new_grants =~= old_grants + added);
        assert forall|u: i32, p: i32|
            #[trigger] is_granted(new_grants, u, p) <==> (is_granted(old_grants, u, p) || (u == uid
                && dto.permission_ids@.contains(p))) by {
            if is_granted(new_grants, u, p) {
                let t = choose|t: int|
                    0 <= t < new_grants.len() && new_grants[t].user_id == u
                        && new_grants[t].permission_id == p;
                if t < old_grants.len() {
                    assert(new_grants.subrange(0, old_grants.len() as int)[t] == new_grants[t]);
                }
            }
            if is_granted(old_grants, u, p) {
                let t = choose|t: int|
                    0 <= t < old_grants.len() && old_grants[t].user_id == u
                        && old_grants[t].permission_id == p;
                assert(new_grants.subrange(0, old_grants.len() as int)[t] == new_grants[t]);
            }
            if u == uid && dto.permission_ids@.contains(p) {
                let j = choose|j: int|
                    0 <= j < dto.permission_ids@.len() && dto.permission_ids@[j] == p;
                assert(is_granted(new_grants, uid, dto.permission_ids@[j]));
            }
        }
        assert forall|u: i32| u != uid implies #[trigger] granted_names(
            old_store.permissions@,
            new_grants,
            u,
        ) == granted_names(old_store.permissions@, old_grants, u) by {
            assert forall|i: int| 0 <= i < added.len() implies (#[trigger] added[i]).user_id
                != u by {
                assert(added[i] == new_grants[old_grants.len() + i]);
            }
            lemma_names_append_other(old_store.permissions@, old_grants, added, u);
        }
    }
    let ghost mid_cache = cache@;
    update_permission_cache_for_user(uid, store, cache);
    proof {
        if is_coherent(old(cache)@, old_store) {
            assert forall|u: i32| #[trigger] cache@.contains_key(u) implies cache@[u]
                == store.names_for(u) by {
                if u != uid {
                    assert(granted_names(old_store.permissions@, new_grants, u) == granted_names(
                        old_store.permissions@,
                        old_grants,
                        u,
                    ));
                }
            }
        }
    }
    Ok(ChangePermissionResult::Changed)
}

/// Replaces the grants of the store with those `keeps` retains; the store
/// stays well formed and the names of users other than `uid` stay as they
/// were.
fn remove_grants(store: &mut PermissionStore, uid: i32, ids: &Vec<i32>, all: bool)
    requires
        old(store).wf(),
    ensures
        final(store).wf(),
        final(store).user_ids == old(store).user_ids,
        final(store).permissions == old(store).permissions,
        final(store).user_permissions@ == old(store).user_permissions@.filter(
            |g: UserPermission| keeps(g, uid, ids@, all),
        ),
        forall|u: i32| u != uid ==> #[trigger] final(store).names_for(u) == old(store).names_for(u),
{
    let kept = retain_grants(&store.user_permissions, uid, ids, all);
    let ghost before = store.user_permissions@;
    proof {
        let pred = |g: UserPermission| keeps(g, uid, ids@, all);
        assert forall|u: i32| u != uid implies #[trigger] granted_names(
            store.permissions@,
            kept@,
            u,
        ) == granted_names(store.permissions@, before, u) by {
            assert forall|i: int| 0 <= i < before.len() && (#[trigger] before[i]).user_id == u implies pred(
                before[i],
            ) by {}
            lemma_names_filter_other(store.permissions@, before, pred, u);
        }
        assert forall|i: int| 0 <= i < kept@.len() implies {
            &&& store.user_ids@.contains(#[trigger] kept@[i].user_id)
            &&& has_permission_id(store.permissions@, kept@[i].permission_id)
        } by {
            assert(before.contains(kept@[i]));
        }
    }
    store.user_permissions = kept;
}

/// Takes from `dto.user_id` every permission of `dto.permission_ids`, then
/// reloads that user's cache entry. `InvalidUser` when no user has that id.
pub fn revoke_permissions(
    dto: UserPermissionsDto,
    store: &mut PermissionStore,
    cache: &mut PermissionCache,
) -> (r: ChangePermissionResult)
    requires
        old(store).wf(),
    ensures
        final(store).wf(),
        final(store).user_ids == old(store).user_ids,
        final(store).permissions == old(store).permissions,
        !old(store).user_ids@.contains(dto.user_id) ==> r == ChangePermissionResult::InvalidUser
            && *final(store) == *old(store) && final(cache)@ == old(cache)@,
        old(store).user_ids@.contains(dto.user_id) ==> {
            &&& r == ChangePermissionResult::Changed
            &&& final(store).user_permissions@ == old(store).user_permissions@.filter(
                |g: UserPermission| keeps(g, dto.user_id, dto.permission_ids@, false),
            )
            &&& final(cache)@ == old(cache)@.insert(dto.user_id, final(store).names_for(dto.user_id))
        },
        is_coherent(old(cache)@, *old(store)) ==> is_coherent(final(cache)@, *final(store)),
{
    let uid = dto.user_id;
    if !store.user_exists(uid) {
        return ChangePermissionResult::InvalidUser;
    }
    let ghost old_store = *store;
    remove_grants(store, uid, &dto.permission_ids, false);
    update_permission_cache_for_user(uid, store, cache);
    proof {
        if is_coherent(old(cache)@, old_store) {
            assert forall|u: i32| #[trigger] cache@.contains_key(u) implies cache@[u]
                == store.names_for(u) by {
                if u != uid {
                    assert(store.names_for(u) == old_store.names_for(u));
                }
            }
        }
    }
    ChangePermissionResult::Changed
}

/// Makes `dto.permission_ids` exactly the permissions of `dto.user_id`: all
/// of its grants are removed and one grant per listed id is stored anew;
/// then that user's cache entry is reloaded. `InvalidUser` when no user has
/// that id; an id that names no permission fails the whole change.
pub fn set_permissions(
    dto: UserPermissionsDto,
    store: &mut PermissionStore,
    cache: &mut PermissionCache,
) -> (r: Result<ChangePermissionResult, StoreError>)
    requires
        old(store).wf(),
    ensures
        final(store).wf(),
        final(store).user_ids == old(store).user_ids,
        final(store).permissions == old(store).permissions,
        !old(store).user_ids@.contains(dto.user_id) ==> r == Ok::<
            ChangePermissionResult,
            StoreError,
        >(ChangePermissionResult::InvalidUser) && *final(store) == *old(store) && final(cache)@
            == old(cache)@,
        r matches Err(StoreError::UnknownPermission(p)) ==> dto.permission_ids@.contains(p)
            && !has_permission_id(old(store).permissions@, p) && *final(store) == *old(store)
            && final(cache)@ == old(cache)@,
        old(store).user_ids@.contains(dto.user_id) && (forall|k: int|
            0 <= k < dto.permission_ids@.len() ==> has_permission_id(
                old(store).permissions@,
                #[trigger] dto.permission_ids@[k],
            )) ==> r == Ok::<ChangePermissionResult, StoreError>(ChangePermissionResult::Changed),
        r == Ok::<ChangePermissionResult, StoreError>(ChangePermissionResult::Changed) ==> {
            &&& is_set_result(
                old(store).user_permissions@,
                final(store).user_permissions@,
                dto.user_id,
                dto.permission_ids@,
            )
            &&& final(cache)@ == old(cache)@.insert(dto.user_id, final(store).names_for(dto.user_id))
        },
        is_coherent(old(cache)@, *old(store)) ==> is_coherent(final(cache)@, *final(store)),
{
    let uid = dto.user_id;
    if !store.user_exists(uid) {
        return Ok(ChangePermissionResult::InvalidUser);
    }
    match first_unknown_permission(store, &dto.permission_ids) {
        Some(p) => return Err(StoreError::UnknownPermission(p)),
        None => {},
    }
    let ghost old_store = *store;
    let ghost old_grants = store.user_permissions@;
    remove_grants(store, uid, &dto.permission_ids, true);
    let ghost mid_store = *store;
    let ghost mid_grants = store.user_permissions@;
    add_missing_grants(store, uid, &dto.permission_ids);
    let ghost new_grants = store.user_permissions@;
    proof {
        let pred = |g: UserPermission| keeps(g, uid, dto.permission_ids@, true);
        let added = new_grants.subrange(mid_grants.len() as int, new_grants.len() as int);
        assert(new_grants =~= mid_grants + added);
        assert forall|u: i32, p: i32|
            #[trigger] is_granted(new_grants, u, p) <==> ((u != uid && is_granted(old_grants, u, p))
                || (u == uid && dto.permission_ids@.contains(p))) by {
            if is_granted(new_grants, u, p) {
                let t = choose|t: int|
                    0 <= t < new_grants.len() && new_grants[t].user_id == u
                        && new_grants[t].permission_id == p;
                if t < mid_grants.len() {
                    assert(new_grants.subrange(0, mid_grants.len() as int)[t] == new_grants[t]);
                    assert(mid_grants.contains(mid_grants[t]));
                    old_grants.lemma_filter_contains_rev(pred, mid_grants[t]);
                    old_grants.lemma_filter_pred(pred, t);
                    assert(pred(mid_grants[t]));
                    let q = choose|q: int| 0 <= q < old_grants.len() && old_grants[q] == mid_grants[t];
                    assert(is_granted(old_grants, u, p));
                }
            }
            if u != uid && is_granted(old_grants, u, p) {
                let t = choose|t: int|
                    0 <= t < old_grants.len() && old_grants[t].user_id == u
                        && old_grants[t].permission_id == p;
                assert(pred(old_grants[t]));
                old_grants.lemma_filter_contains(pred, t);
                let q = choose|q: int| 0 <= q < mid_grants.len() && mid_grants[q] == old_grants[t];
                assert(new_grants.subrange(0, mid_grants.len() as int)[q] == new_grants[q]);
            }
            if u == uid && dto.permission_ids@.contains(p) {
                let j = choose|j: int|
                    0 <= j < dto.permission_ids@.len() && dto.permission_ids@[j] == p;
                assert(is_granted(new_grants, uid, dto.permission_ids@[j]));
            }
        }
        assert forall|u: i32| u != uid implies #[trigger] granted_names(
            old_store.permissions@,
            new_grants,
            u,
        ) == granted_names(old_store.permissions@, old_grants, u) by {
            assert forall|i: int| 0 <= i < added.len() implies (#[trigger] added[i]).user_id
                != u by {
                assert(added[i] == new_grants[mid_grants.len() + i]);
            }
            lemma_names_append_other(old_store.permissions@, mid_grants, added, u);
            assert(mid_store.names_for(u) == old_store.names_for(u));
        }
    }
    update_permission_cache_for_user(uid, store, cache);
    proof {
        if is_coherent(old(cache)@, old_store) {
            assert forall|u: i32| #[trigger] cache@.contains_key(u) implies cache@[u]
                == store.names_for(u) by {
                if u != uid {
                    assert(granted_names(old_store.permissions@, new_grants, u) == granted_names(
                        old_store.permissions@,
                        old_grants,
                        u,
                    ));
                }
            }
        }
    }
    Ok(ChangePermissionResult::Changed)
}

/// The first permission of the canonical list `all` named `name`, if any.
pub open spec fn canonical_for(all: Seq<Permission>, name: Seq<char>) -> Option<Permission>
    decreases all.len(),
{
    if all.len() == 0 {
        None
    } else if all[0].name@ == name {
        Some(all[0])
    } else {
        canonical_for(all.drop_first(), name)
    }
}

/// `canonical_for` finds a permission exactly when one of the list has the
/// name, and what it finds has that name and is on the list.
proof fn lemma_canonical_for(all: Seq<Permission>, name: Seq<char>)
    ensures
        canonical_for(all, name) is Some <==> exists|k: int| 0 <= k < all.len() && all[k].name@ == name,
        canonical_for(all, name) matches Some(c) ==> c.name@ == name && all.contains(c),
    decreases all.len(),
{
    if all.len() > 0 {
        lemma_canonical_for(all.drop_first(), name);
        if all[0].name@ != name {
            if exists|k: int| 0 <= k < all.len() && all[k].name@ == name {
                let k = choose|k: int| 0 <= k < all.len() && all[k].name@ == name;
                assert(all.drop_first()[k - 1] == all[k]);
            }
            if canonical_for(all, name) is Some {
                let c = canonical_for(all, name)->0;
                let k = choose|k: int| 0 <= k < all.len() - 1 && all.drop_first()[k] == c;
                assert(all[k + 1] == c);
            }
        } else {
            assert(all[0] == all[0]);
            assert(all.contains(all[0]));
        }
    }
}

/// Position in `all` of the permission `canonical_for` finds for `name`.
fn find_canonical(all: &Vec<Permission>, name: &String) -> (r: Option<usize>)
    ensures
        r is None ==> canonical_for(all@, name@) is None,
        r matches Some(i) ==> i < all@.len() && canonical_for(all@, name@) == Some(all@[i as int]),
{
    assert(all@.subrange(0, all@.len() as int) =~= all@);
    let mut i: usize = 0;
    while i < all.len()
        invariant
            i <= all@.len(),
            canonical_for(all@, name@) == canonical_for(all@.subrange(i as int, all@.len() as int), name@),
        decreases all@.len() - i,
    {
        let ghost rest = all@.subrange(i as int, all@.len() as int);
        assert(rest.drop_first() =~= all@.subrange(i + 1, all@.len() as int));
        if all[i].name == *name {
            return Some(i);
        }
        i = i + 1;
    }
    None
}

/// The permission `p` brought in line with its canonical entry `c`: the
/// group and description of `c`, the rest of `p`.
pub open spec fn reconciled(p: Permission, c: Permission) -> Permission {
    Permission { group: c.group, description: c.description, ..p }
}

/// Every stored permission is listed in `all` by name and has the group and
/// description of its entry there, and every listed name is stored.
pub open spec fn is_in_line(perms: Seq<Permission>, all: Seq<Permission>) -> bool {
    &&& forall|i: int|
        0 <= i < perms.len() ==> (canonical_for(all, #[trigger] perms[i].name@) matches Some(c)
            && perms[i] == reconciled(perms[i], c))
    &&& forall|k: int|
        0 <= k < all.len() ==> exists|i: int|
            0 <= i < perms.len() && perms[i].name@ == (#[trigger] all[k]).name@
}

/// No two permissions share a name.
pub open spec fn names_unique(perms: Seq<Permission>) -> bool {
    forall|a: int, b: int| 0 <= a < b < perms.len() ==> perms[a].name@ != perms[b].name@
}

/// `p` is a row of `olds` (same id and name), or a new row: its id above
/// every id of `olds` and its name that of no row of `olds`.
pub open spec fn is_kept_or_new(olds: Seq<Permission>, p: Permission) -> bool {
    (exists|j: int| 0 <= j < olds.len() && olds[j].id == p.id && olds[j].name == p.name) || (
    forall|j: int| 0 <= j < olds.len() ==> olds[j].id < p.id && olds[j].name@ != p.name@)
}

/// A filter that every element passes leaves the sequence as it was.
proof fn lemma_filter_keeps_all<A>(s: Seq<A>, pred: spec_fn(A) -> bool)
    requires
        forall|i: int| 0 <= i < s.len() ==> pred(#[trigger] s[i]),
    ensures
        s.filter(pred) == s,
    decreases s.len(),
{
    reveal(Seq::filter);
    if s.len() > 0 {
        let d = s.drop_last();
        assert forall|i: int| 0 <= i < d.len() implies pred(#[trigger] d[i]) by {
            assert(d[i] == s[i]);
        }
        lemma_filter_keeps_all(d, pred);
        assert(pred(s[s.len() - 1]));
        assert(d.push(s.last()) =~= s);
    }
}

/// Brings the stored permissions in line with the canonical list `all`,
/// matched by name: a stored permission whose name is listed takes the
/// group and description of the listed entry; one whose name is not listed is
/// deleted together with its grants; a listed name that no stored permission
/// has is stored under a new id, above every id in use.
#[verifier::rlimit(100)]
pub fn update_permissions(all_permissions: &Vec<Permission>, store: &mut PermissionStore)
    requires
        old(store).wf(),
        forall|i: int|
            0 <= i < old(store).permissions@.len() ==> #[trigger] old(store).permissions@[i].id
                < i32::MAX - all_permissions@.len(),
        all_permissions@.len() < i32::MAX,
    ensures
        final(store).wf(),
        final(store).user_ids == old(store).user_ids,
        is_in_line(final(store).permissions@, all_permissions@),
        is_in_line(old(store).permissions@, all_permissions@) ==> final(store).permissions@ == old(
            store,
        ).permissions@ && final(store).user_permissions@ == old(store).user_permissions@,
        names_unique(old(store).permissions@) ==> names_unique(final(store).permissions@),
        forall|i: int|
            0 <= i < final(store).permissions@.len() ==> is_kept_or_new(
                old(store).permissions@,
                #[trigger] final(store).permissions@[i],
            ),
        forall|j: int|
            0 <= j < old(store).permissions@.len() ==> match canonical_for(
                all_permissions@,
                #[trigger] old(store).permissions@[j].name@,
            ) {
                Some(c) => final(store).permissions@.contains(
                    reconciled(old(store).permissions@[j], c),
                ),
                None => !has_permission_id(final(store).permissions@, old(store).permissions@[j].id),
            },
        final(store).user_permissions@ == old(store).user_permissions@.filter(
            |g: UserPermission| has_permission_id(final(store).permissions@, g.permission_id),
        ),
{
    let ghost olds = store.permissions@;
    let ghost all = all_permissions@;
    let n = store.permissions.len();
    // Every stored id is at most `top`.
    let mut top: i32 = 0;
    let mut i: usize = 0;
    while i < n
        invariant
            n == olds.len(),
            store.permissions@ == olds,
            i <= n,
            top >= 0,
            top < i32::MAX - all.len(),
            forall|t: int| 0 <= t < olds.len() ==> #[trigger] olds[t].id < i32::MAX - all.len(),
            forall|t: int| 0 <= t < i ==> #[trigger] olds[t].id <= top,
        decreases n - i,
    {
        if store.permissions[i].id > top {
            top = store.permissions[i].id;
        }
        i = i + 1;
    }
    // The stored permissions that stay, brought in line.
    let mut perms: Vec<Permission> = Vec::new();
    let ghost mut src: Seq<int> = Seq::empty();
    let mut i: usize = 0;
    while i < n
        invariant
            n == olds.len(),
            store.permissions@ == olds,
            all_permissions@ == all,
            i <= n,
            0 <= top < i32::MAX - all.len(),
            forall|t: int| 0 <= t < olds.len() ==> #[trigger] olds[t].id <= top,
            forall|a: int, b: int| 0 <= a < b < olds.len() ==> olds[a].id != olds[b].id,
            src.len() == perms@.len(),
            forall|m: int|
                0 <= m < perms@.len() ==> 0 <= #[trigger] src[m] < i && (canonical_for(
                    all,
                    olds[src[m]].name@,
                ) matches Some(c) && perms@[m] == reconciled(olds[src[m]], c)),
            forall|a: int, b: int| 0 <= a < b < perms@.len() ==> src[a] < src[b],
            forall|j: int|
                0 <= j < i ==> match canonical_for(all, #[trigger] olds[j].name@) {
                    Some(c) => perms@.contains(reconciled(olds[j], c)),
                    None => true,
                },
            is_in_line(olds, all) ==> perms@ == olds.subrange(0, i as int),
        decreases n - i,
    {
        let p = store.permissions[i].copy();
        match find_canonical(all_permissions, &p.name) {
            Some(k) => {
                let c = &all_permissions[k];
                let q = Permission {
                    id: p.id,
                    name: p.name,
                    group: c.group.clone(),
                    description: copy_opt_string(&c.description),
                    updated_at: p.updated_at,
                    created_at: p.created_at,
                };
                let ghost before = perms@;
                perms.push(q);
                proof {
                    if is_in_line(olds, all) {
                        assert(olds[i as int] == reconciled(olds[i as int], all[k as int]));
                        assert(q == olds[i as int]);
                        assert(perms@ =~= olds.subrange(0, i + 1));
                    }
                    src = src.push(i as int);
                    assert forall|j: int| 0 <= j <= i implies match canonical_for(
                        all,
                        #[trigger] olds[j].name@,
                    ) {
                        Some(c) => perms@.contains(reconciled(olds[j], c)),
                        None => true,
                    } by {
                        if j < i {
                            if canonical_for(all, olds[j].name@) is Some {
                                let c = canonical_for(all, olds[j].name@)->0;
                                let t = choose|t: int|
                                    0 <= t < before.len() && before[t] == reconciled(olds[j], c);
                                assert(perms@[t] == before[t]);
                            }
                        } else {
                            assert(perms@[perms@.len() - 1] == q);
                        }
                    }
                }
            },
            None => {
                proof {
                    if is_in_line(olds, all) {
                        assert(canonical_for(all, olds[i as int].name@) is Some);
                    }
                }
            },
        }
        i = i + 1;
    }
    let kept_len = perms.len();
    assert(is_in_line(olds, all) ==> perms@ == olds) by {
        if is_in_line(olds, all) {
            assert(olds.subrange(0, n as int) =~= olds);
        }
    }
    assert(names_unique(olds) ==> names_unique(perms@)) by {
        if names_unique(olds) {
            assert forall|a: int, b: int| 0 <= a < b < perms@.len() implies perms@[a].name@
                != perms@[b].name@ by {
                assert(src[a] < src[b]);
            }
        }
    }
    // Ids of the kept permissions, by position in the old table.
    assert forall|a: int, b: int| 0 <= a < b < perms@.len() implies perms@[a].id != perms@[b].id by {
        assert(src[a] < src[b]);
        assert(perms@[a].id == olds[src[a]].id && perms@[b].id == olds[src[b]].id);
    }
    assert forall|m: int| 0 <= m < perms@.len() implies #[trigger] perms@[m].id <= top && (
    canonical_for(all, perms@[m].name@) matches Some(c) && perms@[m] == reconciled(perms@[m], c)) by {
        let o = olds[src[m]];
        assert(perms@[m].name == o.name && perms@[m].id == o.id);
    }
    // The listed names no stored permission has, under new ids.
    let mut next: i32 = top + 1;
    let mut k: usize = 0;
    while k < all_permissions.len()
        invariant
            all_permissions@ == all,
            k <= all.len(),
            kept_len <= perms@.len(),
            0 <= top < i32::MAX - all.len(),
            n == olds.len(),
            src.len() >= kept_len,
            forall|t: int| 0 <= t < olds.len() ==> #[trigger] olds[t].id <= top,
            top + 1 <= next <= top + 1 + k,
            top + 1 + all.len() <= i32::MAX,
            forall|a: int, b: int| 0 <= a < b < perms@.len() ==> perms@[a].id != perms@[b].id,
            forall|m: int| 0 <= m < kept_len ==> #[trigger] perms@[m].id <= top,
            forall|m: int| kept_len <= m < perms@.len() ==> top < #[trigger] perms@[m].id < next,
            forall|m: int|
                0 <= m < perms@.len() ==> (canonical_for(all, #[trigger] perms@[m].name@) matches Some(
                    c,
                ) && perms@[m] == reconciled(perms@[m], c)),
            forall|t: int|
                0 <= t < k ==> exists|m: int|
                    0 <= m < perms@.len() && perms@[m].name@ == (#[trigger] all[t]).name@,
            forall|m: int|
                0 <= m < kept_len ==> 0 <= #[trigger] src[m] < olds.len() && (canonical_for(
                    all,
                    olds[src[m]].name@,
                ) matches Some(c) && perms@[m] == reconciled(olds[src[m]], c)),
            forall|j: int|
                0 <= j < olds.len() ==> match canonical_for(all, #[trigger] olds[j].name@) {
                    Some(c) => perms@.contains(reconciled(olds[j], c)),
                    None => true,
                },
            is_in_line(olds, all) ==> perms@ == olds,
            names_unique(olds) ==> names_unique(perms@),
            forall|m: int|
                kept_len <= m < perms@.len() ==> forall|j: int|
                    0 <= j < olds.len() ==> olds[j].name@ != (#[trigger] perms@[m]).name@,
        decreases all.len() - k,
    {
        let c = &all_permissions[k];
        let mut present = false;
        let mut m: usize = 0;
        while m < perms.len()
            invariant
                m <= perms@.len(),
                present == exists|t: int| 0 <= t < m && perms@[t].name@ == c.name@,
            decreases perms@.len() - m,
        {
            if perms[m].name == c.name {
                present = true;
            }
            m = m + 1;
        }
        if !present {
            proof {
                lemma_canonical_for(all, c.name@);
                assert(all[k as int].name@ == c.name@);
                if is_in_line(olds, all) {
                    let x = choose|x: int| 0 <= x < perms@.len() && perms@[x].name@ == all[k as int].name@;
                    assert(false);
                }
                assert forall|j: int| 0 <= j < olds.len() implies olds[j].name@ != c.name@ by {
                    if olds[j].name@ == c.name@ {
                        let cc = canonical_for(all, olds[j].name@)->0;
                        let t = choose|t: int| 0 <= t < perms@.len() && perms@[t] == reconciled(olds[j], cc);
                        assert(perms@[t].name@ == c.name@);
                    }
                }
            }
            let found = find_canonical(all_permissions, &c.name);
            let f = match found {
                Some(x) => x,
                None => k,
            };
            let e = &all_permissions[f];
            let q = Permission {
                id: next,
                name: c.name.clone(),
                group: e.group.clone(),
                description: copy_opt_string(&e.description),
                updated_at: None,
                created_at: None,
            };
            let ghost before = perms@;
            perms.push(q);
            next = next + 1;
            proof {
                assert(perms@[perms@.len() - 1] == q);
                assert forall|t: int| 0 <= t <= k implies exists|m: int|
                    0 <= m < perms@.len() && perms@[m].name@ == (#[trigger] all[t]).name@ by {
                    if t < k {
                        let m = choose|m: int| 0 <= m < before.len() && before[m].name@ == all[t].name@;
                        assert(perms@[m] == before[m]);
                    } else {
                        assert(perms@[perms@.len() - 1].name@ == all[t].name@);
                    }
                }
                assert forall|j: int| 0 <= j < olds.len() implies match canonical_for(
                    all,
                    #[trigger] olds[j].name@,
                ) {
                    Some(c) => perms@.contains(reconciled(olds[j], c)),
                    None => true,
                } by {
                    if canonical_for(all, olds[j].name@) is Some {
                        let c = canonical_for(all, olds[j].name@)->0;
                        let t = choose|t: int| 0 <= t < before.len() && before[t] == reconciled(olds[j], c);
                        assert(perms@[t] == before[t]);
                    }
                }
                assert forall|m: int|
                    kept_len <= m < perms@.len() implies forall|j: int|
                        0 <= j < olds.len() ==> olds[j].name@ != (#[trigger] perms@[m]).name@ by {
                    if m < before.len() {
                        assert(perms@[m] == before[m]);
                    }
                }
                if names_unique(olds) {
                    assert forall|a: int, b: int| 0 <= a < b < perms@.len() implies perms@[a].name@
                        != perms@[b].name@ by {
                        if b == perms@.len() - 1 {
                            assert(perms@[a] == before[a]);
                        } else {
                            assert(perms@[a] == before[a] && perms@[b] == before[b]);
                        }
                    }
                }
                assert forall|a: int, b: int| 0 <= a < b < perms@.len() implies perms@[a].id
                    != perms@[b].id by {
                    if b == perms@.len() - 1 {
                        assert(perms@[a] == before[a]);
                    } else {
                        assert(perms@[a] == before[a] && perms@[b] == before[b]);
                    }
                }
            }
        } else {
            proof {
                let t = choose|t: int| 0 <= t < perms@.len() && perms@[t].name@ == c.name@;
                assert(perms@[t].name@ == all[k as int].name@);
            }
        }
        k = k + 1;
    }
    // A stored permission that is not listed is gone.
    assert forall|j: int| 0 <= j < olds.len() && canonical_for(all, #[trigger] olds[j].name@) is None implies !has_permission_id(
        perms@,
        olds[j].id,
    ) by {
        if has_permission_id(perms@, olds[j].id) {
            let m = choose|m: int| 0 <= m < perms@.len() && perms@[m].id == olds[j].id;
            if m < kept_len {
                assert(perms@[m].id == olds[src[m]].id);
                assert(src[m] == j);
            } else {
                assert(olds[j].id <= top);
            }
        }
    }
    // Grants of deleted permissions go with them.
    let ghost grants = store.user_permissions@;
    let mut kept_grants: Vec<UserPermission> = Vec::new();
    let ghost pred = |g: UserPermission| has_permission_id(perms@, g.permission_id);
    let ghost mut gsrc: Seq<int> = Seq::empty();
    let mut t: usize = 0;
    while t < store.user_permissions.len()
        invariant
            store.user_permissions@ == grants,
            t <= grants.len(),
            pred == (|g: UserPermission| has_permission_id(perms@, g.permission_id)),
            kept_grants@ == grants.subrange(0, t as int).filter(pred),
            gsrc.len() == kept_grants@.len(),
            forall|m: int|
                0 <= m < kept_grants@.len() ==> 0 <= #[trigger] gsrc[m] < t && kept_grants@[m]
                    == grants[gsrc[m]],
            forall|a: int, b: int| 0 <= a < b < kept_grants@.len() ==> gsrc[a] < gsrc[b],
            forall|m: int| 0 <= m < kept_grants@.len() ==> has_permission_id(
                perms@,
                (#[trigger] kept_grants@[m]).permission_id,
            ),
        decreases grants.len() - t,
    {
        let ghost prefix = grants.subrange(0, t as int);
        assert(grants.subrange(0, t + 1) =~= prefix.push(grants[t as int]));
        assert(prefix.push(grants[t as int]).drop_last() =~= prefix);
        proof {
            reveal(Seq::filter);
        }
        let g = store.user_permissions[t];
        let mut has = false;
        let mut m: usize = 0;
        while m < perms.len()
            invariant
                m <= perms@.len(),
                has == exists|x: int| 0 <= x < m && perms@[x].id == g.permission_id,
            decreases perms@.len() - m,
        {
            if perms[m].id == g.permission_id {
                has = true;
            }
            m = m + 1;
        }
        assert(has == pred(g));
        if has {
            kept_grants.push(g);
            proof {
                gsrc = gsrc.push(t as int);
            }
        }
        t = t + 1;
    }
    assert(grants.subrange(0, grants.len() as int) =~= grants);
    proof {
        assert forall|a: int, b: int| 0 <= a < b < kept_grants@.len() implies !(kept_grants@[a].user_id
            == kept_grants@[b].user_id && kept_grants@[a].permission_id
            == kept_grants@[b].permission_id) by {
            assert(gsrc[a] < gsrc[b]);
            assert(kept_grants@[a] == grants[gsrc[a]] && kept_grants@[b] == grants[gsrc[b]]);
        }
        assert forall|m: int| 0 <= m < kept_grants@.len() implies store.user_ids@.contains(
            #[trigger] kept_grants@[m].user_id,
        ) by {
            assert(kept_grants@[m] == grants[gsrc[m]]);
        }
    }
    proof {
        assert forall|m: int| 0 <= m < perms@.len() implies is_kept_or_new(
            olds,
            #[trigger] perms@[m],
        ) by {
            if m < kept_len {
                assert(olds[src[m]].id == perms@[m].id && olds[src[m]].name == perms@[m].name);
            }
        }
        if is_in_line(olds, all) {
            assert forall|x: int| 0 <= x < grants.len() implies pred(#[trigger] grants[x]) by {
                assert(old(store).user_ids@.contains(old(store).user_permissions@[x].user_id));
                assert(has_permission_id(olds, grants[x].permission_id));
            }
            lemma_filter_keeps_all(grants, pred);
        }
    }
    store.permissions = perms;
    store.user_permissions = kept_grants;
}

/// An authorization check failed.
#[derive(Debug, Clone)]
pub enum AuthorizationError {
    /// The user lacks what the check required; lists the names required.
    PermissionDenied(Vec<String>),
}

/// Per-user copies of the names of the permissions granted, filled from the
/// store on a miss and replaced whole after every change to a user's grants.
pub struct PermissionCache {
    entries: HashMap<i32, Vec<String>>,
}

impl View for PermissionCache {
    type V = Map<i32, Seq<String>>;

    closed spec fn view(&self) -> Map<i32, Seq<String>> {
        self.entries@.map_values(|v: Vec<String>| v@)
    }
}

/// Every entry of the cache lists what the store grants that user.
pub open spec fn is_coherent(cache: Map<i32, Seq<String>>, store: PermissionStore) -> bool {
    forall|uid: i32| #[trigger] cache.contains_key(uid) ==> cache[uid] == store.names_for(uid)
}

impl PermissionCache {
    pub fn new() -> (r: PermissionCache)
        ensures
            r@ == Map::<i32, Seq<String>>::empty(),
    {
        let r = PermissionCache { entries: HashMap::new() };
        assert(r@ =~= Map::<i32, Seq<String>>::empty());
        r
    }

    /// The cached names of `uid`, if any.
    pub fn get(&self, uid: i32) -> (r: Option<&Vec<String>>)
        ensures
            self@.contains_key(uid) ==> (r matches Some(v) && v@ == self@[uid]),
            !self@.contains_key(uid) ==> r is None,
    {
        self.entries.get(&uid)
    }

    /// Replaces the entry of `uid` with `names`.
    pub fn replace(&mut self, uid: i32, names: Vec<String>)
        ensures
            final(self)@ == old(self)@.insert(uid, names@),
    {
        let ghost n = names@;
        self.entries.insert(uid, names);
        assert(self@ =~= old(self)@.insert(uid, n));
    }
}

/// Whether some entry of `names` reads `name`.
fn list_contains(names: &Vec<String>, name: &String) -> (r: bool)
    ensures
        r == lists_name(names@, name@),
{
    let mut k: usize = 0;
    while k < names.len()
        invariant
            k <= names@.len(),
            forall|j: int| 0 <= j < k ==> names@[j]@ != name@,
        decreases names@.len() - k,
    {
        if names[k] == *name {
            return true;
        }
        k = k + 1;
    }
    false
}

/// Whether `names` lists some name of `needed`.
fn list_contains_one(names: &Vec<String>, needed: &Vec<Permission>) -> (r: bool)
    ensures
        r == lists_one(names@, needed@),
{
    let mut k: usize = 0;
    while k < needed.len()
        invariant
            k <= needed@.len(),
            forall|j: int| 0 <= j < k ==> !lists_name(names@, #[trigger] needed@[j].name@),
        decreases needed@.len() - k,
    {
        if list_contains(names, &needed[k].name) {
            return true;
        }
        k = k + 1;
    }
    false
}

/// Whether `names` lists every name of `needed`.
fn list_contains_all(names: &Vec<String>, needed: &Vec<Permission>) -> (r: bool)
    ensures
        r == lists_all(names@, needed@),
{
    let mut k: usize = 0;
    while k < needed.len()
        invariant
            k <= needed@.len(),
            forall|j: int| 0 <= j < k ==> lists_name(names@, #[trigger] needed@[j].name@),
        decreases needed@.len() - k,
    {
        if !list_contains(names, &needed[k].name) {
            return false;
        }
        k = k + 1;
    }
    true
}

/// The names of `needed`, in order.
fn required_names(needed: &Vec<Permission>) -> (r: Vec<String>)
    ensures
        r@.len() == needed@.len(),
        forall|k: int| 0 <= k < needed@.len() ==> #[trigger] r@[k] == needed@[k].name,
{
    let mut r: Vec<String> = Vec::new();
    let mut k: usize = 0;
    while k < needed.len()
        invariant
            k <= needed@.len(),
            r@.len() == k,
            forall|j: int| 0 <= j < k ==> #[trigger] r@[j] == needed@[j].name,
        decreases needed@.len() - k,
    {
        r.push(needed[k].name.clone());
        k = k + 1;
    }
    r
}

/// What `has_permission` decides for `uid` and `name`: a cache entry that
/// lists the name allows, and otherwise the store decides.
pub open spec fn check_allows(
    cache: Map<i32, Seq<String>>,
    store: PermissionStore,
    uid: i32,
    name: Seq<char>,
) -> bool {
    (cache.contains_key(uid) && lists_name(cache[uid], name)) || lists_name(
        store.names_for(uid),
        name,
    )
}

/// A grant of an existing permission puts its name among the names of the
/// user.
proof fn lemma_granted_name_listed(
    perms: Seq<Permission>,
    g: Seq<UserPermission>,
    uid: i32,
    pid: i32,
)
    requires
        is_granted(g, uid, pid),
        has_permission_id(perms, pid),
    ensures
        lists_name(granted_names(perms, g, uid), name_of(perms, pid)@),
    decreases g.len(),
{
    let names = granted_names(perms, g, uid);
    let d = g.drop_last();
    if g.last().user_id == uid && g.last().permission_id == pid {
        assert(names.last() == name_of(perms, pid));
        assert(names[names.len() - 1]@ == name_of(perms, pid)@);
    } else {
        let t = choose|t: int| 0 <= t < g.len() && g[t].user_id == uid && g[t].permission_id == pid;
        assert(t < g.len() - 1);
        assert(d[t] == g[t]);
        lemma_granted_name_listed(perms, d, uid, pid);
        let rest = granted_names(perms, d, uid);
        let k = choose|k: int| 0 <= k < rest.len() && rest[k]@ == name_of(perms, pid)@;
        assert(names[k] == rest[k]);
    }
}

/// A user without grants has no names.
proof fn lemma_no_grants_no_names(perms: Seq<Permission>, g: Seq<UserPermission>, uid: i32)
    requires
        forall|p: i32| !is_granted(g, uid, p),
    ensures
        granted_names(perms, g, uid).len() == 0,
    decreases g.len(),
{
    if g.len() > 0 {
        let d = g.drop_last();
        assert forall|p: i32| !is_granted(d, uid, p) by {
            if is_granted(d, uid, p) {
                let t = choose|t: int| 0 <= t < d.len() && d[t].user_id == uid && d[t].permission_id == p;
                assert(g[t] == d[t]);
                assert(is_granted(g, uid, p));
            }
        }
        lemma_no_grants_no_names(perms, d, uid);
        if g.last().user_id == uid {
            assert(is_granted(g, uid, g.last().permission_id));
        }
    }
}

/// Cache coherency: once a grant of permission `perm` to `uid` has been
/// stored and the user's cache entry reloaded, a check of `perm`'s name for
/// that user allows it, whatever a check before the grant decided.
pub proof fn lemma_grant_then_check_allows(
    old_store: PermissionStore,
    new_store: PermissionStore,
    old_cache: Map<i32, Seq<String>>,
    uid: i32,
    ids: Seq<i32>,
    perm: Permission,
)
    requires
        old_store.wf(),
        new_store.wf(),
        new_store.permissions == old_store.permissions,
        is_grant_result(old_store.user_permissions@, new_store.user_permissions@, uid, ids),
        ids.contains(perm.id),
        old_store.permissions@.contains(perm),
    ensures
        check_allows(
            old_cache.insert(uid, new_store.names_for(uid)),
            new_store,
            uid,
            perm.name@,
        ),
{
    let perms = new_store.permissions@;
    assert(is_granted(new_store.user_permissions@, uid, perm.id));
    let i = choose|i: int| 0 <= i < perms.len() && perms[i] == perm;
    assert(has_permission_id(perms, perm.id));
    let c = choose|c: int| 0 <= c < perms.len() && perms[c].id == perm.id;
    assert(c == i);
    lemma_granted_name_listed(perms, new_store.user_permissions@, uid, perm.id);
}

/// Setting the permissions of `uid` to none leaves that user no grant, and a
/// check of any name for that user, after its cache entry is reloaded, is
/// denied.
pub proof fn lemma_set_none_denies(
    old_store: PermissionStore,
    new_store: PermissionStore,
    old_cache: Map<i32, Seq<String>>,
    uid: i32,
    name: Seq<char>,
)
    requires
        is_set_result(old_store.user_permissions@, new_store.user_permissions@, uid, Seq::empty()),
    ensures
        forall|p: i32| !is_granted(new_store.user_permissions@, uid, p),
        !check_allows(old_cache.insert(uid, new_store.names_for(uid)), new_store, uid, name),
{
    assert forall|p: i32| !is_granted(new_store.user_permissions@, uid, p) by {
        assert(!Seq::<i32>::empty().contains(p));
    }
    lemma_no_grants_no_names(new_store.permissions@, new_store.user_permissions@, uid);
}

/// Reads the names granted to `user_id` from the store, makes them the
/// user's cache entry, and returns them.
pub fn update_permission_cache_for_user(
    user_id: i32,
    store: &PermissionStore,
    cache: &mut PermissionCache,
) -> (r: Vec<String>)
    requires
        store.wf(),
    ensures
        r@ == store.names_for(user_id),
        final(cache)@ == old(cache)@.insert(user_id, store.names_for(user_id)),
        is_coherent(old(cache)@, *store) ==> is_coherent(final(cache)@, *store),
{
    let names = store.load_names(user_id);
    let r = names.clone();
    assert(r@ =~= names@);
    cache.replace(user_id, names);
    r
}

/// Allows `user` when it holds `needed`. A cache entry that lists the name
/// decides at once; otherwise the entry is reloaded from the store, which
/// then decides. A denial names the permission required.
pub fn has_permission(
    user: &TokenUser,
    needed: &Permission,
    store: &PermissionStore,
    cache: &mut PermissionCache,
) -> (r: Result<(), AuthorizationError>)
    requires
        store.wf(),
    ensures
        ({
            let hit = old(cache)@.contains_key(user.id) && lists_name(
                old(cache)@[user.id],
                needed.name@,
            );
            &&& hit ==> r is Ok && final(cache)@ == old(cache)@
            &&& !hit ==> final(cache)@ == old(cache)@.insert(user.id, store.names_for(user.id))
                && (r is Ok <==> lists_name(store.names_for(user.id), needed.name@))
        }),
        is_coherent(old(cache)@, *store) ==> is_coherent(final(cache)@, *store) && (r is Ok
            <==> lists_name(store.names_for(user.id), needed.name@)),
        r is Ok <==> check_allows(old(cache)@, *store, user.id, needed.name@),
        r matches Err(AuthorizationError::PermissionDenied(req)) ==> req@ == seq![needed.name],
{
    match cache.get(user.id) {
        Some(names) => {
            if list_contains(names, &needed.name) {
                return Ok(());
            }
        },
        None => {},
    }
    let names = update_permission_cache_for_user(user.id, store, cache);
    if list_contains(&names, &needed.name) {
        return Ok(());
    }
    let mut req: Vec<String> = Vec::new();
    req.push(needed.name.clone());
    assert(req@ =~= seq![needed.name]);
    Err(AuthorizationError::PermissionDenied(req))
}

/// Allows `user` when it holds at least one permission of `needed`, deciding
/// from the cache when its entry lists one, else from the store after
/// reloading the entry. A denial lists the names required.
pub fn has_one_permission(
    user: &TokenUser,
    needed: &Vec<Permission>,
    store: &PermissionStore,
    cache: &mut PermissionCache,
) -> (r: Result<(), AuthorizationError>)
    requires
        store.wf(),
    ensures
        ({
            let hit = old(cache)@.contains_key(user.id) && lists_one(old(cache)@[user.id], needed@);
            &&& hit ==> r is Ok && final(cache)@ == old(cache)@
            &&& !hit ==> final(cache)@ == old(cache)@.insert(user.id, store.names_for(user.id))
                && (r is Ok <==> lists_one(store.names_for(user.id), needed@))
        }),
        is_coherent(old(cache)@, *store) ==> is_coherent(final(cache)@, *store) && (r is Ok
            <==> lists_one(store.names_for(user.id), needed@)),
        r matches Err(AuthorizationError::PermissionDenied(req)) ==> req@ == needed@.map_values(
            |p: Permission| p.name,
        ),
{
    match cache.get(user.id) {
        Some(names) => {
            if list_contains_one(names, needed) {
                return Ok(());
            }
        },
        None => {},
    }
    let names = update_permission_cache_for_user(user.id, store, cache);
    if list_contains_one(&names, needed) {
        return Ok(());
    }
    let req = required_names(needed);
    assert(req@ =~= needed@.map_values(|p: Permission| p.name));
    Err(AuthorizationError::PermissionDenied(req))
}

/// Allows `user` when it holds every permission of `needed`, deciding from
/// the cache when its entry lists them all, else from the store after
/// reloading the entry. A denial lists the names required.
pub fn has_all_permissions(
    user: &TokenUser,
    needed: &Vec<Permission>,
    store: &PermissionStore,
    cache: &mut PermissionCache,
) -> (r: Result<(), AuthorizationError>)
    requires
        store.wf(),
    ensures
        ({
            let hit = old(cache)@.contains_key(user.id) && lists_all(old(cache)@[user.id], needed@);
            &&& hit ==> r is Ok && final(cache)@ == old(cache)@
            &&& !hit ==> final(cache)@ == old(cache)@.insert(user.id, store.names_for(user.id))
                && (r is Ok <==> lists_all(store.names_for(user.id), needed@))
        }),
        is_coherent(old(cache)@, *store) ==> is_coherent(final(cache)@, *store) && (r is Ok
            <==> lists_all(store.names_for(user.id), needed@)),
        r matches Err(AuthorizationError::PermissionDenied(req)) ==> req@ == needed@.map_values(
            |p: Permission| p.name,
        ),
{
    match cache.get(user.id) {
        Some(names) => {
            if list_contains_all(names, needed) {
                return Ok(());
            }
        },
        None => {},
    }
    let names = update_permission_cache_for_user(user.id, store, cache);
    if list_contains_all(&names, needed) {
        return Ok(());
    }
    let req = required_names(needed);
    assert(req@ =~= needed@.map_values(|p: Permission| p.name));
    Err(AuthorizationError::PermissionDenied(req))
}

} // verus!
