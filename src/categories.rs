use vstd::prelude::*;
use vstd::multiset::Multiset;

use crate::models::{
    copy_opt_string, CreateEntityResult, DeleteEntityParams, DeleteEntityResult,
    SubCategoryFilter,
};

verus! {

broadcast use vstd::seq_lib::group_to_multiset_ensures;

/// A category; `parent_category_id` links it into a forest. Timestamps are
/// seconds since the Unix epoch.
#[derive(Debug, Clone, PartialEq, Eq)]
pub struct Category {
    pub id: i32,
    pub name: String,
    pub parent_category_id: Option<i32>,
    pub updated_at: Option<i64>,
    pub created_at: Option<i64>,
}

impl Category {
    /// A field-by-field copy.
    pub fn copy(&self) -> (r: Category)
        ensures
            r == *self,
    {
        Category {
            id: self.id,
            name: self.name.clone(),
            parent_category_id: self.parent_category_id,
            updated_at: self.updated_at,
            created_at: self.created_at,
        }
    }
}

/// `c` names category `id` as its parent.
pub open spec fn is_child_of(c: Category, id: i32) -> bool {
    c.parent_category_id == Some(id)
}

/// The rows whose parent is `id`, in table order.
pub open spec fn children_of(rows: Seq<Category>, id: i32) -> Seq<Category> {
    rows.filter(|c: Category| is_child_of(c, id))
}

/// Some row has id `id`.
pub open spec fn has_id(rows: Seq<Category>, id: i32) -> bool {
    exists|i: int| 0 <= i < rows.len() && rows[i].id == id
}

/// No two rows share an id.
pub open spec fn ids_unique(rows: Seq<Category>) -> bool {
    forall|i: int, j: int| 0 <= i < j < rows.len() ==> rows[i].id != rows[j].id
}

/// The parent of `del[k]` is listed after it.
pub open spec fn parent_deleted_after(del: Seq<Category>, k: int) -> bool {
    exists|j: int| k < j < del.len() && is_child_of(del[k], #[trigger] del[j].id)
}

/// Some row of `del` has id `id`.
pub open spec fn is_deleted(del: Seq<Category>, id: i32) -> bool {
    exists|k: int| 0 <= k < del.len() && del[k].id == id
}

/// `del` lists, leaf first, the subtree rooted at `id` that a cascading
/// delete removes from `old`, leaving `new`: `new` keeps, in order, the rows
/// of `old` not listed in `del`; `del` holds distinct rows of `old` and ends
/// with the root; every other deleted row is a child of a row deleted after
/// it; and no row left refers to a deleted row as its parent.
pub open spec fn is_cascade_removal(
    old: Seq<Category>,
    new: Seq<Category>,
    del: Seq<Category>,
    id: i32,
) -> bool {
    &&& new == old.filter(|c: Category| !is_deleted(del, c.id))
    &&& forall|k: int| 0 <= k < del.len() ==> old.contains(#[trigger] del[k])
    &&& ids_unique(del)
    &&& del.len() > 0
    &&& del.last().id == id
    &&& forall|k: int| 0 <= k < del.len() - 1 ==> #[trigger] parent_deleted_after(del, k)
    &&& forall|m: int, k: int|
        0 <= m < new.len() && 0 <= k < del.len() ==> !is_child_of(
            #[trigger] new[m],
            #[trigger] del[k].id,
        )
}

/// On a chain A → B → C (B's parent A, C's parent B) with distinct ids, a
/// cascading delete of A removes all three, in the order C, B, A.
pub proof fn lemma_chain_cascade_order(
    a: Category,
    b: Category,
    c: Category,
    new: Seq<Category>,
    del: Seq<Category>,
)
    requires
        is_child_of(b, a.id),
        is_child_of(c, b.id),
        a.id != b.id && b.id != c.id && a.id != c.id,
        is_cascade_removal(seq![a, b, c], new, del, a.id),
    ensures
        del == seq![c, b, a],
        new.len() == 0,
{
    let old = seq![a, b, c];
    let pred = |x: Category| !is_deleted(del, x.id);
    assert(old[0] == a && old[1] == b && old[2] == c);
    assert forall|k: int| 0 <= k < del.len() implies #[trigger] del[k] == a || del[k] == b || del[k]
        == c by {
        assert(old.contains(del[k]));
    }
    let last = del.len() - 1;
    assert(del[last] == a);
    // B is deleted: left in place it would point at the deleted A.
    assert(is_deleted(del, b.id)) by {
        if !is_deleted(del, b.id) {
            assert(pred(old[1]));
            old.lemma_filter_contains(pred, 1);
            let m = choose|m: int| 0 <= m < new.len() && new[m] == b;
            assert(!is_child_of(new[m], del[last].id));
        }
    }
    let kb = choose|k: int| 0 <= k < del.len() && del[k].id == b.id;
    assert(del[kb] == b);
    // C is deleted: left in place it would point at the deleted B.
    assert(is_deleted(del, c.id)) by {
        if !is_deleted(del, c.id) {
            assert(pred(old[2]));
            old.lemma_filter_contains(pred, 2);
            let m = choose|m: int| 0 <= m < new.len() && new[m] == c;
            assert(!is_child_of(new[m], del[kb].id));
        }
    }
    let kc = choose|k: int| 0 <= k < del.len() && del[k].id == c.id;
    assert(del[kc] == c);
    assert(del.len() == 3) by {
        if del.len() > 3 {
            assert(del[0].id != del[1].id && del[0].id != del[2].id && del[0].id != del[3].id);
            assert(del[1].id != del[2].id && del[1].id != del[3].id && del[2].id != del[3].id);
            assert(del[0] == a || del[0] == b || del[0] == c);
            assert(del[1] == a || del[1] == b || del[1] == c);
            assert(del[2] == a || del[2] == b || del[2] == c);
            assert(del[3] == a || del[3] == b || del[3] == c);
        }
    }
    assert(kb != 2 && kc != 2 && kb != kc);
    if kb == 0 {
        assert(parent_deleted_after(del, 1));
        let j = choose|j: int| 1 < j < del.len() && is_child_of(del[1], del[j].id);
        assert(false);
    }
    assert(del =~= seq![c, b, a]);
    if new.len() > 0 {
        assert(new.contains(new[0]));
        old.lemma_filter_contains_rev(pred, new[0]);
        old.lemma_filter_pred(pred, 0);
        let k = choose|k: int| 0 <= k < old.len() && old[k] == new[0];
        assert(is_deleted(del, old[k].id));
    }
}

/// A sequence of distinct positions below `n` has at most `n` entries.
proof fn lemma_distinct_below(s: Seq<usize>, n: int)
    requires
        n >= 0,
        s.no_duplicates(),
        forall|k: int| 0 <= k < s.len() ==> s[k] < n,
    ensures
        s.len() <= n,
    decreases n,
{
    if n == 0 {
        if s.len() > 0 {
            assert(s[0] < n);
        }
    } else if exists|p: int| 0 <= p < s.len() && s[p] == n - 1 {
        let p = choose|p: int| 0 <= p < s.len() && s[p] == n - 1;
        let t = s.remove(p);
        assert forall|k: int| 0 <= k < t.len() implies t[k] < n - 1 by {
            if k < p {
                assert(t[k] == s[k]);
            } else {
                assert(t[k] == s[k + 1]);
            }
        }
        assert forall|a: int, b: int| 0 <= a < t.len() && 0 <= b < t.len() && a != b implies t[a]
            != t[b] by {
            let sa = if a < p { a } else { a + 1 };
            let sb = if b < p { b } else { b + 1 };
            assert(t[a] == s[sa] && t[b] == s[sb]);
        }
        lemma_distinct_below(t, n - 1);
    } else {
        lemma_distinct_below(s, n - 1);
    }
}

/// State of the walk over the subtree: `order` lists distinct positions of
/// `rows`, exactly the marked ones, each after the root a child of an earlier
/// one; the children of the first `done` rows of `order` are all marked.
#[verifier::opaque]
spec fn walk_inv(rows: Seq<Category>, marked: Seq<bool>, order: Seq<usize>, done: int) -> bool {
    &&& marked.len() == rows.len()
    &&& order.len() >= 1
    &&& order.no_duplicates()
    &&& forall|k: int| 0 <= k < order.len() ==> order[k] < rows.len()
    &&& forall|k: int| 0 <= k < order.len() ==> marked[#[trigger] order[k] as int]
    &&& forall|p: int|
        0 <= p < rows.len() && #[trigger] marked[p] ==> exists|k: int|
            0 <= k < order.len() && order[k] == p
    &&& forall|k: int|
        0 < k < order.len() ==> exists|j: int|
            0 <= j < k && is_child_of(rows[#[trigger] order[k] as int], rows[order[j] as int].id)
    &&& forall|p: int, j: int|
        0 <= p < rows.len() && 0 <= j < done && is_child_of(
            #[trigger] rows[p],
            rows[#[trigger] order[j] as int].id,
        ) ==> marked[p]
}

/// Marks the unmarked children of the row at `order[i]` and appends them to
/// `order`.
#[verifier::rlimit(60)]
fn mark_children(rows: &Vec<Category>, i: usize, marked: &mut Vec<bool>, order: &mut Vec<usize>)
    requires
        walk_inv(rows@, old(marked)@, old(order)@, i as int),
        i < old(order)@.len(),
    ensures
        walk_inv(rows@, final(marked)@, final(order)@, i + 1),
        final(order)@.len() >= old(order)@.len(),
        final(order)@.subrange(0, old(order)@.len() as int) == old(order)@,
{
    proof {
        reveal(walk_inv);
    }
    let ghost start = order@;
    let n = rows.len();
    let pid = rows[order[i]].id;
    let mut p: usize = 0;
    while p < n
        invariant
            n == rows@.len(),
            p <= n,
            i < start.len(),
            order@.len() >= start.len(),
            order@.subrange(0, start.len() as int) == start,
            pid == rows@[order@[i as int] as int].id,
            walk_inv(rows@, marked@, order@, i as int),
            forall|q: int| 0 <= q < p && is_child_of(rows@[q], pid) ==> #[trigger] marked@[q],
        decreases n - p,
    {
        proof {
            reveal(walk_inv);
        }
        if rows[p].parent_category_id == Some(pid) && !marked[p] {
            let ghost old_order = order@;
            marked.set(p, true);
            order.push(p);
            assert(order@[order@.len() - 1] == p);
            assert(order@.subrange(0, start.len() as int) =~= start) by {
                assert forall|k: int| 0 <= k < start.len() implies order@[k] == start[k] by {
                    assert(old_order.subrange(0, start.len() as int)[k] == start[k]);
                }
            }
            assert forall|k: int| 0 <= k < order@.len() implies marked@[
                #[trigger] order@[k] as int] by {
                if k < old_order.len() {
                    assert(order@[k] == old_order[k]);
                }
            }
            assert forall|k: int|
                0 < k < order@.len() implies exists|j: int|
                    0 <= j < k && is_child_of(
                        rows@[#[trigger] order@[k] as int],
                        rows@[order@[j] as int].id,
                    ) by {
                if k < old_order.len() {
                    assert(order@[k] == old_order[k]);
                    let j = choose|j: int|
                        0 <= j < k && is_child_of(
                            rows@[old_order[k] as int],
                            rows@[old_order[j] as int].id,
                        );
                    assert(order@[j] == old_order[j]);
                } else {
                    assert(order@[i as int] == old_order[i as int]);
                }
            }
            assert forall|q: int| 0 <= q < n && #[trigger] marked@[q] implies exists|k: int|
                0 <= k < order@.len() && order@[k] == q by {
                if q != p {
                    let k = choose|k: int| 0 <= k < old_order.len() && old_order[k] == q;
                    assert(order@[k] == q);
                } else {
                    assert(order@[order@.len() - 1] == q);
                }
            }
            assert forall|a: int, b: int|
                0 <= a < order@.len() && 0 <= b < order@.len() && a != b implies order@[a]
                != order@[b] by {
                if a < old_order.len() && b < old_order.len() {
                    assert(order@[a] == old_order[a] && order@[b] == old_order[b]);
                } else if a < old_order.len() {
                    assert(order@[a] == old_order[a]);
                    assert(marked@[order@[a] as int]);
                } else if b < old_order.len() {
                    assert(order@[b] == old_order[b]);
                }
            }
            assert forall|q: int, j: int|
                0 <= q < n && 0 <= j < i && is_child_of(
                    #[trigger] rows@[q],
                    rows@[#[trigger] order@[j] as int].id,
                ) implies marked@[q] by {
                assert(order@[j] == old_order[j]);
            }
            assert(walk_inv(rows@, marked@, order@, i as int));
        }
        p = p + 1;
    }
    assert(walk_inv(rows@, marked@, order@, i + 1));
}

/// `c` is an unmarked row of `rows`.
spec fn is_unmarked_row(rows: Seq<Category>, marked: Seq<bool>, c: Category) -> bool {
    exists|q: int| 0 <= q < rows.len() && c == rows[q] && !marked[q]
}

/// Copies, in order, of the rows that are not marked; `dels` lists exactly
/// the marked rows' ids.
fn keep_unmarked(rows: &Vec<Category>, marked: &Vec<bool>, dels: Ghost<Seq<Category>>) -> (r: Vec<
    Category,
>)
    requires
        marked@.len() == rows@.len(),
        ids_unique(rows@),
        forall|q: int|
            0 <= q < rows@.len() ==> (is_deleted(dels@, #[trigger] rows@[q].id) <==> marked@[q]),
    ensures
        r@ == rows@.filter(|c: Category| !is_deleted(dels@, c.id)),
        ids_unique(r@),
        forall|m: int| 0 <= m < r@.len() ==> is_unmarked_row(rows@, marked@, #[trigger] r@[m]),
{
    let ghost d = dels@;
    let ghost pred = |c: Category| !is_deleted(d, c.id);
    let n = rows.len();
    let mut kept: Vec<Category> = Vec::new();
    let ghost mut src: Seq<int> = Seq::empty();
    let mut p: usize = 0;
    while p < n
        invariant
            n == rows@.len(),
            p <= n,
            marked@.len() == n,
            ids_unique(rows@),
            forall|q: int| 0 <= q < n ==> (is_deleted(dels@, #[trigger] rows@[q].id) <==> marked@[q]),
            d == dels@,
            pred == (|c: Category| !is_deleted(d, c.id)),
            kept@ == rows@.subrange(0, p as int).filter(pred),
            src.len() == kept@.len(),
            forall|m: int|
                0 <= m < kept@.len() ==> 0 <= #[trigger] src[m] < p && kept@[m] == rows@[src[m]]
                    && !marked@[src[m]],
            forall|a: int, b: int| 0 <= a < b < kept@.len() ==> src[a] < src[b],
        decreases n - p,
    {
        let ghost prefix = rows@.subrange(0, p as int);
        assert(rows@.subrange(0, p + 1) =~= prefix.push(rows@[p as int]));
        assert(prefix.push(rows@[p as int]).drop_last() =~= prefix);
        proof {
            reveal(Seq::filter);
        }
        assert(is_deleted(d, rows@[p as int].id) <==> marked@[p as int]);
        assert(pred(rows@[p as int]) == !is_deleted(d, rows@[p as int].id));
        if !marked[p] {
            kept.push(rows[p].copy());
            proof {
                src = src.push(p as int);
            }
        }
        p = p + 1;
    }
    assert(rows@.subrange(0, n as int) =~= rows@);
    assert forall|a: int, b: int| 0 <= a < b < kept@.len() implies kept@[a].id != kept@[b].id by {
        assert(src[a] < src[b]);
        assert(kept@[a] == rows@[src[a]] && kept@[b] == rows@[src[b]]);
    }
    assert forall|m: int| 0 <= m < kept@.len() implies is_unmarked_row(
        rows@,
        marked@,
        #[trigger] kept@[m],
    ) by {
        assert(0 <= src[m] < n && kept@[m] == rows@[src[m]] && !marked@[src[m]]);
    }
    kept
}

/// Some row has the name and parent of `c`, parents compared like SQL values.
pub open spec fn name_taken(rows: Seq<Category>, c: Category) -> bool {
    exists|i: int|
        0 <= i < rows.len() && rows[i].name@ == c.name@ && c.parent_category_id is Some
            && rows[i].parent_category_id == c.parent_category_id
}

/// The category table.
pub struct CategoryTable {
    pub rows: Vec<Category>,
    /// The id the next inserted category receives.
    pub next_id: i32,
}

impl CategoryTable {
    /// Ids are unique and below `next_id`.
    pub open spec fn wf(&self) -> bool {
        &&& ids_unique(self.rows@)
        &&& forall|i: int| 0 <= i < self.rows@.len() ==> self.rows@[i].id < self.next_id
        &&& self.next_id >= 1
    }

    pub fn new() -> (r: CategoryTable)
        ensures
            r.wf(),
            r.rows@.len() == 0,
    {
        CategoryTable { rows: Vec::new(), next_id: 1 }
    }

    /// Copies of the rows whose parent is `parent`, in table order.
    fn children(&self, parent: i32) -> (r: Vec<Category>)
        ensures
            r@ == children_of(self.rows@, parent),
    {
        let mut r: Vec<Category> = Vec::new();
        let mut i: usize = 0;
        while i < self.rows.len()
            invariant
                i <= self.rows@.len(),
                r@ == children_of(self.rows@.subrange(0, i as int), parent),
            decreases self.rows@.len() - i,
        {
            let ghost prefix = self.rows@.subrange(0, i as int);
            assert(self.rows@.subrange(0, i + 1) =~= prefix.push(self.rows@[i as int]));
            assert(prefix.push(self.rows@[i as int]).drop_last() =~= prefix);
            proof {
                reveal(Seq::filter);
            }
            if self.rows[i].parent_category_id == Some(parent) {
                r.push(self.rows[i].copy());
            }
            i = i + 1;
        }
        assert(self.rows@.subrange(0, self.rows@.len() as int) =~= self.rows@);
        r
    }

    /// The direct children of the category the filter names. An absent id
    /// compares like SQL `NULL` and selects no row.
    pub fn sub_categories(&self, filter: SubCategoryFilter) -> (r: Vec<Category>)
        ensures
            filter.id matches Some(id) ==> r@ == children_of(self.rows@, id),
            filter.id is None ==> r@.len() == 0,
    {
        match filter.id {
            Some(id) => self.children(id),
            None => Vec::new(),
        }
    }

    /// Position of the row with id `id`, if any.
    fn position(&self, id: i32) -> (r: Option<usize>)
        ensures
            r matches Some(i) ==> i < self.rows@.len() && self.rows@[i as int].id == id,
            r is None ==> !has_id(self.rows@, id),
    {
        let mut i: usize = 0;
        while i < self.rows.len()
            invariant
                i <= self.rows@.len(),
                forall|k: int| 0 <= k < i ==> self.rows@[k].id != id,
            decreases self.rows@.len() - i,
        {
            if self.rows[i].id == id {
                return Some(i);
            }
            i = i + 1;
        }
        None
    }

    /// Deletes the category the parameters name. Without cascade, a category
    /// that still has children is kept and its children are returned as
    /// `Referenced`; with cascade, its whole subtree goes. `NotFound` when no
    /// category has that id.
    pub fn delete_category(&mut self, params: DeleteEntityParams) -> (r: DeleteEntityResult<
        Category,
    >)
        requires
            old(self).wf(),
        ensures
            final(self).wf(),
            final(self).next_id == old(self).next_id,
            params.cascade == Some(true) ==> {
                &&& !has_id(old(self).rows@, params.id) ==> r is NotFound && final(self).rows@ == old(
                    self,
                ).rows@
                &&& has_id(old(self).rows@, params.id) ==> r is Deleted && exists|del: Seq<
                    Category,
                >| is_cascade_removal(old(self).rows@, final(self).rows@, del, params.id)
            },
            params.cascade != Some(true) ==> {
                let children = children_of(old(self).rows@, params.id);
                &&& children.len() > 0 ==> (r matches DeleteEntityResult::Referenced(c) && c@
                    == children) && final(self).rows@ == old(self).rows@
                &&& children.len() == 0 && !has_id(old(self).rows@, params.id) ==> r is NotFound
                    && final(self).rows@ == old(self).rows@
                &&& children.len() == 0 && has_id(old(self).rows@, params.id) ==> r is Deleted
                    && exists|i: int|
                    0 <= i < old(self).rows@.len() && old(self).rows@[i].id == params.id
                        && final(self).rows@ == old(self).rows@.remove(i)
            },
    {
        if params.is_cascade() {
            let del = self.delete_category_with_dependencies(params.id);
            if del.len() > 0 {
                DeleteEntityResult::Deleted
            } else {
                DeleteEntityResult::NotFound
            }
        } else {
            let children = self.children(params.id);
            if children.len() > 0 {
                return DeleteEntityResult::Referenced(children);
            }
            match self.position(params.id) {
                None => DeleteEntityResult::NotFound,
                Some(i) => {
                    let ghost before = self.rows@;
                    self.rows.remove(i);
                    assert forall|a: int, b: int|
                        0 <= a < b < self.rows@.len() implies self.rows@[a].id
                        != self.rows@[b].id by {
                        let sa = if a < i { a } else { a + 1 };
                        let sb = if b < i { b } else { b + 1 };
                        assert(self.rows@[a] == before[sa] && self.rows@[b] == before[sb]);
                    }
                    assert forall|k: int| 0 <= k < self.rows@.len() implies self.rows@[k].id
                        < self.next_id by {
                        let sk = if k < i { k } else { k + 1 };
                        assert(self.rows@[k] == before[sk]);
                    }
                    DeleteEntityResult::Deleted
                },
            }
        }
    }

    /// Some row has the name and parent of `category`. Parents compare like
    /// SQL values: an absent parent equals nothing, so a top-level category
    /// never counts as existing.
    pub fn already_exists(&self, category: &Category) -> (r: bool)
        ensures
            r == name_taken(self.rows@, *category),
    {
        if category.parent_category_id.is_none() {
            return false;
        }
        let mut i: usize = 0;
        while i < self.rows.len()
            invariant
                i <= self.rows@.len(),
                category.parent_category_id is Some,
                forall|k: int|
                    0 <= k < i ==> !(self.rows@[k].name@ == category.name@
                        && self.rows@[k].parent_category_id == category.parent_category_id),
            decreases self.rows@.len() - i,
        {
            if self.rows[i].name == category.name && self.rows[i].parent_category_id
                == category.parent_category_id {
                return true;
            }
            i = i + 1;
        }
        false
    }

    /// Stores `category` under the next free id, keeping its name and parent
    /// and clearing its timestamps, and returns the stored row.
    pub fn insert(&mut self, category: Category) -> (r: Category)
        requires
            old(self).wf(),
            old(self).next_id < i32::MAX,
        ensures
            final(self).wf(),
            r.id == old(self).next_id,
            r.name == category.name,
            r.parent_category_id == category.parent_category_id,
            final(self).next_id == old(self).next_id + 1,
            final(self).rows@ == old(self).rows@.push(r),
    {
        let row = Category {
            id: self.next_id,
            name: category.name,
            parent_category_id: category.parent_category_id,
            updated_at: None,
            created_at: None,
        };
        let r = row.copy();
        self.rows.push(row);
        self.next_id = self.next_id + 1;
        r
    }

    /// Creates `category` unless `already_exists` finds one with its name and parent.
    pub fn create_category(&mut self, category: Category) -> (r: CreateEntityResult<Category>)
        requires
            old(self).wf(),
            old(self).next_id < i32::MAX,
        ensures
            final(self).wf(),
            name_taken(old(self).rows@, category) ==> r is Exists && *final(self) == *old(self),
            !name_taken(old(self).rows@, category) ==> (r matches CreateEntityResult::Created(c)
                && c.id == old(self).next_id && c.name == category.name && c.parent_category_id
                == category.parent_category_id && final(self).rows@ == old(self).rows@.push(c)
                && final(self).next_id == old(self).next_id + 1),
    {
        if self.already_exists(&category) {
            return CreateEntityResult::Exists;
        }
        CreateEntityResult::Created(self.insert(category))
    }

    /// Gives the category with the id of `category` its name and parent, and
    /// returns the updated row; `None` when no category has that id.
    pub fn update_category(&mut self, category: Category) -> (r: Option<Category>)
        requires
            old(self).wf(),
        ensures
            final(self).wf(),
            final(self).next_id == old(self).next_id,
            !has_id(old(self).rows@, category.id) ==> r is None && final(self).rows@ == old(
                self,
            ).rows@,
            has_id(old(self).rows@, category.id) ==> exists|i: int|
                0 <= i < old(self).rows@.len() && old(self).rows@[i].id == category.id && r
                    == Some(final(self).rows@[i]) && final(self).rows@ == old(self).rows@.update(
                    i,
                    Category {
                        name: category.name,
                        parent_category_id: category.parent_category_id,
                        ..old(self).rows@[i]
                    },
                ),
    {
        match self.position(category.id) {
            None => None,
            Some(i) => {
                let old_row = self.rows[i].copy();
                let row = Category {
                    id: old_row.id,
                    name: category.name,
                    parent_category_id: category.parent_category_id,
                    updated_at: old_row.updated_at,
                    created_at: old_row.created_at,
                };
                let r = row.copy();
                self.rows.set(i, row);
                Some(r)
            },
        }
    }

    /// Deletes category `category_id` and every category below it, children
    /// before their parents, and returns the deleted rows in the order of
    /// deletion. An unknown id deletes nothing. The walk keeps a mark per row,
    /// so it ends even where parent links form a cycle.
    pub fn delete_category_with_dependencies(&mut self, category_id: i32) -> (r: Vec<Category>)
        requires
            old(self).wf(),
        ensures
            final(self).wf(),
            final(self).next_id == old(self).next_id,
            !has_id(old(self).rows@, category_id) ==> r@.len() == 0 && final(self).rows@ == old(
                self,
            ).rows@,
            has_id(old(self).rows@, category_id) ==> is_cascade_removal(
                old(self).rows@,
                final(self).rows@,
                r@,
                category_id,
            ),
    {
        let root = match self.position(category_id) {
            None => return Vec::new(),
            Some(p) => p,
        };
        let n = self.rows.len();
        let ghost rows = self.rows@;
        let mut marked: Vec<bool> = Vec::new();
        while marked.len() < n
            invariant
                marked@.len() <= n,
                forall|p: int| 0 <= p < marked@.len() ==> !marked@[p],
            decreases n - marked@.len(),
        {
            marked.push(false);
        }
        marked.set(root, true);
        let mut order: Vec<usize> = Vec::new();
        order.push(root);
        assert(order@[0] == root);
        proof {
            reveal(walk_inv);
            assert forall|q: int| 0 <= q < n && #[trigger] marked@[q] implies exists|k: int|
                0 <= k < order@.len() && order@[k] == q by {
                assert(order@[0] == q);
            }
        }
        let mut i: usize = 0;
        while i < order.len()
            invariant
                self.rows@ == rows,
                n == rows.len(),
                root < n,
                rows[root as int].id == category_id,
                order@.len() >= 1,
                order@[0] == root,
                i <= order@.len(),
                walk_inv(rows, marked@, order@, i as int),
            decreases n - i,
        {
            proof {
                reveal(walk_inv);
                lemma_distinct_below(order@, n as int);
            }
            let ghost before = order@;
            mark_children(&self.rows, i, &mut marked, &mut order);
            assert(order@[0] == before[0]);
            i = i + 1;
        }
        proof {
            reveal(walk_inv);
        }
        // The deleted rows, last discovered first.
        let mut del: Vec<Category> = Vec::new();
        let mut k: usize = order.len();
        while k > 0
            invariant
                self.rows@ == rows,
                k <= order@.len(),
                del@.len() == order@.len() - k,
                forall|t: int| 0 <= t < order@.len() ==> order@[t] < rows.len(),
                forall|t: int|
                    0 <= t < del@.len() ==> #[trigger] del@[t] == rows[order@[order@.len() - 1
                        - t] as int],
            decreases k,
        {
            k = k - 1;
            del.push(self.rows[order[k]].copy());
        }
        let ghost dels = del@;
        let ghost len = order@.len() as int;
        assert(forall|t: int| 0 <= t < len ==> #[trigger] dels[t] == rows[order@[len - 1 - t] as int]);
        // A row is deleted exactly when it was marked.
        assert forall|q: int| 0 <= q < n implies (is_deleted(dels, #[trigger] rows[q].id) <==> marked@[q]) by {
            if marked@[q] {
                let k = choose|k: int| 0 <= k < order@.len() && order@[k] == q;
                assert(dels[len - 1 - k] == rows[q]);
            }
            if is_deleted(dels, rows[q].id) {
                let t = choose|t: int| 0 <= t < dels.len() && dels[t].id == rows[q].id;
                assert(dels[t] == rows[order@[len - 1 - t] as int]);
                assert(marked@[order@[len - 1 - t] as int]);
            }
        }
        let kept = keep_unmarked(&self.rows, &marked, Ghost(dels));
        proof {
            lemma_distinct_below(order@, n as int);
            // Each deleted row is a row of the table; the ids are distinct.
            assert forall|t: int| 0 <= t < dels.len() implies rows.contains(#[trigger] dels[t]) by {
                assert(dels[t] == rows[order@[len - 1 - t] as int]);
            }
            assert forall|a: int, b: int| 0 <= a < b < dels.len() implies dels[a].id
                != dels[b].id by {
                assert(dels[a] == rows[order@[len - 1 - a] as int]);
                assert(dels[b] == rows[order@[len - 1 - b] as int]);
            }
            assert(dels[len - 1] == rows[order@[0] as int]);
            assert forall|t: int| 0 <= t < dels.len() - 1 implies #[trigger] parent_deleted_after(
                dels,
                t,
            ) by {
                let k = len - 1 - t;
                assert(dels[t] == rows[order@[k] as int]);
                let j = choose|j: int|
                    0 <= j < k && is_child_of(rows[order@[k] as int], rows[order@[j] as int].id);
                assert(dels[len - 1 - j] == rows[order@[j] as int]);
            }
            assert forall|m: int, t: int|
                0 <= m < kept@.len() && 0 <= t < dels.len() implies !is_child_of(
                #[trigger] kept@[m],
                #[trigger] dels[t].id,
            ) by {
                let q = choose|q: int| 0 <= q < n && kept@[m] == rows[q] && !marked@[q];
                assert(is_unmarked_row(rows, marked@, kept@[m]));
                let k = len - 1 - t;
                assert(dels[t] == rows[order@[k] as int]);
                if is_child_of(rows[q], rows[order@[k] as int].id) {
                    assert(marked@[q]);
                }
            }
            assert forall|m: int| 0 <= m < kept@.len() implies kept@[m].id < self.next_id by {
                assert(is_unmarked_row(rows, marked@, kept@[m]));
            }
        }
        self.rows = kept;
        del
    }
}

} // verus!
