use taskrs::{Category, CategoryTable, CreateEntityResult, DeleteEntityParams, DeleteEntityResult, SubCategoryFilter};

fn cat(name: &str, parent: Option<i32>) -> Category {
    Category { id: 0, name: name.to_string(), parent_category_id: parent, updated_at: None, created_at: None }
}

fn created(r: CreateEntityResult<Category>) -> Category {
    match r {
        CreateEntityResult::Created(c) => c,
        CreateEntityResult::Exists => panic!("category exists"),
    }
}

/// A → B → C plus an unrelated D.
fn chain() -> (CategoryTable, i32, i32, i32, i32) {
    let mut t = CategoryTable::new();
    let a = created(t.create_category(cat("A", None))).id;
    let b = created(t.create_category(cat("B", Some(a)))).id;
    let c = created(t.create_category(cat("C", Some(b)))).id;
    let d = created(t.create_category(cat("D", None))).id;
    (t, a, b, c, d)
}

#[test]
fn delete_without_cascade_reports_children() {
    let (mut t, a, b, _, _) = chain();
    match t.delete_category(DeleteEntityParams { id: a, cascade: Some(false) }) {
        DeleteEntityResult::Referenced(children) => {
            assert_eq!(children.len(), 1);
            assert_eq!(children[0].id, b);
        }
        _ => panic!("expected Referenced"),
    }
    assert_eq!(t.rows.len(), 4);
    match t.delete_category(DeleteEntityParams { id: a, cascade: None }) {
        DeleteEntityResult::Referenced(children) => assert_eq!(children[0].id, b),
        _ => panic!("expected Referenced"),
    }
}

#[test]
fn cascade_deletes_leaf_first_then_not_found() {
    let (mut t, a, b, c, d) = chain();
    let deleted = t.delete_category_with_dependencies(a);
    let ids: Vec<i32> = deleted.iter().map(|x| x.id).collect();
    assert_eq!(ids, vec![c, b, a]);
    assert_eq!(t.rows.len(), 1);
    assert_eq!(t.rows[0].id, d);
    assert!(matches!(
        t.delete_category(DeleteEntityParams { id: a, cascade: Some(true) }),
        DeleteEntityResult::NotFound
    ));
}

#[test]
fn cascade_delete_through_params() {
    let (mut t, a, _, _, d) = chain();
    assert!(matches!(
        t.delete_category(DeleteEntityParams { id: a, cascade: Some(true) }),
        DeleteEntityResult::Deleted
    ));
    let left: Vec<i32> = t.rows.iter().map(|x| x.id).collect();
    assert_eq!(left, vec![d]);
}

#[test]
fn delete_leaf_without_cascade() {
    let (mut t, a, b, c, d) = chain();
    assert!(matches!(t.delete_category(DeleteEntityParams { id: c, cascade: None }), DeleteEntityResult::Deleted));
    let left: Vec<i32> = t.rows.iter().map(|x| x.id).collect();
    assert_eq!(left, vec![a, b, d]);
    assert!(matches!(t.delete_category(DeleteEntityParams { id: 99, cascade: None }), DeleteEntityResult::NotFound));
}

#[test]
fn cascade_stops_on_a_parent_cycle() {
    let mut t = CategoryTable::new();
    t.rows.push(Category { id: 1, name: "x".to_string(), parent_category_id: Some(2), updated_at: None, created_at: None });
    t.rows.push(Category { id: 2, name: "y".to_string(), parent_category_id: Some(1), updated_at: None, created_at: None });
    t.rows.push(Category { id: 3, name: "z".to_string(), parent_category_id: None, updated_at: None, created_at: None });
    t.next_id = 4;
    let deleted = t.delete_category_with_dependencies(1);
    let ids: Vec<i32> = deleted.iter().map(|x| x.id).collect();
    assert_eq!(ids, vec![2, 1]);
    assert_eq!(t.rows.len(), 1);
}

#[test]
fn create_reports_existing_name_under_same_parent() {
    let (mut t, a, _, _, _) = chain();
    assert!(matches!(t.create_category(cat("B", Some(a))), CreateEntityResult::Exists));
    let e = created(t.create_category(cat("E", Some(a))));
    assert_eq!(e.id, 5);
    assert_eq!(e.parent_category_id, Some(a));
    // An absent parent compares like SQL NULL: never equal.
    assert!(matches!(t.create_category(cat("A", None)), CreateEntityResult::Created(_)));
}

#[test]
fn sub_categories_and_update() {
    let (mut t, a, b, c, _) = chain();
    let subs = t.sub_categories(SubCategoryFilter { id: Some(a) });
    assert_eq!(subs.len(), 1);
    assert_eq!(subs[0].id, b);
    assert!(t.sub_categories(SubCategoryFilter { id: None }).is_empty());
    let updated = t.update_category(Category { id: c, name: "C2".to_string(), parent_category_id: Some(a), updated_at: None, created_at: None }).unwrap();
    assert_eq!(updated.name, "C2");
    assert_eq!(updated.parent_category_id, Some(a));
    assert_eq!(t.sub_categories(SubCategoryFilter { id: Some(a) }).len(), 2);
    assert!(t.update_category(cat("none", None)).is_none());
}
