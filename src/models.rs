use vstd::prelude::*;

verus! {

/// Outcome of creating an entity.
#[derive(Debug, Clone)]
pub enum CreateEntityResult<T> {
    Created(T),
    Exists,
}

/// Parameters of a request to delete an entity.
#[derive(Debug, Clone, PartialEq, Eq, Structural)]
pub struct DeleteEntityParams {
    pub id: i32,
    pub cascade: Option<bool>,
}

impl DeleteEntityParams {
    /// Whether the request asks for a cascading delete; absent means no.
    pub fn is_cascade(&self) -> (r: bool)
        ensures
            r == (self.cascade == Some(true)),
    {
        match self.cascade {
            Some(c) => c,
            None => false,
        }
    }
}

/// Outcome of deleting an entity.
#[derive(Debug, Clone)]
pub enum DeleteEntityResult<T> {
    Deleted,
    NotFound,
    /// Nothing was deleted: these entities still refer to the target.
    Referenced(Vec<T>),
}

/// Direction of an ordering.
#[derive(Debug, Clone, Copy, PartialEq, Eq, Structural)]
pub enum Order {
    Ascending,
    Descending,
}

/// Search, ordering and paging of a listing request.
#[derive(Debug, Clone)]
pub struct RequestFilter<T> {
    pub query: Option<String>,
    pub order_by: Option<T>,
    pub order: Option<Order>,
    pub page: Option<i64>,
    pub limit: Option<i64>,
}

/// Selects the direct children of a category.
#[derive(Debug, Clone, Copy, Default, PartialEq, Eq, Structural)]
pub struct SubCategoryFilter {
    pub id: Option<i32>,
}

/// Columns a category listing can be ordered by.
#[derive(Debug, Clone, Copy, PartialEq, Eq, Structural)]
pub enum CategoryColumns {
    Id,
    Name,
    ParentCategoryId,
    UpdatedAt,
    CreatedAt,
}

/// Columns a permission listing can be ordered by.
#[derive(Debug, Clone, Copy, PartialEq, Eq, Structural)]
pub enum PermissionColumns {
    Id,
    Name,
    Group,
    Description,
    UpdatedAt,
    CreatedAt,
}

/// Columns a user listing can be ordered by.
#[derive(Debug, Clone, Copy, PartialEq, Eq, Structural)]
pub enum UserColumns {
    Id,
    Email,
    Password,
    FirstName,
    LastName,
    Activated,
    UpdatedAt,
    CreatedAt,
}

/// Columns a project listing can be ordered by.
#[derive(Debug, Clone, Copy, PartialEq, Eq, Structural)]
pub enum ProjectColumns {
    Id,
    Name,
    CategoryId,
    OwnerId,
    CreatorId,
    UpdatedAt,
    CreatedAt,
}

/// Copy of an optional string.
pub fn copy_opt_string(s: &Option<String>) -> (r: Option<String>)
    ensures
        r == *s,
{
    match s {
        Some(v) => Some(v.clone()),
        None => None,
    }
}

} // verus!
