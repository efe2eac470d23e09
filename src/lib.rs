//! Core logic of a multi-tenant task-management backend: token claims and
//! their validation, the permission store with its per-user cache and the
//! authorization checks built on it, windowed pagination, and deletion in
//! the category hierarchy.

mod auth;
mod catalog;
mod categories;
mod config;
mod middleware;
mod models;
mod pagination;
mod permissions;
mod token;
mod users;

pub use auth::{
    generate_tokens, keeps_row, lemma_generated_access_verifies, refresh_token, refresh_token_row, rotation_outcome,
    row_with_token, AuthRefreshToken, RefreshTokenStore,
};
pub use catalog::{all_permissions, catalog_names};
pub use categories::{
    children_of, has_id, ids_unique, is_cascade_removal, is_child_of, is_deleted,
    lemma_chain_cascade_order, name_taken,
    parent_deleted_after, Category, CategoryTable,
};
pub use config::{
    is_default_config, ApiServer, Config, Database, Storage, DEFAULT_ACCESS_TTL,
    DEFAULT_REFRESH_TTL,
};
pub use middleware::{
    bearer_token, has_bearer_prefix, is_white_space, trim_end, trim_of, trim_start, Authentication, AuthenticationMiddleware,
};
pub use models::{
    copy_opt_string, CategoryColumns, CreateEntityResult, DeleteEntityParams, DeleteEntityResult,
    Order, PermissionColumns, ProjectColumns, RequestFilter, SubCategoryFilter, UserColumns,
};
pub use pagination::{
    ceil_div, concat_pages, effective_size, is_loaded_page, lemma_pages_reassemble, load_error,
    page_items, LoadPaginated, PageError, Paginate, Paginated, PaginationPage, DEFAULT_PAGE_SIZE,
};
pub use permissions::{
    canonical_for, check_allows, is_in_line, is_kept_or_new, names_unique, grant_permissions, granted_names, has_all_permissions,
    has_one_permission, has_permission, has_permission_id, is_coherent, is_grant_result,
    is_granted, is_set_result, keeps, lemma_grant_then_check_allows, lemma_set_none_denies,
    lists_all, lists_name, lists_one, name_of, pairs_unique, reconciled, revoke_permissions,
    set_permissions, update_permission_cache_for_user, update_permissions, AuthorizationError,
    ChangePermissionResult, NewUserPermission, Permission, PermissionCache, PermissionStore,
    StoreError, UserPermission, UserPermissionsDto,
};
pub use token::{
    access_outcome, expiry, is_unexpired, lemma_expired_fails, lemma_issue_then_verify,
    verify_access, TokenError, TokenUser, UserRefreshToken, UserToken, UserTokensDto,
};
pub use users::{
    accept_login, argon2_checks, argon2_hash, argon2_verifies, default_bool, has_user_id, login, token_user_of,
    user_with_email, HashError, SimpleUser, User, UserStore, MAX_PASSWORD_BYTES,
};
