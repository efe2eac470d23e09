use vstd::prelude::*;

verus! {

/// Where the database is and how to log in to it.
#[derive(Debug, Clone, PartialEq, Eq)]
pub struct Database {
    pub user: String,
    pub password: String,
    pub host: String,
    pub port: u16,
    pub database: String,
}

/// Where uploaded files go.
#[derive(Debug, Clone, PartialEq, Eq)]
pub struct Storage {
    pub images: String,
}

/// Where the API listens.
#[derive(Debug, Clone, PartialEq, Eq)]
pub struct ApiServer {
    pub address: String,
    pub port: u16,
}

/// Settings of the server: token secrets (distinct, so that one leaking
/// does not expose the other) and lifetimes (seconds), the root
/// account, the database, storage and the listening address.
#[derive(Debug, Clone, PartialEq, Eq)]
pub struct Config {
    pub access_token_secret: String,
    pub refresh_token_secret: String,
    pub access_token_expiration_time: u32,
    pub refresh_token_expiration_time: u32,
    pub root_user_email: String,
    pub root_user_password: String,
    pub database: Database,
    pub storage: Storage,
    pub server: ApiServer,
}

/// Default lifetime of an access token, in seconds.
pub const DEFAULT_ACCESS_TTL: u32 = 3600;

/// Default lifetime of a refresh token, in seconds.
pub const DEFAULT_REFRESH_TTL: u32 = 31536000;

/// `c` holds the default settings.
pub open spec fn is_default_config(c: Config) -> bool {
    &&& c.access_token_expiration_time == DEFAULT_ACCESS_TTL
    &&& c.refresh_token_expiration_time == DEFAULT_REFRESH_TTL
    &&& c.access_token_secret@ == "access-secret"@
    &&& c.refresh_token_secret@ == "refresh-secret"@
    &&& c.root_user_email@ == "root@taskrs.com"@
    &&& c.root_user_password@ == "root"@
    &&& c.database.user@ == "postgres"@
    &&& c.database.password@ == "password"@
    &&& c.database.host@ == "localhost"@
    &&& c.database.port == 5432
    &&& c.database.database@ == "taskrs"@
    &&& c.storage.images@ == "storage/images"@
    &&& c.server.address@ == "0.0.0.0"@
    &&& c.server.port == 8080
}

impl Config {
    /// The settings before any file or environment overrides them.
    pub fn new() -> (r: Config)
        ensures
            is_default_config(r),
            r.access_token_expiration_time == DEFAULT_ACCESS_TTL,
            r.refresh_token_expiration_time == DEFAULT_REFRESH_TTL,
            r.access_token_secret@ == "access-secret"@,
            r.refresh_token_secret@ == "refresh-secret"@,
            r.root_user_email@ == "root@taskrs.com"@,
            r.root_user_password@ == "root"@,
            r.database.user@ == "postgres"@,
            r.database.password@ == "password"@,
            r.database.host@ == "localhost"@,
            r.database.port == 5432,
            r.database.database@ == "taskrs"@,
            r.storage.images@ == "storage/images"@,
            r.server.address@ == "0.0.0.0"@,
            r.server.port == 8080,
    {
        Config {
            access_token_secret: "access-secret".to_string(),
            refresh_token_secret: "refresh-secret".to_string(),
            access_token_expiration_time: DEFAULT_ACCESS_TTL,
            refresh_token_expiration_time: DEFAULT_REFRESH_TTL,
            root_user_email: "root@taskrs.com".to_string(),
            root_user_password: "root".to_string(),
            database: Database {
                user: "postgres".to_string(),
                password: "password".to_string(),
                host: "localhost".to_string(),
                port: 5432,
                database: "taskrs".to_string(),
            },
            storage: Storage { images: "storage/images".to_string() },
            server: ApiServer { address: "0.0.0.0".to_string(), port: 8080 },
        }
    }
}

impl Default for Config {
    fn default() -> (r: Config)
        ensures
            is_default_config(r),
    {
        Config::new()
    }
}

} // verus!
