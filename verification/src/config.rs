//! Startup configuration: the four database settings read from the process
//! environment, the cookie-signing secret, and the fixed service constants.
//!
//! The process reads the raw environment at startup and hands the values
//! here as options; a missing value is a startup-time fatal error, reported
//! precisely. The signing secret is a required input as well — never a
//! literal in the code — and must be long enough to sign cookies with.

use vstd::prelude::*;

verus! {

/// Fixed upper bound on simultaneously open database connections.
pub const POOL_CAPACITY: usize = 16;

/// The one statement the service issues.
pub const EVENT_QUERY: &'static str = "SELECT id, title FROM event";

/// The name of the signed identity cookie.
pub const COOKIE_NAME: &'static str = "auth-example";

/// Where the listener binds.
pub const SERVER_ADDR: &'static str = "127.0.0.1:8080";

/// The fewest bytes accepted for the cookie-signing secret: what the cookie
/// signer requires of a master key.
pub const MIN_SIGNING_KEY_LEN: usize = 64;

/// Which required setting was unusable at startup.
#[derive(Clone, Copy, Debug, PartialEq, Eq, Structural)]
pub enum ConfigError {
    MissingHost,
    MissingUser,
    MissingPassword,
    MissingDbName,
    ShortSigningKey,
}

/// How to reach the database: the four required settings, verbatim.
#[derive(Debug)]
pub struct DbConfig {
    pub host: String,
    pub user: String,
    pub password: String,
    pub dbname: String,
}

impl DbConfig {
    /// Assembles the database settings from the raw environment values, in
    /// the order host, user, password, database name; the first missing one
    /// is the error. Nothing is defaulted and nothing is validated beyond
    /// presence.
    pub fn from_env_values(
        host: Option<String>,
        user: Option<String>,
        password: Option<String>,
        dbname: Option<String>,
    ) -> (r: Result<DbConfig, ConfigError>)
        ensures
            host is None ==> r == Result::<DbConfig, ConfigError>::Err(ConfigError::MissingHost),
            host is Some && user is None ==> r == Result::<DbConfig, ConfigError>::Err(
                ConfigError::MissingUser,
            ),
            host is Some && user is Some && password is None ==> r == Result::<
                DbConfig,
                ConfigError,
            >::Err(ConfigError::MissingPassword),
            host is Some && user is Some && password is Some && dbname is None ==> r == Result::<
                DbConfig,
                ConfigError,
            >::Err(ConfigError::MissingDbName),
            host is Some && user is Some && password is Some && dbname is Some ==> {
                &&& r is Ok
                &&& r->Ok_0.host@ == host->0@
                &&& r->Ok_0.user@ == user->0@
                &&& r->Ok_0.password@ == password->0@
                &&& r->Ok_0.dbname@ == dbname->0@
            },
    {
        let host = match host {
            Option::Some(v) => v,
            Option::None => {
                return Err(ConfigError::MissingHost);
            },
        };
        let user = match user {
            Option::Some(v) => v,
            Option::None => {
                return Err(ConfigError::MissingUser);
            },
        };
        let password = match password {
            Option::Some(v) => v,
            Option::None => {
                return Err(ConfigError::MissingPassword);
            },
        };
        let dbname = match dbname {
            Option::Some(v) => v,
            Option::None => {
                return Err(ConfigError::MissingDbName);
            },
        };
        Ok(DbConfig { host, user, password, dbname })
    }
}

/// Everything the process needs to serve: the database settings and an
/// externally supplied cookie-signing secret of at least
/// [`MIN_SIGNING_KEY_LEN`] bytes.
#[derive(Debug)]
pub struct ServerConfig {
    pub db: DbConfig,
    pub signing_key: Vec<u8>,
}

impl ServerConfig {
    /// The configuration invariant: the signing secret is long enough.
    pub open spec fn well_formed(&self) -> bool {
        self.signing_key@.len() >= MIN_SIGNING_KEY_LEN
    }

    /// Accepts a configuration only with a usable signing secret; a shorter
    /// secret is a startup-time error.
    pub fn new(db: DbConfig, signing_key: Vec<u8>) -> (r: Result<ServerConfig, ConfigError>)
        ensures
            r is Ok <==> signing_key@.len() >= MIN_SIGNING_KEY_LEN,
            r is Ok ==> {
                &&& r->Ok_0.well_formed()
                &&& r->Ok_0.signing_key@ == signing_key@
                &&& r->Ok_0.db.host@ == db.host@
                &&& r->Ok_0.db.user@ == db.user@
                &&& r->Ok_0.db.password@ == db.password@
                &&& r->Ok_0.db.dbname@ == db.dbname@
            },
            r is Err ==> r->Err_0 == ConfigError::ShortSigningKey,
    {
        if signing_key.len() < MIN_SIGNING_KEY_LEN {
            return Err(ConfigError::ShortSigningKey);
        }
        Ok(ServerConfig { db, signing_key })
    }
}

} // verus!
