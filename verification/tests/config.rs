use event_service::config::COOKIE_NAME;
use event_service::config::ConfigError;
use event_service::config::DbConfig;
use event_service::config::EVENT_QUERY;
use event_service::config::MIN_SIGNING_KEY_LEN;
use event_service::config::POOL_CAPACITY;
use event_service::config::SERVER_ADDR;
use event_service::config::ServerConfig;

fn all_values() -> (Option<String>, Option<String>, Option<String>, Option<String>) {
    (
        Some("db.internal".to_string()),
        Some("svc".to_string()),
        Some("hunter2".to_string()),
        Some("events".to_string()),
    )
}

#[test]
fn config_assembles_when_all_present() {
    let (h, u, p, d) = all_values();
    let cfg = DbConfig::from_env_values(h, u, p, d).unwrap();
    assert_eq!(cfg.host, "db.internal");
    assert_eq!(cfg.user, "svc");
    assert_eq!(cfg.password, "hunter2");
    assert_eq!(cfg.dbname, "events");
}

#[test]
fn config_missing_host_fails_fast() {
    let (_, u, p, d) = all_values();
    let err = DbConfig::from_env_values(None, u, p, d).unwrap_err();
    assert_eq!(err, ConfigError::MissingHost);
}

#[test]
fn config_missing_user_fails_fast() {
    let (h, _, p, d) = all_values();
    let err = DbConfig::from_env_values(h, None, p, d).unwrap_err();
    assert_eq!(err, ConfigError::MissingUser);
}

#[test]
fn config_missing_password_fails_fast() {
    let (h, u, _, d) = all_values();
    let err = DbConfig::from_env_values(h, u, None, d).unwrap_err();
    assert_eq!(err, ConfigError::MissingPassword);
}

#[test]
fn config_missing_dbname_fails_fast() {
    let (h, u, p, _) = all_values();
    let err = DbConfig::from_env_values(h, u, p, None).unwrap_err();
    assert_eq!(err, ConfigError::MissingDbName);
}

#[test]
fn server_config_rejects_short_signing_key() {
    let (h, u, p, d) = all_values();
    let db = DbConfig::from_env_values(h, u, p, d).unwrap();
    let err = ServerConfig::new(db, vec![7u8; MIN_SIGNING_KEY_LEN - 1]).unwrap_err();
    assert_eq!(err, ConfigError::ShortSigningKey);
}

#[test]
fn server_config_accepts_long_enough_key() {
    let (h, u, p, d) = all_values();
    let db = DbConfig::from_env_values(h, u, p, d).unwrap();
    let cfg = ServerConfig::new(db, vec![7u8; MIN_SIGNING_KEY_LEN]).unwrap();
    assert_eq!(cfg.signing_key.len(), MIN_SIGNING_KEY_LEN);
    assert_eq!(cfg.db.host, "db.internal");
}

#[test]
fn fixed_service_constants() {
    assert_eq!(POOL_CAPACITY, 16);
    assert_eq!(EVENT_QUERY, "SELECT id, title FROM event");
    assert_eq!(COOKIE_NAME, "auth-example");
    assert_eq!(SERVER_ADDR, "127.0.0.1:8080");
}
