use goodshop::config::{
    database_url, dev_mode, dev_mode_from, payment_secret, same_text, sqlite_file_path,
    StartupError, DEFAULT_DATABASE_URL,
};

#[test]
fn database_url_defaults() {
    assert_eq!(database_url(None), "sqlite://./db/shop.db");
    assert_eq!(DEFAULT_DATABASE_URL, "sqlite://./db/shop.db");
    assert_eq!(database_url(Some("sqlite://x.db".to_string())), "sqlite://x.db");
}

#[test]
fn missing_payment_secret_stops_startup() {
    assert_eq!(payment_secret(None), Err(StartupError::MissingPaymentSecret));
    assert_eq!(payment_secret(Some("SECRET-REDACTED".to_string())), Ok("SECRET-REDACTED".to_string()));
}

#[test]
fn dev_mode_settings() {
    assert!(!dev_mode(None));
    assert!(dev_mode(Some("1".to_string())));
    assert!(dev_mode(Some("true".to_string())));
    assert!(dev_mode(Some("TRUE".to_string())));
    assert!(dev_mode(Some("True".to_string())));
    assert!(!dev_mode(Some("yes".to_string())));
    assert!(!dev_mode(Some("0".to_string())));
    assert!(!dev_mode(Some("".to_string())));
}

#[test]
fn dev_mode_from_lowered_text() {
    assert!(dev_mode_from("TRUE", "true"));
    assert!(!dev_mode_from("TRUE", "TRUE"));
    assert!(dev_mode_from("1", "1"));
}

#[test]
fn same_text_compares_characters() {
    assert!(same_text("abc", "abc"));
    assert!(!same_text("abc", "abd"));
    assert!(!same_text("abc", "ab"));
    assert!(same_text("", ""));
}

#[test]
fn sqlite_path_strips_the_scheme() {
    assert_eq!(sqlite_file_path("sqlite://./db/shop.db"), Some("./db/shop.db".to_string()));
    assert_eq!(sqlite_file_path("sqlite://"), Some(String::new()));
    assert_eq!(sqlite_file_path("postgres://db"), None);
    assert_eq!(sqlite_file_path("sqlite:/"), None);
}
