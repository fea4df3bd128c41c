use mediavault::config::{join_path, parse_bool, parse_u64, Config};
use mediavault::error::AppError;
use mediavault::util::sha256_hex;

fn env(pairs: &[(&str, &str)]) -> Vec<(String, String)> {
    pairs.iter().map(|(k, v)| (k.to_string(), v.to_string())).collect()
}

const SECRET: &str = "0123456789abcdef0123456789abcdef";

fn config_message(e: AppError) -> String {
    match e {
        AppError::Config(m) => m,
        other => panic!("expected a configuration error, got {:?}", other),
    }
}

#[test]
fn from_env_defaults() {
    let c = Config::from_env(&env(&[("SESSION_SECRET", SECRET)])).unwrap();
    assert_eq!(c.bind_addr, "127.0.0.1:8080");
    assert_eq!(c.database_url, "sqlite:./app.sqlite");
    assert_eq!(c.storage_root, "./data");
    assert_eq!(c.public_base_url, "http://127.0.0.1:8080");
    assert_eq!(c.session_secret, SECRET);
    assert!(!c.cookie_secure);
    assert_eq!(c.max_upload_bytes, 100 * 1024 * 1024);
    assert!(c.web_dist.is_none());
    assert!(c.bootstrap_admin_email.is_none());
}

#[test]
fn from_env_reads_and_trims_values() {
    let c = Config::from_env(&env(&[
        ("SESSION_SECRET", "  0123456789abcdef0123456789abcdef  "),
        ("BIND_ADDR", " 0.0.0.0:9000 "),
        ("PUBLIC_BASE_URL", "https://media.example"),
        ("MAX_UPLOAD_BYTES", "+2048"),
        ("WEB_DIST", "/srv/web"),
        ("BOOTSTRAP_ADMIN_EMAIL", " root@example.org "),
        ("BOOTSTRAP_ADMIN_PASSWORD", "0123456789"),
    ]))
    .unwrap();
    assert_eq!(c.bind_addr, "0.0.0.0:9000");
    assert_eq!(c.session_secret, SECRET);
    assert!(c.cookie_secure);
    assert_eq!(c.max_upload_bytes, 2048);
    assert_eq!(c.web_dist.as_deref(), Some("/srv/web"));
    let (email, password) = c.bootstrap_admin().unwrap();
    assert_eq!(email, "root@example.org");
    assert_eq!(password, "0123456789");
}

#[test]
fn from_env_errors() {
    assert_eq!(config_message(Config::from_env(&env(&[])).unwrap_err()), "SESSION_SECRET required");
    assert_eq!(
        config_message(Config::from_env(&env(&[("SESSION_SECRET", "short")])).unwrap_err()),
        "SESSION_SECRET must be at least 32 chars"
    );
    assert_eq!(
        config_message(
            Config::from_env(&env(&[("SESSION_SECRET", SECRET), ("COOKIE_SECURE", "maybe")])).unwrap_err()
        ),
        "COOKIE_SECURE invalid"
    );
    assert_eq!(
        config_message(
            Config::from_env(&env(&[("SESSION_SECRET", SECRET), ("MAX_UPLOAD_BYTES", "-1")])).unwrap_err()
        ),
        "MAX_UPLOAD_BYTES invalid"
    );
}

#[test]
fn cookie_secure_setting_overrides_url() {
    let c = Config::from_env(&env(&[
        ("SESSION_SECRET", SECRET),
        ("PUBLIC_BASE_URL", "https://x"),
        ("COOKIE_SECURE", "off"),
    ]))
    .unwrap();
    assert!(!c.cookie_secure);
}

#[test]
fn parse_bool_words() {
    for w in ["1", "true", "YES", " y ", "On"] {
        assert_eq!(parse_bool(w), Some(true), "{w}");
    }
    for w in ["0", "False", "no", "N", " off"] {
        assert_eq!(parse_bool(w), Some(false), "{w}");
    }
    assert_eq!(parse_bool("2"), None);
    assert_eq!(parse_bool(""), None);
}

#[test]
fn parse_u64_like_std() {
    for s in ["0", "42", "+7", "18446744073709551615", "", "+", "-1", "18446744073709551616", "1a", " 1"] {
        assert_eq!(parse_u64(s), s.parse::<u64>().ok(), "{s:?}");
    }
}

#[test]
fn storage_paths() {
    let mut c = Config::from_env(&env(&[("SESSION_SECRET", SECRET)])).unwrap();
    assert_eq!(c.storage_objects_dir(), "./data/objects");
    assert_eq!(c.storage_tmp_dir(), "./data/tmp");
    c.storage_root = "/var/lib/mv/".to_string();
    assert_eq!(c.storage_objects_dir(), "/var/lib/mv/objects");
    assert_eq!(c.storage_object_full_path("/abs"), "/abs");
    assert_eq!(join_path("", "x"), "x");
}

#[test]
fn object_path_of_digest() {
    let c = Config::from_env(&env(&[("SESSION_SECRET", SECRET)])).unwrap();
    let h = sha256_hex(b"abc");
    let rel = c.object_rel_path(&h);
    assert_eq!(rel, format!("objects/ba/{}/{}", &h[2..], h));
    assert!(Config::validate_rel_path(&rel).is_ok());
    let full = c.storage_object_full_path(&rel);
    assert!(full.starts_with(&c.storage_objects_dir()));
}

#[test]
fn object_path_splits_at_second_byte() {
    let c = Config::from_env(&env(&[("SESSION_SECRET", SECRET)])).unwrap();
    assert_eq!(c.object_rel_path("éx"), "objects/é/x/éx");
    assert_eq!(c.object_rel_path("ab"), "objects/ab//ab");
}

#[test]
fn rel_path_rules() {
    for bad in ["", "/etc/passwd", "a\\b", "objects/../x", ".."] {
        assert!(matches!(Config::validate_rel_path(bad), Err(AppError::BadRequest(_))), "{bad}");
    }
    assert!(Config::validate_rel_path("objects/ab/cd/abcd").is_ok());
    assert!(Config::validate_rel_path("a.b/c").is_ok());
}

#[test]
fn distinct_digests_distinct_paths() {
    let c = Config::from_env(&env(&[("SESSION_SECRET", SECRET)])).unwrap();
    let a = sha256_hex(b"one");
    let b = sha256_hex(b"two");
    assert_ne!(c.object_rel_path(&a), c.object_rel_path(&b));
    assert_eq!(c.object_rel_path(&a), c.object_rel_path(&sha256_hex(b"one")));
}
