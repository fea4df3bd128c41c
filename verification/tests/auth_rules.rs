use mediavault::auth::{
    authenticate, build_clear_cookie, build_session_cookie, extract_session_token, hash_password,
    prepare_new_user, require_admin, require_csrf, session_from_row, session_token_hash,
    verify_password, AuthSession, User,
};
use mediavault::error::AppError;

fn session(role: &str, csrf: &str) -> AuthSession {
    AuthSession {
        user: User { id: "u1".to_string(), email: "a@b.c".to_string(), role: role.to_string() },
        csrf_token: csrf.to_string(),
    }
}

#[test]
fn hashed_password_verifies() {
    let h = hash_password("correct horse battery").unwrap();
    assert!(h.starts_with("$argon2"));
    assert_eq!(verify_password("correct horse battery", &h).unwrap(), true);
    assert_eq!(verify_password("wrong password!!", &h).unwrap(), false);
}

#[test]
fn hash_password_refuses_short_password() {
    assert!(matches!(hash_password("short"), Err(AppError::BadRequest(_))));
}

#[test]
fn verify_password_with_garbage_hash_is_internal() {
    assert!(matches!(verify_password("whatever123", "not a hash"), Err(AppError::Internal)));
}

#[test]
fn authenticate_outcomes() {
    let h = hash_password("0123456789ab").unwrap();
    assert_eq!(authenticate("0123456789ab", Some(("id7".to_string(), h.clone()))).unwrap(), "id7");
    assert!(matches!(authenticate("0123456789xx", Some(("id7".to_string(), h))), Err(AppError::Unauthorized)));
    assert!(matches!(authenticate("0123456789ab", None), Err(AppError::Unauthorized)));
    assert!(matches!(
        authenticate("0123456789ab", Some(("id7".to_string(), "junk".to_string()))),
        Err(AppError::Internal)
    ));
}

#[test]
fn session_token_hash_known_value() {
    assert_eq!(
        session_token_hash("0123456789abcdef0123456789abcdef", "tok123"),
        "3ce5521764c564cbbe58ea32b2daaef19612d872fbf0c3bab92ff3e3ce0fecc1"
    );
}

#[test]
fn cookie_header_finds_session_token() {
    assert_eq!(extract_session_token("mv_session=abc").as_deref(), Some("abc"));
    assert_eq!(extract_session_token("theme=dark; mv_session = xyz ; other=1").as_deref(), Some("xyz"));
    assert_eq!(extract_session_token("a=b;mv_session=v=w").as_deref(), Some("v=w"));
    assert_eq!(extract_session_token("mv_session_x=1; foo"), None);
    assert_eq!(extract_session_token(""), None);
    assert_eq!(extract_session_token("mv_session=first; mv_session=second").as_deref(), Some("first"));
}

#[test]
fn cookie_roundtrip_with_built_cookie() {
    let c = build_session_cookie("deadbeef", true);
    let header = format!("{}={}", c.name, c.value);
    assert_eq!(extract_session_token(&header).as_deref(), Some("deadbeef"));
}

#[test]
fn session_cookie_attributes() {
    let c = build_session_cookie("tok", false);
    assert_eq!(c.name, "mv_session");
    assert_eq!(c.value, "tok");
    assert!(c.http_only && c.same_site_lax && !c.secure && !c.removal);
    assert_eq!(c.path, "/");
    assert_eq!(c.max_age_days, Some(30));
    let d = build_clear_cookie(true);
    assert_eq!(d.name, "mv_session");
    assert_eq!(d.value, "");
    assert!(d.secure && d.removal && d.max_age_days.is_none());
}

#[test]
fn csrf_rules() {
    let s = session("user", "tok");
    assert!(require_csrf("GET", None, &s).is_ok());
    assert!(require_csrf("HEAD", None, &s).is_ok());
    assert!(require_csrf("OPTIONS", Some("x"), &s).is_ok());
    assert!(require_csrf("TRACE", None, &s).is_ok());
    assert!(require_csrf("POST", Some("tok"), &s).is_ok());
    assert!(matches!(require_csrf("POST", Some("other"), &s), Err(AppError::Forbidden)));
    assert!(matches!(require_csrf("DELETE", None, &s), Err(AppError::Forbidden)));
    let empty = session("user", "");
    assert!(matches!(require_csrf("PUT", Some(""), &empty), Err(AppError::Forbidden)));
    assert!(matches!(require_csrf("get", None, &s), Err(AppError::Forbidden)));
}

#[test]
fn admin_rule() {
    assert!(require_admin(&session("admin", "t")).is_ok());
    assert!(matches!(require_admin(&session("user", "t")), Err(AppError::Forbidden)));
    assert!(matches!(require_admin(&session("Admin", "t")), Err(AppError::Forbidden)));
}

#[test]
fn session_row_rules() {
    let row = Some(("tok".to_string(), "u9".to_string(), "e@x.y".to_string(), "user".to_string()));
    let s = session_from_row(row.clone(), "POST", Some("tok")).unwrap();
    assert_eq!(s.user.id, "u9");
    assert_eq!(s.user.email, "e@x.y");
    assert_eq!(s.csrf_token, "tok");
    assert!(matches!(session_from_row(row, "POST", None), Err(AppError::Forbidden)));
    assert!(matches!(session_from_row(None, "GET", None), Err(AppError::Unauthorized)));
}

#[test]
fn new_user_rules() {
    let admin = session("admin", "t");
    let (email, role) = prepare_new_user(&admin, " new@x.org ", "0123456789", None).unwrap();
    assert_eq!(email, "new@x.org");
    assert_eq!(role, "user");
    let (_, role) = prepare_new_user(&admin, "new@x.org", "0123456789", Some("admin".to_string())).unwrap();
    assert_eq!(role, "admin");
    match prepare_new_user(&admin, "new@x.org", "0123456789", Some("root".to_string())) {
        Err(AppError::BadRequest(m)) => assert_eq!(m, "invalid role"),
        _ => panic!("expected invalid role"),
    }
    assert!(matches!(
        prepare_new_user(&session("user", "t"), "new@x.org", "0123456789", None),
        Err(AppError::Forbidden)
    ));
}

#[test]
fn acceptable_passwords_always_hash() {
    for p in ["0123456789", &"x".repeat(200), "ÿÿÿÿÿ ÿÿÿÿÿ"] {
        let h = hash_password(p).unwrap();
        assert_eq!(verify_password(p, &h).unwrap(), true);
    }
}

#[test]
fn non_phc_strings_are_internal_errors() {
    for h in ["", "plain", "argon2id$v=19"] {
        assert!(matches!(verify_password("0123456789", h), Err(AppError::Internal)));
    }
}
