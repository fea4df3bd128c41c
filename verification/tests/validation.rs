use mediavault::auth::validate_credentials;
use mediavault::error::AppError;
use mediavault::routes::tags::{album_name, tag_name};
use mediavault::text::trim_str;
use mediavault::util::{safe_filename, validate_email, validate_password};

fn bad_request_message(e: AppError) -> String {
    match e {
        AppError::BadRequest(m) => m,
        other => panic!("expected a bad request, got {:?}", other),
    }
}

#[test]
fn email_accepts_trimmed_address() {
    assert!(validate_email("  a@b  ").is_ok());
    assert!(validate_email("user@example.com").is_ok());
}

#[test]
fn email_refuses_short_or_without_at() {
    assert_eq!(bad_request_message(validate_email("ab").unwrap_err()), "invalid email");
    assert_eq!(bad_request_message(validate_email("   a@   ").unwrap_err()), "invalid email");
    assert_eq!(bad_request_message(validate_email("userexample.com").unwrap_err()), "invalid email");
    let long = format!("{}@x.org", "a".repeat(250));
    assert!(validate_email(&long).is_err());
    let edge = format!("{}@b", "a".repeat(252));
    assert_eq!(edge.len(), 254);
    assert!(validate_email(&edge).is_ok());
}

#[test]
fn email_length_counts_bytes() {
    // "é" takes two bytes: one such character and "@" make three bytes.
    assert!(validate_email("é@").is_ok());
    assert!(validate_email("e@").is_err());
}

#[test]
fn password_length_bounds() {
    assert!(validate_password("0123456789").is_ok());
    assert_eq!(bad_request_message(validate_password("012345678").unwrap_err()), "password too short");
    assert!(validate_password(&"x".repeat(200)).is_ok());
    assert!(validate_password(&"x".repeat(201)).is_err());
    // Surrounding spaces count: the password is not trimmed.
    assert!(validate_password("  abcdefgh").is_ok());
}

#[test]
fn credentials_check_email_first() {
    assert!(validate_credentials("a@b.c", "0123456789").is_ok());
    assert_eq!(bad_request_message(validate_credentials("bad", "short").unwrap_err()), "invalid email");
    assert_eq!(
        bad_request_message(validate_credentials("a@b.c", "short").unwrap_err()),
        "password too short"
    );
}

#[test]
fn safe_filename_replaces_unsafe_characters() {
    assert_eq!(safe_filename("a\"b\\c\nd\re.txt"), "a_b_c_d_e.txt");
    assert_eq!(safe_filename("photo.jpg"), "photo.jpg");
}

#[test]
fn safe_filename_defaults_and_truncates() {
    assert_eq!(safe_filename(""), "file");
    let long = "я".repeat(200);
    let kept = safe_filename(&long);
    assert_eq!(kept.chars().count(), 180);
    assert_eq!(safe_filename(&kept), kept);
}

#[test]
fn safe_filename_is_idempotent_on_examples() {
    for name in ["", "a\"b", "x\r\ny", "plain.png"] {
        let once = safe_filename(name);
        assert_eq!(safe_filename(&once), once);
    }
}

#[test]
fn tag_and_album_names() {
    assert_eq!(tag_name("  holiday ").unwrap(), "holiday");
    assert_eq!(bad_request_message(tag_name("   ").unwrap_err()), "invalid tag name");
    assert!(tag_name(&"t".repeat(40)).is_ok());
    assert!(tag_name(&"t".repeat(41)).is_err());
    assert_eq!(album_name(" Summer 2024 ").unwrap(), "Summer 2024");
    assert!(album_name(&"a".repeat(80)).is_ok());
    assert_eq!(bad_request_message(album_name(&"a".repeat(81)).unwrap_err()), "invalid album name");
}

#[test]
fn trimming_twice_changes_nothing() {
    for s in ["  a b  ", "\u{3000}x\t", "", "   ", "no-space"] {
        let once = trim_str(s);
        assert_eq!(trim_str(&once), once);
        assert_eq!(once, s.trim());
    }
}
