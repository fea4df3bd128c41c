use mediavault::error::AppError;
use mediavault::hex::hex_encode;
use mediavault::http::{attachment_headers, cors_policy, is_valid_header_value, CorsPolicy};
use mediavault::routes::admin::audit_limit;
use mediavault::routes::dupes::{check_dupes_apply, dupes_audit_meta, group_file_ids};
use mediavault::routes::files::{
    is_upload_field, missing_upload_field, plan_file_list, upload_file_name, upload_mime, ListQuery,
    SqlArg, UploadStream,
};
use mediavault::routes::share::{
    check_public_token, open_share_link, share_lifetime, share_link_expired, share_url,
    validate_share_kind, ShareKind,
};
use mediavault::util::{random_token_hex, sha256_hex, sha256_hex_str};

fn query() -> ListQuery {
    ListQuery { q: None, mime_prefix: None, page: None, per_page: None, include_deleted: None }
}

fn text(a: &SqlArg) -> &str {
    match a {
        SqlArg::Text(s) => s,
        SqlArg::Int(_) => panic!("expected text"),
    }
}

fn int_arg(a: &SqlArg) -> i64 {
    match a {
        SqlArg::Int(n) => *n,
        SqlArg::Text(_) => panic!("expected integer"),
    }
}

#[test]
fn digests_known_values() {
    assert_eq!(sha256_hex(b""), "e3b0c44298fc1c149afbf4c8996fb92427ae41e4649b934ca495991b7852b855");
    assert_eq!(sha256_hex_str("abc"), "ba7816bf8f01cfea414140de5dae2223b00361a396177a9cb410ff61f20015ad");
    assert_eq!(hex_encode(&[0x00, 0x0f, 0xa5, 0xff]), "000fa5ff");
}

#[test]
fn random_tokens_have_hex_shape() {
    let t = random_token_hex(32);
    assert_eq!(t.len(), 64);
    assert!(t.chars().all(|c| c.is_ascii_digit() || ('a'..='f').contains(&c)));
    assert_ne!(random_token_hex(32), t);
    assert_eq!(random_token_hex(0), "");
}

#[test]
fn upload_stream_matches_one_shot_digest() {
    let mut s = UploadStream::new(100);
    s.feed(b"hello ").unwrap();
    s.feed(b"world").unwrap();
    assert_eq!(s.size(), 11);
    assert_eq!(s.finish(), sha256_hex(b"hello world"));
}

#[test]
fn upload_stream_refuses_past_limit() {
    let mut s = UploadStream::new(8);
    s.feed(b"hello").unwrap();
    assert!(matches!(s.feed(b"world"), Err(AppError::PayloadTooLarge)));
    assert_eq!(s.size(), 5);
    s.feed(b"!!!").unwrap();
    assert_eq!(s.finish(), sha256_hex(b"hello!!!"));
}

#[test]
fn upload_name_and_mime() {
    assert_eq!(upload_file_name(None), "file");
    assert_eq!(upload_file_name(Some("a\"b.png")), "a_b.png");
    assert_eq!(upload_mime(Some("text/plain"), "x.jpg"), "text/plain");
    assert_eq!(upload_mime(None, "x.jpg"), "image/jpeg");
    assert_eq!(upload_mime(None, "noext"), "application/octet-stream");
}

#[test]
fn file_list_default_plan() {
    let p = plan_file_list(&query());
    assert_eq!(
        p.sql,
        "SELECT id, original_name, mime, size_bytes, sha256, created_at, deleted_at FROM files WHERE deleted_at IS NULL ORDER BY created_at DESC LIMIT ? OFFSET ?"
    );
    assert_eq!(p.args.len(), 2);
    assert_eq!(int_arg(&p.args[0]), 50);
    assert_eq!(int_arg(&p.args[1]), 0);
}

#[test]
fn file_list_full_plan() {
    let q = ListQuery {
        q: Some(" 50% off ".to_string()),
        mime_prefix: Some("image/%".to_string()),
        page: Some(3),
        per_page: Some(500),
        include_deleted: Some(true),
    };
    let p = plan_file_list(&q);
    assert_eq!(
        p.sql,
        "SELECT id, original_name, mime, size_bytes, sha256, created_at, deleted_at FROM files WHERE original_name LIKE ? AND mime LIKE ? ORDER BY created_at DESC LIMIT ? OFFSET ?"
    );
    assert_eq!(text(&p.args[0]), "%50 off%");
    assert_eq!(text(&p.args[1]), "image/%");
    assert_eq!(int_arg(&p.args[2]), 200);
    assert_eq!(int_arg(&p.args[3]), 400);
}

#[test]
fn file_list_page_bounds() {
    let q = ListQuery { page: Some(0), per_page: Some(0), q: Some("   ".to_string()), ..query() };
    let p = plan_file_list(&q);
    assert_eq!(p.args.len(), 2);
    assert_eq!(int_arg(&p.args[0]), 1);
    assert_eq!(int_arg(&p.args[1]), 0);
}

#[test]
fn header_values_and_downloads() {
    assert!(is_valid_header_value("image/png"));
    assert!(is_valid_header_value("tab\there é"));
    assert!(!is_valid_header_value("bad\u{1}"));
    assert!(!is_valid_header_value("del\u{7f}"));
    let (ct, disp) = attachment_headers("photo\".jpg", "image/jpeg").unwrap();
    assert_eq!(ct, "image/jpeg");
    assert_eq!(disp, "attachment; filename=\"photo_.jpg\"");
    let (ct, _) = attachment_headers("x", "bad\nmime").unwrap();
    assert_eq!(ct, "application/octet-stream");
    assert!(matches!(attachment_headers("a\u{1}b", "text/plain"), Err(AppError::Internal)));
}

#[test]
fn cors_policies() {
    assert!(matches!(cors_policy(""), CorsPolicy::LocalDev));
    assert!(matches!(cors_policy("  "), CorsPolicy::LocalDev));
    assert!(matches!(cors_policy(" * "), CorsPolicy::AnyOrigin));
    assert!(matches!(cors_policy(" , ,"), CorsPolicy::LocalDev));
    match cors_policy("https://a.example, ,https://b.example,bad\u{1}") {
        CorsPolicy::Origins(v) => assert_eq!(v, vec!["https://a.example", "https://b.example"]),
        _ => panic!("expected origins"),
    }
}

#[test]
fn share_kinds_and_lifetimes() {
    assert_eq!(validate_share_kind(" file ").unwrap(), ShareKind::File);
    assert_eq!(validate_share_kind("album").unwrap(), ShareKind::Album);
    assert!(matches!(validate_share_kind("folder"), Err(AppError::BadRequest(_))));
    assert_eq!(share_lifetime(Some(60)), Some(60));
    assert_eq!(share_lifetime(Some(0)), None);
    assert_eq!(share_lifetime(Some(-5)), None);
    assert_eq!(share_lifetime(None), None);
}

#[test]
fn share_urls() {
    assert_eq!(share_url("https://m.example//", "abc"), "https://m.example/s/abc");
    assert_eq!(share_url("http://h:8080", "t"), "http://h:8080/s/t");
    assert_eq!(share_url("", "t"), "/s/t");
}

#[test]
fn public_token_lengths() {
    assert!(matches!(check_public_token(&"a".repeat(15)), Err(AppError::NotFound)));
    assert!(check_public_token(&"a".repeat(16)).is_ok());
    assert!(check_public_token(&"a".repeat(256)).is_ok());
    assert!(check_public_token(&"a".repeat(257)).is_err());
}

#[test]
fn share_expiry() {
    let now = "2024-05-01T10:00:00Z";
    assert!(share_link_expired(Some("2024-05-01T10:00:00Z"), now));
    assert!(share_link_expired(Some("2024-04-30T23:59:59Z"), now));
    assert!(!share_link_expired(Some("2024-05-01T10:00:01Z"), now));
    assert!(!share_link_expired(None, now));
    let row = Some(("s1".to_string(), "file".to_string(), Some("2030-01-01T00:00:00Z".to_string())));
    assert_eq!(open_share_link(row, now).unwrap(), ("s1".to_string(), ShareKind::File));
    let row = Some(("s2".to_string(), "album".to_string(), None));
    assert_eq!(open_share_link(row, now).unwrap(), ("s2".to_string(), ShareKind::Album));
    let row = Some(("s3".to_string(), "file".to_string(), Some("2020-01-01T00:00:00Z".to_string())));
    assert!(matches!(open_share_link(row, now), Err(AppError::NotFound)));
    assert!(matches!(open_share_link(None, now), Err(AppError::NotFound)));
}

#[test]
fn dupes_rules() {
    assert_eq!(group_file_ids("a, b,,c ,"), vec!["a", "b", "c"]);
    let keep = Some("h1".to_string());
    assert!(check_dupes_apply(keep.clone(), &vec![Some("h1".to_string())]).is_ok());
    match check_dupes_apply(keep.clone(), &vec![]) {
        Err(AppError::BadRequest(m)) => assert_eq!(m, "delete_file_ids empty"),
        _ => panic!("expected empty list error"),
    }
    assert!(matches!(check_dupes_apply(None, &vec![Some("h1".to_string())]), Err(AppError::NotFound)));
    assert!(matches!(
        check_dupes_apply(keep.clone(), &vec![Some("h1".to_string()), None, Some("h2".to_string())]),
        Err(AppError::NotFound)
    ));
    match check_dupes_apply(keep, &vec![Some("h2".to_string()), None]) {
        Err(AppError::BadRequest(m)) => assert_eq!(m, "files must have same sha256"),
        _ => panic!("expected mismatch"),
    }
    assert_eq!(
        dupes_audit_meta(&vec!["x".to_string(), "y\"z".to_string()]),
        "{\"deleted\":[\"x\",\"y\\\"z\"]}"
    );
}

#[test]
fn audit_limits() {
    assert_eq!(audit_limit(None), 200);
    assert_eq!(audit_limit(Some(0)), 1);
    assert_eq!(audit_limit(Some(5000)), 1000);
    assert_eq!(audit_limit(Some(17)), 17);
}

#[test]
fn upload_field_choice() {
    assert!(is_upload_field(Some("file")));
    assert!(!is_upload_field(Some("files")));
    assert!(!is_upload_field(Some("File")));
    assert!(!is_upload_field(None));
    match missing_upload_field() {
        AppError::BadRequest(m) => assert_eq!(m, "file field missing"),
        other => panic!("unexpected {:?}", other),
    }
}
