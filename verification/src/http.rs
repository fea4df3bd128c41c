//! HTTP-facing rules: which strings may be header values, the headers of a file
//! download, and the cross-origin policy.

use vstd::prelude::*;
use vstd::utf8::encode_utf8;
use crate::error::AppError;
use crate::text::{
    append_str, split_trimmed, split_trimmed_nonempty, str_eq, strings_view, trim, trim_str,
};
use crate::util::{safe_filename, safe_filename_spec};

verus! {

/// A byte that an HTTP header value may hold: a tab, or anything from space up but DEL.
pub open spec fn header_byte_ok(b: u8) -> bool {
    (b >= 32 && b != 127) || b == 9
}

/// `s` may be an HTTP header value: every byte of its UTF-8 encoding is allowed
/// (what `HeaderValue::from_str` checks).
pub open spec fn valid_header_value(s: Seq<char>) -> bool {
    forall|i: int| 0 <= i < encode_utf8(s).len() ==> header_byte_ok(#[trigger] encode_utf8(s)[i])
}

/// The `Content-Disposition` of a download: an attachment under the sanitised name.
pub open spec fn content_disposition_spec(name: Seq<char>) -> Seq<char> {
    "attachment; filename=\""@ + safe_filename_spec(name) + "\""@
}

/// The `Content-Type` of a download: the stored type when it is a valid header value,
/// else `application/octet-stream`.
pub open spec fn content_type_spec(mime: Seq<char>) -> Seq<char> {
    if valid_header_value(mime) {
        mime
    } else {
        "application/octet-stream"@
    }
}

/// Whether `s` may be an HTTP header value.
pub fn is_valid_header_value(s: &str) -> (r: bool)
    ensures
        r == valid_header_value(s@),
{
    broadcast use vstd::slice::group_slice_axioms;

    let b = s.as_bytes();
    let mut i: usize = 0;
    while i < b.len()
        invariant
            0 <= i <= b.len(),
            b@ == encode_utf8(s@),
            forall|j: int| 0 <= j < i ==> header_byte_ok(#[trigger] b@[j]),
        decreases b.len() - i,
    {
        let x = b[i];
        if !((x >= 32 && x != 127) || x == 9) {
            assert(!header_byte_ok(encode_utf8(s@)[i as int]));
            return false;
        }
        i = i + 1;
    }
    true
}

/// The `Content-Type` and `Content-Disposition` of a file download. A disposition
/// that cannot be a header value (the name holds other control characters) is an
/// internal error.
pub fn attachment_headers(name: &str, mime: &str) -> (r: Result<(String, String), AppError>)
    ensures
        r is Ok <==> valid_header_value(content_disposition_spec(name@)),
        r matches Ok(h) ==> h.0@ == content_type_spec(mime@) && h.1@ == content_disposition_spec(
            name@,
        ),
        r matches Err(e) ==> e is Internal,
{
    let content_type = if is_valid_header_value(mime) {
        mime.to_owned()
    } else {
        "application/octet-stream".to_owned()
    };
    let mut disposition = "attachment; filename=\"".to_owned();
    let safe = safe_filename(name);
    append_str(&mut disposition, safe.as_str());
    append_str(&mut disposition, "\"");
    if !is_valid_header_value(disposition.as_str()) {
        return Err(AppError::Internal);
    }
    Ok((content_type, disposition))
}

/// Which origins may call the API from a browser.
#[derive(Debug)]
pub enum CorsPolicy {
    /// The local development front end, with credentials.
    LocalDev,
    /// Any origin, any header, any method, without credentials.
    AnyOrigin,
    /// The listed origins, with credentials.
    Origins(Vec<String>),
}

/// The pieces that may be header values, in order.
pub open spec fn header_values_only(s: Seq<Seq<char>>) -> Seq<Seq<char>>
    decreases s.len(),
{
    if s.len() == 0 {
        s
    } else {
        let r = header_values_only(s.drop_last());
        if valid_header_value(s.last()) {
            r.push(s.last())
        } else {
            r
        }
    }
}

/// The origins that a `CORS_ALLOW_ORIGIN` value lists: its comma-separated, trimmed,
/// non-empty pieces that may be header values.
pub open spec fn listed_origins(allow_origin: Seq<char>) -> Seq<Seq<char>> {
    header_values_only(split_trimmed(trim(allow_origin), ','))
}

/// The policy that a `CORS_ALLOW_ORIGIN` value sets: the local front end when it is
/// empty or lists no usable origin, any origin for `*`, else the listed origins.
pub open spec fn cors_policy_matches(allow_origin: Seq<char>, p: CorsPolicy) -> bool {
    let t = trim(allow_origin);
    if t.len() == 0 || (t != "*"@ && listed_origins(allow_origin).len() == 0) {
        p is LocalDev
    } else if t == "*"@ {
        p is AnyOrigin
    } else {
        p matches CorsPolicy::Origins(v) && strings_view(v@) == listed_origins(allow_origin)
    }
}

/// The cross-origin policy that a `CORS_ALLOW_ORIGIN` value sets.
pub fn cors_policy(allow_origin: &str) -> (p: CorsPolicy)
    ensures
        cors_policy_matches(allow_origin@, p),
{
    let t = trim_str(allow_origin);
    if t.as_str().is_empty() {
        return CorsPolicy::LocalDev;
    }
    if str_eq(t.as_str(), "*") {
        return CorsPolicy::AnyOrigin;
    }
    let pieces = split_trimmed_nonempty(t.as_str(), ',');
    let mut origins: Vec<String> = Vec::new();
    let mut i: usize = 0;
    while i < pieces.len()
        invariant
            0 <= i <= pieces.len(),
            strings_view(pieces@) == split_trimmed(t@, ','),
            strings_view(origins@) == header_values_only(strings_view(pieces@).take(i as int)),
        decreases pieces.len() - i,
    {
        let ghost before = strings_view(origins@);
        let ghost taken = strings_view(pieces@).take(i + 1);
        assert(taken.drop_last() == strings_view(pieces@).take(i as int));
        assert(taken.last() == pieces@[i as int]@);
        if is_valid_header_value(pieces[i].as_str()) {
            origins.push(pieces[i].clone());
            assert(strings_view(origins@) == before.push(pieces@[i as int]@));
        }
        i = i + 1;
    }
    assert(strings_view(pieces@).take(pieces.len() as int) == strings_view(pieces@));
    if origins.len() == 0 {
        return CorsPolicy::LocalDev;
    }
    CorsPolicy::Origins(origins)
}

} // verus!
