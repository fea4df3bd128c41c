//! Names of tags and albums.

use vstd::prelude::*;
use crate::error::{is_bad_request, AppError};
use crate::text::{byte_len, trim, trim_str, utf8_len};

verus! {

/// A name is accepted when, trimmed, it is non-empty and has at most `max` bytes.
pub open spec fn valid_name(name: Seq<char>, max: nat) -> bool {
    trim(name).len() > 0 && byte_len(trim(name)) <= max
}

/// The trimmed name when it is non-empty and has at most `max` bytes.
fn checked_name(name: &str, max: usize, msg: &str) -> (r: Result<String, AppError>)
    ensures
        valid_name(name@, max as nat) ==> (r matches Ok(n) && n@ == trim(name@)),
        !valid_name(name@, max as nat) ==> (r matches Err(e) && is_bad_request(e, msg@)),
{
    let t = trim_str(name);
    if t.as_str().is_empty() || utf8_len(t.as_str()) > max {
        return Err(AppError::bad_request(msg));
    }
    Ok(t)
}

/// A tag name: trimmed, 1 to 40 bytes.
pub fn tag_name(name: &str) -> (r: Result<String, AppError>)
    ensures
        valid_name(name@, 40) ==> (r matches Ok(n) && n@ == trim(name@)),
        !valid_name(name@, 40) ==> (r matches Err(e) && is_bad_request(e, "invalid tag name"@)),
        r is Ok <==> (trim(name@).len() > 0 && byte_len(trim(name@)) <= 40),
        r matches Ok(n) ==> n@ == trim(name@),
{
    checked_name(name, 40, "invalid tag name")
}

/// An album name: trimmed, 1 to 80 bytes.
pub fn album_name(name: &str) -> (r: Result<String, AppError>)
    ensures
        valid_name(name@, 80) ==> (r matches Ok(n) && n@ == trim(name@)),
        !valid_name(name@, 80) ==> (r matches Err(e) && is_bad_request(e, "invalid album name"@)),
        r is Ok <==> (trim(name@).len() > 0 && byte_len(trim(name@)) <= 80),
        r matches Ok(n) ==> n@ == trim(name@),
{
    checked_name(name, 80, "invalid album name")
}

} // verus!
