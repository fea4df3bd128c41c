//! Input validation, file-name sanitising, digests and random tokens.

use rand::RngCore;
use vstd::prelude::*;
use vstd::utf8::encode_utf8;
use crate::digest::{sha256, sha256_finalize, sha256_input, sha256_new, sha256_update};
use crate::error::{is_bad_request, AppError};
use crate::hex::{all_hex_lower, hex_encode, hex_lower, lemma_hex_lower_shape};
use crate::text::{byte_len, chars_of, contains_char, push_char, trim, trim_str, utf8_len};

verus! {

/// The longest file name kept, in characters.
pub const MAX_FILENAME_CHARS: usize = 180;

/// An e-mail address is accepted when, once trimmed, it has 3 to 254 bytes and an `@`.
pub open spec fn valid_email(email: Seq<char>) -> bool {
    let e = trim(email);
    &&& 3 <= byte_len(e) <= 254
    &&& e.contains('@')
}

/// A password is accepted when it has 10 to 200 bytes, untrimmed.
pub open spec fn valid_password(password: Seq<char>) -> bool {
    10 <= byte_len(password) <= 200
}

/// The character that replaces `c` in a stored file name.
pub open spec fn filename_char(c: char) -> char {
    if c == '"' || c == '\\' || c == '\n' || c == '\r' {
        '_'
    } else {
        c
    }
}

/// The first 180 characters of `name`, with quotes, backslashes and line breaks
/// replaced by `_`; `"file"` when nothing is left.
pub open spec fn safe_filename_spec(name: Seq<char>) -> Seq<char> {
    let kept = if name.len() <= 180 { name } else { name.take(180) };
    if kept.len() == 0 {
        "file"@
    } else {
        kept.map_values(|c: char| filename_char(c))
    }
}

/// Lowercase hex of the SHA-256 digest of `bytes`.
pub fn sha256_hex(bytes: &[u8]) -> (r: String)
    ensures
        r@ == hex_lower(sha256(bytes@)),
        r@.len() == 64,
        all_hex_lower(r@),
{
    let mut h = sha256_new();
    sha256_update(&mut h, bytes);
    assert(sha256_input(h) == bytes@);
    let d = sha256_finalize(h);
    proof {
        lemma_hex_lower_shape(d@);
    }
    hex_encode(d.as_slice())
}

/// Lowercase hex of the SHA-256 digest of the UTF-8 bytes of `s`.
pub fn sha256_hex_str(s: &str) -> (r: String)
    ensures
        r@ == hex_lower(sha256(encode_utf8(s@))),
        r@.len() == 64,
        all_hex_lower(r@),
{
    sha256_hex(s.as_bytes())
}

/// `len` bytes from the thread-local generator of `rand` (`RngCore::fill_bytes`).
#[verifier::external_body]
fn random_bytes(len: usize) -> (b: Vec<u8>)
    ensures
        b@.len() == len,
{
    let mut b = vec![0u8; len];
    rand::rng().fill_bytes(&mut b);
    b
}

/// A random token: `len_bytes` random bytes in lowercase hex.
pub fn random_token_hex(len_bytes: usize) -> (r: String)
    ensures
        exists|b: Seq<u8>| b.len() == len_bytes && r@ == hex_lower(b),
        r@.len() == 2 * len_bytes,
{
    let b = random_bytes(len_bytes);
    let r = hex_encode(b.as_slice());
    proof {
        lemma_hex_lower_shape(b@);
    }
    r
}

/// Accepts an e-mail address when, trimmed, it has 3 to 254 bytes and contains `@`.
pub fn validate_email(email: &str) -> (r: Result<(), AppError>)
    ensures
        r is Ok <==> valid_email(email@),
        r matches Err(e) ==> is_bad_request(e, "invalid email"@),
        r is Ok <==> (3 <= byte_len(trim(email@)) <= 254 && trim(email@).contains('@')),
{
    let e = trim_str(email);
    let n = utf8_len(e.as_str());
    if n < 3 || n > 254 || !contains_char(e.as_str(), '@') {
        return Err(AppError::bad_request("invalid email"));
    }
    Ok(())
}

/// Accepts a password of 10 to 200 bytes.
pub fn validate_password(password: &str) -> (r: Result<(), AppError>)
    ensures
        r is Ok <==> valid_password(password@),
        r matches Err(e) ==> is_bad_request(e, "password too short"@),
        r is Ok <==> 10 <= byte_len(password@) <= 200,
{
    let n = utf8_len(password);
    if n < 10 || n > 200 {
        return Err(AppError::bad_request("password too short"));
    }
    Ok(())
}

/// The name under which an uploaded file is kept and offered for download.
pub fn safe_filename(name: &str) -> (r: String)
    ensures
        r@ == safe_filename_spec(name@),
        name@.len() == 0 ==> r@ == "file"@,
        0 < name@.len() <= 180 ==> r@.len() == name@.len(),
        name@.len() > 180 ==> r@.len() == 180,
        forall|i: int|
            0 <= i < r@.len() && i < name@.len() ==> {
                let c = #[trigger] name@[i];
                &&& (c == '"' || c == '\\' || c == '\n' || c == '\r') ==> r@[i] == '_'
                &&& !(c == '"' || c == '\\' || c == '\n' || c == '\r') ==> r@[i] == c
            },
{
    proof {
        lemma_safe_filename_keeps_characters(name@);
    }
    let v = chars_of(name);
    let n = if v.len() <= MAX_FILENAME_CHARS { v.len() } else { MAX_FILENAME_CHARS };
    let ghost kept = if name@.len() <= 180 { name@ } else { name@.take(180) };
    assert(kept == v@.take(n as int));
    let mut out = String::new();
    let mut i: usize = 0;
    while i < n
        invariant
            n <= v.len(),
            v@ == name@,
            kept == v@.take(n as int),
            0 <= i <= n,
            out@ == kept.take(i as int).map_values(|c: char| filename_char(c)),
        decreases n - i,
    {
        let ch = v[i];
        if ch == '"' || ch == '\\' || ch == '\n' || ch == '\r' {
            push_char(&mut out, '_');
        } else {
            push_char(&mut out, ch);
        }
        assert(kept.take(i + 1).map_values(|c: char| filename_char(c)) =~= kept.take(
            i as int,
        ).map_values(|c: char| filename_char(c)).push(filename_char(ch)));
        i = i + 1;
    }
    assert(kept.take(n as int) == kept);
    if n == 0 {
        "file".to_owned()
    } else {
        out
    }
}

/// A character that never stays in a kept file name.
pub open spec fn is_filename_unsafe(c: char) -> bool {
    c == '"' || c == '\\' || c == '\n' || c == '\r'
}

/// A kept file name is non-empty, has at most 180 characters, and holds no quote,
/// backslash or line break.
pub proof fn lemma_safe_filename_clean(name: Seq<char>)
    ensures
        0 < safe_filename_spec(name).len() <= 180,
        forall|i: int|
            0 <= i < safe_filename_spec(name).len() ==> !is_filename_unsafe(
                #[trigger] safe_filename_spec(name)[i],
            ),
{
    reveal_strlit("file");
    let kept = if name.len() <= 180 {
        name
    } else {
        name.take(180)
    };
    if kept.len() == 0 {
        assert("file"@ =~= seq!['f', 'i', 'l', 'e']);
    }
}

/// A kept name is the name cut to 180 characters with each quote, backslash, CR and
/// LF replaced by `_` and every other character kept where it was; an empty name is
/// kept as `file`.
pub proof fn lemma_safe_filename_keeps_characters(name: Seq<char>)
    ensures
        name.len() == 0 ==> safe_filename_spec(name) == "file"@,
        0 < name.len() <= 180 ==> safe_filename_spec(name).len() == name.len(),
        name.len() > 180 ==> safe_filename_spec(name).len() == 180,
        forall|i: int|
            0 <= i < safe_filename_spec(name).len() && i < name.len() ==> {
                let c = #[trigger] name[i];
                &&& (c == '"' || c == '\\' || c == '\n' || c == '\r') ==> safe_filename_spec(name)[i] == '_'
                &&& !(c == '"' || c == '\\' || c == '\n' || c == '\r') ==> safe_filename_spec(name)[i] == c
            },
{
    let kept = if name.len() <= 180 {
        name
    } else {
        name.take(180)
    };
    if kept.len() > 0 {
        assert forall|i: int| 0 <= i < safe_filename_spec(name).len() && i < name.len() implies {
            let c = #[trigger] name[i];
            &&& (c == '"' || c == '\\' || c == '\n' || c == '\r') ==> safe_filename_spec(name)[i] == '_'
            &&& !(c == '"' || c == '\\' || c == '\n' || c == '\r') ==> safe_filename_spec(name)[i] == c
        } by {
            assert(kept[i] == name[i]);
        }
    }
}

/// Sanitising a kept name changes nothing.
pub proof fn lemma_safe_filename_idempotent(name: Seq<char>)
    ensures
        safe_filename_spec(safe_filename_spec(name)) == safe_filename_spec(name),
{
    let r = safe_filename_spec(name);
    lemma_safe_filename_clean(name);
    assert(r.map_values(|c: char| filename_char(c)) =~= r);
}

} // verus!
