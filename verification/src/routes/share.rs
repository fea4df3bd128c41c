//! Share links: what may be shared, the public URL of a link, and whether a link
//! still opens.

use vstd::prelude::*;
use crate::error::{is_bad_request, AppError};
use crate::text::{append_str, byte_len, chars_of, str_eq, string_from_chars, trim, trim_str, utf8_len};

verus! {

/// What a share link points at.
#[derive(PartialEq, Eq, Structural, Debug, Clone, Copy)]
pub enum ShareKind {
    File,
    Album,
}

/// `s` without its trailing slashes (`str::trim_end_matches('/')`).
pub open spec fn without_trailing_slashes(s: Seq<char>) -> Seq<char>
    decreases s.len(),
{
    if s.len() > 0 && s.last() == '/' {
        without_trailing_slashes(s.drop_last())
    } else {
        s
    }
}

/// `a` comes before `b`, or equals it, in the character-by-character order (the
/// order of `str`, since UTF-8 keeps the order of code points).
pub open spec fn seq_le(a: Seq<char>, b: Seq<char>) -> bool
    decreases a.len(),
{
    if a.len() == 0 {
        true
    } else if b.len() == 0 {
        false
    } else if a[0] != b[0] {
        a[0] < b[0]
    } else {
        seq_le(a.drop_first(), b.drop_first())
    }
}

/// A link has expired when it has an expiry time that is not after `now`; times are
/// RFC 3339 strings and compare as strings.
pub open spec fn share_expired(expires_at: Option<Seq<char>>, now: Seq<char>) -> bool {
    match expires_at {
        Some(e) => seq_le(e, now),
        None => false,
    }
}

/// The optional expiry time as characters.
pub open spec fn opt_expiry(o: Option<String>) -> Option<Seq<char>> {
    match o {
        Some(s) => Some(s@),
        None => None,
    }
}

/// The order on strings: a prefix comes first, and otherwise the first differing
/// character decides.
pub proof fn lemma_seq_le_order(a: Seq<char>, b: Seq<char>, i: int)
    requires
        0 <= i <= a.len(),
        i <= b.len(),
        a.take(i) == b.take(i),
    ensures
        i == a.len() ==> seq_le(a, b),
        i < a.len() && i == b.len() ==> !seq_le(a, b),
        i < a.len() && i < b.len() && a[i] != b[i] ==> (seq_le(a, b) <==> a[i] < b[i]),
    decreases i,
{
    if i > 0 {
        assert(a[0] == a.take(i)[0]);
        assert(b[0] == b.take(i)[0]);
        let a1 = a.drop_first();
        let b1 = b.drop_first();
        assert(a1.take(i - 1) =~= a.take(i).drop_first());
        assert(b1.take(i - 1) =~= b.take(i).drop_first());
        lemma_seq_le_order(a1, b1, i - 1);
        if i < a.len() {
            assert(a1[i - 1] == a[i]);
        }
        if i < b.len() {
            assert(b1[i - 1] == b[i]);
        }
    }
}

/// A link whose expiry equals the current time has expired.
pub proof fn lemma_expiry_at_now(t: Seq<char>)
    ensures
        share_expired(Some(t), t),
{
    lemma_seq_le_order(t, t, t.len() as int);
}

/// The share URL is the base URL with its trailing slashes removed, then `/s/` and the
/// token: what precedes `/s/<token>` is a prefix of the base that does not end in `/`,
/// and only slashes were removed.
pub proof fn lemma_share_url_shape(base: Seq<char>)
    ensures
        without_trailing_slashes(base).len() <= base.len(),
        without_trailing_slashes(base) == base.take(without_trailing_slashes(base).len() as int),
        without_trailing_slashes(base).len() == 0 || without_trailing_slashes(base).last() != '/',
        forall|i: int|
            without_trailing_slashes(base).len() <= i < base.len() ==> #[trigger] base[i] == '/',
    decreases base.len(),
{
    if base.len() > 0 && base.last() == '/' {
        let d = base.drop_last();
        lemma_share_url_shape(d);
        assert(d.take(without_trailing_slashes(d).len() as int) == base.take(
            without_trailing_slashes(d).len() as int,
        ));
        assert forall|i: int|
            without_trailing_slashes(base).len() <= i < base.len() implies #[trigger] base[i] == '/' by {
            if i < d.len() {
                assert(base[i] == d[i]);
            }
        }
    } else {
        assert(base.take(base.len() as int) == base);
    }
}

/// Accepts what a link may point at, `file` or `album` (trimmed).
pub fn validate_share_kind(kind: &str) -> (r: Result<ShareKind, AppError>)
    ensures
        trim(kind@) == "file"@ ==> r == Ok::<ShareKind, AppError>(ShareKind::File),
        trim(kind@) == "album"@ ==> r == Ok::<ShareKind, AppError>(ShareKind::Album),
        trim(kind@) != "file"@ && trim(kind@) != "album"@ ==> (r matches Err(e) && is_bad_request(
            e,
            "invalid kind"@,
        )),
{
    let k = trim_str(kind);
    proof {
        reveal_strlit("file");
        reveal_strlit("album");
        assert("file"@ != "album"@) by {
            assert("file"@[0] != "album"@[0]);
        }
    }
    if str_eq(k.as_str(), "file") {
        Ok(ShareKind::File)
    } else if str_eq(k.as_str(), "album") {
        Ok(ShareKind::Album)
    } else {
        Err(AppError::bad_request("invalid kind"))
    }
}

/// The kind's name as stored.
pub fn share_kind_name(kind: ShareKind) -> (r: &'static str)
    ensures
        kind == ShareKind::File ==> r@ == "file"@,
        kind == ShareKind::Album ==> r@ == "album"@,
{
    match kind {
        ShareKind::File => "file",
        ShareKind::Album => "album",
    }
}

/// The lifetime of a new link: the requested number of seconds when positive, else
/// none (the link does not expire).
pub fn share_lifetime(expires_in_seconds: Option<i64>) -> (r: Option<i64>)
    ensures
        r == match expires_in_seconds {
            Some(s) => if s > 0 {
                Some(s)
            } else {
                None
            },
            None => None,
        },
{
    match expires_in_seconds {
        Some(s) => if s > 0 {
            Some(s)
        } else {
            None
        },
        None => None,
    }
}

/// The public URL of a link: the base URL without trailing slashes, then `/s/` and
/// the token.
pub fn share_url(public_base_url: &str, token: &str) -> (r: String)
    ensures
        r@ == without_trailing_slashes(public_base_url@) + "/s/"@ + token@,
{
    let v = chars_of(public_base_url);
    let mut n = v.len();
    assert(v@.take(v.len() as int) == v@);
    while n > 0 && v[n - 1] == '/'
        invariant
            n <= v.len(),
            v@ == public_base_url@,
            without_trailing_slashes(public_base_url@) == without_trailing_slashes(v@.take(n as int)),
        decreases n,
    {
        assert(v@.take(n as int).drop_last() == v@.take(n - 1));
        n = n - 1;
    }
    assert(v@.take(v.len() as int) == v@);
    let mut r = string_from_chars(&v, 0, n);
    append_str(&mut r, "/s/");
    append_str(&mut r, token);
    r
}

/// Accepts a public token of 16 to 256 bytes; anything else is not found.
pub fn check_public_token(token: &str) -> (r: Result<(), AppError>)
    ensures
        r is Ok <==> 16 <= byte_len(token@) <= 256,
        r matches Err(e) ==> e is NotFound,
{
    let n = utf8_len(token);
    if n < 16 || n > 256 {
        return Err(AppError::NotFound);
    }
    Ok(())
}

/// Whether `a` comes before `b` or equals it.
pub fn str_le(a: &str, b: &str) -> (r: bool)
    ensures
        r == seq_le(a@, b@),
{
    let x = chars_of(a);
    let y = chars_of(b);
    let mut i: usize = 0;
    assert(x@.skip(0) == x@);
    assert(y@.skip(0) == y@);
    loop
        invariant
            x@ == a@,
            y@ == b@,
            0 <= i <= x.len(),
            i <= y.len(),
            seq_le(a@, b@) == seq_le(x@.skip(i as int), y@.skip(i as int)),
        decreases x.len() - i,
    {
        if i == x.len() {
            return true;
        }
        if i == y.len() {
            return false;
        }
        assert(x@.skip(i as int)[0] == x@[i as int]);
        assert(y@.skip(i as int)[0] == y@[i as int]);
        if x[i] != y[i] {
            return x[i] < y[i];
        }
        assert(x@.skip(i as int).drop_first() == x@.skip(i + 1));
        assert(y@.skip(i as int).drop_first() == y@.skip(i + 1));
        i = i + 1;
    }
}

/// Whether a link with this expiry time has expired at `now`.
pub fn share_link_expired(expires_at: Option<&str>, now: &str) -> (r: bool)
    ensures
        r == share_expired(
            match expires_at {
                Some(e) => Some(e@),
                None => None,
            },
            now@,
        ),
{
    match expires_at {
        Some(e) => str_le(e, now),
        None => false,
    }
}

/// Opens a public link from its looked-up row `(link id, kind, expiry)`: an unknown or
/// expired link is not found; otherwise the link's id and whether it points at a file
/// (any other kind is served as an album).
pub fn open_share_link(row: Option<(String, String, Option<String>)>, now: &str) -> (r: Result<
    (String, ShareKind),
    AppError,
>)
    ensures
        row is None ==> r matches Err(AppError::NotFound),
        row matches Some(t) ==> if share_expired(opt_expiry(t.2), now@) {
            r matches Err(AppError::NotFound)
        } else {
            r matches Ok(p) && p.0@ == t.0@ && (p.1 == ShareKind::File <==> t.1@ == "file"@)
        },
{
    let (id, kind, expires_at) = match row {
        Some(t) => t,
        None => {
            return Err(AppError::NotFound);
        },
    };
    let expired = match &expires_at {
        Some(e) => str_le(e.as_str(), now),
        None => false,
    };
    if expired {
        return Err(AppError::NotFound);
    }
    if str_eq(kind.as_str(), "file") {
        Ok((id, ShareKind::File))
    } else {
        Ok((id, ShareKind::Album))
    }
}

} // verus!
