//! Users, sessions and passwords: hashing and checking passwords, session tokens and
//! their cookie, CSRF protection and role checks.

use argon2::password_hash::{PasswordHash, PasswordHasher, PasswordVerifier, SaltString};
use argon2::Argon2;
use vstd::prelude::*;
use vstd::utf8::encode_utf8;
use crate::digest::{sha256, sha256_finalize, sha256_input, sha256_new, sha256_update};
use crate::config::opt_view;
use crate::error::{is_bad_request, AppError};
use crate::hex::{hex_encode, hex_lower};
use crate::text::{byte_len, chars_of, first_index, lemma_first_index_at, str_eq, string_from_chars, trim, trim_str};
use crate::util::{valid_email, valid_password, validate_email, validate_password};

verus! {

/// Name of the cookie that carries the session token.
pub const SESSION_COOKIE: &'static str = "mv_session";

/// Name of the request header that carries the CSRF token.
pub const CSRF_HEADER: &'static str = "x-csrf-token";

/// How long a session lasts, in days.
pub const SESSION_DAYS: i64 = 30;

/// A user account as the session sees it.
#[derive(Clone, Debug)]
pub struct User {
    pub id: String,
    pub email: String,
    pub role: String,
}

/// An authenticated session: its user and the CSRF token bound to it.
#[derive(Clone, Debug)]
pub struct AuthSession {
    pub user: User,
    pub csrf_token: String,
}

/// The attributes of the session cookie that the server sets.
#[derive(Debug)]
pub struct SessionCookie {
    pub name: String,
    pub value: String,
    pub http_only: bool,
    pub same_site_lax: bool,
    pub secure: bool,
    pub path: String,
    /// Lifetime in days, when the cookie sets one.
    pub max_age_days: Option<i64>,
    /// Whether the cookie tells the browser to drop it.
    pub removal: bool,
}

/// The PHC string `phc` parses as a password hash (`PasswordHash::new` succeeds).
pub uninterp spec fn phc_parses(phc: Seq<char>) -> bool;

/// Argon2 with default parameters accepts the UTF-8 bytes of `password` against the
/// parsed PHC string `phc` (`PasswordVerifier::verify_password` succeeds).
pub uninterp spec fn argon2_accepts(password: Seq<char>, phc: Seq<char>) -> bool;

/// What checking `password` against the stored hash `phc` gives: `Err` when the hash
/// does not parse, else whether it matches.
pub open spec fn password_check(password: Seq<char>, phc: Seq<char>) -> Result<bool, ()> {
    if phc_parses(phc) {
        Ok(argon2_accepts(password, phc))
    } else {
        Err(())
    }
}

/// The methods that change nothing and so need no CSRF token.
pub open spec fn is_safe_method(method: Seq<char>) -> bool {
    method == "GET"@ || method == "HEAD"@ || method == "OPTIONS"@ || method == "TRACE"@
}

/// The optional header value as characters.
pub open spec fn opt_str_view(o: Option<&str>) -> Option<Seq<char>> {
    match o {
        Some(h) => Some(h@),
        None => None,
    }
}

/// A request passes the CSRF check when its method is safe, or when it carries a
/// non-empty CSRF header equal to the session's token.
pub open spec fn csrf_ok(method: Seq<char>, header: Option<Seq<char>>, token: Seq<char>) -> bool {
    let v = match header {
        Some(h) => h,
        None => Seq::empty(),
    };
    is_safe_method(method) || (v.len() > 0 && v == token)
}

/// The CSRF rule, whatever the method: a non-empty header equal to the session's token
/// always passes; GET, HEAD, OPTIONS and TRACE always pass; any other request without
/// such a header is refused.
pub proof fn lemma_csrf_rule(method: Seq<char>, header: Option<Seq<char>>, token: Seq<char>)
    ensures
        header matches Some(t) && t.len() > 0 && t == token ==> csrf_ok(method, header, token),
        method == "GET"@ || method == "HEAD"@ || method == "OPTIONS"@ || method == "TRACE"@
            ==> csrf_ok(method, header, token),
        !(method == "GET"@ || method == "HEAD"@ || method == "OPTIONS"@ || method == "TRACE"@)
            && !(header matches Some(t) && t.len() > 0 && t == token) ==> !csrf_ok(
            method,
            header,
            token,
        ),
{
}

/// The hash under which a session token is stored: SHA-256 of the secret, `:` and the
/// token, in lowercase hex.
pub open spec fn session_token_hash_spec(secret: Seq<char>, token: Seq<char>) -> Seq<char> {
    hex_lower(sha256(encode_utf8(secret) + encode_utf8(seq![':']) + encode_utf8(token)))
}

/// The value of a trimmed cookie pair `part` when its name is the session cookie's:
/// what follows the first `=`, trimmed.
pub open spec fn session_pair_value(part: Seq<char>) -> Option<Seq<char>> {
    let e = first_index(part, '=') as int;
    if e < part.len() && trim(part.take(e)) == "mv_session"@ {
        Some(trim(part.skip(e + 1)))
    } else {
        None
    }
}

/// The session token in a `Cookie` header: the value of the first `;`-separated pair
/// named `mv_session`.
pub open spec fn session_token_in(header: Seq<char>) -> Option<Seq<char>>
    decreases header.len(),
{
    let k = first_index(header, ';') as int;
    let found = session_pair_value(trim(header.take(k)));
    if found is Some {
        found
    } else if k < header.len() {
        session_token_in(header.skip(k + 1))
    } else {
        None
    }
}

/// A browser that sends back the session cookie, as `mv_session=<token>`, has that
/// token read from its `Cookie` header, whenever the token is already trimmed and
/// holds no `;`.
pub proof fn lemma_session_cookie_roundtrip(token: Seq<char>)
    requires
        trim(token) == token,
        !token.contains(';'),
    ensures
        session_token_in("mv_session="@ + token) == Some(token),
{
    reveal_strlit("mv_session=");
    reveal_strlit("mv_session");
    let name = "mv_session"@;
    assert(name =~= seq!['m', 'v', '_', 's', 'e', 's', 's', 'i', 'o', 'n']);
    assert("mv_session="@ =~= name + seq!['=']);
    let h = "mv_session="@ + token;
    assert(h =~= name + seq!['='] + token);
    assert forall|j: int| 0 <= j < h.len() implies #[trigger] h[j] != ';' by {
        if j >= 11 {
            assert(h[j] == token[j - 11]);
        }
    }
    lemma_first_index_at(h, ';', h.len() as int);
    assert(h.take(h.len() as int) == h);
    crate::text::lemma_trim_shape(token);
    if token.len() > 0 {
        assert(h.last() == token.last());
    }
    crate::text::lemma_trim_fixed(h);
    lemma_first_index_at(h, '=', 10);
    assert(h.take(10) == name);
    crate::text::lemma_trim_fixed(name);
    assert(h.skip(11) == token);
}

/// Hashes the UTF-8 bytes of `password` with Argon2 default parameters and a fresh
/// 16-byte salt from the operating system's generator (`SaltString::generate` with
/// `OsRng`, then `PasswordHasher::hash_password`), as a PHC string. Argon2 refuses only
/// a password of more than `MAX_PWD_LEN` (`u32::MAX`) bytes or a salt outside its length
/// bounds, which a generated salt never is; so a password within that length is hashed.
/// The PHC string parses and Argon2 accepts the same password against it, as the
/// crate's documentation shows. Which string comes back is not stated: it carries the
/// random salt.
#[verifier::external_body]
fn argon2_hash_fresh_salt(password: &str) -> (r: Option<String>)
    ensures
        byte_len(password@) <= 0xFFFF_FFFF ==> r is Some,
        r matches Some(h) ==> phc_parses(h@) && argon2_accepts(password@, h@),
{
    let salt = SaltString::generate(&mut rand_core::OsRng);
    Argon2::default().hash_password(password.as_bytes(), &salt).ok().map(|h| h.to_string())
}

/// Parses the PHC string `phc` (`PasswordHash::new`) and checks the UTF-8 bytes of
/// `password` against it with Argon2 (`PasswordVerifier::verify_password`): `None`
/// when it does not parse, else whether the password matches. A PHC string is
/// refused when it is empty or does not start with `$` (its first field must be
/// empty).
#[verifier::external_body]
fn argon2_verify(password: &str, phc: &str) -> (r: Option<bool>)
    ensures
        r is Some <==> phc_parses(phc@),
        r matches Some(b) ==> b == argon2_accepts(password@, phc@),
        phc@.len() == 0 || phc@[0] != '$' ==> r is None,
{
    match PasswordHash::new(phc) {
        Ok(parsed) => Some(Argon2::default().verify_password(password.as_bytes(), &parsed).is_ok()),
        Err(_) => None,
    }
}

/// Hashes an acceptable password with Argon2 and a random salt. An acceptable
/// password always gets a hash, and that hash is one that `verify_password` accepts
/// for the same password.
pub fn hash_password(password: &str) -> (r: Result<String, AppError>)
    ensures
        !valid_password(password@) ==> (r matches Err(e) && is_bad_request(e, "password too short"@)),
        valid_password(password@) ==> r is Ok,
        r matches Ok(h) ==> password_check(password@, h@) == Ok::<bool, ()>(true),
{
    validate_password(password)?;
    match argon2_hash_fresh_salt(password) {
        Some(h) => Ok(h),
        None => Err(AppError::Internal),
    }
}

/// Checks `password` against the stored PHC string `hash`; an unparsable hash is an
/// internal error.
pub fn verify_password(password: &str, hash: &str) -> (r: Result<bool, AppError>)
    ensures
        r is Ok <==> phc_parses(hash@),
        hash@.len() == 0 || hash@[0] != '$' ==> r matches Err(AppError::Internal),
        r matches Ok(b) ==> password_check(password@, hash@) == Ok::<bool, ()>(b),
        r matches Err(e) ==> e is Internal,
{
    match argon2_verify(password, hash) {
        Some(b) => Ok(b),
        None => Err(AppError::Internal),
    }
}

/// Accepts login credentials: first the e-mail address, then the password.
pub fn validate_credentials(email: &str, password: &str) -> (r: Result<(), AppError>)
    ensures
        r is Ok <==> valid_email(email@) && valid_password(password@),
        !valid_email(email@) ==> (r matches Err(e) && is_bad_request(e, "invalid email"@)),
        valid_email(email@) && !valid_password(password@) ==> (r matches Err(e)
            && is_bad_request(e, "password too short"@)),
{
    validate_email(email)?;
    validate_password(password)?;
    Ok(())
}

/// The hash under which the session token `token` is stored.
pub fn session_token_hash(secret: &str, token: &str) -> (r: String)
    ensures
        r@ == session_token_hash_spec(secret@, token@),
{
    let mut h = sha256_new();
    sha256_update(&mut h, secret.as_bytes());
    sha256_update(&mut h, ":".as_bytes());
    sha256_update(&mut h, token.as_bytes());
    proof {
        reveal_strlit(":");
        assert(":"@ =~= seq![':']);
    }
    assert(sha256_input(h) == encode_utf8(secret@) + encode_utf8(seq![':']) + encode_utf8(
        token@,
    ));
    let d = sha256_finalize(h);
    hex_encode(d.as_slice())
}

/// The session cookie carrying `token`: HTTP-only, `SameSite=Lax`, path `/`, for 30
/// days, `Secure` as configured.
pub fn build_session_cookie(token: &str, cookie_secure: bool) -> (c: SessionCookie)
    ensures
        c.name@ == "mv_session"@,
        c.value@ == token@,
        c.http_only,
        c.same_site_lax,
        c.secure == cookie_secure,
        c.path@ == "/"@,
        c.max_age_days == Some(30i64),
        !c.removal,
{
    SessionCookie {
        name: "mv_session".to_owned(),
        value: token.to_owned(),
        http_only: true,
        same_site_lax: true,
        secure: cookie_secure,
        path: "/".to_owned(),
        max_age_days: Some(SESSION_DAYS),
        removal: false,
    }
}

/// The cookie that removes the session cookie: same name, path and flags, empty value.
pub fn build_clear_cookie(cookie_secure: bool) -> (c: SessionCookie)
    ensures
        c.name@ == "mv_session"@,
        c.value@ == Seq::<char>::empty(),
        c.http_only,
        c.same_site_lax,
        c.secure == cookie_secure,
        c.path@ == "/"@,
        c.max_age_days is None,
        c.removal,
{
    SessionCookie {
        name: "mv_session".to_owned(),
        value: String::new(),
        http_only: true,
        same_site_lax: true,
        secure: cookie_secure,
        path: "/".to_owned(),
        max_age_days: None,
        removal: true,
    }
}

/// The session token in a trimmed cookie pair, when the pair is the session cookie.
fn session_pair(part: &str) -> (r: Option<String>)
    ensures
        opt_view(r) == session_pair_value(part@),
{
    let v = chars_of(part);
    let mut e: usize = 0;
    while e < v.len() && v[e] != '='
        invariant
            0 <= e <= v.len(),
            v@ == part@,
            forall|j: int| 0 <= j < e ==> #[trigger] v@[j] != '=',
        decreases v.len() - e,
    {
        e = e + 1;
    }
    proof {
        lemma_first_index_at(part@, '=', e as int);
    }
    if e == v.len() {
        return None;
    }
    let key = string_from_chars(&v, 0, e);
    let key = trim_str(key.as_str());
    if !str_eq(key.as_str(), "mv_session") {
        return None;
    }
    let value = string_from_chars(&v, e + 1, v.len());
    assert(value@ == part@.skip(e + 1));
    Some(trim_str(value.as_str()))
}

/// The session token carried by a `Cookie` header value.
pub fn extract_session_token(cookie_header: &str) -> (r: Option<String>)
    ensures
        opt_view(r) == session_token_in(cookie_header@),
{
    let v = chars_of(cookie_header);
    let mut start: usize = 0;
    let mut i: usize = 0;
    assert(v@.skip(0) == v@);
    loop
        invariant
            0 <= start <= i <= v.len(),
            v@ == cookie_header@,
            session_token_in(cookie_header@) == session_token_in(v@.skip(start as int)),
            forall|j: int| start <= j < i ==> #[trigger] v@[j] != ';',
        decreases v.len() - i,
    {
        if i == v.len() || v[i] == ';' {
            let ghost rest = v@.skip(start as int);
            proof {
                assert forall|j: int| 0 <= j < i - start implies #[trigger] rest[j] != ';' by {
                    assert(rest[j] == v@[j + start]);
                }
                if i < v.len() {
                    assert(rest[i - start] == v@[i as int]);
                }
                lemma_first_index_at(rest, ';', i - start);
                assert(rest.take(i - start) == v@.subrange(start as int, i as int));
            }
            let part = string_from_chars(&v, start, i);
            let part = trim_str(part.as_str());
            let found = session_pair(part.as_str());
            if found.is_some() {
                return found;
            }
            if i == v.len() {
                return None;
            }
            assert(rest.skip(i - start + 1) == v@.skip(i + 1));
            start = i + 1;
        }
        i = i + 1;
    }
}

/// Admits a request whose method is safe, or whose CSRF header is non-empty and equal
/// to the session's token.
pub fn require_csrf(method: &str, csrf_header: Option<&str>, session: &AuthSession) -> (r: Result<
    (),
    AppError,
>)
    ensures
        r is Ok <==> csrf_ok(method@, opt_str_view(csrf_header), session.csrf_token@),
        r matches Err(e) ==> e is Forbidden,
        csrf_header matches Some(t) && t@.len() > 0 && t@ == session.csrf_token@ ==> r is Ok,
        method@ == "GET"@ || method@ == "HEAD"@ || method@ == "OPTIONS"@ || method@ == "TRACE"@
            ==> r is Ok,
        !(method@ == "GET"@ || method@ == "HEAD"@ || method@ == "OPTIONS"@ || method@ == "TRACE"@)
            && !(csrf_header matches Some(t) && t@.len() > 0 && t@ == session.csrf_token@) ==> r is Err,
{
    proof {
        lemma_csrf_rule(method@, opt_str_view(csrf_header), session.csrf_token@);
    }
    if str_eq(method, "GET") || str_eq(method, "HEAD") || str_eq(method, "OPTIONS") || str_eq(
        method,
        "TRACE",
    ) {
        return Ok(());
    }
    let v: &str = match csrf_header {
        Some(h) => h,
        None => "",
    };
    proof {
        reveal_strlit("");
    }
    if v.is_empty() || !str_eq(v, session.csrf_token.as_str()) {
        return Err(AppError::Forbidden);
    }
    Ok(())
}

/// Admits only administrators.
pub fn require_admin(session: &AuthSession) -> (r: Result<(), AppError>)
    ensures
        r is Ok <==> session.user.role@ == "admin"@,
        r matches Err(e) ==> e is Forbidden,
{
    if str_eq(session.user.role.as_str(), "admin") {
        Ok(())
    } else {
        Err(AppError::Forbidden)
    }
}

/// Builds the session of a looked-up row `(csrf token, user id, e-mail, role)` and
/// applies the CSRF check to the request; no row means no valid session.
pub fn session_from_row(
    row: Option<(String, String, String, String)>,
    method: &str,
    csrf_header: Option<&str>,
) -> (r: Result<AuthSession, AppError>)
    ensures
        row is None ==> r matches Err(AppError::Unauthorized),
        row matches Some(t) ==> (r is Ok <==> csrf_ok(method@, opt_str_view(csrf_header), t.0@)),
        row is Some ==> (r is Err ==> r matches Err(AppError::Forbidden)),
        r matches Ok(s) ==> (row matches Some(t) && s.csrf_token@ == t.0@ && s.user.id@ == t.1@
            && s.user.email@ == t.2@ && s.user.role@ == t.3@),
{
    let (csrf_token, id, email, role) = match row {
        Some(t) => t,
        None => {
            return Err(AppError::Unauthorized);
        },
    };
    let session = AuthSession { user: User { id, email, role }, csrf_token };
    require_csrf(method, csrf_header, &session)?;
    Ok(session)
}

/// Decides a login against the looked-up account `(user id, password hash)`: an
/// unknown account or a wrong password is unauthorized, an unparsable stored hash an
/// internal error; otherwise the user's id.
pub fn authenticate(password: &str, row: Option<(String, String)>) -> (r: Result<String, AppError>)
    ensures
        row is None ==> r matches Err(AppError::Unauthorized),
        row matches Some(t) ==> match password_check(password@, t.1@) {
            Err(_) => r matches Err(AppError::Internal),
            Ok(false) => r matches Err(AppError::Unauthorized),
            Ok(true) => r matches Ok(id) && id@ == t.0@,
        },
{
    let (user_id, password_hash) = match row {
        Some(t) => t,
        None => {
            return Err(AppError::Unauthorized);
        },
    };
    if !verify_password(password, password_hash.as_str())? {
        return Err(AppError::Unauthorized);
    }
    Ok(user_id)
}

/// The role a new account gets: the requested one, `user` by default.
pub open spec fn requested_role(role: Option<Seq<char>>) -> Seq<char> {
    match role {
        Some(r) => r,
        None => "user"@,
    }
}

/// Checks a request to create an account: the session must be an administrator's,
/// the e-mail address and password acceptable, and the role `user` or `admin`.
/// Gives the trimmed e-mail address and the role.
pub fn prepare_new_user(session: &AuthSession, email: &str, password: &str, role: Option<String>) -> (r:
    Result<(String, String), AppError>)
    ensures
        session.user.role@ != "admin"@ ==> r matches Err(AppError::Forbidden),
        session.user.role@ == "admin"@ && !valid_email(email@) ==> (r matches Err(e)
            && is_bad_request(e, "invalid email"@)),
        session.user.role@ == "admin"@ && valid_email(email@) && !valid_password(password@) ==> (
        r matches Err(e) && is_bad_request(e, "password too short"@)),
        session.user.role@ == "admin"@ && valid_email(email@) && valid_password(password@) ==> ({
            let role_v = requested_role(opt_view(role));
            if role_v == "user"@ || role_v == "admin"@ {
                r matches Ok(p) && p.0@ == trim(email@) && p.1@ == role_v
            } else {
                r matches Err(e) && is_bad_request(e, "invalid role"@)
            }
        }),
{
    require_admin(session)?;
    validate_email(email)?;
    validate_password(password)?;
    let role = match role {
        Some(r) => r,
        None => "user".to_owned(),
    };
    if !str_eq(role.as_str(), "user") && !str_eq(role.as_str(), "admin") {
        return Err(AppError::bad_request("invalid role"));
    }
    Ok((trim_str(email), role))
}

} // verus!
