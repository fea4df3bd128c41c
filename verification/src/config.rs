//! Server configuration: reading it from environment variables and deriving the
//! storage layout from it.

use vstd::prelude::*;
use vstd::utf8::encode_utf8;
use crate::error::{is_bad_request, is_config_error, AppError};
use crate::hex::all_hex_lower;
use crate::text::{
    append_str, ascii_lowercase, byte_len, chars_of, contains_char, contains_double_dot,
    has_double_dot, has_prefix, push_char, starts_with, str_eq, string_from_chars,
    to_ascii_lowercase, trim, trim_str, utf8_len,
};

verus! {

/// The upload limit when `MAX_UPLOAD_BYTES` is not set: 100 MiB.
pub const DEFAULT_MAX_UPLOAD_BYTES: u64 = 104857600;

/// Settings of the server.
#[derive(Clone, Debug)]
pub struct Config {
    pub bind_addr: String,
    pub database_url: String,
    pub storage_root: String,
    pub public_base_url: String,
    pub session_secret: String,
    pub cookie_secure: bool,
    pub max_upload_bytes: u64,
    pub web_dist: Option<String>,
    pub bootstrap_admin_email: Option<String>,
    pub bootstrap_admin_password: Option<String>,
}

/// The settings as mathematical values.
pub struct ConfigView {
    pub bind_addr: Seq<char>,
    pub database_url: Seq<char>,
    pub storage_root: Seq<char>,
    pub public_base_url: Seq<char>,
    pub session_secret: Seq<char>,
    pub cookie_secure: bool,
    pub max_upload_bytes: u64,
    pub web_dist: Option<Seq<char>>,
    pub bootstrap_admin_email: Option<Seq<char>>,
    pub bootstrap_admin_password: Option<Seq<char>>,
}

/// The characters of an optional string.
pub open spec fn opt_view(o: Option<String>) -> Option<Seq<char>> {
    match o {
        Some(s) => Some(s@),
        None => None,
    }
}

impl View for Config {
    type V = ConfigView;

    open spec fn view(&self) -> ConfigView {
        ConfigView {
            bind_addr: self.bind_addr@,
            database_url: self.database_url@,
            storage_root: self.storage_root@,
            public_base_url: self.public_base_url@,
            session_secret: self.session_secret@,
            cookie_secure: self.cookie_secure,
            max_upload_bytes: self.max_upload_bytes,
            web_dist: opt_view(self.web_dist),
            bootstrap_admin_email: opt_view(self.bootstrap_admin_email),
            bootstrap_admin_password: opt_view(self.bootstrap_admin_password),
        }
    }
}

/// The value of the first variable named `key` at or after position `i`.
pub open spec fn env_lookup_from(env: Seq<(String, String)>, key: Seq<char>, i: int) -> Option<
    Seq<char>,
>
    decreases env.len() - i,
{
    if i < 0 || i >= env.len() {
        None
    } else if env[i].0@ == key {
        Some(env[i].1@)
    } else {
        env_lookup_from(env, key, i + 1)
    }
}

/// The value of variable `key`, trimmed, if it is set.
pub open spec fn env_var(env: Seq<(String, String)>, key: Seq<char>) -> Option<Seq<char>> {
    match env_lookup_from(env, key, 0) {
        Some(v) => Some(trim(v)),
        None => None,
    }
}

/// `o`, or `d` when it is absent.
pub open spec fn or_default(o: Option<Seq<char>>, d: Seq<char>) -> Seq<char> {
    match o {
        Some(v) => v,
        None => d,
    }
}

/// The words that a boolean setting accepts, in any ASCII case and with surrounding
/// whitespace.
pub open spec fn parse_bool_spec(v: Seq<char>) -> Option<bool> {
    let t = ascii_lowercase(trim(v));
    if t == "1"@ || t == "true"@ || t == "yes"@ || t == "y"@ || t == "on"@ {
        Some(true)
    } else if t == "0"@ || t == "false"@ || t == "no"@ || t == "n"@ || t == "off"@ {
        Some(false)
    } else {
        None
    }
}

/// `c` is an ASCII decimal digit.
pub open spec fn is_digit(c: char) -> bool {
    '0' <= c <= '9'
}

/// `s` without one leading `+`.
pub open spec fn sign_stripped(s: Seq<char>) -> Seq<char> {
    if s.len() > 0 && s[0] == '+' {
        s.drop_first()
    } else {
        s
    }
}

/// Every character of `d` is a decimal digit.
pub open spec fn all_digits(d: Seq<char>) -> bool {
    forall|i: int| 0 <= i < d.len() ==> is_digit(#[trigger] d[i])
}

/// The number that a string of decimal digits denotes.
pub open spec fn digits_value(d: Seq<char>) -> nat
    decreases d.len(),
{
    if d.len() == 0 {
        0
    } else {
        digits_value(d.drop_last()) * 10 + ((d.last() as u32) - 48) as nat
    }
}

/// What `u64::from_str` accepts: an optional `+`, then one or more decimal digits
/// whose value fits in 64 bits.
pub open spec fn parse_u64_spec(s: Seq<char>) -> Option<u64> {
    let d = sign_stripped(s);
    if d.len() > 0 && all_digits(d) && digits_value(d) <= u64::MAX {
        Some(digits_value(d) as u64)
    } else {
        None
    }
}

/// Whether cookies are marked `Secure`: `COOKIE_SECURE` when set (`None` if it is
/// not a boolean word), else whether the public URL is `https://`.
pub open spec fn cookie_secure_setting(env: Seq<(String, String)>, public_base_url: Seq<char>) -> Option<bool> {
    match env_var(env, "COOKIE_SECURE"@) {
        Some(v) => parse_bool_spec(v),
        None => Some(has_prefix(public_base_url, "https://"@)),
    }
}

/// The upload limit: `MAX_UPLOAD_BYTES` when set (`None` if it is not a `u64`), else
/// 100 MiB.
pub open spec fn max_upload_setting(env: Seq<(String, String)>) -> Option<u64> {
    match env_var(env, "MAX_UPLOAD_BYTES"@) {
        Some(v) => parse_u64_spec(v),
        None => Some(DEFAULT_MAX_UPLOAD_BYTES),
    }
}

/// The configuration that the environment `env` describes, or the message of the
/// first setting that makes it unusable.
pub open spec fn config_from_env(env: Seq<(String, String)>) -> Result<ConfigView, Seq<char>> {
    let public_base_url = or_default(env_var(env, "PUBLIC_BASE_URL"@), "http://127.0.0.1:8080"@);
    match env_var(env, "SESSION_SECRET"@) {
        None => Err("SESSION_SECRET required"@),
        Some(secret) => if byte_len(trim(secret)) < 32 {
            Err("SESSION_SECRET must be at least 32 chars"@)
        } else {
            match cookie_secure_setting(env, public_base_url) {
                None => Err("COOKIE_SECURE invalid"@),
                Some(cookie_secure) => match max_upload_setting(env) {
                    None => Err("MAX_UPLOAD_BYTES invalid"@),
                    Some(max_upload_bytes) => Ok(
                        ConfigView {
                            bind_addr: or_default(env_var(env, "BIND_ADDR"@), "127.0.0.1:8080"@),
                            database_url: or_default(
                                env_var(env, "DATABASE_URL"@),
                                "sqlite:./app.sqlite"@,
                            ),
                            storage_root: or_default(env_var(env, "STORAGE_ROOT"@), "./data"@),
                            public_base_url,
                            session_secret: secret,
                            cookie_secure,
                            max_upload_bytes,
                            web_dist: env_var(env, "WEB_DIST"@),
                            bootstrap_admin_email: env_var(env, "BOOTSTRAP_ADMIN_EMAIL"@),
                            bootstrap_admin_password: env_var(env, "BOOTSTRAP_ADMIN_PASSWORD"@),
                        },
                    ),
                },
            }
        },
    }
}

/// Each setting comes from its environment variable, trimmed, or from its default
/// when the variable is absent; a missing or short `SESSION_SECRET` is refused.
pub proof fn lemma_config_settings(env: Seq<(String, String)>)
    ensures
            env_var(env, "SESSION_SECRET"@) is None ==> !(config_from_env(env) is Ok),
            (env_var(env, "SESSION_SECRET"@) matches Some(v) && byte_len(trim(v)) < 32) ==> !(config_from_env(env) is Ok),
            config_from_env(env) matches Ok(c) ==> {
                &&& (env_var(env, "BIND_ADDR"@) matches Some(v) ==> c.bind_addr == v)
                &&& (env_var(env, "BIND_ADDR"@) is None ==> c.bind_addr == "127.0.0.1:8080"@)
                &&& (env_var(env, "DATABASE_URL"@) matches Some(v) ==> c.database_url == v)
                &&& (env_var(env, "DATABASE_URL"@) is None ==> c.database_url == "sqlite:./app.sqlite"@)
                &&& (env_var(env, "STORAGE_ROOT"@) matches Some(v) ==> c.storage_root == v)
                &&& (env_var(env, "STORAGE_ROOT"@) is None ==> c.storage_root == "./data"@)
                &&& (env_var(env, "PUBLIC_BASE_URL"@) matches Some(v) ==> c.public_base_url == v)
                &&& (env_var(env, "PUBLIC_BASE_URL"@) is None ==> c.public_base_url
                    == "http://127.0.0.1:8080"@)
                &&& env_var(env, "SESSION_SECRET"@) == Some(c.session_secret)
                &&& 32 <= byte_len(trim(c.session_secret))
                &&& (env_var(env, "COOKIE_SECURE"@) matches Some(v) ==> parse_bool_spec(v) == Some(
                    c.cookie_secure,
                ))
                &&& (env_var(env, "COOKIE_SECURE"@) is None ==> c.cookie_secure == has_prefix(
                    c.public_base_url,
                    "https://"@,
                ))
                &&& (env_var(env, "MAX_UPLOAD_BYTES"@) matches Some(v) ==> parse_u64_spec(v) == Some(
                    c.max_upload_bytes,
                ))
                &&& (env_var(env, "MAX_UPLOAD_BYTES"@) is None ==> c.max_upload_bytes == 104857600)
                &&& c.web_dist == env_var(env, "WEB_DIST"@)
                &&& c.bootstrap_admin_email == env_var(env, "BOOTSTRAP_ADMIN_EMAIL"@)
                &&& c.bootstrap_admin_password == env_var(env, "BOOTSTRAP_ADMIN_PASSWORD"@)
            },
{
}

/// `Path::join` on Unix: an absolute `p` replaces `base`; otherwise `p` is appended,
/// after a `/` unless `base` is empty or already ends in one.
pub open spec fn path_join(base: Seq<char>, p: Seq<char>) -> Seq<char> {
    if p.len() > 0 && p[0] == '/' {
        p
    } else if base.len() > 0 && base.last() != '/' {
        base + seq!['/'] + p
    } else {
        base + p
    }
}

/// A stored path is accepted when it is non-empty, relative, and holds neither a
/// backslash nor `..`.
pub open spec fn valid_rel_path(rel: Seq<char>) -> bool {
    &&& rel.len() > 0
    &&& rel[0] != '/'
    &&& !rel.contains('\\')
    &&& !has_double_dot(rel)
}

/// Number of characters that make up the first two bytes of `s`, or -1 when byte 2
/// falls inside a character or past the end.
pub open spec fn two_byte_split(s: Seq<char>) -> int {
    if s.len() >= 1 && byte_len(s.take(1)) == 2 {
        1
    } else if s.len() >= 2 && byte_len(s.take(2)) == 2 {
        2
    } else {
        -1
    }
}

/// Where the object with digest `h` is stored, relative to the storage root:
/// `objects/<first two bytes>/<rest>/<h>`.
pub open spec fn object_rel_path_spec(h: Seq<char>) -> Seq<char> {
    let k = two_byte_split(h);
    "objects/"@ + h.take(k) + seq!['/'] + h.skip(k) + seq!['/'] + h
}

/// Number of bytes in the UTF-8 encoding of `c`.
pub fn char_width(c: char) -> (w: usize)
    ensures
        w == byte_len(seq![c]),
        1 <= w <= 4,
{
    proof {
        reveal_with_fuel(encode_utf8, 2);
        assert(seq![c].drop_first() == Seq::<char>::empty());
    }
    let v = c as u32;
    if v <= 0x7F {
        1
    } else if v <= 0x7FF {
        2
    } else if v <= 0xFFFF {
        3
    } else {
        4
    }
}

/// The value of the first variable named `key`, trimmed.
fn get_env(env: &Vec<(String, String)>, key: &str) -> (r: Option<String>)
    ensures
        opt_view(r) == env_var(env@, key@),
{
    let mut i: usize = 0;
    while i < env.len()
        invariant
            0 <= i <= env.len(),
            env_lookup_from(env@, key@, 0) == env_lookup_from(env@, key@, i as int),
        decreases env.len() - i,
    {
        if str_eq(env[i].0.as_str(), key) {
            return Some(trim_str(env[i].1.as_str()));
        }
        i = i + 1;
    }
    None
}

/// Reads a boolean word: `1 true yes y on` or `0 false no n off`, in any ASCII case,
/// surrounding whitespace ignored.
pub fn parse_bool(v: &str) -> (r: Option<bool>)
    ensures
        r == parse_bool_spec(v@),
{
    let t = trim_str(v);
    let l = to_ascii_lowercase(t.as_str());
    let s = l.as_str();
    if str_eq(s, "1") || str_eq(s, "true") || str_eq(s, "yes") || str_eq(s, "y") || str_eq(s, "on") {
        Some(true)
    } else if str_eq(s, "0") || str_eq(s, "false") || str_eq(s, "no") || str_eq(s, "n") || str_eq(
        s,
        "off",
    ) {
        Some(false)
    } else {
        None
    }
}

/// A digit string is worth at least as much as any of its prefixes.
proof fn lemma_digits_value_prefix(d: Seq<char>, i: int)
    requires
        0 <= i <= d.len(),
        forall|j: int| 0 <= j < d.len() ==> is_digit(#[trigger] d[j]),
    ensures
        digits_value(d.take(i)) <= digits_value(d),
    decreases d.len(),
{
    if i < d.len() {
        let e = d.drop_last();
        assert forall|j: int| 0 <= j < e.len() implies is_digit(#[trigger] e[j]) by {
            assert(e[j] == d[j]);
        }
        lemma_digits_value_prefix(e, i);
        assert(e.take(i) == d.take(i));
    } else {
        assert(d.take(i) == d);
    }
}

/// Reads an unsigned 64-bit number as `u64::from_str` does.
pub fn parse_u64(s: &str) -> (r: Option<u64>)
    ensures
        r == parse_u64_spec(s@),
{
    let v = chars_of(s);
    let start: usize = if v.len() > 0 && v[0] == '+' {
        1
    } else {
        0
    };
    let ghost d = sign_stripped(s@);
    assert(d == v@.skip(start as int));
    if start == v.len() {
        return None;
    }
    let mut acc: u64 = 0;
    let mut i: usize = start;
    while i < v.len()
        invariant
            start <= i <= v.len(),
            v@ == s@,
            d == v@.skip(start as int),
            d == sign_stripped(s@),
            forall|j: int| start <= j < i ==> is_digit(#[trigger] v@[j]),
            acc as nat == digits_value(d.take(i - start)),
        decreases v.len() - i,
    {
        let c = v[i];
        assert(d.take(i + 1 - start).drop_last() == d.take(i - start));
        assert(d.take(i + 1 - start).last() == c);
        if c < '0' || c > '9' {
            assert(d[i - start] == v@[i as int]);
            assert(!is_digit(d[i - start]));
            return None;
        }
        let digit = ((c as u32) - 48) as u64;
        assert(digits_value(d.take(i + 1 - start)) == digits_value(d.take(i - start)) * 10
            + digit);
        match acc.checked_mul(10) {
            None => {
                proof {
                    if all_digits(d) {
                        lemma_digits_value_prefix(d, i + 1 - start);
                    }
                }
                return None;
            },
            Some(m) => match m.checked_add(digit) {
                None => {
                    proof {
                        if all_digits(d) {
                            lemma_digits_value_prefix(d, i + 1 - start);
                        }
                    }
                    return None;
                },
                Some(a) => {
                    acc = a;
                },
            },
        }
        i = i + 1;
    }
    proof {
        assert(d.take(v.len() - start) == d);
        assert forall|j: int| 0 <= j < d.len() implies is_digit(#[trigger] d[j]) by {
            assert(d[j] == v@[j + start]);
        }
    }
    Some(acc)
}

impl Config {
    /// Reads the configuration from the environment variables `env` (name, value):
    /// defaults for the optional settings, errors for a missing or short
    /// `SESSION_SECRET` and for malformed `COOKIE_SECURE` or `MAX_UPLOAD_BYTES`.
    pub fn from_env(env: &Vec<(String, String)>) -> (r: Result<Config, AppError>)
        ensures
            r is Ok <==> config_from_env(env@) is Ok,
            r matches Ok(c) ==> config_from_env(env@) == Ok::<ConfigView, Seq<char>>(c@),
            r matches Err(e) ==> (config_from_env(env@) matches Err(m) && is_config_error(e, m)),
            env_var(env@, "SESSION_SECRET"@) is None ==> !(r is Ok),
            (env_var(env@, "SESSION_SECRET"@) matches Some(v) && byte_len(trim(v)) < 32) ==> !(r is Ok),
            r matches Ok(cc) ==> {
                &&& (env_var(env@, "BIND_ADDR"@) matches Some(v) ==> cc@.bind_addr == v)
                &&& (env_var(env@, "BIND_ADDR"@) is None ==> cc@.bind_addr == "127.0.0.1:8080"@)
                &&& (env_var(env@, "DATABASE_URL"@) matches Some(v) ==> cc@.database_url == v)
                &&& (env_var(env@, "DATABASE_URL"@) is None ==> cc@.database_url == "sqlite:./app.sqlite"@)
                &&& (env_var(env@, "STORAGE_ROOT"@) matches Some(v) ==> cc@.storage_root == v)
                &&& (env_var(env@, "STORAGE_ROOT"@) is None ==> cc@.storage_root == "./data"@)
                &&& (env_var(env@, "PUBLIC_BASE_URL"@) matches Some(v) ==> cc@.public_base_url == v)
                &&& (env_var(env@, "PUBLIC_BASE_URL"@) is None ==> cc@.public_base_url
                    == "http://127.0.0.1:8080"@)
                &&& env_var(env@, "SESSION_SECRET"@) == Some(cc@.session_secret)
                &&& 32 <= byte_len(trim(cc@.session_secret))
                &&& (env_var(env@, "COOKIE_SECURE"@) matches Some(v) ==> parse_bool_spec(v) == Some(
                    cc@.cookie_secure,
                ))
                &&& (env_var(env@, "COOKIE_SECURE"@) is None ==> cc@.cookie_secure == has_prefix(
                    cc@.public_base_url,
                    "https://"@,
                ))
                &&& (env_var(env@, "MAX_UPLOAD_BYTES"@) matches Some(v) ==> parse_u64_spec(v) == Some(
                    cc@.max_upload_bytes,
                ))
                &&& (env_var(env@, "MAX_UPLOAD_BYTES"@) is None ==> cc@.max_upload_bytes == 104857600)
                &&& cc@.web_dist == env_var(env@, "WEB_DIST"@)
                &&& cc@.bootstrap_admin_email == env_var(env@, "BOOTSTRAP_ADMIN_EMAIL"@)
                &&& cc@.bootstrap_admin_password == env_var(env@, "BOOTSTRAP_ADMIN_PASSWORD"@)
            },
    {
        proof {
            lemma_config_settings(env@);
        }
        let bind_addr = match get_env(env, "BIND_ADDR") {
            Some(v) => v,
            None => "127.0.0.1:8080".to_owned(),
        };
        let database_url = match get_env(env, "DATABASE_URL") {
            Some(v) => v,
            None => "sqlite:./app.sqlite".to_owned(),
        };
        let storage_root = match get_env(env, "STORAGE_ROOT") {
            Some(v) => v,
            None => "./data".to_owned(),
        };
        let public_base_url = match get_env(env, "PUBLIC_BASE_URL") {
            Some(v) => v,
            None => "http://127.0.0.1:8080".to_owned(),
        };
        let session_secret = match get_env(env, "SESSION_SECRET") {
            Some(v) => v,
            None => {
                return Err(AppError::config("SESSION_SECRET required"));
            },
        };
        let trimmed = trim_str(session_secret.as_str());
        if utf8_len(trimmed.as_str()) < 32 {
            return Err(AppError::config("SESSION_SECRET must be at least 32 chars"));
        }
        let cookie_secure = match get_env(env, "COOKIE_SECURE") {
            Some(v) => match parse_bool(v.as_str()) {
                Some(b) => b,
                None => {
                    return Err(AppError::config("COOKIE_SECURE invalid"));
                },
            },
            None => starts_with(public_base_url.as_str(), "https://"),
        };
        let max_upload_bytes = match get_env(env, "MAX_UPLOAD_BYTES") {
            Some(v) => match parse_u64(v.as_str()) {
                Some(n) => n,
                None => {
                    return Err(AppError::config("MAX_UPLOAD_BYTES invalid"));
                },
            },
            None => DEFAULT_MAX_UPLOAD_BYTES,
        };
        let web_dist = get_env(env, "WEB_DIST");
        let bootstrap_admin_email = get_env(env, "BOOTSTRAP_ADMIN_EMAIL");
        let bootstrap_admin_password = get_env(env, "BOOTSTRAP_ADMIN_PASSWORD");
        Ok(
            Config {
                bind_addr,
                database_url,
                storage_root,
                public_base_url,
                session_secret,
                cookie_secure,
                max_upload_bytes,
                web_dist,
                bootstrap_admin_email,
                bootstrap_admin_password,
            },
        )
    }

    /// The directory that holds stored objects: `<root>/objects`.
    pub fn storage_objects_dir(&self) -> (r: String)
        ensures
            r@ == path_join(self.storage_root@, "objects"@),
    {
        join_path(self.storage_root.as_str(), "objects")
    }

    /// The directory for uploads in progress: `<root>/tmp`.
    pub fn storage_tmp_dir(&self) -> (r: String)
        ensures
            r@ == path_join(self.storage_root@, "tmp"@),
    {
        join_path(self.storage_root.as_str(), "tmp")
    }

    /// Where the object with digest `sha256_hex` is stored, relative to the root:
    /// `objects/<first two bytes>/<rest>/<sha256_hex>`. Byte 2 must be a character
    /// boundary, as `str::split_at` demands.
    pub fn object_rel_path(&self, sha256_hex: &str) -> (r: String)
        requires
            two_byte_split(sha256_hex@) >= 0,
        ensures
            r@ == object_rel_path_spec(sha256_hex@),
    {
        let v = chars_of(sha256_hex);
        let w0 = char_width(v[0]);
        proof {
            assert(v@.take(1) == seq![v@[0]]);
            if v@.len() >= 2 {
                assert(v@.take(2) == seq![v@[0]] + seq![v@[1]]);
                crate::text::lemma_encode_utf8_concat(seq![v@[0]], seq![v@[1]]);
            }
        }
        let k: usize = if w0 == 2 {
            1
        } else {
            2
        };
        let a = string_from_chars(&v, 0, k);
        let b = string_from_chars(&v, k, v.len());
        assert(a@ == sha256_hex@.take(k as int));
        assert(b@ == sha256_hex@.skip(k as int));
        let mut r = "objects/".to_owned();
        append_str(&mut r, a.as_str());
        push_char(&mut r, '/');
        append_str(&mut r, b.as_str());
        push_char(&mut r, '/');
        append_str(&mut r, sha256_hex);
        r
    }

    /// The full path of a stored object: `rel` joined to the storage root.
    pub fn storage_object_full_path(&self, rel: &str) -> (r: String)
        ensures
            r@ == path_join(self.storage_root@, rel@),
    {
        join_path(self.storage_root.as_str(), rel)
    }

    /// Accepts a stored path only when it is non-empty, relative, and holds neither
    /// a backslash nor `..`.
    pub fn validate_rel_path(rel: &str) -> (r: Result<(), AppError>)
        ensures
            r is Ok <==> valid_rel_path(rel@),
            r matches Err(e) ==> is_bad_request(e, "invalid path"@),
    {
        let v = chars_of(rel);
        if v.len() == 0 || v[0] == '/' || contains_char(rel, '\\') || contains_double_dot(rel) {
            return Err(AppError::bad_request("invalid path"));
        }
        Ok(())
    }

    /// The administrator account to create at start-up: the trimmed e-mail address and
    /// the password, when both are configured.
    pub fn bootstrap_admin(&self) -> (r: Option<(String, String)>)
        ensures
            match (self.bootstrap_admin_email, self.bootstrap_admin_password) {
                (Some(e), Some(p)) => r matches Some(t) && t.0@ == trim(e@) && t.1@ == p@,
                _ => r is None,
            },
    {
        match (&self.bootstrap_admin_email, &self.bootstrap_admin_password) {
            (Some(e), Some(p)) => Some((trim_str(e.as_str()), p.clone())),
            _ => None,
        }
    }
}

/// `p` joined to `base` as `Path::join` does on Unix.
pub fn join_path(base: &str, p: &str) -> (r: String)
    ensures
        r@ == path_join(base@, p@),
{
    let pv = chars_of(p);
    if pv.len() > 0 && pv[0] == '/' {
        return p.to_owned();
    }
    let bv = chars_of(base);
    let mut r = base.to_owned();
    if bv.len() > 0 && bv[bv.len() - 1] != '/' {
        push_char(&mut r, '/');
    }
    append_str(&mut r, p);
    r
}

/// Characters of a stored object path: lowercase ASCII letters, digits and `/`.
pub open spec fn plain_path_chars(s: Seq<char>) -> bool {
    forall|i: int| 0 <= i < s.len() ==> ('a' <= #[trigger] s[i] <= 'z' || '0' <= s[i] <= '9' || s[i] == '/')
}

/// A digest in lowercase hex (at least two characters) splits after two characters,
/// and names a stored path that `validate_rel_path` accepts.
pub proof fn lemma_digest_path_valid(h: Seq<char>)
    requires
        h.len() >= 2,
        all_hex_lower(h),
    ensures
        two_byte_split(h) == 2,
        valid_rel_path(object_rel_path_spec(h)),
{
    broadcast use vstd::utf8::is_ascii_chars_encode_utf8;

    assert(vstd::utf8::is_ascii_chars(h.take(1)));
    assert(vstd::utf8::is_ascii_chars(h.take(2)));
    reveal_strlit("objects/");
    let p = object_rel_path_spec(h);
    let pre = "objects/"@;
    assert(pre =~= seq!['o', 'b', 'j', 'e', 'c', 't', 's', '/']);
    let parts = pre + h.take(2) + seq!['/'] + h.skip(2) + seq!['/'] + h;
    assert(p == parts);
    assert(plain_path_chars(p)) by {
        assert forall|i: int| 0 <= i < p.len() implies ('a' <= #[trigger] p[i] <= 'z' || '0' <= p[i]
            <= '9' || p[i] == '/') by {
            let a = pre.len() as int;
            let b = a + 2;
            let c = b + 1;
            let d = c + h.len() - 2;
            let e = d + 1;
            if i < a {
            } else if i < b {
                assert(p[i] == h[i - a]);
            } else if i < c {
            } else if i < d {
                assert(p[i] == h[i - c + 2]);
            } else if i < e {
            } else {
                assert(p[i] == h[i - e]);
            }
        }
    }
    if p.contains('\\') {
        let j = choose|j: int| 0 <= j < p.len() && p[j] == '\\';
        assert('a' <= p[j] <= 'z' || '0' <= p[j] <= '9' || p[j] == '/');
    }
    if has_double_dot(p) {
        let j = choose|j: int| 0 <= j && j + 1 < p.len() && p[j] == '.' && #[trigger] p[j + 1] == '.';
        assert('a' <= p[j] <= 'z' || '0' <= p[j] <= '9' || p[j] == '/');
    }
}

/// The full path of the object with digest `h` lies in the objects directory:
/// `<objects dir>/<first two>/<rest>/<h>`.
pub proof fn lemma_object_path_in_objects_dir(root: Seq<char>, h: Seq<char>)
    requires
        h.len() >= 2,
        all_hex_lower(h),
    ensures
        path_join(root, object_rel_path_spec(h)) == path_join(root, "objects"@) + seq!['/'] + h.take(2)
            + seq!['/'] + h.skip(2) + seq!['/'] + h,
{
    lemma_digest_path_valid(h);
    reveal_strlit("objects/");
    reveal_strlit("objects");
    assert("objects/"@ =~= "objects"@ + seq!['/']);
    let p = object_rel_path_spec(h);
    assert(p[0] == 'o');
    assert(p == "objects"@ + (seq!['/'] + h.take(2) + seq!['/'] + h.skip(2) + seq!['/'] + h));
    assert("objects"@[0] == 'o');
    if root.len() > 0 && root.last() != '/' {
        assert(path_join(root, p) =~= root + seq!['/'] + p);
        assert(path_join(root, "objects"@) == root + seq!['/'] + "objects"@);
        assert(path_join(root, p) =~= path_join(root, "objects"@) + seq!['/'] + h.take(2) + seq![
            '/',
        ] + h.skip(2) + seq!['/'] + h);
    } else {
        assert(path_join(root, p) =~= path_join(root, "objects"@) + seq!['/'] + h.take(2) + seq![
            '/',
        ] + h.skip(2) + seq!['/'] + h);
    }
}

/// Distinct digests are stored at distinct paths: the path ends with the digest and
/// its length fixes the digest's length.
pub proof fn lemma_object_path_injective(h1: Seq<char>, h2: Seq<char>)
    requires
        h1.len() >= 2,
        h2.len() >= 2,
        all_hex_lower(h1),
        all_hex_lower(h2),
        object_rel_path_spec(h1) == object_rel_path_spec(h2),
    ensures
        h1 == h2,
{
    lemma_digest_path_valid(h1);
    lemma_digest_path_valid(h2);
    let p = object_rel_path_spec(h1);
    let pre = "objects/"@;
    let a1 = pre + h1.take(2) + seq!['/'] + h1.skip(2) + seq!['/'];
    let a2 = pre + h2.take(2) + seq!['/'] + h2.skip(2) + seq!['/'];
    assert(p == a1 + h1);
    assert(object_rel_path_spec(h2) == a2 + h2);
    assert(a1.len() == pre.len() + h1.len() + 2);
    assert(a2.len() == pre.len() + h2.len() + 2);
    assert(h1.len() == h2.len());
    assert(h1 =~= (a1 + h1).skip(a1.len() as int));
    assert(h2 =~= (a2 + h2).skip(a2.len() as int));
}

} // verus!
