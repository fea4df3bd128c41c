//! Files: the listing query, and the rules of an upload in progress.

use vstd::prelude::*;
use crate::digest::{sha256, sha256_finalize, sha256_input, sha256_new, sha256_update, Sha256Hasher};
use crate::error::{is_bad_request, AppError};
use crate::hex::{all_hex_lower, hex_encode, hex_lower, lemma_hex_lower_shape};
use crate::text::{append_str, chars_of, push_char, str_eq, trim, trim_str};
use crate::util::{safe_filename, safe_filename_spec};

verus! {

/// The first part of the listing query.
pub const FILE_LIST_SELECT: &'static str =
    "SELECT id, original_name, mime, size_bytes, sha256, created_at, deleted_at FROM files";

/// Parameters of a file listing.
#[derive(Debug)]
pub struct ListQuery {
    pub q: Option<String>,
    pub mime_prefix: Option<String>,
    pub page: Option<u32>,
    pub per_page: Option<u32>,
    pub include_deleted: Option<bool>,
}

/// A value bound to a `?` of a query.
#[derive(Debug)]
pub enum SqlArg {
    Text(String),
    Int(i64),
}

/// A value bound to a `?`, as a mathematical value.
pub enum SqlArgView {
    Text(Seq<char>),
    Int(i64),
}

impl View for SqlArg {
    type V = SqlArgView;

    open spec fn view(&self) -> SqlArgView {
        match self {
            SqlArg::Text(s) => SqlArgView::Text(s@),
            SqlArg::Int(n) => SqlArgView::Int(*n),
        }
    }
}

/// A query with its arguments, one per `?`, in order.
#[derive(Debug)]
pub struct SqlPlan {
    pub sql: String,
    pub args: Vec<SqlArg>,
}

/// The arguments as mathematical values.
pub open spec fn args_view(a: Seq<SqlArg>) -> Seq<SqlArgView> {
    a.map_values(|x: SqlArg| x@)
}

/// `s` with every `%` removed (`str::replace('%', "")`).
pub open spec fn without_percent(s: Seq<char>) -> Seq<char>
    decreases s.len(),
{
    if s.len() == 0 {
        s
    } else {
        let r = without_percent(s.drop_last());
        if s.last() == '%' {
            r
        } else {
            r.push(s.last())
        }
    }
}

/// An optional filter, trimmed, when something is left.
pub open spec fn filter_term(o: Option<String>) -> Option<Seq<char>> {
    match o {
        Some(s) => if trim(s@).len() > 0 {
            Some(trim(s@))
        } else {
            None
        },
        None => None,
    }
}

/// The page asked for, 1 at least.
pub open spec fn list_page(q: ListQuery) -> u32 {
    let p = match q.page {
        Some(p) => p,
        None => 1u32,
    };
    if p < 1 {
        1
    } else {
        p
    }
}

/// The page size asked for, 50 by default, kept within 1 to 200.
pub open spec fn list_per_page(q: ListQuery) -> u32 {
    let p = match q.per_page {
        Some(p) => p,
        None => 50u32,
    };
    if p < 1 {
        1
    } else if p > 200 {
        200
    } else {
        p
    }
}

/// The conditions of a listing: not deleted (unless deleted files are asked for), name
/// containing the search term, type starting with the prefix.
pub open spec fn list_conditions(q: ListQuery) -> Seq<Seq<char>> {
    let c1: Seq<Seq<char>> = if q.include_deleted != Some(true) {
        seq!["deleted_at IS NULL"@]
    } else {
        Seq::empty()
    };
    let c2: Seq<Seq<char>> = if filter_term(q.q) is Some {
        seq!["original_name LIKE ?"@]
    } else {
        Seq::empty()
    };
    let c3: Seq<Seq<char>> = if filter_term(q.mime_prefix) is Some {
        seq!["mime LIKE ?"@]
    } else {
        Seq::empty()
    };
    c1 + c2 + c3
}

/// The conditions joined: ` WHERE ` before the first, ` AND ` before the others.
pub open spec fn where_part(conds: Seq<Seq<char>>) -> Seq<char>
    decreases conds.len(),
{
    if conds.len() == 0 {
        Seq::empty()
    } else {
        where_part(conds.drop_last()) + (if conds.len() == 1 {
            " WHERE "@
        } else {
            " AND "@
        }) + conds.last()
    }
}

/// The arguments of a listing: the search pattern, the type pattern, the page size and
/// the offset.
pub open spec fn list_args(q: ListQuery) -> Seq<SqlArgView> {
    let a1: Seq<SqlArgView> = match filter_term(q.q) {
        Some(t) => seq![SqlArgView::Text(seq!['%'] + without_percent(t) + seq!['%'])],
        None => Seq::empty(),
    };
    let a2: Seq<SqlArgView> = match filter_term(q.mime_prefix) {
        Some(t) => seq![SqlArgView::Text(without_percent(t) + seq!['%'])],
        None => Seq::empty(),
    };
    let per = list_per_page(q) as i64;
    let offset = ((list_page(q) - 1) * list_per_page(q)) as i64;
    a1 + a2 + seq![SqlArgView::Int(per), SqlArgView::Int(offset)]
}

/// The query text of a listing, newest first.
pub open spec fn list_sql(q: ListQuery) -> Seq<char> {
    FILE_LIST_SELECT@ + where_part(list_conditions(q)) + " ORDER BY created_at DESC LIMIT ? OFFSET ?"@
}

/// A listing shows one page: its limit is the page size asked for (50 by default, kept
/// within 1 to 200), and its offset skips the pages before the one asked for (the
/// first when none, or page 0, is asked for).
pub proof fn lemma_list_page_window(q: ListQuery)
    ensures
        ({
            let per: int = match q.per_page {
                Some(x) => if x < 1 {
                    1
                } else if x > 200 {
                    200
                } else {
                    x as int
                },
                None => 50,
            };
            let page: int = match q.page {
                Some(x) => if x < 1 {
                    1
                } else {
                    x as int
                },
                None => 1,
            };
            let a = list_args(q);
            &&& 1 <= per <= 200
            &&& a.len() >= 2
            &&& a[a.len() - 2] == SqlArgView::Int(per as i64)
            &&& a[a.len() - 1] == SqlArgView::Int(((page - 1) * per) as i64)
        }),
{
}

/// `s` with every `%` removed.
fn strip_percent(s: &str) -> (r: String)
    ensures
        r@ == without_percent(s@),
{
    let v = chars_of(s);
    let mut r = String::new();
    let mut i: usize = 0;
    while i < v.len()
        invariant
            0 <= i <= v.len(),
            v@ == s@,
            r@ == without_percent(v@.take(i as int)),
        decreases v.len() - i,
    {
        assert(v@.take(i + 1).drop_last() == v@.take(i as int));
        if v[i] != '%' {
            push_char(&mut r, v[i]);
        }
        i = i + 1;
    }
    assert(v@.take(v.len() as int) == v@);
    r
}

/// A filter, trimmed, when something is left.
fn filter_value(o: &Option<String>) -> (r: Option<String>)
    ensures
        match r {
            Some(s) => filter_term(*o) == Some(s@),
            None => filter_term(*o) is None,
        },
{
    match o {
        Some(s) => {
            let t = trim_str(s.as_str());
            if t.as_str().is_empty() {
                None
            } else {
                Some(t)
            }
        },
        None => None,
    }
}

/// Appends one condition, after ` WHERE ` when it is the first, else after ` AND `.
fn push_condition(sql: &mut String, conds: Ghost<Seq<Seq<char>>>, cond: &str, first: bool)
    requires
        old(sql)@ == FILE_LIST_SELECT@ + where_part(conds@),
        first == (conds@.len() == 0),
    ensures
        final(sql)@ == FILE_LIST_SELECT@ + where_part(conds@.push(cond@)),
{
    proof {
        assert(conds@.push(cond@).drop_last() =~= conds@);
        reveal_strlit(" WHERE ");
        reveal_strlit(" AND ");
    }
    if first {
        append_str(sql, " WHERE ");
    } else {
        append_str(sql, " AND ");
    }
    append_str(sql, cond);
}

/// The listing query: the conditions that apply, newest first, one page.
pub fn plan_file_list(q: &ListQuery) -> (p: SqlPlan)
    ensures
        p.sql@ == list_sql(*q),
        args_view(p.args@) == list_args(*q),
        ({
            let per: int = match q.per_page {
                Some(x) => if x < 1 {
                    1
                } else if x > 200 {
                    200
                } else {
                    x as int
                },
                None => 50,
            };
            let page: int = match q.page {
                Some(x) => if x < 1 {
                    1
                } else {
                    x as int
                },
                None => 1,
            };
            let a = args_view(p.args@);
            &&& a.len() >= 2
            &&& a[a.len() - 2] == SqlArgView::Int(per as i64)
            &&& a[a.len() - 1] == SqlArgView::Int(((page - 1) * per) as i64)
        }),
{
    proof {
        lemma_list_page_window(*q);
    }
    let page: u32 = match q.page {
        Some(p) => if p < 1 {
            1
        } else {
            p
        },
        None => 1,
    };
    let per_page: u32 = match q.per_page {
        Some(p) => if p < 1 {
            1
        } else if p > 200 {
            200
        } else {
            p
        },
        None => 50,
    };
    assert(0 <= (page - 1) as i64 * per_page as i64 <= 4294967295 * 200) by (nonlinear_arith)
        requires
            1 <= page,
            1 <= per_page <= 200,
    ;
    let offset: i64 = (page - 1) as i64 * per_page as i64;
    let mut sql = FILE_LIST_SELECT.to_owned();
    let mut args: Vec<SqlArg> = Vec::new();
    let ghost mut conds: Seq<Seq<char>> = Seq::empty();
    let mut first = true;
    proof {
        reveal_strlit("deleted_at IS NULL");
        reveal_strlit("original_name LIKE ?");
        reveal_strlit("mime LIKE ?");
    }
    if q.include_deleted != Some(true) {
        push_condition(&mut sql, Ghost(conds), "deleted_at IS NULL", first);
        first = false;
        proof {
            conds = conds.push("deleted_at IS NULL"@);
        }
    }
    let search = filter_value(&q.q);
    if let Some(t) = search {
        push_condition(&mut sql, Ghost(conds), "original_name LIKE ?", first);
        first = false;
        proof {
            conds = conds.push("original_name LIKE ?"@);
        }
        let mut pat = "%".to_owned();
        let stripped = strip_percent(t.as_str());
        append_str(&mut pat, stripped.as_str());
        push_char(&mut pat, '%');
        proof {
            reveal_strlit("%");
            assert("%"@ == seq!['%']);
        }
        let ghost pv = pat@;
        let ghost before = args@;
        args.push(SqlArg::Text(pat));
        assert(args@ == before.push(SqlArg::Text(pat)));
        assert(args_view(args@)[0] == SqlArgView::Text(pv));
        assert(pv =~= seq!['%'] + without_percent(t@) + seq!['%']);
        assert(args_view(args@) =~= seq![
            SqlArgView::Text(seq!['%'] + without_percent(t@) + seq!['%']),
        ]);
    }
    let ghost a1 = args_view(args@);
    let mime = filter_value(&q.mime_prefix);
    if let Some(t) = mime {
        push_condition(&mut sql, Ghost(conds), "mime LIKE ?", first);
        first = false;
        proof {
            conds = conds.push("mime LIKE ?"@);
        }
        let mut pat = strip_percent(t.as_str());
        push_char(&mut pat, '%');
        let ghost pv = pat@;
        let ghost before = args@;
        args.push(SqlArg::Text(pat));
        assert(args_view(args@)[args@.len() - 1] == SqlArgView::Text(pv));
        assert(pv =~= without_percent(t@) + seq!['%']);
        assert(args_view(args@) =~= a1 + seq![SqlArgView::Text(without_percent(t@) + seq!['%'])]);
    }
    let ghost a2 = args_view(args@);
    assert(conds == list_conditions(*q));
    append_str(&mut sql, " ORDER BY created_at DESC LIMIT ? OFFSET ?");
    args.push(SqlArg::Int(per_page as i64));
    args.push(SqlArg::Int(offset));
    assert(args_view(args@) =~= a2 + seq![
        SqlArgView::Int(per_page as i64),
        SqlArgView::Int(offset),
    ]);
    assert(args_view(args@) == list_args(*q));
    SqlPlan { sql, args }
}

/// The MIME type that `mime_guess` gives for a file of this name
/// (`from_path(..).first_or_octet_stream()`).
pub uninterp spec fn guessed_mime(name: Seq<char>) -> Seq<char>;

/// Guesses a MIME type from the extension of `name` with `mime_guess`, falling back to
/// `application/octet-stream`.
#[verifier::external_body]
fn guess_mime(name: &str) -> (r: String)
    ensures
        r@ == guessed_mime(name@),
{
    mime_guess::from_path(name).first_or_octet_stream().to_string()
}

/// Whether a form field carries the upload: only the field named `file` does.
pub fn is_upload_field(name: Option<&str>) -> (r: bool)
    ensures
        r == (name matches Some(n) && n@ == "file"@),
{
    match name {
        Some(n) => str_eq(n, "file"),
        None => false,
    }
}

/// What an upload without a field named `file` is answered.
pub fn missing_upload_field() -> (e: AppError)
    ensures
        is_bad_request(e, "file field missing"@),
{
    AppError::bad_request("file field missing")
}

/// The name under which an upload is kept: the client's file name, `file` when it
/// sent none, sanitised.
pub fn upload_file_name(file_name: Option<&str>) -> (r: String)
    ensures
        r@ == safe_filename_spec(
            match file_name {
                Some(n) => n@,
                None => "file"@,
            },
        ),
{
    match file_name {
        Some(n) => safe_filename(n),
        None => safe_filename("file"),
    }
}

/// The MIME type recorded for an upload: the one the client sent, else the one its
/// name suggests.
pub fn upload_mime(content_type: Option<&str>, original_name: &str) -> (r: String)
    ensures
        r@ == match content_type {
            Some(c) => c@,
            None => guessed_mime(original_name@),
        },
{
    match content_type {
        Some(c) => c.to_owned(),
        None => guess_mime(original_name),
    }
}

/// `n`, or `u64::MAX` when it does not fit (what `u64::saturating_add` gives).
pub open spec fn saturate(n: int) -> u64 {
    if n > u64::MAX {
        u64::MAX
    } else {
        n as u64
    }
}

/// An upload being received: the bytes taken so far, their SHA-256 in progress, and
/// the size limit.
pub struct UploadStream {
    hasher: Sha256Hasher,
    size: u64,
    limit: u64,
}

impl UploadStream {
    /// The bytes taken so far.
    pub closed spec fn received(&self) -> Seq<u8> {
        sha256_input(self.hasher)
    }

    /// The number of bytes taken so far, saturating at `u64::MAX`.
    pub closed spec fn size_spec(&self) -> u64 {
        self.size
    }

    /// The size limit.
    pub closed spec fn limit_spec(&self) -> u64 {
        self.limit
    }

    /// The size counts the bytes taken, saturating at `u64::MAX`.
    pub open spec fn wf(&self) -> bool {
        self.size_spec() == saturate(self.received().len() as int)
    }

    /// An upload with nothing received yet.
    pub fn new(limit: u64) -> (s: UploadStream)
        ensures
            s.wf(),
            s.received() == Seq::<u8>::empty(),
            s.size_spec() == 0,
            s.limit_spec() == limit,
    {
        UploadStream { hasher: sha256_new(), size: 0, limit }
    }

    /// Takes the next chunk. When the total would exceed the limit the upload is
    /// refused as too large and the chunk is not taken.
    pub fn feed(&mut self, chunk: &[u8]) -> (r: Result<(), AppError>)
        requires
            old(self).wf(),
        ensures
            final(self).wf(),
            final(self).limit_spec() == old(self).limit_spec(),
            saturate(old(self).size_spec() + chunk@.len()) > old(self).limit_spec()
                ==> (r matches Err(AppError::PayloadTooLarge) && final(self).received() == old(
                self,
            ).received()),
            saturate(old(self).size_spec() + chunk@.len()) <= old(
                self,
            ).limit_spec() ==> (r is Ok && final(self).received() == old(self).received()
                + chunk@),
    {
        broadcast use vstd::slice::group_slice_axioms;

        let n = chunk.len() as u64;
        let size = self.size.saturating_add(n);
        if size > self.limit {
            return Err(AppError::PayloadTooLarge);
        }
        sha256_update(&mut self.hasher, chunk);
        self.size = size;
        Ok(())
    }

    /// The number of bytes taken so far.
    pub fn size(&self) -> (n: u64)
        ensures
            n == self.size_spec(),
    {
        self.size
    }

    /// Ends the upload: the lowercase hex SHA-256 of all bytes taken.
    pub fn finish(self) -> (d: String)
        ensures
            d@ == hex_lower(sha256(self.received())),
            d@.len() == 64,
            all_hex_lower(d@),
    {
        let h = sha256_finalize(self.hasher);
        proof {
            lemma_hex_lower_shape(h@);
        }
        hex_encode(h.as_slice())
    }
}

} // verus!
