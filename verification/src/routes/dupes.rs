//! Duplicates: reading a group's file ids, and checking a request to keep one file of
//! a group and delete the others.

use vstd::prelude::*;
use crate::error::{is_bad_request, AppError};
use crate::text::{append_str, split_trimmed, split_trimmed_nonempty, str_eq, strings_view};

verus! {

/// The JSON text of an array of strings, as `serde_json::to_string` writes it.
pub uninterp spec fn json_string_array(items: Seq<Seq<char>>) -> Seq<char>;

/// Writes the strings as a compact JSON array with `serde_json`. Serialising a list of
/// strings cannot fail (the crate documents failure only for custom serialisers and
/// maps with non-string keys), so the fallback never applies.
#[verifier::external_body]
fn json_array(items: &Vec<String>) -> (r: String)
    ensures
        r@ == json_string_array(strings_view(items@)),
{
    serde_json::to_string(items).unwrap_or_default()
}

/// The file ids of a duplicate group, from their comma-separated list.
pub fn group_file_ids(ids: &str) -> (r: Vec<String>)
    ensures
        strings_view(r@) == split_trimmed(ids@, ','),
{
    split_trimmed_nonempty(ids, ',')
}

/// The outcome of checking a duplicates request.
pub enum DupesVerdict {
    /// Every file to delete has the kept file's digest.
    Accepted,
    /// No file to delete was named.
    Empty,
    /// The file to keep was not found.
    KeepMissing,
    /// A file to delete was not found.
    Missing,
    /// A file to delete has another digest.
    Mismatch,
}

/// The first failure among the files to delete from position `i` on.
pub open spec fn scan_dupes(keep: Seq<char>, shas: Seq<Option<String>>, i: int) -> DupesVerdict
    decreases shas.len() - i,
{
    if i < 0 || i >= shas.len() {
        DupesVerdict::Accepted
    } else {
        match shas[i] {
            None => DupesVerdict::Missing,
            Some(s) => if s@ != keep {
                DupesVerdict::Mismatch
            } else {
                scan_dupes(keep, shas, i + 1)
            },
        }
    }
}

/// The outcome of checking a duplicates request: the list must not be empty, the file
/// to keep must exist, then the files to delete are checked in order.
pub open spec fn dupes_verdict(keep: Option<String>, shas: Seq<Option<String>>) -> DupesVerdict {
    if shas.len() == 0 {
        DupesVerdict::Empty
    } else {
        match keep {
            None => DupesVerdict::KeepMissing,
            Some(k) => scan_dupes(k@, shas, 0),
        }
    }
}

/// Scanning from position `i` accepts exactly when every file from there on exists and
/// has the kept digest.
pub proof fn lemma_scan_dupes_accepts(keep: Seq<char>, shas: Seq<Option<String>>, i: int)
    requires
        0 <= i <= shas.len(),
    ensures
        scan_dupes(keep, shas, i) is Accepted <==> forall|j: int|
            i <= j < shas.len() ==> (#[trigger] shas[j] is Some && shas[j]->0@ == keep),
    decreases shas.len() - i,
{
    if i < shas.len() {
        lemma_scan_dupes_accepts(keep, shas, i + 1);
    }
}

/// A duplicates request is accepted exactly when it names at least one file to
/// delete, the file to keep exists, and every file to delete exists with the kept
/// file's digest.
pub proof fn lemma_dupes_accepted_iff_all_match(keep: Option<String>, shas: Seq<Option<String>>)
    ensures
        dupes_verdict(keep, shas) is Accepted <==> (shas.len() > 0 && keep is Some && forall|j: int|
            0 <= j < shas.len() ==> (#[trigger] shas[j] is Some && shas[j]->0@ == keep->0@)),
{
    if shas.len() > 0 {
        if let Some(k) = keep {
            lemma_scan_dupes_accepts(k@, shas, 0);
        }
    }
}

/// Checks a request to delete duplicates, given the digest of the file to keep and,
/// in request order, the digests of the files to delete (`None` for one not found or
/// already deleted). An empty list or a digest that differs is a bad request; a file
/// that is missing makes the request not found.
pub fn check_dupes_apply(keep_sha: Option<String>, delete_shas: &Vec<Option<String>>) -> (r: Result<
    (),
    AppError,
>)
    ensures
        match dupes_verdict(keep_sha, delete_shas@) {
            DupesVerdict::Accepted => r is Ok,
            DupesVerdict::Empty => r matches Err(e) && is_bad_request(e, "delete_file_ids empty"@),
            DupesVerdict::KeepMissing => r matches Err(AppError::NotFound),
            DupesVerdict::Missing => r matches Err(AppError::NotFound),
            DupesVerdict::Mismatch => r matches Err(e) && is_bad_request(
                e,
                "files must have same sha256"@,
            ),
        },
        r is Ok <==> (delete_shas@.len() > 0 && keep_sha is Some && forall|j: int|
            0 <= j < delete_shas@.len() ==> (#[trigger] delete_shas@[j] is Some
                && delete_shas@[j]->0@ == keep_sha->0@)),
{
    proof {
        lemma_dupes_accepted_iff_all_match(keep_sha, delete_shas@);
    }
    if delete_shas.len() == 0 {
        return Err(AppError::bad_request("delete_file_ids empty"));
    }
    let keep: &String = match &keep_sha {
        Some(k) => k,
        None => {
            return Err(AppError::NotFound);
        },
    };
    let mut i: usize = 0;
    while i < delete_shas.len()
        invariant
            0 <= i <= delete_shas.len(),
            delete_shas@.len() > 0,
            keep_sha == Some(*keep),
            dupes_verdict(keep_sha, delete_shas@) == scan_dupes(keep@, delete_shas@, i as int),
        decreases delete_shas.len() - i,
    {
        match &delete_shas[i] {
            None => {
                return Err(AppError::NotFound);
            },
            Some(s) => {
                if !str_eq(s.as_str(), keep.as_str()) {
                    return Err(AppError::bad_request("files must have same sha256"));
                }
            },
        }
        i = i + 1;
    }
    Ok(())
}

/// The audit record of deleted duplicates: `{"deleted":[...]}` with the deleted ids.
pub fn dupes_audit_meta(deleted: &Vec<String>) -> (r: String)
    ensures
        r@ == "{\"deleted\":"@ + json_string_array(strings_view(deleted@)) + "}"@,
{
    let mut r = "{\"deleted\":".to_owned();
    let arr = json_array(deleted);
    append_str(&mut r, arr.as_str());
    append_str(&mut r, "}");
    r
}

} // verus!
