//! Administration: how many audit entries a listing shows.

use vstd::prelude::*;

verus! {

/// The number of audit entries to list: 200 by default, kept within 1 to 1000.
pub fn audit_limit(limit: Option<u32>) -> (r: i64)
    ensures
        r == (match limit {
            Some(l) => if l < 1 {
                1
            } else if l > 1000 {
                1000
            } else {
                l as int
            },
            None => 200,
        }),
{
    let l: u32 = match limit {
        Some(l) => l,
        None => 200,
    };
    let c: u32 = if l < 1 {
        1
    } else if l > 1000 {
        1000
    } else {
        l
    };
    c as i64
}

} // verus!
