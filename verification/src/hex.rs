//! Lowercase hexadecimal rendering of bytes.

use vstd::prelude::*;

verus! {

/// The lowercase hex digit for a nibble.
pub open spec fn hex_char(n: int) -> char {
    if n < 10 {
        (n + 48) as char
    } else {
        (n + 87) as char
    }
}

/// Lowercase hex rendering: two digits per byte, high nibble first.
pub open spec fn hex_lower(b: Seq<u8>) -> Seq<char>
    decreases b.len(),
{
    if b.len() == 0 {
        Seq::empty()
    } else {
        hex_lower(b.drop_last()) + seq![hex_char((b.last() / 16) as int), hex_char((b.last() % 16) as int)]
    }
}

/// A character that `hex_lower` can produce.
pub open spec fn is_hex_lower_char(c: char) -> bool {
    ('0' <= c <= '9') || ('a' <= c <= 'f')
}

/// Every character is a lowercase hex digit.
pub open spec fn all_hex_lower(s: Seq<char>) -> bool {
    forall|i: int| 0 <= i < s.len() ==> is_hex_lower_char(#[trigger] s[i])
}

/// The rendering has two characters per byte, all of them lowercase hex digits.
pub proof fn lemma_hex_lower_shape(b: Seq<u8>)
    ensures
        hex_lower(b).len() == 2 * b.len(),
        all_hex_lower(hex_lower(b)),
    decreases b.len(),
{
    if b.len() > 0 {
        lemma_hex_lower_shape(b.drop_last());
        let h = hex_lower(b.drop_last());
        let hi = b.last() / 16;
        let lo = b.last() % 16;
        assert(0 <= hi < 16 && 0 <= lo < 16);
        let t = seq![hex_char(hi as int), hex_char(lo as int)];
        assert forall|i: int| 0 <= i < hex_lower(b).len() implies is_hex_lower_char(
            #[trigger] hex_lower(b)[i],
        ) by {
            if i < h.len() {
                assert(hex_lower(b)[i] == h[i]);
            } else {
                assert(hex_lower(b)[i] == t[i - h.len()]);
            }
        }
    }
}

/// Each byte becomes two digits, in place: first its high nibble, then its low one,
/// written `0`-`9` then `a`-`f`.
pub proof fn lemma_hex_lower_digits(b: Seq<u8>)
    ensures
        hex_lower(b).len() == 2 * b.len(),
        forall|i: int|
            0 <= i < b.len() ==> {
                let hi = (#[trigger] b[i]) / 16;
                let lo = b[i] % 16;
                &&& (hi < 10 ==> hex_lower(b)[2 * i] as u32 == hi + 48)
                &&& (hi >= 10 ==> hex_lower(b)[2 * i] as u32 == hi + 87)
                &&& (lo < 10 ==> hex_lower(b)[2 * i + 1] as u32 == lo + 48)
                &&& (lo >= 10 ==> hex_lower(b)[2 * i + 1] as u32 == lo + 87)
            },
    decreases b.len(),
{
    lemma_hex_lower_shape(b);
    if b.len() > 0 {
        let d = b.drop_last();
        lemma_hex_lower_digits(d);
        lemma_hex_lower_shape(d);
        let h = hex_lower(d);
        assert forall|i: int| 0 <= i < b.len() implies {
            let hi = (#[trigger] b[i]) / 16;
            let lo = b[i] % 16;
            &&& (hi < 10 ==> hex_lower(b)[2 * i] as u32 == hi + 48)
            &&& (hi >= 10 ==> hex_lower(b)[2 * i] as u32 == hi + 87)
            &&& (lo < 10 ==> hex_lower(b)[2 * i + 1] as u32 == lo + 48)
            &&& (lo >= 10 ==> hex_lower(b)[2 * i + 1] as u32 == lo + 87)
        } by {
            if i < d.len() {
                assert(b[i] == d[i]);
                assert(hex_lower(b)[2 * i] == h[2 * i]);
                assert(hex_lower(b)[2 * i + 1] == h[2 * i + 1]);
            } else {
                assert(hex_lower(b)[2 * i] == hex_char((b.last() / 16) as int));
                assert(hex_lower(b)[2 * i + 1] == hex_char((b.last() % 16) as int));
            }
        }
    }
}

/// The hex digit for a nibble.
pub fn hex_digit(n: u8) -> (c: char)
    requires
        n < 16,
    ensures
        c == hex_char(n as int),
{
    if n < 10 {
        (n + 48) as char
    } else {
        (n + 87) as char
    }
}

/// Renders `bytes` as lowercase hex, as `hex::encode` does.
pub fn hex_encode(bytes: &[u8]) -> (r: String)
    ensures
        r@ == hex_lower(bytes@),
{
    let mut r = String::new();
    let mut i: usize = 0;
    while i < bytes.len()
        invariant
            0 <= i <= bytes.len(),
            r@ == hex_lower(bytes@.take(i as int)),
        decreases bytes.len() - i,
    {
        let b = bytes[i];
        crate::text::push_char(&mut r, hex_digit(b / 16));
        crate::text::push_char(&mut r, hex_digit(b % 16));
        proof {
            let t = bytes@.take(i + 1);
            assert(t.drop_last() == bytes@.take(i as int));
            assert(t.last() == b);
        }
        i = i + 1;
    }
    assert(bytes@.take(bytes.len() as int) == bytes@);
    r
}

} // verus!
