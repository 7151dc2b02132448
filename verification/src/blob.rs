//! Byte-buffer substring extraction with SQL-style one-based indexing.

use vstd::prelude::*;

verus! {

/// What a substring request yields: one-based `start` (positions before
/// one clamp to the first byte), `length` bytes (a negative length, or
/// one past the end, takes everything available), and an empty buffer
/// for an empty input, a zero length, or a start past the end.
pub open spec fn blob_substr_spec(b: Seq<u8>, start: int, length: int) -> Seq<u8> {
    if b.len() == 0 || length == 0 {
        Seq::empty()
    } else {
        let off = if start < 1 {
            0
        } else {
            start - 1
        };
        if off >= b.len() {
            Seq::empty()
        } else {
            let avail = b.len() - off;
            let take = if length < 0 || length > avail {
                avail
            } else {
                length
            };
            b.subrange(off, off + take)
        }
    }
}

/// Copy of `b[from..to]`.
fn sub_bytes(b: &[u8], from: usize, to: usize) -> (r: Vec<u8>)
    requires
        from <= to <= b@.len(),
    ensures
        r@ == b@.subrange(from as int, to as int),
{
    let mut r: Vec<u8> = Vec::new();
    let mut i: usize = from;
    while i < to
        invariant
            from <= i <= to <= b@.len(),
            r@ == b@.subrange(from as int, i as int),
        decreases to - i,
    {
        r.push(b[i]);
        assert(r@ =~= b@.subrange(from as int, i + 1 as int));
        i = i + 1;
    }
    r
}

/// Extracts a substring of a byte buffer.
pub fn blob_substr(blob: &[u8], start: i64, length: i64) -> (r: Vec<u8>)
    ensures
        r@ == blob_substr_spec(blob@, start as int, length as int),
{
    let n = blob.len();
    if n == 0 || length == 0 {
        return Vec::new();
    }
    let off64: u64 = if start < 1 {
        0
    } else {
        (start - 1) as u64
    };
    if off64 >= n as u64 {
        return Vec::new();
    }
    let start_offset: usize = off64 as usize;
    let available = n - start_offset;
    let take: usize = if length < 0 || (length as u64) > (available as u64) {
        available
    } else {
        length as usize
    };
    sub_bytes(blob, start_offset, start_offset + take)
}

} // verus!
