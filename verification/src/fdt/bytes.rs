//! Reading big-endian words and NUL-terminated strings out of a device-tree blob.
//!
//! Every position here is an offset from the first byte of the blob.

use vstd::prelude::*;

verus! {

/// The big-endian 32-bit word stored at `off` in `b`.
pub open spec fn be32(b: Seq<u8>, off: int) -> int {
    b[off] as int * 0x100_0000 + b[off + 1] as int * 0x1_0000 + b[off + 2] as int * 0x100
        + b[off + 3] as int
}

/// A big-endian word is below 2^32, and its first byte is the most
/// significant: the word is the first byte times 2^24 plus the second times
/// 2^16 plus the third times 2^8 plus the fourth.
pub proof fn lemma_be32_bounds(b: Seq<u8>, off: int)
    ensures
        0 <= be32(b, off) < 0x1_0000_0000,
        be32(b, off) == ((b[off] as int * 256 + b[off + 1] as int) * 256 + b[off + 2] as int) * 256
            + b[off + 3] as int,
{
}

/// Where the NUL-terminated string that starts at `i` ends: the position of
/// its NUL byte, or `None` where no NUL byte follows before the end of `b`.
pub open spec fn cstr_end(b: Seq<u8>, i: int) -> Option<int>
    decreases b.len() - i,
{
    if i < 0 || i >= b.len() {
        None
    } else if b[i] == 0 {
        Some(i)
    } else {
        cstr_end(b, i + 1)
    }
}

/// `x` rounded up to the next multiple of four.
pub open spec fn spec_align4(x: int) -> int {
    (x + 3) / 4 * 4
}

/// What `cstr_end` finds: a NUL byte at the end it names, and none before.
pub proof fn lemma_cstr_end(b: Seq<u8>, i: int)
    ensures
        cstr_end(b, i) matches Some(e) ==> {
            &&& 0 <= i <= e < b.len()
            &&& b[e] == 0
            &&& forall|k: int| i <= k < e ==> b[k] != 0
        },
        cstr_end(b, i) is None ==> forall|k: int| 0 <= i <= k < b.len() ==> b[k] != 0,
    decreases b.len() - i,
{
    if 0 <= i < b.len() && b[i] != 0 {
        lemma_cstr_end(b, i + 1);
    }
}

/// Reads the big-endian word at `off`.
pub fn read_be32(data: &[u8], off: usize) -> (r: u32)
    requires
        off + 4 <= data@.len(),
    ensures
        r as int == be32(data@, off as int),
{
    let b0 = data[off] as u32;
    let b1 = data[off + 1] as u32;
    let b2 = data[off + 2] as u32;
    let b3 = data[off + 3] as u32;
    b0 * 0x100_0000 + b1 * 0x1_0000 + b2 * 0x100 + b3
}

/// The length of the NUL-terminated string that starts at `start`, or `None`
/// where the blob ends before a NUL byte.
pub fn cstr_len(data: &[u8], start: usize) -> (r: Option<usize>)
    ensures
        match r {
            Some(n) => cstr_end(data@, start as int) == Some(start + n),
            None => cstr_end(data@, start as int) is None,
        },
{
    let mut i = start;
    while i < data.len()
        invariant
            start <= i,
            cstr_end(data@, start as int) == cstr_end(data@, i as int),
        decreases data@.len() - i,
    {
        if data[i] == 0 {
            return Some(i - start);
        }
        i = i + 1;
    }
    None
}

/// The position just past the NUL byte that ends the string starting at
/// `start`, or `None` where the blob ends before a NUL byte.
pub fn skip_cstr(data: &[u8], start: usize) -> (r: Option<usize>)
    ensures
        match r {
            Some(p) => cstr_end(data@, start as int) == Some(p - 1),
            None => cstr_end(data@, start as int) is None,
        },
{
    let len = data.len();
    match cstr_len(data, start) {
        Some(n) => {
            proof {
                lemma_cstr_end(data@, start as int);
                assert(start + n < len);
            }
            Some(start + n + 1)
        },
        None => None,
    }
}

/// `x` rounded up to the next multiple of four.
pub fn align4(x: usize) -> (r: usize)
    requires
        x + 3 <= usize::MAX,
    ensures
        r == spec_align4(x as int),
        r % 4 == 0,
        x <= r < x + 4,
{
    let y = x + 3;
    assert((y & !3usize) == y / 4 * 4) by (bit_vector);
    y & !3usize
}

/// Whether the bytes of `data` in `[start, end)` are exactly `lit`.
pub fn bytes_equal(data: &[u8], start: usize, end: usize, lit: &[u8]) -> (r: bool)
    requires
        start <= end <= data@.len(),
    ensures
        r == (data@.subrange(start as int, end as int) == lit@),
{
    if end - start != lit.len() {
        proof {
            assert(data@.subrange(start as int, end as int).len() != lit@.len());
        }
        return false;
    }
    let mut k: usize = 0;
    while k < lit.len()
        invariant
            end - start == lit@.len(),
            start <= end <= data@.len(),
            k <= lit@.len(),
            forall|j: int| 0 <= j < k ==> data@[start + j] == lit@[j],
        decreases lit@.len() - k,
    {
        if data[start + k] != lit[k] {
            proof {
                assert(data@.subrange(start as int, end as int)[k as int] != lit@[k as int]);
            }
            return false;
        }
        k = k + 1;
    }
    proof {
        assert(data@.subrange(start as int, end as int) =~= lit@);
    }
    true
}

} // verus!
