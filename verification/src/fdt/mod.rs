//! Flattened device tree (FDT) inspection: the header magic, and the walkers
//! that find the console UART and the timebase frequency.

pub mod bytes;
pub mod names;
pub mod nop;
pub mod walker;

pub use walker::{find_timebase_frequency, find_uart_base};

use vstd::prelude::*;

use self::bytes::{be32, read_be32};

verus! {

/// The magic word that starts every blob.
pub const FDT_MAGIC: u32 = 0xd00d_feed;

/// Whether the blob starts with the big-endian magic word.
pub open spec fn spec_check_magic(b: Seq<u8>) -> bool {
    b.len() >= 4 && be32(b, 0) == FDT_MAGIC
}

/// Reads the header magic at the start of `blob` and checks that it is the
/// big-endian value the Devicetree Specification defines. A blob too short to
/// hold the magic word fails the check.
pub fn check_magic(blob: &[u8]) -> (r: bool)
    ensures
        r == spec_check_magic(blob@),
{
    if blob.len() < 4 {
        return false;
    }
    let magic = read_be32(blob, 0);
    magic == FDT_MAGIC
}

/// The magic check passes exactly on blobs whose first four bytes are
/// `d0 0d fe ed`: the magic is stored big-endian.
pub proof fn lemma_magic_bytes(b: Seq<u8>)
    ensures
        spec_check_magic(b) <==> (b.len() >= 4 && b[0] == 0xd0 && b[1] == 0x0d && b[2] == 0xfe
            && b[3] == 0xed),
{
    if b.len() >= 4 {
        let (b0, b1, b2, b3) = (b[0], b[1], b[2], b[3]);
        assert((b0 as u64) * 0x100_0000 + (b1 as u64) * 0x1_0000 + (b2 as u64) * 0x100 + (b3 as u64)
            == 0xd00d_feedu64 <==> (b0 == 0xd0u8 && b1 == 0x0du8 && b2 == 0xfeu8 && b3 == 0xedu8))
            by (bit_vector);
    }
}

} // verus!
