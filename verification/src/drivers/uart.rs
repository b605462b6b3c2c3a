//! A minimal NS16550A-compatible UART driver: the transmit protocol.
//!
//! A byte may be written to the transmit holding register once the line
//! status register shows it empty. A `Transmission` holds the bytes still to
//! send and, given each line status read, says which byte to write next.

use vstd::prelude::*;
use vstd::string::StringSliceAdditionalSpecFns;
use vstd::utf8::encode_utf8;

verus! {

/// The early-boot UART of QEMU's `virt` machine.
pub const UART_BASE: usize = 0x1000_0000;

/// The offset of the line status register.
pub const LSR_OFFSET: usize = 5;

/// The line status bit that shows the transmit holding register empty.
pub const LSR_THRE: u8 = 0x20;

/// Brings the UART up. QEMU's ns16550 model transmits without line or baud
/// configuration, so there is nothing to do.
pub fn init() {
}

/// Whether the line status `lsr` shows the transmit holding register empty.
pub fn thr_empty(lsr: u8) -> (r: bool)
    ensures
        r == (lsr & LSR_THRE != 0),
{
    lsr & LSR_THRE != 0
}

/// A string on its way out of the UART: its bytes, and how many of them have
/// been written.
pub struct Transmission {
    bytes: Vec<u8>,
    sent: usize,
}

impl Transmission {
    #[verifier::type_invariant]
    spec fn inv(self) -> bool {
        self.sent <= self.bytes@.len()
    }

    /// All the bytes to send.
    pub closed spec fn bytes(self) -> Seq<u8> {
        self.bytes@
    }

    /// How many bytes have been written.
    pub closed spec fn sent(self) -> nat {
        self.sent as nat
    }

    /// The bytes written so far, in the order they were written.
    pub open spec fn written(self) -> Seq<u8> {
        self.bytes().take(self.sent() as int)
    }

    /// Whether every byte has been written.
    pub fn is_done(&self) -> (r: bool)
        ensures
            r == (self.sent() == self.bytes().len()),
    {
        proof {
            use_type_invariant(self);
        }
        self.sent == self.bytes.len()
    }

    /// Takes a line status read: where the transmit holding register is empty
    /// and bytes remain, the next byte, which the caller writes to it;
    /// otherwise `None`, and the caller reads the line status again (or stops,
    /// once every byte is written).
    pub fn on_line_status(&mut self, lsr: u8) -> (r: Option<u8>)
        ensures
            final(self).bytes() == old(self).bytes(),
            old(self).sent() <= old(self).bytes().len(),
            final(self).sent() <= final(self).bytes().len(),
            (lsr & LSR_THRE != 0 && old(self).sent() < old(self).bytes().len()) ==> {
                &&& r == Some(old(self).bytes()[old(self).sent() as int])
                &&& final(self).sent() == old(self).sent() + 1
                &&& final(self).written() == old(self).written().push(r.unwrap())
            },
            !(lsr & LSR_THRE != 0 && old(self).sent() < old(self).bytes().len()) ==> {
                &&& r is None
                &&& final(self).sent() == old(self).sent()
            },
    {
        proof {
            use_type_invariant(&*self);
        }
        if thr_empty(lsr) && self.sent < self.bytes.len() {
            let b = self.bytes[self.sent];
            self.sent = self.sent + 1;
            proof {
                assert(self.bytes@.take(self.sent as int) =~= old(self).bytes@.take(
                    old(self).sent as int,
                ).push(b));
            }
            Some(b)
        } else {
            None
        }
    }
}

/// Starts writing the string `s` out of the UART: a transmission of its UTF-8
/// bytes with none written yet.
pub fn puts(s: &str) -> (t: Transmission)
    ensures
        t.bytes() == s.spec_bytes(),
        t.sent() == 0,
{
    let src = s.as_bytes();
    let mut bytes: Vec<u8> = Vec::new();
    let mut i: usize = 0;
    while i < src.len()
        invariant
            i <= src@.len(),
            bytes@ == src@.take(i as int),
        decreases src@.len() - i,
    {
        bytes.push(src[i]);
        i = i + 1;
        proof {
            assert(src@.take(i as int) =~= src@.take(i - 1).push(src@[i - 1]));
        }
    }
    proof {
        assert(src@.take(src@.len() as int) =~= src@);
    }
    Transmission { bytes, sent: 0 }
}

/// Once every byte is written, the bytes written are exactly the string's
/// bytes, each once and in order.
pub proof fn lemma_done_transmission_wrote_all(t: Transmission)
    requires
        t.sent() == t.bytes().len(),
    ensures
        t.written() == t.bytes(),
{
    assert(t.bytes().take(t.sent() as int) =~= t.bytes());
}

/// The UTF-8 encoding of a concatenation is the concatenation of the
/// encodings.
proof fn lemma_encode_utf8_concat(x: Seq<char>, y: Seq<char>)
    ensures
        encode_utf8(x + y) == encode_utf8(x) + encode_utf8(y),
    decreases x.len(),
{
    if x.len() == 0 {
        assert(x + y =~= y);
        assert(encode_utf8(x) + encode_utf8(y) =~= encode_utf8(y));
    } else {
        assert((x + y).drop_first() =~= x.drop_first() + y);
        lemma_encode_utf8_concat(x.drop_first(), y);
        assert((x + y)[0] == x[0]);
        assert(encode_utf8(x + y) =~= encode_utf8(x) + encode_utf8(y));
    }
}

/// Writing `a` and then `b` puts out the same bytes as writing the string `c`
/// that is their concatenation: the bytes of the two finished transmissions,
/// one after the other, are those of the third.
pub proof fn lemma_puts_concat(
    a: &str,
    b: &str,
    c: &str,
    ta: Transmission,
    tb: Transmission,
    tc: Transmission,
)
    requires
        c@ == a@ + b@,
        ta.bytes() == a.spec_bytes(),
        tb.bytes() == b.spec_bytes(),
        tc.bytes() == c.spec_bytes(),
        ta.sent() == ta.bytes().len(),
        tb.sent() == tb.bytes().len(),
        tc.sent() == tc.bytes().len(),
    ensures
        ta.written() + tb.written() == tc.written(),
{
    lemma_encode_utf8_concat(a@, b@);
    lemma_done_transmission_wrote_all(ta);
    lemma_done_transmission_wrote_all(tb);
    lemma_done_transmission_wrote_all(tc);
}

} // verus!
