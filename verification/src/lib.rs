//! Sans-I/O implementation of the ANSI X3.28 serial line protocol.
//!
//! X3.28 is an old field bus protocol, commonly used on top of an RS-422 bus.
//! This crate performs no I/O itself: callers feed received bytes in and
//! transmit the bytes handed back.

#![verifier::loop_isolation(false)]

pub mod buffer;
pub mod master;
pub mod node;
pub mod parser;
pub mod scanner;
pub mod types;

pub use master::Master;
pub use node::Node;
pub use types::Error as TypeError;
pub use types::{addr, param, value, Address, IntoAddress, IntoParameter, IntoValue, Parameter, Value};

use vstd::prelude::*;

verus! {

/// Start of text, separates address and parameter in a write command.
pub const STX: u8 = 2;
/// End of text, sent after a parameter value.
pub const ETX: u8 = 3;
/// "End of transmission", sent as the first byte of each command.
pub const EOT: u8 = 4;
/// Enquiry, terminates a parameter read command.
pub const ENQ: u8 = 5;
/// Acknowledge.
pub const ACK: u8 = 6;
/// Backspace, the short-form "read previous parameter" command.
pub const BS: u8 = 8;
/// Negative acknowledge.
pub const NAK: u8 = 21;

/// XOR of all bytes of a sequence.
pub open spec fn xor_fold(s: Seq<u8>) -> u8
    decreases s.len(),
{
    if s.len() == 0 {
        0
    } else {
        xor_fold(s.drop_last()) ^ s.last()
    }
}

/// The X3.28 block check character of a byte span: the XOR fold of the span,
/// lifted into the printable band by adding 0x20 when it falls below 0x20.
pub open spec fn bcc_spec(s: Seq<u8>) -> u8 {
    if xor_fold(s) < 0x20 {
        (xor_fold(s) + 0x20) as u8
    } else {
        xor_fold(s)
    }
}

/// Calculates the BCC checksum according to the X3.28 spec.
pub fn bcc(data: &[u8]) -> (r: u8)
    ensures
        r == bcc_spec(data@),
{
    let mut checksum: u8 = 0;
    let mut i: usize = 0;
    while i < data.len()
        invariant
            0 <= i <= data@.len(),
            checksum == xor_fold(data@.subrange(0, i as int)),
        decreases data@.len() - i,
    {
        proof {
            assert(data@.subrange(0, i + 1).drop_last() =~= data@.subrange(0, i as int));
            assert(data@.subrange(0, i + 1).last() == data@[i as int]);
        }
        checksum = checksum ^ data[i];
        i = i + 1;
    }
    proof {
        assert(data@.subrange(0, data@.len() as int) =~= data@);
    }
    if checksum < 0x20 {
        checksum + 0x20
    } else {
        checksum
    }
}

proof fn lemma_xor_fold_7bit(s: Seq<u8>)
    requires
        forall|i: int| 0 <= i < s.len() ==> #[trigger] s[i] <= 0x7f,
    ensures
        xor_fold(s) <= 0x7f,
    decreases s.len(),
{
    if s.len() > 0 {
        lemma_xor_fold_7bit(s.drop_last());
        let a = xor_fold(s.drop_last());
        let b = s.last();
        assert(a ^ b <= 0x7f) by (bit_vector)
            requires
                a <= 0x7f,
                b <= 0x7f,
        ;
    }
}

/// The BCC of a 7-bit byte span lies in the printable band [0x20, 0x7f]:
/// the XOR fold of 7-bit bytes is 7-bit itself, and values below 0x20 are
/// lifted by 0x20. Being a function of the span alone, it is deterministic.
pub proof fn lemma_bcc_printable(s: Seq<u8>)
    requires
        forall|i: int| 0 <= i < s.len() ==> #[trigger] s[i] <= 0x7f,
    ensures
        0x20 <= bcc_spec(s) <= 0x7f,
{
    lemma_xor_fold_7bit(s);
}

} // verus!
