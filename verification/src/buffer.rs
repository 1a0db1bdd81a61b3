//! Fixed-capacity (40 byte) input buffer with shift-on-overflow and
//! "consume n" semantics; the longest X3.28 frame is 18 bytes.
//!
//! The backing store is `arrayvec::ArrayVec`, kept behind a small set of
//! trusted wrappers; everything above those wrappers is verified.

use vstd::prelude::*;
use vstd::slice::slice_subrange;
use arrayvec::ArrayVec;

verus! {

#[verifier::external_type_specification]
#[verifier::external_body]
#[verifier::reject_recursive_types(T)]
pub struct ExArrayVec<T, const CAP: usize>(ArrayVec<T, CAP>);

/// The bytes a fixed-capacity byte vector holds, in order.
pub uninterp spec fn av_bytes(v: ArrayVec<u8, 40>) -> Seq<u8>;

/// Relies on ArrayVec::new: a freshly created vector is empty.
#[verifier::external_body]
fn av_new() -> (v: ArrayVec<u8, 40>)
    ensures
        av_bytes(v) == Seq::<u8>::empty(),
{
    ArrayVec::new()
}

/// Relies on ArrayVec::len: the number of elements held.
#[verifier::external_body]
fn av_len(v: &ArrayVec<u8, 40>) -> (n: usize)
    ensures
        n == av_bytes(*v).len(),
{
    v.len()
}

/// Relies on ArrayVec::push: appends one element; panics when full, so the
/// contract admits only vectors with room left.
#[verifier::external_body]
fn av_push(v: &mut ArrayVec<u8, 40>, b: u8)
    requires
        av_bytes(*old(v)).len() < 40,
    ensures
        av_bytes(*final(v)) == av_bytes(*old(v)).push(b),
{
    v.push(b)
}

/// Relies on ArrayVec::clear: removes every element.
#[verifier::external_body]
fn av_clear(v: &mut ArrayVec<u8, 40>)
    ensures
        av_bytes(*final(v)) == Seq::<u8>::empty(),
{
    v.clear()
}

/// Relies on ArrayVec::drain: removes the range `..n` from the front; panics
/// when `n` exceeds the length, so the contract admits only `n` within bounds.
#[verifier::external_body]
fn av_drop_front(v: &mut ArrayVec<u8, 40>, n: usize)
    requires
        n <= av_bytes(*old(v)).len(),
    ensures
        av_bytes(*final(v)) == av_bytes(*old(v)).skip(n as int),
{
    v.drain(..n);
}

/// Relies on ArrayVec::try_extend_from_slice: appends the slice when it fits
/// in the remaining capacity, which the contract guarantees.
#[verifier::external_body]
fn av_push_slice(v: &mut ArrayVec<u8, 40>, s: &[u8])
    requires
        av_bytes(*old(v)).len() + s@.len() <= 40,
    ensures
        av_bytes(*final(v)) == av_bytes(*old(v)) + s@,
{
    v.try_extend_from_slice(s).unwrap();
}

/// Relies on ArrayVec::as_slice: a view of all elements held.
#[verifier::external_body]
fn av_slice(v: &ArrayVec<u8, 40>) -> (s: &[u8])
    ensures
        s@ == av_bytes(*v),
{
    v.as_slice()
}

/// A byte with the high bit set is replaced by NUL on ingest, matching 7-bit
/// serial framing.
pub open spec fn mask_byte(b: u8) -> u8 {
    if b > 0x7f {
        0
    } else {
        b
    }
}

/// Elementwise `mask_byte`.
pub open spec fn mask_bytes(s: Seq<u8>) -> Seq<u8> {
    s.map_values(|b: u8| mask_byte(b))
}

pub(crate) fn mask_slice(s: &[u8]) -> (r: Vec<u8>)
    ensures
        r@ == mask_bytes(s@),
{
    let mut r: Vec<u8> = Vec::new();
    let mut i: usize = 0;
    while i < s.len()
        invariant
            0 <= i <= s@.len(),
            r@ == mask_bytes(s@.subrange(0, i as int)),
        decreases s@.len() - i,
    {
        let b = s[i];
        if b > 0x7f {
            r.push(0);
        } else {
            r.push(b);
        }
        i = i + 1;
        proof {
            assert(s@.subrange(0, i as int).drop_last() =~= s@.subrange(0, i - 1));
            assert(mask_bytes(s@.subrange(0, i as int)) =~= mask_bytes(
                s@.subrange(0, i - 1),
            ).push(mask_byte(s@[i - 1])));
        }
    }
    proof {
        assert(s@.subrange(0, s@.len() as int) =~= s@);
    }
    r
}

/// The stored bytes and read position after `write`: a full-consumed buffer is
/// reset first; input longer than the capacity keeps only its last 40 bytes;
/// otherwise the oldest stored bytes are dropped to make room.
pub open spec fn buffer_write_spec(all: Seq<u8>, pos: int, input: Seq<u8>) -> (Seq<u8>, int) {
    let (all0, pos0) = if pos == all.len() {
        (Seq::<u8>::empty(), 0int)
    } else {
        (all, pos)
    };
    if input.len() > 40 {
        (mask_bytes(input.skip(input.len() - 40)), 0int)
    } else {
        let room = 40 - all0.len();
        if room < input.len() {
            let dropped = input.len() - room;
            let new_pos = if pos0 > dropped {
                pos0 - dropped
            } else {
                0int
            };
            (all0.skip(dropped as int) + mask_bytes(input), new_pos)
        } else {
            (all0 + mask_bytes(input), pos0)
        }
    }
}

/// Byte buffer with fixed capacity, a write end and a read cursor.
pub struct Buffer {
    data: ArrayVec<u8, 40>,
    read_pos: usize,
}

impl Buffer {
    /// Every byte ever written, minus those dropped to make room.
    pub closed spec fn all_bytes(self) -> Seq<u8> {
        av_bytes(self.data)
    }

    /// The read cursor: bytes before it have been consumed.
    pub closed spec fn pos(self) -> int {
        self.read_pos as int
    }

    /// The visible bytes, from the read cursor to the write end.
    pub open spec fn bytes(self) -> Seq<u8> {
        self.all_bytes().skip(self.pos())
    }

    pub open spec fn wf(self) -> bool {
        0 <= self.pos() <= self.all_bytes().len() <= 40
    }

    pub fn new() -> (b: Buffer)
        ensures
            b.wf(),
            b.all_bytes() == Seq::<u8>::empty(),
            b.pos() == 0,
    {
        Buffer { data: av_new(), read_pos: 0 }
    }

    /// The number of visible bytes.
    pub fn len(&self) -> (n: usize)
        requires
            self.wf(),
        ensures
            n == self.bytes().len(),
    {
        av_len(&self.data) - self.read_pos
    }

    /// The read cursor position.
    pub fn read_pos(&self) -> (n: usize)
        ensures
            n == self.pos(),
    {
        self.read_pos
    }

    /// Advance the read cursor over `len` consumed bytes.
    pub fn consume(&mut self, len: usize)
        requires
            old(self).wf(),
            len <= old(self).bytes().len(),
        ensures
            final(self).wf(),
            final(self).all_bytes() == old(self).all_bytes(),
            final(self).pos() == old(self).pos() + len,
            final(self).bytes() == old(self).bytes().skip(len as int),
    {
        self.read_pos = self.read_pos + len;
        proof {
            assert(final(self).bytes() =~= old(self).bytes().skip(len as int));
        }
    }

    pub fn clear(&mut self)
        ensures
            final(self).wf(),
            final(self).all_bytes() == Seq::<u8>::empty(),
            final(self).pos() == 0,
    {
        av_clear(&mut self.data);
        self.read_pos = 0;
    }

    /// Append one byte; when the buffer is full this falls back to the
    /// shifting logic of `write`.
    pub fn push(&mut self, byte: u8)
        requires
            old(self).wf(),
        ensures
            final(self).wf(),
            final(self).all_bytes() == buffer_push_spec(
                old(self).all_bytes(),
                old(self).pos(),
                byte,
            ).0,
            final(self).pos() == buffer_push_spec(
                old(self).all_bytes(),
                old(self).pos(),
                byte,
            ).1,
    {
        if av_len(&self.data) == 40 {
            let one = [byte];
            proof {
                assert(one@ =~= seq![byte]);
            }
            self.write(one.as_slice());
        } else {
            av_push(&mut self.data, mask_byte_exec(byte));
            proof {
                assert(av_bytes(self.data) =~= old(self).all_bytes().push(mask_byte(byte)));
            }
        }
    }

    /// Append a slice. A full-consumed buffer is reset first; input longer
    /// than the capacity keeps only its last 40 bytes; otherwise the oldest
    /// stored bytes are dropped to make room. Bytes above 0x7f are replaced
    /// with NUL.
    pub fn write(&mut self, bytes: &[u8])
        requires
            old(self).wf(),
        ensures
            final(self).wf(),
            final(self).all_bytes() == buffer_write_spec(
                old(self).all_bytes(),
                old(self).pos(),
                bytes@,
            ).0,
            final(self).pos() == buffer_write_spec(
                old(self).all_bytes(),
                old(self).pos(),
                bytes@,
            ).1,
    {
        if self.read_pos == av_len(&self.data) {
            self.clear();
        }
        let masked = mask_slice(bytes);
        if bytes.len() > 40 {
            av_clear(&mut self.data);
            self.read_pos = 0;
            let tail = slice_subrange(masked.as_slice(), masked.len() - 40, masked.len());
            av_push_slice(&mut self.data, tail);
            proof {
                assert(tail@ =~= mask_bytes(bytes@.skip(bytes@.len() - 40)));
                assert(av_bytes(self.data) =~= mask_bytes(bytes@.skip(bytes@.len() - 40)));
            }
        } else {
            let room = 40 - av_len(&self.data);
            if room < bytes.len() {
                let drain_len = bytes.len() - room;
                av_drop_front(&mut self.data, drain_len);
                self.read_pos = if self.read_pos > drain_len {
                    self.read_pos - drain_len
                } else {
                    0
                };
            }
            av_push_slice(&mut self.data, masked.as_slice());
        }
    }

    /// The visible bytes, from the read cursor to the write end.
    pub fn as_ref(&self) -> (s: &[u8])
        requires
            self.wf(),
        ensures
            s@ == self.bytes(),
    {
        let s = av_slice(&self.data);
        slice_subrange(s, self.read_pos, s.len())
    }
}

/// The stored bytes and read position after `push`: `write` semantics when the
/// buffer is full, a plain masked append otherwise.
pub open spec fn buffer_push_spec(all: Seq<u8>, pos: int, byte: u8) -> (Seq<u8>, int) {
    if all.len() == 40 {
        buffer_write_spec(all, pos, seq![byte])
    } else {
        (all.push(mask_byte(byte)), pos)
    }
}

fn mask_byte_exec(b: u8) -> (r: u8)
    ensures
        r == mask_byte(b),
{
    if b > 0x7f {
        0
    } else {
        b
    }
}

} // verus!
