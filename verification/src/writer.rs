//! Append-oriented little-endian byte buffer with patch-at-offset.

use vstd::prelude::*;

verus! {

/// The little-endian byte image of a 16-bit value.
pub open spec fn le16(v: u16) -> Seq<u8> {
    seq![(v & 0xff) as u8, ((v >> 8) & 0xff) as u8]
}

/// The little-endian byte image of a 32-bit value.
pub open spec fn le32(v: u32) -> Seq<u8> {
    seq![
        (v & 0xff) as u8,
        ((v >> 8) & 0xff) as u8,
        ((v >> 16) & 0xff) as u8,
        ((v >> 24) & 0xff) as u8,
    ]
}

/// The little-endian byte image of a 64-bit value.
pub open spec fn le64(v: u64) -> Seq<u8> {
    seq![
        (v & 0xff) as u8,
        ((v >> 8) & 0xff) as u8,
        ((v >> 16) & 0xff) as u8,
        ((v >> 24) & 0xff) as u8,
        ((v >> 32) & 0xff) as u8,
        ((v >> 40) & 0xff) as u8,
        ((v >> 48) & 0xff) as u8,
        ((v >> 56) & 0xff) as u8,
    ]
}

/// The bytes present in a sequence of optional bytes, in order.
pub open spec fn present_bytes(s: Seq<Option<u8>>) -> Seq<u8>
    decreases s.len(),
{
    if s.len() == 0 {
        Seq::<u8>::empty()
    } else {
        present_bytes(s.drop_last()) + (match s.last() {
            Some(b) => seq![b],
            None => seq![],
        })
    }
}

/// Universal code writer: a growable byte buffer that instruction encoders
/// append to, viewed as the sequence of bytes written so far.
pub struct Writer {
    buffer: Vec<u8>,
}

impl View for Writer {
    type V = Seq<u8>;

    closed spec fn view(&self) -> Seq<u8> {
        self.buffer@
    }
}

impl Writer {
    pub fn new() -> (r: Writer)
        ensures
            r@ == Seq::<u8>::empty(),
    {
        Writer { buffer: Vec::new() }
    }

    pub fn bytes(&self) -> (r: &Vec<u8>)
        ensures
            r@ == self@,
    {
        &self.buffer
    }

    /// Surrender the buffer.
    pub fn into_bytes(self) -> (r: Vec<u8>)
        ensures
            r@ == self@,
    {
        self.buffer
    }

    /// Emit a byte sequence at the end of the buffer.
    #[verifier::loop_isolation(false)]
    pub fn emit(&mut self, bytes: &[u8])
        ensures
            final(self)@ == old(self)@ + bytes@,
    {
        let mut i: usize = 0;
        while i < bytes.len()
            invariant
                i <= bytes@.len(),
                self@ == old(self)@ + bytes@.take(i as int),
            decreases bytes@.len() - i,
        {
            self.buffer.push(bytes[i]);
            proof {
                assert(old(self)@ + bytes@.take(i + 1) =~= (old(self)@
                    + bytes@.take(i as int)).push(bytes@[i as int]));
            }
            i = i + 1;
        }
        proof {
            assert(bytes@.take(bytes@.len() as int) =~= bytes@);
        }
    }

    /// Emit a sequence of optional bytes at the end of the buffer, skipping
    /// the absent ones.
    #[verifier::loop_isolation(false)]
    pub fn emit_maybe(&mut self, bytes: &[Option<u8>])
        ensures
            final(self)@ == old(self)@ + present_bytes(bytes@),
    {
        let mut i: usize = 0;
        while i < bytes.len()
            invariant
                i <= bytes@.len(),
                self@ == old(self)@ + present_bytes(bytes@.take(i as int)),
            decreases bytes@.len() - i,
        {
            proof {
                assert(bytes@.take(i + 1).drop_last() =~= bytes@.take(i as int));
                assert(bytes@.take(i + 1).last() == bytes@[i as int]);
            }
            match bytes[i] {
                Some(b) => {
                    self.buffer.push(b);
                    proof {
                        assert(self@ =~= old(self)@ + present_bytes(bytes@.take(i + 1)));
                    }
                },
                None => {
                    proof {
                        assert(self@ =~= old(self)@ + present_bytes(bytes@.take(i + 1)));
                    }
                },
            }
            i = i + 1;
        }
        proof {
            assert(bytes@.take(bytes@.len() as int) =~= bytes@);
        }
    }

    /// Emit a byte sequence at the specified position, overwriting what is
    /// there. The patched range must already lie inside the buffer.
    #[verifier::loop_isolation(false)]
    pub fn emit_at(&mut self, offset: usize, bytes: &[u8])
        requires
            offset + bytes@.len() <= old(self)@.len(),
        ensures
            final(self)@.len() == old(self)@.len(),
            forall|k: int|
                0 <= k < bytes@.len() ==> final(self)@[offset + k] == bytes@[k],
            forall|k: int|
                0 <= k < old(self)@.len() && !(offset <= k < offset + bytes@.len())
                    ==> final(self)@[k] == old(self)@[k],
    {
        let buffer_len = self.buffer.len();
        let mut i: usize = 0;
        while i < bytes.len()
            invariant
                buffer_len == old(self)@.len(),
                i <= bytes@.len(),
                self@.len() == old(self)@.len(),
                forall|k: int| 0 <= k < i ==> self@[offset + k] == bytes@[k],
                forall|k: int|
                    0 <= k < old(self)@.len() && !(offset <= k < offset + i)
                        ==> self@[k] == old(self)@[k],
            decreases bytes@.len() - i,
        {
            self.buffer.set(offset + i, bytes[i]);
            i = i + 1;
        }
    }

    /// Emit a byte at the end of the buffer.
    pub fn emit8(&mut self, value: u8)
        ensures
            final(self)@ == old(self)@ + seq![value],
    {
        self.buffer.push(value);
        proof {
            assert(final(self)@ =~= old(self)@ + seq![value]);
        }
    }

    /// Emit a 16-bit word at the end of the buffer, little-endian.
    pub fn emit16(&mut self, value: u16)
        ensures
            final(self)@ == old(self)@ + le16(value),
    {
        self.buffer.push((value & 0xff) as u8);
        self.buffer.push(((value >> 8) & 0xff) as u8);
        proof {
            assert(final(self)@ =~= old(self)@ + le16(value));
        }
    }

    /// Emit a 32-bit dword at the end of the buffer, little-endian.
    pub fn emit32(&mut self, value: u32)
        ensures
            final(self)@ == old(self)@ + le32(value),
    {
        self.buffer.push((value & 0xff) as u8);
        self.buffer.push(((value >> 8) & 0xff) as u8);
        self.buffer.push(((value >> 16) & 0xff) as u8);
        self.buffer.push(((value >> 24) & 0xff) as u8);
        proof {
            assert(final(self)@ =~= old(self)@ + le32(value));
        }
    }

    /// Emit a 64-bit qword at the end of the buffer, little-endian.
    pub fn emit64(&mut self, value: u64)
        ensures
            final(self)@ == old(self)@ + le64(value),
    {
        self.buffer.push((value & 0xff) as u8);
        self.buffer.push(((value >> 8) & 0xff) as u8);
        self.buffer.push(((value >> 16) & 0xff) as u8);
        self.buffer.push(((value >> 24) & 0xff) as u8);
        self.buffer.push(((value >> 32) & 0xff) as u8);
        self.buffer.push(((value >> 40) & 0xff) as u8);
        self.buffer.push(((value >> 48) & 0xff) as u8);
        self.buffer.push(((value >> 56) & 0xff) as u8);
        proof {
            assert(final(self)@ =~= old(self)@ + le64(value));
        }
    }

    /// Emit a byte at a specific offset.
    pub fn emit8_at(&mut self, offset: usize, value: u8)
        requires
            offset < old(self)@.len(),
        ensures
            final(self)@ == old(self)@.update(offset as int, value),
    {
        self.buffer.set(offset, value);
    }
}

} // verus!
