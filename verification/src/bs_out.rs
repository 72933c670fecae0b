//! Output buffer that collects the bits of one byte stream.

use crate::bits::{byte_at, lemma_byte_at_push, lemma_byte_at_range};
use crate::bits::{pack_bits, place_value, value_bits};
use vstd::prelude::*;

verus! {

/// Collects values of arbitrary bit width, one after the other, into bytes.
///
/// The bits written so far are the buffer's view. Bytes fill from their
/// least significant bit upwards.
pub struct ByteStreamOutBuffer {
    buffer: Vec<u8>,
    last_byte: u8,
    last_byte_bit: usize,
    bits: Ghost<Seq<bool>>,
}

impl View for ByteStreamOutBuffer {
    type V = Seq<bool>;

    closed spec fn view(&self) -> Seq<bool> {
        self.bits@
    }
}

/// Place value of bit `k` within a byte.
fn place(k: usize) -> (w: u8)
    requires
        k < 8,
    ensures
        w == place_value(k as int),
{
    if k == 0 {
        1
    } else if k == 1 {
        2
    } else if k == 2 {
        4
    } else if k == 3 {
        8
    } else if k == 4 {
        16
    } else if k == 5 {
        32
    } else if k == 6 {
        64
    } else {
        128
    }
}

impl ByteStreamOutBuffer {
    /// The completed bytes and the byte under construction agree with the bits written.
    pub closed spec fn well_formed(&self) -> bool {
        &&& self.last_byte_bit < 8
        &&& self.bits@.len() == 8 * self.buffer@.len() + self.last_byte_bit
        &&& forall|i: int| 0 <= i < self.buffer@.len() ==> self.buffer@[i] == byte_at(self.bits@, i)
        &&& self.last_byte == byte_at(self.bits@, self.buffer@.len() as int)
    }

    /// An empty buffer.
    pub fn new() -> (buffer: Self)
        ensures
            buffer.well_formed(),
            buffer@ == Seq::<bool>::empty(),
    {
        ByteStreamOutBuffer {
            buffer: Vec::new(),
            last_byte: 0,
            last_byte_bit: 0,
            bits: Ghost(Seq::empty()),
        }
    }

    /// Appends a single bit.
    pub fn add_bit(&mut self, bit: bool)
        requires
            old(self).well_formed(),
        ensures
            final(self).well_formed(),
            final(self)@ == old(self)@.push(bit),
    {
        let ghost before = self.bits@;
        let ghost after = before.push(bit);
        proof {
            lemma_byte_at_push(before, bit, self.buffer@.len() as int);
            lemma_byte_at_range(after, self.buffer@.len() as int);
            assert forall|i: int| 0 <= i < self.buffer@.len() implies self.buffer@[i] == byte_at(
                after,
                i,
            ) by {
                lemma_byte_at_push(before, bit, i);
            }
        }
        if bit {
            let w = place(self.last_byte_bit);
            self.last_byte = self.last_byte + w;
        }
        self.bits = Ghost(after);
        if self.last_byte_bit == 7 {
            self.buffer.push(self.last_byte);
            self.last_byte = 0;
            self.last_byte_bit = 0;
        } else {
            self.last_byte_bit = self.last_byte_bit + 1;
        }
    }

    /// Appends the `width` low bits of `value`, least significant first.
    pub fn add_bits(&mut self, value: u64, width: usize)
        requires
            old(self).well_formed(),
            width <= 64,
        ensures
            final(self).well_formed(),
            final(self)@ == old(self)@ + value_bits(value as nat, width as nat),
    {
        let mut rest = value;
        let mut done: usize = 0;
        while done < width
            invariant
                done <= width <= 64,
                self.well_formed(),
                self@ + value_bits(rest as nat, (width - done) as nat) == old(self)@ + value_bits(
                    value as nat,
                    width as nat,
                ),
            decreases width - done,
        {
            let ghost before = self@;
            let ghost tail = value_bits(rest as nat, (width - done) as nat);
            let bit = rest % 2 == 1;
            self.add_bit(bit);
            rest = rest / 2;
            done = done + 1;
            proof {
                let shorter = value_bits(rest as nat, (width - done) as nat);
                assert(tail == seq![bit] + shorter);
                assert(before.push(bit) + shorter =~= before + tail);
            }
        }
        assert(value_bits(rest as nat, 0) =~= Seq::<bool>::empty());
        assert(self@ + Seq::<bool>::empty() =~= self@);
    }

    /// Number of bytes that are completely filled.
    pub fn full_bytes(&self) -> (count: usize)
        requires
            self.well_formed(),
        ensures
            count == self@.len() / 8,
    {
        self.buffer.len()
    }

    /// Hands out all bits as bytes, the last byte padded with zero bits, and
    /// leaves the buffer empty.
    pub fn drain(&mut self) -> (bytes: Vec<u8>)
        requires
            old(self).well_formed(),
        ensures
            final(self).well_formed(),
            final(self)@ == Seq::<bool>::empty(),
            bytes@ == pack_bits(old(self)@),
    {
        let mut bytes = Vec::new();
        std::mem::swap(&mut bytes, &mut self.buffer);
        if self.last_byte_bit > 0 {
            bytes.push(self.last_byte);
        }
        proof {
            assert(bytes@.len() == (self.bits@.len() + 7) / 8);
            assert forall|i: int| 0 <= i < bytes@.len() implies bytes@[i] == byte_at(
                self.bits@,
                i,
            ) as u8 by {
                lemma_byte_at_range(self.bits@, i);
            }
            assert(bytes@ =~= pack_bits(self.bits@));
        }
        self.last_byte = 0;
        self.last_byte_bit = 0;
        self.bits = Ghost(Seq::empty());
        bytes
    }
}

} // verus!
