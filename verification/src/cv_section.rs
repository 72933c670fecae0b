//! The header that opens a compressed vector section.

use crate::endian::{le_bytes, le_value, lemma_le_bytes_len, lemma_le_roundtrip_u64, push_le};
use vstd::prelude::*;

verus! {

/// Number of bytes that a section header takes.
pub const SECTION_HEADER_SIZE: u64 = 32;

/// `count` zero bytes.
pub open spec fn zeros(count: nat) -> Seq<u8> {
    Seq::new(count, |i: int| 0u8)
}

/// Appends `count` zero bytes to `out`.
pub fn push_zeros(out: &mut Vec<u8>, count: usize)
    ensures
        final(out)@ == old(out)@ + zeros(count as nat),
{
    let mut done: usize = 0;
    while done < count
        invariant
            done <= count,
            out@ == old(out)@ + zeros(done as nat),
        decreases count - done,
    {
        out.push(0);
        done = done + 1;
        assert(out@ =~= old(out)@ + zeros(done as nat));
    }
}

/// Header of a compressed vector section.
///
/// On storage it takes 32 bytes: the section id 1, seven zero bytes, the
/// section length and the data offset as 64-bit little-endian numbers, and
/// eight zero bytes.
#[derive(Clone, Copy, Debug, PartialEq, Eq)]
pub struct CompressedVectorSectionHeader {
    /// Number of bytes of the whole section, this header included.
    pub section_length: u64,
    /// Offset of the first data packet in the storage stream.
    pub data_offset: u64,
}

impl CompressedVectorSectionHeader {
    /// The bytes of the header on storage.
    pub open spec fn bytes(self) -> Seq<u8> {
        seq![1u8] + zeros(7) + le_bytes(self.section_length as nat, 8) + le_bytes(
            self.data_offset as nat,
            8,
        ) + zeros(8)
    }

    /// A header always takes the same number of bytes.
    pub proof fn lemma_bytes_len(self)
        ensures
            self.bytes().len() == SECTION_HEADER_SIZE,
    {
        lemma_le_bytes_len(self.section_length as nat, 8);
        lemma_le_bytes_len(self.data_offset as nat, 8);
    }

    /// The numbers of a header are read back from its bytes: the section
    /// length from bytes 8 to 15, the data offset from bytes 16 to 23.
    pub proof fn lemma_read_back(self)
        ensures
            le_value(self.bytes().subrange(8, 16)) == self.section_length,
            le_value(self.bytes().subrange(16, 24)) == self.data_offset,
    {
        lemma_le_roundtrip_u64(self.section_length);
        lemma_le_roundtrip_u64(self.data_offset);
        assert(self.bytes().subrange(8, 16) =~= le_bytes(self.section_length as nat, 8));
        assert(self.bytes().subrange(16, 24) =~= le_bytes(self.data_offset as nat, 8));
    }

    /// Appends the bytes of the header to `out`.
    pub fn write(&self, out: &mut Vec<u8>)
        ensures
            final(out)@ == old(out)@ + self.bytes(),
            final(out)@.len() == old(out)@.len() + SECTION_HEADER_SIZE,
    {
        out.push(1);
        push_zeros(out, 7);
        push_le(out, self.section_length, 8);
        push_le(out, self.data_offset, 8);
        push_zeros(out, 8);
        proof {
            self.lemma_bytes_len();
            assert(out@ =~= old(out)@ + self.bytes());
        }
    }
}

} // verus!
