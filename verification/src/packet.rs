//! Data packets: the byte streams of a batch of points behind a header and
//! a table of their sizes.

use crate::cv_section::{push_zeros, zeros};
use crate::endian::{le_bytes, lemma_le_bytes_len, push_le};
use crate::error::{Error, ErrorView, InternalFault};
use vstd::prelude::*;
use vstd::seq_lib::lemma_flatten_concat;

verus! {

/// Number of bytes that a data packet header takes.
pub const PACKET_HEADER_SIZE: usize = 6;

/// The largest length that a data packet may have.
pub const MAX_PACKET_LENGTH: usize = 65535;

/// The bytes of a data packet header: the packet type 1, the flags, then the
/// packet length less one and the number of byte streams, both as 16-bit
/// little-endian numbers.
pub open spec fn header_bytes(restart: bool, packet_length: nat, bytestream_count: nat) -> Seq<u8> {
    seq![1u8, if restart { 1u8 } else { 0u8 }] + le_bytes((packet_length - 1) as nat, 2) + le_bytes(
        bytestream_count,
        2,
    )
}

/// Header of a data packet.
#[derive(Clone, Copy, Debug, PartialEq, Eq)]
pub struct DataPacketHeader {
    /// Whether a reader has to restart its decoders at this packet.
    pub comp_restart_flag: bool,
    /// Number of bytes of the whole packet, this header included.
    pub packet_length: u64,
    /// Number of byte streams in the packet.
    pub bytestream_count: u16,
}

impl DataPacketHeader {
    /// The bytes of the header on storage.
    pub open spec fn bytes(self) -> Seq<u8> {
        header_bytes(
            self.comp_restart_flag,
            self.packet_length as nat,
            self.bytestream_count as nat,
        )
    }

    /// Appends the bytes of the header to `out`.
    pub fn write(&self, out: &mut Vec<u8>)
        requires
            0 < self.packet_length <= 65536,
        ensures
            final(out)@ == old(out)@ + self.bytes(),
            final(out)@.len() == old(out)@.len() + PACKET_HEADER_SIZE,
    {
        out.push(1);
        out.push(if self.comp_restart_flag { 1 } else { 0 });
        push_le(out, self.packet_length - 1, 2);
        push_le(out, self.bytestream_count as u64, 2);
        proof {
            lemma_le_bytes_len((self.packet_length - 1) as nat, 2);
            lemma_le_bytes_len(self.bytestream_count as nat, 2);
            assert(out@ =~= old(out)@ + self.bytes());
        }
    }
}

/// The byte streams as sequences of bytes.
pub open spec fn streams_view(streams: Seq<Vec<u8>>) -> Seq<Seq<u8>> {
    Seq::new(streams.len(), |i: int| streams[i]@)
}

/// The table of stream sizes: one 16-bit little-endian number per stream.
pub open spec fn size_table(streams: Seq<Seq<u8>>) -> Seq<u8> {
    streams.map_values(|s: Seq<u8>| le_bytes(s.len(), 2)).flatten()
}

/// Number of bytes of header, size table and streams together.
pub open spec fn unpadded_length(streams: Seq<Seq<u8>>) -> nat {
    PACKET_HEADER_SIZE as nat + 2 * streams.len() + streams.flatten().len()
}

/// The next multiple of four at or above `n`.
pub open spec fn round_up4(n: nat) -> nat {
    if n % 4 == 0 {
        n
    } else {
        (n + 4 - n % 4) as nat
    }
}

/// Number of bytes of the packet that holds `streams`.
pub open spec fn packet_length(streams: Seq<Seq<u8>>) -> nat {
    round_up4(unpadded_length(streams))
}

/// The packet that holds `streams`: header, size table, the streams in
/// order, and zero bytes up to the packet length.
pub open spec fn packet_bytes(streams: Seq<Seq<u8>>) -> Seq<u8> {
    header_bytes(false, packet_length(streams), streams.len()) + size_table(streams)
        + streams.flatten() + zeros((packet_length(streams) - unpadded_length(streams)) as nat)
}

/// The first `i + 1` elements are the first `i` and element `i`.
pub proof fn lemma_take_push<A>(s: Seq<A>, i: int)
    requires
        0 <= i < s.len(),
    ensures
        s.take(i + 1) == s.take(i).push(s[i]),
{
    assert(s.take(i + 1) =~= s.take(i).push(s[i]));
}

/// The streams up to `i` are no longer than all streams.
proof fn lemma_flatten_prefix(streams: Seq<Seq<u8>>, i: int)
    requires
        0 <= i <= streams.len(),
    ensures
        streams.take(i).flatten().len() <= streams.flatten().len(),
{
    lemma_flatten_concat(streams.take(i), streams.skip(i));
    assert(streams.take(i) + streams.skip(i) =~= streams);
}

/// Where element `f` of a sequence of sequences lies in their concatenation:
/// behind the elements before it.
pub proof fn lemma_flatten_element<A>(s: Seq<Seq<A>>, f: int)
    requires
        0 <= f < s.len(),
    ensures
        s.take(f + 1).flatten() == s.take(f).flatten() + s[f],
        s.take(f + 1).flatten().len() <= s.flatten().len(),
        s.flatten().subrange(
            s.take(f).flatten().len() as int,
            s.take(f + 1).flatten().len() as int,
        ) == s[f],
{
    lemma_take_push(s, f);
    s.take(f).lemma_flatten_push(s[f]);
    lemma_flatten_concat(s.take(f + 1), s.skip(f + 1));
    assert(s.take(f + 1) + s.skip(f + 1) =~= s);
    assert(s.flatten().subrange(
        s.take(f).flatten().len() as int,
        s.take(f + 1).flatten().len() as int,
    ) =~= s[f]);
}

/// The size table takes two bytes per stream.
pub proof fn lemma_size_table_len(streams: Seq<Seq<u8>>)
    ensures
        size_table(streams).len() == 2 * streams.len(),
    decreases streams.len(),
{
    let sizes = streams.map_values(|s: Seq<u8>| le_bytes(s.len(), 2));
    if streams.len() > 0 {
        let shorter = streams.drop_last();
        let shorter_sizes = shorter.map_values(|s: Seq<u8>| le_bytes(s.len(), 2));
        assert(sizes =~= shorter_sizes.push(le_bytes(streams.last().len(), 2)));
        shorter_sizes.lemma_flatten_push(le_bytes(streams.last().len(), 2));
        lemma_le_bytes_len(streams.last().len(), 2);
        lemma_size_table_len(shorter);
    } else {
        assert(sizes =~= Seq::<Seq<u8>>::empty());
    }
}

/// A packet has the length that its header states, a multiple of four.
pub proof fn lemma_packet_bytes_len(streams: Seq<Seq<u8>>)
    ensures
        packet_bytes(streams).len() == packet_length(streams),
        packet_length(streams) % 4 == 0,
        unpadded_length(streams) <= packet_length(streams) < unpadded_length(streams) + 4,
{
    lemma_size_table_len(streams);
    lemma_le_bytes_len((packet_length(streams) - 1) as nat, 2);
    lemma_le_bytes_len(streams.len(), 2);
}

/// Appends the bytes of `source` to `out`.
pub fn push_bytes(out: &mut Vec<u8>, source: &Vec<u8>)
    ensures
        final(out)@ == old(out)@ + source@,
{
    let mut i: usize = 0;
    while i < source.len()
        invariant
            i <= source.len(),
            out@ == old(out)@ + source@.take(i as int),
        decreases source.len() - i,
    {
        out.push(source[i]);
        i = i + 1;
        assert(out@ =~= old(out)@ + source@.take(i as int));
    }
    assert(source@.take(i as int) =~= source@);
}

/// Frames byte streams as one data packet.
///
/// Fails where the packet would be longer than 65535 bytes, and only there.
pub fn frame_packet(streams: &Vec<Vec<u8>>) -> (r: Result<Vec<u8>, Error>)
    ensures
        match r {
            Ok(packet) => {
                &&& packet_length(streams_view(streams@)) <= MAX_PACKET_LENGTH
                &&& packet@ == packet_bytes(streams_view(streams@))
                &&& packet@.len() == packet_length(streams_view(streams@))
                &&& packet@.len() % 4 == 0
            },
            Err(e) => {
                &&& packet_length(streams_view(streams@)) > MAX_PACKET_LENGTH
                &&& e@ == (ErrorView::Internal { fault: InternalFault::PacketLength })
            },
        },
{
    let ghost all = streams_view(streams@);
    let count = streams.len();
    proof {
        lemma_packet_bytes_len(all);
    }
    if count > MAX_PACKET_LENGTH {
        return Err(Error::Internal { fault: InternalFault::PacketLength });
    }
    let mut payload: usize = 0;
    let mut i: usize = 0;
    while i < count
        invariant
            i <= count == streams.len(),
            all == streams_view(streams@),
            payload == all.take(i as int).flatten().len(),
            payload <= MAX_PACKET_LENGTH,
        decreases count - i,
    {
        let size = streams[i].len();
        proof {
            lemma_take_push(all, i as int);
            all.take(i as int).lemma_flatten_push(all[i as int]);
            lemma_flatten_prefix(all, i + 1);
        }
        if size > MAX_PACKET_LENGTH - payload {
            return Err(Error::Internal { fault: InternalFault::PacketLength });
        }
        payload = payload + size;
        i = i + 1;
    }
    assert(all.take(i as int) =~= all);
    let unpadded = PACKET_HEADER_SIZE + 2 * count + payload;
    let remainder = unpadded % 4;
    let length = if remainder == 0 {
        unpadded
    } else {
        unpadded + (4 - remainder)
    };
    if length > MAX_PACKET_LENGTH {
        return Err(Error::Internal { fault: InternalFault::PacketLength });
    }
    let header = DataPacketHeader {
        comp_restart_flag: false,
        packet_length: length as u64,
        bytestream_count: count as u16,
    };
    let mut packet: Vec<u8> = Vec::with_capacity(length);
    header.write(&mut packet);
    assert(packet@ =~= header_bytes(false, packet_length(all), all.len()));
    let ghost sizes = all.map_values(|s: Seq<u8>| le_bytes(s.len(), 2));
    let mut i: usize = 0;
    while i < count
        invariant
            i <= count == streams.len(),
            all == streams_view(streams@),
            sizes == all.map_values(|s: Seq<u8>| le_bytes(s.len(), 2)),
            packet@ == header_bytes(false, packet_length(all), all.len()) + sizes.take(
                i as int,
            ).flatten(),
        decreases count - i,
    {
        let ghost before = packet@;
        push_le(&mut packet, streams[i].len() as u64, 2);
        proof {
            lemma_take_push(sizes, i as int);
            sizes.take(i as int).lemma_flatten_push(sizes[i as int]);
            assert(packet@ =~= header_bytes(false, packet_length(all), all.len()) + sizes.take(
                i + 1,
            ).flatten());
        }
        i = i + 1;
    }
    assert(sizes.take(i as int) =~= sizes);
    let mut i: usize = 0;
    while i < count
        invariant
            i <= count == streams.len(),
            all == streams_view(streams@),
            packet@ == header_bytes(false, packet_length(all), all.len()) + size_table(all)
                + all.take(i as int).flatten(),
        decreases count - i,
    {
        push_bytes(&mut packet, &streams[i]);
        proof {
            lemma_take_push(all, i as int);
            all.take(i as int).lemma_flatten_push(all[i as int]);
            assert(packet@ =~= header_bytes(false, packet_length(all), all.len()) + size_table(all)
                + all.take(i + 1).flatten());
        }
        i = i + 1;
    }
    assert(all.take(i as int) =~= all);
    push_zeros(&mut packet, length - unpadded);
    Ok(packet)
}

} // verus!
