//! Reading a section back, as far as it takes to say that a written section
//! holds the points that were given.
//!
//! Nothing here runs: these are the definitions that a reader of the format
//! follows, and the proofs that it finds every value again.

use crate::bits::{lemma_unpack_pack, lemma_value_bits_len, pack_bits, stream_value, unpack_bits};
use crate::encoder::{byte_streams, field_bits, lemma_fault_found};
use crate::endian::{le_bytes, le_value, lemma_le_bytes_len, lemma_le_roundtrip_u16};
use crate::packet::{header_bytes, lemma_flatten_element, lemma_packet_bytes_len};
use crate::packet::{lemma_size_table_len, packet_bytes, packet_length, size_table};
use crate::packet::{MAX_PACKET_LENGTH, PACKET_HEADER_SIZE};
use crate::record::{batch_error, field_error, PointView, RecordValue, RecordView};
use crate::section::{section_body, WriterView};
use vstd::prelude::*;

verus! {

/// The length that the header of a packet states.
pub open spec fn stated_length(packet: Seq<u8>) -> nat {
    le_value(packet.subrange(2, 4)) + 1
}

/// The number of byte streams that the header of a packet states.
pub open spec fn stated_count(packet: Seq<u8>) -> nat {
    le_value(packet.subrange(4, 6))
}

/// The size of stream `f` as the size table of a packet states it.
pub open spec fn stated_size(packet: Seq<u8>, f: nat) -> nat {
    le_value(
        packet.subrange(PACKET_HEADER_SIZE as int + 2 * f, PACKET_HEADER_SIZE as int + 2 * f + 2),
    )
}

/// Where stream `f` starts in a packet: behind the header, the size table and
/// the streams before it.
pub open spec fn stream_start(packet: Seq<u8>, f: nat) -> nat
    decreases f,
{
    if f == 0 {
        PACKET_HEADER_SIZE as nat + 2 * stated_count(packet)
    } else {
        stream_start(packet, (f - 1) as nat) + stated_size(packet, (f - 1) as nat)
    }
}

/// The bytes of stream `f` of a packet.
pub open spec fn packet_stream(packet: Seq<u8>, f: nat) -> Seq<u8> {
    packet.subrange(
        stream_start(packet, f) as int,
        (stream_start(packet, f) + stated_size(packet, f)) as int,
    )
}

/// The value of field `f` of point `j` of a packet.
pub open spec fn read_value(
    packet: Seq<u8>,
    prototype: Seq<RecordView>,
    f: nat,
    j: nat,
) -> RecordValue {
    prototype[f as int].data_type.decode(
        stream_value(packet_stream(packet, f), prototype[f as int].data_type.bit_width(), j),
    )
}

/// The packets of a section body, found by the lengths that their headers state.
pub open spec fn split_packets(body: Seq<u8>) -> Seq<Seq<u8>>
    decreases body.len(),
{
    if body.len() < PACKET_HEADER_SIZE || stated_length(body) > body.len() {
        Seq::empty()
    } else {
        seq![body.take(stated_length(body) as int)] + split_packets(
            body.skip(stated_length(body) as int),
        )
    }
}

/// What the header of a packet states is true: the length of the packet and
/// the number of its streams.
pub proof fn lemma_packet_header(streams: Seq<Seq<u8>>)
    requires
        packet_length(streams) <= MAX_PACKET_LENGTH,
    ensures
        packet_bytes(streams).len() >= PACKET_HEADER_SIZE,
        stated_length(packet_bytes(streams)) == packet_bytes(streams).len(),
        stated_count(packet_bytes(streams)) == streams.len(),
{
    let packet = packet_bytes(streams);
    let length = packet_length(streams);
    let count = streams.len();
    lemma_packet_bytes_len(streams);
    lemma_size_table_len(streams);
    lemma_le_bytes_len((length - 1) as nat, 2);
    lemma_le_bytes_len(count, 2);
    assert(packet.subrange(2, 4) =~= le_bytes((length - 1) as nat, 2));
    assert(packet.subrange(4, 6) =~= le_bytes(count, 2));
    lemma_le_roundtrip_u16((length - 1) as u16);
    lemma_le_roundtrip_u16(count as u16);
}

/// What the size table of a packet states is true: the size of each stream,
/// and with it where each stream lies.
pub proof fn lemma_packet_layout(streams: Seq<Seq<u8>>, f: nat)
    requires
        packet_length(streams) <= MAX_PACKET_LENGTH,
        f < streams.len(),
    ensures
        stated_size(packet_bytes(streams), f) == streams[f as int].len(),
        stream_start(packet_bytes(streams), f) == PACKET_HEADER_SIZE + 2 * streams.len()
            + streams.take(f as int).flatten().len(),
        packet_stream(packet_bytes(streams), f) == streams[f as int],
    decreases f,
{
    let packet = packet_bytes(streams);
    let length = packet_length(streams);
    let count = streams.len();
    let header = header_bytes(false, length, count);
    let table = size_table(streams);
    let sizes = streams.map_values(|s: Seq<u8>| le_bytes(s.len(), 2));
    lemma_packet_bytes_len(streams);
    lemma_size_table_len(streams);
    lemma_le_bytes_len((length - 1) as nat, 2);
    lemma_le_bytes_len(count, 2);
    assert(header.len() == 6);
    lemma_packet_header(streams);
    // the entry of stream f in the size table
    let i = f as int;
    lemma_flatten_element(streams, i);
    lemma_flatten_element(sizes, i);
    assert(sizes.take(i) =~= streams.take(i).map_values(|s: Seq<u8>| le_bytes(s.len(), 2)));
    assert(sizes.take(i + 1) =~= streams.take(i + 1).map_values(
        |s: Seq<u8>| le_bytes(s.len(), 2),
    ));
    lemma_size_table_len(streams.take(i));
    lemma_size_table_len(streams.take(i + 1));
    assert(streams[i].len() <= MAX_PACKET_LENGTH);
    assert(packet.subrange(6 + 2 * i, 6 + 2 * i + 2) =~= table.subrange(2 * i, 2 * i + 2));
    assert(table.subrange(2 * i, 2 * i + 2) == le_bytes(streams[i].len(), 2));
    lemma_le_roundtrip_u16(streams[i].len() as u16);
    // where the stream lies
    if f > 0 {
        lemma_packet_layout(streams, (f - 1) as nat);
        lemma_flatten_element(streams, i - 1);
    } else {
        assert(streams.take(0).flatten() =~= Seq::<u8>::empty());
    }
    let before = streams.take(i).flatten().len() as int;
    let start = 6 + 2 * count + before;
    assert(packet.subrange(start, start + streams[i].len()) =~= streams.flatten().subrange(
        before,
        streams.take(i + 1).flatten().len() as int,
    ));
}

/// A stream of a field holds one encoded value per point, each as wide as
/// the field.
pub proof fn lemma_field_bits_layout(record: RecordView, points: Seq<PointView>, j: int)
    requires
        0 <= j < points.len(),
    ensures
        field_bits(record, points).len() == points.len() * record.data_type.bit_width(),
        j * record.data_type.bit_width() + record.data_type.bit_width() <= field_bits(
            record,
            points,
        ).len(),
        field_bits(record, points).subrange(
            j * record.data_type.bit_width(),
            j * record.data_type.bit_width() + record.data_type.bit_width(),
        ) == record.data_type.encode(points[j][record.name]),
    decreases points.len(),
{
    let w = record.data_type.bit_width() as int;
    let n = points.len() as int;
    let shorter = points.drop_last();
    let last = record.data_type.encode(points.last()[record.name]);
    lemma_value_bits_len(
        record.data_type.stored(points.last()[record.name]),
        record.data_type.bit_width(),
    );
    lemma_field_bits_len(record, shorter);
    assert((n - 1) * w + w == n * w) by (nonlinear_arith);
    if j == n - 1 {
        assert(field_bits(record, points).subrange(j * w, j * w + w) =~= last);
    } else {
        lemma_field_bits_layout(record, shorter, j);
        assert(j * w + w <= (n - 1) * w) by (nonlinear_arith)
            requires
                0 <= j < n - 1,
                0 <= w,
        ;
        assert(field_bits(record, points).subrange(j * w, j * w + w) =~= field_bits(
            record,
            shorter,
        ).subrange(j * w, j * w + w));
    }
}

/// A stream of a field is as long as its points are many times the width of the field.
pub proof fn lemma_field_bits_len(record: RecordView, points: Seq<PointView>)
    ensures
        field_bits(record, points).len() == points.len() * record.data_type.bit_width(),
    decreases points.len(),
{
    let w = record.data_type.bit_width() as int;
    let n = points.len() as int;
    if n > 0 {
        lemma_value_bits_len(
            record.data_type.stored(points.last()[record.name]),
            record.data_type.bit_width(),
        );
        lemma_field_bits_len(record, points.drop_last());
        assert((n - 1) * w + w == n * w) by (nonlinear_arith);
    } else {
        assert(0 * w == 0) by (nonlinear_arith);
    }
}

/// A value that the data type of a field accepts is found again in the byte
/// stream of the field, at the place of its point.
pub proof fn lemma_stream_roundtrip(record: RecordView, points: Seq<PointView>, j: nat)
    requires
        j < points.len(),
        record.data_type.accepts(points[j as int][record.name]),
    ensures
        record.data_type.decode(
            stream_value(
                pack_bits(field_bits(record, points)),
                record.data_type.bit_width(),
                j,
            ),
        ) == points[j as int][record.name],
{
    let w = record.data_type.bit_width() as int;
    let bits = field_bits(record, points);
    let read = unpack_bits(pack_bits(bits));
    lemma_field_bits_layout(record, points, j as int);
    lemma_unpack_pack(bits);
    assert(read.subrange(j * w, j * w + w) =~= read.take(bits.len() as int).subrange(
        j * w,
        j * w + w,
    ));
    record.data_type.lemma_decode_encode(points[j as int][record.name]);
}

/// In a batch without error every point has every field, with a value that
/// the data type of the field accepts.
pub proof fn lemma_batch_without_error(
    prototype: Seq<RecordView>,
    batch: Seq<PointView>,
    f: int,
    j: int,
)
    requires
        batch_error(prototype, batch) is None,
        0 <= f < prototype.len(),
        0 <= j < batch.len(),
    ensures
        batch[j].contains_key(prototype[f].name),
        prototype[f].data_type.accepts(batch[j][prototype[f].name]),
{
    if field_error(prototype[f], batch[j]) is Some {
        lemma_fault_found(prototype, batch, j, f);
    }
}

/// Every value of a batch is found again in the packet of the batch: at the
/// stream of its field and the place of its point.
pub proof fn lemma_packet_roundtrip(
    prototype: Seq<RecordView>,
    batch: Seq<PointView>,
    f: nat,
    j: nat,
)
    requires
        batch_error(prototype, batch) is None,
        packet_length(byte_streams(prototype, batch)) <= MAX_PACKET_LENGTH,
        f < prototype.len(),
        j < batch.len(),
    ensures
        batch[j as int].contains_key(prototype[f as int].name),
        read_value(packet_bytes(byte_streams(prototype, batch)), prototype, f, j)
            == batch[j as int][prototype[f as int].name],
{
    lemma_batch_without_error(prototype, batch, f as int, j as int);
    lemma_packet_layout(byte_streams(prototype, batch), f);
    lemma_stream_roundtrip(prototype[f as int], batch, j);
}

/// Packets that state their own length are found again in their concatenation.
pub proof fn lemma_split_packets(packets: Seq<Seq<u8>>)
    requires
        forall|k: int|
            0 <= k < packets.len() ==> (#[trigger] packets[k]).len() >= PACKET_HEADER_SIZE
                && stated_length(packets[k]) == packets[k].len(),
    ensures
        split_packets(packets.flatten()) == packets,
    decreases packets.len(),
{
    let body = packets.flatten();
    if packets.len() == 0 {
        assert(split_packets(body) =~= packets);
    } else {
        let first = packets.first();
        let rest = packets.drop_first();
        assert(body == first + rest.flatten());
        assert(body.subrange(2, 4) =~= first.subrange(2, 4));
        assert(body.take(first.len() as int) =~= first);
        assert(body.skip(first.len() as int) =~= rest.flatten());
        assert forall|k: int| 0 <= k < rest.len() implies (#[trigger] rest[k]).len()
            >= PACKET_HEADER_SIZE && stated_length(rest[k]) == rest[k].len() by {
            assert(rest[k] == packets[k + 1]);
        }
        lemma_split_packets(rest);
        assert(split_packets(body) =~= packets);
    }
}

/// Every value that went into a packet of a writer is found again in the
/// section body: the body splits into the packets by the lengths that their
/// headers state, and the packet of a batch yields the value of each field
/// of each of its points.
pub proof fn lemma_section_roundtrip(v: WriterView, k: int, f: nat, j: nat)
    requires
        v.coherent(),
        0 <= k < v.written.len(),
        f < v.prototype.len(),
        j < v.written[k].len(),
    ensures
        split_packets(section_body(v.prototype, v.written)).len() == v.written.len(),
        split_packets(section_body(v.prototype, v.written))[k] == packet_bytes(
            byte_streams(v.prototype, v.written[k]),
        ),
        v.written[k][j as int].contains_key(v.prototype[f as int].name),
        read_value(split_packets(section_body(v.prototype, v.written))[k], v.prototype, f, j)
            == v.written[k][j as int][v.prototype[f as int].name],
{
    let packets = v.written.map_values(
        |batch: Seq<PointView>| packet_bytes(byte_streams(v.prototype, batch)),
    );
    assert forall|i: int| 0 <= i < packets.len() implies (#[trigger] packets[i]).len()
        >= PACKET_HEADER_SIZE && stated_length(packets[i]) == packets[i].len() by {
        assert(v.written[i].len() > 0);
        lemma_packet_header(byte_streams(v.prototype, v.written[i]));
    }
    lemma_split_packets(packets);
    assert(v.written[k].len() > 0);
    lemma_packet_roundtrip(v.prototype, v.written[k], f, j);
}

} // verus!
