//! The state of a section writer, the steps that it takes, and what holds of
//! them.
//!
//! A writer is described by the points that it has cut into packets, the
//! points that still wait, and the numbers that it keeps of them. Each
//! operation of the writer is one step from state to state that may hand out
//! bytes. The proofs at the end say what follows for every writer: what its
//! header states, how its packets are shaped, and that no point is lost.

use crate::cv_section::{CompressedVectorSectionHeader, SECTION_HEADER_SIZE};
use crate::encoder::{byte_streams, lemma_fault_found};
use crate::endian::le_value;
use crate::error::{ErrorView, InternalFault};
use crate::packet::{lemma_packet_bytes_len, packet_bytes, packet_length, MAX_PACKET_LENGTH};
use crate::pc_writer::{PointCloudView, WriterState, PACKET_BUDGET_BITS};
use crate::record::{batch_error, point_bit_width, point_error, PointView, RecordView};
use vstd::prelude::*;

verus! {

/// The packets of the batches, one after the other.
pub open spec fn section_body(prototype: Seq<RecordView>, written: Seq<Seq<PointView>>) -> Seq<u8> {
    written.map_values(
        |batch: Seq<PointView>| packet_bytes(byte_streams(prototype, batch)),
    ).flatten()
}

/// The lengths of the packets of the batches, added up.
pub open spec fn total_packet_length(
    prototype: Seq<RecordView>,
    written: Seq<Seq<PointView>>,
) -> nat
    decreases written.len(),
{
    if written.len() == 0 {
        0
    } else {
        total_packet_length(prototype, written.drop_last()) + packet_length(
            byte_streams(prototype, written.last()),
        )
    }
}

/// The state of a writer.
pub struct WriterView {
    /// Identifier of the point cloud.
    pub guid: Seq<char>,
    /// Offset of the section in the storage stream.
    pub section_offset: u64,
    /// Length of the section so far, as the header states it.
    pub section_length: u64,
    /// Offset of the first packet, as the header states it.
    pub data_offset: u64,
    /// The fields of each point.
    pub prototype: Seq<RecordView>,
    /// Largest number of points in one packet.
    pub capacity: usize,
    /// Number of points taken so far.
    pub point_count: u64,
    /// The points that are in no packet yet, oldest first.
    pub pending: Seq<PointView>,
    /// The batches of points that went into packets, oldest first.
    pub written: Seq<Seq<PointView>>,
    /// Where the writer stands in its life.
    pub state: WriterState,
}

impl WriterView {
    /// The state of a writer that was just opened.
    pub open spec fn opened(
        section_offset: u64,
        guid: Seq<char>,
        prototype: Seq<RecordView>,
    ) -> Self {
        WriterView {
            guid,
            section_offset,
            section_length: SECTION_HEADER_SIZE,
            data_offset: (section_offset + SECTION_HEADER_SIZE) as u64,
            prototype,
            capacity: (PACKET_BUDGET_BITS as nat / point_bit_width(prototype)) as usize,
            point_count: 0,
            pending: Seq::empty(),
            written: Seq::empty(),
            state: WriterState::Open,
        }
    }

    /// Whether points can still reach a packet.
    pub open spec fn active(self) -> bool {
        self.state == WriterState::Open || self.state == WriterState::Closing
    }

    /// What holds of a writer at every moment, also while a point that was
    /// just queued waits for its packet.
    pub open spec fn coherent(self) -> bool {
        &&& self.data_offset == self.section_offset + SECTION_HEADER_SIZE
        &&& 0 < point_bit_width(self.prototype) <= PACKET_BUDGET_BITS
        &&& self.capacity == PACKET_BUDGET_BITS as nat / point_bit_width(self.prototype)
        &&& self.capacity >= 1
        &&& self.section_length == SECTION_HEADER_SIZE + section_body(
            self.prototype,
            self.written,
        ).len()
        &&& self.point_count == self.written.flatten().len() + self.pending.len()
        &&& forall|k: int|
            0 <= k < self.written.len() ==> {
                &&& 0 < (#[trigger] self.written[k]).len() <= self.capacity
                &&& batch_error(self.prototype, self.written[k]) is None
                &&& packet_length(byte_streams(self.prototype, self.written[k]))
                    <= MAX_PACKET_LENGTH
            }
        &&& self.active() ==> self.pending.len() <= self.capacity
        &&& self.state == WriterState::Closed ==> self.pending.len() == 0
    }

    /// What holds of a writer between operations: it is coherent, and while
    /// it is open fewer points wait than a packet holds.
    pub open spec fn valid(self) -> bool {
        &&& self.coherent()
        &&& self.state == WriterState::Open ==> self.pending.len() < self.capacity
    }

    /// The points of the next packet: the oldest pending ones, as many as a
    /// packet holds.
    pub open spec fn next_batch(self) -> Seq<PointView> {
        if self.pending.len() <= self.capacity {
            self.pending
        } else {
            self.pending.take(self.capacity as int)
        }
    }

    /// Why the next packet cannot be written, if it cannot.
    pub open spec fn flush_error(self) -> Option<ErrorView> {
        let batch = self.next_batch();
        let length = packet_length(byte_streams(self.prototype, batch));
        if batch.len() == 0 {
            None
        } else if batch_error(self.prototype, batch) is Some {
            batch_error(self.prototype, batch)
        } else if length > MAX_PACKET_LENGTH {
            Some(ErrorView::Internal { fault: InternalFault::PacketLength })
        } else if self.section_length + length > u64::MAX {
            Some(ErrorView::Internal { fault: InternalFault::SectionLength })
        } else {
            None
        }
    }

    /// The writer after an operation failed.
    pub open spec fn failed(self) -> Self {
        WriterView { state: WriterState::Failed, ..self }
    }

    /// The writer after the next packet was cut from the pending points, and
    /// the bytes of that packet. With no point pending nothing changes and
    /// there are no bytes. Where the packet cannot be written the writer has
    /// failed and keeps everything else.
    pub open spec fn flush(self) -> (Self, Result<Seq<u8>, ErrorView>) {
        let batch = self.next_batch();
        let streams = byte_streams(self.prototype, batch);
        match self.flush_error() {
            Some(e) => (self.failed(), Err(e)),
            None => if batch.len() == 0 {
                (self, Ok(Seq::empty()))
            } else {
                (
                    WriterView {
                        section_length: (self.section_length + packet_length(streams)) as u64,
                        pending: self.pending.skip(batch.len() as int),
                        written: self.written.push(batch),
                        ..self
                    },
                    Ok(packet_bytes(streams)),
                )
            },
        }
    }

    /// The writer after `point` was added, and the bytes of the packet that
    /// this completed, if it completed one.
    pub open spec fn add_point(self, point: PointView) -> (Self, Result<Seq<u8>, ErrorView>) {
        if self.point_count == u64::MAX {
            (self.failed(), Err(ErrorView::Internal { fault: InternalFault::PointCount }))
        } else {
            let queued = WriterView {
                point_count: (self.point_count + 1) as u64,
                pending: self.pending.push(point),
                ..self
            };
            if queued.pending.len() >= queued.capacity {
                queued.flush()
            } else {
                (queued, Ok(Seq::empty()))
            }
        }
    }

    /// The writer after the section was completed, and the bytes of the
    /// packet that holds the points that were still pending.
    pub open spec fn finalize(self) -> (Self, Result<Seq<u8>, ErrorView>) {
        let (flushed, bytes) = (WriterView { state: WriterState::Closing, ..self }).flush();
        match bytes {
            Ok(_) => (WriterView { state: WriterState::Closed, ..flushed }, bytes),
            Err(_) => (flushed, bytes),
        }
    }

    /// All points that the writer has taken, oldest first: those in packets
    /// and those that wait.
    pub open spec fn points(self) -> Seq<PointView> {
        self.written.flatten() + self.pending
    }

    /// The section as it lies on storage when the header of the writer
    /// stands at its start: the header, then the packets handed out.
    pub open spec fn section_bytes(self) -> Seq<u8> {
        self.header().bytes() + section_body(self.prototype, self.written)
    }

    /// The header of the section as it stands.
    pub open spec fn header(self) -> CompressedVectorSectionHeader {
        CompressedVectorSectionHeader {
            section_length: self.section_length,
            data_offset: self.data_offset,
        }
    }

    /// What is reported of the point cloud when the section is complete.
    pub open spec fn metadata(self) -> PointCloudView {
        PointCloudView {
            guid: self.guid,
            records: self.point_count,
            file_offset: self.section_offset,
            prototype: self.prototype,
        }
    }
}

/// One more batch adds its packet to the section body.
pub proof fn lemma_section_body_push(
    prototype: Seq<RecordView>,
    written: Seq<Seq<PointView>>,
    batch: Seq<PointView>,
)
    ensures
        section_body(prototype, written.push(batch)) == section_body(prototype, written)
            + packet_bytes(byte_streams(prototype, batch)),
        written.push(batch).flatten() == written.flatten() + batch,
{
    let f = |batch: Seq<PointView>| packet_bytes(byte_streams(prototype, batch));
    assert(written.push(batch).map_values(f) =~= written.map_values(f).push(f(batch)));
    written.map_values(f).lemma_flatten_push(f(batch));
    written.lemma_flatten_push(batch);
}

/// Flushing leaves a valid writer: no point waits any more, or the writer
/// has failed.
pub proof fn lemma_flush_valid(v: WriterView)
    requires
        v.coherent(),
        v.active(),
    ensures
        v.flush().0.valid(),
        v.flush().1 is Ok ==> v.flush().0.pending.len() == 0 && v.flush().0.state == v.state,
        v.flush().1 is Err ==> v.flush().0 == v.failed(),
{
    let batch = v.next_batch();
    assert(batch == v.pending);
    if v.flush_error() is None && batch.len() > 0 {
        let after = v.flush().0;
        lemma_section_body_push(v.prototype, v.written, batch);
        lemma_packet_bytes_len(byte_streams(v.prototype, batch));
        assert forall|k: int| 0 <= k < after.written.len() implies {
            &&& 0 < (#[trigger] after.written[k]).len() <= after.capacity
            &&& batch_error(after.prototype, after.written[k]) is None
            &&& packet_length(byte_streams(after.prototype, after.written[k]))
                <= MAX_PACKET_LENGTH
        } by {
            if k < v.written.len() {
                assert(after.written[k] == v.written[k]);
            }
        }
    }
}

/// The section body is as long as its packets together.
pub proof fn lemma_section_body_len(prototype: Seq<RecordView>, written: Seq<Seq<PointView>>)
    ensures
        section_body(prototype, written).len() == total_packet_length(prototype, written),
    decreases written.len(),
{
    if written.len() == 0 {
        assert(section_body(prototype, written) =~= Seq::<u8>::empty());
    } else {
        let shorter = written.drop_last();
        assert(written =~= shorter.push(written.last()));
        lemma_section_body_push(prototype, shorter, written.last());
        lemma_packet_bytes_len(byte_streams(prototype, written.last()));
        lemma_section_body_len(prototype, shorter);
    }
}

/// The section length in the header of a writer is the size of the header
/// plus the lengths of all packets that the writer has handed out.
pub proof fn lemma_section_length(v: WriterView)
    requires
        v.coherent(),
    ensures
        v.header().section_length == SECTION_HEADER_SIZE + total_packet_length(
            v.prototype,
            v.written,
        ),
{
    lemma_section_body_len(v.prototype, v.written);
}

/// The section length that is read back from the bytes of a section is the
/// number of those bytes, and the data offset that is read back is where the
/// first packet lies.
pub proof fn lemma_section_image(v: WriterView)
    requires
        v.coherent(),
    ensures
        v.section_bytes().len() == v.section_length,
        le_value(v.section_bytes().subrange(8, 16)) == v.section_bytes().len(),
        le_value(v.section_bytes().subrange(16, 24)) == v.section_offset + SECTION_HEADER_SIZE,
        v.section_bytes().skip(SECTION_HEADER_SIZE as int) == section_body(v.prototype, v.written),
{
    let header = v.header();
    header.lemma_bytes_len();
    header.lemma_read_back();
    assert(v.section_bytes().subrange(8, 16) =~= header.bytes().subrange(8, 16));
    assert(v.section_bytes().subrange(16, 24) =~= header.bytes().subrange(16, 24));
    assert(v.section_bytes().skip(SECTION_HEADER_SIZE as int) =~= section_body(
        v.prototype,
        v.written,
    ));
}

/// Every packet that a writer has handed out is a multiple of four bytes
/// long and at most 65535 bytes.
pub proof fn lemma_packets_aligned_and_bounded(v: WriterView, k: int)
    requires
        v.coherent(),
        0 <= k < v.written.len(),
    ensures
        packet_bytes(byte_streams(v.prototype, v.written[k])).len() % 4 == 0,
        packet_bytes(byte_streams(v.prototype, v.written[k])).len() <= MAX_PACKET_LENGTH,
        packet_bytes(byte_streams(v.prototype, v.written[k])).len() == packet_length(
            byte_streams(v.prototype, v.written[k]),
        ),
{
    assert(v.written[k].len() > 0);
    lemma_packet_bytes_len(byte_streams(v.prototype, v.written[k]));
}

/// The bytes that a flush hands out are one packet, a multiple of four bytes
/// long and at most 65535 bytes, or none where no point waits.
pub proof fn lemma_flush_packet(v: WriterView)
    requires
        v.coherent(),
        v.active(),
    ensures
        match v.flush().1 {
            Ok(bytes) => {
                &&& bytes.len() % 4 == 0
                &&& bytes.len() <= MAX_PACKET_LENGTH
                &&& bytes.len() == 0 <==> v.pending.len() == 0
                &&& v.flush().0.section_length == v.section_length + bytes.len()
                &&& v.flush().0.points() == v.points()
            },
            Err(_) => v.flush().0 == v.failed(),
        },
{
    let batch = v.next_batch();
    assert(batch == v.pending);
    lemma_packet_bytes_len(byte_streams(v.prototype, batch));
    if v.flush_error() is None && batch.len() > 0 {
        lemma_section_body_push(v.prototype, v.written, batch);
        assert(v.flush().0.points() =~= v.points());
    }
}

/// A point that lacks a field of the prototype makes its packet fail:
/// nothing is handed out, and the writer keeps its packets and its section
/// length. Where no earlier point of the packet and no earlier field of the
/// point is at fault, the error is the missing field.
pub proof fn lemma_missing_field_fails(v: WriterView, j: int, f: int)
    requires
        0 <= j < v.next_batch().len(),
        0 <= f < v.prototype.len(),
        !v.next_batch()[j].contains_key(v.prototype[f].name),
    ensures
        v.flush().1 is Err,
        v.flush().0 == v.failed(),
        v.flush().0.written == v.written,
        v.flush().0.section_length == v.section_length,
        batch_error(v.prototype, v.next_batch().take(j)) is None && point_error(
            v.prototype.take(f),
            v.next_batch()[j],
        ) is None ==> v.flush().1 == Err::<Seq<u8>, ErrorView>(
            ErrorView::MissingField { name: v.prototype[f].name },
        ),
{
    lemma_fault_found(v.prototype, v.next_batch(), j, f);
}

/// Adding a point takes it behind all earlier points. Unless the writer
/// fails, the points in packets and the waiting ones are together the points
/// taken so far, in the order in which they came.
pub proof fn lemma_add_point_keeps_order(v: WriterView, point: PointView)
    requires
        v.valid(),
        v.state == WriterState::Open,
    ensures
        v.add_point(point).0.valid(),
        v.add_point(point).1 is Ok ==> {
            &&& v.add_point(point).1->Ok_0.len() % 4 == 0
            &&& v.add_point(point).1->Ok_0.len() <= MAX_PACKET_LENGTH
            &&& v.add_point(point).0.section_length == v.section_length + v.add_point(
                point,
            ).1->Ok_0.len()
            &&& v.add_point(point).0.points() == v.points().push(point)
            &&& v.add_point(point).0.point_count == v.point_count + 1
            &&& v.add_point(point).0.state == WriterState::Open
        },
        v.add_point(point).1 is Err ==> {
            &&& v.add_point(point).0.state == WriterState::Failed
            &&& v.add_point(point).0.written == v.written
            &&& v.add_point(point).0.section_length == v.section_length
        },
{
    if v.point_count < u64::MAX {
        let queued = WriterView {
            point_count: (v.point_count + 1) as u64,
            pending: v.pending.push(point),
            ..v
        };
        assert(queued.points() =~= v.points().push(point));
        if queued.pending.len() >= queued.capacity {
            lemma_flush_valid(queued);
            lemma_flush_packet(queued);
        }
    }
}

/// Completing a section leaves no point behind: all points taken are in
/// packets, in the order in which they came, and the header states the
/// length of the section with all its packets.
pub proof fn lemma_finalize_complete(v: WriterView)
    requires
        v.valid(),
        v.state == WriterState::Open,
    ensures
        v.finalize().0.valid(),
        v.finalize().1 is Ok ==> {
            &&& v.finalize().1->Ok_0.len() % 4 == 0
            &&& v.finalize().1->Ok_0.len() <= MAX_PACKET_LENGTH
            &&& v.finalize().0.state == WriterState::Closed
            &&& v.finalize().0.written.flatten() == v.points()
            &&& v.finalize().0.point_count == v.points().len()
            &&& v.finalize().0.header().section_length == SECTION_HEADER_SIZE
                + total_packet_length(v.prototype, v.finalize().0.written)
            &&& v.finalize().0.section_length == v.section_length + v.finalize().1->Ok_0.len()
        },
        v.finalize().1 is Err ==> {
            &&& v.finalize().0.state == WriterState::Failed
            &&& v.finalize().0.written == v.written
            &&& v.finalize().0.section_length == v.section_length
        },
{
    let closing = WriterView { state: WriterState::Closing, ..v };
    lemma_flush_valid(closing);
    lemma_flush_packet(closing);
    if v.finalize().1 is Ok {
        let done = v.finalize().0;
        assert(done.written.flatten() =~= done.points());
        assert(closing.points() == v.points());
        lemma_section_length(done);
    }
}

} // verus!
