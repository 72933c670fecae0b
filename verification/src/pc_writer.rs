//! The section writer: it queues points, cuts them into data packets and
//! keeps the section header up to date.
//!
//! The writer touches no storage. Where the section starts is told to it when
//! it is made; the header that belongs there can be asked for at any time.
//! Every operation hands back the bytes that are to be appended to the
//! storage stream. After `finalize` the header is to be written once more at
//! the start of the section, now with the final length.
//!
//! What each operation does is said over the state of the writer, which the
//! module `section` describes.

use crate::cv_section::{CompressedVectorSectionHeader, SECTION_HEADER_SIZE};
use crate::encoder::{byte_streams, encode_points};
use crate::error::{Error, ErrorView, InternalFault};
use crate::packet::{frame_packet, lemma_packet_bytes_len, push_bytes, MAX_PACKET_LENGTH};
use crate::record::{point_bit_size, point_bit_width, points_view, prototype_view};
use crate::record::{PointView, RawPoint, Record, RecordView};
use crate::section::{lemma_add_point_keeps_order, lemma_finalize_complete, lemma_flush_packet};
use crate::section::{lemma_flush_valid, section_body, WriterView};
use std::collections::VecDeque;
use vstd::prelude::*;

verus! {

/// Number of bits of point data that a packet is filled with at most: 64000
/// bytes, which leaves room below the packet limit for the header, the size
/// table and the padding.
pub const PACKET_BUDGET_BITS: u128 = 512000;

/// Where a writer stands in its life.
#[derive(Clone, Copy, Debug, PartialEq, Eq)]
pub enum WriterState {
    /// Points are accepted.
    Open,
    /// The last points are being written.
    Closing,
    /// The section is complete.
    Closed,
    /// An operation failed; the section cannot be continued.
    Failed,
}

/// What is known of a finished point cloud when the file is completed.
#[derive(Clone, Debug, PartialEq, Eq)]
pub struct PointCloud {
    /// Identifier of the point cloud.
    pub guid: String,
    /// Number of points.
    pub records: u64,
    /// Offset of the section in the storage stream.
    pub file_offset: u64,
    /// The fields of each point.
    pub prototype: Vec<Record>,
}

/// A finished point cloud with its texts as sequences of characters.
pub struct PointCloudView {
    pub guid: Seq<char>,
    pub records: u64,
    pub file_offset: u64,
    pub prototype: Seq<RecordView>,
}

impl View for PointCloud {
    type V = PointCloudView;

    open spec fn view(&self) -> PointCloudView {
        PointCloudView {
            guid: self.guid@,
            records: self.records,
            file_offset: self.file_offset,
            prototype: prototype_view(self.prototype@),
        }
    }
}

/// What `finalize` leaves to be written.
pub struct SectionEnd {
    /// The bytes of the last packets, to be appended to the storage stream.
    pub packets: Vec<u8>,
    /// The final header, to be written over the one at the section's start.
    pub header: CompressedVectorSectionHeader,
}

/// The bytes of a result, or its error, as contracts speak of them.
pub open spec fn bytes_result_view(r: Result<Vec<u8>, Error>) -> Result<Seq<u8>, ErrorView> {
    match r {
        Ok(bytes) => Ok(bytes@),
        Err(e) => Err(e@),
    }
}

/// Writes a point cloud as one compressed vector section.
pub struct PointCloudWriter {
    guid: String,
    section_offset: u64,
    section_header: CompressedVectorSectionHeader,
    prototype: Vec<Record>,
    point_count: u64,
    buffer: VecDeque<RawPoint>,
    max_points_per_packet: usize,
    state: WriterState,
    written: Ghost<Seq<Seq<PointView>>>,
}

impl View for PointCloudWriter {
    type V = WriterView;

    closed spec fn view(&self) -> WriterView {
        WriterView {
            guid: self.guid@,
            section_offset: self.section_offset,
            section_length: self.section_header.section_length,
            data_offset: self.section_header.data_offset,
            prototype: prototype_view(self.prototype@),
            capacity: self.max_points_per_packet,
            point_count: self.point_count,
            pending: points_view(self.buffer@),
            written: self.written@,
            state: self.state,
        }
    }
}

/// A copy of the prototype.
fn clone_prototype(prototype: &Vec<Record>) -> (copy: Vec<Record>)
    ensures
        prototype_view(copy@) == prototype_view(prototype@),
{
    let mut copy: Vec<Record> = Vec::with_capacity(prototype.len());
    let mut i: usize = 0;
    while i < prototype.len()
        invariant
            i <= prototype.len(),
            copy@.len() == i,
            forall|k: int| 0 <= k < i ==> (#[trigger] copy@[k])@ == prototype@[k]@,
        decreases prototype.len() - i,
    {
        copy.push(Record { name: prototype[i].name.clone(), data_type: prototype[i].data_type });
        i = i + 1;
    }
    assert(prototype_view(copy@) =~= prototype_view(prototype@));
    copy
}

impl PointCloudWriter {
    /// What holds of every writer.
    pub open spec fn well_formed(&self) -> bool {
        self@.valid()
    }

    /// Opens a section at `section_offset` of the storage stream for points
    /// of the given prototype.
    ///
    /// The header that belongs at `section_offset` is `section_header()`; as
    /// long as the writer is open its length covers the packets handed out so
    /// far. One point of the prototype must take at least one bit and at
    /// most as many as a packet is filled with.
    pub fn new(section_offset: u64, guid: &str, prototype: Vec<Record>) -> (writer: Self)
        requires
            section_offset + SECTION_HEADER_SIZE <= u64::MAX,
            0 < point_bit_width(prototype_view(prototype@)) <= PACKET_BUDGET_BITS,
        ensures
            writer.well_formed(),
            writer@ == WriterView::opened(section_offset, guid@, prototype_view(prototype@)),
    {
        let section_header = CompressedVectorSectionHeader {
            section_length: SECTION_HEADER_SIZE,
            data_offset: section_offset + SECTION_HEADER_SIZE,
        };
        let point_size = point_bit_size(&prototype);
        let max_points_per_packet = (PACKET_BUDGET_BITS / point_size) as usize;
        let writer = PointCloudWriter {
            guid: guid.to_owned(),
            section_offset,
            section_header,
            prototype,
            point_count: 0,
            buffer: VecDeque::new(),
            max_points_per_packet,
            state: WriterState::Open,
            written: Ghost(Seq::empty()),
        };
        proof {
            assert(writer@.pending =~= Seq::<PointView>::empty());
            assert(writer@.written.flatten() =~= Seq::<PointView>::empty());
            assert(section_body(writer@.prototype, writer@.written) =~= Seq::<u8>::empty());
            assert(PACKET_BUDGET_BITS as nat / point_bit_width(writer@.prototype) >= 1) by {
                vstd::arithmetic::div_mod::lemma_div_is_ordered(
                    point_bit_width(writer@.prototype) as int,
                    PACKET_BUDGET_BITS as int,
                    point_bit_width(writer@.prototype) as int,
                );
                vstd::arithmetic::div_mod::lemma_div_basics(
                    point_bit_width(writer@.prototype) as int,
                );
            }
        }
        writer
    }

    /// Where the writer stands in its life.
    pub fn state(&self) -> (state: WriterState)
        ensures
            state == self@.state,
    {
        self.state
    }

    /// Whether the writer accepts points.
    pub fn is_open(&self) -> (open: bool)
        ensures
            open == (self@.state == WriterState::Open),
    {
        match self.state {
            WriterState::Open => true,
            _ => false,
        }
    }

    /// The header of the section as it stands: the one to write at the
    /// section's start.
    pub fn section_header(&self) -> (header: CompressedVectorSectionHeader)
        ensures
            header == self@.header(),
    {
        self.section_header
    }

    /// Offset of the section in the storage stream.
    pub fn section_offset(&self) -> (offset: u64)
        ensures
            offset == self@.section_offset,
    {
        self.section_offset
    }

    /// Number of points taken so far.
    pub fn point_count(&self) -> (count: u64)
        ensures
            count == self@.point_count,
    {
        self.point_count
    }

    /// Number of points that are in no packet yet.
    pub fn pending_points(&self) -> (count: usize)
        ensures
            count == self@.pending.len(),
    {
        self.buffer.len()
    }

    /// Largest number of points in one packet.
    pub fn max_points_per_packet(&self) -> (count: usize)
        ensures
            count == self@.capacity,
    {
        self.max_points_per_packet
    }

    /// Cuts the next packet from the pending points and hands out its bytes.
    ///
    /// The packet takes the oldest pending points, as many as a packet holds.
    /// With no point pending nothing happens and no bytes are handed out.
    /// Where a point lacks a field or holds a value that cannot be
    /// represented, or the packet or the section would grow beyond what
    /// their length fields can say, the writer fails and hands out nothing.
    pub fn write_buffer_to_disk(&mut self) -> (r: Result<Vec<u8>, Error>)
        requires
            old(self)@.coherent(),
            old(self)@.active(),
        ensures
            final(self).well_formed(),
            final(self)@ == old(self)@.flush().0,
            bytes_result_view(r) == old(self)@.flush().1,
            r matches Ok(bytes) ==> bytes@.len() % 4 == 0 && bytes@.len() <= MAX_PACKET_LENGTH,
    {
        let ghost start = self@;
        proof {
            lemma_flush_valid(start);
            lemma_flush_packet(start);
        }
        let queued = self.buffer.len();
        let packet_points = if self.max_points_per_packet < queued {
            self.max_points_per_packet
        } else {
            queued
        };
        if packet_points == 0 {
            return Ok(Vec::new());
        }
        let ghost batch = start.next_batch();
        assert(batch =~= points_view(self.buffer@).take(packet_points as int));
        let streams = match encode_points(&self.prototype, &self.buffer, packet_points) {
            Ok(streams) => streams,
            Err(e) => {
                self.state = WriterState::Failed;
                return Err(e);
            },
        };
        let packet = match frame_packet(&streams) {
            Ok(packet) => packet,
            Err(e) => {
                self.state = WriterState::Failed;
                return Err(e);
            },
        };
        proof {
            lemma_packet_bytes_len(byte_streams(start.prototype, batch));
        }
        let length = packet.len() as u64;
        if length > u64::MAX - self.section_header.section_length {
            self.state = WriterState::Failed;
            return Err(Error::Internal { fault: InternalFault::SectionLength });
        }
        self.section_header.section_length = self.section_header.section_length + length;
        self.written = Ghost(start.written.push(batch));
        let ghost queue = self.buffer@;
        let mut taken: usize = 0;
        while taken < packet_points
            invariant
                taken <= packet_points <= queue.len(),
                self.buffer@ == queue.skip(taken as int),
                self@ == (WriterView { pending: points_view(self.buffer@), ..start.flush().0 }),
            decreases packet_points - taken,
        {
            self.buffer.pop_front();
            taken = taken + 1;
            assert(self.buffer@ =~= queue.skip(taken as int));
        }
        assert(points_view(self.buffer@) =~= start.pending.skip(batch.len() as int));
        Ok(packet)
    }

    /// Adds a new point to the point cloud.
    ///
    /// The point waits with the pending ones. Once as many wait as a packet
    /// holds, they are cut into a packet, whose bytes are handed out; until
    /// then no bytes are handed out. A writer that has counted as many
    /// points as its counter can hold fails.
    pub fn add_point(&mut self, point: RawPoint) -> (r: Result<Vec<u8>, Error>)
        requires
            old(self).well_formed(),
            old(self)@.state == WriterState::Open,
        ensures
            final(self).well_formed(),
            final(self)@ == old(self)@.add_point(point@).0,
            bytes_result_view(r) == old(self)@.add_point(point@).1,
            r matches Ok(bytes) ==> bytes@.len() % 4 == 0 && bytes@.len() <= MAX_PACKET_LENGTH,
    {
        let ghost start = self@;
        proof {
            lemma_add_point_keeps_order(start, point@);
        }
        if self.point_count == u64::MAX {
            self.state = WriterState::Failed;
            return Err(Error::Internal { fault: InternalFault::PointCount });
        }
        self.buffer.push_back(point);
        self.point_count = self.point_count + 1;
        assert(points_view(self.buffer@) =~= start.pending.push(point@));
        if self.buffer.len() >= self.max_points_per_packet {
            self.write_buffer_to_disk()
        } else {
            Ok(Vec::new())
        }
    }

    /// Called after all points have been added to complete the section.
    ///
    /// The points that still wait are cut into a last packet. The bytes of
    /// that packet and the final header are handed out: the packet is to be
    /// appended to the storage stream, the header to be written over the one
    /// at the section's start. A record of the point cloud is appended to
    /// `pointclouds`. Where the last packet cannot be written the writer
    /// fails, and `pointclouds` stays as it is.
    pub fn finalize(&mut self, pointclouds: &mut Vec<PointCloud>) -> (r: Result<SectionEnd, Error>)
        requires
            old(self).well_formed(),
            old(self)@.state == WriterState::Open,
        ensures
            final(self).well_formed(),
            final(self)@ == old(self)@.finalize().0,
            match r {
                Ok(end) => {
                    &&& old(self)@.finalize().1 == Ok::<Seq<u8>, ErrorView>(end.packets@)
                    &&& end.packets@.len() % 4 == 0
                    &&& end.packets@.len() <= MAX_PACKET_LENGTH
                    &&& end.header == final(self)@.header()
                    &&& final(pointclouds)@.len() == old(pointclouds)@.len() + 1
                    &&& final(pointclouds)@.drop_last() == old(pointclouds)@
                    &&& final(pointclouds)@.last()@ == final(self)@.metadata()
                },
                Err(e) => {
                    &&& old(self)@.finalize().1 == Err::<Seq<u8>, ErrorView>(e@)
                    &&& final(pointclouds)@ == old(pointclouds)@
                },
            },
    {
        let ghost start = (WriterView { state: WriterState::Closing, ..self@ });
        proof {
            lemma_finalize_complete(self@);
            lemma_flush_valid(start);
        }
        self.state = WriterState::Closing;
        let mut packets: Vec<u8> = Vec::new();
        // Flush remaining points from the queue
        while self.buffer.len() > 0
            invariant
                self.well_formed(),
                start.valid(),
                start == (WriterView { state: WriterState::Closing, ..old(self)@ }),
                self@.pending.len() == self.buffer@.len(),
                pointclouds@ == old(pointclouds)@,
                (self@ == start && packets@ == Seq::<u8>::empty()) || (self@ == start.flush().0
                    && start.flush().1 == Ok::<Seq<u8>, ErrorView>(packets@)
                    && self@.pending.len() == 0),
            decreases self.buffer@.len(),
        {
            match self.write_buffer_to_disk() {
                Ok(bytes) => {
                    push_bytes(&mut packets, &bytes);
                    assert(packets@ =~= bytes@);
                },
                Err(e) => {
                    return Err(e);
                },
            }
        }
        assert(self@ == start.flush().0 && start.flush().1 == Ok::<Seq<u8>, ErrorView>(packets@));
        self.state = WriterState::Closed;
        // The caller writes the section header again, with the final length
        // which was unknown before and is now available.
        let header = self.section_header;
        pointclouds.push(
            PointCloud {
                guid: self.guid.clone(),
                records: self.point_count,
                file_offset: self.section_offset,
                prototype: clone_prototype(&self.prototype),
            },
        );
        assert(pointclouds@.drop_last() =~= old(pointclouds)@);
        Ok(SectionEnd { packets, header })
    }
}

} // verus!
