//! Encoding of a batch of points into one byte stream per field.

use crate::bits::pack_bits;
use crate::bs_out::ByteStreamOutBuffer;
use crate::error::Error;
use crate::packet::streams_view;
use crate::record::{batch_error, field_error, point_error, points_view, prototype_view};
use crate::record::{PointView, RawPoint, Record, RecordView};
use std::collections::VecDeque;
use vstd::prelude::*;

verus! {

/// The bits of the stream of `record`: the encoded values of the field, point
/// after point.
pub open spec fn field_bits(record: RecordView, points: Seq<PointView>) -> Seq<bool>
    decreases points.len(),
{
    if points.len() == 0 {
        Seq::empty()
    } else {
        field_bits(record, points.drop_last()) + record.data_type.encode(
            points.last()[record.name],
        )
    }
}

/// The byte streams of a batch of points, one per field in the order of the
/// prototype, each padded with zero bits to whole bytes.
pub open spec fn byte_streams(prototype: Seq<RecordView>, points: Seq<PointView>) -> Seq<Seq<u8>> {
    Seq::new(prototype.len(), |i: int| pack_bits(field_bits(prototype[i], points)))
}

/// An error among the first `m` fields is the error of the whole prototype.
pub proof fn lemma_point_error_extends(prototype: Seq<RecordView>, point: PointView, m: int)
    requires
        0 <= m <= prototype.len(),
        point_error(prototype.take(m), point) is Some,
    ensures
        point_error(prototype, point) == point_error(prototype.take(m), point),
    decreases prototype.len() - m,
{
    if m < prototype.len() {
        assert(prototype.take(m + 1).drop_last() =~= prototype.take(m));
        lemma_point_error_extends(prototype, point, m + 1);
    } else {
        assert(prototype.take(m) =~= prototype);
    }
}

/// An error among the first `m` points is the error of the whole batch.
pub proof fn lemma_batch_error_extends(
    prototype: Seq<RecordView>,
    points: Seq<PointView>,
    m: int,
)
    requires
        0 <= m <= points.len(),
        batch_error(prototype, points.take(m)) is Some,
    ensures
        batch_error(prototype, points) == batch_error(prototype, points.take(m)),
    decreases points.len() - m,
{
    if m < points.len() {
        assert(points.take(m + 1).drop_last() =~= points.take(m));
        lemma_batch_error_extends(prototype, points, m + 1);
    } else {
        assert(points.take(m) =~= points);
    }
}

/// A point that fails on a field makes its batch fail. Where no earlier
/// point and no earlier field of the point fails, the error of the batch is
/// the error of that field.
pub proof fn lemma_fault_found(
    prototype: Seq<RecordView>,
    batch: Seq<PointView>,
    j: int,
    f: int,
)
    requires
        0 <= j < batch.len(),
        0 <= f < prototype.len(),
        field_error(prototype[f], batch[j]) is Some,
    ensures
        batch_error(prototype, batch) is Some,
        batch_error(prototype, batch.take(j)) is None && point_error(
            prototype.take(f),
            batch[j],
        ) is None ==> batch_error(prototype, batch) == field_error(prototype[f], batch[j]),
{
    let point = batch[j];
    assert(prototype.take(f + 1).drop_last() =~= prototype.take(f));
    assert(prototype.take(f + 1).last() == prototype[f]);
    assert(batch.take(j + 1).drop_last() =~= batch.take(j));
    assert(batch.take(j + 1).last() == point);
    if point_error(prototype.take(f), point) is Some {
        lemma_point_error_extends(prototype, point, f);
    } else {
        lemma_point_error_extends(prototype, point, f + 1);
    }
    if batch_error(prototype, batch.take(j)) is Some {
        lemma_batch_error_extends(prototype, batch, j);
    } else {
        lemma_batch_error_extends(prototype, batch, j + 1);
    }
}

/// Encodes the first `count` points of `points` into one byte stream per
/// field of the prototype.
///
/// Fails with the error of the first point, and in it of the first field,
/// that has no value or a value that its data type cannot represent.
pub fn encode_points(prototype: &Vec<Record>, points: &VecDeque<RawPoint>, count: usize) -> (r:
    Result<Vec<Vec<u8>>, Error>)
    requires
        count <= points@.len(),
    ensures
        match r {
            Ok(streams) => {
                &&& batch_error(
                    prototype_view(prototype@),
                    points_view(points@).take(count as int),
                ) is None
                &&& streams_view(streams@) == byte_streams(
                    prototype_view(prototype@),
                    points_view(points@).take(count as int),
                )
            },
            Err(e) => batch_error(
                prototype_view(prototype@),
                points_view(points@).take(count as int),
            ) == Some(e@),
        },
{
    let ghost records = prototype_view(prototype@);
    let ghost batch = points_view(points@).take(count as int);
    let field_count = prototype.len();
    let mut buffers: Vec<ByteStreamOutBuffer> = Vec::new();
    let mut i: usize = 0;
    while i < field_count
        invariant
            i <= field_count,
            buffers@.len() == i,
            forall|f: int|
                0 <= f < i ==> (#[trigger] buffers@[f]).well_formed() && buffers@[f]@
                    == Seq::<bool>::empty(),
        decreases field_count - i,
    {
        buffers.push(ByteStreamOutBuffer::new());
        i = i + 1;
    }
    let mut j: usize = 0;
    while j < count
        invariant
            j <= count <= points@.len(),
            field_count == prototype.len(),
            records == prototype_view(prototype@),
            batch == points_view(points@).take(count as int),
            buffers@.len() == field_count,
            forall|f: int|
                0 <= f < field_count ==> (#[trigger] buffers@[f]).well_formed() && buffers@[f]@
                    == field_bits(records[f], batch.take(j as int)),
            batch_error(records, batch.take(j as int)) is None,
        decreases count - j,
    {
        let point = &points[j];
        let ghost shorter = batch.take(j as int);
        let ghost longer = batch.take(j + 1);
        proof {
            assert(longer.drop_last() =~= shorter);
            assert(longer.last() == point@);
        }
        let mut i: usize = 0;
        while i < field_count
            invariant
                i <= field_count == prototype.len(),
                records == prototype_view(prototype@),
                buffers@.len() == field_count,
                j < count == batch.len(),
                batch == points_view(points@).take(count as int),
                shorter == batch.take(j as int),
                longer == batch.take(j + 1),
                longer.drop_last() == shorter,
                longer.last() == point@,
                batch_error(records, shorter) is None,
                forall|f: int|
                    0 <= f < i ==> (#[trigger] buffers@[f]).well_formed() && buffers@[f]@
                        == field_bits(records[f], longer),
                forall|f: int|
                    i <= f < field_count ==> (#[trigger] buffers@[f]).well_formed() && buffers@[f]@
                        == field_bits(records[f], shorter),
                point_error(records.take(i as int), point@) is None,
            decreases field_count - i,
        {
            let record = &prototype[i];
            proof {
                assert(records.take(i + 1).drop_last() =~= records.take(i as int));
                assert(records.take(i + 1).last() == record@);
                assert(point_error(records.take(i + 1), point@) == field_error(record@, point@));
                if field_error(record@, point@) is Some {
                    lemma_point_error_extends(records, point@, i + 1);
                    assert(batch_error(records, longer) == field_error(record@, point@));
                    lemma_batch_error_extends(records, batch, j + 1);
                }
            }
            match point.get(record.name.as_str()) {
                None => {
                    return Err(Error::MissingField { name: record.name.clone() });
                },
                Some(value) => {
                    match record.data_type.write(&value, &mut buffers[i]) {
                        Err(_) => {
                            return Err(Error::Encoding { name: record.name.clone() });
                        },
                        Ok(()) => {},
                    }
                },
            }
            i = i + 1;
        }
        proof {
            assert(records.take(i as int) =~= records);
        }
        j = j + 1;
    }
    assert(batch.take(j as int) =~= batch);
    let mut streams: Vec<Vec<u8>> = Vec::new();
    let mut i: usize = 0;
    while i < field_count
        invariant
            i <= field_count == prototype.len(),
            records == prototype_view(prototype@),
            buffers@.len() == field_count,
            streams@.len() == i,
            forall|f: int|
                i <= f < field_count ==> (#[trigger] buffers@[f]).well_formed() && buffers@[f]@
                    == field_bits(records[f], batch),
            forall|f: int|
                0 <= f < i ==> (#[trigger] streams@[f])@ == pack_bits(
                    field_bits(records[f], batch),
                ),
        decreases field_count - i,
    {
        let bytes = buffers[i].drain();
        streams.push(bytes);
        i = i + 1;
    }
    assert(streams_view(streams@) =~= byte_streams(records, batch));
    Ok(streams)
}

} // verus!
