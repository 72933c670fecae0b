//! The prototype of a point cloud and the points that follow it.
//!
//! A prototype is an ordered list of records. Each record names one field of
//! a point and says how its values are packed into bits.

use crate::bits::{bit_length, bits_value, lemma_bit_length_bound, lemma_bit_length_upper};
use crate::bits::{lemma_value_bits_len, lemma_value_bits_roundtrip, value_bits};
use crate::bs_out::ByteStreamOutBuffer;
use crate::error::ErrorView;
use vstd::arithmetic::power2::{lemma2_to64, lemma2_to64_rest, pow2};
use vstd::hash_map::StringHashMap;
use vstd::prelude::*;

verus! {

/// How the values of one field are represented.
#[derive(Clone, Copy, Debug, PartialEq, Eq)]
pub enum RecordDataType {
    /// Single precision floating point number, stored as its 32-bit pattern.
    Single,
    /// Double precision floating point number, stored as its 64-bit pattern.
    Double,
    /// Integer between `min` and `max`, both included, stored as its distance
    /// from `min` in as many bits as `max - min` needs.
    Integer { min: i64, max: i64 },
}

/// One value of a point.
#[derive(Clone, Copy, Debug, PartialEq, Eq)]
pub enum RecordValue {
    /// Bit pattern of a single precision floating point number.
    Single(u32),
    /// Bit pattern of a double precision floating point number.
    Double(u64),
    /// An integer.
    Integer(i64),
}

/// Marks a value that its data type cannot represent.
#[derive(Clone, Copy, Debug, PartialEq, Eq)]
pub struct Unrepresentable;

/// One field of a prototype.
#[derive(Clone, Debug, PartialEq, Eq)]
pub struct Record {
    pub name: String,
    pub data_type: RecordDataType,
}

/// A record with its name as a sequence of characters.
pub struct RecordView {
    pub name: Seq<char>,
    pub data_type: RecordDataType,
}

impl View for Record {
    type V = RecordView;

    open spec fn view(&self) -> RecordView {
        RecordView { name: self.name@, data_type: self.data_type }
    }
}

/// A point as a map from field names to values.
pub type PointView = Map<Seq<char>, RecordValue>;

/// The views of the records of a prototype, in order.
pub open spec fn prototype_view(prototype: Seq<Record>) -> Seq<RecordView> {
    Seq::new(prototype.len(), |i: int| prototype[i]@)
}

/// The views of a sequence of points, in order.
pub open spec fn points_view(points: Seq<RawPoint>) -> Seq<PointView> {
    Seq::new(points.len(), |i: int| points[i]@)
}

/// Number of bits that `n` takes in binary.
pub fn bit_length_of(n: u64) -> (count: usize)
    ensures
        count == bit_length(n as nat),
        count <= 64,
{
    proof {
        lemma2_to64_rest();
        lemma_bit_length_upper(n as nat, 64);
    }
    let mut rest = n;
    let mut count: usize = 0;
    while rest > 0
        invariant
            count + bit_length(rest as nat) == bit_length(n as nat),
            bit_length(n as nat) <= 64,
        decreases rest,
    {
        rest = rest / 2;
        count = count + 1;
    }
    count
}

impl RecordDataType {
    /// The largest stored number of an integer type: `max - min`, or zero
    /// where the bounds are out of order.
    pub open spec fn span(min: i64, max: i64) -> nat {
        if min <= max {
            (max - min) as nat
        } else {
            0
        }
    }

    /// Number of bits that one value takes.
    pub open spec fn bit_width(self) -> nat {
        match self {
            RecordDataType::Single => 32,
            RecordDataType::Double => 64,
            RecordDataType::Integer { min, max } => bit_length(Self::span(min, max)),
        }
    }

    /// Whether the type can represent `value`: the kinds agree and an integer
    /// lies within the bounds.
    pub open spec fn accepts(self, value: RecordValue) -> bool {
        match (self, value) {
            (RecordDataType::Single, RecordValue::Single(_)) => true,
            (RecordDataType::Double, RecordValue::Double(_)) => true,
            (RecordDataType::Integer { min, max }, RecordValue::Integer(v)) => min <= v <= max,
            _ => false,
        }
    }

    /// The number that is stored for `value`.
    pub open spec fn stored(self, value: RecordValue) -> nat {
        match (self, value) {
            (RecordDataType::Single, RecordValue::Single(pattern)) => pattern as nat,
            (RecordDataType::Double, RecordValue::Double(pattern)) => pattern as nat,
            (RecordDataType::Integer { min, max }, RecordValue::Integer(v)) => (v - min) as nat,
            _ => 0,
        }
    }

    /// The bits that are written for `value`.
    pub open spec fn encode(self, value: RecordValue) -> Seq<bool> {
        value_bits(self.stored(value), self.bit_width())
    }

    /// The value that a stored number stands for.
    pub open spec fn decode(self, stored: nat) -> RecordValue {
        match self {
            RecordDataType::Single => RecordValue::Single(stored as u32),
            RecordDataType::Double => RecordValue::Double(stored as u64),
            RecordDataType::Integer { min, max } => RecordValue::Integer((min + stored) as i64),
        }
    }

    /// Every value that the type accepts is found again in its bits.
    pub proof fn lemma_decode_encode(self, value: RecordValue)
        requires
            self.accepts(value),
        ensures
            self.encode(value).len() == self.bit_width(),
            self.stored(value) < pow2(self.bit_width()),
            self.decode(bits_value(self.encode(value))) == value,
    {
        lemma_value_bits_len(self.stored(value), self.bit_width());
        lemma2_to64();
        lemma2_to64_rest();
        match self {
            RecordDataType::Integer { min, max } => {
                let span = Self::span(min, max);
                lemma_bit_length_bound(span);
            },
            _ => {},
        }
        lemma_value_bits_roundtrip(self.stored(value), self.bit_width());
    }

    /// Number of bits that one value takes.
    pub fn bit_size(&self) -> (bits: usize)
        ensures
            bits == self.bit_width(),
            bits <= 64,
    {
        match self {
            RecordDataType::Single => 32,
            RecordDataType::Double => 64,
            RecordDataType::Integer { min, max } => {
                if *max < *min {
                    bit_length_of(0)
                } else {
                    let span = (*max as i128 - *min as i128) as u64;
                    bit_length_of(span)
                }
            },
        }
    }

    /// Appends the bits of `value` to `buffer`, or leaves the buffer as it is
    /// where the type cannot represent the value.
    pub fn write(&self, value: &RecordValue, buffer: &mut ByteStreamOutBuffer) -> (r: Result<
        (),
        Unrepresentable,
    >)
        requires
            old(buffer).well_formed(),
        ensures
            final(buffer).well_formed(),
            r.is_ok() <==> self.accepts(*value),
            r.is_ok() ==> final(buffer)@ == old(buffer)@ + self.encode(*value),
            r.is_err() ==> final(buffer)@ == old(buffer)@,
    {
        match (self, value) {
            (RecordDataType::Single, RecordValue::Single(pattern)) => {
                buffer.add_bits(*pattern as u64, 32);
                Ok(())
            },
            (RecordDataType::Double, RecordValue::Double(pattern)) => {
                buffer.add_bits(*pattern, 64);
                Ok(())
            },
            (RecordDataType::Integer { min, max }, RecordValue::Integer(v)) => {
                if *min <= *v && *v <= *max {
                    let stored = (*v as i128 - *min as i128) as u64;
                    let width = self.bit_size();
                    buffer.add_bits(stored, width);
                    Ok(())
                } else {
                    Err(Unrepresentable)
                }
            },
            _ => Err(Unrepresentable),
        }
    }
}

/// A point: the values of its fields by name.
pub struct RawPoint {
    values: StringHashMap<RecordValue>,
}

impl View for RawPoint {
    type V = PointView;

    closed spec fn view(&self) -> PointView {
        self.values@
    }
}

impl RawPoint {
    /// A point without values.
    pub fn new() -> (point: Self)
        ensures
            point@ == Map::<Seq<char>, RecordValue>::empty(),
    {
        RawPoint { values: StringHashMap::new() }
    }

    /// Sets the value of the field `name`, replacing an earlier one.
    pub fn insert(&mut self, name: String, value: RecordValue)
        ensures
            final(self)@ == old(self)@.insert(name@, value),
    {
        self.values.insert(name, value);
    }

    /// The value of the field `name`, if the point has one.
    pub fn get(&self, name: &str) -> (value: Option<RecordValue>)
        ensures
            value == if self@.contains_key(name@) {
                Some(self@[name@])
            } else {
                None
            },
    {
        match self.values.get(name) {
            Some(v) => Some(*v),
            None => None,
        }
    }
}

/// Number of bits that one point of the prototype takes: the sum of the bit
/// widths of its fields.
pub open spec fn point_bit_width(prototype: Seq<RecordView>) -> nat
    decreases prototype.len(),
{
    if prototype.len() == 0 {
        0
    } else {
        point_bit_width(prototype.drop_last()) + prototype.last().data_type.bit_width()
    }
}

/// What goes wrong when the value of `record` is taken from `point`, if anything.
pub open spec fn field_error(record: RecordView, point: PointView) -> Option<ErrorView> {
    if !point.contains_key(record.name) {
        Some(ErrorView::MissingField { name: record.name })
    } else if !record.data_type.accepts(point[record.name]) {
        Some(ErrorView::Encoding { name: record.name })
    } else {
        None
    }
}

/// The error of the first field of the prototype that `point` fails on, if any.
pub open spec fn point_error(prototype: Seq<RecordView>, point: PointView) -> Option<ErrorView>
    decreases prototype.len(),
{
    if prototype.len() == 0 {
        None
    } else {
        match point_error(prototype.drop_last(), point) {
            Some(e) => Some(e),
            None => field_error(prototype.last(), point),
        }
    }
}

/// The error of the first point that fails on the prototype, if any.
pub open spec fn batch_error(prototype: Seq<RecordView>, points: Seq<PointView>) -> Option<
    ErrorView,
>
    decreases points.len(),
{
    if points.len() == 0 {
        None
    } else {
        match batch_error(prototype, points.drop_last()) {
            Some(e) => Some(e),
            None => point_error(prototype, points.last()),
        }
    }
}

/// Number of bits that one point of the prototype takes.
pub fn point_bit_size(prototype: &Vec<Record>) -> (bits: u128)
    ensures
        bits == point_bit_width(prototype_view(prototype@)),
{
    let ghost records = prototype_view(prototype@);
    let mut bits: u128 = 0;
    let mut i: usize = 0;
    while i < prototype.len()
        invariant
            i <= prototype.len(),
            records == prototype_view(prototype@),
            bits == point_bit_width(records.take(i as int)),
            bits <= 64 * i,
        decreases prototype.len() - i,
    {
        let width = prototype[i].data_type.bit_size();
        proof {
            assert(records.take(i + 1).drop_last() =~= records.take(i as int));
            assert(records.take(i + 1).last() == prototype@[i as int]@);
        }
        bits = bits + width as u128;
        i = i + 1;
    }
    proof {
        assert(records.take(i as int) =~= records);
    }
    bits
}

} // verus!
