//! Bit sequences, their packing into bytes and their reading back.
//!
//! Bits are ordered least significant first: the first bit of a stream is
//! bit 0 of its first byte.

use vstd::arithmetic::div_mod::*;
use vstd::arithmetic::power2::*;
use vstd::prelude::*;

verus! {

/// Number of binary digits needed to write `n`; zero for zero.
pub open spec fn bit_length(n: nat) -> nat
    decreases n,
{
    if n == 0 {
        0
    } else {
        1 + bit_length(n / 2)
    }
}

/// The `width` low binary digits of `value`, least significant first.
pub open spec fn value_bits(value: nat, width: nat) -> Seq<bool>
    decreases width,
{
    if width == 0 {
        Seq::empty()
    } else {
        seq![value % 2 == 1] + value_bits(value / 2, (width - 1) as nat)
    }
}

/// The number whose binary digits are `bits`, least significant first.
pub open spec fn bits_value(bits: Seq<bool>) -> nat
    decreases bits.len(),
{
    if bits.len() == 0 {
        0
    } else {
        (if bits[0] { 1nat } else { 0nat }) + 2 * bits_value(bits.drop_first())
    }
}

/// Bit `k` of a bit sequence as 0 or 1; positions outside the sequence read as 0.
pub open spec fn bit_int(bits: Seq<bool>, k: int) -> int {
    if 0 <= k < bits.len() && bits[k] {
        1
    } else {
        0
    }
}

/// Place value of bit `k` within a byte.
pub open spec fn place_value(k: int) -> int {
    if k <= 0 {
        1
    } else if k == 1 {
        2
    } else if k == 2 {
        4
    } else if k == 3 {
        8
    } else if k == 4 {
        16
    } else if k == 5 {
        32
    } else if k == 6 {
        64
    } else {
        128
    }
}

/// Value of byte `i` of the packed form of `bits`: bit `k` of the byte is bit
/// `8 * i + k` of the sequence, and missing bits are zero.
pub open spec fn byte_at(bits: Seq<bool>, i: int) -> int {
    bit_int(bits, 8 * i) + 2 * bit_int(bits, 8 * i + 1) + 4 * bit_int(bits, 8 * i + 2) + 8
        * bit_int(bits, 8 * i + 3) + 16 * bit_int(bits, 8 * i + 4) + 32 * bit_int(bits, 8 * i + 5)
        + 64 * bit_int(bits, 8 * i + 6) + 128 * bit_int(bits, 8 * i + 7)
}

/// The bytes that hold `bits`, the last one padded with zero bits.
pub open spec fn pack_bits(bits: Seq<bool>) -> Seq<u8> {
    Seq::new(((bits.len() + 7) / 8) as nat, |i: int| byte_at(bits, i) as u8)
}

/// Bit `k` of a byte.
pub open spec fn byte_bit(b: u8, k: int) -> bool {
    (b as int / place_value(k)) % 2 == 1
}

/// All bits of a byte sequence, eight per byte.
pub open spec fn unpack_bits(bytes: Seq<u8>) -> Seq<bool> {
    Seq::new(8 * bytes.len(), |i: int| byte_bit(bytes[i / 8], i % 8))
}

/// The `width`-bit number stored at position `index` of a stream of
/// equally wide numbers.
pub open spec fn stream_value(stream: Seq<u8>, width: nat, index: nat) -> nat {
    bits_value(unpack_bits(stream).subrange((index * width) as int, (index * width + width) as int))
}

pub proof fn lemma_value_bits_len(value: nat, width: nat)
    ensures
        value_bits(value, width).len() == width,
    decreases width,
{
    if width > 0 {
        lemma_value_bits_len(value / 2, (width - 1) as nat);
    }
}

/// Bit `k` of the bits of a value is the binary digit of the value at place
/// two to the power `k`.
pub proof fn lemma_value_bits_index(value: nat, width: nat, k: nat)
    requires
        k < width,
    ensures
        value_bits(value, width)[k as int] == ((value / pow2(k)) % 2 == 1),
    decreases width,
{
    lemma_value_bits_len(value / 2, (width - 1) as nat);
    if k == 0 {
        lemma2_to64();
    } else {
        lemma_value_bits_index(value / 2, (width - 1) as nat, (k - 1) as nat);
        lemma_pow2_unfold(k);
        lemma_pow2_pos((k - 1) as nat);
        lemma_div_denominator(value as int, 2, pow2((k - 1) as nat) as int);
    }
}

/// A byte packed from bits is a byte.
pub proof fn lemma_byte_at_range(bits: Seq<bool>, i: int)
    ensures
        0 <= byte_at(bits, i) < 256,
{
}

/// Appending one bit changes only the byte that the bit falls into, by the
/// bit's place value.
pub proof fn lemma_byte_at_push(bits: Seq<bool>, bit: bool, i: int)
    requires
        0 <= i <= bits.len() / 8,
    ensures
        i < bits.len() / 8 ==> byte_at(bits.push(bit), i) == byte_at(bits, i),
        i == bits.len() / 8 ==> byte_at(bits.push(bit), i) == byte_at(bits, i) + (if bit {
            place_value(bits.len() as int % 8)
        } else {
            0
        }),
        i == bits.len() / 8 ==> byte_at(bits, i) < place_value(bits.len() as int % 8),
{
    let longer = bits.push(bit);
    let n = bits.len() as int;
    assert forall|k: int| 0 <= k < n implies bit_int(longer, k) == bit_int(bits, k) by {
        assert(longer[k] == bits[k]);
    }
    assert(bit_int(longer, n) == if bit { 1int } else { 0int });
    assert forall|k: int| k > n implies bit_int(longer, k) == 0 && bit_int(bits, k) == 0 by {}
    assert(bit_int(bits, n) == 0);
}

/// Reading bit `k` of a packed byte gives back the bit that was packed.
pub proof fn lemma_byte_bit_of_byte_at(bits: Seq<bool>, i: int, k: int)
    requires
        0 <= k < 8,
    ensures
        byte_bit(byte_at(bits, i) as u8, k) == (bit_int(bits, 8 * i + k) == 1),
{
    lemma_byte_at_range(bits, i);
}

/// Unpacking packed bits gives the bits back, followed by the padding.
pub proof fn lemma_unpack_pack(bits: Seq<bool>)
    ensures
        unpack_bits(pack_bits(bits)).len() == 8 * ((bits.len() + 7) / 8),
        unpack_bits(pack_bits(bits)).take(bits.len() as int) == bits,
        forall|k: int|
            bits.len() <= k < 8 * ((bits.len() + 7) / 8) ==> !unpack_bits(pack_bits(bits))[k],
{
    let packed = pack_bits(bits);
    let all = unpack_bits(packed);
    assert forall|k: int| 0 <= k < all.len() implies all[k] == (bit_int(bits, k) == 1) by {
        lemma_byte_bit_of_byte_at(bits, k / 8, k % 8);
    }
    assert(all.take(bits.len() as int) =~= bits);
}

/// A number is below two to the power of its bit length.
pub proof fn lemma_bit_length_bound(n: nat)
    ensures
        n < pow2(bit_length(n)),
    decreases n,
{
    if n == 0 {
        lemma_pow2_pos(0);
    } else {
        lemma_bit_length_bound(n / 2);
        lemma_pow2_unfold(bit_length(n));
    }
}

/// A number below two to the power `k` has at most `k` binary digits.
pub proof fn lemma_bit_length_upper(n: nat, k: nat)
    requires
        n < pow2(k),
    ensures
        bit_length(n) <= k,
    decreases n,
{
    if n > 0 {
        if k == 0 {
            lemma2_to64();
        } else {
            lemma_pow2_unfold(k);
            lemma_bit_length_upper(n / 2, (k - 1) as nat);
        }
    }
}

/// The bits of a value, read back as a number, give the value modulo two to
/// the width.
pub proof fn lemma_bits_value_of_value_bits(value: nat, width: nat)
    ensures
        bits_value(value_bits(value, width)) == value % pow2(width),
    decreases width,
{
    if width == 0 {
        lemma_pow2_pos(0);
        assert(pow2(0) == 1) by {
            lemma2_to64();
        }
    } else {
        let rest = value_bits(value / 2, (width - 1) as nat);
        let all = value_bits(value, width);
        lemma_value_bits_len(value / 2, (width - 1) as nat);
        assert(all.drop_first() =~= rest);
        assert(all[0] == (value % 2 == 1));
        lemma_bits_value_of_value_bits(value / 2, (width - 1) as nat);
        let m = pow2((width - 1) as nat);
        lemma_pow2_pos((width - 1) as nat);
        lemma_pow2_unfold(width);
        lemma_mod_breakdown(value as int, 2, m as int);
    }
}

/// A value that fits its width is read back unchanged.
pub proof fn lemma_value_bits_roundtrip(value: nat, width: nat)
    requires
        value < pow2(width),
    ensures
        bits_value(value_bits(value, width)) == value,
{
    lemma_bits_value_of_value_bits(value, width);
    lemma_small_mod(value, pow2(width));
}

} // verus!
