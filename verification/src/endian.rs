//! Little-endian byte order for the integers of headers and size tables.

use vstd::arithmetic::div_mod::{lemma_mod_breakdown, lemma_small_mod};
use vstd::arithmetic::power::{lemma_pow0, lemma_pow1, lemma_pow_positive, pow};
use vstd::arithmetic::power::lemma_pow_adds;
use vstd::prelude::*;

verus! {

/// The `count` low bytes of `value`, least significant first.
pub open spec fn le_bytes(value: nat, count: nat) -> Seq<u8>
    decreases count,
{
    if count == 0 {
        Seq::empty()
    } else {
        seq![(value % 256) as u8] + le_bytes(value / 256, (count - 1) as nat)
    }
}

/// The number that `bytes` spell, least significant byte first.
pub open spec fn le_value(bytes: Seq<u8>) -> nat
    decreases bytes.len(),
{
    if bytes.len() == 0 {
        0
    } else {
        bytes[0] as nat + 256 * le_value(bytes.drop_first())
    }
}

pub proof fn lemma_le_bytes_len(value: nat, count: nat)
    ensures
        le_bytes(value, count).len() == count,
    decreases count,
{
    if count > 0 {
        lemma_le_bytes_len(value / 256, (count - 1) as nat);
    }
}

/// Bytes written for a value spell the value modulo 256 to the number of bytes.
pub proof fn lemma_le_value_of_le_bytes(value: nat, count: nat)
    ensures
        le_value(le_bytes(value, count)) == value % (pow(256, count) as nat),
    decreases count,
{
    if count == 0 {
        lemma_pow0(256);
    } else {
        let rest = le_bytes(value / 256, (count - 1) as nat);
        let all = le_bytes(value, count);
        lemma_le_bytes_len(value / 256, (count - 1) as nat);
        assert(all.drop_first() =~= rest);
        assert(all[0] == (value % 256) as u8);
        lemma_le_value_of_le_bytes(value / 256, (count - 1) as nat);
        let m = pow(256, (count - 1) as nat);
        lemma_pow_positive(256, (count - 1) as nat);
        lemma_pow1(256);
        lemma_pow_adds(256, 1, (count - 1) as nat);
        lemma_mod_breakdown(value as int, 256, m);
    }
}

/// A value that fits into `count` bytes is read back unchanged.
pub proof fn lemma_le_roundtrip(value: nat, count: nat)
    requires
        value < pow(256, count),
    ensures
        le_value(le_bytes(value, count)) == value,
{
    lemma_le_value_of_le_bytes(value, count);
    lemma_small_mod(value, pow(256, count) as nat);
}

/// Every 16-bit value survives two bytes.
pub proof fn lemma_le_roundtrip_u16(value: u16)
    ensures
        le_bytes(value as nat, 2).len() == 2,
        le_value(le_bytes(value as nat, 2)) == value,
{
    lemma_le_bytes_len(value as nat, 2);
    assert(pow(256, 2) == 65536) by {
        lemma_pow1(256);
        lemma_pow_adds(256, 1, 1);
    }
    lemma_le_roundtrip(value as nat, 2);
}

/// Every 64-bit value survives eight bytes.
pub proof fn lemma_le_roundtrip_u64(value: u64)
    ensures
        le_bytes(value as nat, 8).len() == 8,
        le_value(le_bytes(value as nat, 8)) == value,
{
    lemma_le_bytes_len(value as nat, 8);
    assert(pow(256, 8) == 0x1_0000_0000_0000_0000) by {
        lemma_pow1(256);
        lemma_pow_adds(256, 1, 1);
        assert(pow(256, 2) == 0x1_0000);
        lemma_pow_adds(256, 2, 2);
        assert(pow(256, 4) == 0x1_0000_0000);
        lemma_pow_adds(256, 4, 4);
    }
    lemma_le_roundtrip(value as nat, 8);
}

/// Appends the `count` low bytes of `value` to `out`, least significant first.
pub fn push_le(out: &mut Vec<u8>, value: u64, count: usize)
    ensures
        final(out)@ == old(out)@ + le_bytes(value as nat, count as nat),
{
    let mut rest = value;
    let mut done: usize = 0;
    while done < count
        invariant
            done <= count,
            out@ + le_bytes(rest as nat, (count - done) as nat) == old(out)@ + le_bytes(
                value as nat,
                count as nat,
            ),
        decreases count - done,
    {
        let ghost before = out@;
        let ghost tail = le_bytes(rest as nat, (count - done) as nat);
        let byte = (rest % 256) as u8;
        out.push(byte);
        rest = rest / 256;
        done = done + 1;
        proof {
            let shorter = le_bytes(rest as nat, (count - done) as nat);
            assert(tail == seq![byte] + shorter);
            assert(before.push(byte) + shorter =~= before + tail);
        }
    }
    assert(le_bytes(rest as nat, 0) =~= Seq::<u8>::empty());
    assert(out@ + Seq::<u8>::empty() =~= out@);
}

} // verus!
