//! Single bits of bytes, and the packed vectors of booleans that mark which
//! optional entries of a list are present.

use crate::error::{ReadError, ReadFailure};
use crate::stream::{take_bytes, take_u8, ByteCursor, Parse};
use bitfield::{Bit, BitRange};
use vstd::arithmetic::power2::{lemma2_to64, pow2};
use vstd::prelude::*;

verus! {

/// Bit `index` of `byte`, where bit 0 is the least significant.
pub open spec fn bit_at(byte: u8, index: nat) -> bool {
    (byte as nat / pow2(index)) % 2 == 1
}

/// The number held in the bits `lsb` to `msb` of `byte`, both included, where
/// bit 0 is the least significant.
pub open spec fn bit_range_at(byte: u8, msb: nat, lsb: nat) -> nat {
    (byte as nat / pow2(lsb)) % pow2((msb - lsb + 1) as nat)
}

/// `bitfield::Bit::bit` on a `u8`: whether bit `index` is set, counted from
/// the least significant. The call shifts by `7 - index`, so `index` stays
/// below eight.
#[verifier::external_body]
pub(crate) fn bit_of(byte: u8, index: usize) -> (r: bool)
    requires
        index < 8,
    ensures
        r == bit_at(byte, index as nat),
{
    byte.bit(index)
}

/// `bitfield::BitRange::<u8>::bit_range` on a `u8`: the bits `lsb` to `msb`,
/// moved down to bit 0. The call shifts by `7 - msb` and checks the order of
/// the two, so `lsb <= msb < 8`.
#[verifier::external_body]
pub(crate) fn bit_range_of(byte: u8, msb: usize, lsb: usize) -> (r: u8)
    requires
        lsb <= msb < 8,
    ensures
        r == bit_range_at(byte, msb as nat, lsb as nat),
{
    BitRange::<u8>::bit_range(&byte, msb, lsb)
}

/// Entry `i` of a packed vector: the bits of each byte are taken from the most
/// significant down.
pub open spec fn vector_bit(bytes: Seq<u8>, i: int) -> bool {
    bit_at(bytes[i / 8], (7 - i % 8) as nat)
}

/// The first `n` entries of the packed vector `bytes`.
pub open spec fn unpack_bits(bytes: Seq<u8>, n: nat) -> Seq<bool> {
    Seq::new(n, |i: int| vector_bit(bytes, i))
}

/// How many bytes a packed vector of `n` entries takes.
pub open spec fn packed_len(n: nat) -> nat {
    (n + 7) / 8
}

/// A packed vector of `n` entries at `pos`.
pub open spec fn spec_bit_vector(bytes: Seq<u8>, pos: nat, n: nat) -> Parse<Seq<bool>> {
    match take_bytes(bytes, pos, packed_len(n)) {
        Ok((part, next)) => Ok((unpack_bits(part, n), next)),
        Err(e) => Err(e),
    }
}

/// A vector of `n` entries at `pos` behind its tag byte: a tag of zero is
/// followed by the packed vector, any other tag stands for `n` entries that
/// are all set and is followed by nothing.
pub open spec fn spec_defined_vector(bytes: Seq<u8>, pos: nat, n: nat) -> Parse<Seq<bool>> {
    match take_u8(bytes, pos) {
        Ok((tag, next)) => if tag == 0 {
            spec_bit_vector(bytes, next, n)
        } else {
            Ok((Seq::new(n, |i: int| true), next))
        },
        Err(e) => Err(e),
    }
}

/// Reads a packed vector of `n` booleans from `(n + 7) / 8` bytes. Where the
/// bytes end too early, the cursor stays where it was.
pub fn read_bit_vector(reader: &mut ByteCursor, n: u64) -> (r: Result<Vec<bool>, ReadError>)
    ensures
        final(reader)@.bytes == old(reader)@.bytes,
        match r {
            Ok(bits) => spec_bit_vector(old(reader)@.bytes, old(reader)@.pos, n as nat) == Ok::<
                (Seq<bool>, nat),
                ReadFailure,
            >((bits@, final(reader)@.pos)),
            Err(e) => spec_bit_vector(old(reader)@.bytes, old(reader)@.pos, n as nat) == Err::<
                (Seq<bool>, nat),
                ReadFailure,
            >(e@) && final(reader)@ == old(reader)@,
        },
{
    let nbytes: u64 = n / 8 + (if n % 8 == 0 {
        0
    } else {
        1
    });
    if nbytes > reader.remaining() as u64 {
        return Err(ReadError::Io);
    }
    let part = reader.read_exact(nbytes as usize)?;
    let mut bits: Vec<bool> = Vec::new();
    let mut i: u64 = 0;
    while i < n
        invariant
            i <= n,
            part@.len() == packed_len(n as nat),
            bits@ == unpack_bits(part@, i as nat),
        decreases n - i,
    {
        let byte = part[(i / 8) as usize];
        let bit = bit_of(byte, 7 - (i % 8) as usize);
        bits.push(bit);
        proof {
            assert(bits@ =~= unpack_bits(part@, (i + 1) as nat));
        }
        i = i + 1;
    }
    Ok(bits)
}

/// Reads a vector of `n` booleans behind its tag byte. A tag other than zero
/// yields `n` times `true` and leaves the cursor right behind the tag. Where
/// the bytes end too early, the cursor stays where it was.
pub fn read_defined_vector(reader: &mut ByteCursor, n: u64) -> (r: Result<Vec<bool>, ReadError>)
    ensures
        final(reader)@.bytes == old(reader)@.bytes,
        match r {
            Ok(bits) => spec_defined_vector(old(reader)@.bytes, old(reader)@.pos, n as nat)
                == Ok::<(Seq<bool>, nat), ReadFailure>((bits@, final(reader)@.pos)),
            Err(e) => spec_defined_vector(old(reader)@.bytes, old(reader)@.pos, n as nat) == Err::<
                (Seq<bool>, nat),
                ReadFailure,
            >(e@) && final(reader)@ == old(reader)@,
        },
{
    let mut cursor = *reader;
    let tag = cursor.read_u8()?;
    let bits = if tag == 0 {
        read_bit_vector(&mut cursor, n)?
    } else {
        all_defined(n)
    };
    *reader = cursor;
    Ok(bits)
}

/// `n` times `true`.
fn all_defined(n: u64) -> (bits: Vec<bool>)
    ensures
        bits@ == Seq::new(n as nat, |i: int| true),
{
    let mut bits: Vec<bool> = Vec::new();
    let mut i: u64 = 0;
    while i < n
        invariant
            i <= n,
            bits@ == Seq::new(i as nat, |k: int| true),
        decreases n - i,
    {
        bits.push(true);
        proof {
            assert(bits@ =~= Seq::new((i + 1) as nat, |k: int| true));
        }
        i = i + 1;
    }
    bits
}

/// Entry `i` of `bits` as a number, with zero for an entry past the end.
pub open spec fn bit_or_zero(bits: Seq<bool>, i: int) -> nat {
    if 0 <= i < bits.len() && bits[i] {
        1
    } else {
        0
    }
}

/// Byte `j` of the packed form of `bits`: eight entries, the first of them in
/// the most significant bit.
pub open spec fn packed_byte(bits: Seq<bool>, j: int) -> u8 {
    (128 * bit_or_zero(bits, 8 * j) + 64 * bit_or_zero(bits, 8 * j + 1) + 32 * bit_or_zero(
        bits,
        8 * j + 2,
    ) + 16 * bit_or_zero(bits, 8 * j + 3) + 8 * bit_or_zero(bits, 8 * j + 4) + 4 * bit_or_zero(
        bits,
        8 * j + 5,
    ) + 2 * bit_or_zero(bits, 8 * j + 6) + bit_or_zero(bits, 8 * j + 7)) as u8
}

/// The packed form of `bits`.
pub open spec fn pack_bits(bits: Seq<bool>) -> Seq<u8> {
    Seq::new(packed_len(bits.len()), |j: int| packed_byte(bits, j))
}

/// Dividing by the weight of a bit is dividing by the value of that weight.
proof fn lemma_divide_by_weight(x: nat, index: nat, value: nat)
    requires
        pow2(index) == value,
    ensures
        x / pow2(index) == x / value,
{
}

/// Every entry of a vector can be read back from its packed form.
pub proof fn lemma_packed_bit(bits: Seq<bool>, i: int)
    requires
        0 <= i < bits.len(),
    ensures
        vector_bit(pack_bits(bits), i) == bits[i],
{
    lemma2_to64();
    let byte = packed_byte(bits, i / 8);
    assert(pack_bits(bits)[i / 8] == byte);
    // The weight of the bit that holds entry `i`, as a number.
    let weight: nat = if i % 8 == 0 {
        128
    } else if i % 8 == 1 {
        64
    } else if i % 8 == 2 {
        32
    } else if i % 8 == 3 {
        16
    } else if i % 8 == 4 {
        8
    } else if i % 8 == 5 {
        4
    } else if i % 8 == 6 {
        2
    } else {
        1
    };
    lemma_divide_by_weight(byte as nat, (7 - i % 8) as nat, weight);
}

/// Packing a vector and unpacking as many entries as it has gives the vector
/// again, for every length and every pattern.
pub proof fn lemma_pack_then_unpack(bits: Seq<bool>)
    ensures
        pack_bits(bits).len() == packed_len(bits.len()),
        unpack_bits(pack_bits(bits), bits.len()) == bits,
{
    assert forall|i: int| 0 <= i < bits.len() implies vector_bit(pack_bits(bits), i)
        == bits[i] by {
        lemma_packed_bit(bits, i);
    }
    assert(unpack_bits(pack_bits(bits), bits.len()) =~= bits);
}

/// What stands between two runs of bytes is found again between their
/// lengths.
proof fn lemma_middle_of_three(before: Seq<u8>, middle: Seq<u8>, after: Seq<u8>)
    ensures
        (before + middle + after).subrange(
            before.len() as int,
            (before.len() + middle.len()) as int,
        ) == middle,
{
    let whole = before + middle + after;
    assert(whole.subrange(before.len() as int, (before.len() + middle.len()) as int) =~= middle);
}

/// Reading a vector where its packed form stands yields the vector and stops
/// right behind the packed bytes.
pub proof fn lemma_bit_vector_round_trip(bits: Seq<bool>, before: Seq<u8>, after: Seq<u8>)
    ensures
        spec_bit_vector(before + pack_bits(bits) + after, before.len(), bits.len()) == Ok::<
            (Seq<bool>, nat),
            ReadFailure,
        >((bits, before.len() + packed_len(bits.len()))),
{
    let packed = pack_bits(bits);
    lemma_pack_then_unpack(bits);
    lemma_middle_of_three(before, packed, after);
    assert(take_bytes(before + packed + after, before.len(), packed.len()) == Ok::<
        (Seq<u8>, nat),
        ReadFailure,
    >((packed, before.len() + packed.len())));
}

/// Behind a tag of zero the packed form is read; behind any other tag all
/// entries are set and not one byte more is consumed.
pub proof fn lemma_defined_vector_paths(bits: Seq<bool>, tag: u8, before: Seq<u8>, after: Seq<u8>)
    ensures
        tag == 0 ==> spec_defined_vector(
            before + seq![tag] + pack_bits(bits) + after,
            before.len(),
            bits.len(),
        ) == Ok::<(Seq<bool>, nat), ReadFailure>(
            (bits, before.len() + 1 + packed_len(bits.len())),
        ),
        tag != 0 ==> spec_defined_vector(before + seq![tag] + after, before.len(), bits.len())
            == Ok::<(Seq<bool>, nat), ReadFailure>(
            (Seq::new(bits.len(), |i: int| true), before.len() + 1),
        ),
{
    if tag == 0 {
        lemma_bit_vector_round_trip(bits, before + seq![tag], after);
    }
}

} // verus!
