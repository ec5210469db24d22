//! The codec table and the archive's variable-length integers.

use crate::error::{ReadError, ReadFailure};
use crate::stream::{
    le_bytes, le_value, lemma_le_value_bound, lemma_le_value_of_le_bytes, take_u8, take_uint,
    ByteCursor, Parse,
};
use vstd::arithmetic::div_mod::{
    lemma_basic_div, lemma_fundamental_div_mod, lemma_multiply_divide_lt,
};
use vstd::arithmetic::power2::{
    lemma2_to64, lemma2_to64_rest, lemma_pow2_adds, lemma_pow2_pos, pow2,
};
use vstd::prelude::*;
use vstd::std_specs::convert::FromSpecImpl;

verus! {

/// A codec that a coder of a folder may name. Every identifier maps to a
/// codec: one that the table does not know becomes [`Codec::Unrecognized`].
#[derive(Debug, Clone, Copy, PartialEq, Eq)]
pub enum Codec {
    /// ARM branch filter.
    Arm,
    /// ARM Thumb branch filter.
    ArmT,
    /// ARM64 branch filter.
    Arm64,
    /// x86 branch filter.
    Bcj,
    /// ARM branch filter, long identifier.
    BcjArm,
    /// ARM Thumb branch filter, long identifier.
    BcjArmT,
    /// IA-64 branch filter, long identifier.
    BcjIA64,
    /// PowerPC branch filter, long identifier.
    BcjPpc,
    /// SPARC branch filter, long identifier.
    BcjSparc,
    /// Delta filter.
    Delta,
    /// IA-64 branch filter.
    IA64,
    /// PowerPC branch filter.
    PPC,
    /// SPARC branch filter.
    SPARC,
    /// Brotli.
    Brotli,
    /// Bzip2.
    Bzip2,
    /// Stored bytes, no transform.
    Copy,
    /// Deflate.
    Deflate,
    /// Deflate64.
    Deflate64,
    /// Lizard.
    Lizard,
    /// LZ4.
    LZ4,
    /// LZMA.
    LZMA,
    /// LZMA2.
    LZMA2,
    /// PPMd.
    PPMd,
    /// x86 branch filter, long identifier.
    P7zBcj,
    /// x86 branch filter with four streams.
    P7zBcj2,
    /// Zstandard.
    Zstd,
    /// AES-128, ECB.
    Aes128Ecb,
    /// AES-128, CBC.
    Aes128Cbc,
    /// AES-128, CFB.
    Aes128Cfb,
    /// AES-128, OFB.
    Aes128Ofb,
    /// AES-128, CTR.
    Aes128Ctr,
    /// AES-192, ECB.
    Aes192Ecb,
    /// AES-192, CBC.
    Aes192Cbc,
    /// AES-192, CFB.
    Aes192Cfb,
    /// AES-192, OFB.
    Aes192Ofb,
    /// AES-192, CTR.
    Aes192Ctr,
    /// AES-256, ECB.
    Aes256Ecb,
    /// AES-256, CBC.
    Aes256Cbc,
    /// AES-256, CFB.
    Aes256Cfb,
    /// AES-256, OFB.
    Aes256Ofb,
    /// AES-256, CTR.
    Aes256Ctr,
    /// The classic zip cipher.
    ZipCrypto,
    /// AES-128 with a modified SHA-1, as RAR 2.9 uses it.
    Rar29AES,
    /// AES-256 with SHA-256, the archive's own cipher.
    SevenZAES,
    /// An identifier that the table does not list.
    Unrecognized(u64),
}

/// The codec that the identifier `id` names.
pub open spec fn codec_of(id: u64) -> Codec {
    if id == 0x07 {
        Codec::Arm
    }     else if id == 0x08 {
        Codec::ArmT
    }     else if id == 0x0a {
        Codec::Arm64
    }     else if id == 0x04 {
        Codec::Bcj
    }     else if id == 0x0303_0501 {
        Codec::BcjArm
    }     else if id == 0x0303_0701 {
        Codec::BcjArmT
    }     else if id == 0x0303_0301 {
        Codec::BcjIA64
    }     else if id == 0x0303_0205 {
        Codec::BcjPpc
    }     else if id == 0x0303_0805 {
        Codec::BcjSparc
    }     else if id == 0x03 {
        Codec::Delta
    }     else if id == 0x06 {
        Codec::IA64
    }     else if id == 0x05 {
        Codec::PPC
    }     else if id == 0x09 {
        Codec::SPARC
    }     else if id == 0x04f7_1102 {
        Codec::Brotli
    }     else if id == 0x04_0202 {
        Codec::Bzip2
    }     else if id == 0x00 {
        Codec::Copy
    }     else if id == 0x04_0108 {
        Codec::Deflate
    }     else if id == 0x04_0109 {
        Codec::Deflate64
    }     else if id == 0x04f7_1106 {
        Codec::Lizard
    }     else if id == 0x04f7_1104 {
        Codec::LZ4
    }     else if id == 0x03_0101 {
        Codec::LZMA
    }     else if id == 0x21 {
        Codec::LZMA2
    }     else if id == 0x03_0401 {
        Codec::PPMd
    }     else if id == 0x0303_0103 {
        Codec::P7zBcj
    }     else if id == 0x0303_011b {
        Codec::P7zBcj2
    }     else if id == 0x04f7_1101 {
        Codec::Zstd
    }     else if id == 0x06f0_0100 {
        Codec::Aes128Ecb
    }     else if id == 0x06f0_0101 {
        Codec::Aes128Cbc
    }     else if id == 0x06f0_0102 {
        Codec::Aes128Cfb
    }     else if id == 0x06f0_0103 {
        Codec::Aes128Ofb
    }     else if id == 0x06f0_0104 {
        Codec::Aes128Ctr
    }     else if id == 0x06f0_0140 {
        Codec::Aes192Ecb
    }     else if id == 0x06f0_0141 {
        Codec::Aes192Cbc
    }     else if id == 0x06f0_0142 {
        Codec::Aes192Cfb
    }     else if id == 0x06f0_0143 {
        Codec::Aes192Ofb
    }     else if id == 0x06f0_0144 {
        Codec::Aes192Ctr
    }     else if id == 0x06f0_0180 {
        Codec::Aes256Ecb
    }     else if id == 0x06f0_0181 {
        Codec::Aes256Cbc
    }     else if id == 0x06f0_0182 {
        Codec::Aes256Cfb
    }     else if id == 0x06f0_0183 {
        Codec::Aes256Ofb
    }     else if id == 0x06f0_0184 {
        Codec::Aes256Ctr
    }     else if id == 0x06f1_0101 {
        Codec::ZipCrypto
    }     else if id == 0x06f1_0303 {
        Codec::Rar29AES
    }     else if id == 0x06f1_0701 {
        Codec::SevenZAES
    } else {
        Codec::Unrecognized(id)
    }
}

/// The identifier under which `codec` is stored.
pub open spec fn id_of(codec: Codec) -> u64 {
    match codec {
        Codec::Arm => 0x07,
        Codec::ArmT => 0x08,
        Codec::Arm64 => 0x0a,
        Codec::Bcj => 0x04,
        Codec::BcjArm => 0x0303_0501,
        Codec::BcjArmT => 0x0303_0701,
        Codec::BcjIA64 => 0x0303_0301,
        Codec::BcjPpc => 0x0303_0205,
        Codec::BcjSparc => 0x0303_0805,
        Codec::Delta => 0x03,
        Codec::IA64 => 0x06,
        Codec::PPC => 0x05,
        Codec::SPARC => 0x09,
        Codec::Brotli => 0x04f7_1102,
        Codec::Bzip2 => 0x04_0202,
        Codec::Copy => 0x00,
        Codec::Deflate => 0x04_0108,
        Codec::Deflate64 => 0x04_0109,
        Codec::Lizard => 0x04f7_1106,
        Codec::LZ4 => 0x04f7_1104,
        Codec::LZMA => 0x03_0101,
        Codec::LZMA2 => 0x21,
        Codec::PPMd => 0x03_0401,
        Codec::P7zBcj => 0x0303_0103,
        Codec::P7zBcj2 => 0x0303_011b,
        Codec::Zstd => 0x04f7_1101,
        Codec::Aes128Ecb => 0x06f0_0100,
        Codec::Aes128Cbc => 0x06f0_0101,
        Codec::Aes128Cfb => 0x06f0_0102,
        Codec::Aes128Ofb => 0x06f0_0103,
        Codec::Aes128Ctr => 0x06f0_0104,
        Codec::Aes192Ecb => 0x06f0_0140,
        Codec::Aes192Cbc => 0x06f0_0141,
        Codec::Aes192Cfb => 0x06f0_0142,
        Codec::Aes192Ofb => 0x06f0_0143,
        Codec::Aes192Ctr => 0x06f0_0144,
        Codec::Aes256Ecb => 0x06f0_0180,
        Codec::Aes256Cbc => 0x06f0_0181,
        Codec::Aes256Cfb => 0x06f0_0182,
        Codec::Aes256Ofb => 0x06f0_0183,
        Codec::Aes256Ctr => 0x06f0_0184,
        Codec::ZipCrypto => 0x06f1_0101,
        Codec::Rar29AES => 0x06f1_0303,
        Codec::SevenZAES => 0x06f1_0701,
        Codec::Unrecognized(id) => id,
    }
}

impl From<u64> for Codec {
    fn from(id: u64) -> (codec: Codec) {
        match id {
            0x07 => Codec::Arm,
            0x08 => Codec::ArmT,
            0x0a => Codec::Arm64,
            0x04 => Codec::Bcj,
            0x0303_0501 => Codec::BcjArm,
            0x0303_0701 => Codec::BcjArmT,
            0x0303_0301 => Codec::BcjIA64,
            0x0303_0205 => Codec::BcjPpc,
            0x0303_0805 => Codec::BcjSparc,
            0x03 => Codec::Delta,
            0x06 => Codec::IA64,
            0x05 => Codec::PPC,
            0x09 => Codec::SPARC,
            0x04f7_1102 => Codec::Brotli,
            0x04_0202 => Codec::Bzip2,
            0x00 => Codec::Copy,
            0x04_0108 => Codec::Deflate,
            0x04_0109 => Codec::Deflate64,
            0x04f7_1106 => Codec::Lizard,
            0x04f7_1104 => Codec::LZ4,
            0x03_0101 => Codec::LZMA,
            0x21 => Codec::LZMA2,
            0x03_0401 => Codec::PPMd,
            0x0303_0103 => Codec::P7zBcj,
            0x0303_011b => Codec::P7zBcj2,
            0x04f7_1101 => Codec::Zstd,
            0x06f0_0100 => Codec::Aes128Ecb,
            0x06f0_0101 => Codec::Aes128Cbc,
            0x06f0_0102 => Codec::Aes128Cfb,
            0x06f0_0103 => Codec::Aes128Ofb,
            0x06f0_0104 => Codec::Aes128Ctr,
            0x06f0_0140 => Codec::Aes192Ecb,
            0x06f0_0141 => Codec::Aes192Cbc,
            0x06f0_0142 => Codec::Aes192Cfb,
            0x06f0_0143 => Codec::Aes192Ofb,
            0x06f0_0144 => Codec::Aes192Ctr,
            0x06f0_0180 => Codec::Aes256Ecb,
            0x06f0_0181 => Codec::Aes256Cbc,
            0x06f0_0182 => Codec::Aes256Cfb,
            0x06f0_0183 => Codec::Aes256Ofb,
            0x06f0_0184 => Codec::Aes256Ctr,
            0x06f1_0101 => Codec::ZipCrypto,
            0x06f1_0303 => Codec::Rar29AES,
            0x06f1_0701 => Codec::SevenZAES,
            _ => Codec::Unrecognized(id),
        }
    }
}

impl FromSpecImpl<u64> for Codec {
    open spec fn obeys_from_spec() -> bool {
        true
    }

    open spec fn from_spec(id: u64) -> Codec {
        codec_of(id)
    }
}

impl From<Codec> for u64 {
    fn from(codec: Codec) -> (id: u64) {
        match codec {
            Codec::Arm => 0x07,
            Codec::ArmT => 0x08,
            Codec::Arm64 => 0x0a,
            Codec::Bcj => 0x04,
            Codec::BcjArm => 0x0303_0501,
            Codec::BcjArmT => 0x0303_0701,
            Codec::BcjIA64 => 0x0303_0301,
            Codec::BcjPpc => 0x0303_0205,
            Codec::BcjSparc => 0x0303_0805,
            Codec::Delta => 0x03,
            Codec::IA64 => 0x06,
            Codec::PPC => 0x05,
            Codec::SPARC => 0x09,
            Codec::Brotli => 0x04f7_1102,
            Codec::Bzip2 => 0x04_0202,
            Codec::Copy => 0x00,
            Codec::Deflate => 0x04_0108,
            Codec::Deflate64 => 0x04_0109,
            Codec::Lizard => 0x04f7_1106,
            Codec::LZ4 => 0x04f7_1104,
            Codec::LZMA => 0x03_0101,
            Codec::LZMA2 => 0x21,
            Codec::PPMd => 0x03_0401,
            Codec::P7zBcj => 0x0303_0103,
            Codec::P7zBcj2 => 0x0303_011b,
            Codec::Zstd => 0x04f7_1101,
            Codec::Aes128Ecb => 0x06f0_0100,
            Codec::Aes128Cbc => 0x06f0_0101,
            Codec::Aes128Cfb => 0x06f0_0102,
            Codec::Aes128Ofb => 0x06f0_0103,
            Codec::Aes128Ctr => 0x06f0_0104,
            Codec::Aes192Ecb => 0x06f0_0140,
            Codec::Aes192Cbc => 0x06f0_0141,
            Codec::Aes192Cfb => 0x06f0_0142,
            Codec::Aes192Ofb => 0x06f0_0143,
            Codec::Aes192Ctr => 0x06f0_0144,
            Codec::Aes256Ecb => 0x06f0_0180,
            Codec::Aes256Cbc => 0x06f0_0181,
            Codec::Aes256Cfb => 0x06f0_0182,
            Codec::Aes256Ofb => 0x06f0_0183,
            Codec::Aes256Ctr => 0x06f0_0184,
            Codec::ZipCrypto => 0x06f1_0101,
            Codec::Rar29AES => 0x06f1_0303,
            Codec::SevenZAES => 0x06f1_0701,
            Codec::Unrecognized(id) => id,
        }
    }
}

impl FromSpecImpl<Codec> for u64 {
    open spec fn obeys_from_spec() -> bool {
        true
    }

    open spec fn from_spec(codec: Codec) -> u64 {
        id_of(codec)
    }
}

/// Mapping an identifier to its codec and back gives the identifier again:
/// the table loses nothing.
pub proof fn lemma_codec_keeps_id(id: u64)
    ensures
        id_of(codec_of(id)) == id,
{
}

/// Mapping a codec to its identifier and back gives the codec again, unless
/// the codec is an `Unrecognized` that wraps an identifier of the table.
pub proof fn lemma_id_keeps_codec(codec: Codec)
    requires
        codec matches Codec::Unrecognized(id) ==> codec_of(id) is Unrecognized,
    ensures
        codec_of(id_of(codec)) == codec,
{
}

/// The smallest first byte whose unary prefix has `k` ones.
pub open spec fn varint_prefix(k: nat) -> nat {
    if k == 0 {
        0x00
    } else if k == 1 {
        0x80
    } else if k == 2 {
        0xC0
    } else if k == 3 {
        0xE0
    } else if k == 4 {
        0xF0
    } else if k == 5 {
        0xF8
    } else if k == 6 {
        0xFC
    } else if k == 7 {
        0xFE
    } else {
        0xFF
    }
}

/// How many bytes follow the first byte of a variable-length integer: the
/// number of ones that lead `first`.
pub open spec fn varint_extra_len(first: u8) -> nat {
    if first < 0x80 {
        0
    } else if first < 0xC0 {
        1
    } else if first < 0xE0 {
        2
    } else if first < 0xF0 {
        3
    } else if first < 0xF8 {
        4
    } else if first < 0xFC {
        5
    } else if first < 0xFE {
        6
    } else if first < 0xFF {
        7
    } else {
        8
    }
}

/// What is left of `first` below its unary prefix. These are the most
/// significant bits of the integer.
pub open spec fn varint_high_bits(first: u8) -> nat {
    (first - varint_prefix(varint_extra_len(first))) as nat
}

/// The integer that a first byte and the little-endian number `extra` of the
/// bytes after it stand for.
pub open spec fn varint_value(first: u8, extra: nat) -> nat {
    varint_high_bits(first) * pow2(8 * varint_extra_len(first)) + extra
}

/// A variable-length integer at `pos`.
pub open spec fn spec_varint(bytes: Seq<u8>, pos: nat) -> Parse<u64> {
    match take_u8(bytes, pos) {
        Ok((first, after_first)) => match take_uint(
            bytes,
            after_first,
            varint_extra_len(first),
        ) {
            Ok((extra, next)) => Ok((varint_value(first, extra) as u64, next)),
            Err(e) => Err(e),
        },
        Err(e) => Err(e),
    }
}

/// The weight of the bits that a first byte holds above `k` extra bytes:
/// `256^k`, written out.
pub open spec fn varint_weight(k: nat) -> nat {
    if k == 0 {
        0x1
    } else if k == 1 {
        0x100
    } else if k == 2 {
        0x1_0000
    } else if k == 3 {
        0x100_0000
    } else if k == 4 {
        0x1_0000_0000
    } else if k == 5 {
        0x100_0000_0000
    } else if k == 6 {
        0x1_0000_0000_0000
    } else if k == 7 {
        0x100_0000_0000_0000
    } else {
        0x1_0000_0000_0000_0000
    }
}

/// The weights of whole bytes are powers of two.
proof fn lemma_byte_weights()
    ensures
        forall|k: nat| k <= 8 ==> #[trigger] pow2(8 * k) == varint_weight(k),
{
    lemma2_to64();
    lemma2_to64_rest();
}

/// Scaling by a weight is scaling by the value of that weight.
proof fn lemma_scale_by_weight(high: nat, weight: nat, value: nat)
    requires
        weight == value,
    ensures
        high * weight == high * value,
{
}

/// The value of a variable-length integer, written out for each length of
/// its unary prefix.
pub proof fn lemma_varint_value_by_length(first: u8, extra: nat)
    ensures
        first < 0x80 ==> varint_value(first, extra) == first + extra,
        0x80 <= first < 0xC0 ==> varint_value(first, extra) == (first - 0x80) * 0x100 + extra,
        0xC0 <= first < 0xE0 ==> varint_value(first, extra) == (first - 0xC0) * 0x1_0000 + extra,
        0xE0 <= first < 0xF0 ==> varint_value(first, extra) == (first - 0xE0) * 0x100_0000 + extra,
        0xF0 <= first < 0xF8 ==> varint_value(first, extra) == (first - 0xF0) * 0x1_0000_0000
            + extra,
        0xF8 <= first < 0xFC ==> varint_value(first, extra) == (first - 0xF8) * 0x100_0000_0000
            + extra,
        0xFC <= first < 0xFE ==> varint_value(first, extra) == (first - 0xFC)
            * 0x1_0000_0000_0000 + extra,
        0xFE <= first ==> varint_value(first, extra) == extra,
{
    let k = varint_extra_len(first);
    lemma_byte_weights();
    lemma_scale_by_weight(varint_high_bits(first), pow2(8 * k), varint_weight(k));
}

/// The tests on the leading bits of a first byte, as ranges of its value.
proof fn lemma_leading_ones(first: u8)
    by (bit_vector)
    ensures
        first & 0b1000_0000 == 0 <==> first < 0x80,
        first & 0b1100_0000 == 0b1000_0000 <==> 0x80 <= first < 0xC0,
        first & 0b1110_0000 == 0b1100_0000 <==> 0xC0 <= first < 0xE0,
        first & 0b1111_0000 == 0b1110_0000 <==> 0xE0 <= first < 0xF0,
        first & 0b1111_1000 == 0b1111_0000 <==> 0xF0 <= first < 0xF8,
        first & 0b1111_1100 == 0b1111_1000 <==> 0xF8 <= first < 0xFC,
        first & 0b1111_1110 == 0b1111_1100 <==> 0xFC <= first < 0xFE,
{
}

/// Masking a first byte with the ones below its prefix and shifting the
/// result left by its extra bytes, for each length of the prefix.
proof fn lemma_masked_and_shifted(first: u8)
    by (bit_vector)
    ensures
        0x80 <= first < 0xC0 ==> ((first & (0xFFu8 >> 2u8)) as u64) << 8u64 == (first - 0x80)
            * 0x100,
        0xC0 <= first < 0xE0 ==> ((first & (0xFFu8 >> 3u8)) as u64) << 16u64 == (first - 0xC0)
            * 0x1_0000,
        0xE0 <= first < 0xF0 ==> ((first & (0xFFu8 >> 4u8)) as u64) << 24u64 == (first - 0xE0)
            * 0x100_0000,
        0xF0 <= first < 0xF8 ==> ((first & (0xFFu8 >> 5u8)) as u64) << 32u64 == (first - 0xF0)
            * 0x1_0000_0000,
        0xF8 <= first < 0xFC ==> ((first & (0xFFu8 >> 6u8)) as u64) << 40u64 == (first - 0xF8)
            * 0x100_0000_0000,
        0xFC <= first < 0xFE ==> ((first & (0xFFu8 >> 7u8)) as u64) << 48u64 == (first - 0xFC)
            * 0x1_0000_0000_0000,
{
}

/// In executable terms: masking the first byte with the ones below its prefix
/// and shifting the result left by the extra bytes gives the value that the
/// first byte has on its own. That value leaves room for the extra bytes.
proof fn lemma_mask_and_shift(first: u8, k: u8)
    requires
        1 <= k <= 6,
        k == varint_extra_len(first),
    ensures
        (((first & (0xFFu8 >> ((k + 1) as u8))) as u64) << ((8 * k) as u64)) == varint_value(
            first,
            0,
        ),
        varint_value(first, 0) + pow2((8 * k) as nat) <= 0x2_0000_0000_0000,
{
    lemma_byte_weights();
    lemma_varint_value_by_length(first, 0);
    lemma_masked_and_shifted(first);
    assert(pow2((8 * k) as nat) == varint_weight(k as nat));
}

/// Reads one variable-length integer: a first byte whose leading ones count
/// the bytes that follow, its remaining bits as the most significant part, and
/// the following bytes as a little-endian number. Where the bytes end too
/// early, the cursor stays where it was.
pub fn read_7z_varint(reader: &mut ByteCursor) -> (r: Result<u64, ReadError>)
    ensures
        final(reader)@.bytes == old(reader)@.bytes,
        match r {
            Ok(v) => spec_varint(old(reader)@.bytes, old(reader)@.pos) == Ok::<
                (u64, nat),
                ReadFailure,
            >((v, final(reader)@.pos)),
            Err(e) => spec_varint(old(reader)@.bytes, old(reader)@.pos) == Err::<
                (u64, nat),
                ReadFailure,
            >(e@) && final(reader)@ == old(reader)@,
        },
{
    let mut cursor = *reader;
    let first = cursor.read_u8()?;
    let extra_len: u8 = if first & 0b1000_0000 == 0 {
        0
    } else if first & 0b1100_0000 == 0b1000_0000 {
        1
    } else if first & 0b1110_0000 == 0b1100_0000 {
        2
    } else if first & 0b1111_0000 == 0b1110_0000 {
        3
    } else if first & 0b1111_1000 == 0b1111_0000 {
        4
    } else if first & 0b1111_1100 == 0b1111_1000 {
        5
    } else if first & 0b1111_1110 == 0b1111_1100 {
        6
    } else if first == 0b1111_1110 {
        7
    } else {
        8
    };
    proof {
        lemma_leading_ones(first);
        assert(extra_len == varint_extra_len(first));
        lemma_byte_weights();
        use_type_invariant(&cursor);
        let start = cursor@.pos;
        let bytes = cursor@.bytes;
        assert(bytes.subrange(start as int, start as int).len() == 0);
        lemma_le_value_bound(bytes.subrange(start as int, start + extra_len as int));
        lemma_varint_value_by_length(
            first,
            le_value(bytes.subrange(start as int, start + extra_len as int)),
        );
    }
    let value = if extra_len == 0 {
        first as u64
    } else if extra_len == 7 {
        cursor.read_uint_le(7)?
    } else if extra_len == 8 {
        cursor.read_u64_le()?
    } else {
        let extra = cursor.read_uint_le(extra_len as usize)?;
        let mask: u8 = 0xFFu8 >> (extra_len + 1);
        let high = (first & mask) as u64;
        proof {
            lemma_mask_and_shift(first, extra_len);
        }
        (high << (8 * extra_len)) + extra
    };
    *reader = cursor;
    Ok(value)
}

/// Whether `v` can be written with `k` bytes after the first one.
pub open spec fn varint_fits(v: u64, k: nat) -> bool {
    k <= 8 && (k < 8 ==> v < pow2(7 * k + 7))
}

/// The variable-length integer `v`, written with `k` bytes after the first
/// one: the unary prefix with the bits of `v` above those bytes, then the low
/// `k` bytes of `v`, least significant first.
pub open spec fn varint_encoding(v: u64, k: nat) -> Seq<u8> {
    seq![(varint_prefix(k) + v as nat / pow2(8 * k)) as u8] + le_bytes(v as nat, k)
}

/// The least number of bytes after the first one with which `v` can be
/// written.
pub open spec fn varint_len(v: u64) -> nat {
    if v < 0x80 {
        0
    } else if v < 0x4000 {
        1
    } else if v < 0x20_0000 {
        2
    } else if v < 0x1000_0000 {
        3
    } else if v < 0x8_0000_0000 {
        4
    } else if v < 0x400_0000_0000 {
        5
    } else if v < 0x2_0000_0000_0000 {
        6
    } else if v < 0x100_0000_0000_0000 {
        7
    } else {
        8
    }
}

/// The shortest way to write `v` as a variable-length integer.
pub open spec fn encode_varint(v: u64) -> Seq<u8> {
    varint_encoding(v, varint_len(v))
}

/// Decoding gives back what was encoded: wherever the encoding of `v` with
/// `k` extra bytes stands in a run of bytes, reading a variable-length integer
/// there yields `v` and stops right behind the encoding.
pub proof fn lemma_varint_round_trip(v: u64, k: nat, before: Seq<u8>, after: Seq<u8>)
    requires
        varint_fits(v, k),
    ensures
        spec_varint(before + varint_encoding(v, k) + after, before.len()) == Ok::<
            (u64, nat),
            ReadFailure,
        >((v, before.len() + k + 1)),
{
    lemma2_to64();
    lemma_le_value_of_le_bytes(v as nat, k);
    let encoding = varint_encoding(v, k);
    let bytes = before + encoding + after;
    let pos = before.len();
    let weight = pow2(8 * k);
    let quotient = v as nat / weight;
    let extra = v as nat % weight;
    // The part of `v` above the extra bytes fits below the unary prefix.
    lemma_pow2_pos(8 * k);
    if k < 8 {
        lemma_pow2_adds(8 * k, (7 - k) as nat);
        lemma_multiply_divide_lt(v as int, weight as int, pow2((7 - k) as nat) as int);
    } else {
        lemma_basic_div(v as int, weight as int);
    }
    let first = (varint_prefix(k) + quotient) as u8;
    assert(varint_extra_len(first) == k);
    assert(varint_high_bits(first) == quotient);
    // The two parts make up `v` again.
    lemma_fundamental_div_mod(v as int, weight as int);
    assert(quotient * weight == weight * quotient) by (nonlinear_arith);
    assert(varint_value(first, extra) == v);
    assert(bytes[pos as int] == encoding[0]);
    assert(bytes.subrange(pos + 1 as int, pos + 1 + k as int) =~= le_bytes(v as nat, k));
}

/// Decoding the shortest encoding of `v` gives `v`, whatever bytes follow.
pub proof fn lemma_encode_then_decode(v: u64, after: Seq<u8>)
    ensures
        spec_varint(encode_varint(v) + after, 0) == Ok::<(u64, nat), ReadFailure>(
            (v, varint_len(v) + 1),
        ),
{
    lemma2_to64();
    lemma2_to64_rest();
    assert(varint_fits(v, varint_len(v)));
    lemma_varint_round_trip(v, varint_len(v), Seq::empty(), after);
    assert(Seq::<u8>::empty() + encode_varint(v) + after =~= encode_varint(v) + after);
}

} // verus!
