//! Where the packed streams lie: their position, sizes and checksums.

use crate::bits::{read_defined_vector, spec_defined_vector};
use crate::error::{ReadError, ReadFailure};
use crate::stream::{
    advances, expect_tag, lemma_repeat_advances, lemma_repeat_failure_stays, lemma_repeat_len,
    repeat, take_u32, take_u8, verify_ident, ByteCursor, Parse, END,
};
use crate::types::{read_7z_varint, spec_varint};
use vstd::prelude::*;

verus! {

/// The position, sizes and checksums of the packed streams.
#[derive(Debug, PartialEq, Eq)]
pub struct PackInfo {
    /// Where the first packed stream starts, counted from the end of the
    /// signature header.
    pub pack_position: u64,
    /// How many packed streams there are.
    pub count_streams: u64,
    /// The size of each packed stream, if the block recorded them.
    pub stream_sizes: Option<Vec<u64>>,
    /// The checksum of each packed stream that has one, if the block recorded
    /// them.
    pub stream_crcs: Option<Vec<Option<u32>>>,
}

/// The mathematical value of a [`PackInfo`].
pub struct PackInfoView {
    pub pack_position: u64,
    pub count_streams: u64,
    pub stream_sizes: Option<Seq<u64>>,
    pub stream_crcs: Option<Seq<Option<u32>>>,
}

impl View for PackInfo {
    type V = PackInfoView;

    open spec fn view(&self) -> PackInfoView {
        PackInfoView {
            pack_position: self.pack_position,
            count_streams: self.count_streams,
            stream_sizes: match self.stream_sizes {
                Some(sizes) => Some(sizes@),
                None => None,
            },
            stream_crcs: match self.stream_crcs {
                Some(crcs) => Some(crcs@),
                None => None,
            },
        }
    }
}

impl PackInfoView {
    /// What holds of every pack-info block that was read: sizes and checksums
    /// are there exactly where there are streams, one of each for each
    /// stream.
    pub open spec fn wf(self) -> bool {
        &&& self.stream_sizes is Some <==> self.count_streams > 0
        &&& self.stream_crcs is Some <==> self.count_streams > 0
        &&& self.stream_sizes matches Some(sizes) ==> sizes.len() == self.count_streams
        &&& self.stream_crcs matches Some(crcs) ==> crcs.len() == self.count_streams
    }
}

/// One stream size: a variable-length integer.
pub open spec fn size_item(bytes: Seq<u8>) -> spec_fn(int, nat) -> Parse<u64> {
    |i: int, pos: nat| spec_varint(bytes, pos)
}

/// The checksum of stream `i`: four little-endian bytes where the stream is
/// marked as having one, nothing where it is not.
pub open spec fn crc_item(bytes: Seq<u8>, defined: Seq<bool>) -> spec_fn(int, nat) -> Parse<
    Option<u32>,
> {
    |i: int, pos: nat|
        if defined[i] {
            match take_u32(bytes, pos) {
                Ok((crc, next)) => Ok((Some(crc), next)),
                Err(e) => Err(e),
            }
        } else {
            Ok((None, pos))
        }
}

/// What follows the tag and the two counts of a pack-info block that has
/// streams: the sizes, the checksum tag, the vector that marks which streams
/// have a checksum, the checksums, and the end tag.
pub open spec fn spec_pack_streams(
    bytes: Seq<u8>,
    pos: nat,
    pack_position: u64,
    count_streams: u64,
) -> Parse<PackInfoView> {
    match repeat(size_item(bytes), pos, count_streams as nat) {
        Ok((sizes, after_sizes)) => match expect_tag(bytes, after_sizes, PackInfo::CRC) {
            Ok((_, after_tag)) => match spec_defined_vector(
                bytes,
                after_tag,
                count_streams as nat,
            ) {
                Ok((defined, after_defined)) => match repeat(
                    crc_item(bytes, defined),
                    after_defined,
                    count_streams as nat,
                ) {
                    Ok((crcs, after_crcs)) => match expect_tag(bytes, after_crcs, END) {
                        Ok((_, next)) => Ok(
                            (
                                PackInfoView {
                                    pack_position,
                                    count_streams,
                                    stream_sizes: Some(sizes),
                                    stream_crcs: Some(crcs),
                                },
                                next,
                            ),
                        ),
                        Err(e) => Err(e),
                    },
                    Err(e) => Err(e),
                },
                Err(e) => Err(e),
            },
            Err(e) => Err(e),
        },
        Err(e) => Err(e),
    }
}

/// What follows the tag and the two counts of a pack-info block without
/// streams: the end tag, or the size tag and then the end tag.
pub open spec fn spec_pack_empty(bytes: Seq<u8>, pos: nat, pack_position: u64) -> Parse<
    PackInfoView,
> {
    let empty = PackInfoView {
        pack_position,
        count_streams: 0,
        stream_sizes: None,
        stream_crcs: None,
    };
    match take_u8(bytes, pos) {
        Ok((tag, after_tag)) => if tag == END {
            Ok((empty, after_tag))
        } else if tag == PackInfo::SIZE {
            match expect_tag(bytes, after_tag, END) {
                Ok((_, next)) => Ok((empty, next)),
                Err(e) => Err(e),
            }
        } else {
            Err(ReadFailure::Invalid7z)
        },
        Err(e) => Err(e),
    }
}

/// A pack-info block at `pos`.
pub open spec fn spec_pack_info(bytes: Seq<u8>, pos: nat) -> Parse<PackInfoView> {
    match expect_tag(bytes, pos, PackInfo::IDENT) {
        Ok((_, after_ident)) => match spec_varint(bytes, after_ident) {
            Ok((pack_position, after_position)) => match spec_varint(bytes, after_position) {
                Ok((count_streams, after_count)) => if count_streams == 0 {
                    spec_pack_empty(bytes, after_count, pack_position)
                } else {
                    match expect_tag(bytes, after_count, PackInfo::SIZE) {
                        Ok((_, after_tag)) => spec_pack_streams(
                            bytes,
                            after_tag,
                            pack_position,
                            count_streams,
                        ),
                        Err(e) => Err(e),
                    }
                },
                Err(e) => Err(e),
            },
            Err(e) => Err(e),
        },
        Err(e) => Err(e),
    }
}

/// Reads `n` stream sizes.
fn read_sizes(reader: &mut ByteCursor, n: u64) -> (r: Result<Vec<u64>, ReadError>)
    ensures
        final(reader)@.bytes == old(reader)@.bytes,
        match r {
            Ok(sizes) => repeat(size_item(old(reader)@.bytes), old(reader)@.pos, n as nat) == Ok::<
                (Seq<u64>, nat),
                ReadFailure,
            >((sizes@, final(reader)@.pos)),
            Err(e) => repeat(size_item(old(reader)@.bytes), old(reader)@.pos, n as nat) == Err::<
                (Seq<u64>, nat),
                ReadFailure,
            >(e@),
        },
{
    let ghost bytes = reader@.bytes;
    let ghost start = reader@.pos;
    let mut sizes: Vec<u64> = Vec::new();
    let mut i: u64 = 0;
    while i < n
        invariant
            i <= n,
            bytes == old(reader)@.bytes,
            start == old(reader)@.pos,
            reader@.bytes == bytes,
            repeat(size_item(bytes), start, i as nat) == Ok::<(Seq<u64>, nat), ReadFailure>(
                (sizes@, reader@.pos),
            ),
        decreases n - i,
    {
        match read_7z_varint(reader) {
            Ok(size) => {
                sizes.push(size);
            },
            Err(e) => {
                proof {
                    lemma_repeat_failure_stays(size_item(bytes), start, (i + 1) as nat, n as nat);
                }
                return Err(e);
            },
        }
        i = i + 1;
    }
    Ok(sizes)
}

/// Reads the checksums of the streams that `defined` marks.
fn read_crcs(reader: &mut ByteCursor, defined: &Vec<bool>) -> (r: Result<
    Vec<Option<u32>>,
    ReadError,
>)
    ensures
        final(reader)@.bytes == old(reader)@.bytes,
        match r {
            Ok(crcs) => repeat(
                crc_item(old(reader)@.bytes, defined@),
                old(reader)@.pos,
                defined@.len(),
            ) == Ok::<(Seq<Option<u32>>, nat), ReadFailure>((crcs@, final(reader)@.pos)),
            Err(e) => repeat(
                crc_item(old(reader)@.bytes, defined@),
                old(reader)@.pos,
                defined@.len(),
            ) == Err::<(Seq<Option<u32>>, nat), ReadFailure>(e@),
        },
{
    let ghost bytes = reader@.bytes;
    let ghost start = reader@.pos;
    let mut crcs: Vec<Option<u32>> = Vec::new();
    let mut i: usize = 0;
    while i < defined.len()
        invariant
            i <= defined@.len(),
            bytes == old(reader)@.bytes,
            start == old(reader)@.pos,
            reader@.bytes == bytes,
            repeat(crc_item(bytes, defined@), start, i as nat) == Ok::<
                (Seq<Option<u32>>, nat),
                ReadFailure,
            >((crcs@, reader@.pos)),
        decreases defined@.len() - i,
    {
        if defined[i] {
            match reader.read_u32_le() {
                Ok(crc) => {
                    crcs.push(Some(crc));
                },
                Err(e) => {
                    proof {
                        lemma_repeat_failure_stays(
                            crc_item(bytes, defined@),
                            start,
                            (i + 1) as nat,
                            defined@.len(),
                        );
                    }
                    return Err(e);
                },
            }
        } else {
            crcs.push(None);
        }
        i = i + 1;
    }
    Ok(crcs)
}

impl PackInfo {
    /// The tag that opens a pack-info block.
    pub const IDENT: u8 = 0x06;

    /// The tag that opens the list of stream sizes.
    pub const SIZE: u8 = 0x09;

    /// The tag that opens the list of stream checksums.
    pub const CRC: u8 = 0x0A;

    /// Reads a pack-info block: its tag, the position of the first packed
    /// stream, the number of streams, and, where there are streams, their
    /// sizes and checksums up to the end tag. On failure the cursor stays
    /// where it was.
    pub fn try_read(reader: &mut ByteCursor) -> (r: Result<Self, ReadError>)
        ensures
            final(reader)@.bytes == old(reader)@.bytes,
            match r {
                Ok(info) => spec_pack_info(old(reader)@.bytes, old(reader)@.pos) == Ok::<
                    (PackInfoView, nat),
                    ReadFailure,
                >((info@, final(reader)@.pos)) && info@.wf(),
                Err(e) => spec_pack_info(old(reader)@.bytes, old(reader)@.pos) == Err::<
                    (PackInfoView, nat),
                    ReadFailure,
                >(e@) && final(reader)@ == old(reader)@,
            },
    {
        proof {
            lemma_pack_info_invariant(reader@.bytes, reader@.pos);
        }
        let mut cursor = *reader;
        verify_ident(&mut cursor, Self::IDENT)?;
        let pack_position = read_7z_varint(&mut cursor)?;
        let count_streams = read_7z_varint(&mut cursor)?;
        let tag = cursor.read_u8()?;
        if count_streams == 0 {
            if tag == Self::SIZE {
                verify_ident(&mut cursor, END)?;
            } else if tag != END {
                return Err(ReadError::Invalid7z);
            }
            *reader = cursor;
            return Ok(
                Self { pack_position, count_streams, stream_sizes: None, stream_crcs: None },
            );
        } else if tag != Self::SIZE {
            return Err(ReadError::Invalid7z);
        }
        let stream_sizes = read_sizes(&mut cursor, count_streams)?;
        verify_ident(&mut cursor, Self::CRC)?;
        let defined = read_defined_vector(&mut cursor, count_streams)?;
        let stream_crcs = read_crcs(&mut cursor, &defined)?;
        verify_ident(&mut cursor, END)?;
        *reader = cursor;
        Ok(
            Self {
                pack_position,
                count_streams,
                stream_sizes: Some(stream_sizes),
                stream_crcs: Some(stream_crcs),
            },
        )
    }
}

/// A pack-info block takes at least its tag, and lies within the bytes.
pub proof fn lemma_pack_info_advances(bytes: Seq<u8>, pos: nat)
    ensures
        spec_pack_info(bytes, pos) matches Ok((_, next)) ==> pos < next <= bytes.len(),
{
    let len = bytes.len();
    assert forall|at: nat, n: nat| at <= len implies advances(
        #[trigger] repeat(size_item(bytes), at, n),
        len,
        at,
    ) by {
        lemma_repeat_advances(size_item(bytes), len, at, n);
    }
    assert forall|defined: Seq<bool>, at: nat, n: nat| at <= len implies advances(
        #[trigger] repeat(crc_item(bytes, defined), at, n),
        len,
        at,
    ) by {
        lemma_repeat_advances(crc_item(bytes, defined), len, at, n);
    }
}

/// Every pack-info block that can be read holds one size and one checksum
/// entry for each of its streams, and neither where it has no streams.
pub proof fn lemma_pack_info_invariant(bytes: Seq<u8>, pos: nat)
    ensures
        spec_pack_info(bytes, pos) matches Ok((info, _)) ==> info.wf(),
{
    assert forall|at: nat, n: nat|
        (#[trigger] repeat(size_item(bytes), at, n)) matches Ok((sizes, _)) ==> sizes.len()
            == n by {
        lemma_repeat_len(size_item(bytes), at, n);
    }
    assert forall|defined: Seq<bool>, at: nat, n: nat|
        (#[trigger] repeat(crc_item(bytes, defined), at, n)) matches Ok((crcs, _)) ==> crcs.len()
            == n by {
        lemma_repeat_len(crc_item(bytes, defined), at, n);
    }
}

} // verus!
