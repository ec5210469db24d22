//! Folders: the coder pipelines that turn packed streams into one unpacked
//! stream each.

use crate::bits::{bit_at, bit_of, bit_range_at, bit_range_of};
use crate::error::{ReadError, ReadFailure};
use crate::stream::{
    advances, lemma_repeat_advances, lemma_repeat_all, lemma_repeat_failure_stays,
    lemma_repeat_len, repeat, take_bytes, take_u64, take_u8, take_uint, ByteCursor, Parse,
};
use crate::types::{codec_of, Codec};
use vstd::arithmetic::power2::{lemma2_to64, pow2};
use vstd::prelude::*;
use vstd::slice::slice_to_vec;

verus! {

/// The first byte of a coder, which says how the rest of it is laid out.
#[derive(Debug, Clone, Copy, PartialEq, Eq)]
pub struct CoderIdInfo(pub u8);

impl CoderIdInfo {
    /// How many bytes the codec identifier takes: bits 0 to 3.
    pub fn id_size(&self) -> (r: u8)
        ensures
            r == bit_range_at(self.0, 3, 0),
            r == self.0 % 16,
    {
        proof {
            lemma2_to64();
            let v = self.0 as nat;
            assert((v / pow2(0)) % pow2(4) == v % 16) by (nonlinear_arith)
                requires
                    pow2(0) == 1,
                    pow2(4) == 16,
            ;
        }
        bit_range_of(self.0, 3, 0)
    }

    /// Whether the coder states how many streams go in and out: bit 4.
    pub fn complex(&self) -> (r: bool)
        ensures
            r == bit_at(self.0, 4),
    {
        bit_of(self.0, 4)
    }

    /// Whether the coder carries properties: bit 5.
    pub fn exist_attrs(&self) -> (r: bool)
        ensures
            r == bit_at(self.0, 5),
    {
        bit_of(self.0, 5)
    }

    /// Bit 6, which has no meaning yet.
    pub fn reserved(&self) -> (r: bool)
        ensures
            r == bit_at(self.0, 6),
    {
        bit_of(self.0, 6)
    }

    /// Bit 7, which must be zero.
    pub fn more_alt(&self) -> (r: bool)
        ensures
            r == bit_at(self.0, 7),
    {
        bit_of(self.0, 7)
    }
}

/// One stage of a folder's pipeline.
#[derive(Debug, PartialEq, Eq)]
pub struct CoderInfo {
    /// The byte that describes the layout of the coder.
    pub id_info: CoderIdInfo,
    /// Which codec the stage runs.
    pub codec_id: Codec,
    /// How many streams the stage takes in: at least one.
    pub num_in_streams: u64,
    /// How many streams the stage gives out: at least one.
    pub num_out_streams: u64,
    /// The codec's own configuration, which this crate does not interpret.
    pub properties: Vec<u8>,
}

/// The mathematical value of a [`CoderInfo`].
pub struct CoderInfoView {
    pub id_info: CoderIdInfo,
    pub codec_id: Codec,
    pub num_in_streams: u64,
    pub num_out_streams: u64,
    pub properties: Seq<u8>,
}

impl View for CoderInfo {
    type V = CoderInfoView;

    open spec fn view(&self) -> CoderInfoView {
        CoderInfoView {
            id_info: self.id_info,
            codec_id: self.codec_id,
            num_in_streams: self.num_in_streams,
            num_out_streams: self.num_out_streams,
            properties: self.properties@,
        }
    }
}

/// The values of a list of coders.
pub open spec fn coder_views(coders: Seq<CoderInfo>) -> Seq<CoderInfoView> {
    Seq::new(coders.len(), |i: int| coders[i]@)
}

/// An edge of a folder's pipeline: output stream `out_index` feeds input
/// stream `in_index`. Both count the streams of all coders of the folder in
/// the order of the coders.
#[derive(Debug, Clone, Copy, PartialEq, Eq)]
pub struct BindPair {
    pub in_index: u64,
    pub out_index: u64,
}

/// One decode pipeline.
#[derive(Debug, PartialEq, Eq)]
pub struct FolderInfo {
    /// The stages, in the order in which the archive lists them.
    pub coders: Vec<CoderInfo>,
    /// The edges between the stages.
    pub bind_pairs: Vec<BindPair>,
    /// The input streams that no edge feeds, in ascending order. Packed
    /// streams feed them, in this order.
    pub packed_stream_indices: Vec<u64>,
}

/// The mathematical value of a [`FolderInfo`].
pub struct FolderInfoView {
    pub coders: Seq<CoderInfoView>,
    pub bind_pairs: Seq<BindPair>,
    pub packed_stream_indices: Seq<u64>,
}

impl View for FolderInfo {
    type V = FolderInfoView;

    open spec fn view(&self) -> FolderInfoView {
        FolderInfoView {
            coders: coder_views(self.coders@),
            bind_pairs: self.bind_pairs@,
            packed_stream_indices: self.packed_stream_indices@,
        }
    }
}

/// The values of a list of folders.
pub open spec fn folder_views(folders: Seq<FolderInfo>) -> Seq<FolderInfoView> {
    Seq::new(folders.len(), |i: int| folders[i]@)
}

/// How many input streams the coders have together.
pub open spec fn total_in_streams(coders: Seq<CoderInfoView>) -> nat
    decreases coders.len(),
{
    if coders.len() == 0 {
        0
    } else {
        total_in_streams(coders.drop_last()) + coders.last().num_in_streams as nat
    }
}

/// How many output streams the coders have together.
pub open spec fn total_out_streams(coders: Seq<CoderInfoView>) -> nat
    decreases coders.len(),
{
    if coders.len() == 0 {
        0
    } else {
        total_out_streams(coders.drop_last()) + coders.last().num_out_streams as nat
    }
}

/// Whether an edge feeds input stream `slot`.
pub open spec fn is_bound(pairs: Seq<BindPair>, slot: u64) -> bool {
    exists|k: int| 0 <= k < pairs.len() && (#[trigger] pairs[k]).in_index == slot
}

/// The input streams below `n` that no edge feeds, in ascending order.
pub open spec fn unbound_slots(pairs: Seq<BindPair>, n: nat) -> Seq<u64>
    decreases n,
{
    if n == 0 {
        Seq::empty()
    } else if is_bound(pairs, (n - 1) as u64) {
        unbound_slots(pairs, (n - 1) as nat)
    } else {
        unbound_slots(pairs, (n - 1) as nat).push((n - 1) as u64)
    }
}

/// Whether a coder has at least one stream on either side.
pub open spec fn has_streams(coder: CoderInfoView) -> bool {
    coder.num_in_streams >= 1 && coder.num_out_streams >= 1
}

impl FolderInfoView {
    /// What holds of every folder that was read: each coder has at least one
    /// stream on either side, every output stream but one is the source of an
    /// edge, and every input stream that no edge feeds is fed by a packed
    /// stream.
    pub open spec fn wf(self) -> bool {
        &&& forall|i: int| 0 <= i < self.coders.len() ==> has_streams(#[trigger] self.coders[i])
        &&& total_out_streams(self.coders) - 1 == self.bind_pairs.len()
        &&& total_in_streams(self.coders) - self.bind_pairs.len()
            == self.packed_stream_indices.len()
        &&& self.packed_stream_indices == unbound_slots(
            self.bind_pairs,
            total_in_streams(self.coders),
        )
    }
}

/// The numbers of input and output streams of a coder at `pos`: written out
/// for a complex coder, one of each otherwise. Neither may be zero.
pub open spec fn spec_stream_counts(bytes: Seq<u8>, pos: nat, complex: bool) -> Parse<(u64, u64)> {
    if complex {
        match take_u64(bytes, pos) {
            Ok((num_in, after_in)) => match take_u64(bytes, after_in) {
                Ok((num_out, next)) => if num_in == 0 || num_out == 0 {
                    Err(ReadFailure::Invalid7z)
                } else {
                    Ok(((num_in, num_out), next))
                },
                Err(e) => Err(e),
            },
            Err(e) => Err(e),
        }
    } else {
        Ok(((1, 1), pos))
    }
}

/// The properties of a coder at `pos`: their length and then the bytes, or
/// nothing at all where the coder has none.
pub open spec fn spec_properties(bytes: Seq<u8>, pos: nat, present: bool) -> Parse<Seq<u8>> {
    if present {
        match take_u64(bytes, pos) {
            Ok((len, after_len)) => take_bytes(bytes, after_len, len as nat),
            Err(e) => Err(e),
        }
    } else {
        Ok((Seq::empty(), pos))
    }
}

/// A coder at `pos`.
pub open spec fn spec_coder(bytes: Seq<u8>, pos: nat) -> Parse<CoderInfoView> {
    match take_u8(bytes, pos) {
        Ok((flags, after_flags)) => {
            let id_size = bit_range_at(flags, 3, 0);
            if bit_at(flags, 7) || id_size == 0 || id_size > 8 {
                Err(ReadFailure::Invalid7z)
            } else {
                match take_uint(bytes, after_flags, id_size) {
                    Ok((id, after_id)) => match spec_stream_counts(
                        bytes,
                        after_id,
                        bit_at(flags, 4),
                    ) {
                        Ok(((num_in, num_out), after_counts)) => match spec_properties(
                            bytes,
                            after_counts,
                            bit_at(flags, 5),
                        ) {
                            Ok((properties, next)) => Ok(
                                (
                                    CoderInfoView {
                                        id_info: CoderIdInfo(flags),
                                        codec_id: codec_of(id as u64),
                                        num_in_streams: num_in,
                                        num_out_streams: num_out,
                                        properties,
                                    },
                                    next,
                                ),
                            ),
                            Err(e) => Err(e),
                        },
                        Err(e) => Err(e),
                    },
                    Err(e) => Err(e),
                }
            }
        },
        Err(e) => Err(e),
    }
}

/// An edge at `pos`: the input stream, then the output stream.
pub open spec fn spec_bind_pair(bytes: Seq<u8>, pos: nat) -> Parse<BindPair> {
    match take_u64(bytes, pos) {
        Ok((in_index, after_in)) => match take_u64(bytes, after_in) {
            Ok((out_index, next)) => Ok((BindPair { in_index, out_index }, next)),
            Err(e) => Err(e),
        },
        Err(e) => Err(e),
    }
}

/// One coder of a row of coders.
pub open spec fn coder_item(bytes: Seq<u8>) -> spec_fn(int, nat) -> Parse<CoderInfoView> {
    |i: int, pos: nat| spec_coder(bytes, pos)
}

/// One edge of a row of edges.
pub open spec fn bind_pair_item(bytes: Seq<u8>) -> spec_fn(int, nat) -> Parse<BindPair> {
    |i: int, pos: nat| spec_bind_pair(bytes, pos)
}

/// What follows the coders of a folder: the edges, one fewer than there are
/// output streams, and from them the input streams that packed streams feed.
/// The counts have to add up: the totals fit in a `u64`, there is an output
/// stream, the edges are no more than the input streams, and the input
/// streams that no edge feeds are as many as the edges leave over. A folder
/// that wants more packed streams than there are bytes is refused before any
/// of them is listed.
pub open spec fn spec_folder_graph(bytes: Seq<u8>, pos: nat, coders: Seq<CoderInfoView>) -> Parse<
    FolderInfoView,
> {
    let total_in = total_in_streams(coders);
    let total_out = total_out_streams(coders);
    if total_in > u64::MAX || total_out > u64::MAX || total_out == 0 {
        Err(ReadFailure::Invalid7z)
    } else {
        match repeat(bind_pair_item(bytes), pos, (total_out - 1) as nat) {
            Ok((bind_pairs, next)) => {
                let packed = unbound_slots(bind_pairs, total_in);
                if total_in < total_out - 1 || total_in - (total_out - 1) > bytes.len()
                    || packed.len() != total_in - (total_out - 1) {
                    Err(ReadFailure::Invalid7z)
                } else {
                    Ok((FolderInfoView { coders, bind_pairs, packed_stream_indices: packed }, next))
                }
            },
            Err(e) => Err(e),
        }
    }
}

/// A folder at `pos`: the number of coders, the coders, and the edges.
pub open spec fn spec_folder(bytes: Seq<u8>, pos: nat) -> Parse<FolderInfoView> {
    match take_u64(bytes, pos) {
        Ok((num_coders, after_count)) => match repeat(
            coder_item(bytes),
            after_count,
            num_coders as nat,
        ) {
            Ok((coders, after_coders)) => spec_folder_graph(bytes, after_coders, coders),
            Err(e) => Err(e),
        },
        Err(e) => Err(e),
    }
}

impl CoderInfo {
    /// Reads one coder: the layout byte, the codec identifier, the stream
    /// counts of a complex coder, and the properties where there are any. On
    /// failure the cursor stays where it was.
    pub fn try_read(reader: &mut ByteCursor) -> (r: Result<Self, ReadError>)
        ensures
            final(reader)@.bytes == old(reader)@.bytes,
            match r {
                Ok(coder) => spec_coder(old(reader)@.bytes, old(reader)@.pos) == Ok::<
                    (CoderInfoView, nat),
                    ReadFailure,
                >((coder@, final(reader)@.pos)),
                Err(e) => spec_coder(old(reader)@.bytes, old(reader)@.pos) == Err::<
                    (CoderInfoView, nat),
                    ReadFailure,
                >(e@) && final(reader)@ == old(reader)@,
            },
    {
        let mut cursor = *reader;
        let id_info = CoderIdInfo(cursor.read_u8()?);
        let id_size = id_info.id_size();
        if id_info.more_alt() || id_size == 0 || id_size > 8 {
            return Err(ReadError::Invalid7z);
        }
        let codec_id = Codec::from(cursor.read_uint_le(id_size as usize)?);
        let complex = id_info.complex();
        let num_in_streams = if complex {
            cursor.read_u64_le()?
        } else {
            1
        };
        let num_out_streams = if complex {
            cursor.read_u64_le()?
        } else {
            1
        };
        if num_in_streams == 0 || num_out_streams == 0 {
            return Err(ReadError::Invalid7z);
        }
        let mut properties: Vec<u8> = Vec::new();
        if id_info.exist_attrs() {
            let num_properties = cursor.read_u64_le()?;
            if num_properties > cursor.remaining() as u64 {
                return Err(ReadError::Io);
            }
            properties = slice_to_vec(cursor.read_exact(num_properties as usize)?);
        }
        *reader = cursor;
        Ok(CoderInfo { id_info, codec_id, num_in_streams, num_out_streams, properties })
    }
}

/// Reads `n` coders.
fn read_coders(reader: &mut ByteCursor, n: u64) -> (r: Result<Vec<CoderInfo>, ReadError>)
    ensures
        final(reader)@.bytes == old(reader)@.bytes,
        match r {
            Ok(coders) => repeat(coder_item(old(reader)@.bytes), old(reader)@.pos, n as nat)
                == Ok::<(Seq<CoderInfoView>, nat), ReadFailure>(
                (coder_views(coders@), final(reader)@.pos),
            ),
            Err(e) => repeat(coder_item(old(reader)@.bytes), old(reader)@.pos, n as nat) == Err::<
                (Seq<CoderInfoView>, nat),
                ReadFailure,
            >(e@),
        },
{
    let ghost bytes = reader@.bytes;
    let ghost start = reader@.pos;
    let mut coders: Vec<CoderInfo> = Vec::new();
    let mut i: u64 = 0;
    proof {
        assert(coder_views(coders@) =~= Seq::empty());
    }
    while i < n
        invariant
            i <= n,
            bytes == old(reader)@.bytes,
            start == old(reader)@.pos,
            reader@.bytes == bytes,
            repeat(coder_item(bytes), start, i as nat) == Ok::<
                (Seq<CoderInfoView>, nat),
                ReadFailure,
            >((coder_views(coders@), reader@.pos)),
        decreases n - i,
    {
        match CoderInfo::try_read(reader) {
            Ok(coder) => {
                let ghost before = coders@;
                coders.push(coder);
                proof {
                    assert(coder_views(coders@) =~= coder_views(before).push(coder@));
                }
            },
            Err(e) => {
                proof {
                    lemma_repeat_failure_stays(coder_item(bytes), start, (i + 1) as nat, n as nat);
                }
                return Err(e);
            },
        }
        i = i + 1;
    }
    Ok(coders)
}

/// Reads one edge: the input stream, then the output stream.
fn read_bind_pair(reader: &mut ByteCursor) -> (r: Result<BindPair, ReadError>)
    ensures
        final(reader)@.bytes == old(reader)@.bytes,
        match r {
            Ok(pair) => spec_bind_pair(old(reader)@.bytes, old(reader)@.pos) == Ok::<
                (BindPair, nat),
                ReadFailure,
            >((pair, final(reader)@.pos)),
            Err(e) => spec_bind_pair(old(reader)@.bytes, old(reader)@.pos) == Err::<
                (BindPair, nat),
                ReadFailure,
            >(e@),
        },
{
    let in_index = reader.read_u64_le()?;
    let out_index = reader.read_u64_le()?;
    Ok(BindPair { in_index, out_index })
}

/// Reads `n` edges.
fn read_bind_pairs(reader: &mut ByteCursor, n: u64) -> (r: Result<Vec<BindPair>, ReadError>)
    ensures
        final(reader)@.bytes == old(reader)@.bytes,
        match r {
            Ok(pairs) => repeat(bind_pair_item(old(reader)@.bytes), old(reader)@.pos, n as nat)
                == Ok::<(Seq<BindPair>, nat), ReadFailure>((pairs@, final(reader)@.pos)),
            Err(e) => repeat(bind_pair_item(old(reader)@.bytes), old(reader)@.pos, n as nat)
                == Err::<(Seq<BindPair>, nat), ReadFailure>(e@),
        },
{
    let ghost bytes = reader@.bytes;
    let ghost start = reader@.pos;
    let mut pairs: Vec<BindPair> = Vec::new();
    let mut i: u64 = 0;
    while i < n
        invariant
            i <= n,
            bytes == old(reader)@.bytes,
            start == old(reader)@.pos,
            reader@.bytes == bytes,
            repeat(bind_pair_item(bytes), start, i as nat) == Ok::<
                (Seq<BindPair>, nat),
                ReadFailure,
            >((pairs@, reader@.pos)),
        decreases n - i,
    {
        match read_bind_pair(reader) {
            Ok(pair) => {
                pairs.push(pair);
            },
            Err(e) => {
                proof {
                    lemma_repeat_failure_stays(
                        bind_pair_item(bytes),
                        start,
                        (i + 1) as nat,
                        n as nat,
                    );
                }
                return Err(e);
            },
        }
        i = i + 1;
    }
    Ok(pairs)
}

/// The totals of the first coders are no more than the totals of all.
proof fn lemma_totals_grow(coders: Seq<CoderInfoView>, k: int)
    requires
        0 <= k <= coders.len(),
    ensures
        total_in_streams(coders.take(k)) <= total_in_streams(coders),
        total_out_streams(coders.take(k)) <= total_out_streams(coders),
    decreases coders.len() - k,
{
    if k < coders.len() {
        lemma_totals_grow(coders, k + 1);
        assert(coders.take(k + 1).drop_last() =~= coders.take(k));
    } else {
        assert(coders.take(k) =~= coders);
    }
}

/// Adds up the input and the output streams of `coders`. `None` where either
/// sum does not fit in a `u64`.
fn stream_totals(coders: &Vec<CoderInfo>) -> (r: Option<(u64, u64)>)
    ensures
        match r {
            Some((total_in, total_out)) => total_in == total_in_streams(coder_views(coders@))
                && total_out == total_out_streams(coder_views(coders@)),
            None => total_in_streams(coder_views(coders@)) > u64::MAX || total_out_streams(
                coder_views(coders@),
            ) > u64::MAX,
        },
{
    let ghost views = coder_views(coders@);
    let mut total_in: u64 = 0;
    let mut total_out: u64 = 0;
    let mut i: usize = 0;
    while i < coders.len()
        invariant
            i <= coders@.len(),
            views == coder_views(coders@),
            total_in == total_in_streams(views.take(i as int)),
            total_out == total_out_streams(views.take(i as int)),
        decreases coders@.len() - i,
    {
        proof {
            assert(views.take(i + 1).drop_last() =~= views.take(i as int));
            lemma_totals_grow(views, i + 1);
        }
        total_in = match total_in.checked_add(coders[i].num_in_streams) {
            Some(sum) => sum,
            None => {
                return None;
            },
        };
        total_out = match total_out.checked_add(coders[i].num_out_streams) {
            Some(sum) => sum,
            None => {
                return None;
            },
        };
        i = i + 1;
    }
    proof {
        assert(views.take(i as int) =~= views);
    }
    Some((total_in, total_out))
}

/// Whether an edge of `pairs` feeds input stream `slot`.
fn slot_is_bound(pairs: &Vec<BindPair>, slot: u64) -> (r: bool)
    ensures
        r == is_bound(pairs@, slot),
{
    let mut k: usize = 0;
    while k < pairs.len()
        invariant
            k <= pairs@.len(),
            forall|j: int| 0 <= j < k ==> (#[trigger] pairs@[j]).in_index != slot,
        decreases pairs@.len() - k,
    {
        if pairs[k].in_index == slot {
            return true;
        }
        k = k + 1;
    }
    false
}

/// The input streams below `total_in` that no edge of `pairs` feeds.
fn packed_slots(pairs: &Vec<BindPair>, total_in: u64) -> (r: Vec<u64>)
    ensures
        r@ == unbound_slots(pairs@, total_in as nat),
{
    let mut slots: Vec<u64> = Vec::new();
    let mut slot: u64 = 0;
    while slot < total_in
        invariant
            slot <= total_in,
            slots@ == unbound_slots(pairs@, slot as nat),
        decreases total_in - slot,
    {
        if !slot_is_bound(pairs, slot) {
            slots.push(slot);
        }
        slot = slot + 1;
    }
    slots
}

impl FolderInfo {
    /// Reads one folder: the number of coders, the coders, and one edge fewer
    /// than the coders have output streams. The input streams that no edge
    /// feeds become the folder's packed inputs. A folder whose counts do not
    /// add up is refused as invalid, and so is one that wants more packed
    /// streams than the cursor has bytes: what is allocated stays within what
    /// the bytes can justify. On failure the cursor stays where it was.
    pub fn try_read(reader: &mut ByteCursor) -> (r: Result<Self, ReadError>)
        ensures
            final(reader)@.bytes == old(reader)@.bytes,
            match r {
                Ok(folder) => spec_folder(old(reader)@.bytes, old(reader)@.pos) == Ok::<
                    (FolderInfoView, nat),
                    ReadFailure,
                >((folder@, final(reader)@.pos)) && folder@.wf(),
                Err(e) => spec_folder(old(reader)@.bytes, old(reader)@.pos) == Err::<
                    (FolderInfoView, nat),
                    ReadFailure,
                >(e@) && final(reader)@ == old(reader)@,
            },
    {
        let mut cursor = *reader;
        let num_coders = cursor.read_u64_le()?;
        let coders = read_coders(&mut cursor, num_coders)?;
        let (total_in, total_out) = match stream_totals(&coders) {
            Some(totals) => totals,
            None => {
                return Err(ReadError::Invalid7z);
            },
        };
        if total_out == 0 {
            return Err(ReadError::Invalid7z);
        }
        let num_bind_pairs = total_out - 1;
        let bind_pairs = read_bind_pairs(&mut cursor, num_bind_pairs)?;
        if total_in < num_bind_pairs {
            return Err(ReadError::Invalid7z);
        }
        let num_packed_streams = total_in - num_bind_pairs;
        if num_packed_streams > cursor.len() as u64 {
            return Err(ReadError::Invalid7z);
        }
        let packed_stream_indices = packed_slots(&bind_pairs, total_in);
        if packed_stream_indices.len() as u64 != num_packed_streams {
            return Err(ReadError::Invalid7z);
        }
        proof {
            lemma_folder_invariant(reader@.bytes, reader@.pos);
        }
        *reader = cursor;
        Ok(FolderInfo { coders, bind_pairs, packed_stream_indices })
    }
}

/// The folder invariant: in every folder that can be read, the edges are one
/// fewer than the output streams, and the packed inputs are as many as the
/// input streams that are left without an edge.
pub proof fn lemma_folder_invariant(bytes: Seq<u8>, pos: nat)
    ensures
        spec_folder(bytes, pos) matches Ok((folder, _)) ==> folder.wf(),
{
    if let Ok((num_coders, after_count)) = take_u64(bytes, pos) {
        lemma_repeat_all(
            coder_item(bytes),
            after_count,
            num_coders as nat,
            |coder: CoderInfoView| has_streams(coder),
        );
        if let Ok((coders, after_coders)) = repeat(
            coder_item(bytes),
            after_count,
            num_coders as nat,
        ) {
            let total_out = total_out_streams(coders);
            if 0 < total_out <= u64::MAX {
                lemma_repeat_len(
                    bind_pair_item(bytes),
                    after_coders,
                    (total_out - 1) as nat,
                );
            }
        }
    }
}

/// A folder takes at least the eight bytes of its coder count, and lies
/// within the bytes.
pub proof fn lemma_folder_advances(bytes: Seq<u8>, pos: nat)
    ensures
        spec_folder(bytes, pos) matches Ok((_, next)) ==> pos < next <= bytes.len(),
{
    let len = bytes.len();
    assert forall|at: nat, n: nat| at <= len implies advances(
        #[trigger] repeat(coder_item(bytes), at, n),
        len,
        at,
    ) by {
        lemma_repeat_advances(coder_item(bytes), len, at, n);
    }
    assert forall|at: nat, n: nat| at <= len implies advances(
        #[trigger] repeat(bind_pair_item(bytes), at, n),
        len,
        at,
    ) by {
        lemma_repeat_advances(bind_pair_item(bytes), len, at, n);
    }
}

/// The packed inputs, told without recursion: they are input streams below
/// `n` that no edge feeds, they ascend, and no such stream is missing.
pub proof fn lemma_unbound_slots(pairs: Seq<BindPair>, n: nat)
    requires
        n <= u64::MAX,
    ensures
        unbound_slots(pairs, n).len() <= n,
        forall|i: int|
            0 <= i < unbound_slots(pairs, n).len() ==> (#[trigger] unbound_slots(pairs, n)[i]) < n
                && !is_bound(pairs, unbound_slots(pairs, n)[i]),
        forall|i: int, j: int|
            0 <= i < j < unbound_slots(pairs, n).len() ==> unbound_slots(pairs, n)[i]
                < unbound_slots(pairs, n)[j],
        forall|slot: u64|
            slot < n && !is_bound(pairs, slot) ==> unbound_slots(pairs, n).contains(slot),
    decreases n,
{
    if n > 0 {
        let fewer = unbound_slots(pairs, (n - 1) as nat);
        let slots = unbound_slots(pairs, n);
        lemma_unbound_slots(pairs, (n - 1) as nat);
        assert forall|slot: u64| slot < n && !is_bound(pairs, slot) implies slots.contains(
            slot,
        ) by {
            if slot < n - 1 {
                let i = choose|i: int| 0 <= i < fewer.len() && fewer[i] == slot;
                assert(slots[i] == slot);
            } else {
                assert(slots[slots.len() - 1] == slot);
            }
        }
    }
}

/// A folder whose stream counts do not add up is refused as invalid: one
/// without any output stream, and one with more edges than input streams.
pub proof fn lemma_folder_underflow_is_invalid(bytes: Seq<u8>, pos: nat, coders: Seq<CoderInfoView>)
    requires
        total_out_streams(coders) == 0 || (repeat(
            bind_pair_item(bytes),
            pos,
            (total_out_streams(coders) - 1) as nat,
        ) is Ok && total_in_streams(coders) < total_out_streams(coders) - 1),
    ensures
        spec_folder_graph(bytes, pos, coders) == Err::<(FolderInfoView, nat), ReadFailure>(
            ReadFailure::Invalid7z,
        ),
{
}

/// Whether the edges feed input streams below `n`, no two of them the same
/// one.
pub open spec fn feeds_distinct_inputs(pairs: Seq<BindPair>, n: nat) -> bool {
    &&& forall|k: int| 0 <= k < pairs.len() ==> (#[trigger] pairs[k]).in_index < n
    &&& forall|j: int, k: int|
        0 <= j < k < pairs.len() ==> (#[trigger] pairs[j]).in_index != (
        #[trigger] pairs[k]).in_index
}

/// One more edge takes one input stream away from those that no edge feeds,
/// if it feeds a stream below `n` that no edge fed before, and none
/// otherwise.
proof fn lemma_one_more_edge(pairs: Seq<BindPair>, edge: BindPair, n: nat)
    requires
        n <= u64::MAX,
    ensures
        unbound_slots(pairs.push(edge), n).len() + (if edge.in_index < n && !is_bound(
            pairs,
            edge.in_index,
        ) {
            1nat
        } else {
            0nat
        }) == unbound_slots(pairs, n).len(),
    decreases n,
{
    let more = pairs.push(edge);
    assert forall|slot: u64| is_bound(more, slot) <==> is_bound(pairs, slot) || edge.in_index
        == slot by {
        if is_bound(pairs, slot) {
            let k = choose|k: int| 0 <= k < pairs.len() && (#[trigger] pairs[k]).in_index == slot;
            assert(more[k].in_index == slot);
        }
        if edge.in_index == slot {
            assert(more[pairs.len() as int].in_index == slot);
        }
        if is_bound(more, slot) {
            let k = choose|k: int| 0 <= k < more.len() && (#[trigger] more[k]).in_index == slot;
            if k < pairs.len() {
                assert(pairs[k].in_index == slot);
            }
        }
    }
    if n > 0 {
        lemma_one_more_edge(pairs, edge, (n - 1) as nat);
    }
}

/// The input streams that no edge feeds are as many as the edges leave over
/// exactly where the edges feed distinct input streams that exist.
pub proof fn lemma_edges_leave_packed_inputs(pairs: Seq<BindPair>, n: nat)
    requires
        n <= u64::MAX,
    ensures
        unbound_slots(pairs, n).len() + pairs.len() >= n,
        unbound_slots(pairs, n).len() + pairs.len() == n <==> feeds_distinct_inputs(pairs, n),
    decreases pairs.len(),
{
    if pairs.len() == 0 {
        lemma_no_edge_binds_nothing(pairs, n);
    } else {
        let fewer = pairs.drop_last();
        let edge = pairs.last();
        assert(fewer.push(edge) =~= pairs);
        lemma_edges_leave_packed_inputs(fewer, n);
        lemma_one_more_edge(fewer, edge, n);
        if feeds_distinct_inputs(pairs, n) {
            assert(pairs[pairs.len() - 1].in_index < n);
            assert forall|k: int| 0 <= k < fewer.len() implies (#[trigger] fewer[k]).in_index
                != edge.in_index by {
                assert(pairs[k].in_index != pairs[pairs.len() - 1].in_index);
            }
            assert(feeds_distinct_inputs(fewer, n)) by {
                assert forall|k: int| 0 <= k < fewer.len() implies (#[trigger] fewer[k]).in_index
                    < n by {
                    assert(pairs[k].in_index < n);
                }
                assert forall|j: int, k: int| 0 <= j < k < fewer.len() implies (
                #[trigger] fewer[j]).in_index != (#[trigger] fewer[k]).in_index by {
                    assert(pairs[j].in_index != pairs[k].in_index);
                }
            }
        }
        if feeds_distinct_inputs(fewer, n) && edge.in_index < n && !is_bound(
            fewer,
            edge.in_index,
        ) {
            assert forall|j: int, k: int| 0 <= j < k < pairs.len() implies (
            #[trigger] pairs[j]).in_index != (#[trigger] pairs[k]).in_index by {
                if k < fewer.len() {
                    assert(fewer[j].in_index != fewer[k].in_index);
                } else {
                    assert(fewer[j].in_index != edge.in_index);
                }
            }
            assert forall|k: int| 0 <= k < pairs.len() implies (#[trigger] pairs[k]).in_index
                < n by {
                if k < fewer.len() {
                    assert(fewer[k].in_index < n);
                }
            }
        }
    }
}

/// Without edges every input stream is left over.
proof fn lemma_no_edge_binds_nothing(pairs: Seq<BindPair>, n: nat)
    requires
        pairs.len() == 0,
        n <= u64::MAX,
    ensures
        unbound_slots(pairs, n).len() == n,
    decreases n,
{
    if n > 0 {
        lemma_no_edge_binds_nothing(pairs, (n - 1) as nat);
    }
}

/// Which edges a folder accepts: behind coders whose streams can be counted
/// and of which at least one gives a stream out, the edges that were read make
/// a folder exactly where they feed distinct input streams of the coders and
/// leave no more of them to packed streams than there are bytes.
pub proof fn lemma_folder_accepts_distinct_edges(
    bytes: Seq<u8>,
    pos: nat,
    coders: Seq<CoderInfoView>,
)
    requires
        total_in_streams(coders) <= u64::MAX,
        0 < total_out_streams(coders) <= u64::MAX,
    ensures
        repeat(bind_pair_item(bytes), pos, (total_out_streams(coders) - 1) as nat) matches Ok(
            (pairs, _),
        ) ==> (spec_folder_graph(bytes, pos, coders) is Ok <==> feeds_distinct_inputs(
            pairs,
            total_in_streams(coders),
        ) && total_in_streams(coders) - pairs.len() <= bytes.len()),
{
    let wanted = (total_out_streams(coders) - 1) as nat;
    if let Ok((pairs, _)) = repeat(bind_pair_item(bytes), pos, wanted) {
        lemma_repeat_len(bind_pair_item(bytes), pos, wanted);
        lemma_edges_leave_packed_inputs(pairs, total_in_streams(coders));
    }
}

} // verus!
