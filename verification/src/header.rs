//! The blocks of an archive header, each behind the tag that names it.

use crate::error::{
    archive_properties_unsupported, external_folders_unsupported, files_info_unsupported,
    substream_info_unsupported, ReadError, ReadFailure,
};
use crate::folder::{
    folder_views, lemma_folder_advances, lemma_folder_invariant, spec_folder, FolderInfo,
    FolderInfoView,
};
use crate::pack::{
    lemma_pack_info_advances, lemma_pack_info_invariant, spec_pack_info, PackInfo, PackInfoView,
};
use crate::stream::{
    advances, behind_tag, expect_tag, lemma_repeat_advances, lemma_repeat_all,
    lemma_repeat_failure_stays, repeat, take_u64, take_u8, verify_ident, ByteCursor, Parse, END,
};
use vstd::prelude::*;

verus! {

/// How the packed streams are decoded: one folder for each pipeline.
#[derive(Debug, PartialEq, Eq)]
pub struct UnpackInfo {
    /// The folders, as many as the block says it has.
    pub folders: Vec<FolderInfo>,
}

/// The mathematical value of an [`UnpackInfo`].
pub struct UnpackInfoView {
    pub folders: Seq<FolderInfoView>,
}

impl View for UnpackInfo {
    type V = UnpackInfoView;

    open spec fn view(&self) -> UnpackInfoView {
        UnpackInfoView { folders: folder_views(self.folders@) }
    }
}

impl UnpackInfoView {
    /// What holds of every unpack-info block that was read: each of its
    /// folders keeps the folder invariant.
    pub open spec fn wf(self) -> bool {
        forall|i: int| 0 <= i < self.folders.len() ==> (#[trigger] self.folders[i]).wf()
    }
}

/// How the unpacked streams divide into files. Its layout is not settled, so
/// no value of it is ever read.
#[derive(Debug, PartialEq, Eq)]
pub struct SubstreamInfo {}

/// The names and attributes of the files. Its layout is not settled, so no
/// value of it is ever read.
#[derive(Debug, PartialEq, Eq)]
pub struct FilesInfo {}

/// One group of streams: where they are packed and how they are unpacked.
#[derive(Debug, PartialEq, Eq)]
pub struct StreamsInfo {
    pub pack: Option<PackInfo>,
    pub unpack: Option<UnpackInfo>,
    pub substream: Option<SubstreamInfo>,
}

/// The mathematical value of a [`StreamsInfo`], and of an [`EncodedHeader`].
pub struct StreamsInfoView {
    pub pack: Option<PackInfoView>,
    pub unpack: Option<UnpackInfoView>,
    pub substream: Option<SubstreamInfo>,
}

impl StreamsInfoView {
    /// What holds of every group of streams that was read: the blocks that
    /// are there keep their invariants.
    pub open spec fn wf(self) -> bool {
        &&& self.pack matches Some(pack) ==> pack.wf()
        &&& self.unpack matches Some(unpack) ==> unpack.wf()
    }
}

/// The value of a pack-info block that may be absent.
pub open spec fn pack_view(pack: Option<PackInfo>) -> Option<PackInfoView> {
    match pack {
        Some(info) => Some(info@),
        None => None,
    }
}

/// The value of an unpack-info block that may be absent.
pub open spec fn unpack_view(unpack: Option<UnpackInfo>) -> Option<UnpackInfoView> {
    match unpack {
        Some(info) => Some(info@),
        None => None,
    }
}

/// The value of a streams-info block that may be absent.
pub open spec fn streams_view(streams: Option<StreamsInfo>) -> Option<StreamsInfoView> {
    match streams {
        Some(info) => Some(info@),
        None => None,
    }
}

impl View for StreamsInfo {
    type V = StreamsInfoView;

    open spec fn view(&self) -> StreamsInfoView {
        StreamsInfoView {
            pack: pack_view(self.pack),
            unpack: unpack_view(self.unpack),
            substream: self.substream,
        }
    }
}

/// The header of an archive whose own bytes are packed: the streams that
/// hold them.
#[derive(Debug, PartialEq, Eq)]
pub struct EncodedHeader {
    pub pack: Option<PackInfo>,
    pub unpack: Option<UnpackInfo>,
    pub substream: Option<SubstreamInfo>,
}

impl View for EncodedHeader {
    type V = StreamsInfoView;

    open spec fn view(&self) -> StreamsInfoView {
        StreamsInfoView {
            pack: pack_view(self.pack),
            unpack: unpack_view(self.unpack),
            substream: self.substream,
        }
    }
}

/// The header of an archive.
#[derive(Debug, PartialEq, Eq)]
pub struct MainHeader {
    pub additional_streams_info: Option<StreamsInfo>,
    pub main_streams_info: Option<StreamsInfo>,
    pub files: Option<FilesInfo>,
}

/// The mathematical value of a [`MainHeader`].
pub struct MainHeaderView {
    pub additional_streams_info: Option<StreamsInfoView>,
    pub main_streams_info: Option<StreamsInfoView>,
    pub files: Option<FilesInfo>,
}

impl MainHeaderView {
    /// What holds of every archive header that was read: the groups of
    /// streams that are there keep their invariants.
    pub open spec fn wf(self) -> bool {
        &&& self.additional_streams_info matches Some(streams) ==> streams.wf()
        &&& self.main_streams_info matches Some(streams) ==> streams.wf()
    }
}

impl View for MainHeader {
    type V = MainHeaderView;

    open spec fn view(&self) -> MainHeaderView {
        MainHeaderView {
            additional_streams_info: streams_view(self.additional_streams_info),
            main_streams_info: streams_view(self.main_streams_info),
            files: self.files,
        }
    }
}

/// One folder of a row of folders.
pub open spec fn folder_item(bytes: Seq<u8>) -> spec_fn(int, nat) -> Parse<FolderInfoView> {
    |i: int, pos: nat| spec_folder(bytes, pos)
}

/// An unpack-info block at `pos`: its tag, the folder tag, the number of
/// folders, a byte that is zero where the folders follow in place, the
/// folders, and the end tag.
pub open spec fn spec_unpack_info(bytes: Seq<u8>, pos: nat) -> Parse<UnpackInfoView> {
    match expect_tag(bytes, pos, UnpackInfo::IDENT) {
        Ok((_, after_ident)) => match expect_tag(bytes, after_ident, UnpackInfo::NUM_FOLDERS) {
            Ok((_, after_tag)) => match take_u64(bytes, after_tag) {
                Ok((num_folders, after_count)) => match take_u8(bytes, after_count) {
                    Ok((external, after_external)) => if external != 0 {
                        Err(external_folders_unsupported())
                    } else {
                        match repeat(folder_item(bytes), after_external, num_folders as nat) {
                            Ok((folders, after_folders)) => match expect_tag(
                                bytes,
                                after_folders,
                                END,
                            ) {
                                Ok((_, next)) => Ok((UnpackInfoView { folders }, next)),
                                Err(e) => Err(e),
                            },
                            Err(e) => Err(e),
                        }
                    },
                    Err(e) => Err(e),
                },
                Err(e) => Err(e),
            },
            Err(e) => Err(e),
        },
        Err(e) => Err(e),
    }
}

/// A substream-info block at `pos`: behind its tag nothing can be read.
pub open spec fn spec_substream_info(bytes: Seq<u8>, pos: nat) -> Parse<SubstreamInfo> {
    match expect_tag(bytes, pos, SubstreamInfo::IDENT) {
        Ok(_) => Err(substream_info_unsupported()),
        Err(e) => Err(e),
    }
}

/// A files-info block at `pos`: behind its tag nothing can be read.
pub open spec fn spec_files_info(bytes: Seq<u8>, pos: nat) -> Parse<FilesInfo> {
    match expect_tag(bytes, pos, FilesInfo::IDENT) {
        Ok(_) => Err(files_info_unsupported()),
        Err(e) => Err(e),
    }
}

/// An unpack-info block takes at least its tag, and lies within the bytes.
pub proof fn lemma_unpack_info_advances(bytes: Seq<u8>, pos: nat)
    ensures
        spec_unpack_info(bytes, pos) matches Ok((_, next)) ==> pos < next <= bytes.len(),
{
    let len = bytes.len();
    assert forall|at: nat, n: nat| at <= len implies advances(
        #[trigger] repeat(folder_item(bytes), at, n),
        len,
        at,
    ) by {
        assert forall|i: int, p: nat| p <= len implies advances(
            #[trigger] folder_item(bytes)(i, p),
            len,
            p,
        ) by {
            lemma_folder_advances(bytes, p);
        }
        lemma_repeat_advances(folder_item(bytes), len, at, n);
    }
}

/// The blocks of a group of streams from `pos` up to the end tag. Each block
/// is known by its tag; a block that comes again replaces the earlier one.
/// `found` holds the blocks read so far.
pub open spec fn spec_streams_fields(bytes: Seq<u8>, pos: nat, found: StreamsInfoView) -> Parse<
    StreamsInfoView,
>
    decreases bytes.len() - pos,
{
    match take_u8(bytes, pos) {
        Ok((tag, after_tag)) => if tag == END {
            Ok((found, after_tag))
        } else if tag == PackInfo::IDENT {
            match spec_pack_info(bytes, pos) {
                Ok((pack, next)) => {
                    proof {
                        lemma_pack_info_advances(bytes, pos);
                    }
                    spec_streams_fields(bytes, next, StreamsInfoView { pack: Some(pack), ..found })
                },
                Err(e) => Err(e),
            }
        } else if tag == UnpackInfo::IDENT {
            match spec_unpack_info(bytes, pos) {
                Ok((unpack, next)) => {
                    proof {
                        lemma_unpack_info_advances(bytes, pos);
                    }
                    spec_streams_fields(
                        bytes,
                        next,
                        StreamsInfoView { unpack: Some(unpack), ..found },
                    )
                },
                Err(e) => Err(e),
            }
        } else if tag == SubstreamInfo::IDENT {
            match spec_substream_info(bytes, pos) {
                Ok((substream, next)) => {
                    spec_streams_fields(
                        bytes,
                        next,
                        StreamsInfoView { substream: Some(substream), ..found },
                    )
                },
                Err(e) => Err(e),
            }
        } else {
            Err(ReadFailure::Invalid7z)
        },
        Err(e) => Err(e),
    }
}

/// A group of streams at `pos`: the tag `ident`, then its blocks up to the
/// end tag.
pub open spec fn spec_streams_info(bytes: Seq<u8>, pos: nat, ident: u8) -> Parse<StreamsInfoView> {
    match expect_tag(bytes, pos, ident) {
        Ok((_, after_ident)) => spec_streams_fields(
            bytes,
            after_ident,
            StreamsInfoView { pack: None, unpack: None, substream: None },
        ),
        Err(e) => Err(e),
    }
}

impl UnpackInfo {
    /// The tag that opens an unpack-info block.
    pub const IDENT: u8 = 0x07;

    /// The tag that opens the list of folders.
    pub const NUM_FOLDERS: u8 = 0x0B;
}

impl SubstreamInfo {
    /// The tag that opens a substream-info block.
    pub const IDENT: u8 = 0x08;
}

impl FilesInfo {
    /// The tag that opens a files-info block.
    pub const IDENT: u8 = 0x05;
}

impl StreamsInfo {
    /// The tag that opens the group of additional streams.
    pub const ADDITIONAL_STREAMS: u8 = 0x03;

    /// The tag that opens the group of main streams.
    pub const MAIN_STREAMS: u8 = 0x04;
}

/// Reads `n` folders.
fn read_folders(reader: &mut ByteCursor, n: u64) -> (r: Result<Vec<FolderInfo>, ReadError>)
    ensures
        final(reader)@.bytes == old(reader)@.bytes,
        match r {
            Ok(folders) => repeat(folder_item(old(reader)@.bytes), old(reader)@.pos, n as nat)
                == Ok::<(Seq<FolderInfoView>, nat), ReadFailure>(
                (folder_views(folders@), final(reader)@.pos),
            ),
            Err(e) => repeat(folder_item(old(reader)@.bytes), old(reader)@.pos, n as nat) == Err::<
                (Seq<FolderInfoView>, nat),
                ReadFailure,
            >(e@),
        },
{
    let ghost bytes = reader@.bytes;
    let ghost start = reader@.pos;
    let mut folders: Vec<FolderInfo> = Vec::new();
    let mut i: u64 = 0;
    proof {
        assert(folder_views(folders@) =~= Seq::empty());
    }
    while i < n
        invariant
            i <= n,
            bytes == old(reader)@.bytes,
            start == old(reader)@.pos,
            reader@.bytes == bytes,
            repeat(folder_item(bytes), start, i as nat) == Ok::<
                (Seq<FolderInfoView>, nat),
                ReadFailure,
            >((folder_views(folders@), reader@.pos)),
        decreases n - i,
    {
        match FolderInfo::try_read(reader) {
            Ok(folder) => {
                let ghost before = folders@;
                folders.push(folder);
                proof {
                    assert(folder_views(folders@) =~= folder_views(before).push(folder@));
                }
            },
            Err(e) => {
                proof {
                    lemma_repeat_failure_stays(folder_item(bytes), start, (i + 1) as nat, n as nat);
                }
                return Err(e);
            },
        }
        i = i + 1;
    }
    Ok(folders)
}

impl UnpackInfo {
    /// Reads an unpack-info block: its tag, the folder tag, the number of
    /// folders, and the folders up to the end tag. Folders that are stored
    /// outside of the block are not supported. On failure the cursor stays
    /// where it was.
    pub fn try_read(reader: &mut ByteCursor) -> (r: Result<Self, ReadError>)
        ensures
            final(reader)@.bytes == old(reader)@.bytes,
            match r {
                Ok(info) => spec_unpack_info(old(reader)@.bytes, old(reader)@.pos) == Ok::<
                    (UnpackInfoView, nat),
                    ReadFailure,
                >((info@, final(reader)@.pos)) && info@.wf(),
                Err(e) => spec_unpack_info(old(reader)@.bytes, old(reader)@.pos) == Err::<
                    (UnpackInfoView, nat),
                    ReadFailure,
                >(e@) && final(reader)@ == old(reader)@,
            },
    {
        proof {
            lemma_unpack_info_invariant(reader@.bytes, reader@.pos);
        }
        let mut cursor = *reader;
        verify_ident(&mut cursor, Self::IDENT)?;
        verify_ident(&mut cursor, Self::NUM_FOLDERS)?;
        let num_folders = cursor.read_u64_le()?;
        let external: bool = cursor.read_u8()? != 0;
        if external {
            return Err(ReadError::external_folders());
        }
        let folders = read_folders(&mut cursor, num_folders)?;
        verify_ident(&mut cursor, END)?;
        *reader = cursor;
        Ok(UnpackInfo { folders })
    }
}

impl SubstreamInfo {
    /// Reads the tag of a substream-info block. What follows the tag cannot
    /// be read, so the call never succeeds. The byte that was read for the
    /// tag is consumed, whether it is the tag or not; only where the bytes
    /// have ended does the cursor stay.
    pub fn try_read(reader: &mut ByteCursor) -> (r: Result<Self, ReadError>)
        ensures
            final(reader)@.bytes == old(reader)@.bytes,
            final(reader)@.pos == behind_tag(old(reader)@.bytes, old(reader)@.pos),
            match r {
                Ok(info) => spec_substream_info(old(reader)@.bytes, old(reader)@.pos) == Ok::<
                    (SubstreamInfo, nat),
                    ReadFailure,
                >((info, final(reader)@.pos)),
                Err(e) => spec_substream_info(old(reader)@.bytes, old(reader)@.pos) == Err::<
                    (SubstreamInfo, nat),
                    ReadFailure,
                >(e@),
            },
    {
        verify_ident(reader, Self::IDENT)?;
        Err(ReadError::substream_info())
    }
}

impl FilesInfo {
    /// Reads the tag of a files-info block. What follows the tag cannot be
    /// read, so the call never succeeds. The byte that was read for the tag
    /// is consumed, whether it is the tag or not; only where the bytes have
    /// ended does the cursor stay.
    pub fn try_read(reader: &mut ByteCursor) -> (r: Result<Self, ReadError>)
        ensures
            final(reader)@.bytes == old(reader)@.bytes,
            final(reader)@.pos == behind_tag(old(reader)@.bytes, old(reader)@.pos),
            match r {
                Ok(info) => spec_files_info(old(reader)@.bytes, old(reader)@.pos) == Ok::<
                    (FilesInfo, nat),
                    ReadFailure,
                >((info, final(reader)@.pos)),
                Err(e) => spec_files_info(old(reader)@.bytes, old(reader)@.pos) == Err::<
                    (FilesInfo, nat),
                    ReadFailure,
                >(e@),
            },
    {
        verify_ident(reader, Self::IDENT)?;
        Err(ReadError::files_info())
    }
}

impl StreamsInfo {
    /// Reads a group of streams: the tag `ident`, then pack-info,
    /// unpack-info and substream-info blocks in any order up to the end tag.
    /// Any other tag makes the group invalid. On failure the cursor stays
    /// where it was.
    pub fn try_read(reader: &mut ByteCursor, ident: u8) -> (r: Result<Self, ReadError>)
        ensures
            final(reader)@.bytes == old(reader)@.bytes,
            match r {
                Ok(info) => spec_streams_info(old(reader)@.bytes, old(reader)@.pos, ident) == Ok::<
                    (StreamsInfoView, nat),
                    ReadFailure,
                >((info@, final(reader)@.pos)) && info@.wf(),
                Err(e) => spec_streams_info(old(reader)@.bytes, old(reader)@.pos, ident) == Err::<
                    (StreamsInfoView, nat),
                    ReadFailure,
                >(e@) && final(reader)@ == old(reader)@,
            },
    {
        let ghost bytes = reader@.bytes;
        let ghost whole = spec_streams_info(reader@.bytes, reader@.pos, ident);
        proof {
            lemma_streams_info_invariant(reader@.bytes, reader@.pos, ident);
        }
        let mut cursor = *reader;
        verify_ident(&mut cursor, ident)?;
        let mut pack: Option<PackInfo> = None;
        let mut unpack: Option<UnpackInfo> = None;
        let mut substream: Option<SubstreamInfo> = None;
        loop
            invariant
                *reader == *old(reader),
                bytes == old(reader)@.bytes,
                whole == spec_streams_info(old(reader)@.bytes, old(reader)@.pos, ident),
                cursor@.bytes == bytes,
                whole matches Ok((info, _)) ==> info.wf(),
                whole == spec_streams_fields(
                    bytes,
                    cursor@.pos,
                    StreamsInfoView {
                        pack: pack_view(pack),
                        unpack: unpack_view(unpack),
                        substream,
                    },
                ),
            decreases bytes.len() - cursor@.pos,
        {
            let ghost at = cursor@.pos;
            proof {
                use_type_invariant(&cursor);
            }
            let tag = cursor.peek_u8()?;
            if tag == END {
                verify_ident(&mut cursor, END)?;
                *reader = cursor;
                return Ok(StreamsInfo { pack, unpack, substream });
            } else if tag == PackInfo::IDENT {
                pack = Some(PackInfo::try_read(&mut cursor)?);
                proof {
                    lemma_pack_info_advances(bytes, at);
                }
            } else if tag == UnpackInfo::IDENT {
                unpack = Some(UnpackInfo::try_read(&mut cursor)?);
                proof {
                    lemma_unpack_info_advances(bytes, at);
                }
            } else if tag == SubstreamInfo::IDENT {
                substream = Some(SubstreamInfo::try_read(&mut cursor)?);
            } else {
                return Err(ReadError::Invalid7z);
            }
        }
    }
}

/// An encoded header at `pos`: its tag, then the blocks of a group of
/// streams up to the end tag.
pub open spec fn spec_encoded_header(bytes: Seq<u8>, pos: nat) -> Parse<StreamsInfoView> {
    spec_streams_info(bytes, pos, EncodedHeader::IDENT)
}

impl EncodedHeader {
    /// The tag that opens an encoded header.
    pub const IDENT: u8 = 0x17;

    /// Reads an encoded header: its tag, then pack-info, unpack-info and
    /// substream-info blocks up to the end tag. The blocks say how the bytes
    /// of the real header are packed. On failure the cursor stays where it
    /// was.
    pub fn try_read(reader: &mut ByteCursor) -> (r: Result<Self, ReadError>)
        ensures
            final(reader)@.bytes == old(reader)@.bytes,
            match r {
                Ok(header) => spec_encoded_header(old(reader)@.bytes, old(reader)@.pos) == Ok::<
                    (StreamsInfoView, nat),
                    ReadFailure,
                >((header@, final(reader)@.pos)) && header@.wf(),
                Err(e) => spec_encoded_header(old(reader)@.bytes, old(reader)@.pos) == Err::<
                    (StreamsInfoView, nat),
                    ReadFailure,
                >(e@) && final(reader)@ == old(reader)@,
            },
    {
        let streams = StreamsInfo::try_read(reader, Self::IDENT)?;
        Ok(
            EncodedHeader {
                pack: streams.pack,
                unpack: streams.unpack,
                substream: streams.substream,
            },
        )
    }
}

/// The blocks of a group of streams end behind where they start, and within
/// the bytes.
pub proof fn lemma_streams_fields_advance(bytes: Seq<u8>, pos: nat, found: StreamsInfoView)
    ensures
        spec_streams_fields(bytes, pos, found) matches Ok((_, next)) ==> pos < next <= bytes.len(),
    decreases bytes.len() - pos,
{
    if let Ok((tag, after_tag)) = take_u8(bytes, pos) {
        if tag == PackInfo::IDENT {
            if let Ok((pack, next)) = spec_pack_info(bytes, pos) {
                lemma_pack_info_advances(bytes, pos);
                lemma_streams_fields_advance(
                    bytes,
                    next,
                    StreamsInfoView { pack: Some(pack), ..found },
                );
            }
        } else if tag == UnpackInfo::IDENT {
            if let Ok((unpack, next)) = spec_unpack_info(bytes, pos) {
                lemma_unpack_info_advances(bytes, pos);
                lemma_streams_fields_advance(
                    bytes,
                    next,
                    StreamsInfoView { unpack: Some(unpack), ..found },
                );
            }
        }
    }
}

/// A group of streams takes at least its tag and the end tag, and lies within
/// the bytes.
pub proof fn lemma_streams_info_advances(bytes: Seq<u8>, pos: nat, ident: u8)
    ensures
        spec_streams_info(bytes, pos, ident) matches Ok((_, next)) ==> pos < next <= bytes.len(),
{
    if let Ok((_, after_ident)) = expect_tag(bytes, pos, ident) {
        lemma_streams_fields_advance(
            bytes,
            after_ident,
            StreamsInfoView { pack: None, unpack: None, substream: None },
        );
    }
}

/// The blocks of an archive header from `pos` up to the end tag. Each block
/// is known by its tag; a block that comes again replaces the earlier one.
/// `found` holds the blocks read so far.
pub open spec fn spec_main_fields(bytes: Seq<u8>, pos: nat, found: MainHeaderView) -> Parse<
    MainHeaderView,
>
    decreases bytes.len() - pos,
{
    match take_u8(bytes, pos) {
        Ok((tag, after_tag)) => if tag == END {
            Ok((found, after_tag))
        } else if tag == StreamsInfo::ADDITIONAL_STREAMS {
            match spec_streams_info(bytes, pos, StreamsInfo::ADDITIONAL_STREAMS) {
                Ok((streams, next)) => {
                    proof {
                        lemma_streams_info_advances(bytes, pos, StreamsInfo::ADDITIONAL_STREAMS);
                    }
                    spec_main_fields(
                        bytes,
                        next,
                        MainHeaderView { additional_streams_info: Some(streams), ..found },
                    )
                },
                Err(e) => Err(e),
            }
        } else if tag == StreamsInfo::MAIN_STREAMS {
            match spec_streams_info(bytes, pos, StreamsInfo::MAIN_STREAMS) {
                Ok((streams, next)) => {
                    proof {
                        lemma_streams_info_advances(bytes, pos, StreamsInfo::MAIN_STREAMS);
                    }
                    spec_main_fields(
                        bytes,
                        next,
                        MainHeaderView { main_streams_info: Some(streams), ..found },
                    )
                },
                Err(e) => Err(e),
            }
        } else if tag == FilesInfo::IDENT {
            match spec_files_info(bytes, pos) {
                Ok((files, next)) => {
                    spec_main_fields(bytes, next, MainHeaderView { files: Some(files), ..found })
                },
                Err(e) => Err(e),
            }
        } else if tag == MainHeader::ARCHIVE_PROPERTIES {
            Err(archive_properties_unsupported())
        } else {
            Err(ReadFailure::Invalid7z)
        },
        Err(e) => Err(e),
    }
}

/// An archive header at `pos`: its tag, then its blocks up to the end tag.
pub open spec fn spec_main_header(bytes: Seq<u8>, pos: nat) -> Parse<MainHeaderView> {
    match expect_tag(bytes, pos, MainHeader::IDENT) {
        Ok((_, after_ident)) => spec_main_fields(
            bytes,
            after_ident,
            MainHeaderView { additional_streams_info: None, main_streams_info: None, files: None },
        ),
        Err(e) => Err(e),
    }
}

impl MainHeader {
    /// The tag that opens an archive header.
    pub const IDENT: u8 = 0x01;

    /// The tag that opens the archive properties.
    pub const ARCHIVE_PROPERTIES: u8 = 0x02;

    /// Reads an archive header: its tag, then the groups of additional and
    /// main streams and the files-info block in any order up to the end tag.
    /// Archive properties are not supported; any other tag makes the header
    /// invalid. On failure the cursor stays where it was.
    pub fn try_read(reader: &mut ByteCursor) -> (r: Result<Self, ReadError>)
        ensures
            final(reader)@.bytes == old(reader)@.bytes,
            match r {
                Ok(header) => spec_main_header(old(reader)@.bytes, old(reader)@.pos) == Ok::<
                    (MainHeaderView, nat),
                    ReadFailure,
                >((header@, final(reader)@.pos)) && header@.wf(),
                Err(e) => spec_main_header(old(reader)@.bytes, old(reader)@.pos) == Err::<
                    (MainHeaderView, nat),
                    ReadFailure,
                >(e@) && final(reader)@ == old(reader)@,
            },
    {
        let ghost bytes = reader@.bytes;
        let ghost whole = spec_main_header(reader@.bytes, reader@.pos);
        proof {
            lemma_main_header_invariant(reader@.bytes, reader@.pos);
        }
        let mut cursor = *reader;
        verify_ident(&mut cursor, Self::IDENT)?;
        let mut additional_streams_info: Option<StreamsInfo> = None;
        let mut main_streams_info: Option<StreamsInfo> = None;
        let mut files: Option<FilesInfo> = None;
        loop
            invariant
                *reader == *old(reader),
                bytes == old(reader)@.bytes,
                whole == spec_main_header(old(reader)@.bytes, old(reader)@.pos),
                cursor@.bytes == bytes,
                whole matches Ok((header, _)) ==> header.wf(),
                whole == spec_main_fields(
                    bytes,
                    cursor@.pos,
                    MainHeaderView {
                        additional_streams_info: streams_view(additional_streams_info),
                        main_streams_info: streams_view(main_streams_info),
                        files,
                    },
                ),
            decreases bytes.len() - cursor@.pos,
        {
            let ghost at = cursor@.pos;
            proof {
                use_type_invariant(&cursor);
            }
            let next_byte = cursor.peek_u8()?;
            if next_byte == END {
                verify_ident(&mut cursor, END)?;
                *reader = cursor;
                return Ok(MainHeader { additional_streams_info, main_streams_info, files });
            } else if next_byte == StreamsInfo::ADDITIONAL_STREAMS {
                additional_streams_info = Some(
                    StreamsInfo::try_read(&mut cursor, StreamsInfo::ADDITIONAL_STREAMS)?,
                );
                proof {
                    lemma_streams_info_advances(bytes, at, StreamsInfo::ADDITIONAL_STREAMS);
                }
            } else if next_byte == StreamsInfo::MAIN_STREAMS {
                main_streams_info = Some(
                    StreamsInfo::try_read(&mut cursor, StreamsInfo::MAIN_STREAMS)?,
                );
                proof {
                    lemma_streams_info_advances(bytes, at, StreamsInfo::MAIN_STREAMS);
                }
            } else if next_byte == FilesInfo::IDENT {
                files = Some(FilesInfo::try_read(&mut cursor)?);
            } else if next_byte == Self::ARCHIVE_PROPERTIES {
                return Err(ReadError::archive_properties());
            } else {
                return Err(ReadError::Invalid7z);
            }
        }
    }
}

/// Every folder of an unpack-info block that can be read keeps the folder
/// invariant.
pub proof fn lemma_unpack_info_invariant(bytes: Seq<u8>, pos: nat)
    ensures
        spec_unpack_info(bytes, pos) matches Ok((info, _)) ==> info.wf(),
{
    assert forall|at: nat, n: nat|
        (#[trigger] repeat(folder_item(bytes), at, n)) matches Ok((folders, _)) ==> (
        UnpackInfoView { folders }).wf() by {
        assert forall|i: int, p: nat|
            (#[trigger] folder_item(bytes)(i, p)) matches Ok((folder, _)) ==> folder.wf() by {
            lemma_folder_invariant(bytes, p);
        }
        lemma_repeat_all(folder_item(bytes), at, n, |folder: FolderInfoView| folder.wf());
    }
}

/// The blocks of a group of streams that can be read keep their invariants,
/// if those found before do.
pub proof fn lemma_streams_fields_invariant(bytes: Seq<u8>, pos: nat, found: StreamsInfoView)
    requires
        found.wf(),
    ensures
        spec_streams_fields(bytes, pos, found) matches Ok((info, _)) ==> info.wf(),
    decreases bytes.len() - pos,
{
    if let Ok((tag, after_tag)) = take_u8(bytes, pos) {
        if tag == PackInfo::IDENT {
            if let Ok((pack, next)) = spec_pack_info(bytes, pos) {
                lemma_pack_info_advances(bytes, pos);
                lemma_pack_info_invariant(bytes, pos);
                lemma_streams_fields_invariant(
                    bytes,
                    next,
                    StreamsInfoView { pack: Some(pack), ..found },
                );
            }
        } else if tag == UnpackInfo::IDENT {
            if let Ok((unpack, next)) = spec_unpack_info(bytes, pos) {
                lemma_unpack_info_advances(bytes, pos);
                lemma_unpack_info_invariant(bytes, pos);
                lemma_streams_fields_invariant(
                    bytes,
                    next,
                    StreamsInfoView { unpack: Some(unpack), ..found },
                );
            }
        }
    }
}

/// A group of streams that can be read keeps its invariants.
pub proof fn lemma_streams_info_invariant(bytes: Seq<u8>, pos: nat, ident: u8)
    ensures
        spec_streams_info(bytes, pos, ident) matches Ok((info, _)) ==> info.wf(),
{
    if let Ok((_, after_ident)) = expect_tag(bytes, pos, ident) {
        lemma_streams_fields_invariant(
            bytes,
            after_ident,
            StreamsInfoView { pack: None, unpack: None, substream: None },
        );
    }
}

/// The blocks of an archive header that can be read keep their invariants,
/// if those found before do.
pub proof fn lemma_main_fields_invariant(bytes: Seq<u8>, pos: nat, found: MainHeaderView)
    requires
        found.wf(),
    ensures
        spec_main_fields(bytes, pos, found) matches Ok((header, _)) ==> header.wf(),
    decreases bytes.len() - pos,
{
    if let Ok((tag, after_tag)) = take_u8(bytes, pos) {
        if tag == StreamsInfo::ADDITIONAL_STREAMS || tag == StreamsInfo::MAIN_STREAMS {
            if let Ok((streams, next)) = spec_streams_info(bytes, pos, tag) {
                lemma_streams_info_advances(bytes, pos, tag);
                lemma_streams_info_invariant(bytes, pos, tag);
                if tag == StreamsInfo::ADDITIONAL_STREAMS {
                    lemma_main_fields_invariant(
                        bytes,
                        next,
                        MainHeaderView { additional_streams_info: Some(streams), ..found },
                    );
                } else {
                    lemma_main_fields_invariant(
                        bytes,
                        next,
                        MainHeaderView { main_streams_info: Some(streams), ..found },
                    );
                }
            }
        }
    }
}

/// An archive header that can be read keeps its invariants: every folder in
/// it keeps the folder invariant.
pub proof fn lemma_main_header_invariant(bytes: Seq<u8>, pos: nat)
    ensures
        spec_main_header(bytes, pos) matches Ok((header, _)) ==> header.wf(),
{
    if let Ok((_, after_ident)) = expect_tag(bytes, pos, MainHeader::IDENT) {
        lemma_main_fields_invariant(
            bytes,
            after_ident,
            MainHeaderView { additional_streams_info: None, main_streams_info: None, files: None },
        );
    }
}

/// Archive properties among the blocks of an archive header are reported as
/// unsupported, whatever was read before them and whatever follows.
pub proof fn lemma_archive_properties_are_unsupported(
    bytes: Seq<u8>,
    pos: nat,
    found: MainHeaderView,
)
    requires
        pos < bytes.len(),
        bytes[pos as int] == MainHeader::ARCHIVE_PROPERTIES,
    ensures
        spec_main_fields(bytes, pos, found) == Err::<(MainHeaderView, nat), ReadFailure>(
            archive_properties_unsupported(),
        ),
{
}

/// A tag that an archive header does not know makes it invalid: nothing is
/// skipped.
pub proof fn lemma_unknown_tag_is_invalid(bytes: Seq<u8>, pos: nat, found: MainHeaderView)
    requires
        pos < bytes.len(),
        bytes[pos as int] > FilesInfo::IDENT,
    ensures
        spec_main_fields(bytes, pos, found) == Err::<(MainHeaderView, nat), ReadFailure>(
            ReadFailure::Invalid7z,
        ),
{
}

/// An unpack-info block that can be read holds as many folders as the count
/// behind its two tags says.
pub proof fn lemma_unpack_info_folder_count(bytes: Seq<u8>, pos: nat)
    ensures
        spec_unpack_info(bytes, pos) matches Ok((info, _)) ==> take_u64(bytes, pos + 2) matches Ok(
            (declared, _),
        ) && info.folders.len() == declared,
{
    if let Ok((declared, after_count)) = take_u64(bytes, pos + 2) {
        lemma_repeat_all(
            folder_item(bytes),
            after_count + 1,
            declared as nat,
            |folder: FolderInfoView| true,
        );
    }
}

} // verus!
