//! Opening an archive: the signature header, the checked header block, and
//! the header that the block holds.

use crate::checksum::{check_crc, checksum, crc32_iso_hdlc, spec_check_crc};
use crate::error::{ReadError, ReadFailure};
use crate::header::{
    lemma_main_header_invariant, lemma_streams_info_invariant, spec_encoded_header,
    spec_main_header, EncodedHeader, MainHeader, MainHeaderView, StreamsInfoView,
};
use crate::stream::{take_bytes, take_u32, take_u64, take_u8, ByteCursor, Parse};
use vstd::prelude::*;
use vstd::slice::slice_subrange;

verus! {

/// Where the header block lies, and the checksum that its bytes must have.
#[derive(Debug, Clone, Copy, PartialEq, Eq)]
pub struct HeaderLocation {
    /// The first byte of the block, counted from the start of the archive.
    pub offset: u64,
    /// The length of the block in bytes.
    pub size: u64,
    /// The checksum of the block.
    pub crc: u32,
}

/// How long the signature header is: the start of the archive up to the byte
/// from which the offset of the header block counts.
pub const SIGNATURE_HEADER_SIZE: u64 = 32;

/// The eight bytes that every archive starts with: the magic `7z BC AF 27 1C`
/// and the version `00 04`.
pub open spec fn signature() -> Seq<u8> {
    seq![0x37u8, 0x7Au8, 0xBCu8, 0xAFu8, 0x27u8, 0x1Cu8, 0x00u8, 0x04u8]
}

/// The location that the 20 bytes of a locator spell, given the checksum
/// `stored` before them and the checksum `actual` that they have: the offset
/// behind the signature header, the size, and the checksum of the header
/// block, each little-endian.
pub open spec fn spec_locator(locator: Seq<u8>, stored: u32, actual: u32) -> Result<
    HeaderLocation,
    ReadFailure,
> {
    match spec_check_crc(actual, stored) {
        Ok(_) => match take_u64(locator, 0) {
            Ok((relative, after_offset)) => match take_u64(locator, after_offset) {
                Ok((size, after_size)) => match take_u32(locator, after_size) {
                    Ok((crc, _)) => if relative + SIGNATURE_HEADER_SIZE > u64::MAX {
                        Err(ReadFailure::Invalid7z)
                    } else {
                        Ok(
                            HeaderLocation {
                                offset: (relative + SIGNATURE_HEADER_SIZE) as u64,
                                size,
                                crc,
                            },
                        )
                    },
                    Err(e) => Err(e),
                },
                Err(e) => Err(e),
            },
            Err(e) => Err(e),
        },
        Err(e) => Err(e),
    }
}

/// The location of the header block that the signature header at the start of
/// `bytes` gives.
pub open spec fn spec_signature_header(bytes: Seq<u8>) -> Result<HeaderLocation, ReadFailure> {
    match take_bytes(bytes, 0, 8) {
        Ok((start, after_start)) => if start != signature() {
            Err(ReadFailure::Invalid7z)
        } else {
            match take_u32(bytes, after_start) {
                Ok((stored, after_crc)) => match take_bytes(bytes, after_crc, 20) {
                    Ok((locator, _)) => spec_locator(locator, stored, crc32_iso_hdlc(locator)),
                    Err(e) => Err(e),
                },
                Err(e) => Err(e),
            }
        },
        Err(e) => Err(e),
    }
}

/// The bytes of the header block at `location`. A block of no bytes lies
/// nowhere, so its offset is not looked at.
pub open spec fn spec_block(bytes: Seq<u8>, location: HeaderLocation) -> Result<
    Seq<u8>,
    ReadFailure,
> {
    if location.size == 0 {
        Ok(Seq::empty())
    } else if location.offset + location.size <= bytes.len() {
        Ok(bytes.subrange(location.offset as int, location.offset + location.size))
    } else {
        Err(ReadFailure::Io)
    }
}

impl HeaderLocation {
    /// Decodes the 20 bytes of a locator, once their checksum `actual` has
    /// been computed: `stored` is the checksum that the archive holds for
    /// them.
    pub fn from_locator(locator: &[u8], stored: u32, actual: u32) -> (r: Result<Self, ReadError>)
        ensures
            match r {
                Ok(location) => spec_locator(locator@, stored, actual) == Ok::<
                    HeaderLocation,
                    ReadFailure,
                >(location),
                Err(e) => spec_locator(locator@, stored, actual) == Err::<
                    HeaderLocation,
                    ReadFailure,
                >(e@),
            },
    {
        check_crc(actual, stored)?;
        let mut fields = ByteCursor::new(locator);
        let relative = fields.read_u64_le()?;
        let size = fields.read_u64_le()?;
        let crc = fields.read_u32_le()?;
        match relative.checked_add(SIGNATURE_HEADER_SIZE) {
            Some(offset) => Ok(HeaderLocation { offset, size, crc }),
            None => Err(ReadError::Invalid7z),
        }
    }

    /// Reads the signature header from the start of `stream`, wherever the
    /// cursor stands: the magic and the version, the checksum of the locator,
    /// and the locator. The cursor ends behind the signature header; on
    /// failure it stays where it was.
    pub fn try_read(stream: &mut ByteCursor) -> (r: Result<Self, ReadError>)
        ensures
            final(stream)@.bytes == old(stream)@.bytes,
            match r {
                Ok(location) => spec_signature_header(old(stream)@.bytes) == Ok::<
                    HeaderLocation,
                    ReadFailure,
                >(location) && final(stream)@.pos == SIGNATURE_HEADER_SIZE,
                Err(e) => spec_signature_header(old(stream)@.bytes) == Err::<
                    HeaderLocation,
                    ReadFailure,
                >(e@) && final(stream)@ == old(stream)@,
            },
    {
        let mut cursor = *stream;
        cursor.rewind();
        let sig = cursor.read_exact(8)?;
        if sig[0] != 0x37 || sig[1] != 0x7A || sig[2] != 0xBC || sig[3] != 0xAF || sig[4] != 0x27
            || sig[5] != 0x1C || sig[6] != 0x00 || sig[7] != 0x04 {
            return Err(ReadError::Invalid7z);
        }
        proof {
            assert(sig@ =~= signature());
        }
        let stored = cursor.read_u32_le()?;
        let locator = cursor.read_exact(20)?;
        let location = Self::from_locator(locator, stored, checksum(locator))?;
        *stream = cursor;
        Ok(location)
    }

    /// The bytes of the header block within `bytes`.
    pub fn block<'a>(&self, bytes: &'a [u8]) -> (r: Result<&'a [u8], ReadError>)
        ensures
            match r {
                Ok(block) => spec_block(bytes@, *self) == Ok::<Seq<u8>, ReadFailure>(block@),
                Err(e) => spec_block(bytes@, *self) == Err::<Seq<u8>, ReadFailure>(e@),
            },
    {
        if self.size == 0 {
            let nothing = slice_subrange(bytes, 0, 0);
            proof {
                assert(nothing@ =~= Seq::empty());
            }
            return Ok(nothing);
        }
        let len = bytes.len() as u64;
        if self.offset > len || self.size > len - self.offset {
            return Err(ReadError::Io);
        }
        Ok(slice_subrange(bytes, self.offset as usize, (self.offset + self.size) as usize))
    }
}

/// The header that a header block holds.
#[derive(Debug, PartialEq, Eq)]
pub enum Header {
    /// The archive header itself.
    Main(MainHeader),
    /// The archive header is packed; this says how.
    Encoded(EncodedHeader),
}

/// The mathematical value of a [`Header`].
pub enum HeaderView {
    Main(MainHeaderView),
    Encoded(StreamsInfoView),
}

impl HeaderView {
    /// What holds of every header that was read: every folder in it keeps
    /// the folder invariant, and every pack-info block its own.
    pub open spec fn wf(self) -> bool {
        match self {
            HeaderView::Main(header) => header.wf(),
            HeaderView::Encoded(header) => header.wf(),
        }
    }
}

impl View for Header {
    type V = HeaderView;

    open spec fn view(&self) -> HeaderView {
        match self {
            Header::Main(header) => HeaderView::Main(header@),
            Header::Encoded(header) => HeaderView::Encoded(header@),
        }
    }
}

/// The header at `pos`, told by its first byte: an archive header, or an
/// encoded header.
pub open spec fn spec_find_header(bytes: Seq<u8>, pos: nat) -> Parse<HeaderView> {
    match take_u8(bytes, pos) {
        Ok((tag, _)) => if tag == MainHeader::IDENT {
            match spec_main_header(bytes, pos) {
                Ok((header, next)) => Ok((HeaderView::Main(header), next)),
                Err(e) => Err(e),
            }
        } else if tag == EncodedHeader::IDENT {
            match spec_encoded_header(bytes, pos) {
                Ok((header, next)) => Ok((HeaderView::Encoded(header), next)),
                Err(e) => Err(e),
            }
        } else {
            Err(ReadFailure::Invalid7z)
        },
        Err(e) => Err(e),
    }
}

/// The header of an archive without a header block: no streams, no files.
pub open spec fn empty_header() -> HeaderView {
    HeaderView::Main(
        MainHeaderView { additional_streams_info: None, main_streams_info: None, files: None },
    )
}

/// The header in the bytes `block` of a header block, given the checksum
/// `stored` for them and the checksum `actual` that they have. Not one byte of
/// the block counts unless the two agree. A block of no bytes is the header of
/// an empty archive.
pub open spec fn spec_header_block(block: Seq<u8>, stored: u32, actual: u32) -> Result<
    HeaderView,
    ReadFailure,
> {
    match spec_check_crc(actual, stored) {
        Ok(_) => if block.len() == 0 {
            Ok(empty_header())
        } else {
            match spec_find_header(block, 0) {
                Ok((header, _)) => Ok(header),
                Err(e) => Err(e),
            }
        },
        Err(e) => Err(e),
    }
}

/// The state of a [`Reader`].
pub struct ReaderView {
    pub location: HeaderLocation,
    pub header: HeaderView,
}

/// What reading the header block `block` that was fetched from `location`
/// comes to. A block that is not as long as the location says was cut short
/// by the end of the stream.
pub open spec fn spec_from_block(location: HeaderLocation, block: Seq<u8>) -> Result<
    ReaderView,
    ReadFailure,
> {
    if block.len() != location.size {
        Err(ReadFailure::Io)
    } else {
        match spec_header_block(block, location.crc, crc32_iso_hdlc(block)) {
            Ok(header) => Ok(ReaderView { location, header }),
            Err(e) => Err(e),
        }
    }
}

/// What opening the archive `bytes` comes to.
pub open spec fn spec_open(bytes: Seq<u8>) -> Result<ReaderView, ReadFailure> {
    match spec_signature_header(bytes) {
        Ok(location) => match spec_block(bytes, location) {
            Ok(block) => spec_from_block(location, block),
            Err(e) => Err(e),
        },
        Err(e) => Err(e),
    }
}

/// What handing the unpacked bytes `decoded` of an encoded header to a reader
/// comes to: they must hold an archive header, not a further encoded header.
/// A reader that holds an archive header already stays as it is.
pub open spec fn spec_decoded(reader: ReaderView, decoded: Seq<u8>) -> Result<
    ReaderView,
    ReadFailure,
> {
    match reader.header {
        HeaderView::Main(_) => Ok(reader),
        HeaderView::Encoded(_) => match spec_find_header(decoded, 0) {
            Ok((HeaderView::Main(header), _)) => Ok(
                ReaderView { location: reader.location, header: HeaderView::Main(header) },
            ),
            Ok((HeaderView::Encoded(_), _)) => Err(ReadFailure::Invalid7z),
            Err(e) => Err(e),
        },
    }
}

/// An archive whose header block has been found, checked and read.
#[derive(Debug, PartialEq, Eq)]
pub struct Reader {
    location: HeaderLocation,
    header: Header,
}

impl View for Reader {
    type V = ReaderView;

    closed spec fn view(&self) -> ReaderView {
        ReaderView { location: self.location, header: self.header@ }
    }
}

impl Reader {
    /// What holds of every reader: its header keeps its invariants.
    #[verifier::type_invariant]
    pub open spec fn holds_sound_header(self) -> bool {
        self@.header.wf()
    }

    /// Opens the archive in `stream`: checks the signature header, finds the
    /// header block, checks its checksum and reads the header in it.
    pub fn new(stream: &[u8]) -> (r: Result<Self, ReadError>)
        ensures
            match r {
                Ok(reader) => spec_open(stream@) == Ok::<ReaderView, ReadFailure>(reader@),
                Err(e) => spec_open(stream@) == Err::<ReaderView, ReadFailure>(e@),
            },
    {
        let mut cursor = ByteCursor::new(stream);
        let location = HeaderLocation::try_read(&mut cursor)?;
        let block = location.block(stream)?;
        Self::from_block(location, block)
    }

    /// Reads the header block `block` that was fetched from `location`: checks
    /// its length and its checksum, then reads the header in it.
    pub fn from_block(location: HeaderLocation, block: &[u8]) -> (r: Result<Self, ReadError>)
        ensures
            match r {
                Ok(reader) => spec_from_block(location, block@) == Ok::<ReaderView, ReadFailure>(
                    reader@,
                ),
                Err(e) => spec_from_block(location, block@) == Err::<ReaderView, ReadFailure>(e@),
            },
    {
        if block.len() as u64 != location.size {
            return Err(ReadError::Io);
        }
        let header = Self::read_header_block(block, location.crc, checksum(block))?;
        Ok(Reader { location, header })
    }

    /// Reads the header in the bytes `block` of a header block, once their
    /// checksum `actual` has been computed: `stored` is the checksum that the
    /// archive holds for them.
    pub fn read_header_block(block: &[u8], stored: u32, actual: u32) -> (r: Result<
        Header,
        ReadError,
    >)
        ensures
            match r {
                Ok(header) => spec_header_block(block@, stored, actual) == Ok::<
                    HeaderView,
                    ReadFailure,
                >(header@) && header@.wf(),
                Err(e) => spec_header_block(block@, stored, actual) == Err::<
                    HeaderView,
                    ReadFailure,
                >(e@),
            },
    {
        check_crc(actual, stored)?;
        if block.len() == 0 {
            return Ok(
                Header::Main(
                    MainHeader {
                        additional_streams_info: None,
                        main_streams_info: None,
                        files: None,
                    },
                ),
            );
        }
        let mut cursor = ByteCursor::new(block);
        Self::find_header(&mut cursor)
    }

    /// Reads the header at the cursor, which its first byte tells to be an
    /// archive header or an encoded header. On failure the cursor stays where
    /// it was.
    pub fn find_header(stream: &mut ByteCursor) -> (r: Result<Header, ReadError>)
        ensures
            final(stream)@.bytes == old(stream)@.bytes,
            match r {
                Ok(header) => spec_find_header(old(stream)@.bytes, old(stream)@.pos) == Ok::<
                    (HeaderView, nat),
                    ReadFailure,
                >((header@, final(stream)@.pos)) && header@.wf(),
                Err(e) => spec_find_header(old(stream)@.bytes, old(stream)@.pos) == Err::<
                    (HeaderView, nat),
                    ReadFailure,
                >(e@) && final(stream)@ == old(stream)@,
            },
    {
        let tag = stream.peek_u8()?;
        if tag == MainHeader::IDENT {
            Ok(Header::Main(MainHeader::try_read(stream)?))
        } else if tag == EncodedHeader::IDENT {
            Ok(Header::Encoded(EncodedHeader::try_read(stream)?))
        } else {
            Err(ReadError::Invalid7z)
        }
    }

    /// Takes the unpacked bytes of an encoded header and reads the archive
    /// header in them. A second encoded header in them is refused. A reader
    /// that holds an archive header already is handed back as it is.
    pub fn decoded(self, decoded: &[u8]) -> (r: Result<Self, ReadError>)
        ensures
            match r {
                Ok(reader) => spec_decoded(self@, decoded@) == Ok::<ReaderView, ReadFailure>(
                    reader@,
                ),
                Err(e) => spec_decoded(self@, decoded@) == Err::<ReaderView, ReadFailure>(e@),
            },
    {
        proof {
            use_type_invariant(&self);
        }
        match self.header {
            Header::Main(_) => Ok(self),
            Header::Encoded(_) => {
                let mut cursor = ByteCursor::new(decoded);
                match Self::find_header(&mut cursor)? {
                    Header::Main(header) => Ok(
                        Reader { location: self.location, header: Header::Main(header) },
                    ),
                    Header::Encoded(_) => Err(ReadError::Invalid7z),
                }
            },
        }
    }

    /// Where the header block lies.
    pub fn location(&self) -> (r: HeaderLocation)
        ensures
            r == self@.location,
    {
        self.location
    }

    /// The header that was read.
    pub fn header(&self) -> (r: &Header)
        ensures
            r@ == self@.header,
            r@.wf(),
    {
        proof {
            use_type_invariant(self);
        }
        &self.header
    }
}

/// The checksum gate of the header block: where the checksum of the block is
/// not the one that the archive stores for it, the block is refused as
/// corrupt, whatever it holds.
pub proof fn lemma_header_block_gate(block: Seq<u8>, stored: u32, actual: u32)
    requires
        actual != stored,
    ensures
        spec_header_block(block, stored, actual) == Err::<HeaderView, ReadFailure>(
            ReadFailure::CrcInvalid,
        ),
{
}

/// The checksum gate of the locator: where the checksum of the locator is not
/// the one that the archive stores for it, the locator is refused as corrupt,
/// whatever it holds.
pub proof fn lemma_locator_gate(locator: Seq<u8>, stored: u32, actual: u32)
    requires
        actual != stored,
    ensures
        spec_locator(locator, stored, actual) == Err::<HeaderLocation, ReadFailure>(
            ReadFailure::CrcInvalid,
        ),
{
}

/// An archive whose signature header is sound, but whose header block does
/// not have the checksum that the locator gives for it, opens as corrupt and
/// in no other way.
pub proof fn lemma_corrupt_block_is_refused(bytes: Seq<u8>, location: HeaderLocation)
    requires
        spec_signature_header(bytes) == Ok::<HeaderLocation, ReadFailure>(location),
        spec_block(bytes, location) matches Ok(block) && crc32_iso_hdlc(block) != location.crc,
    ensures
        spec_open(bytes) == Err::<ReaderView, ReadFailure>(ReadFailure::CrcInvalid),
{
    lemma_block_has_its_size(bytes, location);
}

/// The header block that is cut out of an archive is as long as its location
/// says.
pub proof fn lemma_block_has_its_size(bytes: Seq<u8>, location: HeaderLocation)
    ensures
        spec_block(bytes, location) matches Ok(block) ==> block.len() == location.size,
{
}

/// An archive with a header block of no bytes opens as an archive without
/// streams and without files, where the checksums are right.
pub proof fn lemma_empty_archive(bytes: Seq<u8>, location: HeaderLocation)
    requires
        spec_signature_header(bytes) == Ok::<HeaderLocation, ReadFailure>(location),
        location.size == 0,
        location.crc == crc32_iso_hdlc(Seq::empty()),
    ensures
        spec_open(bytes) == Ok::<ReaderView, ReadFailure>(
            ReaderView { location, header: empty_header() },
        ),
{
}

/// Every header that can be read keeps its invariants.
pub proof fn lemma_find_header_invariant(bytes: Seq<u8>, pos: nat)
    ensures
        spec_find_header(bytes, pos) matches Ok((header, _)) ==> header.wf(),
{
    lemma_main_header_invariant(bytes, pos);
    lemma_streams_info_invariant(bytes, pos, EncodedHeader::IDENT);
}

/// Every archive that opens has a header that keeps its invariants: each
/// folder in it keeps the folder invariant.
pub proof fn lemma_open_invariant(bytes: Seq<u8>)
    ensures
        spec_open(bytes) matches Ok(reader) ==> reader.header.wf(),
{
    if let Ok(location) = spec_signature_header(bytes) {
        if let Ok(block) = spec_block(bytes, location) {
            lemma_find_header_invariant(block, 0);
        }
    }
}

/// Handing unpacked bytes to a reader keeps the invariants of its header.
pub proof fn lemma_decoded_invariant(reader: ReaderView, decoded: Seq<u8>)
    requires
        reader.header.wf(),
    ensures
        spec_decoded(reader, decoded) matches Ok(resumed) ==> resumed.header.wf(),
{
    lemma_find_header_invariant(decoded, 0);
}

/// Unpacked bytes are looked into once and no deeper: a reader that was
/// handed the unpacked bytes of its encoded header holds an archive header.
pub proof fn lemma_decoded_ends_the_nesting(reader: ReaderView, decoded: Seq<u8>)
    requires
        reader.header is Encoded,
    ensures
        spec_decoded(reader, decoded) matches Ok(resumed) ==> resumed.header is Main
            && resumed.location == reader.location,
{
}

} // verus!
