//! Read-only decoding of the metadata layer of 7z archives.
//!
//! The crate turns the bytes of an archive into a description of how its
//! packed payload is organised: where the header block lies, which packed
//! streams exist, and which coder pipeline decodes each folder. It never
//! decompresses anything, and it never touches a file: it works on bytes in
//! memory, which the caller fetches.
//!
//! # Modules
//!
//! - [`stream`]: a cursor over bytes, little-endian integers, and the tags
//!   that open and close blocks.
//! - [`types`]: the codec table and the archive's variable-length integers.
//! - [`bits`]: packed vectors of booleans.
//! - [`checksum`]: the CRC-32 that guards the signature header and the
//!   header block.
//! - [`pack`], [`folder`], [`header`]: the blocks of a header.
//! - [`reader`]: the signature header, the header block, and the archive as
//!   a whole.
//! - [`error`]: the ways in which reading fails.
//!
//! # What is proved
//!
//! Every reader comes with a function of mathematics that says, for every
//! run of bytes and every position, what the reader yields there or how it
//! fails, and the reader is proved to do exactly that. The contract of each
//! reader also says where its cursor stands afterwards: a reader of a number,
//! of a vector or of a whole block that fails leaves the cursor where it was,
//! while [`stream::verify_ident`] and the two readers that get no further
//! than a tag consume the byte they looked at. No reader panics, overflows,
//! or reads outside the bytes it was given.
//!
//! Beyond that the crate proves, among others, that decoding a
//! variable-length integer undoes its encoding, that unpacking a vector of
//! booleans undoes its packing, that a header block whose checksum is not
//! the stored one is refused before a byte of it is interpreted, and that
//! every folder in every header that was read has stream counts that add up.
//!
//! # What is taken on trust
//!
//! Six functions call other crates, and Verus believes what is written
//! above them: three readers of little-endian integers (`byteorder`), two
//! readers of bits (`bitfield`), and the checksum (`crc`). The contracts of
//! the first five say exactly which number comes back. The checksum is only
//! given a name, [`checksum::crc32_iso_hdlc`]: that it tells damaged bytes
//! from sound ones is a property of CRC-32 which is not proved here.

pub mod bits;
pub mod checksum;
pub mod error;
pub mod folder;
pub mod header;
pub mod pack;
pub mod reader;
pub mod stream;
pub mod types;
