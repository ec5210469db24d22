//! A forward cursor over the bytes of an archive, and the little-endian
//! integers read through it.

use crate::error::{ReadError, ReadFailure};
use byteorder::ByteOrder;
use vstd::arithmetic::div_mod::lemma_mod_breakdown;
use vstd::arithmetic::power2::{lemma2_to64, lemma_pow2_adds, lemma_pow2_pos, pow2};
use vstd::prelude::*;
use vstd::slice::slice_subrange;

verus! {

/// What a parser yields at the level of mathematics: the value together with
/// the position that follows it, or the reason for failing.
pub type Parse<T> = Result<(T, nat), ReadFailure>;

/// The number that `bytes` spell in little-endian order: the first byte is the
/// least significant.
pub open spec fn le_value(bytes: Seq<u8>) -> nat
    decreases bytes.len(),
{
    if bytes.len() == 0 {
        0
    } else {
        bytes[0] as nat + 256 * le_value(bytes.drop_first())
    }
}

/// A little-endian number of `n` bytes is below `2^(8n)`.
pub proof fn lemma_le_value_bound(bytes: Seq<u8>)
    ensures
        le_value(bytes) < pow2(8 * bytes.len()),
    decreases bytes.len(),
{
    lemma2_to64();
    if bytes.len() > 0 {
        let rest = bytes.drop_first();
        lemma_le_value_bound(rest);
        lemma_pow2_adds(8, 8 * rest.len());
        assert(8 + 8 * rest.len() == 8 * bytes.len());
        assert(256 * le_value(rest) + 256 <= 256 * pow2(8 * rest.len())) by (nonlinear_arith)
            requires
                le_value(rest) < pow2(8 * rest.len()),
        ;
    }
}

/// The `n` low bytes of `v`, least significant first.
pub open spec fn le_bytes(v: nat, n: nat) -> Seq<u8>
    decreases n,
{
    if n == 0 {
        Seq::empty()
    } else {
        seq![(v % 256) as u8] + le_bytes(v / 256, (n - 1) as nat)
    }
}

/// Spelling a number in `n` little-endian bytes and reading them back gives
/// the number again, as far as `n` bytes can hold it.
pub proof fn lemma_le_value_of_le_bytes(v: nat, n: nat)
    ensures
        le_bytes(v, n).len() == n,
        le_value(le_bytes(v, n)) == v % pow2(8 * n),
    decreases n,
{
    lemma2_to64();
    if n > 0 {
        let rest = le_bytes(v / 256, (n - 1) as nat);
        lemma_le_value_of_le_bytes(v / 256, (n - 1) as nat);
        assert(le_bytes(v, n).drop_first() =~= rest);
        lemma_pow2_adds(8, 8 * (n - 1) as nat);
        assert(8 + 8 * (n - 1) == 8 * n);
        lemma_pow2_pos(8 * (n - 1) as nat);
        lemma_mod_breakdown(v as int, 256, pow2(8 * (n - 1) as nat) as int);
    }
}

/// One byte at `pos`.
pub open spec fn take_u8(bytes: Seq<u8>, pos: nat) -> Parse<u8> {
    if pos < bytes.len() {
        Ok((bytes[pos as int], pos + 1))
    } else {
        Err(ReadFailure::Io)
    }
}

/// The `n` bytes that start at `pos`.
pub open spec fn take_bytes(bytes: Seq<u8>, pos: nat, n: nat) -> Parse<Seq<u8>> {
    if pos + n <= bytes.len() {
        Ok((bytes.subrange(pos as int, (pos + n) as int), pos + n))
    } else {
        Err(ReadFailure::Io)
    }
}

/// The little-endian number held in the `n` bytes that start at `pos`.
pub open spec fn take_uint(bytes: Seq<u8>, pos: nat, n: nat) -> Parse<nat> {
    match take_bytes(bytes, pos, n) {
        Ok((part, next)) => Ok((le_value(part), next)),
        Err(e) => Err(e),
    }
}

/// A little-endian `u32` at `pos`.
pub open spec fn take_u32(bytes: Seq<u8>, pos: nat) -> Parse<u32> {
    match take_uint(bytes, pos, 4) {
        Ok((v, next)) => Ok((v as u32, next)),
        Err(e) => Err(e),
    }
}

/// A little-endian `u64` at `pos`.
pub open spec fn take_u64(bytes: Seq<u8>, pos: nat) -> Parse<u64> {
    match take_uint(bytes, pos, 8) {
        Ok((v, next)) => Ok((v as u64, next)),
        Err(e) => Err(e),
    }
}

/// The byte at `pos`, which has to be `tag`.
pub open spec fn expect_tag(bytes: Seq<u8>, pos: nat, tag: u8) -> Parse<()> {
    match take_u8(bytes, pos) {
        Ok((found, next)) => if found == tag {
            Ok(((), next))
        } else {
            Err(ReadFailure::Invalid7z)
        },
        Err(e) => Err(e),
    }
}

/// `n` items in a row, starting at `pos`. `item(i, p)` is item `i` read at
/// position `p`. The first item that fails decides the failure.
pub open spec fn repeat<T>(item: spec_fn(int, nat) -> Parse<T>, pos: nat, n: nat) -> Parse<Seq<T>>
    decreases n,
{
    if n == 0 {
        Ok((Seq::empty(), pos))
    } else {
        match repeat(item, pos, (n - 1) as nat) {
            Ok((items, at)) => match item(n - 1, at) {
                Ok((value, next)) => Ok((items.push(value), next)),
                Err(e) => Err(e),
            },
            Err(e) => Err(e),
        }
    }
}

/// Once a prefix of a row of items has failed, every longer row fails in the
/// same way.
pub proof fn lemma_repeat_failure_stays<T>(
    item: spec_fn(int, nat) -> Parse<T>,
    pos: nat,
    failed: nat,
    n: nat,
)
    requires
        repeat(item, pos, failed) is Err,
        failed <= n,
    ensures
        repeat(item, pos, n) == repeat(item, pos, failed),
    decreases n,
{
    if failed < n {
        lemma_repeat_failure_stays(item, pos, failed, (n - 1) as nat);
    }
}

/// A row of items that was read holds one value for each item.
pub proof fn lemma_repeat_len<T>(item: spec_fn(int, nat) -> Parse<T>, pos: nat, n: nat)
    ensures
        repeat(item, pos, n) matches Ok((items, _)) ==> items.len() == n,
    decreases n,
{
    if n > 0 {
        lemma_repeat_len(item, pos, (n - 1) as nat);
    }
}

/// What holds of every item that can be read holds of every item of a row
/// that was read.
pub proof fn lemma_repeat_all<T>(
    item: spec_fn(int, nat) -> Parse<T>,
    pos: nat,
    n: nat,
    good: spec_fn(T) -> bool,
)
    requires
        forall|i: int, at: nat| (#[trigger] item(i, at)) matches Ok((value, _)) ==> good(value),
    ensures
        repeat(item, pos, n) matches Ok((items, _)) ==> items.len() == n && forall|k: int|
            0 <= k < n ==> good(#[trigger] items[k]),
    decreases n,
{
    if n > 0 {
        lemma_repeat_all(item, pos, (n - 1) as nat, good);
    }
}

/// Whether a parse that started at `pos` in a run of `len` bytes ended, if it
/// succeeded, at or behind `pos` and within the run.
pub open spec fn advances<T>(r: Parse<T>, len: nat, pos: nat) -> bool {
    r matches Ok((_, next)) ==> pos <= next <= len
}

/// A row of items ends at or behind its start, if each item does.
pub proof fn lemma_repeat_advances<T>(
    item: spec_fn(int, nat) -> Parse<T>,
    len: nat,
    pos: nat,
    n: nat,
)
    requires
        pos <= len,
        forall|i: int, at: nat| at <= len ==> advances(#[trigger] item(i, at), len, at),
    ensures
        advances(repeat(item, pos, n), len, pos),
    decreases n,
{
    if n > 0 {
        lemma_repeat_advances(item, len, pos, (n - 1) as nat);
    }
}

/// `byteorder::LittleEndian::read_u32`: the four bytes of `buf`, read as a
/// little-endian number. The call panics on a shorter buffer, so exactly four
/// bytes are asked for.
#[verifier::external_body]
fn le_read_u32(buf: &[u8]) -> (r: u32)
    requires
        buf@.len() == 4,
    ensures
        r as nat == le_value(buf@),
{
    byteorder::LittleEndian::read_u32(buf)
}

/// `byteorder::LittleEndian::read_u64`: the eight bytes of `buf`, read as a
/// little-endian number. The call panics on a shorter buffer, so exactly eight
/// bytes are asked for.
#[verifier::external_body]
fn le_read_u64(buf: &[u8]) -> (r: u64)
    requires
        buf@.len() == 8,
    ensures
        r as nat == le_value(buf@),
{
    byteorder::LittleEndian::read_u64(buf)
}

/// `byteorder::LittleEndian::read_uint`: the bytes of `buf`, one to eight of
/// them, read as a little-endian number. The call panics on a count outside
/// one to eight and on a buffer shorter than the count.
#[verifier::external_body]
fn le_read_uint(buf: &[u8]) -> (r: u64)
    requires
        1 <= buf@.len() <= 8,
    ensures
        r as nat == le_value(buf@),
{
    byteorder::LittleEndian::read_uint(buf, buf.len())
}

/// The state of a [`ByteCursor`]: all the bytes, and how many lie behind it.
pub struct CursorView {
    pub bytes: Seq<u8>,
    pub pos: nat,
}

/// A cursor over a borrowed run of bytes. It only moves forward on a read, and
/// never past the end. A read through one of its methods that fails leaves it
/// where it was.
#[derive(Clone, Copy)]
pub struct ByteCursor<'a> {
    data: &'a [u8],
    pos: usize,
}

impl<'a> View for ByteCursor<'a> {
    type V = CursorView;

    closed spec fn view(&self) -> CursorView {
        CursorView { bytes: self.data@, pos: self.pos as nat }
    }
}

impl<'a> ByteCursor<'a> {
    /// What holds of every cursor: it lies within its bytes.
    #[verifier::type_invariant]
    pub open spec fn in_bounds(self) -> bool {
        self@.pos <= self@.bytes.len()
    }

    /// A cursor at the start of `data`.
    pub fn new(data: &'a [u8]) -> (r: Self)
        ensures
            r@.bytes == data@,
            r@.pos == 0,
    {
        ByteCursor { data, pos: 0 }
    }

    /// How many bytes lie behind the cursor.
    pub fn position(&self) -> (r: usize)
        ensures
            r == self@.pos,
    {
        proof {
            use_type_invariant(self);
        }
        self.pos
    }

    /// How many bytes there are in all.
    pub fn len(&self) -> (r: usize)
        ensures
            r == self@.bytes.len(),
    {
        self.data.len()
    }

    /// How many bytes lie ahead of the cursor.
    pub fn remaining(&self) -> (r: usize)
        ensures
            r == self@.bytes.len() - self@.pos,
    {
        proof {
            use_type_invariant(self);
        }
        self.data.len() - self.pos
    }

    /// Moves the cursor back to the first byte.
    pub fn rewind(&mut self)
        ensures
            final(self)@.bytes == old(self)@.bytes,
            final(self)@.pos == 0,
    {
        self.pos = 0;
    }

    /// The next byte, without moving.
    pub fn peek_u8(&self) -> (r: Result<u8, ReadError>)
        ensures
            match r {
                Ok(b) => take_u8(self@.bytes, self@.pos) == Ok::<(u8, nat), ReadFailure>(
                    (b, self@.pos + 1),
                ),
                Err(e) => take_u8(self@.bytes, self@.pos) == Err::<(u8, nat), ReadFailure>(e@),
            },
    {
        proof {
            use_type_invariant(self);
        }
        if self.pos < self.data.len() {
            Ok(self.data[self.pos])
        } else {
            Err(ReadError::Io)
        }
    }

    /// Reads one byte.
    pub fn read_u8(&mut self) -> (r: Result<u8, ReadError>)
        ensures
            final(self)@.bytes == old(self)@.bytes,
            match r {
                Ok(b) => take_u8(old(self)@.bytes, old(self)@.pos) == Ok::<(u8, nat), ReadFailure>(
                    (b, final(self)@.pos),
                ),
                Err(e) => take_u8(old(self)@.bytes, old(self)@.pos) == Err::<
                    (u8, nat),
                    ReadFailure,
                >(e@) && final(self)@.pos == old(self)@.pos,
            },
    {
        proof {
            use_type_invariant(&*self);
        }
        if self.pos < self.data.len() {
            let b = self.data[self.pos];
            self.pos = self.pos + 1;
            Ok(b)
        } else {
            Err(ReadError::Io)
        }
    }

    /// Reads `n` bytes and hands them out as a slice of the underlying data.
    pub fn read_exact(&mut self, n: usize) -> (r: Result<&'a [u8], ReadError>)
        ensures
            final(self)@.bytes == old(self)@.bytes,
            match r {
                Ok(part) => take_bytes(old(self)@.bytes, old(self)@.pos, n as nat) == Ok::<
                    (Seq<u8>, nat),
                    ReadFailure,
                >((part@, final(self)@.pos)),
                Err(e) => take_bytes(old(self)@.bytes, old(self)@.pos, n as nat) == Err::<
                    (Seq<u8>, nat),
                    ReadFailure,
                >(e@) && final(self)@.pos == old(self)@.pos,
            },
    {
        proof {
            use_type_invariant(&*self);
        }
        if n <= self.data.len() - self.pos {
            let part = slice_subrange(self.data, self.pos, self.pos + n);
            self.pos = self.pos + n;
            Ok(part)
        } else {
            Err(ReadError::Io)
        }
    }

    /// Reads a little-endian `u32`.
    pub fn read_u32_le(&mut self) -> (r: Result<u32, ReadError>)
        ensures
            final(self)@.bytes == old(self)@.bytes,
            match r {
                Ok(v) => take_u32(old(self)@.bytes, old(self)@.pos) == Ok::<
                    (u32, nat),
                    ReadFailure,
                >((v, final(self)@.pos)),
                Err(e) => take_u32(old(self)@.bytes, old(self)@.pos) == Err::<
                    (u32, nat),
                    ReadFailure,
                >(e@) && final(self)@.pos == old(self)@.pos,
            },
    {
        match self.read_exact(4) {
            Ok(part) => Ok(le_read_u32(part)),
            Err(e) => Err(e),
        }
    }

    /// Reads a little-endian `u64`.
    pub fn read_u64_le(&mut self) -> (r: Result<u64, ReadError>)
        ensures
            final(self)@.bytes == old(self)@.bytes,
            match r {
                Ok(v) => take_u64(old(self)@.bytes, old(self)@.pos) == Ok::<
                    (u64, nat),
                    ReadFailure,
                >((v, final(self)@.pos)),
                Err(e) => take_u64(old(self)@.bytes, old(self)@.pos) == Err::<
                    (u64, nat),
                    ReadFailure,
                >(e@) && final(self)@.pos == old(self)@.pos,
            },
    {
        match self.read_exact(8) {
            Ok(part) => Ok(le_read_u64(part)),
            Err(e) => Err(e),
        }
    }

    /// Reads a little-endian number of `nbytes` bytes, one to eight.
    pub fn read_uint_le(&mut self, nbytes: usize) -> (r: Result<u64, ReadError>)
        requires
            1 <= nbytes <= 8,
        ensures
            final(self)@.bytes == old(self)@.bytes,
            match r {
                Ok(v) => take_uint(old(self)@.bytes, old(self)@.pos, nbytes as nat) == Ok::<
                    (nat, nat),
                    ReadFailure,
                >((v as nat, final(self)@.pos)),
                Err(e) => take_uint(old(self)@.bytes, old(self)@.pos, nbytes as nat) == Err::<
                    (nat, nat),
                    ReadFailure,
                >(e@) && final(self)@.pos == old(self)@.pos,
            },
    {
        match self.read_exact(nbytes) {
            Ok(part) => Ok(le_read_uint(part)),
            Err(e) => Err(e),
        }
    }
}

/// The tag that ends a block.
pub const END: u8 = 0x00;

/// Where a cursor stands once the byte at `pos` has been read: one byte on,
/// or still at `pos` where the bytes have ended.
pub open spec fn behind_tag(bytes: Seq<u8>, pos: nat) -> nat {
    if pos < bytes.len() {
        pos + 1
    } else {
        pos
    }
}

/// Reads the next byte and checks that it is `ident`. The byte is consumed
/// whether it is `ident` or not; only where the bytes have ended does the
/// cursor stay.
pub fn verify_ident(reader: &mut ByteCursor, ident: u8) -> (r: Result<(), ReadError>)
    ensures
        final(reader)@.bytes == old(reader)@.bytes,
        final(reader)@.pos == behind_tag(old(reader)@.bytes, old(reader)@.pos),
        match r {
            Ok(_) => expect_tag(old(reader)@.bytes, old(reader)@.pos, ident) == Ok::<
                ((), nat),
                ReadFailure,
            >(((), final(reader)@.pos)),
            Err(e) => expect_tag(old(reader)@.bytes, old(reader)@.pos, ident) == Err::<
                ((), nat),
                ReadFailure,
            >(e@),
        },
{
    if reader.read_u8()? != ident {
        return Err(ReadError::Invalid7z);
    }
    Ok(())
}

} // verus!
