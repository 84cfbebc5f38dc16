//! Byte order of the numbers on the wire, and the calls into the `byte` crate
//! that read and write them.
//!
//! Every multi-byte field of a record or a topic is a fixed-width integer (a
//! float travels as its IEEE-754 bit pattern).  The model of such a field is
//! [`le_bytes`] or [`be_bytes`]; a buffer with a field written into it is
//! [`splice`].

use byte::BytesExt;
use vstd::prelude::*;

verus! {

/// The `n` low-order bytes of `v`, least significant first.
pub open spec fn le_bytes(v: nat, n: nat) -> Seq<u8>
    decreases n,
{
    if n == 0 {
        Seq::empty()
    } else {
        seq![(v % 256) as u8] + le_bytes(v / 256, (n - 1) as nat)
    }
}

/// The `n` low-order bytes of `v`, most significant first.
pub open spec fn be_bytes(v: nat, n: nat) -> Seq<u8>
    decreases n,
{
    if n == 0 {
        Seq::empty()
    } else {
        be_bytes(v / 256, (n - 1) as nat).push((v % 256) as u8)
    }
}

/// The number that `s` spells, least significant byte first.
pub open spec fn le_value(s: Seq<u8>) -> nat
    decreases s.len(),
{
    if s.len() == 0 {
        0
    } else {
        s[0] as nat + 256 * le_value(s.drop_first())
    }
}

/// The number that `s` spells, most significant byte first.
pub open spec fn be_value(s: Seq<u8>) -> nat
    decreases s.len(),
{
    if s.len() == 0 {
        0
    } else {
        256 * be_value(s.drop_last()) + s.last() as nat
    }
}

/// `256^n`, the number of values that `n` bytes can spell.
pub open spec fn radix(n: nat) -> nat
    decreases n,
{
    if n == 0 {
        1
    } else {
        256 * radix((n - 1) as nat)
    }
}

/// The two's-complement reading of an `n`-byte unsigned value.
pub open spec fn twos_complement(v: nat, n: nat) -> int {
    if 2 * v < radix(n) {
        v as int
    } else {
        v - radix(n)
    }
}

/// `s` with `bytes` written over the positions `at .. at + bytes.len()`.
pub open spec fn splice(s: Seq<u8>, at: int, bytes: Seq<u8>) -> Seq<u8>
    recommends
        0 <= at,
        at + bytes.len() <= s.len(),
{
    s.subrange(0, at) + bytes + s.subrange(at + bytes.len(), s.len() as int)
}

/// Whether `width` bytes lie inside a buffer of `len` bytes from `offset` on.
pub open spec fn fits(len: nat, offset: nat, width: nat) -> bool {
    offset + width <= len
}

/// An encoding of `n` bytes has `n` bytes.
pub proof fn lemma_le_bytes_len(v: nat, n: nat)
    ensures
        le_bytes(v, n).len() == n,
    decreases n,
{
    if n > 0 {
        lemma_le_bytes_len(v / 256, (n - 1) as nat);
    }
}

/// An encoding of `n` bytes has `n` bytes.
pub proof fn lemma_be_bytes_len(v: nat, n: nat)
    ensures
        be_bytes(v, n).len() == n,
    decreases n,
{
    if n > 0 {
        lemma_be_bytes_len(v / 256, (n - 1) as nat);
    }
}

/// Reading back what was written gives the number, as far as `n` bytes hold it.
pub proof fn lemma_le_round_trip(v: nat, n: nat)
    ensures
        le_value(le_bytes(v, n)) == v % radix(n),
    decreases n,
{
    if n > 0 {
        let rest = le_bytes(v / 256, (n - 1) as nat);
        let all = le_bytes(v, n);
        lemma_le_round_trip(v / 256, (n - 1) as nat);
        lemma_le_bytes_len(v, n);
        assert(all.drop_first() =~= rest);
        assert(all[0] == (v % 256) as u8);
        lemma_radix_split(v, (n - 1) as nat);
    }
}

/// Reading back what was written gives the number, as far as `n` bytes hold it.
pub proof fn lemma_be_round_trip(v: nat, n: nat)
    ensures
        be_value(be_bytes(v, n)) == v % radix(n),
    decreases n,
{
    if n > 0 {
        let rest = be_bytes(v / 256, (n - 1) as nat);
        let all = be_bytes(v, n);
        lemma_be_round_trip(v / 256, (n - 1) as nat);
        lemma_be_bytes_len(v, n);
        assert(all.drop_last() =~= rest);
        assert(all.last() == (v % 256) as u8);
        lemma_radix_split(v, (n - 1) as nat);
    }
}

/// The low byte and the rest of a number, taken apart modulo a power of 256.
proof fn lemma_radix_split(v: nat, n: nat)
    ensures
        v % (256 * radix(n)) == v % 256 + 256 * ((v / 256) % radix(n)),
{
    lemma_radix_positive(n);
    let r = radix(n) as int;
    let q = (v / 256) as int;
    let lo = (v % 256) as int;
    assert(v == 256 * q + lo);
    let qq = q / r;
    let qr = q % r;
    assert(q == r * qq + qr) by {
        vstd::arithmetic::div_mod::lemma_fundamental_div_mod(q, r);
    }
    assert(0 <= qr < r) by {
        vstd::arithmetic::div_mod::lemma_mod_pos_bound(q, r);
    }
    assert(v == (256 * r) * qq + (256 * qr + lo)) by (nonlinear_arith)
        requires
            v == 256 * q + lo,
            q == r * qq + qr,
    ;
    assert(0 <= 256 * qr + lo < 256 * r) by (nonlinear_arith)
        requires
            0 <= qr < r,
            0 <= lo < 256,
    ;
    vstd::arithmetic::div_mod::lemma_fundamental_div_mod_converse(
        v as int,
        256 * r,
        qq,
        256 * qr + lo,
    );
}

/// A power of 256 is at least one.
pub proof fn lemma_radix_positive(n: nat)
    ensures
        radix(n) >= 1,
    decreases n,
{
    if n > 0 {
        lemma_radix_positive((n - 1) as nat);
    }
}

/// Why a read or a write of a number did not take place.
#[derive(Clone, Copy, Debug, PartialEq, Eq, Structural)]
pub enum ByteError {
    /// The buffer ends before the number does.
    Incomplete,
    /// The offset lies behind the end of the buffer.
    BadOffset(usize),
    /// The bytes do not spell a value of the type.
    BadInput,
}

/// The error that a buffer of `len` bytes gives for a field that does not fit
/// at `offset`.
pub open spec fn refusal(len: nat, offset: usize) -> ByteError {
    if offset > len {
        ByteError::BadOffset(offset)
    } else {
        ByteError::Incomplete
    }
}

/// What a write of `bytes` makes of a buffer and an offset: the bytes land at
/// the offset and the offset moves behind them, or nothing changes and the
/// refusal is returned.
pub open spec fn written(
    before: Seq<u8>,
    offset_before: usize,
    bytes: Seq<u8>,
    after: Seq<u8>,
    offset_after: usize,
    outcome: Result<(), ByteError>,
) -> bool {
    if fits(before.len(), offset_before as nat, bytes.len()) {
        &&& outcome == Ok::<(), ByteError>(())
        &&& after == splice(before, offset_before as int, bytes)
        &&& offset_after == offset_before + bytes.len()
    } else {
        &&& outcome == Err::<(), ByteError>(refusal(before.len(), offset_before))
        &&& after == before
        &&& offset_after == offset_before
    }
}

/// `byte::BytesExt::write_with::<u64>` with the little-endian context.
///
/// The crate refuses an offset behind the end with `BadOffset`, and fewer than
/// eight bytes from the offset on with `Incomplete`; both leave buffer and
/// offset alone.  Otherwise it copies `v.to_le_bytes()` to the offset and adds
/// eight to the offset.
#[verifier::external_body]
pub(crate) fn write_u64_le(buf: &mut [u8], offset: &mut usize, v: u64) -> (r: Result<
    (),
    ByteError,
>)
    ensures
        written(old(buf)@, *old(offset), le_bytes(v as nat, 8), final(buf)@, *final(offset), r),
{
    match buf.write_with::<u64>(offset, v, byte::LE) {
        Ok(()) => Ok(()),
        Err(byte::Error::Incomplete) => Err(ByteError::Incomplete),
        Err(byte::Error::BadOffset(at)) => Err(ByteError::BadOffset(at)),
        Err(byte::Error::BadInput { .. }) => Err(ByteError::BadInput),
    }
}

/// `byte::BytesExt::write_with::<u32>` with the little-endian context.
///
/// As for the 64-bit write, with four bytes: `v.to_le_bytes()` lands at the
/// offset, or the buffer is too short there and nothing changes.
#[verifier::external_body]
pub(crate) fn write_u32_le(buf: &mut [u8], offset: &mut usize, v: u32) -> (r: Result<
    (),
    ByteError,
>)
    ensures
        written(old(buf)@, *old(offset), le_bytes(v as nat, 4), final(buf)@, *final(offset), r),
{
    match buf.write_with::<u32>(offset, v, byte::LE) {
        Ok(()) => Ok(()),
        Err(byte::Error::Incomplete) => Err(ByteError::Incomplete),
        Err(byte::Error::BadOffset(at)) => Err(ByteError::BadOffset(at)),
        Err(byte::Error::BadInput { .. }) => Err(ByteError::BadInput),
    }
}

/// What a read of `width` bytes makes of an offset: the offset moves behind
/// the bytes and they are handed to the caller, or the offset stays and the
/// refusal is returned.
pub open spec fn taken<T>(
    src: Seq<u8>,
    offset_before: usize,
    width: nat,
    offset_after: usize,
    outcome: Result<T, ByteError>,
) -> bool {
    if fits(src.len(), offset_before as nat, width) {
        &&& outcome is Ok
        &&& offset_after == offset_before + width
    } else {
        &&& outcome == Err::<T, ByteError>(refusal(src.len(), offset_before))
        &&& offset_after == offset_before
    }
}

/// The `width` bytes of `src` from `offset` on.
pub open spec fn field(src: Seq<u8>, offset: usize, width: nat) -> Seq<u8> {
    src.subrange(offset as int, offset + width)
}

/// `byte::BytesExt::read_with::<u8>`.
///
/// The crate refuses an offset behind the end with `BadOffset` and an offset
/// at the end with `Incomplete`, and leaves the offset alone.  Otherwise it
/// returns the byte at the offset and adds one to the offset.
#[verifier::external_body]
pub(crate) fn read_u8(src: &[u8], offset: &mut usize) -> (r: Result<u8, ByteError>)
    ensures
        taken(src@, *old(offset), 1, *final(offset), r),
        r is Ok ==> r->Ok_0 == src@[*old(offset) as int],
{
    match src.read_with::<u8>(offset, byte::LE) {
        Ok(v) => Ok(v),
        Err(byte::Error::Incomplete) => Err(ByteError::Incomplete),
        Err(byte::Error::BadOffset(at)) => Err(ByteError::BadOffset(at)),
        Err(byte::Error::BadInput { .. }) => Err(ByteError::BadInput),
    }
}

/// `byte::BytesExt::read_with::<i8>`.
///
/// As for the unsigned byte; the byte is read as a two's-complement number.
#[verifier::external_body]
pub(crate) fn read_i8(src: &[u8], offset: &mut usize) -> (r: Result<i8, ByteError>)
    ensures
        taken(src@, *old(offset), 1, *final(offset), r),
        r is Ok ==> r->Ok_0 == twos_complement(src@[*old(offset) as int] as nat, 1),
{
    match src.read_with::<i8>(offset, byte::LE) {
        Ok(v) => Ok(v),
        Err(byte::Error::Incomplete) => Err(ByteError::Incomplete),
        Err(byte::Error::BadOffset(at)) => Err(ByteError::BadOffset(at)),
        Err(byte::Error::BadInput { .. }) => Err(ByteError::BadInput),
    }
}

/// `byte::BytesExt::read_with::<i16>` with the little-endian context.
///
/// The crate refuses an offset behind the end with `BadOffset`, and fewer than
/// two bytes from the offset on with `Incomplete`.  Otherwise it returns
/// `i16::from_le_bytes` of the two bytes at the offset and adds two to the
/// offset.
#[verifier::external_body]
pub(crate) fn read_i16_le(src: &[u8], offset: &mut usize) -> (r: Result<i16, ByteError>)
    ensures
        taken(src@, *old(offset), 2, *final(offset), r),
        r is Ok ==> r->Ok_0 == twos_complement(le_value(field(src@, *old(offset), 2)), 2),
{
    match src.read_with::<i16>(offset, byte::LE) {
        Ok(v) => Ok(v),
        Err(byte::Error::Incomplete) => Err(ByteError::Incomplete),
        Err(byte::Error::BadOffset(at)) => Err(ByteError::BadOffset(at)),
        Err(byte::Error::BadInput { .. }) => Err(ByteError::BadInput),
    }
}

/// `byte::BytesExt::read_with::<i16>` with the big-endian context.
///
/// As for the little-endian read, with `i16::from_be_bytes`.
#[verifier::external_body]
pub(crate) fn read_i16_be(src: &[u8], offset: &mut usize) -> (r: Result<i16, ByteError>)
    ensures
        taken(src@, *old(offset), 2, *final(offset), r),
        r is Ok ==> r->Ok_0 == twos_complement(be_value(field(src@, *old(offset), 2)), 2),
{
    match src.read_with::<i16>(offset, byte::BE) {
        Ok(v) => Ok(v),
        Err(byte::Error::Incomplete) => Err(ByteError::Incomplete),
        Err(byte::Error::BadOffset(at)) => Err(ByteError::BadOffset(at)),
        Err(byte::Error::BadInput { .. }) => Err(ByteError::BadInput),
    }
}

/// `byte::BytesExt::read_with::<u32>` with the little-endian context.
///
/// The crate refuses an offset behind the end with `BadOffset`, and fewer than
/// four bytes from the offset on with `Incomplete`.  Otherwise it returns
/// `u32::from_le_bytes` of the four bytes at the offset and adds four to the
/// offset.  The crate reads a 32-bit float as these bits.
#[verifier::external_body]
pub(crate) fn read_u32_le(src: &[u8], offset: &mut usize) -> (r: Result<u32, ByteError>)
    ensures
        taken(src@, *old(offset), 4, *final(offset), r),
        r is Ok ==> r->Ok_0 == le_value(field(src@, *old(offset), 4)),
{
    match src.read_with::<u32>(offset, byte::LE) {
        Ok(v) => Ok(v),
        Err(byte::Error::Incomplete) => Err(ByteError::Incomplete),
        Err(byte::Error::BadOffset(at)) => Err(ByteError::BadOffset(at)),
        Err(byte::Error::BadInput { .. }) => Err(ByteError::BadInput),
    }
}

/// `byte::BytesExt::read_with::<u32>` with the big-endian context.
///
/// As for the little-endian read, with `u32::from_be_bytes`.
#[verifier::external_body]
pub(crate) fn read_u32_be(src: &[u8], offset: &mut usize) -> (r: Result<u32, ByteError>)
    ensures
        taken(src@, *old(offset), 4, *final(offset), r),
        r is Ok ==> r->Ok_0 == be_value(field(src@, *old(offset), 4)),
{
    match src.read_with::<u32>(offset, byte::BE) {
        Ok(v) => Ok(v),
        Err(byte::Error::Incomplete) => Err(ByteError::Incomplete),
        Err(byte::Error::BadOffset(at)) => Err(ByteError::BadOffset(at)),
        Err(byte::Error::BadInput { .. }) => Err(ByteError::BadInput),
    }
}

} // verus!
