//! Byte-order encodings, and the calls into `byteorder` that produce and
//! read them.

use byteorder::{LittleEndian, ReadBytesExt, WriteBytesExt};
use vstd::prelude::*;

verus! {

/// The number that the bytes `b` denote, least significant byte first.
pub open spec fn le_value(b: Seq<u8>) -> nat
    decreases b.len(),
{
    if b.len() == 0 {
        0
    } else {
        b[0] as nat + 256 * le_value(b.drop_first())
    }
}

/// The number that the bytes `b` denote, most significant byte first.
pub open spec fn be_value(b: Seq<u8>) -> nat
    decreases b.len(),
{
    if b.len() == 0 {
        0
    } else {
        be_value(b.drop_last()) * 256 + b.last() as nat
    }
}

/// The `n` lowest bytes of `v`, least significant first.
pub open spec fn le_bytes(v: nat, n: nat) -> Seq<u8>
    decreases n,
{
    if n == 0 {
        Seq::empty()
    } else {
        seq![(v % 256) as u8] + le_bytes(v / 256, (n - 1) as nat)
    }
}

/// `256` to the power `n`.
pub open spec fn byte_pow(n: nat) -> nat
    decreases n,
{
    if n == 0 {
        1
    } else {
        256 * byte_pow((n - 1) as nat)
    }
}

/// Writing `n` bytes of `v` and reading them back gives `v`, when `v`
/// fits in `n` bytes.
pub proof fn lemma_le_roundtrip(v: nat, n: nat)
    requires
        v < byte_pow(n),
    ensures
        le_bytes(v, n).len() == n,
        le_value(le_bytes(v, n)) == v,
    decreases n,
{
    if n > 0 {
        let m = (n - 1) as nat;
        assert(v / 256 < byte_pow(m)) by (nonlinear_arith)
            requires
                v < 256 * byte_pow(m),
        ;
        lemma_le_roundtrip(v / 256, m);
        let s = le_bytes(v, n);
        assert(s.drop_first() =~= le_bytes(v / 256, m));
        assert(v == v % 256 + 256 * (v / 256)) by (nonlinear_arith);
    }
}

/// Reading bytes and writing the value back over as many bytes gives the
/// same bytes.
pub proof fn lemma_le_bytes_of_value(b: Seq<u8>)
    ensures
        le_bytes(le_value(b), b.len()) == b,
    decreases b.len(),
{
    if b.len() > 0 {
        let r = le_value(b.drop_first());
        let b0 = b[0] as nat;
        assert((b0 + 256 * r) % 256 == b0 && (b0 + 256 * r) / 256 == r) by (nonlinear_arith)
            requires
                b0 < 256,
        ;
        lemma_le_bytes_of_value(b.drop_first());
        assert(le_bytes(le_value(b), b.len()) =~= b);
    }
}

/// Two bytes, most significant first, denote `hi * 256 + lo`.
pub proof fn lemma_be_pair(hi: u8, lo: u8)
    ensures
        be_value(seq![hi, lo]) == hi * 256 + lo,
{
    let s = seq![hi, lo];
    assert(s.drop_last() =~= seq![hi]);
    assert(s.drop_last().drop_last() =~= Seq::<u8>::empty());
    reveal_with_fuel(be_value, 3);
}

/// Facts on the powers used by the fixed-width integers.
pub proof fn lemma_byte_pows()
    ensures
        byte_pow(1) == 0x100,
        byte_pow(2) == 0x1_0000,
        byte_pow(4) == 0x1_0000_0000,
        byte_pow(8) == 0x1_0000_0000_0000_0000,
{
    reveal_with_fuel(byte_pow, 9);
}

/// The value of a byte string is below `256` to the power of its length.
pub proof fn lemma_le_value_bound(b: Seq<u8>)
    ensures
        le_value(b) < byte_pow(b.len()),
    decreases b.len(),
{
    if b.len() > 0 {
        lemma_le_value_bound(b.drop_first());
        let r = le_value(b.drop_first());
        let p = byte_pow((b.len() - 1) as nat);
        assert(b[0] as nat + 256 * r < 256 * p) by (nonlinear_arith)
            requires
                r < p,
                b[0] < 256,
        ;
    }
}

/// `std::io::Error`, which `byteorder`'s readers and writers return.
#[verifier::external_type_specification]
#[verifier::external_body]
pub struct ExIoError(std::io::Error);

/// `WriteBytesExt::write_u8` on a `Vec<u8>`: it appends the byte, and does
/// not fail, since appending to a vector cannot fail.
#[verifier::external_body]
pub(crate) fn write_u8(buf: &mut Vec<u8>, n: u8) -> (r: Result<(), std::io::Error>)
    ensures
        r is Ok,
        final(buf)@ == old(buf)@.push(n),
{
    buf.write_u8(n)
}

/// `WriteBytesExt::write_u16::<LittleEndian>` on a `Vec<u8>`: it appends the
/// two bytes of `n`, least significant first, and does not fail.
#[verifier::external_body]
pub(crate) fn write_u16_le(buf: &mut Vec<u8>, n: u16) -> (r: Result<(), std::io::Error>)
    ensures
        r is Ok,
        final(buf)@ == old(buf)@ + le_bytes(n as nat, 2),
{
    buf.write_u16::<LittleEndian>(n)
}

/// `WriteBytesExt::write_u32::<LittleEndian>` on a `Vec<u8>`: it appends the
/// four bytes of `n`, least significant first, and does not fail.
#[verifier::external_body]
pub(crate) fn write_u32_le(buf: &mut Vec<u8>, n: u32) -> (r: Result<(), std::io::Error>)
    ensures
        r is Ok,
        final(buf)@ == old(buf)@ + le_bytes(n as nat, 4),
{
    buf.write_u32::<LittleEndian>(n)
}

/// `WriteBytesExt::write_u64::<LittleEndian>` on a `Vec<u8>`: it appends the
/// eight bytes of `n`, least significant first, and does not fail.
#[verifier::external_body]
pub(crate) fn write_u64_le(buf: &mut Vec<u8>, n: u64) -> (r: Result<(), std::io::Error>)
    ensures
        r is Ok,
        final(buf)@ == old(buf)@ + le_bytes(n as nat, 8),
{
    buf.write_u64::<LittleEndian>(n)
}

/// `ReadBytesExt::read_u8` on a byte slice: it fails exactly when the slice
/// is empty, and otherwise gives its first byte.
#[verifier::external_body]
pub(crate) fn read_u8(data: &[u8]) -> (r: Result<u8, std::io::Error>)
    ensures
        r is Ok <==> data@.len() >= 1,
        r matches Ok(v) ==> v == data@[0],
{
    let mut rd: &[u8] = data;
    rd.read_u8()
}

/// `ReadBytesExt::read_u16::<LittleEndian>` on a byte slice: it fails
/// exactly when the slice holds fewer than two bytes, and otherwise gives
/// the value of the first two, least significant first.
#[verifier::external_body]
pub(crate) fn read_u16_le(data: &[u8]) -> (r: Result<u16, std::io::Error>)
    ensures
        r is Ok <==> data@.len() >= 2,
        r matches Ok(v) ==> v == le_value(data@.take(2)),
{
    let mut rd: &[u8] = data;
    rd.read_u16::<LittleEndian>()
}

/// `ReadBytesExt::read_u32::<LittleEndian>` on a byte slice: it fails
/// exactly when the slice holds fewer than four bytes, and otherwise gives
/// the value of the first four, least significant first.
#[verifier::external_body]
pub(crate) fn read_u32_le(data: &[u8]) -> (r: Result<u32, std::io::Error>)
    ensures
        r is Ok <==> data@.len() >= 4,
        r matches Ok(v) ==> v == le_value(data@.take(4)),
{
    let mut rd: &[u8] = data;
    rd.read_u32::<LittleEndian>()
}

/// `ReadBytesExt::read_u64::<LittleEndian>` on a byte slice: it fails
/// exactly when the slice holds fewer than eight bytes, and otherwise gives
/// the value of the first eight, least significant first.
#[verifier::external_body]
pub(crate) fn read_u64_le(data: &[u8]) -> (r: Result<u64, std::io::Error>)
    ensures
        r is Ok <==> data@.len() >= 8,
        r matches Ok(v) ==> v == le_value(data@.take(8)),
{
    let mut rd: &[u8] = data;
    rd.read_u64::<LittleEndian>()
}

} // verus!
