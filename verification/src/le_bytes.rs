//! Little-endian encoding of the fixed-width integers used by the format,
//! and the bit-pattern casts between signed and unsigned views of a word.

use vstd::prelude::*;
use crate::error::{eof_error, Error, IoErrorKind};

verus! {

/// The signed 16-bit value whose bit pattern is the given unsigned word.
pub open spec fn u16_as_i16(x: u16) -> i16 {
    if x < 0x8000 {
        x as i16
    } else {
        (x - 0x1_0000) as i16
    }
}

/// The signed 32-bit value whose bit pattern is the given unsigned word.
pub open spec fn u32_as_i32(x: u32) -> i32 {
    if x < 0x8000_0000 {
        x as i32
    } else {
        (x - 0x1_0000_0000) as i32
    }
}

/// The signed 64-bit value whose bit pattern is the given unsigned word.
pub open spec fn u64_as_i64(x: u64) -> i64 {
    if x < 0x8000_0000_0000_0000 {
        x as i64
    } else {
        (x - 0x1_0000_0000_0000_0000) as i64
    }
}

/// The signed 8-bit value whose bit pattern is the given byte.
pub open spec fn u8_as_i8(x: u8) -> i8 {
    if x < 0x80 {
        x as i8
    } else {
        (x - 0x100) as i8
    }
}

/// The byte with the same bit pattern as the given signed value.
pub open spec fn i8_bits(v: i8) -> u8 {
    if v >= 0 {
        v as u8
    } else {
        (v + 0x100) as u8
    }
}

/// The unsigned word with the same bit pattern as the given signed value.
pub open spec fn i16_bits(v: i16) -> u16 {
    if v >= 0 {
        v as u16
    } else {
        (v + 0x1_0000) as u16
    }
}

/// The unsigned word with the same bit pattern as the given signed value.
pub open spec fn i32_bits(v: i32) -> u32 {
    if v >= 0 {
        v as u32
    } else {
        (v + 0x1_0000_0000) as u32
    }
}

/// The unsigned word with the same bit pattern as the given signed value.
pub open spec fn i64_bits(v: i64) -> u64 {
    if v >= 0 {
        v as u64
    } else {
        (v + 0x1_0000_0000_0000_0000) as u64
    }
}

/// The two little-endian bytes of a 16-bit word.
pub open spec fn le2(x: u16) -> Seq<u8> {
    seq![(x % 0x100) as u8, (x / 0x100) as u8]
}

/// The four little-endian bytes of a 32-bit word.
pub open spec fn le4(x: u32) -> Seq<u8> {
    let x1 = x / 0x100;
    let x2 = x1 / 0x100;
    seq![(x % 0x100) as u8, (x1 % 0x100) as u8, (x2 % 0x100) as u8, (x2 / 0x100) as u8]
}

/// The eight little-endian bytes of a 64-bit word.
pub open spec fn le8(x: u64) -> Seq<u8> {
    let x1 = x / 0x100;
    let x2 = x1 / 0x100;
    let x3 = x2 / 0x100;
    let x4 = x3 / 0x100;
    let x5 = x4 / 0x100;
    let x6 = x5 / 0x100;
    seq![
        (x % 0x100) as u8,
        (x1 % 0x100) as u8,
        (x2 % 0x100) as u8,
        (x3 % 0x100) as u8,
        (x4 % 0x100) as u8,
        (x5 % 0x100) as u8,
        (x6 % 0x100) as u8,
        (x6 / 0x100) as u8,
    ]
}

/// Spec-level read of one byte from the front of `s`.
pub open spec fn dec_u8(s: Seq<u8>) -> Result<(u8, Seq<u8>), Error> {
    if s.len() < 1 {
        Err(eof_error())
    } else {
        Ok((s[0], s.skip(1)))
    }
}

/// Spec-level read of a little-endian 16-bit word from the front of `s`.
pub open spec fn dec_u16(s: Seq<u8>) -> Result<(u16, Seq<u8>), Error> {
    if s.len() < 2 {
        Err(eof_error())
    } else {
        Ok(((s[0] + 0x100 * s[1]) as u16, s.skip(2)))
    }
}

/// Spec-level read of a little-endian 32-bit word from the front of `s`.
pub open spec fn dec_u32(s: Seq<u8>) -> Result<(u32, Seq<u8>), Error> {
    if s.len() < 4 {
        Err(eof_error())
    } else {
        Ok(((s[0] + 0x100 * s[1] + 0x1_0000 * s[2] + 0x100_0000 * s[3]) as u32, s.skip(4)))
    }
}

/// Spec-level read of a little-endian 64-bit word from the front of `s`.
pub open spec fn dec_u64(s: Seq<u8>) -> Result<(u64, Seq<u8>), Error> {
    if s.len() < 8 {
        Err(eof_error())
    } else {
        Ok(
            (
                (s[0] + 0x100 * s[1] + 0x1_0000 * s[2] + 0x100_0000 * s[3] + 0x1_0000_0000 * s[4]
                    + 0x100_0000_0000 * s[5] + 0x1_0000_0000_0000 * s[6] + 0x100_0000_0000_0000
                    * s[7]) as u64,
                s.skip(8),
            ),
        )
    }
}

/// Spec-level read of exactly `n` raw bytes from the front of `s`.
pub open spec fn dec_bytes(s: Seq<u8>, n: nat) -> Result<(Seq<u8>, Seq<u8>), Error> {
    if s.len() < n {
        Err(eof_error())
    } else {
        Ok((s.take(n as int), s.skip(n as int)))
    }
}

/// Reads exactly `n` raw bytes from `bytes` at `pos` into an owned vector.
pub(crate) fn read_bytes(bytes: &Vec<u8>, pos: usize, n: usize) -> (r: Result<
    (Vec<u8>, usize),
    Error,
>)
    requires
        pos <= bytes@.len(),
    ensures
        match r {
            Ok(v_end) => {
                &&& pos <= v_end.1 <= bytes@.len()
                &&& dec_bytes(bytes@.skip(pos as int), n as nat) == Ok::<_, Error>(
                    (v_end.0@, bytes@.skip(v_end.1 as int)),
                )
            },
            Err(e) => dec_bytes(bytes@.skip(pos as int), n as nat) == Err::<
                (Seq<u8>, Seq<u8>),
                Error,
            >(e),
        },
{
    if bytes.len() - pos < n {
        return Err(Error::IOError(IoErrorKind::UnexpectedEof));
    }
    let sub = vstd::slice::slice_subrange(bytes.as_slice(), pos, pos + n);
    let out = vstd::slice::slice_to_vec(sub);
    assert(bytes@.skip(pos as int).take(n as int) =~= bytes@.subrange(
        pos as int,
        pos + n as int,
    ));
    assert(bytes@.skip(pos as int).skip(n as int) =~= bytes@.skip(pos + n as int));
    Ok((out, pos + n))
}

/// Reads one byte from `bytes` at `pos`.
pub(crate) fn read_u8(bytes: &Vec<u8>, pos: usize) -> (r: Result<(u8, usize), Error>)
    requires
        pos <= bytes@.len(),
    ensures
        match r {
            Ok(v_end) => {
                &&& pos < v_end.1 <= bytes@.len()
                &&& dec_u8(bytes@.skip(pos as int)) == Ok::<_, Error>(
                    (v_end.0, bytes@.skip(v_end.1 as int)),
                )
            },
            Err(e) => dec_u8(bytes@.skip(pos as int)) == Err::<(u8, Seq<u8>), Error>(e),
        },
{
    if pos >= bytes.len() {
        return Err(Error::IOError(IoErrorKind::UnexpectedEof));
    }
    let b = *vstd::slice::slice_index_get(bytes.as_slice(), pos);
    assert(bytes@.skip(pos as int).skip(1) =~= bytes@.skip(pos + 1));
    Ok((b, pos + 1))
}

/// Reads a little-endian 16-bit word from `bytes` at `pos`.
pub(crate) fn read_u16_le(bytes: &Vec<u8>, pos: usize) -> (r: Result<(u16, usize), Error>)
    requires
        pos <= bytes@.len(),
    ensures
        match r {
            Ok(v_end) => {
                &&& pos < v_end.1 <= bytes@.len()
                &&& dec_u16(bytes@.skip(pos as int)) == Ok::<_, Error>(
                    (v_end.0, bytes@.skip(v_end.1 as int)),
                )
            },
            Err(e) => dec_u16(bytes@.skip(pos as int)) == Err::<(u16, Seq<u8>), Error>(e),
        },
{
    if bytes.len() - pos < 2 {
        return Err(Error::IOError(IoErrorKind::UnexpectedEof));
    }
    let b0 = *vstd::slice::slice_index_get(bytes.as_slice(), pos);
    let b1 = *vstd::slice::slice_index_get(bytes.as_slice(), pos + 1);
    let x: u16 = b0 as u16 + 0x100 * (b1 as u16);
    assert(bytes@.skip(pos as int).skip(2) =~= bytes@.skip(pos + 2));
    Ok((x, pos + 2))
}

/// Reads a little-endian 32-bit word from `bytes` at `pos`.
pub(crate) fn read_u32_le(bytes: &Vec<u8>, pos: usize) -> (r: Result<(u32, usize), Error>)
    requires
        pos <= bytes@.len(),
    ensures
        match r {
            Ok(v_end) => {
                &&& pos < v_end.1 <= bytes@.len()
                &&& dec_u32(bytes@.skip(pos as int)) == Ok::<_, Error>(
                    (v_end.0, bytes@.skip(v_end.1 as int)),
                )
            },
            Err(e) => dec_u32(bytes@.skip(pos as int)) == Err::<(u32, Seq<u8>), Error>(e),
        },
{
    if bytes.len() - pos < 4 {
        return Err(Error::IOError(IoErrorKind::UnexpectedEof));
    }
    let b0 = *vstd::slice::slice_index_get(bytes.as_slice(), pos);
    let b1 = *vstd::slice::slice_index_get(bytes.as_slice(), pos + 1);
    let b2 = *vstd::slice::slice_index_get(bytes.as_slice(), pos + 2);
    let b3 = *vstd::slice::slice_index_get(bytes.as_slice(), pos + 3);
    let x: u32 = b0 as u32 + 0x100 * (b1 as u32) + 0x1_0000 * (b2 as u32) + 0x100_0000 * (
    b3 as u32);
    assert(bytes@.skip(pos as int).skip(4) =~= bytes@.skip(pos + 4));
    Ok((x, pos + 4))
}

/// Reads a little-endian 64-bit word from `bytes` at `pos`.
pub(crate) fn read_u64_le(bytes: &Vec<u8>, pos: usize) -> (r: Result<(u64, usize), Error>)
    requires
        pos <= bytes@.len(),
    ensures
        match r {
            Ok(v_end) => {
                &&& pos < v_end.1 <= bytes@.len()
                &&& dec_u64(bytes@.skip(pos as int)) == Ok::<_, Error>(
                    (v_end.0, bytes@.skip(v_end.1 as int)),
                )
            },
            Err(e) => dec_u64(bytes@.skip(pos as int)) == Err::<(u64, Seq<u8>), Error>(e),
        },
{
    if bytes.len() - pos < 8 {
        return Err(Error::IOError(IoErrorKind::UnexpectedEof));
    }
    let b0 = *vstd::slice::slice_index_get(bytes.as_slice(), pos);
    let b1 = *vstd::slice::slice_index_get(bytes.as_slice(), pos + 1);
    let b2 = *vstd::slice::slice_index_get(bytes.as_slice(), pos + 2);
    let b3 = *vstd::slice::slice_index_get(bytes.as_slice(), pos + 3);
    let b4 = *vstd::slice::slice_index_get(bytes.as_slice(), pos + 4);
    let b5 = *vstd::slice::slice_index_get(bytes.as_slice(), pos + 5);
    let b6 = *vstd::slice::slice_index_get(bytes.as_slice(), pos + 6);
    let b7 = *vstd::slice::slice_index_get(bytes.as_slice(), pos + 7);
    let x: u64 = b0 as u64 + 0x100 * (b1 as u64) + 0x1_0000 * (b2 as u64) + 0x100_0000 * (
    b3 as u64) + 0x1_0000_0000 * (b4 as u64) + 0x100_0000_0000 * (b5 as u64) + 0x1_0000_0000_0000
        * (b6 as u64) + 0x100_0000_0000_0000 * (b7 as u64);
    assert(bytes@.skip(pos as int).skip(8) =~= bytes@.skip(pos + 8));
    Ok((x, pos + 8))
}

/// Appends the two little-endian bytes of `x` to `out`.
pub(crate) fn push_u16_le(out: &mut Vec<u8>, x: u16)
    ensures
        final(out)@ == old(out)@ + le2(x),
{
    out.push((x % 0x100) as u8);
    out.push((x / 0x100) as u8);
    assert(out@ =~= old(out)@ + le2(x));
}

/// Appends the four little-endian bytes of `x` to `out`.
pub(crate) fn push_u32_le(out: &mut Vec<u8>, x: u32)
    ensures
        final(out)@ == old(out)@ + le4(x),
{
    let x1 = x / 0x100;
    let x2 = x1 / 0x100;
    out.push((x % 0x100) as u8);
    out.push((x1 % 0x100) as u8);
    out.push((x2 % 0x100) as u8);
    out.push((x2 / 0x100) as u8);
    assert(out@ =~= old(out)@ + le4(x));
}

/// Appends the eight little-endian bytes of `x` to `out`.
pub(crate) fn push_u64_le(out: &mut Vec<u8>, x: u64)
    ensures
        final(out)@ == old(out)@ + le8(x),
{
    let x1 = x / 0x100;
    let x2 = x1 / 0x100;
    let x3 = x2 / 0x100;
    let x4 = x3 / 0x100;
    let x5 = x4 / 0x100;
    let x6 = x5 / 0x100;
    out.push((x % 0x100) as u8);
    out.push((x1 % 0x100) as u8);
    out.push((x2 % 0x100) as u8);
    out.push((x3 % 0x100) as u8);
    out.push((x4 % 0x100) as u8);
    out.push((x5 % 0x100) as u8);
    out.push((x6 % 0x100) as u8);
    out.push((x6 / 0x100) as u8);
    assert(out@ =~= old(out)@ + le8(x));
}

/// The signed 8-bit value with the bit pattern of `x`.
pub(crate) fn u8_to_i8(x: u8) -> (r: i8)
    ensures
        r == u8_as_i8(x),
{
    if x < 0x80 {
        x as i8
    } else {
        let y: u8 = x - 0x80;
        (y as i8) + i8::MIN
    }
}

/// The byte with the bit pattern of `v`.
pub(crate) fn i8_to_u8(v: i8) -> (r: u8)
    ensures
        r == i8_bits(v),
{
    if v >= 0 {
        v as u8
    } else {
        let y: i8 = v - i8::MIN;
        (y as u8) + 0x80
    }
}

/// The signed 16-bit value with the bit pattern of `x`.
pub(crate) fn u16_to_i16(x: u16) -> (r: i16)
    ensures
        r == u16_as_i16(x),
{
    if x < 0x8000 {
        x as i16
    } else {
        let y: u16 = x - 0x8000;
        (y as i16) + i16::MIN
    }
}

/// The signed 32-bit value with the bit pattern of `x`.
pub(crate) fn u32_to_i32(x: u32) -> (r: i32)
    ensures
        r == u32_as_i32(x),
{
    if x < 0x8000_0000 {
        x as i32
    } else {
        let y: u32 = x - 0x8000_0000;
        (y as i32) + i32::MIN
    }
}

/// The signed 64-bit value with the bit pattern of `x`.
pub(crate) fn u64_to_i64(x: u64) -> (r: i64)
    ensures
        r == u64_as_i64(x),
{
    if x < 0x8000_0000_0000_0000 {
        x as i64
    } else {
        let y: u64 = x - 0x8000_0000_0000_0000;
        (y as i64) + i64::MIN
    }
}

/// The unsigned word with the bit pattern of `v`.
pub(crate) fn i16_to_u16(v: i16) -> (r: u16)
    ensures
        r == i16_bits(v),
{
    if v >= 0 {
        v as u16
    } else {
        let y: i16 = v - i16::MIN;
        (y as u16) + 0x8000
    }
}

/// The unsigned word with the bit pattern of `v`.
pub(crate) fn i32_to_u32(v: i32) -> (r: u32)
    ensures
        r == i32_bits(v),
{
    if v >= 0 {
        v as u32
    } else {
        let y: i32 = v - i32::MIN;
        (y as u32) + 0x8000_0000
    }
}

/// The unsigned word with the bit pattern of `v`.
pub(crate) fn i64_to_u64(v: i64) -> (r: u64)
    ensures
        r == i64_bits(v),
{
    if v >= 0 {
        v as u64
    } else {
        let y: i64 = v - i64::MIN;
        (y as u64) + 0x8000_0000_0000_0000
    }
}

/// The bit pattern of a signed 32-bit value is its value modulo `2^32`.
pub proof fn lemma_i32_bits_is_mod(x: i32)
    ensures
        i32_bits(x) == x as int % 0x1_0000_0000,
{
    let m = 0x1_0000_0000int;
    if x >= 0 {
        vstd::arithmetic::div_mod::lemma_small_mod(x as nat, m as nat);
    } else {
        vstd::arithmetic::div_mod::lemma_mod_add_multiples_vanish(x as int, m);
        vstd::arithmetic::div_mod::lemma_small_mod((x + m) as nat, m as nat);
    }
}

/// Reading two little-endian bytes recovers the word they encode and
/// consumes exactly those bytes.
pub proof fn lemma_dec_u16_of_le2(x: u16, rest: Seq<u8>)
    ensures
        dec_u16(le2(x) + rest) == Ok::<_, Error>((x, rest)),
{
    let s = le2(x) + rest;
    vstd::arithmetic::div_mod::lemma_fundamental_div_mod(x as int, 0x100);
    assert(s.skip(2) =~= rest);
}

/// Reading four little-endian bytes recovers the word they encode and
/// consumes exactly those bytes.
pub proof fn lemma_dec_u32_of_le4(x: u32, rest: Seq<u8>)
    ensures
        dec_u32(le4(x) + rest) == Ok::<_, Error>((x, rest)),
{
    let s = le4(x) + rest;
    let x1 = x / 0x100;
    let x2 = x1 / 0x100;
    vstd::arithmetic::div_mod::lemma_fundamental_div_mod(x as int, 0x100);
    vstd::arithmetic::div_mod::lemma_fundamental_div_mod(x1 as int, 0x100);
    vstd::arithmetic::div_mod::lemma_fundamental_div_mod(x2 as int, 0x100);
    assert(s.skip(4) =~= rest);
}

/// Reading eight little-endian bytes recovers the word they encode and
/// consumes exactly those bytes.
pub proof fn lemma_dec_u64_of_le8(x: u64, rest: Seq<u8>)
    ensures
        dec_u64(le8(x) + rest) == Ok::<_, Error>((x, rest)),
{
    let s = le8(x) + rest;
    let x1 = x / 0x100;
    let x2 = x1 / 0x100;
    let x3 = x2 / 0x100;
    let x4 = x3 / 0x100;
    let x5 = x4 / 0x100;
    let x6 = x5 / 0x100;
    vstd::arithmetic::div_mod::lemma_fundamental_div_mod(x as int, 0x100);
    vstd::arithmetic::div_mod::lemma_fundamental_div_mod(x1 as int, 0x100);
    vstd::arithmetic::div_mod::lemma_fundamental_div_mod(x2 as int, 0x100);
    vstd::arithmetic::div_mod::lemma_fundamental_div_mod(x3 as int, 0x100);
    vstd::arithmetic::div_mod::lemma_fundamental_div_mod(x4 as int, 0x100);
    vstd::arithmetic::div_mod::lemma_fundamental_div_mod(x5 as int, 0x100);
    vstd::arithmetic::div_mod::lemma_fundamental_div_mod(x6 as int, 0x100);
    assert(s.skip(8) =~= rest);
}

} // verus!
