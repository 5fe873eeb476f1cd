//! The archive's variable-length integer representation.
//!
//! Seven data bits are stored per byte, least-significant group first. The
//! continuation convention is inverted from common varint schemes: the high
//! bit of a byte is set on the *last* byte of the sequence and clear on all
//! non-final bytes. A value decoded from more than 32 bits of input is
//! truncated to the low 32 bits. Negative values have no terminating
//! representation, so the encoder rejects them.

use vstd::prelude::*;
use vstd::arithmetic::power2::{pow2, lemma_pow2_adds, lemma2_to64};
use vstd::arithmetic::div_mod::{
    lemma_add_mod_noop, lemma_fundamental_div_mod, lemma_mod_twice, lemma_mul_mod_noop_right,
    lemma_small_mod,
};
use crate::error::{eof_error, Error, IoErrorKind};
use crate::le_bytes::u32_as_i32;

verus! {

/// The wire bytes of a non-negative value: 7-bit groups, least significant
/// first, the final group marked by a set high bit.
pub open spec fn varint_bytes(v: nat) -> Seq<u8>
    decreases v,
{
    if v < 128 {
        seq![(v + 128) as u8]
    } else {
        seq![(v % 128) as u8] + varint_bytes(v / 128)
    }
}

/// One step of spec-level decoding: `acc` holds the groups read so far,
/// already shifted into place, and the next group lands at bit `shift`.
/// Groups past bit 31 are truncated away by the 32-bit accumulator.
pub open spec fn varint_dec_rec(s: Seq<u8>, shift: nat, acc: u32) -> Result<(i32, Seq<u8>), Error>
    decreases s.len(),
{
    if s.len() == 0 {
        Err(eof_error())
    } else {
        let b = s[0];
        let acc2 = (((acc + (b % 128) * pow2(shift)) % 0x1_0000_0000) as u32);
        if b >= 128 {
            Ok((u32_as_i32(acc2), s.skip(1)))
        } else {
            varint_dec_rec(s.skip(1), shift + 7, acc2)
        }
    }
}

/// Spec-level decoding of a variable-length integer from the front of `s`:
/// the decoded value and the bytes that remain, or the error on truncated
/// input.
pub open spec fn varint_dec(s: Seq<u8>) -> Result<(i32, Seq<u8>), Error> {
    varint_dec_rec(s, 0, 0)
}

/// Decodes a variable-length integer from `bytes` starting at `pos`.
/// Returns the value and the position just past its final byte.
pub fn decode_var_int(bytes: &Vec<u8>, pos: usize) -> (r: Result<(i32, usize), Error>)
    requires
        pos <= bytes@.len(),
    ensures
        match r {
            Ok(v_end) => {
                &&& pos < v_end.1 <= bytes@.len()
                &&& varint_dec(bytes@.skip(pos as int)) == Ok::<_, Error>(
                    (v_end.0, bytes@.skip(v_end.1 as int)),
                )
            },
            Err(e) => varint_dec(bytes@.skip(pos as int)) == Err::<(i32, Seq<u8>), Error>(e),
        },
{
    let mut i: usize = pos;
    let mut acc: u32 = 0;
    let mut factor: u32 = 1;
    let ghost mut shift: nat = 0nat;
    proof {
        lemma2_to64();
    }
    loop
        invariant
            pos <= i <= bytes@.len(),
            factor == pow2(shift) % 0x1_0000_0000,
            varint_dec(bytes@.skip(pos as int)) == varint_dec_rec(
                bytes@.skip(i as int),
                shift,
                acc,
            ),
        decreases bytes@.len() - i,
    {
        if i >= bytes.len() {
            assert(bytes@.skip(i as int).len() == 0);
            return Err(Error::IOError(IoErrorKind::UnexpectedEof));
        }
        let b = *vstd::slice::slice_index_get(bytes.as_slice(), i);
        assert(bytes@.skip(i as int)[0] == b);
        let group = b % 128;
        let term = (group as u32).wrapping_mul(factor);
        let acc2 = acc.wrapping_add(term);
        proof {
            let m = 0x1_0000_0000int;
            lemma_mul_mod_noop_right(group as int, pow2(shift) as int, m);
            lemma_add_mod_noop(acc as int, (group * pow2(shift)) as int, m);
            lemma_small_mod(acc as nat, m as nat);
            assert(acc2 == ((acc + (b % 128) * pow2(shift)) % m) as u32);
        }
        if b >= 128 {
            let value: i32 = crate::le_bytes::u32_to_i32(acc2);
            assert(bytes@.skip(i as int).skip(1) =~= bytes@.skip(i + 1));
            return Ok((value, i + 1));
        }
        proof {
            assert(bytes@.skip(i as int).skip(1) =~= bytes@.skip(i + 1));
            let m = 0x1_0000_0000int;
            lemma_pow2_adds(shift, 7);
            lemma2_to64();
            lemma_mul_mod_noop_right(128int, pow2(shift) as int, m);
            assert((pow2(shift + 7) % (m as nat)) == (128 * pow2(shift)) % (m as nat));
            lemma_mul_mod_noop_right(128int, (pow2(shift) % (m as nat)) as int, m);
            shift = shift + 7nat;
        }
        factor = factor.wrapping_mul(128);
        acc = acc2;
        i = i + 1;
    }
}

/// Encodes a non-negative value as a variable-length integer. A negative
/// value has no terminating representation and is rejected.
pub fn encode_var_int(value: i32) -> (r: Result<Vec<u8>, Error>)
    ensures
        value >= 0 ==> (r matches Ok(b) && b@ == varint_bytes(value as nat)),
        value < 0 ==> r == Err::<Vec<u8>, Error>(Error::IOError(IoErrorKind::InvalidInput)),
{
    if value < 0 {
        return Err(Error::IOError(IoErrorKind::InvalidInput));
    }
    let mut v: u32 = value as u32;
    let mut out: Vec<u8> = Vec::new();
    while v >= 128
        invariant
            out@ + varint_bytes(v as nat) == varint_bytes(value as nat),
        decreases v,
    {
        let ghost prev = v;
        out.push((v % 128) as u8);
        v = v / 128;
        proof {
            assert(varint_bytes(prev as nat) == seq![(prev % 128) as u8] + varint_bytes(
                v as nat,
            ));
            assert(out@ + varint_bytes(v as nat) =~= varint_bytes(value as nat));
        }
    }
    out.push((v + 128) as u8);
    proof {
        assert(varint_bytes(v as nat) == seq![(v + 128) as u8]);
        assert(out@ =~= varint_bytes(value as nat));
    }
    Ok(out)
}

proof fn lemma_varint_dec_of_bytes(v: nat, rest: Seq<u8>, shift: nat, acc: u32)
    ensures
        varint_dec_rec(varint_bytes(v) + rest, shift, acc) == Ok::<_, Error>(
            (u32_as_i32((((acc + v * pow2(shift)) % 0x1_0000_0000) as u32)), rest),
        ),
    decreases v,
{
    let m = 0x1_0000_0000int;
    let s = varint_bytes(v) + rest;
    if v < 128 {
        let b = (v + 128) as u8;
        assert(s[0] == b);
        assert(b % 128 == v);
        assert(s.skip(1) =~= rest);
    } else {
        let b = (v % 128) as u8;
        assert(s[0] == b);
        assert(b < 128) by {
            lemma_mod_twice(v as int, 128);
        }
        assert(b % 128 == v % 128) by {
            lemma_mod_twice(v as int, 128);
        }
        let acc2 = (((acc + (v % 128) * pow2(shift)) % m) as u32);
        assert(s.skip(1) =~= varint_bytes(v / 128) + rest);
        lemma_varint_dec_of_bytes(v / 128, rest, shift + 7, acc2);
        assert((acc2 + (v / 128) * pow2(shift + 7)) % m == (acc + v * pow2(shift)) % m) by {
            lemma_pow2_adds(shift, 7);
            lemma2_to64();
            assert((v / 128) * (pow2(shift) * 128) == ((v / 128) * 128) * pow2(shift))
                by (nonlinear_arith);
            lemma_fundamental_div_mod(v as int, 128);
            assert((v % 128) * pow2(shift) + ((v / 128) * 128) * pow2(shift) == v * pow2(shift))
                by (nonlinear_arith);
            lemma_add_mod_noop(
                (acc + (v % 128) * pow2(shift)) as int,
                ((v / 128) * 128 * pow2(shift)) as int,
                m,
            );
            lemma_mod_twice((acc + (v % 128) * pow2(shift)) as int, m);
            lemma_add_mod_noop(
                ((acc + (v % 128) * pow2(shift)) % m) as int,
                ((v / 128) * 128 * pow2(shift)) as int,
                m,
            );
        }
    }
}

/// Law: decoding an encoding recovers the value — for every non-negative
/// 32-bit value `v` and any trailing bytes, decoding `varint_bytes(v)`
/// followed by those bytes yields exactly `v` and consumes exactly the
/// encoding.
pub proof fn lemma_varint_round_trip(v: int, rest: Seq<u8>)
    requires
        0 <= v <= i32::MAX,
    ensures
        varint_dec(varint_bytes(v as nat) + rest) == Ok::<_, Error>((v as i32, rest)),
{
    lemma_varint_dec_of_bytes(v as nat, rest, 0, 0);
    assert(pow2(0) == 1) by {
        lemma2_to64();
    }
    lemma_small_mod(v as nat, 0x1_0000_0000nat);
}

} // verus!
