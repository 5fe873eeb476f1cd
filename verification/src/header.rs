//! The fixed 40-byte header: ten unsigned 32-bit counts and offsets stored
//! little-endian in a fixed order. No validation happens here; offset and
//! bounds checks belong to the archive container.

use vstd::prelude::*;
use crate::error::Error;
use crate::le_bytes::{
    dec_u32, le4, lemma_dec_u32_of_le4, push_u32_le, read_u32_le,
};

verus! {

/// The header of an archive: the two version numbers and, for each of the
/// four blocks, its record count and its absolute byte offset in the file.
#[derive(Debug, Clone, Copy, PartialEq, Eq, Structural)]
pub struct Header {
    pub format_version: u32,
    pub coder_version: u32,
    pub object_count: u32,
    pub offset_objects: u32,
    pub key_count: u32,
    pub offset_keys: u32,
    pub value_count: u32,
    pub offset_values: u32,
    pub class_name_count: u32,
    pub offset_class_names: u32,
}

/// The 40 wire bytes of a header.
pub open spec fn header_bytes(h: Header) -> Seq<u8> {
    le4(h.format_version) + le4(h.coder_version) + le4(h.object_count) + le4(h.offset_objects)
        + le4(h.key_count) + le4(h.offset_keys) + le4(h.value_count) + le4(h.offset_values) + le4(
        h.class_name_count,
    ) + le4(h.offset_class_names)
}

/// Spec-level read of a header from the front of `s`.
pub open spec fn dec_header(s: Seq<u8>) -> Result<(Header, Seq<u8>), Error> {
    match dec_u32(s) {
        Err(e) => Err(e),
        Ok((format_version, s)) => match dec_u32(s) {
            Err(e) => Err(e),
            Ok((coder_version, s)) => match dec_u32(s) {
                Err(e) => Err(e),
                Ok((object_count, s)) => match dec_u32(s) {
                    Err(e) => Err(e),
                    Ok((offset_objects, s)) => match dec_u32(s) {
                        Err(e) => Err(e),
                        Ok((key_count, s)) => match dec_u32(s) {
                            Err(e) => Err(e),
                            Ok((offset_keys, s)) => match dec_u32(s) {
                                Err(e) => Err(e),
                                Ok((value_count, s)) => match dec_u32(s) {
                                    Err(e) => Err(e),
                                    Ok((offset_values, s)) => match dec_u32(s) {
                                        Err(e) => Err(e),
                                        Ok((class_name_count, s)) => match dec_u32(s) {
                                            Err(e) => Err(e),
                                            Ok((offset_class_names, s)) => Ok(
                                                (
                                                    Header {
                                                        format_version,
                                                        coder_version,
                                                        object_count,
                                                        offset_objects,
                                                        key_count,
                                                        offset_keys,
                                                        value_count,
                                                        offset_values,
                                                        class_name_count,
                                                        offset_class_names,
                                                    },
                                                    s,
                                                ),
                                            ),
                                        },
                                    },
                                },
                            },
                        },
                    },
                },
            },
        },
    }
}

impl Header {
    /// Reads the ten header fields from `bytes` at `pos`.
    pub(crate) fn try_from_bytes(bytes: &Vec<u8>, pos: usize) -> (r: Result<(Header, usize), Error>)
        requires
            pos <= bytes@.len(),
        ensures
            match r {
                Ok(h_end) => {
                    &&& pos < h_end.1 <= bytes@.len()
                    &&& dec_header(bytes@.skip(pos as int)) == Ok::<_, Error>(
                        (h_end.0, bytes@.skip(h_end.1 as int)),
                    )
                },
                Err(e) => dec_header(bytes@.skip(pos as int)) == Err::<(Header, Seq<u8>), Error>(
                    e,
                ),
            },
    {
        let (format_version, pos) = read_u32_le(bytes, pos)?;
        let (coder_version, pos) = read_u32_le(bytes, pos)?;
        let (object_count, pos) = read_u32_le(bytes, pos)?;
        let (offset_objects, pos) = read_u32_le(bytes, pos)?;
        let (key_count, pos) = read_u32_le(bytes, pos)?;
        let (offset_keys, pos) = read_u32_le(bytes, pos)?;
        let (value_count, pos) = read_u32_le(bytes, pos)?;
        let (offset_values, pos) = read_u32_le(bytes, pos)?;
        let (class_name_count, pos) = read_u32_le(bytes, pos)?;
        let (offset_class_names, pos) = read_u32_le(bytes, pos)?;
        Ok(
            (
                Header {
                    format_version,
                    coder_version,
                    object_count,
                    offset_objects,
                    key_count,
                    offset_keys,
                    value_count,
                    offset_values,
                    class_name_count,
                    offset_class_names,
                },
                pos,
            ),
        )
    }

    /// The 40 bytes of this header in wire order.
    pub(crate) fn to_bytes(&self) -> (r: Vec<u8>)
        ensures
            r@ == header_bytes(*self),
    {
        let mut out: Vec<u8> = Vec::new();
        push_u32_le(&mut out, self.format_version);
        push_u32_le(&mut out, self.coder_version);
        push_u32_le(&mut out, self.object_count);
        push_u32_le(&mut out, self.offset_objects);
        push_u32_le(&mut out, self.key_count);
        push_u32_le(&mut out, self.offset_keys);
        push_u32_le(&mut out, self.value_count);
        push_u32_le(&mut out, self.offset_values);
        push_u32_le(&mut out, self.class_name_count);
        push_u32_le(&mut out, self.offset_class_names);
        assert(out@ =~= header_bytes(*self));
        out
    }
}

/// Reading the bytes of a header recovers the header and consumes exactly
/// its 40 bytes.
#[verifier::rlimit(100)]
pub proof fn lemma_dec_header_of_bytes(h: Header, rest: Seq<u8>)
    ensures
        dec_header(header_bytes(h) + rest) == Ok::<_, Error>((h, rest)),
{
    let s = header_bytes(h) + rest;
    let r1 = le4(h.coder_version) + le4(h.object_count) + le4(h.offset_objects) + le4(h.key_count)
        + le4(h.offset_keys) + le4(h.value_count) + le4(h.offset_values) + le4(h.class_name_count)
        + le4(h.offset_class_names) + rest;
    assert(s =~= le4(h.format_version) + r1);
    lemma_dec_u32_of_le4(h.format_version, r1);
    let r2 = le4(h.object_count) + le4(h.offset_objects) + le4(h.key_count) + le4(h.offset_keys)
        + le4(h.value_count) + le4(h.offset_values) + le4(h.class_name_count) + le4(
        h.offset_class_names,
    ) + rest;
    assert(r1 =~= le4(h.coder_version) + r2);
    lemma_dec_u32_of_le4(h.coder_version, r2);
    let r3 = le4(h.offset_objects) + le4(h.key_count) + le4(h.offset_keys) + le4(h.value_count)
        + le4(h.offset_values) + le4(h.class_name_count) + le4(h.offset_class_names) + rest;
    assert(r2 =~= le4(h.object_count) + r3);
    lemma_dec_u32_of_le4(h.object_count, r3);
    let r4 = le4(h.key_count) + le4(h.offset_keys) + le4(h.value_count) + le4(h.offset_values)
        + le4(h.class_name_count) + le4(h.offset_class_names) + rest;
    assert(r3 =~= le4(h.offset_objects) + r4);
    lemma_dec_u32_of_le4(h.offset_objects, r4);
    let r5 = le4(h.offset_keys) + le4(h.value_count) + le4(h.offset_values) + le4(
        h.class_name_count,
    ) + le4(h.offset_class_names) + rest;
    assert(r4 =~= le4(h.key_count) + r5);
    lemma_dec_u32_of_le4(h.key_count, r5);
    let r6 = le4(h.value_count) + le4(h.offset_values) + le4(h.class_name_count) + le4(
        h.offset_class_names,
    ) + rest;
    assert(r5 =~= le4(h.offset_keys) + r6);
    lemma_dec_u32_of_le4(h.offset_keys, r6);
    let r7 = le4(h.offset_values) + le4(h.class_name_count) + le4(h.offset_class_names) + rest;
    assert(r6 =~= le4(h.value_count) + r7);
    lemma_dec_u32_of_le4(h.value_count, r7);
    let r8 = le4(h.class_name_count) + le4(h.offset_class_names) + rest;
    assert(r7 =~= le4(h.offset_values) + r8);
    lemma_dec_u32_of_le4(h.offset_values, r8);
    let r9 = le4(h.offset_class_names) + rest;
    assert(r8 =~= le4(h.class_name_count) + r9);
    lemma_dec_u32_of_le4(h.class_name_count, r9);
    lemma_dec_u32_of_le4(h.offset_class_names, rest);
}

/// The header encoding is exactly 40 bytes long.
pub proof fn lemma_header_bytes_len(h: Header)
    ensures
        header_bytes(h).len() == 40,
{
}

} // verus!
