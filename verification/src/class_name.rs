//! A single class name of an archive: a UTF-8 name and an order-significant
//! list of fallback class indices. On the wire: a variable-length integer
//! holding the name's byte length plus one (for a trailing NUL), a
//! variable-length integer holding the fallback count, the fallback indices
//! as 32-bit little-endian words, and the name bytes ending in the
//! mandatory NUL, which is stripped on decode.

use vstd::prelude::*;
use vstd::utf8::{decode_utf8, encode_utf8, encode_utf8_decode_utf8, encode_utf8_valid_utf8,
    valid_utf8};
use crate::error::{eof_error, Error, FormatErrorKind, IoErrorKind};
use crate::le_bytes::{
    dec_u32, dec_bytes, i32_bits, i32_to_u32, le4, lemma_dec_u32_of_le4, push_u32_le, read_bytes,
    read_u32_le, u32_as_i32, u32_to_i32,
};
use crate::text::{bytes_to_string, string_bytes};
use crate::varint::{decode_var_int, encode_var_int, varint_bytes, varint_dec};

verus! {

/// One class name of an archive, with the indices of its fallback classes
/// in the class-name table.
#[derive(Debug, Clone, PartialEq, Eq, Hash)]
pub struct ClassName {
    pub name: String,
    pub fallback_classes_indeces: Vec<i32>,
}

/// The mathematical model of a class name.
pub ghost struct ClassNameView {
    pub name: Seq<char>,
    pub fallback_classes_indeces: Seq<i32>,
}

impl View for ClassName {
    type V = ClassNameView;

    open spec fn view(&self) -> ClassNameView {
        ClassNameView {
            name: self.name@,
            fallback_classes_indeces: self.fallback_classes_indeces@,
        }
    }
}

/// The wire bytes of a list of fallback class indices.
pub open spec fn fallbacks_bytes(ids: Seq<i32>) -> Seq<u8>
    decreases ids.len(),
{
    if ids.len() == 0 {
        seq![]
    } else {
        le4(i32_bits(ids[0])) + fallbacks_bytes(ids.skip(1))
    }
}

/// A class name can be written at all: the length field (name bytes plus
/// the NUL) and the fallback count both fit a non-negative 32-bit integer.
pub open spec fn class_name_encodable(c: ClassNameView) -> bool {
    &&& encode_utf8(c.name).len() + 1 <= i32::MAX
    &&& c.fallback_classes_indeces.len() <= i32::MAX
}

/// The wire bytes of a class name record.
pub open spec fn class_name_bytes(c: ClassNameView) -> Seq<u8> {
    let name_bytes = encode_utf8(c.name);
    varint_bytes((name_bytes.len() + 1) as nat) + varint_bytes(
        c.fallback_classes_indeces.len() as nat,
    ) + fallbacks_bytes(c.fallback_classes_indeces) + name_bytes + seq![0u8]
}

/// Spec-level read of `n` fallback class indices from the front of `s`.
pub open spec fn dec_fallbacks(s: Seq<u8>, n: nat) -> Result<(Seq<i32>, Seq<u8>), Error>
    decreases n,
{
    if n == 0 {
        Ok((seq![], s))
    } else {
        match dec_u32(s) {
            Err(e) => Err(e),
            Ok((x, s)) => match dec_fallbacks(s, (n - 1) as nat) {
                Err(e) => Err(e),
                Ok((ids, s)) => Ok((seq![u32_as_i32(x)] + ids, s)),
            },
        }
    }
}

/// Spec-level read of one class name record from the front of `s`. A
/// negative fallback count or name length cannot be satisfied by any input
/// and reads as truncated input; the name bytes short of the stripped
/// final byte must be valid UTF-8.
pub open spec fn dec_class_name(s: Seq<u8>) -> Result<(ClassNameView, Seq<u8>), Error> {
    match varint_dec(s) {
        Err(e) => Err(e),
        Ok((length, s)) => match varint_dec(s) {
            Err(e) => Err(e),
            Ok((count, s)) => if count < 0 {
                Err(eof_error())
            } else {
                match dec_fallbacks(s, count as nat) {
                    Err(e) => Err(e),
                    Ok((ids, s)) => if length < 0 {
                        Err(eof_error())
                    } else {
                        match dec_bytes(s, length as nat) {
                            Err(e) => Err(e),
                            Ok((raw, s)) => {
                                let stripped = if raw.len() > 0 {
                                    raw.take(raw.len() - 1)
                                } else {
                                    raw
                                };
                                if valid_utf8(stripped) {
                                    Ok(
                                        (
                                            ClassNameView {
                                                name: decode_utf8(stripped),
                                                fallback_classes_indeces: ids,
                                            },
                                            s,
                                        ),
                                    )
                                } else {
                                    Err(Error::FormatError(FormatErrorKind::InvalidUtf8))
                                }
                            },
                        }
                    },
                }
            },
        },
    }
}

impl ClassName {
    /// Creates a new archive class name.
    pub fn new(name: String, fallback_classes_indeces: Vec<i32>) -> (r: ClassName)
        ensures
            r@ == (ClassNameView {
                name: name@,
                fallback_classes_indeces: fallback_classes_indeces@,
            }),
    {
        ClassName { name, fallback_classes_indeces }
    }

    /// Reads one class name record from `bytes` at `pos`.
    #[verifier::loop_isolation(false)]
    pub fn try_from_bytes(bytes: &Vec<u8>, pos: usize) -> (r: Result<(ClassName, usize), Error>)
        requires
            pos <= bytes@.len(),
        ensures
            match r {
                Ok(c_end) => {
                    &&& pos < c_end.1 <= bytes@.len()
                    &&& dec_class_name(bytes@.skip(pos as int)) == Ok::<_, Error>(
                        (c_end.0@, bytes@.skip(c_end.1 as int)),
                    )
                },
                Err(e) => dec_class_name(bytes@.skip(pos as int)) == Err::<
                    (ClassNameView, Seq<u8>),
                    Error,
                >(e),
            },
    {
        let ghost s0 = bytes@.skip(pos as int);
        let (length, pos) = decode_var_int(bytes, pos)?;
        let (count, pos) = decode_var_int(bytes, pos)?;
        if count < 0 {
            return Err(Error::IOError(IoErrorKind::UnexpectedEof));
        }
        let ghost s_fb = bytes@.skip(pos as int);
        let ghost pos_fb = pos as int;
        let mut ids: Vec<i32> = Vec::new();
        let mut i: i32 = 0;
        let mut pos = pos;
        while i < count
            invariant
                0 <= i <= count,
                pos_fb <= pos <= bytes@.len(),
                ids@.len() == i,
                match dec_fallbacks(bytes@.skip(pos as int), (count - i) as nat) {
                    Ok(rest_s) => dec_fallbacks(s_fb, count as nat) == Ok::<_, Error>(
                        (ids@ + rest_s.0, rest_s.1),
                    ),
                    Err(e) => dec_fallbacks(s_fb, count as nat) == Err::<
                        (Seq<i32>, Seq<u8>),
                        Error,
                    >(e),
                },
            decreases count - i,
        {
            let step = read_u32_le(bytes, pos);
            match step {
                Err(e) => {
                    return Err(e);
                },
                Ok((x, next)) => {
                    let id = u32_to_i32(x);
                    proof {
                        let m = (count - i) as nat;
                        let tail = dec_fallbacks(bytes@.skip(next as int), (m - 1) as nat);
                        match tail {
                            Ok(rest_s) => {
                                assert(ids@.push(id) + rest_s.0 =~= ids@ + (seq![id] + rest_s.0));
                            },
                            Err(_) => {},
                        }
                    }
                    ids.push(id);
                    pos = next;
                    i = i + 1;
                },
            }
        }
        proof {
            assert(ids@ + Seq::<i32>::empty() =~= ids@);
            assert(dec_fallbacks(s_fb, count as nat) == Ok::<_, Error>(
                (ids@, bytes@.skip(pos as int)),
            ));
        }
        if length < 0 {
            return Err(Error::IOError(IoErrorKind::UnexpectedEof));
        }
        let (mut raw, pos) = read_bytes(bytes, pos, length as usize)?;
        let ghost raw0 = raw@;
        raw.pop();
        proof {
            let stripped = if raw0.len() > 0 {
                raw0.take(raw0.len() - 1)
            } else {
                raw0
            };
            assert(raw@ =~= stripped);
        }
        match bytes_to_string(raw) {
            Some(name) => {
                proof {
                    encode_utf8_decode_utf8(name@);
                }
                Ok((ClassName { name, fallback_classes_indeces: ids }, pos))
            },
            None => Err(Error::FormatError(FormatErrorKind::InvalidUtf8)),
        }
    }

    /// The wire bytes of this class name, or the input error if the name or
    /// the fallback list is too long for its length field.
    #[verifier::loop_isolation(false)]
    pub fn to_bytes(&self) -> (r: Result<Vec<u8>, Error>)
        ensures
            class_name_encodable(self@) ==> (r matches Ok(b) && b@ == class_name_bytes(self@)),
            !class_name_encodable(self@) ==> r == Err::<Vec<u8>, Error>(
                Error::IOError(IoErrorKind::InvalidInput),
            ),
    {
        let name_bytes = string_bytes(self.name.as_str());
        if name_bytes.len() > 0x7fff_fffe {
            return Err(Error::IOError(IoErrorKind::InvalidInput));
        }
        let mut out = encode_var_int(name_bytes.len() as i32 + 1)?;
        if self.fallback_classes_indeces.len() > 0x7fff_ffff {
            return Err(Error::IOError(IoErrorKind::InvalidInput));
        }
        let mut count_bytes = encode_var_int(self.fallback_classes_indeces.len() as i32)?;
        out.append(&mut count_bytes);
        let ghost prefix = out@;
        let ghost all_ids = self.fallback_classes_indeces@;
        let mut j: usize = 0;
        while j < self.fallback_classes_indeces.len()
            invariant
                j <= all_ids.len(),
                all_ids == self.fallback_classes_indeces@,
                out@ == prefix + fallbacks_bytes(all_ids.take(j as int)),
            decreases all_ids.len() - j,
        {
            let id = *vstd::slice::slice_index_get(self.fallback_classes_indeces.as_slice(), j);
            push_u32_le(&mut out, i32_to_u32(id));
            proof {
                lemma_fallbacks_bytes_snoc(all_ids, j as int);
                assert(out@ =~= prefix + fallbacks_bytes(all_ids.take(j + 1)));
            }
            j = j + 1;
        }
        proof {
            assert(all_ids.take(all_ids.len() as int) =~= all_ids);
        }
        out.extend_from_slice(name_bytes.as_slice());
        out.push(0x00);
        proof {
            assert(out@ =~= class_name_bytes(self@));
        }
        Ok(out)
    }

    /// Returns the name of the class.
    pub fn name(&self) -> (r: &str)
        ensures
            r@ == self.name@,
    {
        self.name.as_str()
    }

    /// Sets the class name.
    pub fn set_name(&mut self, name: String)
        ensures
            final(self).name == name,
            final(self).fallback_classes_indeces == old(self).fallback_classes_indeces,
    {
        self.name = name;
    }

    /// Returns the indices of the fallback classes.
    pub fn fallback_classes_indeces(&self) -> (r: &[i32])
        ensures
            r@ == self.fallback_classes_indeces@,
    {
        self.fallback_classes_indeces.as_slice()
    }

    /// Sets the fallback class indices.
    pub fn set_fallback_classes_indeces(&mut self, indeces: Vec<i32>)
        ensures
            final(self).fallback_classes_indeces == indeces,
            final(self).name == old(self).name,
    {
        self.fallback_classes_indeces = indeces;
    }

    /// Returns the fallback classes themselves, in order. Pass the archive's
    /// class-name table for a proper result.
    #[verifier::loop_isolation(false)]
    pub fn fallback_classes<'a>(&self, class_names: &'a [ClassName]) -> (r: Vec<&'a ClassName>)
        requires
            forall|j: int|
                0 <= j < self.fallback_classes_indeces@.len() ==> 0 <= #[trigger] self
                    .fallback_classes_indeces@[j] < class_names@.len(),
        ensures
            r@.len() == self.fallback_classes_indeces@.len(),
            forall|j: int|
                0 <= j < r@.len() ==> *#[trigger] r@[j] == class_names@[
                    self.fallback_classes_indeces@[j] as int
                ],
    {
        let mut fallback_classes: Vec<&'a ClassName> = Vec::new();
        let mut j: usize = 0;
        while j < self.fallback_classes_indeces.len()
            invariant
                j <= self.fallback_classes_indeces@.len(),
                forall|k: int|
                    0 <= k < self.fallback_classes_indeces@.len() ==> 0 <= #[trigger] self
                        .fallback_classes_indeces@[k] < class_names@.len(),
                fallback_classes@.len() == j,
                forall|k: int|
                    0 <= k < j ==> *#[trigger] fallback_classes@[k] == class_names@[
                        self.fallback_classes_indeces@[k] as int
                    ],
            decreases self.fallback_classes_indeces@.len() - j,
        {
            let id = *vstd::slice::slice_index_get(self.fallback_classes_indeces.as_slice(), j);
            fallback_classes.push(vstd::slice::slice_index_get(class_names, id as usize));
            j = j + 1;
        }
        fallback_classes
    }

    /// Consumes the class name and returns its name and fallback indices.
    pub fn into_inner(self) -> (r: (String, Vec<i32>))
        ensures
            r.0 == self.name,
            r.1 == self.fallback_classes_indeces,
    {
        (self.name, self.fallback_classes_indeces)
    }
}

/// Appending one index to a fallback list appends its four wire bytes.
proof fn lemma_fallbacks_bytes_push(ids: Seq<i32>, x: i32)
    ensures
        fallbacks_bytes(ids.push(x)) == fallbacks_bytes(ids) + le4(i32_bits(x)),
    decreases ids.len(),
{
    if ids.len() == 0 {
        assert(ids.push(x) =~= seq![x]);
        assert(fallbacks_bytes(seq![x]) == le4(i32_bits(x)) + fallbacks_bytes(
            seq![x].skip(1),
        ));
        assert(seq![x].skip(1) =~= Seq::<i32>::empty());
        assert(fallbacks_bytes(ids.push(x)) =~= fallbacks_bytes(ids) + le4(i32_bits(x)));
    } else {
        assert(ids.push(x)[0] == ids[0]);
        assert(ids.push(x).skip(1) =~= ids.skip(1).push(x));
        lemma_fallbacks_bytes_push(ids.skip(1), x);
        assert(fallbacks_bytes(ids.push(x)) =~= fallbacks_bytes(ids) + le4(i32_bits(x)));
    }
}

/// The first `j + 1` indices encode as the first `j` followed by index `j`.
proof fn lemma_fallbacks_bytes_snoc(ids: Seq<i32>, j: int)
    requires
        0 <= j < ids.len(),
    ensures
        fallbacks_bytes(ids.take(j + 1)) == fallbacks_bytes(ids.take(j)) + le4(i32_bits(ids[j])),
{
    assert(ids.take(j + 1) =~= ids.take(j).push(ids[j]));
    lemma_fallbacks_bytes_push(ids.take(j), ids[j]);
}

/// Reading the encoding of a fallback list recovers the list and consumes
/// exactly its bytes.
proof fn lemma_dec_fallbacks_of_bytes(ids: Seq<i32>, rest: Seq<u8>)
    ensures
        dec_fallbacks(fallbacks_bytes(ids) + rest, ids.len()) == Ok::<_, Error>((ids, rest)),
    decreases ids.len(),
{
    if ids.len() == 0 {
        assert(fallbacks_bytes(ids) + rest =~= rest);
        assert(ids =~= Seq::<i32>::empty());
    } else {
        let s = fallbacks_bytes(ids) + rest;
        let tail = fallbacks_bytes(ids.skip(1)) + rest;
        assert(s =~= le4(i32_bits(ids[0])) + tail);
        lemma_dec_u32_of_le4(i32_bits(ids[0]), tail);
        assert(u32_as_i32(i32_bits(ids[0])) == ids[0]);
        lemma_dec_fallbacks_of_bytes(ids.skip(1), rest);
        assert(seq![ids[0]] + ids.skip(1) =~= ids);
    }
}

/// Reading the bytes of an encodable class name recovers the class name —
/// the stored length field is the name's byte length plus one, and the
/// trailing NUL is stripped and not part of the name — and consumes exactly
/// its encoding.
pub proof fn lemma_dec_class_name_of_bytes(c: ClassNameView, rest: Seq<u8>)
    requires
        class_name_encodable(c),
    ensures
        dec_class_name(class_name_bytes(c) + rest) == Ok::<_, Error>((c, rest)),
{
    let s = class_name_bytes(c) + rest;
    let name_bytes = encode_utf8(c.name);
    let ids = c.fallback_classes_indeces;
    let len_field = (name_bytes.len() + 1) as int;
    let after_len = varint_bytes(ids.len() as nat) + (fallbacks_bytes(ids) + (name_bytes
        + seq![0u8] + rest));
    assert(s =~= varint_bytes(len_field as nat) + after_len);
    crate::varint::lemma_varint_round_trip(len_field, after_len);
    let after_count = fallbacks_bytes(ids) + (name_bytes + seq![0u8] + rest);
    crate::varint::lemma_varint_round_trip(ids.len() as int, after_count);
    lemma_dec_fallbacks_of_bytes(ids, name_bytes + seq![0u8] + rest);
    let raw_src = name_bytes + seq![0u8] + rest;
    assert(raw_src.len() >= len_field);
    let raw = raw_src.take(len_field);
    assert(raw =~= name_bytes + seq![0u8]);
    assert(raw_src.skip(len_field) =~= rest);
    assert(raw.len() > 0);
    assert(raw.take(raw.len() - 1) =~= name_bytes);
    encode_utf8_valid_utf8(c.name);
    encode_utf8_decode_utf8(c.name);
}

} // verus!
