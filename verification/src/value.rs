//! A single keyed value of an archive: an index into the key table and a
//! tagged payload. On the wire a value is one variable-length integer (the
//! key index), one tag byte, and a payload whose width the tag dictates.
//! The 32- and 64-bit floating-point payloads are carried as their IEEE-754
//! bit patterns; the codec only moves their bytes.

use vstd::prelude::*;
use crate::error::{eof_error, Error, FormatErrorKind, IoErrorKind};
use crate::le_bytes::{
    dec_u16, dec_u32, dec_u64, dec_u8, dec_bytes, i16_bits, i16_to_u16, i32_bits, i32_to_u32,
    i64_bits, i64_to_u64, i8_bits, i8_to_u8, le2, le4, le8, lemma_dec_u16_of_le2,
    lemma_dec_u32_of_le4, lemma_dec_u64_of_le8, push_u16_le, push_u32_le, push_u64_le, read_bytes,
    read_u16_le, read_u32_le, read_u64_le, read_u8, u16_as_i16, u32_as_i32, u64_as_i64, u8_as_i8,
    u16_to_i16, u32_to_i32, u64_to_i64, u8_to_i8,
};
use crate::varint::{decode_var_int, encode_var_int, varint_bytes, varint_dec};

verus! {

pub const TYPE_INT8: u8 = 0;

pub const TYPE_INT16: u8 = 1;

pub const TYPE_INT32: u8 = 2;

pub const TYPE_INT64: u8 = 3;

pub const TYPE_BOOL_FALSE: u8 = 4;

pub const TYPE_BOOL_TRUE: u8 = 5;

pub const TYPE_FLOAT: u8 = 6;

pub const TYPE_DOUBLE: u8 = 7;

pub const TYPE_DATA: u8 = 8;

pub const TYPE_NIL: u8 = 9;

pub const TYPE_OBJECT_REF: u8 = 10;

/// The payload of a value: exactly one variant is active at a time. `Float`
/// and `Double` hold the IEEE-754 bit patterns of the stored numbers.
#[derive(Debug, Clone, PartialEq)]
pub enum ValueVariant {
    Int8(i8),
    Int16(i16),
    Int32(i32),
    Int64(i64),
    Bool(bool),
    Float(u32),
    Double(u64),
    Data(Vec<u8>),
    Nil,
    ObjectRef(u32),
}

/// The mathematical model of a payload: as `ValueVariant`, with the byte
/// buffer abstracted to a sequence.
pub ghost enum VariantView {
    Int8(i8),
    Int16(i16),
    Int32(i32),
    Int64(i64),
    Bool(bool),
    Float(u32),
    Double(u64),
    Data(Seq<u8>),
    Nil,
    ObjectRef(u32),
}

impl View for ValueVariant {
    type V = VariantView;

    open spec fn view(&self) -> VariantView {
        match self {
            ValueVariant::Int8(v) => VariantView::Int8(*v),
            ValueVariant::Int16(v) => VariantView::Int16(*v),
            ValueVariant::Int32(v) => VariantView::Int32(*v),
            ValueVariant::Int64(v) => VariantView::Int64(*v),
            ValueVariant::Bool(v) => VariantView::Bool(*v),
            ValueVariant::Float(v) => VariantView::Float(*v),
            ValueVariant::Double(v) => VariantView::Double(*v),
            ValueVariant::Data(d) => VariantView::Data(d@),
            ValueVariant::Nil => VariantView::Nil,
            ValueVariant::ObjectRef(v) => VariantView::ObjectRef(*v),
        }
    }
}

/// A single value of an archive: the index of its key and the payload.
#[derive(Debug, Clone, PartialEq)]
pub struct Value {
    pub key_index: i32,
    pub value: ValueVariant,
}

/// The mathematical model of a value.
pub ghost struct ValueView {
    pub key_index: i32,
    pub value: VariantView,
}

impl View for Value {
    type V = ValueView;

    open spec fn view(&self) -> ValueView {
        ValueView { key_index: self.key_index, value: self.value@ }
    }
}

/// The tag byte a payload is written with.
pub open spec fn variant_tag(v: VariantView) -> u8 {
    match v {
        VariantView::Int8(_) => TYPE_INT8,
        VariantView::Int16(_) => TYPE_INT16,
        VariantView::Int32(_) => TYPE_INT32,
        VariantView::Int64(_) => TYPE_INT64,
        VariantView::Bool(b) => if b {
            TYPE_BOOL_TRUE
        } else {
            TYPE_BOOL_FALSE
        },
        VariantView::Float(_) => TYPE_FLOAT,
        VariantView::Double(_) => TYPE_DOUBLE,
        VariantView::Data(_) => TYPE_DATA,
        VariantView::Nil => TYPE_NIL,
        VariantView::ObjectRef(_) => TYPE_OBJECT_REF,
    }
}

/// The wire bytes of a payload, following its tag byte.
pub open spec fn variant_payload(v: VariantView) -> Seq<u8> {
    match v {
        VariantView::Int8(x) => seq![i8_bits(x)],
        VariantView::Int16(x) => le2(i16_bits(x)),
        VariantView::Int32(x) => le4(i32_bits(x)),
        VariantView::Int64(x) => le8(i64_bits(x)),
        VariantView::Bool(_) => seq![],
        VariantView::Float(bits) => le4(bits),
        VariantView::Double(bits) => le8(bits),
        VariantView::Data(d) => varint_bytes(d.len()) + d,
        VariantView::Nil => seq![],
        VariantView::ObjectRef(x) => le4(x),
    }
}

/// A value can be written at all: its key index is non-negative, and a byte
/// buffer is short enough for its length field.
pub open spec fn value_encodable(v: ValueView) -> bool {
    &&& v.key_index >= 0
    &&& (v.value matches VariantView::Data(d) ==> d.len() <= i32::MAX)
}

/// The wire bytes of a value record.
pub open spec fn value_bytes(v: ValueView) -> Seq<u8> {
    varint_bytes(v.key_index as nat) + seq![variant_tag(v.value)] + variant_payload(v.value)
}

/// Spec-level read of a payload with the given tag from the front of `s`.
/// A tag outside the table fails naming the offending byte.
pub open spec fn dec_variant(tag: u8, s: Seq<u8>) -> Result<(VariantView, Seq<u8>), Error> {
    if tag == TYPE_INT8 {
        match dec_u8(s) {
            Err(e) => Err(e),
            Ok((x, s)) => Ok((VariantView::Int8(u8_as_i8(x)), s)),
        }
    } else if tag == TYPE_INT16 {
        match dec_u16(s) {
            Err(e) => Err(e),
            Ok((x, s)) => Ok((VariantView::Int16(u16_as_i16(x)), s)),
        }
    } else if tag == TYPE_INT32 {
        match dec_u32(s) {
            Err(e) => Err(e),
            Ok((x, s)) => Ok((VariantView::Int32(u32_as_i32(x)), s)),
        }
    } else if tag == TYPE_INT64 {
        match dec_u64(s) {
            Err(e) => Err(e),
            Ok((x, s)) => Ok((VariantView::Int64(u64_as_i64(x)), s)),
        }
    } else if tag == TYPE_BOOL_FALSE {
        Ok((VariantView::Bool(false), s))
    } else if tag == TYPE_BOOL_TRUE {
        Ok((VariantView::Bool(true), s))
    } else if tag == TYPE_FLOAT {
        match dec_u32(s) {
            Err(e) => Err(e),
            Ok((x, s)) => Ok((VariantView::Float(x), s)),
        }
    } else if tag == TYPE_DOUBLE {
        match dec_u64(s) {
            Err(e) => Err(e),
            Ok((x, s)) => Ok((VariantView::Double(x), s)),
        }
    } else if tag == TYPE_DATA {
        match varint_dec(s) {
            Err(e) => Err(e),
            Ok((len, s)) => if len < 0 {
                Err(eof_error())
            } else {
                match dec_bytes(s, len as nat) {
                    Err(e) => Err(e),
                    Ok((d, s)) => Ok((VariantView::Data(d), s)),
                }
            },
        }
    } else if tag == TYPE_NIL {
        Ok((VariantView::Nil, s))
    } else if tag == TYPE_OBJECT_REF {
        match dec_u32(s) {
            Err(e) => Err(e),
            Ok((x, s)) => Ok((VariantView::ObjectRef(x), s)),
        }
    } else {
        Err(Error::FormatError(FormatErrorKind::UnknownValueType(tag)))
    }
}

/// Spec-level read of one value record from the front of `s`.
pub open spec fn dec_value(s: Seq<u8>) -> Result<(ValueView, Seq<u8>), Error> {
    match varint_dec(s) {
        Err(e) => Err(e),
        Ok((key_index, s)) => match dec_u8(s) {
            Err(e) => Err(e),
            Ok((tag, s)) => match dec_variant(tag, s) {
                Err(e) => Err(e),
                Ok((value, s)) => Ok((ValueView { key_index, value }, s)),
            },
        },
    }
}

impl Value {
    /// Creates a new archive value.
    pub fn new(key_index: i32, value: ValueVariant) -> (r: Value)
        ensures
            r@ == (ValueView { key_index, value: value@ }),
    {
        Value { key_index, value }
    }

    /// Reads one value record from `bytes` at `pos`.
    pub fn try_from_bytes(bytes: &Vec<u8>, pos: usize) -> (r: Result<(Value, usize), Error>)
        requires
            pos <= bytes@.len(),
        ensures
            match r {
                Ok(v_end) => {
                    &&& pos < v_end.1 <= bytes@.len()
                    &&& dec_value(bytes@.skip(pos as int)) == Ok::<_, Error>(
                        (v_end.0@, bytes@.skip(v_end.1 as int)),
                    )
                },
                Err(e) => dec_value(bytes@.skip(pos as int)) == Err::<(ValueView, Seq<u8>), Error>(
                    e,
                ),
            },
    {
        let (key_index, pos) = decode_var_int(bytes, pos)?;
        let (tag, pos) = read_u8(bytes, pos)?;
        if tag == TYPE_INT8 {
            let (x, pos) = read_u8(bytes, pos)?;
            Ok((Value { key_index, value: ValueVariant::Int8(u8_to_i8(x)) }, pos))
        } else if tag == TYPE_INT16 {
            let (x, pos) = read_u16_le(bytes, pos)?;
            Ok((Value { key_index, value: ValueVariant::Int16(u16_to_i16(x)) }, pos))
        } else if tag == TYPE_INT32 {
            let (x, pos) = read_u32_le(bytes, pos)?;
            Ok((Value { key_index, value: ValueVariant::Int32(u32_to_i32(x)) }, pos))
        } else if tag == TYPE_INT64 {
            let (x, pos) = read_u64_le(bytes, pos)?;
            Ok((Value { key_index, value: ValueVariant::Int64(u64_to_i64(x)) }, pos))
        } else if tag == TYPE_BOOL_FALSE {
            Ok((Value { key_index, value: ValueVariant::Bool(false) }, pos))
        } else if tag == TYPE_BOOL_TRUE {
            Ok((Value { key_index, value: ValueVariant::Bool(true) }, pos))
        } else if tag == TYPE_FLOAT {
            let (x, pos) = read_u32_le(bytes, pos)?;
            Ok((Value { key_index, value: ValueVariant::Float(x) }, pos))
        } else if tag == TYPE_DOUBLE {
            let (x, pos) = read_u64_le(bytes, pos)?;
            Ok((Value { key_index, value: ValueVariant::Double(x) }, pos))
        } else if tag == TYPE_DATA {
            let (len, pos) = decode_var_int(bytes, pos)?;
            if len < 0 {
                return Err(Error::IOError(IoErrorKind::UnexpectedEof));
            }
            let (d, pos) = read_bytes(bytes, pos, len as usize)?;
            Ok((Value { key_index, value: ValueVariant::Data(d) }, pos))
        } else if tag == TYPE_NIL {
            Ok((Value { key_index, value: ValueVariant::Nil }, pos))
        } else if tag == TYPE_OBJECT_REF {
            let (x, pos) = read_u32_le(bytes, pos)?;
            Ok((Value { key_index, value: ValueVariant::ObjectRef(x) }, pos))
        } else {
            Err(Error::FormatError(FormatErrorKind::UnknownValueType(tag)))
        }
    }

    /// The wire bytes of this value, or the input error if the key index is
    /// negative or a byte buffer is too long for its length field.
    pub fn to_bytes(&self) -> (r: Result<Vec<u8>, Error>)
        ensures
            value_encodable(self@) ==> (r matches Ok(b) && b@ == value_bytes(self@)),
            !value_encodable(self@) ==> r == Err::<Vec<u8>, Error>(
                Error::IOError(IoErrorKind::InvalidInput),
            ),
    {
        let mut out = encode_var_int(self.key_index)?;
        let ghost prefix = out@;
        match &self.value {
            ValueVariant::Int8(v) => {
                out.push(TYPE_INT8);
                out.push(i8_to_u8(*v));
            },
            ValueVariant::Int16(v) => {
                out.push(TYPE_INT16);
                push_u16_le(&mut out, i16_to_u16(*v));
            },
            ValueVariant::Int32(v) => {
                out.push(TYPE_INT32);
                push_u32_le(&mut out, i32_to_u32(*v));
            },
            ValueVariant::Int64(v) => {
                out.push(TYPE_INT64);
                push_u64_le(&mut out, i64_to_u64(*v));
            },
            ValueVariant::Bool(v) => {
                if !*v {
                    out.push(TYPE_BOOL_FALSE);
                } else {
                    out.push(TYPE_BOOL_TRUE);
                }
            },
            ValueVariant::Float(bits) => {
                out.push(TYPE_FLOAT);
                push_u32_le(&mut out, *bits);
            },
            ValueVariant::Double(bits) => {
                out.push(TYPE_DOUBLE);
                push_u64_le(&mut out, *bits);
            },
            ValueVariant::Data(d) => {
                out.push(TYPE_DATA);
                if d.len() > 0x7fff_ffff {
                    return Err(Error::IOError(IoErrorKind::InvalidInput));
                }
                let mut len_bytes = encode_var_int(d.len() as i32)?;
                out.append(&mut len_bytes);
                out.extend_from_slice(d.as_slice());
            },
            ValueVariant::Nil => {
                out.push(TYPE_NIL);
            },
            ValueVariant::ObjectRef(v) => {
                out.push(TYPE_OBJECT_REF);
                push_u32_le(&mut out, *v);
            },
        }
        proof {
            assert(out@ =~= value_bytes(self@));
        }
        Ok(out)
    }

    /// Returns the index of the key carrying the value's name.
    pub fn key_index(&self) -> (r: i32)
        ensures
            r == self.key_index,
    {
        self.key_index
    }

    /// Sets the value's key index.
    pub fn set_key_index(&mut self, index: i32)
        ensures
            final(self).key_index == index,
            final(self).value == old(self).value,
    {
        self.key_index = index
    }

    /// Returns the key associated with this value. Pass the archive's key
    /// table for a proper result.
    pub fn key<'a>(&self, keys: &'a [String]) -> (r: &'a String)
        requires
            0 <= self.key_index < keys@.len(),
        ensures
            *r == keys@[self.key_index as int],
    {
        vstd::slice::slice_index_get(keys, self.key_index as usize)
    }

    /// Returns a reference to the underlying payload.
    pub fn value(&self) -> (r: &ValueVariant)
        ensures
            *r == self.value,
    {
        &self.value
    }

    /// Sets the payload.
    pub fn set_value(&mut self, value: ValueVariant)
        ensures
            final(self).value == value,
            final(self).key_index == old(self).key_index,
    {
        self.value = value
    }

    /// Consumes the value and returns its key index and payload.
    pub fn into_inner(self) -> (r: (i32, ValueVariant))
        ensures
            r.0 == self.key_index,
            r.1 == self.value,
    {
        (self.key_index, self.value)
    }
}

/// Reading the bytes of an encodable value recovers the value and consumes
/// exactly its encoding. In particular every tag in the table round-trips
/// to the same variant and payload.
pub proof fn lemma_dec_value_of_bytes(v: ValueView, rest: Seq<u8>)
    requires
        value_encodable(v),
    ensures
        dec_value(value_bytes(v) + rest) == Ok::<_, Error>((v, rest)),
{
    let s = value_bytes(v) + rest;
    let tag = variant_tag(v.value);
    let after_key = seq![tag] + variant_payload(v.value) + rest;
    assert(s =~= varint_bytes(v.key_index as nat) + after_key);
    crate::varint::lemma_varint_round_trip(v.key_index as int, after_key);
    assert(after_key[0] == tag);
    let after_tag = after_key.skip(1);
    assert(after_tag =~= variant_payload(v.value) + rest);
    match v.value {
        VariantView::Int8(x) => {
            assert(after_tag[0] == i8_bits(x));
            assert(after_tag.skip(1) =~= rest);
            assert(u8_as_i8(i8_bits(x)) == x);
        },
        VariantView::Int16(x) => {
            lemma_dec_u16_of_le2(i16_bits(x), rest);
            assert(u16_as_i16(i16_bits(x)) == x);
        },
        VariantView::Int32(x) => {
            lemma_dec_u32_of_le4(i32_bits(x), rest);
            assert(u32_as_i32(i32_bits(x)) == x);
        },
        VariantView::Int64(x) => {
            lemma_dec_u64_of_le8(i64_bits(x), rest);
            assert(u64_as_i64(i64_bits(x)) == x);
        },
        VariantView::Bool(_) => {},
        VariantView::Float(bits) => {
            lemma_dec_u32_of_le4(bits, rest);
        },
        VariantView::Double(bits) => {
            lemma_dec_u64_of_le8(bits, rest);
        },
        VariantView::Data(d) => {
            assert(after_tag =~= varint_bytes(d.len()) + (d + rest));
            crate::varint::lemma_varint_round_trip(d.len() as int, d + rest);
            assert((d + rest).take(d.len() as int) =~= d);
            assert((d + rest).skip(d.len() as int) =~= rest);
        },
        VariantView::Nil => {},
        VariantView::ObjectRef(x) => {
            lemma_dec_u32_of_le4(x, rest);
        },
    }
}

/// Law: a tag byte outside the table makes the value decoder fail with the
/// format error naming exactly that tag, whatever bytes follow it.
pub proof fn lemma_unknown_tag_rejected(key_index: int, tag: u8, rest: Seq<u8>)
    requires
        0 <= key_index <= i32::MAX,
        tag > 10,
    ensures
        dec_value(varint_bytes(key_index as nat) + seq![tag] + rest) == Err::<
            (ValueView, Seq<u8>),
            Error,
        >(Error::FormatError(FormatErrorKind::UnknownValueType(tag))),
{
    let after_key = seq![tag] + rest;
    assert(varint_bytes(key_index as nat) + seq![tag] + rest =~= varint_bytes(key_index as nat)
        + after_key);
    crate::varint::lemma_varint_round_trip(key_index, after_key);
    assert(after_key[0] == tag);
}

} // verus!
