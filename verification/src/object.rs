//! A single object of an archive: an index into the class-name table, the
//! first index of the object's values in the value table, and the count of
//! those values. On the wire an object is three consecutive variable-length
//! integers with no alignment or terminator.

use vstd::prelude::*;
use crate::class_name::ClassName;
use crate::error::Error;
use crate::value::Value;
use crate::varint::{decode_var_int, encode_var_int, varint_bytes, varint_dec};

verus! {

/// One node of the archive's object graph. Its values are the contiguous
/// slice `values[values_index .. values_index + value_count]` of the global
/// value table.
#[derive(Debug, Clone, Copy, PartialEq, Eq, Hash, Structural)]
pub struct Object {
    pub class_name_index: i32,
    pub values_index: i32,
    pub value_count: i32,
}

/// An object can be written at all: all three fields are non-negative, so
/// each has a variable-length integer representation.
pub open spec fn object_encodable(o: Object) -> bool {
    o.class_name_index >= 0 && o.values_index >= 0 && o.value_count >= 0
}

/// The wire bytes of an object.
pub open spec fn object_bytes(o: Object) -> Seq<u8> {
    varint_bytes(o.class_name_index as nat) + varint_bytes(o.values_index as nat) + varint_bytes(
        o.value_count as nat,
    )
}

/// Spec-level read of one object record from the front of `s`.
pub open spec fn dec_object(s: Seq<u8>) -> Result<(Object, Seq<u8>), Error> {
    match varint_dec(s) {
        Err(e) => Err(e),
        Ok((class_name_index, s)) => match varint_dec(s) {
            Err(e) => Err(e),
            Ok((values_index, s)) => match varint_dec(s) {
                Err(e) => Err(e),
                Ok((value_count, s)) => Ok(
                    (Object { class_name_index, values_index, value_count }, s),
                ),
            },
        },
    }
}

impl Object {
    /// Creates a new archive object.
    pub fn new(class_name_index: i32, values_index: i32, value_count: i32) -> (r: Object)
        ensures
            r == (Object { class_name_index, values_index, value_count }),
    {
        Object { class_name_index, values_index, value_count }
    }

    /// Reads one object record from `bytes` at `pos`.
    pub fn try_from_bytes(bytes: &Vec<u8>, pos: usize) -> (r: Result<(Object, usize), Error>)
        requires
            pos <= bytes@.len(),
        ensures
            match r {
                Ok(o_end) => {
                    &&& pos < o_end.1 <= bytes@.len()
                    &&& dec_object(bytes@.skip(pos as int)) == Ok::<_, Error>(
                        (o_end.0, bytes@.skip(o_end.1 as int)),
                    )
                },
                Err(e) => dec_object(bytes@.skip(pos as int)) == Err::<(Object, Seq<u8>), Error>(
                    e,
                ),
            },
    {
        let (class_name_index, pos) = decode_var_int(bytes, pos)?;
        let (values_index, pos) = decode_var_int(bytes, pos)?;
        let (value_count, pos) = decode_var_int(bytes, pos)?;
        Ok((Object { class_name_index, values_index, value_count }, pos))
    }

    /// The wire bytes of this object, or the input error if a field is
    /// negative and so has no wire representation.
    pub fn to_bytes(&self) -> (r: Result<Vec<u8>, Error>)
        ensures
            object_encodable(*self) ==> (r matches Ok(b) && b@ == object_bytes(*self)),
            !object_encodable(*self) ==> r == Err::<Vec<u8>, Error>(
                Error::IOError(crate::error::IoErrorKind::InvalidInput),
            ),
    {
        let mut out = encode_var_int(self.class_name_index)?;
        let mut second = encode_var_int(self.values_index)?;
        out.append(&mut second);
        let mut third = encode_var_int(self.value_count)?;
        out.append(&mut third);
        Ok(out)
    }

    /// Returns the index of the class name that describes this object.
    pub fn class_name_index(&self) -> (r: i32)
        ensures
            r == self.class_name_index,
    {
        self.class_name_index
    }

    /// Sets the object's class name index.
    pub fn set_class_name_index(&mut self, index: i32)
        ensures
            *final(self) == (Object { class_name_index: index, ..*old(self) }),
    {
        self.class_name_index = index
    }

    /// Returns the first index of the object's values in the value table.
    pub fn values_index(&self) -> (r: i32)
        ensures
            r == self.values_index,
    {
        self.values_index
    }

    /// Sets the first value index of the object.
    pub fn set_values_index(&mut self, index: i32)
        ensures
            *final(self) == (Object { values_index: index, ..*old(self) }),
    {
        self.values_index = index
    }

    /// Returns the count of values the object contains.
    pub fn value_count(&self) -> (r: i32)
        ensures
            r == self.value_count,
    {
        self.value_count
    }

    /// Sets the value count of the object.
    pub fn set_value_count(&mut self, count: i32)
        ensures
            *final(self) == (Object { value_count: count, ..*old(self) }),
    {
        self.value_count = count
    }

    /// Returns the slice of values associated with this object. Pass the
    /// archive's value table for a proper result.
    pub fn values<'a>(&self, values: &'a [Value]) -> (r: &'a [Value])
        requires
            0 <= self.values_index,
            0 <= self.value_count,
            self.values_index + self.value_count <= values@.len(),
        ensures
            r@ == values@.subrange(
                self.values_index as int,
                self.values_index + self.value_count,
            ),
    {
        let start = self.values_index as usize;
        let end = start + self.value_count as usize;
        vstd::slice::slice_subrange(values, start, end)
    }

    /// Returns the class name associated with this object. Pass the
    /// archive's class-name table for a proper result.
    pub fn class_name<'a>(&self, class_names: &'a [ClassName]) -> (r: &'a ClassName)
        requires
            0 <= self.class_name_index < class_names@.len(),
        ensures
            *r == class_names@[self.class_name_index as int],
    {
        vstd::slice::slice_index_get(class_names, self.class_name_index as usize)
    }

    /// Consumes the object and returns its class name index, values index
    /// and value count.
    pub fn into_inner(self) -> (r: (i32, i32, i32))
        ensures
            r == (self.class_name_index, self.values_index, self.value_count),
    {
        (self.class_name_index, self.values_index, self.value_count)
    }
}

/// Reading the bytes of an encodable object recovers the object and
/// consumes exactly its encoding.
pub proof fn lemma_dec_object_of_bytes(o: Object, rest: Seq<u8>)
    requires
        object_encodable(o),
    ensures
        dec_object(object_bytes(o) + rest) == Ok::<_, Error>((o, rest)),
{
    let s = object_bytes(o) + rest;
    let r1 = varint_bytes(o.values_index as nat) + (varint_bytes(o.value_count as nat) + rest);
    assert(s =~= varint_bytes(o.class_name_index as nat) + r1);
    crate::varint::lemma_varint_round_trip(o.class_name_index as int, r1);
    let r2 = varint_bytes(o.value_count as nat) + rest;
    crate::varint::lemma_varint_round_trip(o.values_index as int, r2);
    crate::varint::lemma_varint_round_trip(o.value_count as int, rest);
}

} // verus!
