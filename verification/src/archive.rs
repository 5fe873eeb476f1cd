//! The archive container: owns the four block tables (objects, keys,
//! values, class names) and the two version numbers, and orchestrates
//! whole-file decoding and encoding.
//!
//! Decoding reads the magic signature, the header, then the four blocks in
//! order, checking before each block that the current position equals the
//! offset the header declares, and checking each record's cross-references
//! against the header's counts; the first violation aborts the whole
//! decode. Encoding serializes the four blocks, computes a fresh header
//! from the current table lengths and block byte sizes, and writes magic,
//! header and blocks with no gaps.

use vstd::prelude::*;
use vstd::utf8::{decode_utf8, encode_utf8, encode_utf8_decode_utf8, valid_utf8};
use crate::class_name::{
    class_name_bytes, class_name_encodable, dec_class_name, ClassName, ClassNameView,
};
use crate::error::{eof_error, BlockKind, Error, FormatErrorKind, IoErrorKind};
use crate::header::{dec_header, header_bytes, Header};
use crate::le_bytes::{dec_bytes, i32_to_u32, read_bytes};
use crate::object::{dec_object, object_bytes, object_encodable, Object};
use crate::text::{bytes_to_string, string_bytes};
use crate::value::{dec_value, value_bytes, value_encodable, Value, ValueView};
use crate::varint::{decode_var_int, encode_var_int, varint_bytes, varint_dec};

verus! {

/// The 10-byte signature every archive file begins with: "NIBArchive".
pub open spec fn magic() -> Seq<u8> {
    seq![78u8, 73u8, 66u8, 65u8, 114u8, 99u8, 104u8, 105u8, 118u8, 101u8]
}

/// The magic signature as an owned vector.
pub(crate) fn magic_bytes() -> (r: Vec<u8>)
    ensures
        r@ == magic(),
{
    let mut out: Vec<u8> = Vec::new();
    out.push(78);
    out.push(73);
    out.push(66);
    out.push(65);
    out.push(114);
    out.push(99);
    out.push(104);
    out.push(105);
    out.push(118);
    out.push(101);
    assert(out@ =~= magic());
    out
}

/// The low 32 bits of an integer, as the unsigned value an `as u32` cast
/// yields.
pub open spec fn wrap_u32(x: int) -> int {
    x % 0x1_0000_0000
}

/// The mathematical model of a key table: each string as its characters.
pub open spec fn keys_view(keys: Seq<String>) -> Seq<Seq<char>> {
    keys.map(|q: int, s: String| s@)
}

/// The mathematical model of a value table.
pub open spec fn values_view(values: Seq<Value>) -> Seq<ValueView> {
    values.map(|q: int, v: Value| v@)
}

/// The mathematical model of a class-name table.
pub open spec fn class_names_view(class_names: Seq<ClassName>) -> Seq<ClassNameView> {
    class_names.map(|q: int, c: ClassName| c@)
}

/// The result of checking one object's cross-references against the value
/// and class-name counts: the value range `values_index + value_count`
/// (taken in 32-bit arithmetic) may reach at most `value_count`, and the
/// class-name index may be at most `class_name_count`. An index exactly
/// equal to the count is accepted.
pub open spec fn object_check(o: Object, value_count: u32, class_name_count: u32) -> Result<
    (),
    Error,
> {
    if wrap_u32(o.values_index + o.value_count) > value_count {
        Err(Error::FormatError(FormatErrorKind::ValueIndexOutOfBounds))
    } else if wrap_u32(o.class_name_index as int) > class_name_count {
        Err(Error::FormatError(FormatErrorKind::ClassNameIndexOutOfBounds))
    } else {
        Ok(())
    }
}

/// The result of checking one value's key index against the key count.
pub open spec fn value_check(v: ValueView, key_count: u32) -> Result<(), Error> {
    if wrap_u32(v.key_index as int) > key_count {
        Err(Error::FormatError(FormatErrorKind::KeyIndexOutOfBounds))
    } else {
        Ok(())
    }
}

/// The result of checking a list of fallback indices against the
/// class-name count, front first.
pub open spec fn fallbacks_check(ids: Seq<i32>, class_name_count: u32) -> Result<(), Error>
    decreases ids.len(),
{
    if ids.len() == 0 {
        Ok(())
    } else if wrap_u32(ids[0] as int) > class_name_count {
        Err(Error::FormatError(FormatErrorKind::FallbackClassIndexOutOfBounds))
    } else {
        fallbacks_check(ids.skip(1), class_name_count)
    }
}

/// The result of checking one class name's fallback indices against the
/// class-name count.
pub open spec fn class_name_check(c: ClassNameView, class_name_count: u32) -> Result<(), Error> {
    fallbacks_check(c.fallback_classes_indeces, class_name_count)
}

/// The first failure among the objects' checks, if any.
pub open spec fn objects_check(objects: Seq<Object>, value_count: u32, class_name_count: u32)
    -> Result<(), Error>
    decreases objects.len(),
{
    if objects.len() == 0 {
        Ok(())
    } else {
        match object_check(objects[0], value_count, class_name_count) {
            Err(e) => Err(e),
            Ok(_) => objects_check(objects.skip(1), value_count, class_name_count),
        }
    }
}

/// The first failure among the values' checks, if any.
pub open spec fn values_check(values: Seq<ValueView>, key_count: u32) -> Result<(), Error>
    decreases values.len(),
{
    if values.len() == 0 {
        Ok(())
    } else {
        match value_check(values[0], key_count) {
            Err(e) => Err(e),
            Ok(_) => values_check(values.skip(1), key_count),
        }
    }
}

/// The first failure among the class names' checks, if any.
pub open spec fn class_names_check(class_names: Seq<ClassNameView>, class_name_count: u32)
    -> Result<(), Error>
    decreases class_names.len(),
{
    if class_names.len() == 0 {
        Ok(())
    } else {
        match class_name_check(class_names[0], class_name_count) {
            Err(e) => Err(e),
            Ok(_) => class_names_check(class_names.skip(1), class_name_count),
        }
    }
}

/// Spec-level read of `n` object records, each checked against the counts.
#[verifier::opaque]
pub open spec fn dec_objects(s: Seq<u8>, n: nat, value_count: u32, class_name_count: u32)
    -> Result<(Seq<Object>, Seq<u8>), Error>
    decreases n,
{
    if n == 0 {
        Ok((seq![], s))
    } else {
        match dec_object(s) {
            Err(e) => Err(e),
            Ok((o, s2)) => match object_check(o, value_count, class_name_count) {
                Err(e) => Err(e),
                Ok(_) => match dec_objects(s2, (n - 1) as nat, value_count, class_name_count) {
                    Err(e) => Err(e),
                    Ok((os, s3)) => Ok((seq![o] + os, s3)),
                },
            },
        }
    }
}

/// Spec-level read of one key: a variable-length byte length, then that
/// many UTF-8 bytes with no terminator and no stripping.
pub open spec fn dec_key(s: Seq<u8>) -> Result<(Seq<char>, Seq<u8>), Error> {
    match varint_dec(s) {
        Err(e) => Err(e),
        Ok((len, s)) => if len < 0 {
            Err(eof_error())
        } else {
            match dec_bytes(s, len as nat) {
                Err(e) => Err(e),
                Ok((raw, s)) => if valid_utf8(raw) {
                    Ok((decode_utf8(raw), s))
                } else {
                    Err(Error::FormatError(FormatErrorKind::InvalidUtf8))
                },
            }
        },
    }
}

/// Spec-level read of `n` keys.
#[verifier::opaque]
pub open spec fn dec_keys(s: Seq<u8>, n: nat) -> Result<(Seq<Seq<char>>, Seq<u8>), Error>
    decreases n,
{
    if n == 0 {
        Ok((seq![], s))
    } else {
        match dec_key(s) {
            Err(e) => Err(e),
            Ok((k, s2)) => match dec_keys(s2, (n - 1) as nat) {
                Err(e) => Err(e),
                Ok((ks, s3)) => Ok((seq![k] + ks, s3)),
            },
        }
    }
}

/// Spec-level read of `n` value records, each checked against the key
/// count.
#[verifier::opaque]
pub open spec fn dec_values(s: Seq<u8>, n: nat, key_count: u32) -> Result<
    (Seq<ValueView>, Seq<u8>),
    Error,
>
    decreases n,
{
    if n == 0 {
        Ok((seq![], s))
    } else {
        match dec_value(s) {
            Err(e) => Err(e),
            Ok((v, s2)) => match value_check(v, key_count) {
                Err(e) => Err(e),
                Ok(_) => match dec_values(s2, (n - 1) as nat, key_count) {
                    Err(e) => Err(e),
                    Ok((vs, s3)) => Ok((seq![v] + vs, s3)),
                },
            },
        }
    }
}

/// Spec-level read of `n` class name records, each checked against the
/// class-name count.
#[verifier::opaque]
pub open spec fn dec_class_names(s: Seq<u8>, n: nat, class_name_count: u32) -> Result<
    (Seq<ClassNameView>, Seq<u8>),
    Error,
>
    decreases n,
{
    if n == 0 {
        Ok((seq![], s))
    } else {
        match dec_class_name(s) {
            Err(e) => Err(e),
            Ok((c, s2)) => match class_name_check(c, class_name_count) {
                Err(e) => Err(e),
                Ok(_) => match dec_class_names(s2, (n - 1) as nat, class_name_count) {
                    Err(e) => Err(e),
                    Ok((cs, s3)) => Ok((seq![c] + cs, s3)),
                },
            },
        }
    }
}

/// The error a failed block-position check reports.
pub open spec fn offset_mismatch(block: BlockKind, expected: u32, actual: int) -> Error {
    Error::FormatError(
        FormatErrorKind::BlockOffsetMismatch { block, expected, actual: actual as u64 },
    )
}

/// Spec-level decoding of a whole archive: magic, header, then the four
/// blocks, each preceded by a check that the position reached so far equals
/// the offset the header declares for it. Trailing bytes after the last
/// block are ignored, as the stream reader ignores them.
pub open spec fn dec_archive(bytes: Seq<u8>) -> Result<ArchiveView, Error> {
    if bytes.len() < 10 {
        Err(eof_error())
    } else if bytes.take(10) != magic() {
        Err(Error::FormatError(FormatErrorKind::MagicMismatch))
    } else {
        match dec_header(bytes.skip(10)) {
            Err(e) => Err(e),
            Ok((h, s1)) => {
                let pos1 = bytes.len() - s1.len();
                if h.offset_objects != pos1 {
                    Err(offset_mismatch(BlockKind::Objects, h.offset_objects, pos1))
                } else {
                    match dec_objects(s1, h.object_count as nat, h.value_count,
                        h.class_name_count) {
                        Err(e) => Err(e),
                        Ok((objects, s2)) => {
                            let pos2 = bytes.len() - s2.len();
                            if h.offset_keys != pos2 {
                                Err(offset_mismatch(BlockKind::Keys, h.offset_keys, pos2))
                            } else {
                                match dec_keys(s2, h.key_count as nat) {
                                    Err(e) => Err(e),
                                    Ok((keys, s3)) => {
                                        let pos3 = bytes.len() - s3.len();
                                        if h.offset_values != pos3 {
                                            Err(
                                                offset_mismatch(
                                                    BlockKind::Values,
                                                    h.offset_values,
                                                    pos3,
                                                ),
                                            )
                                        } else {
                                            match dec_values(s3, h.value_count as nat,
                                                h.key_count) {
                                                Err(e) => Err(e),
                                                Ok((values, s4)) => {
                                                    let pos4 = bytes.len() - s4.len();
                                                    if h.offset_class_names != pos4 {
                                                        Err(
                                                            offset_mismatch(
                                                                BlockKind::ClassNames,
                                                                h.offset_class_names,
                                                                pos4,
                                                            ),
                                                        )
                                                    } else {
                                                        match dec_class_names(
                                                            s4,
                                                            h.class_name_count as nat,
                                                            h.class_name_count,
                                                        ) {
                                                            Err(e) => Err(e),
                                                            Ok((class_names, _s5)) => Ok(
                                                                ArchiveView {
                                                                    objects,
                                                                    keys,
                                                                    values,
                                                                    class_names,
                                                                    format_version:
                                                                        h.format_version,
                                                                    coder_version:
                                                                        h.coder_version,
                                                                },
                                                            ),
                                                        }
                                                    }
                                                },
                                            }
                                        }
                                    },
                                }
                            }
                        },
                    }
                }
            },
        }
    }
}

/// The decoded in-memory representation of one archive.
#[derive(Debug, Clone, PartialEq)]
pub struct NIBArchive {
    pub objects: Vec<Object>,
    pub keys: Vec<String>,
    pub values: Vec<Value>,
    pub class_names: Vec<ClassName>,
    pub format_version: u32,
    pub coder_version: u32,
}

/// The mathematical model of an archive: the four tables and the two
/// version numbers.
pub ghost struct ArchiveView {
    pub objects: Seq<Object>,
    pub keys: Seq<Seq<char>>,
    pub values: Seq<ValueView>,
    pub class_names: Seq<ClassNameView>,
    pub format_version: u32,
    pub coder_version: u32,
}

impl View for NIBArchive {
    type V = ArchiveView;

    open spec fn view(&self) -> ArchiveView {
        ArchiveView {
            objects: self.objects@,
            keys: keys_view(self.keys@),
            values: values_view(self.values@),
            class_names: class_names_view(self.class_names@),
            format_version: self.format_version,
            coder_version: self.coder_version,
        }
    }
}

/// Checks one object's cross-references against the given counts.
fn check_object(obj: &Object, value_count: u32, class_name_count: u32) -> (r: Result<(), Error>)
    ensures
        r == object_check(*obj, value_count, class_name_count),
{
    proof {
        let m = 0x1_0000_0000int;
        crate::le_bytes::lemma_i32_bits_is_mod(obj.values_index);
        crate::le_bytes::lemma_i32_bits_is_mod(obj.value_count);
        crate::le_bytes::lemma_i32_bits_is_mod(obj.class_name_index);
        vstd::arithmetic::div_mod::lemma_add_mod_noop(
            crate::le_bytes::i32_bits(obj.values_index) as int,
            crate::le_bytes::i32_bits(obj.value_count) as int,
            m,
        );
        vstd::arithmetic::div_mod::lemma_add_mod_noop(
            obj.values_index as int,
            obj.value_count as int,
            m,
        );
    }
    let sum = i32_to_u32(obj.values_index).wrapping_add(i32_to_u32(obj.value_count));
    if sum > value_count {
        return Err(Error::FormatError(FormatErrorKind::ValueIndexOutOfBounds));
    }
    if i32_to_u32(obj.class_name_index) > class_name_count {
        return Err(Error::FormatError(FormatErrorKind::ClassNameIndexOutOfBounds));
    }
    Ok(())
}

/// Checks one value's key index against the key count.
fn check_value(val: &Value, key_count: u32) -> (r: Result<(), Error>)
    ensures
        r == value_check(val@, key_count),
{
    proof {
        crate::le_bytes::lemma_i32_bits_is_mod(val.key_index);
    }
    if i32_to_u32(val.key_index) > key_count {
        return Err(Error::FormatError(FormatErrorKind::KeyIndexOutOfBounds));
    }
    Ok(())
}

/// Checks one class name's fallback indices against the class-name count.
#[verifier::loop_isolation(false)]
fn check_class_name(cls: &ClassName, class_name_count: u32) -> (r: Result<(), Error>)
    ensures
        r == class_name_check(cls@, class_name_count),
{
    let ghost ids = cls.fallback_classes_indeces@;
    proof {
        assert(ids.skip(0) =~= ids);
    }
    let mut j: usize = 0;
    while j < cls.fallback_classes_indeces.len()
        invariant
            j <= ids.len(),
            fallbacks_check(ids, class_name_count) == fallbacks_check(
                ids.skip(j as int),
                class_name_count,
            ),
        decreases ids.len() - j,
    {
        let id = *vstd::slice::slice_index_get(cls.fallback_classes_indeces.as_slice(), j);
        proof {
            crate::le_bytes::lemma_i32_bits_is_mod(id);
            assert(ids.skip(j as int)[0] == id);
            assert(ids.skip(j as int).skip(1) =~= ids.skip(j + 1));
        }
        if i32_to_u32(id) > class_name_count {
            return Err(Error::FormatError(FormatErrorKind::FallbackClassIndexOutOfBounds));
        }
        j = j + 1;
    }
    proof {
        assert(ids.skip(ids.len() as int).len() == 0);
    }
    Ok(())
}

/// Reads `n` object records from `bytes` at `pos`, checking each against
/// the header counts.
#[verifier::loop_isolation(false)]
fn read_objects_block(
    bytes: &Vec<u8>,
    pos: usize,
    n: u32,
    value_count: u32,
    class_name_count: u32,
) -> (r: Result<(Vec<Object>, usize), Error>)
    requires
        pos <= bytes@.len(),
    ensures
        match r {
            Ok(os_end) => {
                &&& pos <= os_end.1 <= bytes@.len()
                &&& dec_objects(bytes@.skip(pos as int), n as nat, value_count, class_name_count)
                    == Ok::<_, Error>((os_end.0@, bytes@.skip(os_end.1 as int)))
            },
            Err(e) => dec_objects(bytes@.skip(pos as int), n as nat, value_count, class_name_count)
                == Err::<(Seq<Object>, Seq<u8>), Error>(e),
        },
{
    proof {
        reveal_with_fuel(dec_objects, 2);
    }
    let ghost s0 = bytes@.skip(pos as int);
    let ghost pos0 = pos as int;
    let mut objects: Vec<Object> = Vec::new();
    let mut i: u32 = 0;
    let mut pos = pos;
    while i < n
        invariant
            i <= n,
            pos0 <= pos <= bytes@.len(),
            objects@.len() == i,
            match dec_objects(bytes@.skip(pos as int), (n - i) as nat, value_count,
                class_name_count) {
                Ok(rest) => dec_objects(s0, n as nat, value_count, class_name_count) == Ok::<
                    _,
                    Error,
                >((objects@ + rest.0, rest.1)),
                Err(e) => dec_objects(s0, n as nat, value_count, class_name_count) == Err::<
                    (Seq<Object>, Seq<u8>),
                    Error,
                >(e),
            },
        decreases n - i,
    {
        match Object::try_from_bytes(bytes, pos) {
            Err(e) => {
                return Err(e);
            },
            Ok((o, next)) => {
                match check_object(&o, value_count, class_name_count) {
                    Err(e) => {
                        return Err(e);
                    },
                    Ok(_) => {
                        proof {
                            reveal_with_fuel(dec_objects, 2);
                            match dec_objects(bytes@.skip(next as int), (n - i - 1) as nat,
                                value_count, class_name_count) {
                                Ok(rest) => {
                                    assert(objects@.push(o) + rest.0 =~= objects@ + (seq![o]
                                        + rest.0));
                                },
                                Err(_) => {},
                            }
                        }
                        objects.push(o);
                        pos = next;
                        i = i + 1;
                    },
                }
            },
        }
    }
    proof {
        assert(objects@ + Seq::<Object>::empty() =~= objects@);
    }
    Ok((objects, pos))
}

/// Reads `n` keys from `bytes` at `pos`: each a variable-length byte length
/// followed by that many UTF-8 bytes, no terminator, no stripping.
#[verifier::loop_isolation(false)]
fn read_keys_block(bytes: &Vec<u8>, pos: usize, n: u32) -> (r: Result<(Vec<String>, usize), Error>)
    requires
        pos <= bytes@.len(),
    ensures
        match r {
            Ok(ks_end) => {
                &&& pos <= ks_end.1 <= bytes@.len()
                &&& dec_keys(bytes@.skip(pos as int), n as nat) == Ok::<_, Error>(
                    (keys_view(ks_end.0@), bytes@.skip(ks_end.1 as int)),
                )
            },
            Err(e) => dec_keys(bytes@.skip(pos as int), n as nat) == Err::<
                (Seq<Seq<char>>, Seq<u8>),
                Error,
            >(e),
        },
{
    proof {
        reveal_with_fuel(dec_keys, 2);
    }
    let ghost s0 = bytes@.skip(pos as int);
    let ghost pos0 = pos as int;
    let mut keys: Vec<String> = Vec::new();
    let mut i: u32 = 0;
    let mut pos = pos;
    while i < n
        invariant
            i <= n,
            pos0 <= pos <= bytes@.len(),
            keys@.len() == i,
            match dec_keys(bytes@.skip(pos as int), (n - i) as nat) {
                Ok(rest) => dec_keys(s0, n as nat) == Ok::<_, Error>(
                    (keys_view(keys@) + rest.0, rest.1),
                ),
                Err(e) => dec_keys(s0, n as nat) == Err::<(Seq<Seq<char>>, Seq<u8>), Error>(e),
            },
        decreases n - i,
    {
        let step = decode_var_int(bytes, pos);
        match step {
            Err(e) => {
                return Err(e);
            },
            Ok((len, p1)) => {
                if len < 0 {
                    return Err(Error::IOError(IoErrorKind::UnexpectedEof));
                }
                match read_bytes(bytes, p1, len as usize) {
                    Err(e) => {
                        return Err(e);
                    },
                    Ok((raw, p2)) => {
                        match bytes_to_string(raw) {
                            Some(key) => {
                                proof {
                                    reveal_with_fuel(dec_keys, 2);
                                    encode_utf8_decode_utf8(key@);
                                    match dec_keys(bytes@.skip(p2 as int), (n - i - 1) as nat) {
                                        Ok(rest) => {
                                            assert(keys_view(keys@.push(key))
                                                + rest.0 =~= keys_view(keys@) + (
                                            seq![key@] + rest.0));
                                        },
                                        Err(_) => {},
                                    }
                                }
                                keys.push(key);
                                pos = p2;
                                i = i + 1;
                            },
                            None => {
                                return Err(Error::FormatError(FormatErrorKind::InvalidUtf8));
                            },
                        }
                    },
                }
            },
        }
    }
    proof {
        assert(keys_view(keys@) + Seq::<Seq<char>>::empty() =~= keys_view(keys@));
    }
    Ok((keys, pos))
}

/// Reads `n` value records from `bytes` at `pos`, checking each key index
/// against the key count.
#[verifier::loop_isolation(false)]
fn read_values_block(bytes: &Vec<u8>, pos: usize, n: u32, key_count: u32) -> (r: Result<
    (Vec<Value>, usize),
    Error,
>)
    requires
        pos <= bytes@.len(),
    ensures
        match r {
            Ok(vs_end) => {
                &&& pos <= vs_end.1 <= bytes@.len()
                &&& dec_values(bytes@.skip(pos as int), n as nat, key_count) == Ok::<_, Error>(
                    (values_view(vs_end.0@), bytes@.skip(vs_end.1 as int)),
                )
            },
            Err(e) => dec_values(bytes@.skip(pos as int), n as nat, key_count) == Err::<
                (Seq<ValueView>, Seq<u8>),
                Error,
            >(e),
        },
{
    proof {
        reveal_with_fuel(dec_values, 2);
    }
    let ghost s0 = bytes@.skip(pos as int);
    let ghost pos0 = pos as int;
    let mut values: Vec<Value> = Vec::new();
    let mut i: u32 = 0;
    let mut pos = pos;
    while i < n
        invariant
            i <= n,
            pos0 <= pos <= bytes@.len(),
            values@.len() == i,
            match dec_values(bytes@.skip(pos as int), (n - i) as nat, key_count) {
                Ok(rest) => dec_values(s0, n as nat, key_count) == Ok::<_, Error>(
                    (values_view(values@) + rest.0, rest.1),
                ),
                Err(e) => dec_values(s0, n as nat, key_count) == Err::<
                    (Seq<ValueView>, Seq<u8>),
                    Error,
                >(e),
            },
        decreases n - i,
    {
        match Value::try_from_bytes(bytes, pos) {
            Err(e) => {
                return Err(e);
            },
            Ok((v, next)) => {
                match check_value(&v, key_count) {
                    Err(e) => {
                        return Err(e);
                    },
                    Ok(_) => {
                        proof {
                            reveal_with_fuel(dec_values, 2);
                            match dec_values(bytes@.skip(next as int), (n - i - 1) as nat,
                                key_count) {
                                Ok(rest) => {
                                    assert(values_view(values@.push(v)) + rest.0
                                        =~= values_view(values@) + (seq![v@]
                                        + rest.0));
                                },
                                Err(_) => {},
                            }
                        }
                        values.push(v);
                        pos = next;
                        i = i + 1;
                    },
                }
            },
        }
    }
    proof {
        assert(values_view(values@) + Seq::<ValueView>::empty() =~= values_view(values@));
    }
    Ok((values, pos))
}

/// Reads `n` class name records from `bytes` at `pos`, checking each
/// fallback index against the class-name count.
#[verifier::loop_isolation(false)]
fn read_class_names_block(bytes: &Vec<u8>, pos: usize, n: u32, class_name_count: u32) -> (r:
    Result<(Vec<ClassName>, usize), Error>)
    requires
        pos <= bytes@.len(),
    ensures
        match r {
            Ok(cs_end) => {
                &&& pos <= cs_end.1 <= bytes@.len()
                &&& dec_class_names(bytes@.skip(pos as int), n as nat, class_name_count) == Ok::<
                    _,
                    Error,
                >((class_names_view(cs_end.0@), bytes@.skip(cs_end.1 as int)))
            },
            Err(e) => dec_class_names(bytes@.skip(pos as int), n as nat, class_name_count)
                == Err::<(Seq<ClassNameView>, Seq<u8>), Error>(e),
        },
{
    proof {
        reveal_with_fuel(dec_class_names, 2);
    }
    let ghost s0 = bytes@.skip(pos as int);
    let ghost pos0 = pos as int;
    let mut class_names: Vec<ClassName> = Vec::new();
    let mut i: u32 = 0;
    let mut pos = pos;
    while i < n
        invariant
            i <= n,
            pos0 <= pos <= bytes@.len(),
            class_names@.len() == i,
            match dec_class_names(bytes@.skip(pos as int), (n - i) as nat, class_name_count) {
                Ok(rest) => dec_class_names(s0, n as nat, class_name_count) == Ok::<_, Error>(
                    (class_names_view(class_names@) + rest.0, rest.1),
                ),
                Err(e) => dec_class_names(s0, n as nat, class_name_count) == Err::<
                    (Seq<ClassNameView>, Seq<u8>),
                    Error,
                >(e),
            },
        decreases n - i,
    {
        match ClassName::try_from_bytes(bytes, pos) {
            Err(e) => {
                return Err(e);
            },
            Ok((c, next)) => {
                match check_class_name(&c, class_name_count) {
                    Err(e) => {
                        return Err(e);
                    },
                    Ok(_) => {
                        proof {
                            match dec_class_names(bytes@.skip(next as int), (n - i - 1) as nat,
                                class_name_count) {
                                Ok(rest) => {
                                    assert(class_names_view(class_names@.push(c))
                                        + rest.0 =~= class_names_view(class_names@)
                                        + (seq![c@] + rest.0));
                                },
                                Err(_) => {},
                            }
                        }
                        class_names.push(c);
                        pos = next;
                        i = i + 1;
                    },
                }
            },
        }
    }
    proof {
        assert(class_names_view(class_names@) + Seq::<ClassNameView>::empty()
            =~= class_names_view(class_names@));
    }
    Ok((class_names, pos))
}

impl NIBArchive {
    /// Reads and decodes an archive from a byte vector, as `dec_archive`
    /// describes: the magic signature and header are read, every block must
    /// begin at its declared offset, and every cross-reference is checked
    /// against the header's counts. The first violation aborts the decode
    /// with its error; no partial archive is returned.
    #[verifier::loop_isolation(false)]
    #[verifier::rlimit(100)]
    pub fn from_bytes(bytes: &Vec<u8>) -> (r: Result<NIBArchive, Error>)
        ensures
            match r {
                Ok(a) => dec_archive(bytes@) == Ok::<ArchiveView, Error>(a@),
                Err(e) => dec_archive(bytes@) == Err::<ArchiveView, Error>(e),
            },
    {
        if bytes.len() < 10 {
            return Err(Error::IOError(IoErrorKind::UnexpectedEof));
        }
        let magic_vec = magic_bytes();
        let mut k: usize = 0;
        while k < 10
            invariant
                k <= 10,
                forall|j: int| 0 <= j < k ==> bytes@[j] == magic()[j],
            decreases 10 - k,
        {
            let a = *vstd::slice::slice_index_get(bytes.as_slice(), k);
            let b = *vstd::slice::slice_index_get(magic_vec.as_slice(), k);
            if a != b {
                proof {
                    assert(bytes@.take(10)[k as int] != magic()[k as int]);
                }
                return Err(Error::FormatError(FormatErrorKind::MagicMismatch));
            }
            k = k + 1;
        }
        proof {
            assert(bytes@.take(10) =~= magic());
        }
        let (h, pos) = Header::try_from_bytes(bytes, 10)?;
        if (h.offset_objects as u64) != (pos as u64) {
            return Err(
                Error::FormatError(
                    FormatErrorKind::BlockOffsetMismatch {
                        block: BlockKind::Objects,
                        expected: h.offset_objects,
                        actual: pos as u64,
                    },
                ),
            );
        }
        let (objects, pos) = read_objects_block(bytes, pos, h.object_count, h.value_count,
            h.class_name_count)?;
        if (h.offset_keys as u64) != (pos as u64) {
            return Err(
                Error::FormatError(
                    FormatErrorKind::BlockOffsetMismatch {
                        block: BlockKind::Keys,
                        expected: h.offset_keys,
                        actual: pos as u64,
                    },
                ),
            );
        }
        let (keys, pos) = read_keys_block(bytes, pos, h.key_count)?;
        if (h.offset_values as u64) != (pos as u64) {
            return Err(
                Error::FormatError(
                    FormatErrorKind::BlockOffsetMismatch {
                        block: BlockKind::Values,
                        expected: h.offset_values,
                        actual: pos as u64,
                    },
                ),
            );
        }
        let (values, pos) = read_values_block(bytes, pos, h.value_count, h.key_count)?;
        if (h.offset_class_names as u64) != (pos as u64) {
            return Err(
                Error::FormatError(
                    FormatErrorKind::BlockOffsetMismatch {
                        block: BlockKind::ClassNames,
                        expected: h.offset_class_names,
                        actual: pos as u64,
                    },
                ),
            );
        }
        let (class_names, _end) = read_class_names_block(bytes, pos, h.class_name_count,
            h.class_name_count)?;
        Ok(
            NIBArchive {
                objects,
                keys,
                values,
                class_names,
                format_version: h.format_version,
                coder_version: h.coder_version,
            },
        )
    }
}

/// The default format version of a freshly constructed archive.
pub const DEFAULT_FORMAT_VERSION: u32 = 1;

/// The default coder version of a freshly constructed archive.
pub const DEFAULT_CODER_VERSION: u32 = 9;

/// The wire bytes of the objects block: one record per object, in order.
#[verifier::opaque]
pub open spec fn objects_block(objects: Seq<Object>) -> Seq<u8>
    decreases objects.len(),
{
    if objects.len() == 0 {
        seq![]
    } else {
        object_bytes(objects[0]) + objects_block(objects.skip(1))
    }
}

/// The wire bytes of one key: its UTF-8 byte length as a variable-length
/// integer, then the bytes, with no terminator.
pub open spec fn key_bytes(k: Seq<char>) -> Seq<u8> {
    varint_bytes(encode_utf8(k).len()) + encode_utf8(k)
}

/// A key can be written at all: its byte length fits the length field.
pub open spec fn key_encodable(k: Seq<char>) -> bool {
    encode_utf8(k).len() <= i32::MAX
}

/// The wire bytes of the keys block.
#[verifier::opaque]
pub open spec fn keys_block(keys: Seq<Seq<char>>) -> Seq<u8>
    decreases keys.len(),
{
    if keys.len() == 0 {
        seq![]
    } else {
        key_bytes(keys[0]) + keys_block(keys.skip(1))
    }
}

/// The wire bytes of the values block.
#[verifier::opaque]
pub open spec fn values_block(values: Seq<ValueView>) -> Seq<u8>
    decreases values.len(),
{
    if values.len() == 0 {
        seq![]
    } else {
        value_bytes(values[0]) + values_block(values.skip(1))
    }
}

/// The wire bytes of the class-names block.
#[verifier::opaque]
pub open spec fn class_names_block(class_names: Seq<ClassNameView>) -> Seq<u8>
    decreases class_names.len(),
{
    if class_names.len() == 0 {
        seq![]
    } else {
        class_name_bytes(class_names[0]) + class_names_block(class_names.skip(1))
    }
}

/// Every object of a table has a wire representation.
pub open spec fn objects_encodable(objects: Seq<Object>) -> bool {
    forall|i: int| 0 <= i < objects.len() ==> object_encodable(#[trigger] objects[i])
}

/// Every key of a table has a wire representation.
pub open spec fn keys_encodable(keys: Seq<Seq<char>>) -> bool {
    forall|i: int| 0 <= i < keys.len() ==> key_encodable(#[trigger] keys[i])
}

/// Every value of a table has a wire representation.
pub open spec fn values_encodable(values: Seq<ValueView>) -> bool {
    forall|i: int| 0 <= i < values.len() ==> value_encodable(#[trigger] values[i])
}

/// Every class name of a table has a wire representation.
pub open spec fn class_names_encodable(class_names: Seq<ClassNameView>) -> bool {
    forall|i: int| 0 <= i < class_names.len() ==> class_name_encodable(#[trigger] class_names[i])
}

/// Every record of the archive has a wire representation: all object fields
/// and key indices are non-negative, and every length fits its field.
pub open spec fn archive_encodable(m: ArchiveView) -> bool {
    &&& objects_encodable(m.objects)
    &&& keys_encodable(m.keys)
    &&& values_encodable(m.values)
    &&& class_names_encodable(m.class_names)
}

/// The header the encoder computes from the current tables: counts are the
/// table lengths, and each offset is the cumulative byte size of everything
/// before its block (10 bytes of magic plus the 40-byte header make the
/// first offset 50), all taken to 32 bits as the header stores them.
pub open spec fn computed_header(m: ArchiveView) -> Header {
    Header {
        format_version: m.format_version,
        coder_version: m.coder_version,
        object_count: wrap_u32(m.objects.len() as int) as u32,
        offset_objects: 50,
        key_count: wrap_u32(m.keys.len() as int) as u32,
        offset_keys: wrap_u32((50 + objects_block(m.objects).len()) as int) as u32,
        value_count: wrap_u32(m.values.len() as int) as u32,
        offset_values: wrap_u32(
            (50 + objects_block(m.objects).len() + keys_block(m.keys).len()) as int,
        ) as u32,
        class_name_count: wrap_u32(m.class_names.len() as int) as u32,
        offset_class_names: wrap_u32(
            (50 + objects_block(m.objects).len() + keys_block(m.keys).len() + values_block(
                m.values,
            ).len()) as int,
        ) as u32,
    }
}

/// Spec-level encoding of a whole archive: magic, the computed header, then
/// the four blocks in order with no gaps.
pub open spec fn enc_archive(m: ArchiveView) -> Seq<u8> {
    magic() + header_bytes(computed_header(m)) + objects_block(m.objects) + keys_block(m.keys)
        + values_block(m.values) + class_names_block(m.class_names)
}

/// Appending one object to a table appends its record bytes to the block.
pub proof fn lemma_objects_block_push(objects: Seq<Object>, o: Object)
    ensures
        objects_block(objects.push(o)) == objects_block(objects) + object_bytes(o),
    decreases objects.len(),
{
    reveal_with_fuel(objects_block, 2);
    if objects.len() == 0 {
        assert(objects.push(o)[0] == o);
        assert(objects.push(o).skip(1) =~= Seq::<Object>::empty());
        assert(objects_block(Seq::<Object>::empty()) == Seq::<u8>::empty());
        assert(objects_block(objects.push(o)) =~= objects_block(objects) + object_bytes(o));
    } else {
        assert(objects.push(o)[0] == objects[0]);
        assert(objects.push(o).skip(1) =~= objects.skip(1).push(o));
        lemma_objects_block_push(objects.skip(1), o);
        assert(objects_block(objects.push(o)) =~= objects_block(objects) + object_bytes(o));
    }
}

/// Appending one key to a table appends its record bytes to the block.
pub proof fn lemma_keys_block_push(keys: Seq<Seq<char>>, k: Seq<char>)
    ensures
        keys_block(keys.push(k)) == keys_block(keys) + key_bytes(k),
    decreases keys.len(),
{
    reveal_with_fuel(keys_block, 2);
    if keys.len() == 0 {
        assert(keys.push(k)[0] == k);
        assert(keys.push(k).skip(1) =~= Seq::<Seq<char>>::empty());
        assert(keys_block(Seq::<Seq<char>>::empty()) == Seq::<u8>::empty());
        assert(keys_block(keys.push(k)) =~= keys_block(keys) + key_bytes(k));
    } else {
        assert(keys.push(k)[0] == keys[0]);
        assert(keys.push(k).skip(1) =~= keys.skip(1).push(k));
        lemma_keys_block_push(keys.skip(1), k);
        assert(keys_block(keys.push(k)) =~= keys_block(keys) + key_bytes(k));
    }
}

/// Appending one value to a table appends its record bytes to the block.
pub proof fn lemma_values_block_push(values: Seq<ValueView>, v: ValueView)
    ensures
        values_block(values.push(v)) == values_block(values) + value_bytes(v),
    decreases values.len(),
{
    reveal_with_fuel(values_block, 2);
    if values.len() == 0 {
        assert(values.push(v)[0] == v);
        assert(values.push(v).skip(1) =~= Seq::<ValueView>::empty());
        assert(values_block(Seq::<ValueView>::empty()) == Seq::<u8>::empty());
        assert(values_block(values.push(v)) =~= values_block(values) + value_bytes(v));
    } else {
        assert(values.push(v)[0] == values[0]);
        assert(values.push(v).skip(1) =~= values.skip(1).push(v));
        lemma_values_block_push(values.skip(1), v);
        assert(values_block(values.push(v)) =~= values_block(values) + value_bytes(v));
    }
}

/// Appending one class name to a table appends its record bytes to the
/// block.
pub proof fn lemma_class_names_block_push(class_names: Seq<ClassNameView>, c: ClassNameView)
    ensures
        class_names_block(class_names.push(c)) == class_names_block(class_names)
            + class_name_bytes(c),
    decreases class_names.len(),
{
    reveal_with_fuel(class_names_block, 2);
    if class_names.len() == 0 {
        assert(class_names.push(c)[0] == c);
        assert(class_names.push(c).skip(1) =~= Seq::<ClassNameView>::empty());
        assert(class_names_block(Seq::<ClassNameView>::empty()) == Seq::<u8>::empty());
        assert(class_names_block(class_names.push(c)) =~= class_names_block(class_names)
            + class_name_bytes(c));
    } else {
        assert(class_names.push(c)[0] == class_names[0]);
        assert(class_names.push(c).skip(1) =~= class_names.skip(1).push(c));
        lemma_class_names_block_push(class_names.skip(1), c);
        assert(class_names_block(class_names.push(c)) =~= class_names_block(class_names)
            + class_name_bytes(c));
    }
}

/// Serializes the objects table into its block bytes.
#[verifier::loop_isolation(false)]
fn write_objects_block(objects: &Vec<Object>) -> (r: Result<Vec<u8>, Error>)
    ensures
        objects_encodable(objects@) ==> (r matches Ok(b) && b@ == objects_block(objects@)),
        !objects_encodable(objects@) ==> r == Err::<Vec<u8>, Error>(
            Error::IOError(IoErrorKind::InvalidInput),
        ),
{
    proof {
        reveal_with_fuel(objects_block, 1);
    }
    let mut out: Vec<u8> = Vec::new();
    let mut i: usize = 0;
    while i < objects.len()
        invariant
            i <= objects@.len(),
            forall|k: int| 0 <= k < i ==> object_encodable(#[trigger] objects@[k]),
            out@ == objects_block(objects@.take(i as int)),
        decreases objects@.len() - i,
    {
        let o = *vstd::slice::slice_index_get(objects.as_slice(), i);
        match o.to_bytes() {
            Err(e) => {
                proof {
                    assert(!object_encodable(objects@[i as int]));
                    assert(!objects_encodable(objects@));
                }
                return Err(e);
            },
            Ok(mut b) => {
                proof {
                    lemma_objects_block_push(objects@.take(i as int), objects@[i as int]);
                    assert(objects@.take(i + 1) =~= objects@.take(i as int).push(
                        objects@[i as int],
                    ));
                }
                out.append(&mut b);
                i = i + 1;
            },
        }
    }
    proof {
        assert(objects@.take(objects@.len() as int) =~= objects@);
    }
    Ok(out)
}

/// Serializes the keys table into its block bytes.
#[verifier::loop_isolation(false)]
fn write_keys_block(keys: &Vec<String>) -> (r: Result<Vec<u8>, Error>)
    ensures
        keys_encodable(keys_view(keys@)) ==> (r matches Ok(b) && b@ == keys_block(
            keys_view(keys@),
        )),
        !keys_encodable(keys_view(keys@)) ==> r == Err::<Vec<u8>, Error>(
            Error::IOError(IoErrorKind::InvalidInput),
        ),
{
    proof {
        reveal_with_fuel(keys_block, 1);
    }
    let ghost kview = keys_view(keys@);
    let mut out: Vec<u8> = Vec::new();
    let mut i: usize = 0;
    while i < keys.len()
        invariant
            i <= keys@.len(),
            kview == keys_view(keys@),
            forall|k: int| 0 <= k < i ==> key_encodable(#[trigger] kview[k]),
            out@ == keys_block(kview.take(i as int)),
        decreases keys@.len() - i,
    {
        let key = vstd::slice::slice_index_get(keys.as_slice(), i);
        let bytes = string_bytes(key.as_str());
        if bytes.len() > 0x7fff_ffff {
            proof {
                assert(kview[i as int] == keys@[i as int]@);
                assert(!key_encodable(kview[i as int]));
            }
            return Err(Error::IOError(IoErrorKind::InvalidInput));
        }
        let mut len_bytes = match encode_var_int(bytes.len() as i32) {
            Ok(b) => b,
            Err(_) => {
                // The length was just checked to fit a non-negative i32,
                // so the encoder's contract rules this branch out.
                proof {
                    assert(false);
                }
                return Err(Error::IOError(IoErrorKind::InvalidInput));
            },
        };
        proof {
            lemma_keys_block_push(kview.take(i as int), kview[i as int]);
            assert(kview.take(i + 1) =~= kview.take(i as int).push(kview[i as int]));
        }
        out.append(&mut len_bytes);
        out.extend_from_slice(bytes.as_slice());
        proof {
            assert(out@ =~= keys_block(kview.take(i + 1)));
        }
        i = i + 1;
    }
    proof {
        assert(kview.take(kview.len() as int) =~= kview);
    }
    Ok(out)
}

/// Serializes the values table into its block bytes.
#[verifier::loop_isolation(false)]
fn write_values_block(values: &Vec<Value>) -> (r: Result<Vec<u8>, Error>)
    ensures
        values_encodable(values_view(values@)) ==> (r matches Ok(b) && b@ == values_block(
            values_view(values@),
        )),
        !values_encodable(values_view(values@)) ==> r == Err::<Vec<u8>, Error>(
            Error::IOError(IoErrorKind::InvalidInput),
        ),
{
    proof {
        reveal_with_fuel(values_block, 1);
    }
    let ghost vview = values_view(values@);
    let mut out: Vec<u8> = Vec::new();
    let mut i: usize = 0;
    while i < values.len()
        invariant
            i <= values@.len(),
            vview == values_view(values@),
            forall|k: int| 0 <= k < i ==> value_encodable(#[trigger] vview[k]),
            out@ == values_block(vview.take(i as int)),
        decreases values@.len() - i,
    {
        let v = vstd::slice::slice_index_get(values.as_slice(), i);
        match v.to_bytes() {
            Err(e) => {
                proof {
                    assert(vview[i as int] == values@[i as int]@);
                    assert(!value_encodable(vview[i as int]));
                }
                return Err(e);
            },
            Ok(mut b) => {
                proof {
                    lemma_values_block_push(vview.take(i as int), vview[i as int]);
                    assert(vview.take(i + 1) =~= vview.take(i as int).push(vview[i as int]));
                }
                out.append(&mut b);
                i = i + 1;
            },
        }
    }
    proof {
        assert(vview.take(vview.len() as int) =~= vview);
    }
    Ok(out)
}

/// Serializes the class-names table into its block bytes.
#[verifier::loop_isolation(false)]
fn write_class_names_block(class_names: &Vec<ClassName>) -> (r: Result<Vec<u8>, Error>)
    ensures
        class_names_encodable(class_names_view(class_names@)) ==> (r matches Ok(b) && b@
            == class_names_block(class_names_view(class_names@))),
        !class_names_encodable(class_names_view(class_names@)) ==> r == Err::<Vec<u8>, Error>(
            Error::IOError(IoErrorKind::InvalidInput),
        ),
{
    proof {
        reveal_with_fuel(class_names_block, 1);
    }
    let ghost cview = class_names_view(class_names@);
    let mut out: Vec<u8> = Vec::new();
    let mut i: usize = 0;
    while i < class_names.len()
        invariant
            i <= class_names@.len(),
            cview == class_names_view(class_names@),
            forall|k: int| 0 <= k < i ==> class_name_encodable(#[trigger] cview[k]),
            out@ == class_names_block(cview.take(i as int)),
        decreases class_names@.len() - i,
    {
        let c = vstd::slice::slice_index_get(class_names.as_slice(), i);
        match c.to_bytes() {
            Err(e) => {
                proof {
                    assert(cview[i as int] == class_names@[i as int]@);
                    assert(!class_name_encodable(cview[i as int]));
                }
                return Err(e);
            },
            Ok(mut b) => {
                proof {
                    lemma_class_names_block_push(cview.take(i as int), cview[i as int]);
                    assert(cview.take(i + 1) =~= cview.take(i as int).push(cview[i as int]));
                }
                out.append(&mut b);
                i = i + 1;
            },
        }
    }
    proof {
        assert(cview.take(cview.len() as int) =~= cview);
    }
    Ok(out)
}

impl NIBArchive {
    /// Encodes the archive: the four blocks are serialized, a fresh header
    /// is computed from the current table lengths and block byte sizes, and
    /// magic, header and blocks are emitted in order with no gaps. Fails
    /// with the input error exactly when some record has no wire
    /// representation.
    pub fn to_bytes(&self) -> (r: Result<Vec<u8>, Error>)
        ensures
            archive_encodable(self@) ==> (r matches Ok(b) && b@ == enc_archive(self@)),
            !archive_encodable(self@) ==> r == Err::<Vec<u8>, Error>(
                Error::IOError(IoErrorKind::InvalidInput),
            ),
    {
        let mut objects_bytes = write_objects_block(&self.objects)?;
        let mut keys_bytes = write_keys_block(&self.keys)?;
        let mut values_bytes = write_values_block(&self.values)?;
        let mut classes_bytes = write_class_names_block(&self.class_names)?;

        let modulus: u64 = 0x1_0000_0000;
        let object_count = ((self.objects.len() as u64) % modulus) as u32;
        let key_count = ((self.keys.len() as u64) % modulus) as u32;
        let value_count = ((self.values.len() as u64) % modulus) as u32;
        let class_name_count = ((self.class_names.len() as u64) % modulus) as u32;
        let obj_mod = (objects_bytes.len() as u64) % modulus;
        let keys_mod = (keys_bytes.len() as u64) % modulus;
        let vals_mod = (values_bytes.len() as u64) % modulus;
        let offset_keys = ((50 + obj_mod) % modulus) as u32;
        let offset_values = ((50 + obj_mod + keys_mod) % modulus) as u32;
        let offset_class_names = ((50 + obj_mod + keys_mod + vals_mod) % modulus) as u32;
        proof {
            let m = 0x1_0000_0000int;
            let lo = objects_bytes@.len() as int;
            let lk = keys_bytes@.len() as int;
            let lv = values_bytes@.len() as int;
            vstd::arithmetic::div_mod::lemma_add_mod_noop_right(50, lo, m);
            vstd::arithmetic::div_mod::lemma_add_mod_noop_right(50 + (lk % m), lo, m);
            vstd::arithmetic::div_mod::lemma_add_mod_noop_right(50 + lo, lk, m);
            vstd::arithmetic::div_mod::lemma_add_mod_noop_right(50 + (lk % m) + (lv % m), lo, m);
            vstd::arithmetic::div_mod::lemma_add_mod_noop_right(50 + lo + (lv % m), lk, m);
            vstd::arithmetic::div_mod::lemma_add_mod_noop_right(50 + lo + lk, lv, m);
        }
        let header = Header {
            format_version: self.format_version,
            coder_version: self.coder_version,
            object_count,
            offset_objects: 50,
            key_count,
            offset_keys,
            value_count,
            offset_values,
            class_name_count,
            offset_class_names,
        };
        proof {
            assert(header == computed_header(self@));
        }
        let mut out = magic_bytes();
        let mut header_out = header.to_bytes();
        out.append(&mut header_out);
        out.append(&mut objects_bytes);
        out.append(&mut keys_bytes);
        out.append(&mut values_bytes);
        out.append(&mut classes_bytes);
        proof {
            assert(out@ =~= enc_archive(self@));
        }
        Ok(out)
    }
}

/// Checks every object of a table against the given counts, front first.
#[verifier::loop_isolation(false)]
fn check_objects_table(objects: &Vec<Object>, value_count: u32, class_name_count: u32) -> (r:
    Result<(), Error>)
    ensures
        r == objects_check(objects@, value_count, class_name_count),
{
    let ghost os = objects@;
    proof {
        assert(os.skip(0) =~= os);
    }
    let mut i: usize = 0;
    while i < objects.len()
        invariant
            i <= os.len(),
            objects_check(os, value_count, class_name_count) == objects_check(
                os.skip(i as int),
                value_count,
                class_name_count,
            ),
        decreases os.len() - i,
    {
        let o = *vstd::slice::slice_index_get(objects.as_slice(), i);
        proof {
            assert(os.skip(i as int)[0] == o);
            assert(os.skip(i as int).skip(1) =~= os.skip(i + 1));
        }
        match check_object(&o, value_count, class_name_count) {
            Err(e) => {
                return Err(e);
            },
            Ok(_) => {},
        }
        i = i + 1;
    }
    proof {
        assert(os.skip(os.len() as int).len() == 0);
    }
    Ok(())
}

/// Checks every value of a table against the key count, front first.
#[verifier::loop_isolation(false)]
fn check_values_table(values: &Vec<Value>, key_count: u32) -> (r: Result<(), Error>)
    ensures
        r == values_check(values_view(values@), key_count),
{
    let ghost vs = values_view(values@);
    proof {
        assert(vs.skip(0) =~= vs);
    }
    let mut i: usize = 0;
    while i < values.len()
        invariant
            i <= vs.len(),
            vs == values_view(values@),
            values_check(vs, key_count) == values_check(vs.skip(i as int), key_count),
        decreases vs.len() - i,
    {
        let v = vstd::slice::slice_index_get(values.as_slice(), i);
        proof {
            assert(vs.skip(i as int)[0] == values@[i as int]@);
            assert(vs.skip(i as int).skip(1) =~= vs.skip(i + 1));
        }
        match check_value(v, key_count) {
            Err(e) => {
                return Err(e);
            },
            Ok(_) => {},
        }
        i = i + 1;
    }
    proof {
        assert(vs.skip(vs.len() as int).len() == 0);
    }
    Ok(())
}

/// Checks every class name of a table against the class-name count, front
/// first.
#[verifier::loop_isolation(false)]
fn check_class_names_table(class_names: &Vec<ClassName>, class_name_count: u32) -> (r: Result<
    (),
    Error,
>)
    ensures
        r == class_names_check(class_names_view(class_names@), class_name_count),
{
    let ghost cs = class_names_view(class_names@);
    proof {
        assert(cs.skip(0) =~= cs);
    }
    let mut i: usize = 0;
    while i < class_names.len()
        invariant
            i <= cs.len(),
            cs == class_names_view(class_names@),
            class_names_check(cs, class_name_count) == class_names_check(
                cs.skip(i as int),
                class_name_count,
            ),
        decreases cs.len() - i,
    {
        let c = vstd::slice::slice_index_get(class_names.as_slice(), i);
        proof {
            assert(cs.skip(i as int)[0] == class_names@[i as int]@);
            assert(cs.skip(i as int).skip(1) =~= cs.skip(i + 1));
        }
        match check_class_name(c, class_name_count) {
            Err(e) => {
                return Err(e);
            },
            Ok(_) => {},
        }
        i = i + 1;
    }
    proof {
        assert(cs.skip(cs.len() as int).len() == 0);
    }
    Ok(())
}

/// The combined validation `new` and the setters perform: every object
/// against the value and class-name counts, every value against the key
/// count, every class name against the class-name count; the first failure
/// wins.
pub open spec fn new_check(m: ArchiveView) -> Result<(), Error> {
    match objects_check(
        m.objects,
        wrap_u32(m.values.len() as int) as u32,
        wrap_u32(m.class_names.len() as int) as u32,
    ) {
        Err(e) => Err(e),
        Ok(_) => match values_check(m.values, wrap_u32(m.keys.len() as int) as u32) {
            Err(e) => Err(e),
            Ok(_) => class_names_check(
                m.class_names,
                wrap_u32(m.class_names.len() as int) as u32,
            ),
        },
    }
}

/// The view an archive constructed from these tables has, with the default
/// version numbers.
pub open spec fn fresh_view(
    objects: Seq<Object>,
    keys: Seq<String>,
    values: Seq<Value>,
    class_names: Seq<ClassName>,
) -> ArchiveView {
    ArchiveView {
        objects,
        keys: keys_view(keys),
        values: values_view(values),
        class_names: class_names_view(class_names),
        format_version: DEFAULT_FORMAT_VERSION,
        coder_version: DEFAULT_CODER_VERSION,
    }
}

impl NIBArchive {
    /// Creates a new archive from `objects`, `keys`, `values` and
    /// `class_names`, rejecting tables in which any record references an
    /// element out of bounds. The version numbers take their defaults.
    pub fn new(
        objects: Vec<Object>,
        keys: Vec<String>,
        values: Vec<Value>,
        class_names: Vec<ClassName>,
    ) -> (r: Result<NIBArchive, Error>)
        ensures
            match r {
                Ok(a) => {
                    &&& a@ == fresh_view(objects@, keys@, values@, class_names@)
                    &&& new_check(fresh_view(objects@, keys@, values@, class_names@)) == Ok::<
                        (),
                        Error,
                    >(())
                },
                Err(e) => new_check(fresh_view(objects@, keys@, values@, class_names@)) == Err::<
                    (),
                    Error,
                >(e),
            },
    {
        proof {
            assert(values_view(values@).len() == values@.len());
            assert(class_names_view(class_names@).len() == class_names@.len());
            assert(keys_view(keys@).len() == keys@.len());
        }
        let modulus: u64 = 0x1_0000_0000;
        let value_count = ((values.len() as u64) % modulus) as u32;
        let class_name_count = ((class_names.len() as u64) % modulus) as u32;
        let key_count = ((keys.len() as u64) % modulus) as u32;
        check_objects_table(&objects, value_count, class_name_count)?;
        check_values_table(&values, key_count)?;
        check_class_names_table(&class_names, class_name_count)?;
        Ok(
            NIBArchive {
                objects,
                keys,
                values,
                class_names,
                format_version: DEFAULT_FORMAT_VERSION,
                coder_version: DEFAULT_CODER_VERSION,
            },
        )
    }

    /// Creates a new archive from the four tables without any checks: a
    /// record may reference an element out of bounds. The version numbers
    /// take their defaults.
    pub fn new_unchecked(
        objects: Vec<Object>,
        keys: Vec<String>,
        values: Vec<Value>,
        class_names: Vec<ClassName>,
    ) -> (r: NIBArchive)
        ensures
            r@ == fresh_view(objects@, keys@, values@, class_names@),
    {
        NIBArchive {
            objects,
            keys,
            values,
            class_names,
            format_version: DEFAULT_FORMAT_VERSION,
            coder_version: DEFAULT_CODER_VERSION,
        }
    }

    /// Returns the format version of the archive.
    pub fn format_version(&self) -> (r: u32)
        ensures
            r == self.format_version,
    {
        self.format_version
    }

    /// Sets the format version of the archive.
    pub fn set_format_version(&mut self, value: u32)
        ensures
            final(self).format_version == value,
            final(self).coder_version == old(self).coder_version,
            final(self).objects == old(self).objects,
            final(self).keys == old(self).keys,
            final(self).values == old(self).values,
            final(self).class_names == old(self).class_names,
    {
        self.format_version = value;
    }

    /// Returns the coder version of the archive.
    pub fn coder_version(&self) -> (r: u32)
        ensures
            r == self.coder_version,
    {
        self.coder_version
    }

    /// Sets the coder version of the archive.
    pub fn set_coder_version(&mut self, value: u32)
        ensures
            final(self).coder_version == value,
            final(self).format_version == old(self).format_version,
            final(self).objects == old(self).objects,
            final(self).keys == old(self).keys,
            final(self).values == old(self).values,
            final(self).class_names == old(self).class_names,
    {
        self.coder_version = value;
    }

    /// Returns the archive's object table.
    pub fn objects(&self) -> (r: &[Object])
        ensures
            r@ == self.objects@,
    {
        self.objects.as_slice()
    }

    /// Replaces the archive's object table, rejecting the replacement
    /// atomically if any object references a value or class name out of
    /// bounds of the current tables.
    pub fn set_objects(&mut self, objects: Vec<Object>) -> (r: Result<(), Error>)
        ensures
            match r {
                Ok(_) => {
                    &&& objects_check(
                        objects@,
                        wrap_u32(old(self).values@.len() as int) as u32,
                        wrap_u32(old(self).class_names@.len() as int) as u32,
                    ) == Ok::<(), Error>(())
                    &&& final(self).objects == objects
                    &&& final(self).keys == old(self).keys
                    &&& final(self).values == old(self).values
                    &&& final(self).class_names == old(self).class_names
                    &&& final(self).format_version == old(self).format_version
                    &&& final(self).coder_version == old(self).coder_version
                },
                Err(e) => {
                    &&& objects_check(
                        objects@,
                        wrap_u32(old(self).values@.len() as int) as u32,
                        wrap_u32(old(self).class_names@.len() as int) as u32,
                    ) == Err::<(), Error>(e)
                    &&& *final(self) == *old(self)
                },
            },
    {
        let modulus: u64 = 0x1_0000_0000;
        let value_count = ((self.values.len() as u64) % modulus) as u32;
        let class_name_count = ((self.class_names.len() as u64) % modulus) as u32;
        check_objects_table(&objects, value_count, class_name_count)?;
        self.objects = objects;
        Ok(())
    }

    /// Returns the archive's key table.
    pub fn keys(&self) -> (r: &[String])
        ensures
            r@ == self.keys@,
    {
        self.keys.as_slice()
    }

    /// Replaces the archive's key table. Nothing is validated: a stale key
    /// index in the value table is only caught when the values are next
    /// replaced or a round trip is decoded.
    pub fn set_keys(&mut self, keys: Vec<String>)
        ensures
            final(self).keys == keys,
            final(self).objects == old(self).objects,
            final(self).values == old(self).values,
            final(self).class_names == old(self).class_names,
            final(self).format_version == old(self).format_version,
            final(self).coder_version == old(self).coder_version,
    {
        self.keys = keys;
    }

    /// Returns the archive's value table.
    pub fn values(&self) -> (r: &[Value])
        ensures
            r@ == self.values@,
    {
        self.values.as_slice()
    }

    /// Replaces the archive's value table, rejecting the replacement
    /// atomically if any value references a key out of bounds of the
    /// current key table.
    pub fn set_values(&mut self, values: Vec<Value>) -> (r: Result<(), Error>)
        ensures
            match r {
                Ok(_) => {
                    &&& values_check(
                        values_view(values@),
                        wrap_u32(old(self).keys@.len() as int) as u32,
                    ) == Ok::<(), Error>(())
                    &&& final(self).values == values
                    &&& final(self).objects == old(self).objects
                    &&& final(self).keys == old(self).keys
                    &&& final(self).class_names == old(self).class_names
                    &&& final(self).format_version == old(self).format_version
                    &&& final(self).coder_version == old(self).coder_version
                },
                Err(e) => {
                    &&& values_check(
                        values_view(values@),
                        wrap_u32(old(self).keys@.len() as int) as u32,
                    ) == Err::<(), Error>(e)
                    &&& *final(self) == *old(self)
                },
            },
    {
        let modulus: u64 = 0x1_0000_0000;
        let key_count = ((self.keys.len() as u64) % modulus) as u32;
        check_values_table(&values, key_count)?;
        self.values = values;
        Ok(())
    }

    /// Returns the archive's class-name table.
    pub fn class_names(&self) -> (r: &[ClassName])
        ensures
            r@ == self.class_names@,
    {
        self.class_names.as_slice()
    }

    /// Replaces the archive's class-name table, rejecting the replacement
    /// atomically if any fallback index is out of bounds of the replacement
    /// table itself.
    pub fn set_class_names(&mut self, class_names: Vec<ClassName>) -> (r: Result<(), Error>)
        ensures
            match r {
                Ok(_) => {
                    &&& class_names_check(
                        class_names_view(class_names@),
                        wrap_u32(class_names@.len() as int) as u32,
                    ) == Ok::<(), Error>(())
                    &&& final(self).class_names == class_names
                    &&& final(self).objects == old(self).objects
                    &&& final(self).keys == old(self).keys
                    &&& final(self).values == old(self).values
                    &&& final(self).format_version == old(self).format_version
                    &&& final(self).coder_version == old(self).coder_version
                },
                Err(e) => {
                    &&& class_names_check(
                        class_names_view(class_names@),
                        wrap_u32(class_names@.len() as int) as u32,
                    ) == Err::<(), Error>(e)
                    &&& *final(self) == *old(self)
                },
            },
    {
        proof {
            assert(class_names_view(class_names@).len() == class_names@.len());
        }
        let modulus: u64 = 0x1_0000_0000;
        let class_name_count = ((class_names.len() as u64) % modulus) as u32;
        check_class_names_table(&class_names, class_name_count)?;
        self.class_names = class_names;
        Ok(())
    }

    /// Consumes the archive and returns its objects, keys, values and
    /// class names.
    pub fn into_inner(self) -> (r: (Vec<Object>, Vec<String>, Vec<Value>, Vec<ClassName>))
        ensures
            r.0 == self.objects,
            r.1 == self.keys,
            r.2 == self.values,
            r.3 == self.class_names,
    {
        (self.objects, self.keys, self.values, self.class_names)
    }
}

} // verus!
