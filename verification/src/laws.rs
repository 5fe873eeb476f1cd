//! The laws the codec obeys, stated and proved over the wire-format
//! specification: block-level and whole-archive round trips, enforcement of
//! the header's block offsets, and the boundary of the bounds check.

use vstd::prelude::*;
use vstd::arithmetic::div_mod::lemma_small_mod;
use vstd::utf8::{encode_utf8, encode_utf8_decode_utf8, encode_utf8_valid_utf8};
use crate::archive::{
    class_names_block, class_names_check, class_names_encodable, computed_header, dec_archive,
    dec_class_names, dec_key, dec_keys, dec_objects, dec_values, enc_archive, key_bytes,
    keys_block, keys_encodable, magic, new_check, object_check, objects_block, objects_check,
    objects_encodable, values_block, values_check, values_encodable, wrap_u32, ArchiveView,
};
use crate::archive::key_encodable;
use crate::class_name::{class_name_bytes, class_name_encodable, lemma_dec_class_name_of_bytes,
    ClassNameView};
use crate::error::{BlockKind, Error, FormatErrorKind};
use crate::header::{dec_header, header_bytes, lemma_dec_header_of_bytes, lemma_header_bytes_len, Header};
use crate::object::{lemma_dec_object_of_bytes, object_bytes, object_encodable, Object};
use crate::value::{lemma_dec_value_of_bytes, value_bytes, value_encodable, ValueView};
use crate::varint::lemma_varint_round_trip;

verus! {

/// Reading the block of an encodable, in-bounds object table recovers the
/// table and consumes exactly the block.
pub proof fn lemma_dec_objects_of_block(
    objects: Seq<Object>,
    rest: Seq<u8>,
    value_count: u32,
    class_name_count: u32,
)
    requires
        objects_encodable(objects),
        objects_check(objects, value_count, class_name_count) == Ok::<(), Error>(()),
    ensures
        dec_objects(objects_block(objects) + rest, objects.len(), value_count, class_name_count)
            == Ok::<_, Error>((objects, rest)),
    decreases objects.len(),
{
    reveal_with_fuel(objects_block, 2);
    reveal_with_fuel(dec_objects, 2);
    if objects.len() == 0 {
        assert(objects_block(objects) + rest =~= rest);
        assert(objects =~= Seq::<Object>::empty());
    } else {
        let s = objects_block(objects) + rest;
        let tail_rest = objects_block(objects.skip(1)) + rest;
        assert(s =~= object_bytes(objects[0]) + tail_rest);
        assert(object_encodable(objects[0])) by {
            assert(crate::object::object_encodable(objects[0]));
        }
        lemma_dec_object_of_bytes(objects[0], tail_rest);
        assert(objects_encodable(objects.skip(1))) by {
            assert forall|i: int|
                0 <= i < objects.skip(1).len() implies crate::object::object_encodable(
                #[trigger] objects.skip(1)[i],
            ) by {
                assert(objects.skip(1)[i] == objects[i + 1]);
            }
        }
        lemma_dec_objects_of_block(objects.skip(1), rest, value_count, class_name_count);
        assert(seq![objects[0]] + objects.skip(1) =~= objects);
    }
}


/// Reading the block of an encodable key table recovers the table and
/// consumes exactly the block.
pub proof fn lemma_dec_keys_of_block(keys: Seq<Seq<char>>, rest: Seq<u8>)
    requires
        keys_encodable(keys),
    ensures
        dec_keys(keys_block(keys) + rest, keys.len()) == Ok::<_, Error>((keys, rest)),
    decreases keys.len(),
{
    reveal_with_fuel(keys_block, 2);
    reveal_with_fuel(dec_keys, 2);
    if keys.len() == 0 {
        assert(keys_block(keys) + rest =~= rest);
        assert(keys =~= Seq::<Seq<char>>::empty());
    } else {
        let k = keys[0];
        let tail_rest = keys_block(keys.skip(1)) + rest;
        assert(keys_block(keys) + rest =~= key_bytes(k) + tail_rest);
        assert(key_encodable(k));
        let kb = encode_utf8(k);
        assert(key_bytes(k) + tail_rest =~= crate::varint::varint_bytes(kb.len()) + (kb
            + tail_rest));
        lemma_varint_round_trip(kb.len() as int, kb + tail_rest);
        assert((kb + tail_rest).take(kb.len() as int) =~= kb);
        assert((kb + tail_rest).skip(kb.len() as int) =~= tail_rest);
        encode_utf8_valid_utf8(k);
        encode_utf8_decode_utf8(k);
        assert(dec_key(key_bytes(k) + tail_rest) == Ok::<_, Error>((k, tail_rest)));
        assert(keys_encodable(keys.skip(1))) by {
            assert forall|i: int| 0 <= i < keys.skip(1).len() implies key_encodable(
                #[trigger] keys.skip(1)[i],
            ) by {
                assert(keys.skip(1)[i] == keys[i + 1]);
            }
        }
        lemma_dec_keys_of_block(keys.skip(1), rest);
        assert(seq![k] + keys.skip(1) =~= keys);
    }
}

/// Reading the block of an encodable, in-bounds value table recovers the
/// table and consumes exactly the block.
pub proof fn lemma_dec_values_of_block(values: Seq<ValueView>, rest: Seq<u8>, key_count: u32)
    requires
        values_encodable(values),
        values_check(values, key_count) == Ok::<(), Error>(()),
    ensures
        dec_values(values_block(values) + rest, values.len(), key_count) == Ok::<_, Error>(
            (values, rest),
        ),
    decreases values.len(),
{
    reveal_with_fuel(values_block, 2);
    reveal_with_fuel(dec_values, 2);
    if values.len() == 0 {
        assert(values_block(values) + rest =~= rest);
        assert(values =~= Seq::<ValueView>::empty());
    } else {
        let tail_rest = values_block(values.skip(1)) + rest;
        assert(values_block(values) + rest =~= value_bytes(values[0]) + tail_rest);
        assert(value_encodable(values[0]));
        lemma_dec_value_of_bytes(values[0], tail_rest);
        assert(values_encodable(values.skip(1))) by {
            assert forall|i: int| 0 <= i < values.skip(1).len() implies value_encodable(
                #[trigger] values.skip(1)[i],
            ) by {
                assert(values.skip(1)[i] == values[i + 1]);
            }
        }
        lemma_dec_values_of_block(values.skip(1), rest, key_count);
        assert(seq![values[0]] + values.skip(1) =~= values);
    }
}

/// Reading the block of an encodable, in-bounds class-name table recovers
/// the table and consumes exactly the block.
pub proof fn lemma_dec_class_names_of_block(
    class_names: Seq<ClassNameView>,
    rest: Seq<u8>,
    class_name_count: u32,
)
    requires
        class_names_encodable(class_names),
        class_names_check(class_names, class_name_count) == Ok::<(), Error>(()),
    ensures
        dec_class_names(class_names_block(class_names) + rest, class_names.len(),
            class_name_count) == Ok::<_, Error>((class_names, rest)),
    decreases class_names.len(),
{
    reveal_with_fuel(class_names_block, 2);
    reveal_with_fuel(dec_class_names, 2);
    if class_names.len() == 0 {
        assert(class_names_block(class_names) + rest =~= rest);
        assert(class_names =~= Seq::<ClassNameView>::empty());
    } else {
        let tail_rest = class_names_block(class_names.skip(1)) + rest;
        assert(class_names_block(class_names) + rest =~= class_name_bytes(class_names[0])
            + tail_rest);
        assert(class_name_encodable(class_names[0]));
        lemma_dec_class_name_of_bytes(class_names[0], tail_rest);
        assert(class_names_encodable(class_names.skip(1))) by {
            assert forall|i: int|
                0 <= i < class_names.skip(1).len() implies class_name_encodable(
                #[trigger] class_names.skip(1)[i],
            ) by {
                assert(class_names.skip(1)[i] == class_names[i + 1]);
            }
        }
        lemma_dec_class_names_of_block(class_names.skip(1), rest, class_name_count);
        assert(seq![class_names[0]] + class_names.skip(1) =~= class_names);
    }
}

/// Decoding the prefix of a file laid out as magic, header, tail: the
/// signature matches, the header parses back, and the position after it is
/// 50.
proof fn lemma_dec_prefix(h: Header, tail: Seq<u8>)
    ensures
        (magic() + header_bytes(h) + tail).len() == 50 + tail.len(),
        (magic() + header_bytes(h) + tail).take(10) == magic(),
        dec_header((magic() + header_bytes(h) + tail).skip(10)) == Ok::<_, Error>((h, tail)),
{
    let bytes = magic() + header_bytes(h) + tail;
    lemma_header_bytes_len(h);
    assert(bytes.take(10) =~= magic());
    assert(bytes.skip(10) =~= header_bytes(h) + tail);
    lemma_dec_header_of_bytes(h, tail);
}

/// For an archive whose tables and blocks fit the header's 32-bit fields,
/// the computed header holds the exact lengths and offsets, unwrapped.
proof fn lemma_computed_header_exact(m: ArchiveView)
    requires
        m.objects.len() <= u32::MAX,
        m.keys.len() <= u32::MAX,
        m.values.len() <= u32::MAX,
        m.class_names.len() <= u32::MAX,
        50 + objects_block(m.objects).len() + keys_block(m.keys).len() + values_block(
            m.values,
        ).len() <= u32::MAX,
    ensures
        computed_header(m).object_count == m.objects.len(),
        computed_header(m).key_count == m.keys.len(),
        computed_header(m).value_count == m.values.len(),
        computed_header(m).class_name_count == m.class_names.len(),
        computed_header(m).offset_objects == 50,
        computed_header(m).offset_keys == 50 + objects_block(m.objects).len(),
        computed_header(m).offset_values == 50 + objects_block(m.objects).len() + keys_block(
            m.keys,
        ).len(),
        computed_header(m).offset_class_names == 50 + objects_block(m.objects).len() + keys_block(
            m.keys,
        ).len() + values_block(m.values).len(),
{
    let modulus = 0x1_0000_0000nat;
    let bo = objects_block(m.objects);
    let bk = keys_block(m.keys);
    let bv = values_block(m.values);
    lemma_small_mod(m.objects.len(), modulus);
    lemma_small_mod(m.keys.len(), modulus);
    lemma_small_mod(m.values.len(), modulus);
    lemma_small_mod(m.class_names.len(), modulus);
    lemma_small_mod((50 + bo.len()) as nat, modulus);
    lemma_small_mod((50 + bo.len() + bk.len()) as nat, modulus);
    lemma_small_mod((50 + bo.len() + bk.len() + bv.len()) as nat, modulus);
}

/// A decode whose stages are each known assembles to the whole: if the
/// signature matches, the header parses, every block parses at its declared
/// offset and the cross-checks pass, the archive decodes to those tables.
proof fn lemma_dec_archive_assemble(
    bytes: Seq<u8>,
    h: Header,
    m: ArchiveView,
    r1: Seq<u8>,
    r2: Seq<u8>,
    r3: Seq<u8>,
    r4: Seq<u8>,
    r5: Seq<u8>,
)
    requires
        bytes.len() >= 10,
        bytes.take(10) == magic(),
        dec_header(bytes.skip(10)) == Ok::<_, Error>((h, r1)),
        h.offset_objects == bytes.len() - r1.len(),
        dec_objects(r1, h.object_count as nat, h.value_count, h.class_name_count) == Ok::<
            _,
            Error,
        >((m.objects, r2)),
        h.offset_keys == bytes.len() - r2.len(),
        dec_keys(r2, h.key_count as nat) == Ok::<_, Error>((m.keys, r3)),
        h.offset_values == bytes.len() - r3.len(),
        dec_values(r3, h.value_count as nat, h.key_count) == Ok::<_, Error>((m.values, r4)),
        h.offset_class_names == bytes.len() - r4.len(),
        dec_class_names(r4, h.class_name_count as nat, h.class_name_count) == Ok::<_, Error>(
            (m.class_names, r5),
        ),
        m.format_version == h.format_version,
        m.coder_version == h.coder_version,
    ensures
        dec_archive(bytes) == Ok::<ArchiveView, Error>(m),
{
}

/// A decode that reaches the keys block with a declared offset that is not
/// the position reached fails there, naming both.
proof fn lemma_dec_archive_keys_mismatch(
    bytes: Seq<u8>,
    h: Header,
    objects: Seq<Object>,
    r1: Seq<u8>,
    r2: Seq<u8>,
)
    requires
        bytes.len() >= 10,
        bytes.take(10) == magic(),
        dec_header(bytes.skip(10)) == Ok::<_, Error>((h, r1)),
        h.offset_objects == bytes.len() - r1.len(),
        dec_objects(r1, h.object_count as nat, h.value_count, h.class_name_count) == Ok::<
            _,
            Error,
        >((objects, r2)),
        h.offset_keys != bytes.len() - r2.len(),
    ensures
        dec_archive(bytes) == Err::<ArchiveView, Error>(
            Error::FormatError(
                FormatErrorKind::BlockOffsetMismatch {
                    block: BlockKind::Keys,
                    expected: h.offset_keys,
                    actual: (bytes.len() - r2.len()) as u64,
                },
            ),
        ),
{
}

/// A combined validation that passed implies each stage passed.
proof fn lemma_new_check_parts(m: ArchiveView)
    requires
        new_check(m) == Ok::<(), Error>(()),
    ensures
        objects_check(
            m.objects,
            wrap_u32(m.values.len() as int) as u32,
            wrap_u32(m.class_names.len() as int) as u32,
        ) == Ok::<(), Error>(()),
        values_check(m.values, wrap_u32(m.keys.len() as int) as u32) == Ok::<(), Error>(()),
        class_names_check(m.class_names, wrap_u32(m.class_names.len() as int) as u32) == Ok::<
            (),
            Error,
        >(()),
{
    match objects_check(
        m.objects,
        wrap_u32(m.values.len() as int) as u32,
        wrap_u32(m.class_names.len() as int) as u32,
    ) {
        Err(e) => {
            assert(new_check(m) == Err::<(), Error>(e));
        },
        Ok(u) => {},
    }
    match values_check(m.values, wrap_u32(m.keys.len() as int) as u32) {
        Err(e) => {
            assert(new_check(m) == Err::<(), Error>(e));
        },
        Ok(u) => {},
    }
    match class_names_check(m.class_names, wrap_u32(m.class_names.len() as int) as u32) {
        Err(e) => {
            assert(new_check(m) == Err::<(), Error>(e));
        },
        Ok(u) => {},
    }
}

/// Law: round trip. An archive whose tables are valid (every
/// cross-reference in bounds), whose records all have wire representations,
/// and whose tables and blocks fit the header's 32-bit counts and offsets,
/// decodes from its own encoding back to identical tables and identical
/// version fields.
#[verifier::rlimit(100)]
pub proof fn lemma_archive_round_trip(m: ArchiveView)
    requires
        crate::archive::archive_encodable(m),
        new_check(m) == Ok::<(), Error>(()),
        m.objects.len() <= u32::MAX,
        m.keys.len() <= u32::MAX,
        m.values.len() <= u32::MAX,
        m.class_names.len() <= u32::MAX,
        50 + objects_block(m.objects).len() + keys_block(m.keys).len() + values_block(
            m.values,
        ).len() <= u32::MAX,
    ensures
        dec_archive(enc_archive(m)) == Ok::<ArchiveView, Error>(m),
{
    let h = computed_header(m);
    let bo = objects_block(m.objects);
    let bk = keys_block(m.keys);
    let bv = values_block(m.values);
    let bc = class_names_block(m.class_names);
    let tail = bo + (bk + (bv + bc));
    let mh = magic() + header_bytes(h);
    assert(enc_archive(m) == mh + tail) by {
        vstd::seq_lib::lemma_concat_associative(mh + bo + bk, bv, bc);
        vstd::seq_lib::lemma_concat_associative(mh + bo, bk, bv + bc);
        vstd::seq_lib::lemma_concat_associative(mh, bo, bk + (bv + bc));
        assert(enc_archive(m) == mh + bo + bk + bv + bc);
    }
    lemma_computed_header_exact(m);
    lemma_dec_prefix(h, tail);
    lemma_new_check_parts(m);
    assert(objects_check(m.objects, h.value_count, h.class_name_count) == Ok::<(), Error>(()));
    assert(values_check(m.values, h.key_count) == Ok::<(), Error>(()));
    assert(class_names_check(m.class_names, h.class_name_count) == Ok::<(), Error>(()));
    lemma_dec_objects_of_block(m.objects, bk + (bv + bc), h.value_count, h.class_name_count);
    lemma_dec_keys_of_block(m.keys, bv + bc);
    lemma_dec_values_of_block(m.values, bc, h.key_count);
    lemma_dec_class_names_of_block(m.class_names, Seq::<u8>::empty(), h.class_name_count);
    assert(bc + Seq::<u8>::empty() =~= bc);
    lemma_dec_archive_assemble(
        enc_archive(m),
        h,
        m,
        tail,
        bk + (bv + bc),
        bv + bc,
        bc,
        Seq::<u8>::empty(),
    );
}

/// Law: offset enforcement. Take a well-formed archive and encode it, but
/// declare in the header a keys offset different from the true end of the
/// objects block. Decoding fails exactly at the keys-block position check -
/// not earlier and not later - naming the declared and the true offset.
#[verifier::rlimit(100)]
pub proof fn lemma_keys_offset_enforced(m: ArchiveView, wrong_offset: u32)
    requires
        crate::archive::archive_encodable(m),
        new_check(m) == Ok::<(), Error>(()),
        m.objects.len() <= u32::MAX,
        m.keys.len() <= u32::MAX,
        m.values.len() <= u32::MAX,
        m.class_names.len() <= u32::MAX,
        50 + objects_block(m.objects).len() + keys_block(m.keys).len() + values_block(
            m.values,
        ).len() <= u32::MAX,
        wrong_offset != 50 + objects_block(m.objects).len(),
    ensures
        ({
            let h = Header { offset_keys: wrong_offset, ..computed_header(m) };
            let bytes = magic() + header_bytes(h) + (objects_block(m.objects) + (keys_block(m.keys)
                + (values_block(m.values) + class_names_block(m.class_names))));
            dec_archive(bytes) == Err::<ArchiveView, Error>(
                Error::FormatError(
                    FormatErrorKind::BlockOffsetMismatch {
                        block: BlockKind::Keys,
                        expected: wrong_offset,
                        actual: (50 + objects_block(m.objects).len()) as u64,
                    },
                ),
            )
        }),
{
    let h = Header { offset_keys: wrong_offset, ..computed_header(m) };
    let bo = objects_block(m.objects);
    let bk = keys_block(m.keys);
    let bv = values_block(m.values);
    let bc = class_names_block(m.class_names);
    let tail = bo + (bk + (bv + bc));
    let bytes = magic() + header_bytes(h) + tail;
    lemma_computed_header_exact(m);
    lemma_dec_prefix(h, tail);
    lemma_new_check_parts(m);
    assert(objects_check(m.objects, h.value_count, h.class_name_count) == Ok::<(), Error>(()));
    lemma_dec_objects_of_block(m.objects, bk + (bv + bc), h.value_count, h.class_name_count);
    lemma_dec_archive_keys_mismatch(bytes, h, m.objects, tail, bk + (bv + bc));
}

/// Law: bounds-check boundary. For an object with a non-negative value
/// range whose class-name index passes its own check, a range ending
/// exactly at the value count is accepted, and one ending past it is
/// rejected with the value-index error.
pub proof fn lemma_object_bounds_boundary(o: Object, value_count: u32, class_name_count: u32)
    requires
        0 <= o.values_index,
        0 <= o.value_count,
        wrap_u32(o.class_name_index as int) <= class_name_count,
    ensures
        o.values_index + o.value_count == value_count ==> object_check(o, value_count,
            class_name_count) == Ok::<(), Error>(()),
        o.values_index + o.value_count > value_count ==> object_check(o, value_count,
            class_name_count) == Err::<(), Error>(
            Error::FormatError(FormatErrorKind::ValueIndexOutOfBounds),
        ),
{
    lemma_small_mod((o.values_index + o.value_count) as nat, 0x1_0000_0000nat);
}


} // verus!
