use nibarchive::{
    BlockKind, ClassName, Error, FormatErrorKind, IoErrorKind, NIBArchive, Object, Value,
    ValueVariant,
};

fn push_u32_le(out: &mut Vec<u8>, x: u32) {
    out.extend_from_slice(&x.to_le_bytes());
}

/// A file skeleton: magic plus a header with the given counts and offsets.
fn file_prefix(
    object_count: u32,
    offset_objects: u32,
    key_count: u32,
    offset_keys: u32,
    value_count: u32,
    offset_values: u32,
    class_name_count: u32,
    offset_class_names: u32,
) -> Vec<u8> {
    let mut out = b"NIBArchive".to_vec();
    push_u32_le(&mut out, 1);
    push_u32_le(&mut out, 9);
    push_u32_le(&mut out, object_count);
    push_u32_le(&mut out, offset_objects);
    push_u32_le(&mut out, key_count);
    push_u32_le(&mut out, offset_keys);
    push_u32_le(&mut out, value_count);
    push_u32_le(&mut out, offset_values);
    push_u32_le(&mut out, class_name_count);
    push_u32_le(&mut out, offset_class_names);
    out
}

fn sample_archive() -> NIBArchive {
    let objects = vec![Object::new(0, 0, 2), Object::new(1, 2, 1)];
    let keys = vec![String::from("label"), String::from("caf\u{e9}")];
    let values = vec![
        Value::new(0, ValueVariant::Int8(-5)),
        Value::new(1, ValueVariant::Int16(-1234)),
        Value::new(0, ValueVariant::Int32(123456789)),
        Value::new(1, ValueVariant::Int64(-99887766554433)),
        Value::new(0, ValueVariant::Bool(false)),
        Value::new(1, ValueVariant::Bool(true)),
        Value::new(0, ValueVariant::Float(2.5f32.to_bits())),
        Value::new(1, ValueVariant::Double((-0.125f64).to_bits())),
        Value::new(0, ValueVariant::Data((0u8..200).collect())),
        Value::new(1, ValueVariant::Nil),
        Value::new(0, ValueVariant::ObjectRef(1)),
    ];
    let class_names = vec![
        ClassName::new(String::from("NSObject"), vec![]),
        ClassName::new(String::from("Gr\u{fc}\u{df}e"), vec![0]),
    ];
    let mut archive = NIBArchive::new_unchecked(objects, keys, values, class_names);
    archive.set_format_version(7);
    archive.set_coder_version(11);
    archive
}

#[test]
fn archive_round_trips_all_tables_and_versions() {
    let archive = sample_archive();
    let bytes = archive.to_bytes().unwrap();
    let decoded = NIBArchive::from_bytes(&bytes).unwrap();
    assert_eq!(decoded.objects(), archive.objects());
    assert_eq!(decoded.keys(), archive.keys());
    assert_eq!(decoded.values(), archive.values());
    assert_eq!(decoded.class_names(), archive.class_names());
    assert_eq!(decoded.format_version(), 7);
    assert_eq!(decoded.coder_version(), 11);
}

#[test]
fn all_value_tags_round_trip() {
    let archive = sample_archive();
    let bytes = archive.to_bytes().unwrap();
    let decoded = NIBArchive::from_bytes(&bytes).unwrap();
    for (original, back) in archive.values().iter().zip(decoded.values().iter()) {
        assert_eq!(original.value(), back.value());
        assert_eq!(original.key_index(), back.key_index());
    }
}

#[test]
fn unknown_value_tag_fails_naming_the_tag() {
    // One value: key index 0, then the out-of-table tag byte 11.
    let mut bytes = file_prefix(0, 50, 0, 50, 1, 50, 0, 52);
    bytes.push(0x80);
    bytes.push(11);
    assert_eq!(
        NIBArchive::from_bytes(&bytes),
        Err(Error::FormatError(FormatErrorKind::UnknownValueType(11)))
    );
}

#[test]
fn keys_offset_off_by_one_fails_at_the_keys_check() {
    let archive = sample_archive();
    let mut bytes = archive.to_bytes().unwrap();
    let true_offset = u32::from_le_bytes([bytes[30], bytes[31], bytes[32], bytes[33]]);
    let wrong = true_offset + 1;
    bytes[30..34].copy_from_slice(&wrong.to_le_bytes());
    assert_eq!(
        NIBArchive::from_bytes(&bytes),
        Err(Error::FormatError(FormatErrorKind::BlockOffsetMismatch {
            block: BlockKind::Keys,
            expected: wrong,
            actual: true_offset as u64,
        }))
    );
}

#[test]
fn object_value_range_at_the_count_is_accepted() {
    // values_index + value_count == value count of the archive: accepted.
    let objects = vec![Object::new(0, 1, 1)];
    let values = vec![
        Value::new(0, ValueVariant::Nil),
        Value::new(0, ValueVariant::Nil),
    ];
    let class_names = vec![ClassName::new(String::from("A"), vec![])];
    assert!(NIBArchive::new(objects, vec![], values, class_names).is_ok());
}

#[test]
fn object_value_range_past_the_count_is_rejected() {
    let objects = vec![Object::new(0, 1, 2)];
    let values = vec![
        Value::new(0, ValueVariant::Nil),
        Value::new(0, ValueVariant::Nil),
    ];
    let class_names = vec![ClassName::new(String::from("A"), vec![])];
    assert_eq!(
        NIBArchive::new(objects, vec![], values, class_names).err(),
        Some(Error::FormatError(FormatErrorKind::ValueIndexOutOfBounds))
    );
}

#[test]
fn class_name_encoding_keeps_a_trailing_nul() {
    let class_name = ClassName::new(String::from("Foo"), vec![]);
    let bytes = class_name.to_bytes().unwrap();
    // Length field 4 (name bytes plus NUL), no fallbacks, then F o o NUL.
    assert_eq!(bytes, vec![0x84, 0x80, b'F', b'o', b'o', 0x00]);
    let (decoded, end) = ClassName::try_from_bytes(&bytes, 0).unwrap();
    assert_eq!(decoded.name(), "Foo");
    assert_eq!(decoded.fallback_classes_indeces(), &[] as &[i32]);
    assert_eq!(end, bytes.len());
}

#[test]
fn one_object_archive_end_to_end() {
    let objects = vec![Object::new(0, 0, 0)];
    let class_names = vec![ClassName::new(String::from("NSObject"), vec![])];
    let archive = NIBArchive::new(objects, vec![], vec![], class_names).unwrap();
    let bytes = archive.to_bytes().unwrap();
    assert_eq!(&bytes[0..10], b"NIBArchive");
    let object_count = u32::from_le_bytes([bytes[18], bytes[19], bytes[20], bytes[21]]);
    let class_name_count = u32::from_le_bytes([bytes[42], bytes[43], bytes[44], bytes[45]]);
    assert_eq!(object_count, 1);
    assert_eq!(class_name_count, 1);
    let decoded = NIBArchive::from_bytes(&bytes).unwrap();
    assert_eq!(decoded.objects().len(), 1);
    let class_name = decoded.objects()[0].class_name(decoded.class_names());
    assert_eq!(class_name.name(), "NSObject");
}

#[test]
fn magic_mismatch_is_reported() {
    let archive = sample_archive();
    let mut bytes = archive.to_bytes().unwrap();
    bytes[0] = b'X';
    assert_eq!(
        NIBArchive::from_bytes(&bytes),
        Err(Error::FormatError(FormatErrorKind::MagicMismatch))
    );
}

#[test]
fn truncated_input_is_an_io_error() {
    let empty: Vec<u8> = Vec::new();
    assert_eq!(
        NIBArchive::from_bytes(&empty),
        Err(Error::IOError(IoErrorKind::UnexpectedEof))
    );
    let archive = sample_archive();
    let bytes = archive.to_bytes().unwrap();
    let cut = bytes[..bytes.len() - 1].to_vec();
    assert_eq!(
        NIBArchive::from_bytes(&cut),
        Err(Error::IOError(IoErrorKind::UnexpectedEof))
    );
}

#[test]
fn trailing_bytes_after_the_last_block_are_ignored() {
    let archive = sample_archive();
    let mut bytes = archive.to_bytes().unwrap();
    bytes.extend_from_slice(&[1, 2, 3]);
    let decoded = NIBArchive::from_bytes(&bytes).unwrap();
    assert_eq!(decoded.keys(), archive.keys());
}

#[test]
fn invalid_utf8_in_a_key_is_rejected() {
    // One key of declared length 1 holding the invalid byte 0xFF.
    let mut bytes = file_prefix(0, 50, 1, 50, 0, 52, 0, 52);
    bytes.push(0x81);
    bytes.push(0xFF);
    assert_eq!(
        NIBArchive::from_bytes(&bytes),
        Err(Error::FormatError(FormatErrorKind::InvalidUtf8))
    );
}

#[test]
fn key_index_bounds_are_enforced_on_construction() {
    let keys = vec![String::from("k")];
    let over = vec![Value::new(2, ValueVariant::Nil)];
    assert_eq!(
        NIBArchive::new(vec![], keys.clone(), over, vec![]).err(),
        Some(Error::FormatError(FormatErrorKind::KeyIndexOutOfBounds))
    );
    // The index exactly equal to the count passes the documented tolerance.
    let at_count = vec![Value::new(1, ValueVariant::Nil)];
    assert!(NIBArchive::new(vec![], keys, at_count, vec![]).is_ok());
}

#[test]
fn class_name_index_bounds_are_enforced_on_construction() {
    let class_names = vec![ClassName::new(String::from("A"), vec![])];
    let over = vec![Object::new(2, 0, 0)];
    assert_eq!(
        NIBArchive::new(over, vec![], vec![], class_names.clone()).err(),
        Some(Error::FormatError(
            FormatErrorKind::ClassNameIndexOutOfBounds
        ))
    );
    let at_count = vec![Object::new(1, 0, 0)];
    assert!(NIBArchive::new(at_count, vec![], vec![], class_names).is_ok());
}

#[test]
fn fallback_class_bounds_are_enforced_on_construction() {
    let class_names = vec![ClassName::new(String::from("A"), vec![5])];
    assert_eq!(
        NIBArchive::new(vec![], vec![], vec![], class_names).err(),
        Some(Error::FormatError(
            FormatErrorKind::FallbackClassIndexOutOfBounds
        ))
    );
}

#[test]
fn setters_validate_against_current_tables() {
    let mut archive = NIBArchive::new(
        vec![],
        vec![String::from("k")],
        vec![Value::new(0, ValueVariant::Nil)],
        vec![ClassName::new(String::from("A"), vec![])],
    )
    .unwrap();
    // A replacement object table referencing values out of bounds is
    // rejected atomically.
    let bad = vec![Object::new(0, 0, 5)];
    assert_eq!(
        archive.set_objects(bad).err(),
        Some(Error::FormatError(FormatErrorKind::ValueIndexOutOfBounds))
    );
    assert_eq!(archive.objects().len(), 0);
    // A valid replacement goes through.
    assert!(archive.set_objects(vec![Object::new(0, 0, 1)]).is_ok());
    assert_eq!(archive.objects().len(), 1);
    // Values are checked against the key count.
    assert_eq!(
        archive.set_values(vec![Value::new(7, ValueVariant::Nil)]).err(),
        Some(Error::FormatError(FormatErrorKind::KeyIndexOutOfBounds))
    );
    // Keys may be replaced without revalidation.
    archive.set_keys(vec![]);
    assert_eq!(archive.keys().len(), 0);
    // Class names are checked against the replacement table itself.
    assert_eq!(
        archive
            .set_class_names(vec![ClassName::new(String::from("B"), vec![3])])
            .err(),
        Some(Error::FormatError(
            FormatErrorKind::FallbackClassIndexOutOfBounds
        ))
    );
}

#[test]
fn record_accessors_resolve_cross_references() {
    let archive = sample_archive();
    let first = &archive.objects()[0];
    assert_eq!(first.class_name_index(), 0);
    assert_eq!(first.values_index(), 0);
    assert_eq!(first.value_count(), 2);
    let slice = first.values(archive.values());
    assert_eq!(slice.len(), 2);
    assert_eq!(slice[0].key(archive.keys()).as_str(), "label");
    assert_eq!(first.class_name(archive.class_names()).name(), "NSObject");
    let second_class = &archive.class_names()[1];
    let fallbacks = second_class.fallback_classes(archive.class_names());
    assert_eq!(fallbacks.len(), 1);
    assert_eq!(fallbacks[0].name(), "NSObject");
}

#[test]
fn record_mutators_and_into_inner() {
    let mut object = Object::new(1, 2, 3);
    object.set_class_name_index(4);
    object.set_values_index(5);
    object.set_value_count(6);
    assert_eq!(object.into_inner(), (4, 5, 6));
    let mut value = Value::new(0, ValueVariant::Nil);
    value.set_key_index(2);
    value.set_value(ValueVariant::Bool(true));
    let (key_index, variant) = value.into_inner();
    assert_eq!(key_index, 2);
    assert_eq!(variant, ValueVariant::Bool(true));
    let mut class_name = ClassName::new(String::from("A"), vec![1]);
    class_name.set_name(String::from("B"));
    class_name.set_fallback_classes_indeces(vec![2, 3]);
    let (name, fallbacks) = class_name.into_inner();
    assert_eq!(name, "B");
    assert_eq!(fallbacks, vec![2, 3]);
    let archive = sample_archive();
    let keys = archive.keys().to_vec();
    let (objects, keys_back, values, class_names) = archive.into_inner();
    assert_eq!(keys_back, keys);
    assert_eq!(objects.len(), 2);
    assert_eq!(values.len(), 11);
    assert_eq!(class_names.len(), 2);
}

#[test]
fn encoding_unrepresentable_records_is_rejected() {
    // A negative object field has no wire representation.
    let archive = NIBArchive::new_unchecked(
        vec![Object::new(-1, 0, 0)],
        vec![],
        vec![],
        vec![],
    );
    assert_eq!(
        archive.to_bytes(),
        Err(Error::IOError(IoErrorKind::InvalidInput))
    );
    // So does a negative key index on a value.
    let archive = NIBArchive::new_unchecked(
        vec![],
        vec![],
        vec![Value::new(-3, ValueVariant::Nil)],
        vec![],
    );
    assert_eq!(
        archive.to_bytes(),
        Err(Error::IOError(IoErrorKind::InvalidInput))
    );
}

#[test]
fn decode_rejects_object_range_past_header_count() {
    // One object (class 0, values 0..1) against a declared value count of 0.
    let mut bytes = file_prefix(1, 50, 0, 53, 0, 53, 0, 53);
    bytes.extend_from_slice(&[0x80, 0x80, 0x81]);
    assert_eq!(
        NIBArchive::from_bytes(&bytes),
        Err(Error::FormatError(FormatErrorKind::ValueIndexOutOfBounds))
    );
}

#[test]
fn objects_offset_mismatch_is_reported_first() {
    let bytes = file_prefix(0, 51, 0, 50, 0, 50, 0, 50);
    assert_eq!(
        NIBArchive::from_bytes(&bytes),
        Err(Error::FormatError(FormatErrorKind::BlockOffsetMismatch {
            block: BlockKind::Objects,
            expected: 51,
            actual: 50,
        }))
    );
}

#[test]
fn negative_fallback_index_is_out_of_bounds() {
    let class_names = vec![ClassName::new(String::from("A"), vec![-1])];
    assert_eq!(
        NIBArchive::new(vec![], vec![], vec![], class_names).err(),
        Some(Error::FormatError(
            FormatErrorKind::FallbackClassIndexOutOfBounds
        ))
    );
}
