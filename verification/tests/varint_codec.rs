use nibarchive::{decode_var_int, encode_var_int, Error, IoErrorKind};

#[test]
fn varint_zero_encodes_to_one_terminator_byte() {
    assert_eq!(encode_var_int(0).unwrap(), vec![0x80]);
}

#[test]
fn varint_127_encodes_to_ff() {
    assert_eq!(encode_var_int(127).unwrap(), vec![0xFF]);
}

#[test]
fn varint_128_encodes_to_two_bytes() {
    assert_eq!(encode_var_int(128).unwrap(), vec![0x00, 0x81]);
}

#[test]
fn varint_round_trips_for_non_negative_values() {
    for v in [0, 1, 5, 127, 128, 129, 300, 16383, 16384, 1 << 20, i32::MAX] {
        let bytes = encode_var_int(v).unwrap();
        let (decoded, end) = decode_var_int(&bytes, 0).unwrap();
        assert_eq!(decoded, v);
        assert_eq!(end, bytes.len());
    }
}

#[test]
fn varint_negative_input_is_rejected() {
    assert_eq!(
        encode_var_int(-1),
        Err(Error::IOError(IoErrorKind::InvalidInput))
    );
    assert_eq!(
        encode_var_int(i32::MIN),
        Err(Error::IOError(IoErrorKind::InvalidInput))
    );
}

#[test]
fn varint_decode_accepts_non_canonical_padding() {
    // 1 encoded over two groups: low group 1 without the terminator bit,
    // then an empty terminator group.
    let bytes = vec![0x01, 0x80];
    let (decoded, end) = decode_var_int(&bytes, 0).unwrap();
    assert_eq!(decoded, 1);
    assert_eq!(end, 2);
}

#[test]
fn varint_decode_truncates_past_32_bits() {
    // Six 7-bit groups: only the low 32 bits of the value survive.
    let bytes = vec![0x7F, 0x7F, 0x7F, 0x7F, 0x7F, 0xFF];
    let (decoded, end) = decode_var_int(&bytes, 0).unwrap();
    assert_eq!(decoded, -1);
    assert_eq!(end, 6);
}

#[test]
fn varint_decode_reports_truncated_input() {
    // No terminator byte before the input ends.
    let bytes = vec![0x01, 0x02];
    assert_eq!(
        decode_var_int(&bytes, 0),
        Err(Error::IOError(IoErrorKind::UnexpectedEof))
    );
    let empty: Vec<u8> = Vec::new();
    assert_eq!(
        decode_var_int(&empty, 0),
        Err(Error::IOError(IoErrorKind::UnexpectedEof))
    );
}
