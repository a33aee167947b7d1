use dark_matter_simulator::artifact::NpyData;
use dark_matter_simulator::codec::{decode, encode, try_encode, CodecError};

fn bits(values: &[f32]) -> Vec<u32> {
    values.iter().map(|v| v.to_bits()).collect()
}

fn file(header: &str, payload: &[u8]) -> Vec<u8> {
    let mut out: Vec<u8> = Vec::new();
    out.extend_from_slice(b"\x93NUMPY");
    out.extend_from_slice(&[1, 0]);
    out.extend_from_slice(&(header.len() as u16).to_le_bytes());
    out.extend_from_slice(header.as_bytes());
    out.extend_from_slice(payload);
    out
}

fn payload(values: &[f32]) -> Vec<u8> {
    let mut out: Vec<u8> = Vec::new();
    for v in values {
        out.extend_from_slice(&v.to_le_bytes());
    }
    out
}

fn round_trips(a: NpyData) {
    let bytes = try_encode(&a).unwrap();
    assert_eq!((bytes.len() - 4 * a.data.len()) % 64, 0);
    assert_eq!(decode(&bytes), Ok(a));
}

#[test]
fn round_trip_two_by_two() {
    round_trips(NpyData { data: bits(&[1.0, -1.0, 2.5, 0.0]), shape: vec![2, 2] });
}

#[test]
fn round_trip_single_dimension() {
    round_trips(NpyData { data: bits(&[0.5, 1.5, 2.5, 3.5, 4.5]), shape: vec![5] });
}

#[test]
fn round_trip_single_element() {
    round_trips(NpyData { data: bits(&[42.0]), shape: vec![1] });
    round_trips(NpyData { data: bits(&[42.0]), shape: vec![1, 1, 1] });
}

#[test]
fn round_trip_no_dimension() {
    round_trips(NpyData { data: bits(&[7.25]), shape: vec![] });
}

#[test]
fn round_trip_zero_length_dimension() {
    round_trips(NpyData { data: vec![], shape: vec![0] });
    round_trips(NpyData { data: vec![], shape: vec![3, 0, 2] });
    round_trips(NpyData { data: vec![], shape: vec![0, u64::MAX, u64::MAX] });
}

#[test]
fn round_trip_keeps_every_bit_pattern() {
    let data = vec![0x7FC0_0001, 0xFFFF_FFFF, 0x8000_0000, 0, 0x0000_0001, 0x7F80_0000];
    round_trips(NpyData { data, shape: vec![3, 2] });
}

#[test]
fn round_trip_many_dimensions() {
    let shape: Vec<u64> = vec![1; 40];
    round_trips(NpyData { data: bits(&[3.0]), shape });
}

#[test]
fn round_trip_large_dimension_numbers() {
    round_trips(NpyData { data: vec![], shape: vec![18446744073709551615, 0, 10, 1000000] });
}

#[test]
fn encoded_file_is_bit_exact() {
    let a = NpyData { data: bits(&[1.0, -1.0, 2.5, 0.0]), shape: vec![2, 2] };
    let mut header = String::from("{'descr': '<f4', 'fortran_order': False, 'shape': (2, 2), }");
    while (10 + header.len() + 1) % 64 != 0 {
        header.push(' ');
    }
    header.push('\n');
    let expected = file(&header, &payload(&[1.0, -1.0, 2.5, 0.0]));
    assert_eq!(try_encode(&a), Some(expected.clone()));
    assert_eq!(expected.len(), 128 + 16);
    assert_eq!(encode(&a), expected);
}

#[test]
fn encoded_shape_tuples() {
    let none = try_encode(&NpyData { data: bits(&[1.0]), shape: vec![] }).unwrap();
    let one = try_encode(&NpyData { data: bits(&[1.0; 12]), shape: vec![12] }).unwrap();
    let three = try_encode(&NpyData { data: vec![], shape: vec![64, 0, 7] }).unwrap();
    let text = |bytes: &[u8]| String::from_utf8(bytes[10..128].to_vec()).unwrap();
    assert!(text(&none).starts_with("{'descr': '<f4', 'fortran_order': False, 'shape': (), } "));
    assert!(text(&one).starts_with("{'descr': '<f4', 'fortran_order': False, 'shape': (12,), } "));
    assert!(text(&three).starts_with("{'descr': '<f4', 'fortran_order': False, 'shape': (64, 0, 7), } "));
    assert_eq!(none.len(), 128 + 4);
    assert_eq!(none[127], b'\n');
    assert_eq!(none[126], b' ');
    assert_eq!(&none[8..10], &[118, 0]);
    assert_eq!(three.len(), 128);
}

#[test]
fn payload_is_little_endian() {
    let bytes = try_encode(&NpyData { data: vec![0x0403_0201], shape: vec![1] }).unwrap();
    assert_eq!(&bytes[bytes.len() - 4..], &[1, 2, 3, 4]);
    let read = decode(&file("{'descr': '<f4', 'fortran_order': False, 'shape': (1,)}", &[1, 2, 3, 4]));
    assert_eq!(read, Ok(NpyData { data: vec![0x0403_0201], shape: vec![1] }));
}

#[test]
fn header_too_long_has_no_file() {
    let shape: Vec<u64> = vec![1; 22000];
    assert_eq!(try_encode(&NpyData { data: bits(&[1.0]), shape }), None);
}

#[test]
fn longest_header_that_fits() {
    // 55 bytes around the items, three bytes for each dimension after the
    // first: 21823 dimensions make a dictionary of 65522 bytes.
    let shape: Vec<u64> = vec![1; 21823];
    let a = NpyData { data: bits(&[1.0]), shape };
    let bytes = try_encode(&a).unwrap();
    assert_eq!(bytes.len(), 65536 + 4);
    assert_eq!(&bytes[8..10], &[0xF6, 0xFF]);
    assert_eq!(decode(&bytes), Ok(a));
    let shape: Vec<u64> = vec![1; 21825];
    assert_eq!(try_encode(&NpyData { data: bits(&[1.0]), shape }), None);
}

#[test]
fn accepts_header_without_padding_or_line_end() {
    let bytes = file(
        "{'descr': '<f4', 'fortran_order': False, 'shape': (2, 2)}",
        &payload(&[1.0, 2.0, 3.0, 4.0]),
    );
    assert_eq!(decode(&bytes), Ok(NpyData { data: bits(&[1.0, 2.0, 3.0, 4.0]), shape: vec![2, 2] }));
}

#[test]
fn accepts_hand_written_grid_header() {
    let mut header = String::from("{'descr': '<f4', 'fortran_order': False, 'shape': (64, 64, 64)}");
    for _ in 0..77 {
        header.push(' ');
    }
    let values = vec![-1.0f32; 64 * 64 * 64];
    let read = decode(&file(&header, &payload(&values))).unwrap();
    assert_eq!(read.shape, vec![64, 64, 64]);
    assert_eq!(read.data, bits(&values));
}

#[test]
fn large_padding_changes_nothing() {
    let mut header = String::from("{'descr': '<f4', 'fortran_order': False, 'shape': (3,), }");
    for _ in 0..5000 {
        header.push(' ');
    }
    header.push('\n');
    let bytes = file(&header, &payload(&[1.0, 2.0, 3.0]));
    assert_eq!(decode(&bytes), Ok(NpyData { data: bits(&[1.0, 2.0, 3.0]), shape: vec![3] }));
}

#[test]
fn accepts_other_key_order_quotes_and_spacing() {
    let header = " \t{ \"shape\" :( 2 ,3 ) ,\n 'fortran_order':False,\"descr\":\"<f4\" }\r\n";
    let bytes = file(header, &payload(&[0.0; 6]));
    assert_eq!(decode(&bytes), Ok(NpyData { data: bits(&[0.0; 6]), shape: vec![2, 3] }));
}

#[test]
fn ignores_unknown_keys() {
    let header = "{'descr': '<f4', 'note': 'x', 'extra': (1, 2), 'flag': True, 'fortran_order': False, 'shape': ()}";
    assert_eq!(decode(&file(header, &payload(&[9.0]))), Ok(NpyData { data: bits(&[9.0]), shape: vec![] }));
}

#[test]
fn last_entry_of_a_key_counts() {
    let header = "{'shape': (7,), 'descr': '<f4', 'fortran_order': False, 'shape': (1,)}";
    assert_eq!(decode(&file(header, &payload(&[9.0]))), Ok(NpyData { data: bits(&[9.0]), shape: vec![1] }));
}

#[test]
fn rejects_short_buffer() {
    assert_eq!(decode(&[]), Err(CodecError::Truncated));
    assert_eq!(decode(b"\x93NUMPY\x01\x00\x00"), Err(CodecError::Truncated));
    assert_eq!(decode(b"not a file"), Err(CodecError::BadMagic));
}

#[test]
fn rejects_bad_magic() {
    let mut bytes = try_encode(&NpyData { data: bits(&[1.0]), shape: vec![1] }).unwrap();
    bytes[0] = 0x92;
    assert_eq!(decode(&bytes), Err(CodecError::BadMagic));
    bytes[0] = 0x93;
    bytes[5] = b'X';
    assert_eq!(decode(&bytes), Err(CodecError::BadMagic));
}

#[test]
fn rejects_unknown_version() {
    let good = try_encode(&NpyData { data: bits(&[1.0]), shape: vec![1] }).unwrap();
    for version in [[2u8, 0u8], [3, 0], [1, 1], [0, 0]] {
        let mut bytes = good.clone();
        bytes[6] = version[0];
        bytes[7] = version[1];
        assert_eq!(decode(&bytes), Err(CodecError::UnsupportedVersion));
    }
}

#[test]
fn rejects_truncated_header() {
    let good = try_encode(&NpyData { data: bits(&[1.0]), shape: vec![1] }).unwrap();
    assert_eq!(good.len(), 128 + 4);
    assert_eq!(decode(&good[..10]), Err(CodecError::Truncated));
    assert_eq!(decode(&good[..64]), Err(CodecError::Truncated));
    assert_eq!(decode(&good[..127]), Err(CodecError::Truncated));
    assert_eq!(decode(&good[..128]), Err(CodecError::LengthMismatch));
}

#[test]
fn rejects_truncated_payload() {
    let good = try_encode(&NpyData { data: bits(&[1.0, 2.0, 3.0, 4.0]), shape: vec![2, 2] }).unwrap();
    for cut in 1..=16 {
        assert_eq!(decode(&good[..good.len() - cut]), Err(CodecError::LengthMismatch));
    }
}

#[test]
fn rejects_payload_that_is_too_long() {
    let mut bytes = try_encode(&NpyData { data: bits(&[1.0, 2.0]), shape: vec![2] }).unwrap();
    bytes.extend_from_slice(&[0, 0, 0, 0]);
    assert_eq!(decode(&bytes), Err(CodecError::LengthMismatch));
    bytes.push(0);
    assert_eq!(decode(&bytes), Err(CodecError::LengthMismatch));
}

#[test]
fn rejects_shape_that_does_not_fit_the_payload() {
    let header = "{'descr': '<f4', 'fortran_order': False, 'shape': (2, 3)}";
    assert_eq!(decode(&file(header, &payload(&[0.0; 5]))), Err(CodecError::LengthMismatch));
    let huge = "{'descr': '<f4', 'fortran_order': False, 'shape': (4294967296, 4294967296, 4294967296)}";
    assert_eq!(decode(&file(huge, &[])), Err(CodecError::LengthMismatch));
    let wraps = "{'descr': '<f4', 'fortran_order': False, 'shape': (4294967296, 4294967297)}";
    assert_eq!(decode(&file(wraps, &payload(&[0.0; 4]))), Err(CodecError::LengthMismatch));
}

#[test]
fn rejects_other_element_types() {
    for descr in ["<f8", ">f4", "|f4", "=f4", "<i4", "<u4", "f4", "<f4 ", ""] {
        let header = format!("{{'descr': '{}', 'fortran_order': False, 'shape': (1,)}}", descr);
        assert_eq!(decode(&file(&header, &payload(&[1.0]))), Err(CodecError::DtypeMismatch));
    }
}

#[test]
fn rejects_column_major_order() {
    let header = "{'descr': '<f4', 'fortran_order': True, 'shape': (2, 2)}";
    assert_eq!(decode(&file(header, &payload(&[0.0; 4]))), Err(CodecError::FortranOrder));
}

#[test]
fn rejects_missing_keys() {
    for header in [
        "{}",
        "{'fortran_order': False, 'shape': (1,)}",
        "{'descr': '<f4', 'shape': (1,)}",
        "{'descr': '<f4', 'fortran_order': False}",
    ] {
        assert_eq!(decode(&file(header, &payload(&[1.0]))), Err(CodecError::MalformedHeader));
    }
}

#[test]
fn rejects_malformed_headers() {
    for header in [
        "",
        "   ",
        "garbage",
        "{'descr': '<f4', 'fortran_order': False, 'shape': (1,)",
        "{'descr': '<f4', 'fortran_order': False, 'shape': (1,)} x",
        "{'descr': '<f4' 'fortran_order': False, 'shape': (1,)}",
        "{'descr' '<f4', 'fortran_order': False, 'shape': (1,)}",
        "{'descr': '<f4', 'fortran_order': False, 'shape': (1,}",
        "{'descr': '<f4', 'fortran_order': False, 'shape': (,)}",
        "{'descr': '<f4', 'fortran_order': False, 'shape': (-1,)}",
        "{'descr': '<f4', 'fortran_order': False, 'shape': (1 2)}",
        "{'descr': '<f4', 'fortran_order': False, 'shape': 1}",
        "{'descr': '<f4', 'fortran_order': False, 'shape': '(1,)'}",
        "{'descr': '<f4', 'fortran_order': false, 'shape': (1,)}",
        "{'descr': '<f4', 'fortran_order': 'False', 'shape': (1,)}",
        "{'descr': (1,), 'fortran_order': False, 'shape': (1,)}",
        "{'descr': '<f4, 'fortran_order': False, 'shape': (1,)}",
        "{,'descr': '<f4', 'fortran_order': False, 'shape': (1,)}",
        "{'descr': '<f4', 'fortran_order': False, 'shape': (18446744073709551616,)}",
    ] {
        assert_eq!(
            decode(&file(header, &payload(&[1.0]))),
            Err(CodecError::MalformedHeader),
            "{}",
            header
        );
    }
}

#[test]
fn is_valid_compares_product_and_length() {
    assert!(NpyData { data: bits(&[0.0; 6]), shape: vec![2, 3] }.is_valid());
    assert!(NpyData { data: bits(&[0.0]), shape: vec![] }.is_valid());
    assert!(NpyData { data: vec![], shape: vec![5, 0] }.is_valid());
    assert!(NpyData { data: vec![], shape: vec![u64::MAX, 0, u64::MAX] }.is_valid());
    assert!(!NpyData { data: bits(&[0.0; 5]), shape: vec![2, 3] }.is_valid());
    assert!(!NpyData { data: vec![], shape: vec![] }.is_valid());
    assert!(!NpyData { data: bits(&[0.0]), shape: vec![0] }.is_valid());
    assert!(!NpyData { data: bits(&[0.0; 4]), shape: vec![u64::MAX, u64::MAX] }.is_valid());
    assert!(!NpyData { data: vec![], shape: vec![1 << 32, 1 << 32] }.is_valid());
}

#[test]
fn encode_of_a_mismatched_artifact_does_not_decode() {
    let a = NpyData { data: bits(&[1.0, 2.0, 3.0]), shape: vec![2, 2] };
    let bytes = try_encode(&a).unwrap();
    assert_eq!(decode(&bytes), Err(CodecError::LengthMismatch));
}

#[test]
fn duplicate_is_equal() {
    let a = NpyData { data: bits(&[1.0, -2.0]), shape: vec![2] };
    assert_eq!(a.duplicate(), a);
}
