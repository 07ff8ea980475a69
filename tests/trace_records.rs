use trace_breakdown::{
    display_address, encode_record, get_next_trace_arm, get_next_trace_x86, parse_header,
    DecodeError, HEADER_LEN,
};

#[test]
fn record_round_trip_keeps_kernel_bit_and_payload() {
    let payload: Vec<u8> = vec![0x90, 0x48, 0x89, 0xe5, 0xc3, 0x0f, 0x1f, 0x00];
    let bytes = encode_record(0x8000000000000010, 2, &payload);
    assert_eq!(bytes.len(), HEADER_LEN + 8);
    let (entry, used) = get_next_trace_x86(&bytes).unwrap().unwrap();
    assert_eq!(used, 20);
    assert_eq!(entry.p_pc, 0x8000000000000010);
    assert!(entry.is_kernel());
    assert!(!entry.is_user);
    assert_eq!(entry.n_insts, 2);
    assert_eq!(entry.insts_bytes, payload);
    assert_eq!(display_address(entry.p_pc), 0x10);
}

#[test]
fn header_fields_are_little_endian() {
    let bytes: Vec<u8> = vec![0x10, 0x32, 0x54, 0x76, 0x98, 0xba, 0xdc, 0x7e, 0x03, 0x00, 0x0c, 0x00];
    let h = parse_header(&bytes).unwrap().unwrap();
    assert_eq!(h.address, 0x7edcba9876543210);
    assert_eq!(h.declared_count, 3);
    assert_eq!(h.payload_len, 12);
}

#[test]
fn user_record_has_bit_63_clear() {
    let bytes = encode_record(0x4000, 1, &[0xc3]);
    let (entry, _) = get_next_trace_x86(&bytes).unwrap().unwrap();
    assert!(entry.is_user);
    assert_eq!(display_address(entry.p_pc), 0x4000);
}

#[test]
fn fixed_width_length_mismatch_is_rejected() {
    let payload: Vec<u8> = vec![0u8; 11];
    let bytes = encode_record(0x1000, 3, &payload);
    assert_eq!(get_next_trace_arm(&bytes).unwrap_err(), DecodeError::LengthMismatch);
}

#[test]
fn fixed_width_words_are_decoded_in_order() {
    let payload: Vec<u8> = vec![0x1f, 0x20, 0x03, 0xd5, 0xfd, 0x7b, 0xbf, 0xa9];
    let bytes = encode_record(0x8000000000400000, 2, &payload);
    let (entry, used) = get_next_trace_arm(&bytes).unwrap().unwrap();
    assert_eq!(used, 20);
    assert_eq!(entry.insts, vec![0xd503201f, 0xa9bf7bfd]);
    assert_eq!(entry.n_insts, 2);
    assert!(!entry.is_user);
}

#[test]
fn empty_input_is_end_of_stream() {
    assert!(get_next_trace_x86(&[]).unwrap().is_none());
    assert!(get_next_trace_arm(&[]).unwrap().is_none());
    assert!(parse_header(&[]).unwrap().is_none());
}

#[test]
fn short_header_is_truncated() {
    assert_eq!(get_next_trace_x86(&[1, 2, 3]).unwrap_err(), DecodeError::Truncated);
    assert_eq!(parse_header(&[0u8; 11]).unwrap_err(), DecodeError::Truncated);
}

#[test]
fn short_payload_is_truncated() {
    let mut bytes = encode_record(0x10, 2, &[1, 2, 3, 4, 5, 6, 7, 8]);
    bytes.truncate(17);
    assert_eq!(get_next_trace_x86(&bytes).unwrap_err(), DecodeError::Truncated);
    assert_eq!(get_next_trace_arm(&bytes).unwrap_err(), DecodeError::Truncated);
}

#[test]
fn consecutive_records_are_read_one_at_a_time() {
    let mut bytes = encode_record(0x10, 1, &[0x90]);
    bytes.extend(encode_record(0x8000000000000020, 1, &[0xc3, 0x00]));
    let (first, used) = get_next_trace_x86(&bytes).unwrap().unwrap();
    assert_eq!(first.insts_bytes, vec![0x90]);
    let (second, used2) = get_next_trace_x86(&bytes[used..]).unwrap().unwrap();
    assert_eq!(second.insts_bytes, vec![0xc3, 0x00]);
    assert!(!second.is_user);
    assert_eq!(used + used2, bytes.len());
}
