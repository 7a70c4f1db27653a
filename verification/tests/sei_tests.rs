use tesla_sei::pb::SeiMetadata;
use tesla_sei::sei::{
    parse_sei_messages, remove_emulation_prevention, split_nals_length_prefixed,
    try_decode_sei_metadata_from_payload,
};

fn default_record() -> SeiMetadata {
    SeiMetadata {
        version: 0,
        gear_state: 0,
        frame_seq_no: 0,
        vehicle_speed_mps_bits: 0,
        accelerator_pedal_position_bits: 0,
        steering_wheel_angle_bits: 0,
        blinker_on_left: false,
        blinker_on_right: false,
        brake_applied: false,
        autopilot_state: 0,
        latitude_deg_bits: 0,
        longitude_deg_bits: 0,
        heading_deg_bits: 0,
        linear_acceleration_mps2_x_bits: 0,
        linear_acceleration_mps2_y_bits: 0,
        linear_acceleration_mps2_z_bits: 0,
    }
}

#[test]
fn emulation_prevention_drops_marker_after_two_zeros() {
    let out = remove_emulation_prevention(&[0x00, 0x00, 0x03, 0x01]);
    assert_eq!(out, vec![0x00, 0x00, 0x01]);
}

#[test]
fn emulation_prevention_leaves_other_bytes_alone() {
    let input = vec![0x10, 0x00, 0x03, 0x00, 0x00, 0x02, 0x03, 0x7F];
    let out = remove_emulation_prevention(&input);
    assert_eq!(out, input);
}

#[test]
fn emulation_prevention_never_lengthens() {
    let input = vec![0x00, 0x00, 0x03, 0x00, 0x00, 0x03, 0x42];
    let out = remove_emulation_prevention(&input);
    assert!(out.len() <= input.len());
    assert_eq!(out, vec![0x00, 0x00, 0x00, 0x00, 0x42]);
}

#[test]
fn emulation_prevention_requires_two_zeros() {
    // A 0x03 after a single zero stays.
    let out = remove_emulation_prevention(&[0x00, 0x03, 0x01]);
    assert_eq!(out, vec![0x00, 0x03, 0x01]);
}

#[test]
fn extension_coded_integer_ff_ff_05_is_515() {
    // payload type = 255 + 255 + 5, payload size = 1, one payload byte.
    let rbsp = vec![0xFF, 0xFF, 0x05, 0x01, 0x42];
    let msgs = parse_sei_messages(&rbsp);
    assert_eq!(msgs.len(), 1);
    assert_eq!(msgs[0].0, 515);
    assert_eq!(msgs[0].1, vec![0x42]);
}

#[test]
fn sei_message_truncated_size_stops_cleanly() {
    // declared size 5 with only 2 bytes left: no message.
    let rbsp = vec![0x05, 0x05, 0x01, 0x02];
    let msgs = parse_sei_messages(&rbsp);
    assert_eq!(msgs.len(), 0);
}

#[test]
fn sei_two_messages_parsed_in_order() {
    let rbsp = vec![
        0x01, 0x02, 0xAA, 0xBB, // type 1, size 2
        0x05, 0x03, 0x10, 0x20, 0x30, // type 5, size 3
        0x00, 0x00, // more than one trailing byte keeps scanning; type 0 size 0
    ];
    let msgs = parse_sei_messages(&rbsp);
    assert_eq!(msgs.len(), 3);
    assert_eq!(msgs[0], (1, vec![0xAA, 0xBB]));
    assert_eq!(msgs[1], (5, vec![0x10, 0x20, 0x30]));
    assert_eq!(msgs[2], (0, vec![]));
}

#[test]
fn split_nals_four_byte_prefix() {
    let sample = vec![
        0x00, 0x00, 0x00, 0x02, 0x41, 0x42, // 2-byte unit
        0x00, 0x00, 0x00, 0x01, 0x43, // 1-byte unit
    ];
    let nals = split_nals_length_prefixed(&sample, 4);
    assert_eq!(nals, vec![vec![0x41, 0x42], vec![0x43]]);
}

#[test]
fn split_nals_overlong_unit_stops() {
    let sample = vec![0x00, 0x00, 0x00, 0x09, 0x41];
    let nals = split_nals_length_prefixed(&sample, 4);
    assert_eq!(nals.len(), 0);
}

#[test]
fn split_nals_zero_length_stops() {
    let sample = vec![0x00, 0x00, 0x00, 0x00, 0x41];
    let nals = split_nals_length_prefixed(&sample, 4);
    assert_eq!(nals.len(), 0);
}

#[test]
fn split_nals_two_byte_prefix() {
    let sample = vec![0x00, 0x03, 0x0A, 0x0B, 0x0C];
    let nals = split_nals_length_prefixed(&sample, 2);
    assert_eq!(nals, vec![vec![0x0A, 0x0B, 0x0C]]);
}

#[test]
fn decode_empty_buffer_is_all_defaults() {
    assert_eq!(SeiMetadata::decode(&[]), Some(default_record()));
}

#[test]
fn decode_simple_record() {
    // version = 1 (field 1), frame_seq_no = 42 (field 3)
    let m = SeiMetadata::decode(&[0x08, 0x01, 0x18, 0x2A]).unwrap();
    assert_eq!(m.version, 1);
    assert_eq!(m.frame_seq_no, 42);
    assert_eq!(m.gear_state, 0);
}

#[test]
fn decode_all_wire_types() {
    let mut b: Vec<u8> = Vec::new();
    b.extend_from_slice(&[0x08, 0x03]); // version = 3
    b.extend_from_slice(&[0x10, 0x04]); // gear_state = 4
    b.extend_from_slice(&[0x18, 0xAC, 0x02]); // frame_seq_no = 300
    b.extend_from_slice(&[0x25, 0x01, 0x02, 0x03, 0x04]); // speed bits (fixed32 LE)
    b.extend_from_slice(&[0x38, 0x01]); // blinker_on_left = true
    b.extend_from_slice(&[0x48, 0x00]); // brake_applied = false
    b.extend_from_slice(&[0x59, 0x08, 0x07, 0x06, 0x05, 0x04, 0x03, 0x02, 0x01]); // latitude bits
    let m = SeiMetadata::decode(&b).unwrap();
    assert_eq!(m.version, 3);
    assert_eq!(m.gear_state, 4);
    assert_eq!(m.frame_seq_no, 300);
    assert_eq!(m.vehicle_speed_mps_bits, 0x04030201);
    assert!(m.blinker_on_left);
    assert!(!m.brake_applied);
    assert_eq!(m.latitude_deg_bits, 0x0102030405060708);
    assert!(!m.blinker_on_right);
}

#[test]
fn decode_skips_unknown_fields() {
    // field 20 (varint), field 21 (length-delimited), then version = 7
    let b = vec![0xA0, 0x01, 0x05, 0xAA, 0x01, 0x02, 0x55, 0x66, 0x08, 0x07];
    let m = SeiMetadata::decode(&b).unwrap();
    assert_eq!(m.version, 7);
}

#[test]
fn decode_rejects_truncated_varint() {
    assert_eq!(SeiMetadata::decode(&[0x08]), None);
    assert_eq!(SeiMetadata::decode(&[0x80]), None);
}

#[test]
fn decode_rejects_wrong_wire_type_for_known_field() {
    // field 1 with fixed32 wire type
    assert_eq!(SeiMetadata::decode(&[0x0D, 0x01, 0x02, 0x03, 0x04]), None);
}

#[test]
fn resolver_empty_payload_yields_nothing() {
    assert_eq!(try_decode_sei_metadata_from_payload(5, &[]), None);
}

#[test]
fn resolver_rejects_all_default_record_as_false_positive() {
    // Decodes fine (gear_state = 5) but version and frame_seq_no are
    // both default: structurally valid yet vacuous, so rejected.
    assert_eq!(try_decode_sei_metadata_from_payload(5, &[0x10, 0x05]), None);
}

#[test]
fn resolver_uuid_skip_candidate_wins() {
    let mut p = vec![0xAA; 16];
    p.extend_from_slice(&[0x08, 0x01, 0x18, 0x2A]);
    let m = try_decode_sei_metadata_from_payload(5, &p).unwrap();
    assert_eq!(m.version, 1);
    assert_eq!(m.frame_seq_no, 42);
}

#[test]
fn resolver_magic_marker_candidate_wins() {
    let mut p = vec![0x42, 0x42, 0x69];
    p.extend_from_slice(&[0x08, 0x02, 0x18, 0x07]);
    let m = try_decode_sei_metadata_from_payload(5, &p).unwrap();
    assert_eq!(m.version, 2);
    assert_eq!(m.frame_seq_no, 7);
}

#[test]
fn resolver_duplicate_candidates_collapse_to_one_attempt() {
    // The whole payload and the 0x08-scan suffix at offset 0 are the
    // same (start, len) range; deduplication leaves one attempt, whose
    // trailing 0x80 is dropped on the retry.
    let p = vec![0x08, 0x01, 0x18, 0x2A, 0x80];
    let m = try_decode_sei_metadata_from_payload(5, &p).unwrap();
    assert_eq!(m.version, 1);
    assert_eq!(m.frame_seq_no, 42);
}

#[test]
fn resolver_ignores_payload_types_other_than_five() {
    // The resolver applies only to type-5 (user-data-unregistered)
    // payloads, however decodable the bytes look.
    assert_eq!(try_decode_sei_metadata_from_payload(4, &[0x08, 0x09]), None);
    assert_eq!(try_decode_sei_metadata_from_payload(6, &[0x08, 0x09]), None);
}

#[test]
fn resolver_uuid_only_payload_yields_nothing() {
    let p = vec![0xAA; 16];
    assert_eq!(try_decode_sei_metadata_from_payload(5, &p), None);
}

#[test]
fn decode_ten_byte_varint_at_limit() {
    // Nine continuation bytes and a final 0x01 give a maximal u64.
    let mut b = vec![0x18u8];
    b.extend_from_slice(&[0xFF; 9]);
    b.push(0x01);
    let m = SeiMetadata::decode(&b).unwrap();
    assert_eq!(m.frame_seq_no, u64::MAX);
}

#[test]
fn decode_rejects_varint_overflow() {
    // A tenth varint byte above 1 no longer fits 64 bits.
    let mut b = vec![0x18u8];
    b.extend_from_slice(&[0xFF; 9]);
    b.push(0x02);
    assert_eq!(SeiMetadata::decode(&b), None);
}

#[test]
fn decode_rejects_field_number_zero() {
    assert_eq!(SeiMetadata::decode(&[0x00, 0x01]), None);
}

#[test]
fn decode_last_value_wins_for_repeated_field() {
    let m = SeiMetadata::decode(&[0x08, 0x01, 0x08, 0x09]).unwrap();
    assert_eq!(m.version, 9);
}
