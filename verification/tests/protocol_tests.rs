use mscl_rs::protocol::{
    check_est_field, decode_packet, decode_packet_at, fletcher_checksum, join_strings, read_f32_bits,
    read_f64_bits, read_u16,
};
use mscl_rs::structs::{
    EstimatedDataPacket, ImuPacket, QuatBits, RawDataPacket, Timestamp, Vec3Bits,
};

fn field(desc: u8, data: &[u8]) -> Vec<u8> {
    let mut f = vec![(data.len() + 2) as u8, desc];
    f.extend_from_slice(data);
    f
}

fn floats(values: &[f32]) -> Vec<u8> {
    let mut out = Vec::new();
    for v in values {
        out.extend_from_slice(&v.to_be_bytes());
    }
    out
}

fn with_flags(mut data: Vec<u8>, flags: u16) -> Vec<u8> {
    data.extend_from_slice(&flags.to_be_bytes());
    data
}

fn raw(p: Option<ImuPacket>) -> RawDataPacket {
    match p {
        Some(ImuPacket::Raw(r)) => r,
        _ => panic!("expected a raw packet"),
    }
}

fn estimated(p: Option<ImuPacket>) -> EstimatedDataPacket {
    match p {
        Some(ImuPacket::Estimated(e)) => e,
        _ => panic!("expected an estimated packet"),
    }
}

fn vec3(a: f32, b: f32, c: f32) -> Vec3Bits {
    Vec3Bits { x: a.to_bits(), y: b.to_bits(), z: c.to_bits() }
}

#[test]
fn fletcher_of_empty_data_is_zero() {
    assert_eq!(fletcher_checksum(&[]), (0, 0));
}

#[test]
fn fletcher_wraps_both_sums() {
    // a: 255, then 254 (510 % 256); b: 255, then 509 % 256 = 253
    assert_eq!(fletcher_checksum(&[255, 255]), (254, 253));
    assert_eq!(fletcher_checksum(&[1, 2, 3]), (6, 10));
}

#[test]
fn read_u16_is_big_endian() {
    assert_eq!(read_u16(&[0x12, 0x34]), 0x1234);
    assert_eq!(read_u16(&[0xff, 0x01]), 0xff01);
}

#[test]
fn read_float_bits_are_big_endian() {
    assert_eq!(read_f32_bits(&1.5f32.to_be_bytes()), 1.5f32.to_bits());
    assert_eq!(read_f32_bits(&[0xde, 0xad, 0xbe, 0xef]), 0xdeadbeef);
    assert_eq!(read_f64_bits(&(-2.25f64).to_be_bytes()), (-2.25f64).to_bits());
    assert_eq!(read_f64_bits(&[1, 2, 3, 4, 5, 6, 7, 8]), 0x0102030405060708);
}

#[test]
fn check_est_field_rejects_wrong_length() {
    let mut invalid: Vec<String> = Vec::new();
    assert!(!check_est_field(&[0, 0, 0, 0, 0], 6, "estPressureAlt", &mut invalid));
    assert!(invalid.is_empty());
}

#[test]
fn check_est_field_notes_a_clear_flag() {
    let mut invalid: Vec<String> = Vec::new();
    assert!(check_est_field(&[1, 2, 3, 4, 0, 1], 6, "estPressureAlt", &mut invalid));
    assert!(invalid.is_empty());
    assert!(check_est_field(&[1, 2, 3, 4, 0xff, 0xfe], 6, "estPressureAlt", &mut invalid));
    assert_eq!(invalid, vec!["estPressureAlt".to_string()]);
}

#[test]
fn join_strings_puts_separator_between() {
    let parts = vec!["a".to_string(), "bc".to_string(), "d".to_string()];
    assert_eq!(join_strings(&parts, ","), "a,bc,d");
    assert_eq!(join_strings(&vec!["one".to_string()], ","), "one");
    assert_eq!(join_strings(&Vec::new(), ","), "");
}

#[test]
fn unknown_descriptor_set_gives_nothing() {
    assert!(decode_packet_at(0x81, &[14, 0x04], 5).is_none());
    assert!(decode_packet(0x0c, &[]).is_none());
}

#[test]
fn empty_raw_payload_keeps_host_time() {
    let r = raw(decode_packet_at(0x80, &[], 42));
    assert_eq!(r.timestamp, Timestamp::HostNanos(42));
    assert!(r.invalid_fields.is_none());
    assert!(r.scaled_accel.is_none());
    assert!(r.scaled_gyro.is_none());
    assert!(r.delta_vel.is_none());
    assert!(r.delta_theta.is_none());
    assert!(r.scaled_ambient_pressure.is_none());
}

#[test]
fn decode_packet_stamps_with_host_clock() {
    let r = raw(decode_packet(0x80, &[]));
    match r.timestamp {
        Timestamp::HostNanos(n) => assert!(n > 0),
        Timestamp::DeviceSeconds(_) => panic!("no device time was sent"),
    }
}

#[test]
fn raw_fields_all_decode() {
    let mut payload = Vec::new();
    payload.extend(field(0x04, &floats(&[1.0, 2.0, 3.0])));
    payload.extend(field(0x05, &floats(&[4.0, 5.0, 6.0])));
    payload.extend(field(0x07, &floats(&[7.0, 8.0, 9.0])));
    payload.extend(field(0x08, &floats(&[10.0, 11.0, 12.0])));
    payload.extend(field(0x17, &floats(&[1013.25])));
    let r = raw(decode_packet_at(0x80, &payload, 9));
    assert_eq!(r.scaled_accel, Some(vec3(1.0, 2.0, 3.0)));
    assert_eq!(r.scaled_gyro, Some(vec3(4.0, 5.0, 6.0)));
    assert_eq!(r.delta_theta, Some(vec3(7.0, 8.0, 9.0)));
    assert_eq!(r.delta_vel, Some(vec3(10.0, 11.0, 12.0)));
    assert_eq!(r.scaled_ambient_pressure, Some(1013.25f32.to_bits()));
    assert_eq!(r.timestamp, Timestamp::HostNanos(9));
}

#[test]
fn raw_field_of_wrong_length_is_ignored() {
    let mut payload = field(0x04, &floats(&[1.0, 2.0]));
    payload.extend(field(0x42, &[1, 2, 3]));
    payload.extend(field(0x05, &floats(&[4.0, 5.0, 6.0])));
    let r = raw(decode_packet_at(0x80, &payload, 1));
    assert!(r.scaled_accel.is_none());
    assert_eq!(r.scaled_gyro, Some(vec3(4.0, 5.0, 6.0)));
}

#[test]
fn later_field_replaces_earlier() {
    let mut payload = field(0x04, &floats(&[1.0, 1.0, 1.0]));
    payload.extend(field(0x04, &floats(&[2.0, 2.0, 2.0])));
    let r = raw(decode_packet_at(0x80, &payload, 1));
    assert_eq!(r.scaled_accel, Some(vec3(2.0, 2.0, 2.0)));
}

#[test]
fn field_walk_stops_at_bad_length() {
    // A field length below 2 ends the walk; so does one running past the end.
    let mut payload = vec![1, 0x04];
    payload.extend(field(0x05, &floats(&[4.0, 5.0, 6.0])));
    let r = raw(decode_packet_at(0x80, &payload, 1));
    assert!(r.scaled_gyro.is_none());

    let mut payload = field(0x05, &floats(&[4.0, 5.0, 6.0]));
    payload.extend([30, 0x04, 0, 0]);
    let r = raw(decode_packet_at(0x80, &payload, 1));
    assert_eq!(r.scaled_gyro, Some(vec3(4.0, 5.0, 6.0)));
    assert!(r.scaled_accel.is_none());
}

#[test]
fn estimated_fields_decode_with_flags() {
    let mut payload = Vec::new();
    payload.extend(field(0x21, &with_flags(floats(&[120.5]), 1)));
    payload.extend(field(0x03, &with_flags(floats(&[1.0, 0.0, 0.0, 0.0]), 1)));
    payload.extend(field(0x12, &with_flags(floats(&[0.1, 0.2, 0.3, 0.4]), 0)));
    payload.extend(field(0x0E, &with_flags(floats(&[1.0, 2.0, 3.0]), 1)));
    payload.extend(field(0x1C, &with_flags(floats(&[4.0, 5.0, 6.0]), 1)));
    payload.extend(field(0x0D, &with_flags(floats(&[7.0, 8.0, 9.0]), 2)));
    payload.extend(field(0x13, &with_flags(floats(&[0.0, 0.0, -9.8]), 3)));
    let e = estimated(decode_packet_at(0x82, &payload, 77));
    assert_eq!(e.timestamp, Timestamp::HostNanos(77));
    assert_eq!(e.est_pressure_alt, Some(120.5f32.to_bits()));
    assert_eq!(
        e.est_orient_quaternion,
        Some(QuatBits { q0: 1.0f32.to_bits(), q1: 0, q2: 0, q3: 0 })
    );
    assert_eq!(
        e.est_attitude_uncert_quaternion,
        Some(QuatBits {
            q0: 0.1f32.to_bits(),
            q1: 0.2f32.to_bits(),
            q2: 0.3f32.to_bits(),
            q3: 0.4f32.to_bits(),
        })
    );
    assert_eq!(e.est_angular_rate, Some(vec3(1.0, 2.0, 3.0)));
    assert_eq!(e.est_compensated_accel, Some(vec3(4.0, 5.0, 6.0)));
    assert_eq!(e.est_linear_accel, Some(vec3(7.0, 8.0, 9.0)));
    assert_eq!(e.est_gravity_vector, Some(vec3(0.0, 0.0, -9.8)));
    assert_eq!(
        e.invalid_fields.as_deref(),
        Some("estAttitudeUncertQuaternion,estLinearAccel")
    );
}

#[test]
fn estimated_all_valid_has_no_invalid_list() {
    let payload = field(0x21, &with_flags(floats(&[3.0]), 1));
    let e = estimated(decode_packet_at(0x82, &payload, 1));
    assert!(e.invalid_fields.is_none());
    assert_eq!(e.est_pressure_alt, Some(3.0f32.to_bits()));
}

#[test]
fn estimated_field_of_wrong_length_is_skipped() {
    let payload = field(0x21, &floats(&[3.0]));
    let e = estimated(decode_packet_at(0x82, &payload, 1));
    assert!(e.est_pressure_alt.is_none());
    assert!(e.invalid_fields.is_none());
}

#[test]
fn estimated_device_time_replaces_host_time() {
    let mut data = 5.5f64.to_be_bytes().to_vec();
    data.extend([0, 0, 0, 1]);
    let e = estimated(decode_packet_at(0x82, &field(0x11, &data), 3));
    assert_eq!(e.timestamp, Timestamp::DeviceSeconds(5.5f64.to_bits()));
    // In the raw set 0x11 is no time field.
    let r = raw(decode_packet_at(0x80, &field(0x11, &data), 3));
    assert_eq!(r.timestamp, Timestamp::HostNanos(3));
}

#[test]
fn packet_type_names_the_set() {
    assert_eq!(decode_packet_at(0x80, &[], 0).unwrap().packet_type(), "raw");
    assert_eq!(decode_packet_at(0x82, &[], 0).unwrap().packet_type(), "estimated");
}

#[test]
fn defaults_are_empty() {
    let r = RawDataPacket::default();
    assert_eq!(r.timestamp, Timestamp::HostNanos(0));
    assert!(r.scaled_accel.is_none());
    let e = EstimatedDataPacket::default();
    assert_eq!(e.timestamp, Timestamp::HostNanos(0));
    assert!(e.invalid_fields.is_none());
    assert!(e.est_gravity_vector.is_none());
}
