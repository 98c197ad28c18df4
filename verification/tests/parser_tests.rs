use mscl_rs::protocol::{decode_packet, fletcher_checksum};
use mscl_rs::structs::{ImuPacket, Timestamp};

#[test]
fn test_fletcher_checksum() {
    let data = b"hello";
    let (a, b) = fletcher_checksum(data);
    // 'h' = 104, 'e' = 101, 'l' = 108, 'l' = 108, 'o' = 111
    // a1 = 104, b1 = 104
    // a2 = 205, b2 = 53 (309 % 256)
    // a3 = 57 (313 % 256), b3 = 110
    // a4 = 165, b4 = 19 (275 % 256)
    // a5 = 20 (276 % 256), b5 = 39 (295 % 256)
    assert_eq!(a, 20);
    assert_eq!(b, 39);
}

#[test]
fn test_decode_raw_packet() {
    // A raw packet (0x80) payload: fields laid out as [len, desc, data...].
    let mut payload = Vec::new();

    // Accel: len=14 (12 data + 2 header), desc=0x04
    payload.push(14);
    payload.push(0x04);
    payload.extend_from_slice(&1.0f32.to_be_bytes()); // X
    payload.extend_from_slice(&2.0f32.to_be_bytes()); // Y
    payload.extend_from_slice(&3.0f32.to_be_bytes()); // Z

    // Timestamp: len=14 (12 data + 2 header), desc=0x12
    payload.push(14);
    payload.push(0x12);
    payload.extend_from_slice(&123.456f64.to_be_bytes());
    payload.extend_from_slice(&[0, 0, 0, 0]); // Padding to reach 12 bytes

    let pkt = decode_packet(0x80, &payload).unwrap();

    if let ImuPacket::Raw(r) = pkt {
        let accel = r
            .scaled_accel
            .map(|v| [f32::from_bits(v.x), f32::from_bits(v.y), f32::from_bits(v.z)]);
        assert_eq!(accel, Some([1.0, 2.0, 3.0]));
        // The device time is kept as the bits of a double counting seconds;
        // 123.456 * 1e9 = 123456000000 nanoseconds.
        let nanos = match r.timestamp {
            Timestamp::DeviceSeconds(bits) => (f64::from_bits(bits) * 1e9) as u128,
            Timestamp::HostNanos(n) => n,
        };
        assert_eq!(nanos, 123456000000);
    } else {
        panic!("Expected Raw packet");
    }
}
