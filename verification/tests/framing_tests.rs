use mscl_rs::parser::{handle_read, process_buffer, ReadEvent, ReaderAction};
use mscl_rs::protocol::fletcher_checksum;
use mscl_rs::structs::{ImuPacket, Timestamp, Vec3Bits};

fn frame(desc_set: u8, payload: &[u8]) -> Vec<u8> {
    let mut f = vec![0x75, 0x65, desc_set, payload.len() as u8];
    f.extend_from_slice(payload);
    let (a, b) = fletcher_checksum(&f);
    f.push(a);
    f.push(b);
    f
}

fn accel_payload(x: f32) -> Vec<u8> {
    let mut p = vec![14, 0x04];
    for v in [x, 0.0, 0.0] {
        p.extend_from_slice(&v.to_be_bytes());
    }
    p
}

fn accel_x(p: &ImuPacket) -> f32 {
    match p {
        ImuPacket::Raw(r) => f32::from_bits(r.scaled_accel.unwrap().x),
        ImuPacket::Estimated(_) => panic!("expected a raw packet"),
    }
}

#[test]
fn single_frame_is_decoded_and_consumed() {
    let mut buffer = frame(0x80, &accel_payload(1.5));
    let packets = process_buffer(&mut buffer);
    assert_eq!(packets.len(), 1);
    assert_eq!(accel_x(&packets[0]), 1.5);
    assert!(buffer.is_empty());
}

#[test]
fn junk_before_frame_is_skipped() {
    let mut buffer = vec![0x00, 0x75, 0x00, 0x65, 0x12];
    buffer.extend(frame(0x80, &accel_payload(2.0)));
    let packets = process_buffer(&mut buffer);
    assert_eq!(packets.len(), 1);
    assert_eq!(accel_x(&packets[0]), 2.0);
    assert!(buffer.is_empty());
}

#[test]
fn bad_checksum_frame_is_dropped() {
    let mut bad = frame(0x80, &accel_payload(1.0));
    let n = bad.len();
    bad[n - 1] ^= 0xff;
    let mut buffer = bad.clone();
    buffer.extend(frame(0x80, &accel_payload(4.0)));
    let packets = process_buffer(&mut buffer);
    assert_eq!(packets.len(), 1);
    assert_eq!(accel_x(&packets[0]), 4.0);
    assert!(buffer.is_empty());
}

#[test]
fn unknown_set_frame_is_consumed_without_packet() {
    let mut buffer = frame(0x0c, &[1, 2, 3]);
    buffer.extend(frame(0x82, &[]));
    let packets = process_buffer(&mut buffer);
    assert_eq!(packets.len(), 1);
    assert_eq!(packets[0].packet_type(), "estimated");
    assert!(buffer.is_empty());
}

#[test]
fn incomplete_frame_stays_in_buffer() {
    let whole = frame(0x80, &accel_payload(3.0));
    let mut buffer = frame(0x80, &accel_payload(1.0));
    buffer.extend_from_slice(&whole[..10]);
    let packets = process_buffer(&mut buffer);
    assert_eq!(packets.len(), 1);
    assert_eq!(buffer, whole[..10].to_vec());
    // A second pass without new bytes changes nothing.
    let again = process_buffer(&mut buffer);
    assert!(again.is_empty());
    assert_eq!(buffer, whole[..10].to_vec());
}

#[test]
fn lone_sync_byte_at_end_is_kept() {
    let mut buffer = vec![0x01, 0x02, 0x75];
    assert!(process_buffer(&mut buffer).is_empty());
    assert_eq!(buffer, vec![0x75]);
    let mut buffer = vec![0x75, 0x65, 0x80];
    assert!(process_buffer(&mut buffer).is_empty());
    assert_eq!(buffer, vec![0x75, 0x65, 0x80]);
}

#[test]
fn frame_split_across_reads_gives_same_packet() {
    let stream = frame(0x80, &accel_payload(6.25));
    for cut in 0..=stream.len() {
        let mut buffer = stream[..cut].to_vec();
        let mut packets = process_buffer(&mut buffer);
        buffer.extend_from_slice(&stream[cut..]);
        packets.extend(process_buffer(&mut buffer));
        assert_eq!(packets.len(), 1);
        assert_eq!(accel_x(&packets[0]), 6.25);
        assert!(buffer.is_empty());
    }
}

#[test]
fn frame_is_found_whatever_follows() {
    let mut buffer = frame(0x80, &accel_payload(7.0));
    buffer.extend([0x75, 0x65]);
    let packets = process_buffer(&mut buffer);
    assert_eq!(packets.len(), 1);
    assert_eq!(buffer, vec![0x75, 0x65]);
}

#[test]
fn device_time_in_framed_packet() {
    let mut payload = vec![14, 0x12];
    payload.extend_from_slice(&2.5f64.to_be_bytes());
    payload.extend([0, 0, 0, 0]);
    let mut buffer = frame(0x80, &payload);
    let packets = process_buffer(&mut buffer);
    match &packets[0] {
        ImuPacket::Raw(r) => {
            assert_eq!(r.timestamp, Timestamp::DeviceSeconds(2.5f64.to_bits()));
            assert_eq!(r.scaled_accel, None::<Vec3Bits>);
        }
        ImuPacket::Estimated(_) => panic!("expected a raw packet"),
    }
}

#[test]
fn handle_read_delivers_received_packets() {
    let mut buffer = Vec::new();
    let stream = frame(0x80, &accel_payload(8.0));
    match handle_read(&mut buffer, ReadEvent::Received(stream[..5].to_vec())) {
        ReaderAction::Deliver(p) => assert!(p.is_empty()),
        _ => panic!("expected a delivery"),
    }
    assert_eq!(buffer, stream[..5].to_vec());
    match handle_read(&mut buffer, ReadEvent::Received(stream[5..].to_vec())) {
        ReaderAction::Deliver(p) => {
            assert_eq!(p.len(), 1);
            assert_eq!(accel_x(&p[0]), 8.0);
        }
        _ => panic!("expected a delivery"),
    }
    assert!(buffer.is_empty());
}

#[test]
fn handle_read_stops_and_waits() {
    let mut buffer = vec![0x75];
    assert!(matches!(handle_read(&mut buffer, ReadEvent::Received(Vec::new())), ReaderAction::Stop));
    assert!(matches!(handle_read(&mut buffer, ReadEvent::EndOfStream), ReaderAction::Stop));
    assert!(matches!(handle_read(&mut buffer, ReadEvent::TimedOut), ReaderAction::KeepReading));
    assert!(matches!(handle_read(&mut buffer, ReadEvent::Failed), ReaderAction::StopOnError));
    assert_eq!(buffer, vec![0x75]);
}
