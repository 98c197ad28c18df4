use std::time::{Duration, SystemTime, SystemTimeError, UNIX_EPOCH};
use vstd::prelude::*;

use crate::structs::{
    packet_option_view, EstimatedDataPacket, EstimatedDataPacketView, ImuPacket, ImuPacketView, QuatBits,
    RawDataPacket, RawDataPacketView, Timestamp, Vec3Bits,
};

verus! {

/// The Fletcher-16 running sums over `data`, both kept modulo 256:
/// `a` is the sum of the bytes, `b` the sum of the successive values of `a`.
pub open spec fn spec_fletcher(data: Seq<u8>) -> (u8, u8)
    decreases data.len(),
{
    if data.len() == 0 {
        (0u8, 0u8)
    } else {
        let (a, b) = spec_fletcher(data.drop_last());
        let a2 = ((a + data.last()) % 256) as u8;
        (a2, ((b + a2) % 256) as u8)
    }
}

/// Calculates the Fletcher checksum of `data`.
/// Returns the pair (checksum_a, checksum_b).
pub fn fletcher_checksum(data: &[u8]) -> (r: (u8, u8))
    ensures
        r == spec_fletcher(data@),
{
    let mut a: u8 = 0;
    let mut b: u8 = 0;
    let mut i: usize = 0;
    while i < data.len()
        invariant
            i <= data@.len(),
            (a, b) == spec_fletcher(data@.take(i as int)),
        decreases data@.len() - i,
    {
        assert(data@.take(i + 1).drop_last() =~= data@.take(i as int));
        a = a.wrapping_add(data[i]);
        b = b.wrapping_add(a);
        i = i + 1;
    }
    assert(data@.take(i as int) =~= data@);
    (a, b)
}


/// The big-endian 16-bit value of the two bytes of `s` at `off`.
pub open spec fn be_u16(s: Seq<u8>, off: int) -> u16 {
    ((s[off] as int) * 256 + (s[off + 1] as int)) as u16
}

/// The big-endian 32-bit value of the four bytes of `s` at `off`.
pub open spec fn be_u32(s: Seq<u8>, off: int) -> u32 {
    ((s[off] as int) * 0x100_0000 + (s[off + 1] as int) * 0x1_0000 + (s[off + 2] as int) * 0x100
        + (s[off + 3] as int)) as u32
}

/// The big-endian 64-bit value of the eight bytes of `s` at `off`.
pub open spec fn be_u64(s: Seq<u8>, off: int) -> u64 {
    ((be_u32(s, off) as int) * 0x1_0000_0000 + (be_u32(s, off + 4) as int)) as u64
}

/// Reads a big-endian `u16` from a two-byte slice.
pub fn read_u16(d: &[u8]) -> (r: u16)
    requires
        d@.len() == 2,
    ensures
        r == be_u16(d@, 0),
        r as int == (d@[0] as int) * 256 + (d@[1] as int),
{
    (d[0] as u16) * 256 + (d[1] as u16)
}

/// Reads the bit pattern of a big-endian IEEE-754 single-precision value
/// from a four-byte slice.
pub fn read_f32_bits(d: &[u8]) -> (r: u32)
    requires
        d@.len() == 4,
    ensures
        r == be_u32(d@, 0),
{
    (d[0] as u32) * 0x100_0000 + (d[1] as u32) * 0x1_0000 + (d[2] as u32) * 0x100 + (d[3] as u32)
}

/// Reads the bit pattern of a big-endian IEEE-754 double-precision value
/// from an eight-byte slice.
pub fn read_f64_bits(d: &[u8]) -> (r: u64)
    requires
        d@.len() == 8,
    ensures
        r == be_u64(d@, 0),
{
    let hi = read_f32_bits(&d[0..4]);
    let lo = read_f32_bits(&d[4..8]);
    assert(be_u32(d@.subrange(0, 4), 0) == be_u32(d@, 0));
    assert(be_u32(d@.subrange(4, 8), 0) == be_u32(d@, 4));
    (hi as u64) * 0x1_0000_0000 + (lo as u64)
}

pub open spec fn vec3_at(s: Seq<u8>, off: int) -> Vec3Bits {
    Vec3Bits { x: be_u32(s, off), y: be_u32(s, off + 4), z: be_u32(s, off + 8) }
}

pub open spec fn quat_at(s: Seq<u8>, off: int) -> QuatBits {
    QuatBits {
        q0: be_u32(s, off),
        q1: be_u32(s, off + 4),
        q2: be_u32(s, off + 8),
        q3: be_u32(s, off + 12),
    }
}

fn read_vec3(d: &[u8]) -> (r: Vec3Bits)
    requires
        d@.len() >= 12,
    ensures
        r == vec3_at(d@, 0),
{
    let x = read_f32_bits(&d[0..4]);
    let y = read_f32_bits(&d[4..8]);
    let z = read_f32_bits(&d[8..12]);
    assert(be_u32(d@.subrange(0, 4), 0) == be_u32(d@, 0));
    assert(be_u32(d@.subrange(4, 8), 0) == be_u32(d@, 4));
    assert(be_u32(d@.subrange(8, 12), 0) == be_u32(d@, 8));
    Vec3Bits { x, y, z }
}

fn read_quat(d: &[u8]) -> (r: QuatBits)
    requires
        d@.len() >= 16,
    ensures
        r == quat_at(d@, 0),
{
    let q0 = read_f32_bits(&d[0..4]);
    let q1 = read_f32_bits(&d[4..8]);
    let q2 = read_f32_bits(&d[8..12]);
    let q3 = read_f32_bits(&d[12..16]);
    assert(be_u32(d@.subrange(0, 4), 0) == be_u32(d@, 0));
    assert(be_u32(d@.subrange(4, 8), 0) == be_u32(d@, 4));
    assert(be_u32(d@.subrange(8, 12), 0) == be_u32(d@, 8));
    assert(be_u32(d@.subrange(12, 16), 0) == be_u32(d@, 12));
    QuatBits { q0, q1, q2, q3 }
}

/// A payload is a run of fields, each laid out as `[len, desc, data...]` where
/// `len` counts the two header bytes. This holds when a whole field starts at `i`.
pub open spec fn field_fits(payload: Seq<u8>, i: int) -> bool {
    &&& 0 <= i < payload.len()
    &&& payload[i] >= 2
    &&& i + payload[i] <= payload.len()
}

/// The descriptor of the field at `i`.
pub open spec fn field_desc(payload: Seq<u8>, i: int) -> u8 {
    payload[i + 1]
}

/// The data bytes of the field at `i`.
pub open spec fn field_data(payload: Seq<u8>, i: int) -> Seq<u8> {
    payload.subrange(i + 2, i + payload[i])
}

/// What one field of the raw-sensor set does to the packet: a field whose
/// descriptor is known and whose data has the expected length sets its value;
/// any other field leaves the packet as it was.
pub open spec fn raw_step(p: RawDataPacketView, desc: u8, data: Seq<u8>) -> RawDataPacketView {
    if desc == 0x04 && data.len() == 12 {
        RawDataPacketView { scaled_accel: Some(vec3_at(data, 0)), ..p }
    } else if desc == 0x05 && data.len() == 12 {
        RawDataPacketView { scaled_gyro: Some(vec3_at(data, 0)), ..p }
    } else if desc == 0x07 && data.len() == 12 {
        RawDataPacketView { delta_theta: Some(vec3_at(data, 0)), ..p }
    } else if desc == 0x08 && data.len() == 12 {
        RawDataPacketView { delta_vel: Some(vec3_at(data, 0)), ..p }
    } else if desc == 0x17 && data.len() == 4 {
        RawDataPacketView { scaled_ambient_pressure: Some(be_u32(data, 0)), ..p }
    } else if desc == 0x12 && data.len() == 12 {
        RawDataPacketView { timestamp: Timestamp::DeviceSeconds(be_u64(data, 0)), ..p }
    } else {
        p
    }
}

/// Applies the fields of `payload` from offset `i` on, in order, to `p`; the
/// walk stops at the end of the payload or at the first field that does not fit.
pub open spec fn raw_fields_from(payload: Seq<u8>, i: int, p: RawDataPacketView) -> RawDataPacketView
    decreases payload.len() - i,
{
    if field_fits(payload, i) {
        raw_fields_from(
            payload,
            i + payload[i],
            raw_step(p, field_desc(payload, i), field_data(payload, i)),
        )
    } else {
        p
    }
}

/// The raw-sensor packet that `payload` decodes to, stamped first with `timestamp`.
pub open spec fn spec_decode_raw(payload: Seq<u8>, timestamp: u128) -> RawDataPacketView {
    raw_fields_from(payload, 0, RawDataPacketView::stamped(Timestamp::HostNanos(timestamp)))
}

fn apply_raw_field(pkt: &mut RawDataPacket, desc: u8, data: &[u8])
    ensures
        final(pkt)@ == raw_step(old(pkt)@, desc, data@),
{
    if desc == 0x04 && data.len() == 12 {
        pkt.scaled_accel = Some(read_vec3(data));
    } else if desc == 0x05 && data.len() == 12 {
        pkt.scaled_gyro = Some(read_vec3(data));
    } else if desc == 0x07 && data.len() == 12 {
        pkt.delta_theta = Some(read_vec3(data));
    } else if desc == 0x08 && data.len() == 12 {
        pkt.delta_vel = Some(read_vec3(data));
    } else if desc == 0x17 && data.len() == 4 {
        pkt.scaled_ambient_pressure = Some(read_f32_bits(data));
    } else if desc == 0x12 && data.len() == 12 {
        let t = read_f64_bits(&data[0..8]);
        assert(be_u64(data@.subrange(0, 8), 0) == be_u64(data@, 0));
        pkt.timestamp = Timestamp::DeviceSeconds(t);
    }
}

/// Decodes the payload of a raw-sensor packet.
fn decode_raw_packet(payload: &[u8], timestamp: u128) -> (r: Option<ImuPacket>)
    ensures
        packet_option_view(r) == Some(ImuPacketView::Raw(spec_decode_raw(payload@, timestamp))),
{
    let mut pkt = RawDataPacket::default();
    pkt.timestamp = Timestamp::HostNanos(timestamp);
    let ghost target = spec_decode_raw(payload@, timestamp);
    let mut i: usize = 0;
    while i < payload.len()
        invariant
            i <= payload@.len(),
            raw_fields_from(payload@, i as int, pkt@) == target,
        ensures
            pkt@ == target,
        decreases payload@.len() - i,
    {
        let len = payload[i] as usize;
        if len < 2 || len > payload.len() - i {
            break;
        }
        let desc = payload[i + 1];
        let data = &payload[i + 2..i + len];
        apply_raw_field(&mut pkt, desc, data);
        i = i + len;
    }
    Some(ImuPacket::Raw(pkt))
}


/// The expected data length and the name of each known field of the
/// estimation-filter set that carries a validity flag.
pub open spec fn est_field_info(desc: u8) -> Option<(int, Seq<char>)> {
    if desc == 0x21 {
        Some((6, "estPressureAlt"@))
    } else if desc == 0x03 {
        Some((18, "estOrientQuaternion"@))
    } else if desc == 0x12 {
        Some((18, "estAttitudeUncertQuaternion"@))
    } else if desc == 0x0E {
        Some((14, "estAngularRate"@))
    } else if desc == 0x1C {
        Some((14, "estCompensatedAccel"@))
    } else if desc == 0x0D {
        Some((14, "estLinearAccel"@))
    } else if desc == 0x13 {
        Some((14, "estGravityVector"@))
    } else {
        None
    }
}

/// An estimation field ends in a big-endian 16-bit flag word; its lowest bit
/// clear marks the value as not valid.
pub open spec fn est_flag_clear(data: Seq<u8>) -> bool {
    be_u16(data, data.len() - 2) % 2 == 0
}

/// Checks that an estimation field has its expected length; when it has, and
/// its validity flag is clear, `name` is added to the list of invalid fields.
pub fn check_est_field(data: &[u8], expected_len: usize, name: &str, invalid: &mut Vec<String>) -> (r:
    bool)
    requires
        data@.len() == expected_len ==> expected_len >= 2,
    ensures
        r == (data@.len() == expected_len),
        final(invalid).deep_view() == (if r && est_flag_clear(data@) {
            old(invalid).deep_view().push(name@)
        } else {
            old(invalid).deep_view()
        }),
{
    if data.len() != expected_len {
        return false;
    }
    let flags = read_u16(&data[expected_len - 2..expected_len]);
    assert(be_u16(data@.subrange(expected_len - 2, expected_len as int), 0) == be_u16(
        data@,
        data@.len() - 2,
    ));
    assert(flags & 1 == flags % 2) by (bit_vector);
    if flags & 1 == 0 {
        let ghost before = invalid.deep_view();
        invalid.push(name.to_owned());
        assert(invalid.deep_view() =~= before.push(name@));
    }
    return true;
}

/// The parts joined into one text, with `sep` between each two.
pub open spec fn seq_join(parts: Seq<Seq<char>>, sep: Seq<char>) -> Seq<char>
    decreases parts.len(),
{
    if parts.len() == 0 {
        Seq::empty()
    } else if parts.len() == 1 {
        parts[0]
    } else {
        seq_join(parts.drop_last(), sep) + sep + parts.last()
    }
}

/// Joins the strings of `parts` into one, with `sep` between each two.
pub fn join_strings(parts: &Vec<String>, sep: &str) -> (r: String)
    ensures
        r@ == seq_join(parts.deep_view(), sep@),
{
    let ghost dv = parts.deep_view();
    let mut out = String::new();
    let mut i: usize = 0;
    while i < parts.len()
        invariant
            i <= parts@.len(),
            dv == parts.deep_view(),
            out@ == seq_join(dv.take(i as int), sep@),
        decreases parts@.len() - i,
    {
        assert(dv.take(i + 1).drop_last() =~= dv.take(i as int));
        if i > 0 {
            out.append(sep);
        }
        out.append(parts[i].as_str());
        i = i + 1;
    }
    assert(dv.take(i as int) =~= dv);
    out
}

/// What the known fields of the estimation-filter set write into the packet.
pub open spec fn est_set(p: EstimatedDataPacketView, desc: u8, data: Seq<u8>) -> EstimatedDataPacketView {
    if desc == 0x21 {
        EstimatedDataPacketView { est_pressure_alt: Some(be_u32(data, 0)), ..p }
    } else if desc == 0x03 {
        EstimatedDataPacketView { est_orient_quaternion: Some(quat_at(data, 0)), ..p }
    } else if desc == 0x12 {
        EstimatedDataPacketView { est_attitude_uncert_quaternion: Some(quat_at(data, 0)), ..p }
    } else if desc == 0x0E {
        EstimatedDataPacketView { est_angular_rate: Some(vec3_at(data, 0)), ..p }
    } else if desc == 0x1C {
        EstimatedDataPacketView { est_compensated_accel: Some(vec3_at(data, 0)), ..p }
    } else if desc == 0x0D {
        EstimatedDataPacketView { est_linear_accel: Some(vec3_at(data, 0)), ..p }
    } else {
        EstimatedDataPacketView { est_gravity_vector: Some(vec3_at(data, 0)), ..p }
    }
}

/// The state of decoding an estimation-filter payload: the packet so far and
/// the names of the fields found invalid so far, in order.
pub struct EstDecodeState {
    pub pkt: EstimatedDataPacketView,
    pub invalid: Seq<Seq<char>>,
}

/// What one field of the estimation-filter set does to the decoding state.
/// A flagged field of the expected length sets its value, whatever its flag,
/// and adds its name to the invalid list when its flag is clear; the time
/// field replaces the stamp; any other field changes nothing.
pub open spec fn est_step(st: EstDecodeState, desc: u8, data: Seq<u8>) -> EstDecodeState {
    match est_field_info(desc) {
        Some((n, name)) => if data.len() == n {
            EstDecodeState {
                pkt: est_set(st.pkt, desc, data),
                invalid: if est_flag_clear(data) {
                    st.invalid.push(name)
                } else {
                    st.invalid
                },
            }
        } else {
            st
        },
        None => if desc == 0x11 && data.len() == 12 {
            EstDecodeState {
                pkt: EstimatedDataPacketView {
                    timestamp: Timestamp::DeviceSeconds(be_u64(data, 0)),
                    ..st.pkt
                },
                invalid: st.invalid,
            }
        } else {
            st
        },
    }
}

/// Applies the fields of `payload` from offset `i` on to the state `st`.
pub open spec fn est_fields_from(payload: Seq<u8>, i: int, st: EstDecodeState) -> EstDecodeState
    decreases payload.len() - i,
{
    if field_fits(payload, i) {
        est_fields_from(
            payload,
            i + payload[i],
            est_step(st, field_desc(payload, i), field_data(payload, i)),
        )
    } else {
        st
    }
}

/// The estimation-filter packet that `payload` decodes to, stamped first with
/// `timestamp`: the invalid-field list is the names of the invalid fields
/// joined by commas, or nothing when no field was invalid.
pub open spec fn spec_decode_estimated(payload: Seq<u8>, timestamp: u128) -> EstimatedDataPacketView {
    let st = est_fields_from(
        payload,
        0,
        EstDecodeState {
            pkt: EstimatedDataPacketView::stamped(Timestamp::HostNanos(timestamp)),
            invalid: Seq::empty(),
        },
    );
    EstimatedDataPacketView {
        invalid_fields: if st.invalid.len() == 0 {
            None
        } else {
            Some(seq_join(st.invalid, ","@))
        },
        ..st.pkt
    }
}

fn apply_est_field(pkt: &mut EstimatedDataPacket, invalid: &mut Vec<String>, desc: u8, data: &[u8])
    requires
        old(pkt).invalid_fields is None,
    ensures
        final(pkt).invalid_fields is None,
        (EstDecodeState { pkt: final(pkt)@, invalid: final(invalid).deep_view() }) == est_step(
            EstDecodeState { pkt: old(pkt)@, invalid: old(invalid).deep_view() },
            desc,
            data@,
        ),
{
    if desc == 0x21 {
        if check_est_field(data, 6, "estPressureAlt", invalid) {
            pkt.est_pressure_alt = Some(read_f32_bits(&data[0..4]));
            assert(be_u32(data@.subrange(0, 4), 0) == be_u32(data@, 0));
        }
    } else if desc == 0x03 {
        if check_est_field(data, 18, "estOrientQuaternion", invalid) {
            pkt.est_orient_quaternion = Some(read_quat(data));
        }
    } else if desc == 0x12 {
        if check_est_field(data, 18, "estAttitudeUncertQuaternion", invalid) {
            pkt.est_attitude_uncert_quaternion = Some(read_quat(data));
        }
    } else if desc == 0x0E {
        if check_est_field(data, 14, "estAngularRate", invalid) {
            pkt.est_angular_rate = Some(read_vec3(data));
        }
    } else if desc == 0x1C {
        if check_est_field(data, 14, "estCompensatedAccel", invalid) {
            pkt.est_compensated_accel = Some(read_vec3(data));
        }
    } else if desc == 0x0D {
        if check_est_field(data, 14, "estLinearAccel", invalid) {
            pkt.est_linear_accel = Some(read_vec3(data));
        }
    } else if desc == 0x13 {
        if check_est_field(data, 14, "estGravityVector", invalid) {
            pkt.est_gravity_vector = Some(read_vec3(data));
        }
    } else if desc == 0x11 && data.len() == 12 {
        let t = read_f64_bits(&data[0..8]);
        assert(be_u64(data@.subrange(0, 8), 0) == be_u64(data@, 0));
        pkt.timestamp = Timestamp::DeviceSeconds(t);
    }
}

/// Decodes the payload of an estimation-filter packet.
fn decode_estimated_packet(payload: &[u8], timestamp: u128) -> (r: Option<ImuPacket>)
    ensures
        packet_option_view(r) == Some(
            ImuPacketView::Estimated(spec_decode_estimated(payload@, timestamp)),
        ),
{
    let mut pkt = EstimatedDataPacket::default();
    pkt.timestamp = Timestamp::HostNanos(timestamp);
    let mut invalid: Vec<String> = Vec::new();
    let ghost target = est_fields_from(
        payload@,
        0,
        EstDecodeState {
            pkt: EstimatedDataPacketView::stamped(Timestamp::HostNanos(timestamp)),
            invalid: Seq::empty(),
        },
    );
    assert(invalid.deep_view() =~= Seq::<Seq<char>>::empty());
    let mut i: usize = 0;
    while i < payload.len()
        invariant
            i <= payload@.len(),
            pkt.invalid_fields is None,
            est_fields_from(
                payload@,
                i as int,
                EstDecodeState { pkt: pkt@, invalid: invalid.deep_view() },
            ) == target,
        ensures
            pkt.invalid_fields is None,
            (EstDecodeState { pkt: pkt@, invalid: invalid.deep_view() }) == target,
        decreases payload@.len() - i,
    {
        let len = payload[i] as usize;
        if len < 2 || len > payload.len() - i {
            break;
        }
        let desc = payload[i + 1];
        let data = &payload[i + 2..i + len];
        apply_est_field(&mut pkt, &mut invalid, desc, data);
        i = i + len;
    }
    if invalid.len() > 0 {
        pkt.invalid_fields = Some(join_strings(&invalid, ","));
    }
    Some(ImuPacket::Estimated(pkt))
}

/// The packet that a payload of descriptor set `desc_set` decodes to, stamped
/// first with `timestamp`: raw-sensor data for 0x80, estimation-filter data
/// for 0x82, and nothing for any other set.
pub open spec fn spec_decode_packet(desc_set: u8, payload: Seq<u8>, timestamp: u128) -> Option<
    ImuPacketView,
> {
    if desc_set == 0x80 {
        Some(ImuPacketView::Raw(spec_decode_raw(payload, timestamp)))
    } else if desc_set == 0x82 {
        Some(ImuPacketView::Estimated(spec_decode_estimated(payload, timestamp)))
    } else {
        None
    }
}

/// Decodes a packet payload of descriptor set `desc_set`, stamped first with
/// `timestamp` (nanoseconds since the Unix epoch).
pub fn decode_packet_at(desc_set: u8, payload: &[u8], timestamp: u128) -> (r: Option<ImuPacket>)
    ensures
        packet_option_view(r) == spec_decode_packet(desc_set, payload@, timestamp),
{
    if desc_set == 0x80 {
        decode_raw_packet(payload, timestamp)
    } else if desc_set == 0x82 {
        decode_estimated_packet(payload, timestamp)
    } else {
        None
    }
}

#[verifier::external_type_specification]
#[verifier::external_body]
pub struct ExSystemTime(SystemTime);

#[verifier::external_type_specification]
#[verifier::external_body]
pub struct ExSystemTimeError(SystemTimeError);

/// Reads the host clock with `std::time::SystemTime::now`; nothing is
/// promised of the reading.
#[verifier::external_body]
fn system_time_now() -> SystemTime {
    SystemTime::now()
}

/// The time from the Unix epoch to `t`, by `SystemTime::duration_since`
/// with `UNIX_EPOCH`; it fails for a time before the epoch. Nothing is
/// promised of the duration.
#[verifier::external_body]
fn since_unix_epoch(t: &SystemTime) -> Result<Duration, SystemTimeError> {
    t.duration_since(UNIX_EPOCH)
}

/// The length of `d` in nanoseconds, by `Duration::as_nanos`; nothing is
/// promised of it, as a `Duration` is opaque here.
#[verifier::external_body]
fn duration_as_nanos(d: &Duration) -> u128 {
    d.as_nanos()
}

/// The host clock as nanoseconds since the Unix epoch; a clock set before
/// the epoch reads as 0.
fn unix_time_nanos() -> u128 {
    let now = system_time_now();
    match since_unix_epoch(&now) {
        Ok(d) => duration_as_nanos(&d),
        Err(_) => 0,
    }
}

/// Decodes a packet payload of descriptor set `desc_set`, stamped first with
/// the host clock at the time of the call.
pub fn decode_packet(desc_set: u8, payload: &[u8]) -> (r: Option<ImuPacket>)
    ensures
        exists|t: u128| packet_option_view(r) == #[trigger] spec_decode_packet(desc_set, payload@, t),
{
    let timestamp = unix_time_nanos();
    let r = decode_packet_at(desc_set, payload, timestamp);
    assert(packet_option_view(r) == spec_decode_packet(desc_set, payload@, timestamp));
    r
}


/// The bytes of one payload field: its length (counting the two header
/// bytes), its descriptor, and its data.
pub open spec fn field_bytes(desc: u8, data: Seq<u8>) -> Seq<u8> {
    seq![(data.len() + 2) as u8, desc] + data
}

/// Where the walk over the fields of `payload` from `i` stops.
pub open spec fn fields_walk_end(payload: Seq<u8>, i: int) -> int
    decreases payload.len() - i,
{
    if field_fits(payload, i) {
        fields_walk_end(payload, i + payload[i])
    } else {
        i
    }
}

proof fn lemma_field_shift(a: Seq<u8>, b: Seq<u8>, j: int)
    requires
        0 <= j,
    ensures
        field_fits(a + b, a.len() + j) == field_fits(b, j),
        field_fits(b, j) ==> {
            &&& (a + b)[a.len() + j] == b[j]
            &&& field_desc(a + b, a.len() + j) == field_desc(b, j)
            &&& field_data(a + b, a.len() + j) == field_data(b, j)
        },
{
    if field_fits(b, j) {
        assert(field_data(a + b, a.len() + j) =~= field_data(b, j));
    }
}

proof fn lemma_field_prefix(a: Seq<u8>, b: Seq<u8>, i: int)
    requires
        field_fits(a, i),
    ensures
        field_fits(a + b, i),
        (a + b)[i] == a[i],
        field_desc(a + b, i) == field_desc(a, i),
        field_data(a + b, i) == field_data(a, i),
{
    assert(field_data(a + b, i) =~= field_data(a, i));
}

proof fn lemma_raw_shift(a: Seq<u8>, b: Seq<u8>, j: int, p: RawDataPacketView)
    requires
        0 <= j,
    ensures
        raw_fields_from(a + b, a.len() + j, p) == raw_fields_from(b, j, p),
    decreases b.len() - j,
{
    lemma_field_shift(a, b, j);
    if field_fits(b, j) {
        lemma_raw_shift(a, b, j + b[j], raw_step(p, field_desc(b, j), field_data(b, j)));
    }
}

proof fn lemma_raw_concat_from(a: Seq<u8>, b: Seq<u8>, i: int, p: RawDataPacketView)
    requires
        0 <= i <= a.len(),
        fields_walk_end(a, i) == a.len(),
    ensures
        raw_fields_from(a + b, i, p) == raw_fields_from(b, 0, raw_fields_from(a, i, p)),
    decreases a.len() - i,
{
    if i == a.len() {
        lemma_raw_shift(a, b, 0, p);
    } else {
        lemma_field_prefix(a, b, i);
        lemma_raw_concat_from(a, b, i + a[i], raw_step(p, field_desc(a, i), field_data(a, i)));
    }
}

/// The field walk applies every field that fits, whatever came before it:
/// decoding a run of whole fields followed by more fields is decoding the
/// run, then the fields after it.
pub proof fn law_raw_fields_concat(p1: Seq<u8>, p2: Seq<u8>, p: RawDataPacketView)
    requires
        fields_walk_end(p1, 0) == p1.len(),
    ensures
        raw_fields_from(p1 + p2, 0, p) == raw_fields_from(p2, 0, raw_fields_from(p1, 0, p)),
{
    lemma_raw_concat_from(p1, p2, 0, p);
}

proof fn lemma_single_field(desc: u8, data: Seq<u8>)
    requires
        data.len() <= 253,
    ensures
        field_fits(field_bytes(desc, data), 0),
        field_bytes(desc, data)[0] == data.len() + 2,
        field_desc(field_bytes(desc, data), 0) == desc,
        field_data(field_bytes(desc, data), 0) == data,
        !field_fits(field_bytes(desc, data), data.len() as int + 2),
        fields_walk_end(field_bytes(desc, data), 0) == field_bytes(desc, data).len(),
{
    let f = field_bytes(desc, data);
    assert(f[0] == (data.len() + 2) as u8);
    assert(field_data(f, 0) =~= data);
    assert(fields_walk_end(f, data.len() as int + 2) == data.len() + 2);
}

/// What one raw-sensor field does, by descriptor: the accelerometer (0x04),
/// gyroscope (0x05), delta-theta (0x07) and delta-velocity (0x08) fields set
/// their vector to the three big-endian words of their 12 data bytes, in
/// order; the pressure field (0x17) sets the word of its 4 bytes; the time
/// field (0x12) replaces the stamp with the device time in its first 8 bytes;
/// any other field, or one of another length, changes nothing.
pub proof fn law_raw_single_field(desc: u8, data: Seq<u8>, p: RawDataPacketView)
    requires
        data.len() <= 253,
    ensures
        ({
            let r = raw_fields_from(field_bytes(desc, data), 0, p);
            &&& desc == 0x04 && data.len() == 12 ==> r == RawDataPacketView {
                scaled_accel: Some(
                    Vec3Bits { x: be_u32(data, 0), y: be_u32(data, 4), z: be_u32(data, 8) },
                ),
                ..p
            }
            &&& desc == 0x05 && data.len() == 12 ==> r == RawDataPacketView {
                scaled_gyro: Some(
                    Vec3Bits { x: be_u32(data, 0), y: be_u32(data, 4), z: be_u32(data, 8) },
                ),
                ..p
            }
            &&& desc == 0x07 && data.len() == 12 ==> r == RawDataPacketView {
                delta_theta: Some(
                    Vec3Bits { x: be_u32(data, 0), y: be_u32(data, 4), z: be_u32(data, 8) },
                ),
                ..p
            }
            &&& desc == 0x08 && data.len() == 12 ==> r == RawDataPacketView {
                delta_vel: Some(
                    Vec3Bits { x: be_u32(data, 0), y: be_u32(data, 4), z: be_u32(data, 8) },
                ),
                ..p
            }
            &&& desc == 0x17 && data.len() == 4 ==> r == RawDataPacketView {
                scaled_ambient_pressure: Some(be_u32(data, 0)),
                ..p
            }
            &&& desc == 0x12 && data.len() == 12 ==> r == RawDataPacketView {
                timestamp: Timestamp::DeviceSeconds(be_u64(data, 0)),
                ..p
            }
            &&& !((desc == 0x04 || desc == 0x05 || desc == 0x07 || desc == 0x08 || desc == 0x12)
                && data.len() == 12) && !(desc == 0x17 && data.len() == 4) ==> r == p
        }),
{
    lemma_single_field(desc, data);
    let f = field_bytes(desc, data);
    assert(raw_fields_from(f, 0, p) == raw_fields_from(
        f,
        data.len() as int + 2,
        raw_step(p, desc, data),
    ));
}

proof fn lemma_est_shift(a: Seq<u8>, b: Seq<u8>, j: int, st: EstDecodeState)
    requires
        0 <= j,
    ensures
        est_fields_from(a + b, a.len() + j, st) == est_fields_from(b, j, st),
    decreases b.len() - j,
{
    lemma_field_shift(a, b, j);
    if field_fits(b, j) {
        lemma_est_shift(a, b, j + b[j], est_step(st, field_desc(b, j), field_data(b, j)));
    }
}

proof fn lemma_est_concat_from(a: Seq<u8>, b: Seq<u8>, i: int, st: EstDecodeState)
    requires
        0 <= i <= a.len(),
        fields_walk_end(a, i) == a.len(),
    ensures
        est_fields_from(a + b, i, st) == est_fields_from(b, 0, est_fields_from(a, i, st)),
    decreases a.len() - i,
{
    if i == a.len() {
        lemma_est_shift(a, b, 0, st);
    } else {
        lemma_field_prefix(a, b, i);
        lemma_est_concat_from(a, b, i + a[i], est_step(st, field_desc(a, i), field_data(a, i)));
    }
}

/// The estimation-filter walk applies every field that fits, whatever came
/// before it: decoding a run of whole fields followed by more fields is
/// decoding the run, then the fields after it.
pub proof fn law_est_fields_concat(p1: Seq<u8>, p2: Seq<u8>, st: EstDecodeState)
    requires
        fields_walk_end(p1, 0) == p1.len(),
    ensures
        est_fields_from(p1 + p2, 0, st) == est_fields_from(p2, 0, est_fields_from(p1, 0, st)),
{
    lemma_est_concat_from(p1, p2, 0, st);
}

/// The low bit of a field's flag word is the low bit of its last byte.
proof fn lemma_flag_low_bit(data: Seq<u8>)
    requires
        data.len() >= 2,
    ensures
        est_flag_clear(data) == (data[data.len() - 1] % 2 == 0),
{
    let hi = data[data.len() - 2] as int;
    let lo = data[data.len() - 1] as int;
    assert((hi * 256 + lo) % 2 == lo % 2) by (nonlinear_arith)
        requires
            0 <= hi < 256,
            0 <= lo < 256,
    ;
}

/// What one estimation-filter field does, by descriptor, to the packet and
/// to the list of invalid field names. A field of its expected length sets
/// its value from the big-endian words of its data, in order, and when the
/// low bit of its flag word (its last byte) is clear adds its own name:
/// 0x21 "estPressureAlt" (6 bytes), 0x03 "estOrientQuaternion" and 0x12
/// "estAttitudeUncertQuaternion" (18 bytes), 0x0E "estAngularRate", 0x1C
/// "estCompensatedAccel", 0x0D "estLinearAccel" and 0x13 "estGravityVector"
/// (14 bytes). The time field 0x11 (12 bytes) replaces the stamp. Any other
/// field, or one of another length, changes nothing.
pub proof fn law_est_single_field(desc: u8, data: Seq<u8>, st: EstDecodeState)
    requires
        data.len() <= 253,
    ensures
        ({
            let r = est_fields_from(field_bytes(desc, data), 0, st);
            let clear = data[data.len() - 1] % 2 == 0;
            &&& desc == 0x21 && data.len() == 6 ==> r == EstDecodeState {
                pkt: EstimatedDataPacketView { est_pressure_alt: Some(be_u32(data, 0)), ..st.pkt },
                invalid: if clear { st.invalid.push("estPressureAlt"@) } else { st.invalid },
            }
            &&& desc == 0x03 && data.len() == 18 ==> r == EstDecodeState {
                pkt: EstimatedDataPacketView {
                    est_orient_quaternion: Some(
                        QuatBits {
                            q0: be_u32(data, 0),
                            q1: be_u32(data, 4),
                            q2: be_u32(data, 8),
                            q3: be_u32(data, 12),
                        },
                    ),
                    ..st.pkt
                },
                invalid: if clear { st.invalid.push("estOrientQuaternion"@) } else { st.invalid },
            }
            &&& desc == 0x12 && data.len() == 18 ==> r == EstDecodeState {
                pkt: EstimatedDataPacketView {
                    est_attitude_uncert_quaternion: Some(
                        QuatBits {
                            q0: be_u32(data, 0),
                            q1: be_u32(data, 4),
                            q2: be_u32(data, 8),
                            q3: be_u32(data, 12),
                        },
                    ),
                    ..st.pkt
                },
                invalid: if clear {
                    st.invalid.push("estAttitudeUncertQuaternion"@)
                } else {
                    st.invalid
                },
            }
            &&& desc == 0x0E && data.len() == 14 ==> r == EstDecodeState {
                pkt: EstimatedDataPacketView {
                    est_angular_rate: Some(
                        Vec3Bits { x: be_u32(data, 0), y: be_u32(data, 4), z: be_u32(data, 8) },
                    ),
                    ..st.pkt
                },
                invalid: if clear { st.invalid.push("estAngularRate"@) } else { st.invalid },
            }
            &&& desc == 0x1C && data.len() == 14 ==> r == EstDecodeState {
                pkt: EstimatedDataPacketView {
                    est_compensated_accel: Some(
                        Vec3Bits { x: be_u32(data, 0), y: be_u32(data, 4), z: be_u32(data, 8) },
                    ),
                    ..st.pkt
                },
                invalid: if clear { st.invalid.push("estCompensatedAccel"@) } else { st.invalid },
            }
            &&& desc == 0x0D && data.len() == 14 ==> r == EstDecodeState {
                pkt: EstimatedDataPacketView {
                    est_linear_accel: Some(
                        Vec3Bits { x: be_u32(data, 0), y: be_u32(data, 4), z: be_u32(data, 8) },
                    ),
                    ..st.pkt
                },
                invalid: if clear { st.invalid.push("estLinearAccel"@) } else { st.invalid },
            }
            &&& desc == 0x13 && data.len() == 14 ==> r == EstDecodeState {
                pkt: EstimatedDataPacketView {
                    est_gravity_vector: Some(
                        Vec3Bits { x: be_u32(data, 0), y: be_u32(data, 4), z: be_u32(data, 8) },
                    ),
                    ..st.pkt
                },
                invalid: if clear { st.invalid.push("estGravityVector"@) } else { st.invalid },
            }
            &&& desc == 0x11 && data.len() == 12 ==> r == EstDecodeState {
                pkt: EstimatedDataPacketView {
                    timestamp: Timestamp::DeviceSeconds(be_u64(data, 0)),
                    ..st.pkt
                },
                invalid: st.invalid,
            }
            &&& !(desc == 0x21 && data.len() == 6) && !((desc == 0x03 || desc == 0x12)
                && data.len() == 18) && !((desc == 0x0E || desc == 0x1C || desc == 0x0D || desc
                == 0x13) && data.len() == 14) && !(desc == 0x11 && data.len() == 12) ==> r == st
        }),
{
    lemma_single_field(desc, data);
    let f = field_bytes(desc, data);
    assert(est_fields_from(f, 0, st) == est_fields_from(
        f,
        data.len() as int + 2,
        est_step(st, desc, data),
    ));
    if data.len() >= 2 {
        lemma_flag_low_bit(data);
    }
}

} // verus!
