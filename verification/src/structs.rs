use vstd::prelude::*;

verus! {

/// Three IEEE-754 single-precision values, each kept as the bit pattern that
/// the device sent (`f32::from_bits` gives the number).
#[derive(Clone, Copy, Debug, PartialEq, Eq, Structural)]
pub struct Vec3Bits {
    pub x: u32,
    pub y: u32,
    pub z: u32,
}

/// A quaternion of four IEEE-754 single-precision values, kept as bit patterns.
#[derive(Clone, Copy, Debug, PartialEq, Eq, Structural)]
pub struct QuatBits {
    pub q0: u32,
    pub q1: u32,
    pub q2: u32,
    pub q3: u32,
}

/// When a packet was taken.
///
/// A packet starts out stamped with the host's clock; a time field sent by the
/// device replaces that stamp with the device's own time, in seconds, as the
/// bit pattern of an IEEE-754 double (multiplied by 1e9 it gives nanoseconds).
#[derive(Clone, Copy, Debug, PartialEq, Eq, Structural)]
pub enum Timestamp {
    HostNanos(u128),
    DeviceSeconds(u64),
}

/// A decoded packet of the raw-sensor descriptor set.
#[derive(Debug)]
pub struct RawDataPacket {
    pub timestamp: Timestamp,
    pub invalid_fields: Option<String>,
    pub scaled_accel: Option<Vec3Bits>,
    pub scaled_gyro: Option<Vec3Bits>,
    pub delta_vel: Option<Vec3Bits>,
    pub delta_theta: Option<Vec3Bits>,
    pub scaled_ambient_pressure: Option<u32>,
}

/// A decoded packet of the estimation-filter descriptor set.
#[derive(Debug)]
pub struct EstimatedDataPacket {
    pub timestamp: Timestamp,
    pub invalid_fields: Option<String>,
    pub est_pressure_alt: Option<u32>,
    pub est_orient_quaternion: Option<QuatBits>,
    pub est_attitude_uncert_quaternion: Option<QuatBits>,
    pub est_angular_rate: Option<Vec3Bits>,
    pub est_compensated_accel: Option<Vec3Bits>,
    pub est_linear_accel: Option<Vec3Bits>,
    pub est_gravity_vector: Option<Vec3Bits>,
}

/// A decoded packet of either descriptor set.
#[derive(Debug)]
pub enum ImuPacket {
    Raw(RawDataPacket),
    Estimated(EstimatedDataPacket),
}

/// The model of a [`RawDataPacket`]: the same fields, with the text of the
/// invalid-field list as a sequence of characters.
pub struct RawDataPacketView {
    pub timestamp: Timestamp,
    pub invalid_fields: Option<Seq<char>>,
    pub scaled_accel: Option<Vec3Bits>,
    pub scaled_gyro: Option<Vec3Bits>,
    pub delta_vel: Option<Vec3Bits>,
    pub delta_theta: Option<Vec3Bits>,
    pub scaled_ambient_pressure: Option<u32>,
}

/// The model of an [`EstimatedDataPacket`].
pub struct EstimatedDataPacketView {
    pub timestamp: Timestamp,
    pub invalid_fields: Option<Seq<char>>,
    pub est_pressure_alt: Option<u32>,
    pub est_orient_quaternion: Option<QuatBits>,
    pub est_attitude_uncert_quaternion: Option<QuatBits>,
    pub est_angular_rate: Option<Vec3Bits>,
    pub est_compensated_accel: Option<Vec3Bits>,
    pub est_linear_accel: Option<Vec3Bits>,
    pub est_gravity_vector: Option<Vec3Bits>,
}

/// The model of an [`ImuPacket`].
pub enum ImuPacketView {
    Raw(RawDataPacketView),
    Estimated(EstimatedDataPacketView),
}

pub open spec fn text_view(s: Option<String>) -> Option<Seq<char>> {
    match s {
        Some(t) => Some(t@),
        None => None,
    }
}

/// The model of an optional packet.
pub open spec fn packet_option_view(p: Option<ImuPacket>) -> Option<ImuPacketView> {
    match p {
        Some(q) => Some(q@),
        None => None,
    }
}

impl View for RawDataPacket {
    type V = RawDataPacketView;

    open spec fn view(&self) -> RawDataPacketView {
        RawDataPacketView {
            timestamp: self.timestamp,
            invalid_fields: text_view(self.invalid_fields),
            scaled_accel: self.scaled_accel,
            scaled_gyro: self.scaled_gyro,
            delta_vel: self.delta_vel,
            delta_theta: self.delta_theta,
            scaled_ambient_pressure: self.scaled_ambient_pressure,
        }
    }
}

impl View for EstimatedDataPacket {
    type V = EstimatedDataPacketView;

    open spec fn view(&self) -> EstimatedDataPacketView {
        EstimatedDataPacketView {
            timestamp: self.timestamp,
            invalid_fields: text_view(self.invalid_fields),
            est_pressure_alt: self.est_pressure_alt,
            est_orient_quaternion: self.est_orient_quaternion,
            est_attitude_uncert_quaternion: self.est_attitude_uncert_quaternion,
            est_angular_rate: self.est_angular_rate,
            est_compensated_accel: self.est_compensated_accel,
            est_linear_accel: self.est_linear_accel,
            est_gravity_vector: self.est_gravity_vector,
        }
    }
}

impl View for ImuPacket {
    type V = ImuPacketView;

    open spec fn view(&self) -> ImuPacketView {
        match self {
            ImuPacket::Raw(r) => ImuPacketView::Raw(r@),
            ImuPacket::Estimated(e) => ImuPacketView::Estimated(e@),
        }
    }
}

impl RawDataPacketView {
    /// A raw packet stamped with `timestamp` and holding no field.
    pub open spec fn stamped(timestamp: Timestamp) -> RawDataPacketView {
        RawDataPacketView {
            timestamp,
            invalid_fields: None,
            scaled_accel: None,
            scaled_gyro: None,
            delta_vel: None,
            delta_theta: None,
            scaled_ambient_pressure: None,
        }
    }
}

impl EstimatedDataPacketView {
    /// An estimated packet stamped with `timestamp` and holding no field.
    pub open spec fn stamped(timestamp: Timestamp) -> EstimatedDataPacketView {
        EstimatedDataPacketView {
            timestamp,
            invalid_fields: None,
            est_pressure_alt: None,
            est_orient_quaternion: None,
            est_attitude_uncert_quaternion: None,
            est_angular_rate: None,
            est_compensated_accel: None,
            est_linear_accel: None,
            est_gravity_vector: None,
        }
    }
}

impl Default for RawDataPacket {
    fn default() -> (r: RawDataPacket)
        ensures
            r@ == RawDataPacketView::stamped(Timestamp::HostNanos(0)),
    {
        RawDataPacket {
            timestamp: Timestamp::HostNanos(0),
            invalid_fields: None,
            scaled_accel: None,
            scaled_gyro: None,
            delta_vel: None,
            delta_theta: None,
            scaled_ambient_pressure: None,
        }
    }
}

impl Default for EstimatedDataPacket {
    fn default() -> (r: EstimatedDataPacket)
        ensures
            r@ == EstimatedDataPacketView::stamped(Timestamp::HostNanos(0)),
    {
        EstimatedDataPacket {
            timestamp: Timestamp::HostNanos(0),
            invalid_fields: None,
            est_pressure_alt: None,
            est_orient_quaternion: None,
            est_attitude_uncert_quaternion: None,
            est_angular_rate: None,
            est_compensated_accel: None,
            est_linear_accel: None,
            est_gravity_vector: None,
        }
    }
}

impl ImuPacket {
    /// The name of the packet's descriptor set: "raw" or "estimated".
    pub fn packet_type(&self) -> (s: &'static str)
        ensures
            s@ == (match self@ {
                ImuPacketView::Raw(_) => "raw"@,
                ImuPacketView::Estimated(_) => "estimated"@,
            }),
    {
        match self {
            ImuPacket::Raw(_) => "raw",
            ImuPacket::Estimated(_) => "estimated",
        }
    }
}

} // verus!
