//! Decoding of MicroStrain MIP data packets sent by a 3DM-CX5-15 inertial
//! measurement unit: framing of the byte stream, the Fletcher checksum that
//! guards each packet, and the decoding of the raw-sensor and estimation-filter
//! descriptor sets into packet records.

pub mod protocol;
pub mod structs;
pub mod parser;
