# mscl_rs

A verified decoder for the MIP data packets that a MicroStrain 3DM-CX5-15
inertial measurement unit sends over its serial line.

- `src/protocol.rs`: the Fletcher checksum, big-endian readers, and the
  decoding of raw-sensor (0x80) and estimation-filter (0x82) payloads into
  packet records, each with a specification of the result.
- `src/parser.rs`: framing of the byte stream (`process_buffer`), one step of
  the reading loop (`handle_read`), and the laws of the framing: a valid packet
  is always found, reading in chunks finds what reading whole finds, and what a
  pass leaves behind is an incomplete packet.
- `src/structs.rs`: the packet records and their models. Sensor values are kept
  as the IEEE-754 bit patterns that the device sent.
- `app/`: the Python bindings and the reader thread over a serial port or a
  recorded file; it turns bit patterns into floats.
