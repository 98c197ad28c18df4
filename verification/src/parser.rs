use vstd::prelude::*;

use crate::protocol::{decode_packet, fletcher_checksum, spec_decode_packet, spec_fletcher};
use crate::structs::{packet_option_view, ImuPacket};

verus! {

/// A packet found in the byte stream: its descriptor set and its payload.
pub struct Frame {
    pub desc_set: u8,
    pub payload: Seq<u8>,
}

/// A packet on the wire is `0x75 0x65 desc_set len payload[len] ck_a ck_b`:
/// four header bytes, the payload, and the two checksum bytes.
pub open spec fn frame_len(payload_len: u8) -> int {
    4 + payload_len + 2
}

/// The two bytes that end the packet starting at `i` hold the Fletcher
/// checksum of everything before them.
pub open spec fn checksum_ok(buf: Seq<u8>, i: int) -> bool {
    let total = frame_len(buf[i + 3]);
    spec_fletcher(buf.subrange(i, i + total - 2)) == (buf[i + total - 2], buf[i + total - 1])
}

/// The packet that starts at `i` (the caller knows that it is complete).
pub open spec fn frame_at(buf: Seq<u8>, i: int) -> Frame {
    Frame { desc_set: buf[i + 2], payload: buf.subrange(i + 4, i + 4 + buf[i + 3]) }
}

/// Scans `buf` from `i` on for packets. A byte that cannot start a packet, or
/// a start whose checksum does not match, is skipped one byte at a time; a
/// valid packet is taken whole. The scan stops at the end of the buffer or at
/// a start that the buffer does not yet hold completely. The result is the
/// packets found, in order, and the offset where the scan stopped.
pub open spec fn scan_from(buf: Seq<u8>, i: int) -> (Seq<Frame>, int)
    decreases buf.len() - i,
{
    if i < 0 || i >= buf.len() {
        (Seq::empty(), i)
    } else if buf[i] != 0x75 {
        scan_from(buf, i + 1)
    } else if i + 1 >= buf.len() {
        (Seq::empty(), i)
    } else if buf[i + 1] != 0x65 {
        scan_from(buf, i + 1)
    } else if i + 4 > buf.len() {
        (Seq::empty(), i)
    } else if i + frame_len(buf[i + 3]) > buf.len() {
        (Seq::empty(), i)
    } else if !checksum_ok(buf, i) {
        scan_from(buf, i + 1)
    } else {
        let rest = scan_from(buf, i + frame_len(buf[i + 3]));
        (seq![frame_at(buf, i)] + rest.0, rest.1)
    }
}

/// The packets found in `buf`.
pub open spec fn stream_frames(buf: Seq<u8>) -> Seq<Frame> {
    scan_from(buf, 0).0
}

/// How many bytes at the front of `buf` a scan uses up.
pub open spec fn stream_consumed(buf: Seq<u8>) -> int {
    scan_from(buf, 0).1
}

/// Whether a packet belongs to a descriptor set that is decoded.
pub open spec fn is_known_set(f: Frame) -> bool {
    f.desc_set == 0x80 || f.desc_set == 0x82
}

/// The packets of `frames` whose descriptor set is decoded, in order.
pub open spec fn known_frames(frames: Seq<Frame>) -> Seq<Frame> {
    frames.filter(|f: Frame| is_known_set(f))
}

/// `packet` is the decoding of `frame`, stamped with some reading of the host clock.
pub open spec fn decodes_frame(packet: ImuPacket, frame: Frame) -> bool {
    exists|t: u128| Some(packet@) == #[trigger] spec_decode_packet(frame.desc_set, frame.payload, t)
}

/// `packets` are the decodings of `frames`, one for one and in order.
pub open spec fn decodes_to(packets: Seq<ImuPacket>, frames: Seq<Frame>) -> bool {
    &&& packets.len() == frames.len()
    &&& forall|k: int| 0 <= k < packets.len() ==> decodes_frame(#[trigger] packets[k], frames[k])
}

proof fn lemma_known_frames_push(frames: Seq<Frame>, f: Frame)
    ensures
        known_frames(frames.push(f)) == (if is_known_set(f) {
            known_frames(frames).push(f)
        } else {
            known_frames(frames)
        }),
{
    reveal(Seq::filter);
    assert(frames.push(f).drop_last() =~= frames);
}

/// Finds the complete packets in `buffer`, decodes those of a known
/// descriptor set, and removes the bytes it has used up from the front of
/// the buffer; an incomplete packet at the end stays for the next call.
pub fn process_buffer(buffer: &mut Vec<u8>) -> (packets: Vec<ImuPacket>)
    ensures
        final(buffer)@ == old(buffer)@.skip(stream_consumed(old(buffer)@)),
        decodes_to(packets@, known_frames(stream_frames(old(buffer)@))),
{
    let ghost buf = buffer@;
    let mut packets: Vec<ImuPacket> = Vec::new();
    let ghost mut seen: Seq<Frame> = Seq::empty();
    let mut i: usize = 0;
    {
        let bytes = buffer.as_slice();
        while i < bytes.len()
            invariant
                bytes@ == buf,
                i <= buf.len(),
                scan_from(buf, 0) == (seen + scan_from(buf, i as int).0, scan_from(
                    buf,
                    i as int,
                ).1),
                decodes_to(packets@, known_frames(seen)),
            ensures
                i <= buf.len(),
                scan_from(buf, 0) == (seen, i as int),
                decodes_to(packets@, known_frames(seen)),
            decreases buf.len() - i,
        {
            if bytes[i] != 0x75 {
                i = i + 1;
            } else if bytes.len() - i < 2 {
                assert(seen + Seq::<Frame>::empty() =~= seen);
                break ;
            } else if bytes[i + 1] != 0x65 {
                i = i + 1;
            } else if bytes.len() - i < 4 {
                assert(seen + Seq::<Frame>::empty() =~= seen);
                break ;
            } else {
                let len = bytes[i + 3] as usize;
                let total_len = 4 + len + 2;
                if total_len > bytes.len() - i {
                    assert(seen + Seq::<Frame>::empty() =~= seen);
                    break ;
                }
                let ck = fletcher_checksum(&bytes[i..i + total_len - 2]);
                if ck.0 != bytes[i + total_len - 2] || ck.1 != bytes[i + total_len - 1] {
                    i = i + 1;
                } else {
                    let ghost f = frame_at(buf, i as int);
                    let ghost old_packets = packets@;
                    let decoded = decode_packet(bytes[i + 2], &bytes[i + 4..i + 4 + len]);
                    let ghost t = choose|t: u128|
                        packet_option_view(decoded) == #[trigger] spec_decode_packet(
                            f.desc_set,
                            f.payload,
                            t,
                        );
                    proof {
                        lemma_known_frames_push(seen, f);
                    }
                    match decoded {
                        Some(pkt) => {
                            packets.push(pkt);
                        },
                        None => {},
                    }
                    proof {
                        let kf = known_frames(seen);
                        if is_known_set(f) {
                            assert(decoded is Some);
                            assert(decodes_frame(packets@[packets@.len() - 1], f));
                            assert forall|k: int| 0 <= k < packets@.len() implies decodes_frame(
                                #[trigger] packets@[k],
                                kf.push(f)[k],
                            ) by {
                                if k < old_packets.len() {
                                    assert(packets@[k] == old_packets[k]);
                                    assert(kf.push(f)[k] == kf[k]);
                                }
                            }
                        } else {
                            assert(decoded is None);
                        }
                        assert(decodes_to(packets@, known_frames(seen.push(f))));
                    }
                    proof {
                        assert(seq![f] + scan_from(buf, i + total_len).0 =~= scan_from(
                            buf,
                            i as int,
                        ).0);
                        assert(seen + (seq![f] + scan_from(buf, i + total_len).0) =~= seen.push(f)
                            + scan_from(buf, i + total_len).0);
                        seen = seen.push(f);
                    }
                    i = i + total_len;
                }
            }
        }
    }
    let rest = buffer.split_off(i);
    *buffer = rest;
    packets
}


/// What a read from the packet source gave.
pub enum ReadEvent {
    /// Bytes were read (an empty read means the end of the stream).
    Received(Vec<u8>),
    /// The source reported the end of the stream.
    EndOfStream,
    /// The read timed out before any byte came.
    TimedOut,
    /// The read failed.
    Failed,
}

/// What the reading loop does next.
pub enum ReaderAction {
    /// Hand these decoded packets on and read again.
    Deliver(Vec<ImuPacket>),
    /// Read again.
    KeepReading,
    /// Stop reading: the stream has ended.
    Stop,
    /// Stop reading: the source failed.
    StopOnError,
}

/// One step of the reading loop: bytes that came are appended to `buffer`,
/// which is then processed; an empty read or the end of the stream stops the
/// loop, a timeout lets it read again, and a failure stops it with an error.
pub fn handle_read(buffer: &mut Vec<u8>, event: ReadEvent) -> (action: ReaderAction)
    ensures
        match event {
            ReadEvent::Received(bytes) => if bytes@.len() > 0 {
                let all = old(buffer)@ + bytes@;
                &&& final(buffer)@ == all.skip(stream_consumed(all))
                &&& action matches ReaderAction::Deliver(packets) && decodes_to(
                    packets@,
                    known_frames(stream_frames(all)),
                )
            } else {
                final(buffer)@ == old(buffer)@ && action is Stop
            },
            ReadEvent::EndOfStream => final(buffer)@ == old(buffer)@ && action is Stop,
            ReadEvent::TimedOut => final(buffer)@ == old(buffer)@ && action is KeepReading,
            ReadEvent::Failed => final(buffer)@ == old(buffer)@ && action is StopOnError,
        },
{
    match event {
        ReadEvent::Received(bytes) => {
            if bytes.len() == 0 {
                ReaderAction::Stop
            } else {
                let mut chunk = bytes;
                buffer.append(&mut chunk);
                ReaderAction::Deliver(process_buffer(buffer))
            }
        },
        ReadEvent::EndOfStream => ReaderAction::Stop,
        ReadEvent::TimedOut => ReaderAction::KeepReading,
        ReadEvent::Failed => ReaderAction::StopOnError,
    }
}

/// Scanning from offset `i` looks only at bytes from `i` on: dropping `k`
/// bytes from the front shifts the scan by `k` and finds the same packets.
proof fn lemma_scan_shift(s: Seq<u8>, k: int, i: int)
    requires
        0 <= k <= i,
        k <= s.len(),
    ensures
        scan_from(s, i) == (scan_from(s.skip(k), i - k).0, scan_from(s.skip(k), i - k).1 + k),
    decreases s.len() - i,
{
    let t = s.skip(k);
    let j = i - k;
    if i < s.len() {
        assert(t[j] == s[i]);
        if s[i] != 0x75 {
            lemma_scan_shift(s, k, i + 1);
        } else if i + 1 >= s.len() {
        } else if s[i + 1] != 0x65 {
            assert(t[j + 1] == s[i + 1]);
            lemma_scan_shift(s, k, i + 1);
        } else if i + 4 > s.len() {
        } else {
            assert(t[j + 1] == s[i + 1]);
            assert(t[j + 2] == s[i + 2]);
            assert(t[j + 3] == s[i + 3]);
            let total = frame_len(s[i + 3]);
            if i + total <= s.len() {
                assert(s.subrange(i, i + total - 2) =~= t.subrange(j, j + total - 2));
                assert(t[j + total - 2] == s[i + total - 2]);
                assert(t[j + total - 1] == s[i + total - 1]);
                assert(frame_at(s, i).payload =~= frame_at(t, j).payload);
                if !checksum_ok(s, i) {
                    lemma_scan_shift(s, k, i + 1);
                } else {
                    lemma_scan_shift(s, k, i + total);
                }
            }
        }
    }
}

/// Bytes appended after `a` do not change what a scan of `a` from `i` finds
/// up to where it stopped; the scan of `a + b` then goes on from that offset.
proof fn lemma_scan_extend(a: Seq<u8>, b: Seq<u8>, i: int)
    requires
        0 <= i,
    ensures
        ({
            let r = scan_from(a, i);
            scan_from(a + b, i) == (r.0 + scan_from(a + b, r.1).0, scan_from(a + b, r.1).1)
        }),
    decreases a.len() - i,
{
    let ab = a + b;
    let r = scan_from(a, i);
    if i >= a.len() {
        assert(Seq::<Frame>::empty() + scan_from(ab, i).0 =~= scan_from(ab, i).0);
    } else {
        assert(ab[i] == a[i]);
        if a[i] != 0x75 {
            lemma_scan_extend(a, b, i + 1);
        } else if i + 1 >= a.len() {
            assert(Seq::<Frame>::empty() + scan_from(ab, i).0 =~= scan_from(ab, i).0);
        } else if a[i + 1] != 0x65 {
            assert(ab[i + 1] == a[i + 1]);
            lemma_scan_extend(a, b, i + 1);
        } else if i + 4 > a.len() {
            assert(Seq::<Frame>::empty() + scan_from(ab, i).0 =~= scan_from(ab, i).0);
        } else {
            assert(ab[i + 1] == a[i + 1]);
            assert(ab[i + 2] == a[i + 2]);
            assert(ab[i + 3] == a[i + 3]);
            let total = frame_len(a[i + 3]);
            if i + total > a.len() {
                assert(Seq::<Frame>::empty() + scan_from(ab, i).0 =~= scan_from(ab, i).0);
            } else {
                assert(a.subrange(i, i + total - 2) =~= ab.subrange(i, i + total - 2));
                assert(ab[i + total - 2] == a[i + total - 2]);
                assert(ab[i + total - 1] == a[i + total - 1]);
                assert(frame_at(a, i).payload =~= frame_at(ab, i).payload);
                if !checksum_ok(a, i) {
                    lemma_scan_extend(a, b, i + 1);
                } else {
                    lemma_scan_extend(a, b, i + total);
                    let r2 = scan_from(a, i + total);
                    let x = scan_from(ab, r2.1).0;
                    assert(seq![frame_at(a, i)] + (r2.0 + x) =~= (seq![frame_at(a, i)] + r2.0) + x);
                }
            }
        }
    }
}

/// The scan stops at a byte that starts a packet the buffer does not yet
/// hold completely.
pub open spec fn incomplete_start(s: Seq<u8>, c: int) -> bool {
    &&& 0 <= c < s.len()
    &&& s[c] == 0x75
    &&& (c + 1 >= s.len() || (s[c + 1] == 0x65 && (c + 4 > s.len() || c + frame_len(s[c + 3])
        > s.len())))
}

proof fn lemma_scan_stop(s: Seq<u8>, i: int)
    requires
        0 <= i <= s.len(),
    ensures
        i <= scan_from(s, i).1 <= s.len(),
        scan_from(s, i).1 == s.len() || incomplete_start(s, scan_from(s, i).1),
    decreases s.len() - i,
{
    if i < s.len() {
        if s[i] != 0x75 {
            lemma_scan_stop(s, i + 1);
        } else if i + 1 >= s.len() {
        } else if s[i + 1] != 0x65 {
            lemma_scan_stop(s, i + 1);
        } else if i + 4 > s.len() {
        } else if i + frame_len(s[i + 3]) > s.len() {
        } else if !checksum_ok(s, i) {
            lemma_scan_stop(s, i + 1);
        } else {
            lemma_scan_stop(s, i + frame_len(s[i + 3]));
        }
    }
}

/// What a pass over the buffer leaves behind is empty or starts with a packet
/// that is not complete yet; a second pass over it, with no new bytes, finds
/// no packet and uses up no byte.
pub proof fn law_leftover_is_incomplete(buf: Seq<u8>)
    ensures
        0 <= stream_consumed(buf) <= buf.len(),
        stream_consumed(buf) == buf.len() || incomplete_start(buf, stream_consumed(buf)),
        stream_frames(buf.skip(stream_consumed(buf))) == Seq::<Frame>::empty(),
        stream_consumed(buf.skip(stream_consumed(buf))) == 0,
{
    lemma_scan_stop(buf, 0);
    let c = stream_consumed(buf);
    lemma_scan_shift(buf, c, c);
}

/// Reading the stream in chunks finds the same packets as reading it whole:
/// a pass over `a`, followed by a pass over what it left with `b` appended,
/// finds exactly the packets of one pass over `a + b`, and uses up as many bytes.
pub proof fn law_chunked_scan(a: Seq<u8>, b: Seq<u8>)
    ensures
        ({
            let c1 = stream_consumed(a);
            let rest = a.skip(c1) + b;
            &&& stream_frames(a + b) == stream_frames(a) + stream_frames(rest)
            &&& stream_consumed(a + b) == c1 + stream_consumed(rest)
        }),
{
    lemma_scan_extend(a, b, 0);
    lemma_scan_stop(a, 0);
    let c1 = stream_consumed(a);
    lemma_scan_shift(a + b, c1, c1);
    assert((a + b).skip(c1) =~= a.skip(c1) + b);
}

/// The bytes of a packet of descriptor set `desc_set` holding `payload`:
/// the two sync bytes, the set, the length, the payload and the checksum.
pub open spec fn frame_bytes(desc_set: u8, payload: Seq<u8>) -> Seq<u8> {
    let body = seq![0x75u8, 0x65u8, desc_set, payload.len() as u8] + payload;
    body + seq![spec_fletcher(body).0, spec_fletcher(body).1]
}

/// A well-formed packet at the front of the stream is found whole, whatever
/// follows it; the scan then goes on with the bytes after it.
pub proof fn law_frame_is_found(desc_set: u8, payload: Seq<u8>, rest: Seq<u8>)
    requires
        payload.len() <= 255,
    ensures
        stream_frames(frame_bytes(desc_set, payload) + rest) == seq![
            Frame { desc_set, payload },
        ] + stream_frames(rest),
        stream_consumed(frame_bytes(desc_set, payload) + rest) == payload.len() + 6 + stream_consumed(
            rest,
        ),
{
    let body = seq![0x75u8, 0x65u8, desc_set, payload.len() as u8] + payload;
    let f = frame_bytes(desc_set, payload);
    let buf = f + rest;
    let n: int = payload.len() as int + 6;
    assert(buf[0] == 0x75u8);
    assert(buf[1] == 0x65u8);
    assert(buf[2] == desc_set);
    assert(buf[3] == payload.len() as u8);
    assert(frame_len(buf[3]) == n);
    assert(buf.subrange(0, n - 2) =~= body);
    assert(buf[n - 2] == spec_fletcher(body).0);
    assert(buf[n - 1] == spec_fletcher(body).1);
    assert(frame_at(buf, 0).payload =~= payload);
    lemma_scan_shift(buf, n, n);
    assert(buf.skip(n) =~= rest);
}


/// A candidate packet starts at `i`: the two sync bytes, and the buffer holds
/// all the bytes that its length byte claims.
pub open spec fn candidate_complete(buf: Seq<u8>, i: int) -> bool {
    &&& 0 <= i
    &&& i + 4 <= buf.len()
    &&& buf[i] == 0x75
    &&& buf[i + 1] == 0x65
    &&& i + frame_len(buf[i + 3]) <= buf.len()
}

/// A start whose checksum does not match is skipped by exactly one byte: the
/// scan goes on at the very next byte, not past the bytes the start claims.
pub proof fn law_bad_checksum_skips_one_byte(buf: Seq<u8>, i: int)
    requires
        candidate_complete(buf, i),
        spec_fletcher(buf.subrange(i, i + frame_len(buf[i + 3]) - 2)) != (
            buf[i + frame_len(buf[i + 3]) - 2],
            buf[i + frame_len(buf[i + 3]) - 1],
        ),
    ensures
        scan_from(buf, i) == scan_from(buf, i + 1),
{
}

/// Every sync pair among the first `n` bytes of `buf` starts a complete
/// candidate whose checksum does not match.
pub open spec fn only_bad_starts_before(buf: Seq<u8>, n: int) -> bool {
    forall|j: int|
        #![trigger buf[j]]
        0 <= j < n && buf[j] == 0x75 && buf[j + 1] == 0x65 ==> candidate_complete(buf, j)
            && !checksum_ok(buf, j)
}

proof fn lemma_scan_through_bad_starts(buf: Seq<u8>, n: int, j: int)
    requires
        0 <= j <= n < buf.len(),
        only_bad_starts_before(buf, n),
    ensures
        scan_from(buf, j) == scan_from(buf, n),
    decreases n - j,
{
    if j < n {
        assert(buf[j] == buf[j]);
        lemma_scan_through_bad_starts(buf, n, j + 1);
    }
}

/// A well-formed packet is found after any bytes that hold no valid packet
/// and no start the buffer leaves incomplete, such as a packet cut short: the
/// scan resynchronises one byte at a time and finds the packet, and uses up
/// the whole buffer.
pub proof fn law_frame_found_after_bad_starts(junk: Seq<u8>, desc_set: u8, payload: Seq<u8>)
    requires
        payload.len() <= 255,
        only_bad_starts_before(junk + frame_bytes(desc_set, payload), junk.len() as int),
    ensures
        stream_frames(junk + frame_bytes(desc_set, payload)) == seq![Frame { desc_set, payload }],
        stream_consumed(junk + frame_bytes(desc_set, payload)) == junk.len() + payload.len() + 6,
{
    let f = frame_bytes(desc_set, payload);
    let buf = junk + f;
    let n = junk.len() as int;
    lemma_scan_through_bad_starts(buf, n, 0);
    lemma_scan_shift(buf, n, n);
    assert(buf.skip(n) =~= f);
    law_frame_is_found(desc_set, payload, Seq::empty());
    assert(f + Seq::<u8>::empty() =~= f);
    assert(scan_from(Seq::<u8>::empty(), 0) == (Seq::<Frame>::empty(), 0int));
    assert(seq![Frame { desc_set, payload }] + Seq::<Frame>::empty() =~= seq![
        Frame { desc_set, payload },
    ]);
}

} // verus!
