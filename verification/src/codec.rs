//! The streaming frame codec: extracts whole, integrity-checked frames from a
//! growing byte buffer.
//!
//! Wire layout of one frame: 1 byte message type, 2 bytes sequence number
//! (big-endian), 2 bytes payload length `L` (big-endian), `L` payload bytes,
//! and a CRC-16/MODBUS checksum over the first `5 + L` bytes, stored
//! little-endian. The whole frame is `5 + L + 2` bytes.

use vstd::prelude::*;

verus! {

/// The 16-bit value stored big-endian in two bytes.
pub open spec fn be16(hi: u8, lo: u8) -> int {
    256 * (hi as int) + (lo as int)
}

/// The 16-bit value stored little-endian in two bytes.
pub open spec fn le16(b0: u8, b1: u8) -> int {
    (b0 as int) + 256 * (b1 as int)
}

/// The high byte of a 16-bit value.
pub open spec fn u16_hi(x: u16) -> u8 {
    (x / 256) as u8
}

/// The low byte of a 16-bit value.
pub open spec fn u16_lo(x: u16) -> u8 {
    (x % 256) as u8
}

/// The CRC-16/MODBUS checksum of a byte sequence. The algorithm itself is not
/// restated here; the checksum is a pure function of the bytes, computed by
/// `checksum` below.
pub uninterp spec fn crc16_modbus(data: Seq<u8>) -> u16;

/// Relies on `crc::Crc::<u16>::checksum` with the `CRC_16_MODBUS` algorithm:
/// the result depends on the input bytes alone.
#[verifier::external_body]
fn checksum(data: &[u8]) -> (r: u16)
    ensures
        r == crc16_modbus(data@),
{
    let crc16 = crc::Crc::<u16>::new(&crc::CRC_16_MODBUS);
    crc16.checksum(data)
}

/// Splitting a 16-bit value into its bytes and reassembling them, in either
/// endianness, gives the value back.
pub proof fn lemma_u16_bytes(x: u16)
    ensures
        be16(u16_hi(x), u16_lo(x)) == x,
        le16(u16_lo(x), u16_hi(x)) == x,
{
    vstd::arithmetic::div_mod::lemma_fundamental_div_mod(x as int, 256);
}

/// The payload length declared in a buffer's header bytes 3 and 4.
pub open spec fn declared_payload_len(buf: Seq<u8>) -> int
    recommends
        buf.len() >= 5,
{
    be16(buf[3], buf[4])
}

/// The total wire size of the frame whose header starts the buffer.
pub open spec fn declared_frame_len(buf: Seq<u8>) -> int
    recommends
        buf.len() >= 5,
{
    7 + declared_payload_len(buf)
}

/// Whether the buffer holds every byte of the frame its header declares.
pub open spec fn has_complete_frame(buf: Seq<u8>) -> bool {
    buf.len() >= 5 && buf.len() >= declared_frame_len(buf)
}

/// Whether the trailing checksum of the declared frame matches the checksum
/// of the bytes it covers.
pub open spec fn frame_checksum_ok(buf: Seq<u8>) -> bool
    recommends
        has_complete_frame(buf),
{
    let body = 5 + declared_payload_len(buf);
    le16(buf[body], buf[body + 1]) == crc16_modbus(buf.subrange(0, body)) as int
}

/// One decode step on a buffer: the frame produced, if any, and the buffer
/// that remains. An incomplete frame consumes nothing; a complete frame with
/// a good checksum is emitted and consumed; a checksum mismatch discards the
/// entire buffered region, a deliberate policy that keeps a corrupt frame
/// from being re-parsed as two different frames at the cost of any valid
/// frames already buffered behind it.
pub open spec fn spec_decode(buf: Seq<u8>) -> (Option<Seq<u8>>, Seq<u8>) {
    if !has_complete_frame(buf) {
        (None, buf)
    } else if frame_checksum_ok(buf) {
        (
            Some(buf.subrange(0, declared_frame_len(buf))),
            buf.subrange(declared_frame_len(buf), buf.len() as int),
        )
    } else {
        (None, Seq::<u8>::empty())
    }
}

/// The bytes of a frame built from a type, a sequence number and a payload:
/// the five header bytes, the payload, and the little-endian CRC-16/MODBUS
/// of everything before it.
pub open spec fn spec_frame_bytes(msg_type: u8, msg_seq: u16, payload: Seq<u8>) -> Seq<u8>
    recommends
        payload.len() <= 0xFFFF,
{
    let len = payload.len() as u16;
    let body = seq![msg_type, u16_hi(msg_seq), u16_lo(msg_seq), u16_hi(len), u16_lo(len)]
        + payload;
    let c = crc16_modbus(body);
    body + seq![u16_lo(c), u16_hi(c)]
}

/// Reads the 16-bit big-endian value stored in two bytes.
pub fn read_be16(hi: u8, lo: u8) -> (r: u16)
    ensures
        r as int == be16(hi, lo),
{
    (hi as u16) * 256 + (lo as u16)
}

/// Reads the 16-bit little-endian value stored in two bytes.
pub fn read_le16(b0: u8, b1: u8) -> (r: u16)
    ensures
        r as int == le16(b0, b1),
{
    (b0 as u16) + 256 * (b1 as u16)
}

/// The streaming frame codec. It keeps no state of its own: all state lives
/// in the byte buffer handed to `decode`.
pub struct LengthDelimitedCodec;

impl LengthDelimitedCodec {
    /// Attempts to extract the next complete frame from the front of `src`.
    ///
    /// Returns `None` without consuming anything while fewer bytes are
    /// buffered than the declared frame needs. Once the whole frame is
    /// present, returns it and consumes exactly its bytes if the checksum
    /// matches; otherwise returns `None` and discards the whole buffer.
    pub fn decode(&mut self, src: &mut Vec<u8>) -> (r: Option<Vec<u8>>)
        ensures
            final(src)@ == spec_decode(old(src)@).1,
            r is Some <==> spec_decode(old(src)@).0 is Some,
            r matches Some(f) ==> Some(f@) == spec_decode(old(src)@).0,
    {
        let n = src.len();
        if n < 5 {
            return None;
        }
        let len = read_be16(src[3], src[4]);
        let body_len: usize = 5 + len as usize;
        let total: usize = body_len + 2;
        if n < total {
            return None;
        }
        let body = vstd::slice::slice_subrange(src.as_slice(), 0, body_len);
        let calculated = checksum(body);
        let stored = read_le16(src[body_len], src[body_len + 1]);
        if calculated != stored {
            src.clear();
            return None;
        }
        let mut frame = src.split_off(total);
        core::mem::swap(src, &mut frame);
        Some(frame)
    }
}

/// Builds the frame that carries `payload` with the given type and sequence
/// number, checksum included.
pub fn encode_frame(msg_type: u8, msg_seq: u16, payload: &Vec<u8>) -> (r: Vec<u8>)
    requires
        payload@.len() <= 0xFFFF,
    ensures
        r@ == spec_frame_bytes(msg_type, msg_seq, payload@),
{
    let mut out: Vec<u8> = Vec::new();
    out.push(msg_type);
    out.push((msg_seq / 256) as u8);
    out.push((msg_seq % 256) as u8);
    let len = payload.len() as u16;
    out.push((len / 256) as u8);
    out.push((len % 256) as u8);
    let mut i: usize = 0;
    while i < payload.len()
        invariant
            0 <= i <= payload@.len(),
            payload@.len() <= 0xFFFF,
            len == payload@.len() as u16,
            out@ == seq![msg_type, u16_hi(msg_seq), u16_lo(msg_seq), u16_hi(len), u16_lo(len)]
                + payload@.subrange(0, i as int),
        decreases payload@.len() - i,
    {
        out.push(payload[i]);
        assert(payload@.subrange(0, i + 1 as int) =~= payload@.subrange(0, i as int).push(
            payload@[i as int],
        ));
        i += 1;
    }
    proof {
        assert(payload@.subrange(0, payload@.len() as int) =~= payload@);
    }
    let c = checksum(out.as_slice());
    out.push((c % 256) as u8);
    out.push((c / 256) as u8);
    proof {
        assert(out@ =~= spec_frame_bytes(msg_type, msg_seq, payload@));
    }
    out
}

/// Frame round-trip: a frame built from any payload of at most 65535 bytes,
/// placed at the front of a buffer, decodes to exactly its own bytes, and
/// decoding consumes exactly the frame, leaving whatever followed it.
pub proof fn lemma_frame_round_trip(msg_type: u8, msg_seq: u16, payload: Seq<u8>, rest: Seq<u8>)
    requires
        payload.len() <= 0xFFFF,
    ensures
        ({
            let frame = spec_frame_bytes(msg_type, msg_seq, payload);
            let buf = frame + rest;
            &&& has_complete_frame(buf)
            &&& frame_checksum_ok(buf)
            &&& spec_decode(buf).0 == Some(frame)
            &&& spec_decode(buf).1 == rest
        }),
{
    let len = payload.len() as u16;
    let frame = spec_frame_bytes(msg_type, msg_seq, payload);
    let buf = frame + rest;
    let body = seq![msg_type, u16_hi(msg_seq), u16_lo(msg_seq), u16_hi(len), u16_lo(len)]
        + payload;
    let c = crc16_modbus(body);
    lemma_u16_bytes(len);
    lemma_u16_bytes(c);
    assert(buf[3] == u16_hi(len));
    assert(buf[4] == u16_lo(len));
    assert(declared_payload_len(buf) == payload.len());
    assert(declared_frame_len(buf) == frame.len());
    assert(has_complete_frame(buf));
    assert(buf.subrange(0, 5 + payload.len() as int) =~= body);
    assert(buf[5 + payload.len() as int] == u16_lo(c));
    assert(buf[6 + payload.len() as int] == u16_hi(c));
    assert(frame_checksum_ok(buf));
    assert(buf.subrange(0, declared_frame_len(buf)) =~= frame);
    assert(buf.subrange(declared_frame_len(buf), buf.len() as int) =~= rest);
}

/// Partial delivery: no proper prefix of a frame's bytes decodes to a frame,
/// and none of it is consumed, until the final byte has arrived.
pub proof fn lemma_partial_delivery(msg_type: u8, msg_seq: u16, payload: Seq<u8>, k: int)
    requires
        payload.len() <= 0xFFFF,
        0 <= k < spec_frame_bytes(msg_type, msg_seq, payload).len(),
    ensures
        ({
            let prefix = spec_frame_bytes(msg_type, msg_seq, payload).subrange(0, k);
            &&& spec_decode(prefix).0 is None
            &&& spec_decode(prefix).1 == prefix
        }),
{
    let len = payload.len() as u16;
    let frame = spec_frame_bytes(msg_type, msg_seq, payload);
    let prefix = frame.subrange(0, k);
    if k >= 5 {
        lemma_u16_bytes(len);
        assert(prefix[3] == u16_hi(len));
        assert(prefix[4] == u16_lo(len));
        assert(declared_frame_len(prefix) == frame.len());
        assert(prefix.len() < declared_frame_len(prefix));
    }
    assert(!has_complete_frame(prefix));
}

/// Checksum rejection wipes the buffer: when the frame at the front of the
/// buffer is complete but its checksum does not match, decoding produces
/// nothing and discards the entire buffered region, including anything
/// buffered behind the corrupt frame.
pub proof fn lemma_checksum_rejection_wipes_buffer(corrupt: Seq<u8>, rest: Seq<u8>)
    requires
        corrupt.len() >= 7,
        corrupt.len() == declared_frame_len(corrupt),
        !frame_checksum_ok(corrupt),
    ensures
        spec_decode(corrupt + rest).0 is None,
        spec_decode(corrupt + rest).1 == Seq::<u8>::empty(),
{
    let buf = corrupt + rest;
    assert(buf[3] == corrupt[3]);
    assert(buf[4] == corrupt[4]);
    assert(declared_frame_len(buf) == declared_frame_len(corrupt));
    assert(has_complete_frame(buf));
    let body = 5 + declared_payload_len(buf);
    assert(buf.subrange(0, body) =~= corrupt.subrange(0, body));
    assert(buf[body] == corrupt[body]);
    assert(buf[body + 1] == corrupt[body + 1]);
    assert(!frame_checksum_ok(buf));
}

} // verus!
