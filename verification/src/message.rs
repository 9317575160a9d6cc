//! The message decoder: interprets one complete frame's bytes as a typed
//! request.
//!
//! Message type `0x01` is an authentication request; its payload starts at
//! byte 5 with one `auth_type` byte followed by two length-prefixed strings,
//! each a 1-byte length and that many bytes, one byte per character. Any
//! other type yields no request: the frame is consumed without error.

use vstd::prelude::*;

use crate::codec::be16;
use crate::error::Error;

verus! {

/// Relies on `String::push`: appends the given character to the string.
pub assume_specification[ String::push ](s: &mut String, ch: char)
    ensures
        final(s)@ == old(s)@.push(ch),
;

/// The characters denoted by a byte sequence, one byte per character.
pub open spec fn bytes_as_chars(b: Seq<u8>) -> Seq<char> {
    b.map_values(|x: u8| x as char)
}

/// Whether a length-prefixed string field starting at `pos` lies wholly
/// within the data.
pub open spec fn str_field_ok(d: Seq<u8>, pos: int) -> bool {
    0 <= pos < d.len() && pos + 1 + d[pos] <= d.len()
}

/// The characters of the length-prefixed string field starting at `pos`.
pub open spec fn str_field_chars(d: Seq<u8>, pos: int) -> Seq<char>
    recommends
        str_field_ok(d, pos),
{
    bytes_as_chars(d.subrange(pos + 1, pos + 1 + d[pos]))
}

/// The offset of the first byte past the string field starting at `pos`.
pub open spec fn str_field_end(d: Seq<u8>, pos: int) -> int
    recommends
        str_field_ok(d, pos),
{
    pos + 1 + d[pos]
}

/// Whether a frame's bytes hold the five header bytes and the trailing
/// checksum the header declares, so that every header field can be read.
pub open spec fn header_ok(d: Seq<u8>) -> bool {
    d.len() >= 5 && d.len() >= 7 + be16(d[3], d[4])
}

/// Whether a frame's bytes hold a whole authentication payload: the
/// `auth_type` byte and both length-prefixed strings.
pub open spec fn auth_payload_ok(d: Seq<u8>) -> bool {
    &&& d.len() >= 6
    &&& str_field_ok(d, 6)
    &&& str_field_ok(d, str_field_end(d, 6))
}

/// A frame's header fields, read back out of its raw bytes.
pub struct Header {
    /// The complete frame, checksum trailer included.
    pub raw_data: Vec<u8>,
    /// Byte 0: the message type.
    pub msg_type: u8,
    /// Bytes 1-2: the sequence number, big-endian.
    pub msg_seq: u16,
    /// Bytes 3-4: the declared payload length, big-endian.
    pub msg_len: u16,
    /// The two bytes after the payload, read big-endian.
    pub msg_crc: u16,
}

impl Header {
    /// Reads the header fields of one frame. Fails when the buffer is too
    /// short for the five header bytes or for the checksum position the
    /// declared length implies.
    pub fn read(stream: &Vec<u8>) -> (r: Result<Header, Error>)
        ensures
            r is Ok <==> header_ok(stream@),
            r matches Ok(h) ==> {
                &&& h.raw_data@ == stream@
                &&& h.msg_type == stream@[0]
                &&& h.msg_seq as int == be16(stream@[1], stream@[2])
                &&& h.msg_len as int == be16(stream@[3], stream@[4])
                &&& h.msg_crc as int == be16(
                    stream@[5 + h.msg_len as int],
                    stream@[6 + h.msg_len as int],
                )
            },
            r is Err ==> r == Err::<Header, Error>(Error::IoError),
    {
        if stream.len() < 5 {
            return Err(Error::IoError);
        }
        let msg_type = stream[0];
        let msg_seq = crate::codec::read_be16(stream[1], stream[2]);
        let msg_len = crate::codec::read_be16(stream[3], stream[4]);
        let crc_at: usize = 5 + msg_len as usize;
        if stream.len() < crc_at + 2 {
            return Err(Error::IoError);
        }
        let msg_crc = crate::codec::read_be16(stream[crc_at], stream[crc_at + 1]);
        let mut raw_data: Vec<u8> = Vec::new();
        let mut i: usize = 0;
        while i < stream.len()
            invariant
                0 <= i <= stream@.len(),
                raw_data@ == stream@.subrange(0, i as int),
            decreases stream@.len() - i,
        {
            raw_data.push(stream[i]);
            assert(stream@.subrange(0, i + 1 as int) =~= stream@.subrange(0, i as int).push(
                stream@[i as int],
            ));
            i += 1;
        }
        proof {
            assert(stream@.subrange(0, stream@.len() as int) =~= stream@);
        }
        Ok(Header { raw_data, msg_type, msg_seq, msg_len, msg_crc })
    }
}

/// Reads the length-prefixed string field starting at `pos` in `data`:
/// one length byte, then that many bytes, each one character. Fails when the
/// field would run past the end of the data.
fn read_str(data: &Vec<u8>, pos: usize) -> (r: Result<(String, usize), Error>)
    ensures
        r is Ok <==> str_field_ok(data@, pos as int),
        r matches Ok(p) ==> {
            &&& p.0@ == str_field_chars(data@, pos as int)
            &&& p.1 == str_field_end(data@, pos as int)
        },
        r is Err ==> r == Err::<(String, usize), Error>(Error::IoError),
{
    if pos >= data.len() {
        return Err(Error::IoError);
    }
    let n = data[pos] as usize;
    if n > data.len() - (pos + 1) {
        return Err(Error::IoError);
    }
    let mut s = String::new();
    let end: usize = pos + 1 + n;
    let mut idx: usize = pos + 1;
    while idx < end
        invariant
            pos + 1 <= idx <= end,
            end == pos + 1 + data@[pos as int],
            end <= data@.len(),
            s@ == bytes_as_chars(data@.subrange(pos + 1, idx as int)),
        decreases end - idx,
    {
        s.push(data[idx] as char);
        proof {
            let lo = pos + 1 as int;
            assert(data@.subrange(lo, idx + 1) =~= data@.subrange(lo, idx as int).push(
                data@[idx as int],
            ));
            assert(bytes_as_chars(data@.subrange(lo, idx + 1)) =~= bytes_as_chars(
                data@.subrange(lo, idx as int),
            ).push(data@[idx as int] as char));
        }
        idx += 1;
    }
    Ok((s, end))
}

/// An authentication request: the identity a client presents to bind its
/// connection to a session.
pub struct AuthRequestMessage {
    /// The kind of credential presented.
    pub auth_type: u8,
    /// The externally meaningful identity: the session key.
    pub connect_code: String,
    /// A secondary identifier presented alongside the code.
    pub connect_id: String,
}

impl AuthRequestMessage {
    /// Decodes an authentication payload out of a frame's raw bytes,
    /// starting at byte 5. Fails when a length prefix claims more bytes
    /// than the frame holds.
    pub fn read(header: Header) -> (r: Result<Self, Error>)
        ensures
            r is Ok <==> auth_payload_ok(header.raw_data@),
            r matches Ok(m) ==> {
                &&& m.auth_type == header.raw_data@[5]
                &&& m.connect_code@ == str_field_chars(header.raw_data@, 6)
                &&& m.connect_id@ == str_field_chars(
                    header.raw_data@,
                    str_field_end(header.raw_data@, 6),
                )
            },
            r is Err ==> r == Err::<Self, Error>(Error::IoError),
    {
        let data = &header.raw_data;
        if data.len() < 6 {
            return Err(Error::IoError);
        }
        let auth_type = data[5];
        let (connect_code, next) = match read_str(data, 6) {
            Ok(p) => p,
            Err(e) => {
                return Err(e);
            },
        };
        let (connect_id, _) = match read_str(data, next) {
            Ok(p) => p,
            Err(e) => {
                return Err(e);
            },
        };
        Ok(AuthRequestMessage { auth_type, connect_code, connect_id })
    }
}

/// A liveness probe. No wire encoding is assigned to it yet: the decoder
/// never produces it, and the variant stands as a placeholder for a message
/// type not yet given a code.
pub struct HeartBeatRequestMessage {}

/// A typed request decoded from one frame.
pub enum RequestMessage {
    /// An authentication request, wire type `0x01`.
    Auth(AuthRequestMessage),
    /// A liveness probe, with no wire encoding assigned yet.
    HeartBeat(HeartBeatRequestMessage),
}

impl RequestMessage {
    /// Decodes one frame's bytes into a request. An unrecognized message
    /// type is not an error: it yields `None` and the frame counts as
    /// consumed. A payload shorter than its own length prefixes claim is an
    /// error, distinct from the unrecognized case.
    pub fn read(stream: &Vec<u8>) -> (r: Result<Option<RequestMessage>, Error>)
        ensures
            r is Ok <==> header_ok(stream@) && (stream@[0] == 1 ==> auth_payload_ok(stream@)),
            header_ok(stream@) && stream@[0] == 1 && auth_payload_ok(stream@) ==> (r
                matches Ok(Some(RequestMessage::Auth(m))) && m.auth_type == stream@[5]
                && m.connect_code@ == str_field_chars(stream@, 6) && m.connect_id@
                == str_field_chars(stream@, str_field_end(stream@, 6))),
            header_ok(stream@) && stream@[0] != 1 ==> r == Ok::<Option<RequestMessage>, Error>(
                None,
            ),
            r is Err ==> r == Err::<Option<RequestMessage>, Error>(Error::IoError),
    {
        let header = match Header::read(stream) {
            Ok(h) => h,
            Err(e) => {
                return Err(e);
            },
        };
        if header.msg_type == 0x01 {
            match AuthRequestMessage::read(header) {
                Ok(m) => Ok(Some(RequestMessage::Auth(m))),
                Err(e) => Err(e),
            }
        } else {
            Ok(None)
        }
    }
}

/// The payload bytes of an authentication request: the auth type byte, then
/// the connect code and the connect id, each as a 1-byte length and that
/// many bytes.
pub open spec fn spec_auth_payload(auth_type: u8, code: Seq<u8>, id: Seq<u8>) -> Seq<u8>
    recommends
        code.len() <= 255,
        id.len() <= 255,
{
    seq![auth_type, code.len() as u8] + code + seq![id.len() as u8] + id
}

/// Auth round-trip: a frame built around an authentication payload meets
/// every condition the decoder checks, and its string fields read back as
/// exactly the encoded bytes, one character per byte. Together with the
/// contract of `RequestMessage::read`, decoding such a frame yields the
/// encoded auth type, connect code and connect id.
pub proof fn lemma_auth_payload_parses(auth_type: u8, code: Seq<u8>, id: Seq<u8>, msg_seq: u16)
    requires
        code.len() <= 255,
        id.len() <= 255,
    ensures
        ({
            let p = spec_auth_payload(auth_type, code, id);
            let frame = crate::codec::spec_frame_bytes(1, msg_seq, p);
            &&& header_ok(frame)
            &&& frame[0] == 1
            &&& auth_payload_ok(frame)
            &&& frame[5] == auth_type
            &&& str_field_chars(frame, 6) == bytes_as_chars(code)
            &&& str_field_chars(frame, str_field_end(frame, 6)) == bytes_as_chars(id)
        }),
{
    let p = spec_auth_payload(auth_type, code, id);
    let frame = crate::codec::spec_frame_bytes(1, msg_seq, p);
    let len16 = p.len() as u16;
    crate::codec::lemma_u16_bytes(len16);
    assert(p.len() == 3 + code.len() + id.len());
    assert(frame.len() == 7 + p.len());
    assert(frame[3] == crate::codec::u16_hi(len16));
    assert(frame[4] == crate::codec::u16_lo(len16));
    assert(be16(frame[3], frame[4]) == p.len());
    assert(header_ok(frame));
    assert(frame[0] == 1);
    assert forall|i: int| 0 <= i < p.len() implies frame[5 + i] == p[i] by {
    }
    assert(p[0] == auth_type);
    assert(p[1] == code.len() as u8);
    assert(frame[5] == auth_type);
    assert(frame[6] == code.len() as u8);
    assert forall|i: int| 0 <= i < code.len() implies p[2 + i] == code[i] by {
    }
    assert(str_field_ok(frame, 6));
    assert(frame.subrange(7, 7 + code.len() as int) =~= code);
    assert(str_field_chars(frame, 6) == bytes_as_chars(code));
    let e = str_field_end(frame, 6);
    assert(e == 7 + code.len());
    assert(p[2 + code.len() as int] == id.len() as u8);
    assert(frame[e] == id.len() as u8);
    assert forall|i: int| 0 <= i < id.len() implies p[3 + code.len() + i] == id[i] by {
    }
    assert(str_field_ok(frame, e));
    assert(frame.subrange(e + 1, e + 1 + id.len() as int) =~= id);
    assert(str_field_chars(frame, e) == bytes_as_chars(id));
}

} // verus!
