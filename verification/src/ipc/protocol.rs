//! The CQL-like binary protocol between the benchmark and a driver adapter.
//!
//! A frame is a header of nine bytes (version, flags, stream, opcode and the
//! length of the body) and a body.

use crate::text::{from_utf8_lossy, utf8_lossy};
use crate::wire::{
    be2, be4, bytes_slice, contents, freeze, lemma_be2, lemma_be4, low_u32, mut_contents,
    mut_len, mut_slice, put_i16, put_slice, put_u32, put_u8, read_be2, read_be4, signed2,
    split_to, to_i16, un2, un4,
};
use bytes::{Bytes, BytesMut};
use vstd::prelude::*;
use vstd::std_specs::convert::TryFromSpecImpl;
use vstd::string::*;

verus! {

broadcast use crate::wire::group_be;

pub const HEADER_LENGTH: usize = 9;

pub const VERSION_REQUEST: u8 = 0x04;

/// The version byte of a response.
pub const VERSION_RESPONSE: u8 = 0x84;

/// The version of the protocol; it grows with every incompatible change.
pub const IPC_PROTOCOL_VERSION: u16 = 1;

/// The longest body that is accepted: 16 MiB.
pub const MAX_BODY_LENGTH: u32 = 0x100_0000;

/// What a frame asks for or answers.
#[derive(Clone, Copy, Debug, PartialEq, Eq, Structural)]
pub enum Opcode {
    Error,
    Startup,
    Ready,
    Options,
    Supported,
    Query,
    Result,
    Prepare,
    Execute,
    Batch,
    AuthChallenge,
    AuthResponse,
    AuthSuccess,
    CreateSession,
    SessionCreated,
}

impl Opcode {
    /// The opcode's number.
    pub open spec fn number(self) -> u8 {
        match self {
            Opcode::Error => 0x00,
            Opcode::Startup => 0x01,
            Opcode::Ready => 0x02,
            Opcode::Options => 0x05,
            Opcode::Supported => 0x06,
            Opcode::Query => 0x07,
            Opcode::Result => 0x08,
            Opcode::Prepare => 0x09,
            Opcode::Execute => 0x0A,
            Opcode::Batch => 0x0D,
            Opcode::AuthChallenge => 0x0E,
            Opcode::AuthResponse => 0x0F,
            Opcode::AuthSuccess => 0x10,
            Opcode::CreateSession => 0x21,
            Opcode::SessionCreated => 0x22,
        }
    }

    /// The opcode's name.
    pub open spec fn label(self) -> Seq<char> {
        match self {
            Opcode::Error => "Error"@,
            Opcode::Startup => "Startup"@,
            Opcode::Ready => "Ready"@,
            Opcode::Options => "Options"@,
            Opcode::Supported => "Supported"@,
            Opcode::Query => "Query"@,
            Opcode::Result => "Result"@,
            Opcode::Prepare => "Prepare"@,
            Opcode::Execute => "Execute"@,
            Opcode::Batch => "Batch"@,
            Opcode::AuthChallenge => "AuthChallenge"@,
            Opcode::AuthResponse => "AuthResponse"@,
            Opcode::AuthSuccess => "AuthSuccess"@,
            Opcode::CreateSession => "CreateSession"@,
            Opcode::SessionCreated => "SessionCreated"@,
        }
    }

    /// The opcode's name.
    pub fn name(self) -> (r: &'static str)
        ensures
            r@ == self.label(),
    {
        match self {
            Opcode::Error => "Error",
            Opcode::Startup => "Startup",
            Opcode::Ready => "Ready",
            Opcode::Options => "Options",
            Opcode::Supported => "Supported",
            Opcode::Query => "Query",
            Opcode::Result => "Result",
            Opcode::Prepare => "Prepare",
            Opcode::Execute => "Execute",
            Opcode::Batch => "Batch",
            Opcode::AuthChallenge => "AuthChallenge",
            Opcode::AuthResponse => "AuthResponse",
            Opcode::AuthSuccess => "AuthSuccess",
            Opcode::CreateSession => "CreateSession",
            Opcode::SessionCreated => "SessionCreated",
        }
    }

    /// The opcode with a number, if there is one.
    pub open spec fn of_number(n: u8) -> Option<Opcode> {
        match n {
            0x00 => Some(Opcode::Error),
            0x01 => Some(Opcode::Startup),
            0x02 => Some(Opcode::Ready),
            0x05 => Some(Opcode::Options),
            0x06 => Some(Opcode::Supported),
            0x07 => Some(Opcode::Query),
            0x08 => Some(Opcode::Result),
            0x09 => Some(Opcode::Prepare),
            0x0A => Some(Opcode::Execute),
            0x0D => Some(Opcode::Batch),
            0x0E => Some(Opcode::AuthChallenge),
            0x0F => Some(Opcode::AuthResponse),
            0x10 => Some(Opcode::AuthSuccess),
            0x21 => Some(Opcode::CreateSession),
            0x22 => Some(Opcode::SessionCreated),
            _ => None,
        }
    }

    /// The opcode's number.
    pub fn as_u8(self) -> (n: u8)
        ensures
            n == self.number(),
    {
        match self {
            Opcode::Error => 0x00,
            Opcode::Startup => 0x01,
            Opcode::Ready => 0x02,
            Opcode::Options => 0x05,
            Opcode::Supported => 0x06,
            Opcode::Query => 0x07,
            Opcode::Result => 0x08,
            Opcode::Prepare => 0x09,
            Opcode::Execute => 0x0A,
            Opcode::Batch => 0x0D,
            Opcode::AuthChallenge => 0x0E,
            Opcode::AuthResponse => 0x0F,
            Opcode::AuthSuccess => 0x10,
            Opcode::CreateSession => 0x21,
            Opcode::SessionCreated => 0x22,
        }
    }
}

impl TryFrom<u8> for Opcode {
    type Error = ProtocolError;

    fn try_from(value: u8) -> (r: Result<Opcode, ProtocolError>) {
        Ok(
            match value {
                0x00 => Opcode::Error,
                0x01 => Opcode::Startup,
                0x02 => Opcode::Ready,
                0x05 => Opcode::Options,
                0x06 => Opcode::Supported,
                0x07 => Opcode::Query,
                0x08 => Opcode::Result,
                0x09 => Opcode::Prepare,
                0x0A => Opcode::Execute,
                0x0D => Opcode::Batch,
                0x0E => Opcode::AuthChallenge,
                0x0F => Opcode::AuthResponse,
                0x10 => Opcode::AuthSuccess,
                0x21 => Opcode::CreateSession,
                0x22 => Opcode::SessionCreated,
                other => {
                    return Err(ProtocolError::UnknownOpcode(other));
                },
            },
        )
    }
}

impl TryFromSpecImpl<u8> for Opcode {
    open spec fn obeys_try_from_spec() -> bool {
        true
    }

    open spec fn try_from_spec(value: u8) -> Result<Opcode, ProtocolError> {
        match Opcode::of_number(value) {
            Some(opcode) => Ok(opcode),
            None => Err(ProtocolError::UnknownOpcode(value)),
        }
    }
}

/// An opcode's number stands for that opcode and no other.
pub proof fn law_opcode_round_trip(opcode: Opcode, n: u8)
    ensures
        Opcode::of_number(opcode.number()) == Some(opcode),
        Opcode::of_number(n) is Some ==> Opcode::of_number(n)->0.number() == n,
{
}

/// The header of a frame.
#[derive(Clone, Copy, Debug)]
pub struct FrameHeader {
    pub version: u8,
    pub flags: u8,
    pub stream: i16,
    pub opcode: Opcode,
    pub body_length: u32,
}

/// A frame.
#[derive(Debug)]
pub struct Frame {
    pub header: FrameHeader,
    pub body: Bytes,
}

/// Why no frame could be read.
#[derive(Debug)]
pub enum ProtocolError {
    UnknownOpcode(u8),
    UnexpectedEof,
    BodyTooLarge(u32),
    Protocol(String),
}

/// The error codes of an ERROR frame.
#[derive(Clone, Copy, Debug, PartialEq, Eq, Structural)]
pub enum ErrorCode {
    Server,
    Protocol,
    Overloaded,
    Unprepared,
}

impl ErrorCode {
    /// The code's number.
    pub open spec fn number(self) -> u32 {
        match self {
            ErrorCode::Server => 0x0000,
            ErrorCode::Protocol => 0x000A,
            ErrorCode::Overloaded => 0x1001,
            ErrorCode::Unprepared => 0x2500,
        }
    }

    /// The code's number.
    pub fn as_u32(self) -> (n: u32)
        ensures
            n == self.number(),
    {
        match self {
            ErrorCode::Server => 0x0000,
            ErrorCode::Protocol => 0x000A,
            ErrorCode::Overloaded => 0x1001,
            ErrorCode::Unprepared => 0x2500,
        }
    }
}

/// The nine bytes of a header.
pub open spec fn header_bytes(
    version: u8,
    flags: u8,
    stream: i16,
    opcode: u8,
    body_length: int,
) -> Seq<u8> {
    seq![version, flags] + be2(stream as int) + seq![opcode] + be4(body_length)
}

/// The header at the front of the bytes.
pub open spec fn header_at(s: Seq<u8>) -> Result<FrameHeader, ProtocolError> {
    if s.len() < 9 {
        Err(ProtocolError::UnexpectedEof)
    } else {
        match Opcode::of_number(s[4]) {
            Some(opcode) => Ok(
                FrameHeader {
                    version: s[0],
                    flags: s[1],
                    stream: signed2(un2(s.skip(2))) as i16,
                    opcode,
                    body_length: un4(s.skip(5)) as u32,
                },
            ),
            None => Err(ProtocolError::UnknownOpcode(s[4])),
        }
    }
}

/// Decodes the header at the front of the bytes.
pub fn decode_header(src: &[u8]) -> (r: Result<FrameHeader, ProtocolError>)
    ensures
        r == header_at(src@),
{
    if src.len() < HEADER_LENGTH {
        return Err(ProtocolError::UnexpectedEof);
    }
    let opcode: Opcode = match Opcode::try_from(src[4]) {
        Ok(opcode) => opcode,
        Err(e) => {
            return Err(e);
        },
    };
    let (_, tail): (&[u8], &[u8]) = src.split_at(2);
    let stream: i16 = to_i16(read_be2(tail));
    assert(tail@ =~= src@.skip(2));
    let (_, tail): (&[u8], &[u8]) = src.split_at(5);
    let body_length: u32 = read_be4(tail);
    assert(tail@ =~= src@.skip(5));
    Ok(FrameHeader { version: src[0], flags: src[1], stream, opcode, body_length })
}

/// The frame at the front of the bytes, and the bytes behind it; nothing while
/// the frame is not complete.
pub open spec fn frame_at(s: Seq<u8>) -> Result<
    Option<(FrameHeader, Seq<u8>, Seq<u8>)>,
    ProtocolError,
> {
    if s.len() < 9 {
        Ok(None)
    } else {
        match header_at(s) {
            Err(e) => Err(e),
            Ok(header) => if header.body_length > MAX_BODY_LENGTH {
                Err(ProtocolError::BodyTooLarge(header.body_length))
            } else if s.len() < 9 + header.body_length {
                Ok(None)
            } else {
                Ok(
                    Some(
                        (
                            header,
                            s.subrange(9, 9 + header.body_length),
                            s.skip(9 + header.body_length),
                        ),
                    ),
                )
            },
        }
    }
}

/// Takes the frame at the front out of the buffer. While the frame is not
/// complete, the buffer stays as it is and more bytes have to be read.
pub fn take_frame(buffer: &mut BytesMut) -> (r: Result<Option<Frame>, ProtocolError>)
    ensures
        match frame_at(mut_contents(*old(buffer))) {
            Ok(Some((header, body, rest))) => r matches Ok(Some(frame)) && frame.header == header
                && contents(frame.body) == body && mut_contents(*final(buffer)) == rest,
            Ok(None) => r matches Ok(None) && *final(buffer) == *old(buffer),
            Err(e) => r == Err::<Option<Frame>, ProtocolError>(e) && *final(buffer) == *old(buffer),
        },
{
    if mut_len(buffer) < HEADER_LENGTH {
        return Ok(None);
    }
    let header: FrameHeader = match decode_header(mut_slice(buffer)) {
        Ok(header) => header,
        Err(e) => {
            return Err(e);
        },
    };
    if header.body_length > MAX_BODY_LENGTH {
        return Err(ProtocolError::BodyTooLarge(header.body_length));
    }
    let body_length: usize = header.body_length as usize;
    if mut_len(buffer) < HEADER_LENGTH + body_length {
        return Ok(None);
    }
    let ghost whole = mut_contents(*buffer);
    let _head: BytesMut = split_to(buffer, HEADER_LENGTH);
    let body: Bytes = freeze(split_to(buffer, body_length));
    assert(contents(body) =~= whole.subrange(9, 9 + body_length));
    assert(mut_contents(*buffer) =~= whole.skip(9 + body_length));
    Ok(Some(Frame { header, body }))
}

/// What the end of the stream means: nothing where the buffer is empty, and an
/// error in the middle of a frame.
pub fn end_of_stream(buffer: &BytesMut) -> (r: Result<Option<Frame>, ProtocolError>)
    ensures
        mut_contents(*buffer).len() == 0 ==> r matches Ok(None),
        mut_contents(*buffer).len() > 0 ==> r matches Err(ProtocolError::UnexpectedEof),
{
    if mut_len(buffer) == 0 {
        Ok(None)
    } else {
        Err(ProtocolError::UnexpectedEof)
    }
}

/// How a frame reads does not depend on what was read behind it: neither a
/// frame nor an error changes when more bytes arrive.
pub proof fn law_frame_ignores_later_bytes(s: Seq<u8>, more: Seq<u8>)
    ensures
        match frame_at(s) {
            Ok(Some((header, body, rest))) => frame_at(s + more) == Ok::<
                Option<(FrameHeader, Seq<u8>, Seq<u8>)>,
                ProtocolError,
            >(Some((header, body, rest + more))),
            Ok(None) => true,
            Err(e) => frame_at(s + more) == frame_at(s),
        },
{
    let t = s + more;
    if s.len() >= 9 {
        assert(t[0] == s[0] && t[1] == s[1] && t[4] == s[4]);
        assert(t.skip(2)[0] == s.skip(2)[0] && t.skip(2)[1] == s.skip(2)[1]);
        assert(t.skip(5)[0] == s.skip(5)[0] && t.skip(5)[1] == s.skip(5)[1]);
        assert(t.skip(5)[2] == s.skip(5)[2] && t.skip(5)[3] == s.skip(5)[3]);
        assert(header_at(t) == header_at(s));
        if let Ok(Some((header, body, rest))) = frame_at(s) {
            assert(t.subrange(9, 9 + header.body_length) =~= body);
            assert(t.skip(9 + header.body_length) =~= rest + more);
        }
    }
}

/// The bytes of a request frame.
pub open spec fn request_bytes(opcode: Opcode, stream: i16, body: Seq<u8>) -> Seq<u8> {
    header_bytes(VERSION_REQUEST, 0, stream, opcode.number(), body.len() as int) + body
}

/// Encodes a request frame with the given opcode and body.
pub fn encode_request(opcode: Opcode, stream: i16, body: &[u8]) -> (buf: BytesMut)
    ensures
        mut_contents(buf) == request_bytes(opcode, stream, body@),
{
    let mut buf: BytesMut = crate::wire::new_buffer();
    put_u8(&mut buf, VERSION_REQUEST);
    put_u8(&mut buf, 0);
    put_i16(&mut buf, stream);
    put_u8(&mut buf, opcode.as_u8());
    put_u32(&mut buf, low_u32(body.len()));
    put_slice(&mut buf, body);
    assert(mut_contents(buf) =~= request_bytes(opcode, stream, body@));
    buf
}

/// Appends the header of a request frame; the length is that of the body.
fn encode_header(out: &mut BytesMut, frame: &Frame)
    ensures
        mut_contents(*final(out)) == mut_contents(*old(out)) + header_bytes(
            VERSION_REQUEST,
            frame.header.flags,
            frame.header.stream,
            frame.header.opcode.number(),
            contents(frame.body).len() as int,
        ),
{
    put_u8(out, VERSION_REQUEST);
    put_u8(out, frame.header.flags);
    put_i16(out, frame.header.stream);
    put_u8(out, frame.header.opcode.as_u8());
    put_u32(out, low_u32(bytes_slice(&frame.body).len()));
    assert(mut_contents(*out) =~= mut_contents(*old(out)) + header_bytes(
        VERSION_REQUEST,
        frame.header.flags,
        frame.header.stream,
        frame.header.opcode.number(),
        contents(frame.body).len() as int,
    ));
}

/// The bytes that are written for a frame on the client's side.
pub fn frame_bytes(frame: &Frame) -> (buf: BytesMut)
    ensures
        mut_contents(buf) == header_bytes(
            VERSION_REQUEST,
            frame.header.flags,
            frame.header.stream,
            frame.header.opcode.number(),
            contents(frame.body).len() as int,
        ) + contents(frame.body),
{
    let mut encoded: BytesMut = crate::wire::new_buffer();
    encode_header(&mut encoded, frame);
    put_slice(&mut encoded, bytes_slice(&frame.body));
    assert(mut_contents(encoded) =~= header_bytes(
        VERSION_REQUEST,
        frame.header.flags,
        frame.header.stream,
        frame.header.opcode.number(),
        contents(frame.body).len() as int,
    ) + contents(frame.body));
    encoded
}

/// A frame that was written is the frame that is read, with what follows it
/// left in the buffer.
pub proof fn law_frame_round_trip(
    version: u8,
    flags: u8,
    stream: i16,
    opcode: Opcode,
    body: Seq<u8>,
    rest: Seq<u8>,
)
    requires
        body.len() <= MAX_BODY_LENGTH,
    ensures
        frame_at(
            header_bytes(version, flags, stream, opcode.number(), body.len() as int) + body + rest,
        ) == Ok::<Option<(FrameHeader, Seq<u8>, Seq<u8>)>, ProtocolError>(
            Some(
                (
                    FrameHeader { version, flags, stream, opcode, body_length: body.len() as u32 },
                    body,
                    rest,
                ),
            ),
        ),
{
    let n = body.len() as int;
    let h = header_bytes(version, flags, stream, opcode.number(), n);
    let s = h + body + rest;
    law_opcode_round_trip(opcode, 0);
    lemma_be2(stream as int, seq![opcode.number()] + be4(n) + body + rest);
    lemma_be4(n, body + rest);
    assert(s.skip(2) =~= be2(stream as int) + (seq![opcode.number()] + be4(n) + body + rest));
    assert(s.skip(5) =~= be4(n) + (body + rest));
    assert(s[4] == opcode.number());
    assert(s[0] == version && s[1] == flags);
    assert(s.subrange(9, 9 + n) =~= body);
    assert(s.skip(9 + n) =~= rest);
}

/// The message in the body of an ERROR frame.
pub open spec fn error_message_spec(body: Seq<u8>) -> Seq<char> {
    if body.len() < 6 {
        "unknown error (body too short)"@
    } else if body.len() < 6 + un2(body.skip(4)) {
        "unknown error (message truncated)"@
    } else {
        utf8_lossy(body.subrange(6, 6 + un2(body.skip(4))))
    }
}

/// Decodes the message in the body of an ERROR frame.
pub fn decode_error_message(body: &Bytes) -> (message: String)
    ensures
        message@ == error_message_spec(contents(*body)),
{
    let bytes: &[u8] = bytes_slice(body);
    if bytes.len() < 6 {
        return "unknown error (body too short)".to_owned();
    }
    let (_, tail): (&[u8], &[u8]) = bytes.split_at(4);
    assert(tail@ =~= bytes@.skip(4));
    let len: usize = read_be2(tail) as usize;
    if bytes.len() - 6 < len {
        return "unknown error (message truncated)".to_owned();
    }
    from_utf8_lossy(&bytes[6..6 + len])
}

} // verus!
