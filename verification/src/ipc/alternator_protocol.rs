//! The binary protocol between the benchmark and an Alternator adapter.
//!
//! A frame is a header of twelve bytes (version, flags, stream, opcode, three
//! reserved bytes and the length of the body) and a body.

use crate::ipc::protocol::MAX_BODY_LENGTH;
use crate::text::{from_utf8_lossy, utf8_lossy};
use crate::wire::{
    be2, be4, bytes_slice, contents, freeze, lemma_be2, lemma_be4, low_u32, mut_contents,
    mut_len, mut_slice, new_buffer, put_i16, put_slice, put_u32, put_u8, read_be2, read_be4,
    signed2, split_to, to_i16, un2, un4,
};
use bytes::{Bytes, BytesMut};
use vstd::prelude::*;
use vstd::std_specs::convert::TryFromSpecImpl;
use vstd::string::*;

verus! {

broadcast use crate::wire::group_be;

pub const HEADER_LENGTH: usize = 12;

pub const VERSION_REQUEST: u8 = 0x01;

pub const VERSION_RESPONSE: u8 = 0x81;

/// What a request asks for.
#[derive(Clone, Copy, Debug, PartialEq, Eq, Structural)]
pub enum RequestOpcode {
    CreateSession,
    CloseSession,
    GetItem,
    PutItem,
    DeleteItem,
    UpdateItem,
    Query,
    Scan,
    BatchGetItem,
    BatchWriteItem,
    Shutdown,
}

impl RequestOpcode {
    /// The opcode's number.
    pub open spec fn number(self) -> u8 {
        match self {
            RequestOpcode::CreateSession => 0x01,
            RequestOpcode::CloseSession => 0x02,
            RequestOpcode::GetItem => 0x10,
            RequestOpcode::PutItem => 0x11,
            RequestOpcode::DeleteItem => 0x12,
            RequestOpcode::UpdateItem => 0x13,
            RequestOpcode::Query => 0x14,
            RequestOpcode::Scan => 0x15,
            RequestOpcode::BatchGetItem => 0x20,
            RequestOpcode::BatchWriteItem => 0x21,
            RequestOpcode::Shutdown => 0xFE,
        }
    }

    /// The opcode's number.
    pub fn as_u8(self) -> (n: u8)
        ensures
            n == self.number(),
    {
        match self {
            RequestOpcode::CreateSession => 0x01,
            RequestOpcode::CloseSession => 0x02,
            RequestOpcode::GetItem => 0x10,
            RequestOpcode::PutItem => 0x11,
            RequestOpcode::DeleteItem => 0x12,
            RequestOpcode::UpdateItem => 0x13,
            RequestOpcode::Query => 0x14,
            RequestOpcode::Scan => 0x15,
            RequestOpcode::BatchGetItem => 0x20,
            RequestOpcode::BatchWriteItem => 0x21,
            RequestOpcode::Shutdown => 0xFE,
        }
    }
}

/// What a response holds.
#[derive(Clone, Copy, Debug, PartialEq, Eq, Structural)]
pub enum ResponseOpcode {
    Error,
    SessionCreated,
    SessionClosed,
    ItemResult,
    QueryResult,
    BatchResult,
    ShutdownAck,
}

impl ResponseOpcode {
    /// The opcode's number.
    pub open spec fn number(self) -> u8 {
        match self {
            ResponseOpcode::Error => 0x00,
            ResponseOpcode::SessionCreated => 0x01,
            ResponseOpcode::SessionClosed => 0x02,
            ResponseOpcode::ItemResult => 0x10,
            ResponseOpcode::QueryResult => 0x14,
            ResponseOpcode::BatchResult => 0x20,
            ResponseOpcode::ShutdownAck => 0xFE,
        }
    }

    /// The opcode with a number, if there is one.
    pub open spec fn of_number(n: u8) -> Option<ResponseOpcode> {
        match n {
            0x00 => Some(ResponseOpcode::Error),
            0x01 => Some(ResponseOpcode::SessionCreated),
            0x02 => Some(ResponseOpcode::SessionClosed),
            0x10 => Some(ResponseOpcode::ItemResult),
            0x14 => Some(ResponseOpcode::QueryResult),
            0x20 => Some(ResponseOpcode::BatchResult),
            0xFE => Some(ResponseOpcode::ShutdownAck),
            _ => None,
        }
    }
}

impl TryFrom<u8> for ResponseOpcode {
    type Error = AlternatorProtocolError;

    fn try_from(value: u8) -> (r: Result<ResponseOpcode, AlternatorProtocolError>) {
        Ok(
            match value {
                0x00 => ResponseOpcode::Error,
                0x01 => ResponseOpcode::SessionCreated,
                0x02 => ResponseOpcode::SessionClosed,
                0x10 => ResponseOpcode::ItemResult,
                0x14 => ResponseOpcode::QueryResult,
                0x20 => ResponseOpcode::BatchResult,
                0xFE => ResponseOpcode::ShutdownAck,
                other => {
                    return Err(AlternatorProtocolError::UnknownOpcode(other));
                },
            },
        )
    }
}

impl TryFromSpecImpl<u8> for ResponseOpcode {
    open spec fn obeys_try_from_spec() -> bool {
        true
    }

    open spec fn try_from_spec(value: u8) -> Result<ResponseOpcode, AlternatorProtocolError> {
        match ResponseOpcode::of_number(value) {
            Some(opcode) => Ok(opcode),
            None => Err(AlternatorProtocolError::UnknownOpcode(value)),
        }
    }
}

/// The header of a frame. The opcode is its number: it is not checked.
#[derive(Clone, Copy, Debug, PartialEq, Eq, Structural)]
pub struct FrameHeader {
    pub version: u8,
    pub flags: u8,
    pub stream: i16,
    pub opcode: u8,
    pub body_length: u32,
}

/// A frame.
#[derive(Debug)]
pub struct Frame {
    pub header: FrameHeader,
    pub body: Bytes,
}

/// Why no frame could be read.
#[derive(Clone, Copy, Debug, PartialEq, Eq, Structural)]
pub enum AlternatorProtocolError {
    UnknownOpcode(u8),
    UnexpectedEof,
    BodyTooLarge(u32),
}

/// The codes of the adapter's errors.
#[derive(Clone, Copy, Debug, PartialEq, Eq, Structural)]
pub enum ErrorCode {
    Unknown,
    Protocol,
    Connection,
    SessionNotFound,
    ValidationError,
    ConditionalCheckFailed,
    ResourceNotFound,
    ProvisionedThroughput,
    ItemCollectionSizeLimitExceeded,
    RequestLimitExceeded,
    InternalServer,
    ServiceUnavailable,
    Timeout,
}

impl ErrorCode {
    /// The code's number.
    pub open spec fn number(self) -> u32 {
        match self {
            ErrorCode::Unknown => 0x0000,
            ErrorCode::Protocol => 0x0001,
            ErrorCode::Connection => 0x0002,
            ErrorCode::SessionNotFound => 0x0003,
            ErrorCode::ValidationError => 0x0004,
            ErrorCode::ConditionalCheckFailed => 0x0010,
            ErrorCode::ResourceNotFound => 0x0011,
            ErrorCode::ProvisionedThroughput => 0x0012,
            ErrorCode::ItemCollectionSizeLimitExceeded => 0x0013,
            ErrorCode::RequestLimitExceeded => 0x0014,
            ErrorCode::InternalServer => 0x0020,
            ErrorCode::ServiceUnavailable => 0x0021,
            ErrorCode::Timeout => 0x0030,
        }
    }

    /// The code's number.
    pub fn as_u32(self) -> (n: u32)
        ensures
            n == self.number(),
    {
        match self {
            ErrorCode::Unknown => 0x0000,
            ErrorCode::Protocol => 0x0001,
            ErrorCode::Connection => 0x0002,
            ErrorCode::SessionNotFound => 0x0003,
            ErrorCode::ValidationError => 0x0004,
            ErrorCode::ConditionalCheckFailed => 0x0010,
            ErrorCode::ResourceNotFound => 0x0011,
            ErrorCode::ProvisionedThroughput => 0x0012,
            ErrorCode::ItemCollectionSizeLimitExceeded => 0x0013,
            ErrorCode::RequestLimitExceeded => 0x0014,
            ErrorCode::InternalServer => 0x0020,
            ErrorCode::ServiceUnavailable => 0x0021,
            ErrorCode::Timeout => 0x0030,
        }
    }
}

/// The bytes of a header.
pub open spec fn header_bytes(version: u8, flags: u8, stream: i16, opcode: u8, length: int) -> Seq<
    u8,
> {
    seq![version, flags] + be2(stream as int) + seq![opcode, 0u8, 0u8, 0u8] + be4(length)
}

/// The header at the front of the bytes.
pub open spec fn header_at(s: Seq<u8>) -> Result<FrameHeader, AlternatorProtocolError> {
    if s.len() < 12 {
        Err(AlternatorProtocolError::UnexpectedEof)
    } else {
        Ok(
            FrameHeader {
                version: s[0],
                flags: s[1],
                stream: signed2(un2(s.skip(2))) as i16,
                opcode: s[4],
                body_length: un4(s.skip(8)) as u32,
            },
        )
    }
}

/// Decodes the header at the front of the bytes.
pub fn decode_header(src: &[u8]) -> (r: Result<FrameHeader, AlternatorProtocolError>)
    ensures
        r == header_at(src@),
{
    if src.len() < HEADER_LENGTH {
        return Err(AlternatorProtocolError::UnexpectedEof);
    }
    let (_, tail): (&[u8], &[u8]) = src.split_at(2);
    let stream: i16 = to_i16(read_be2(tail));
    assert(tail@ =~= src@.skip(2));
    let (_, tail): (&[u8], &[u8]) = src.split_at(8);
    let body_length: u32 = read_be4(tail);
    assert(tail@ =~= src@.skip(8));
    Ok(FrameHeader { version: src[0], flags: src[1], stream, opcode: src[4], body_length })
}

/// The frame at the front of the bytes, and the bytes behind it; nothing while
/// the frame is not complete.
pub open spec fn frame_at(s: Seq<u8>) -> Result<
    Option<(FrameHeader, Seq<u8>, Seq<u8>)>,
    AlternatorProtocolError,
> {
    match header_at(s) {
        Err(_) => Ok(None),
        Ok(header) => if header.body_length > MAX_BODY_LENGTH {
            Err(AlternatorProtocolError::BodyTooLarge(header.body_length))
        } else if s.len() < 12 + header.body_length {
            Ok(None)
        } else {
            Ok(
                Some(
                    (
                        header,
                        s.subrange(12, 12 + header.body_length),
                        s.skip(12 + header.body_length),
                    ),
                ),
            )
        },
    }
}

/// Takes the frame at the front out of the buffer. While the frame is not
/// complete, the buffer stays as it is and more bytes have to be read.
pub fn take_frame(buffer: &mut BytesMut) -> (r: Result<Option<Frame>, AlternatorProtocolError>)
    ensures
        match frame_at(mut_contents(*old(buffer))) {
            Ok(Some((header, body, rest))) => r matches Ok(Some(frame)) && frame.header == header
                && contents(frame.body) == body && mut_contents(*final(buffer)) == rest,
            Ok(None) => r matches Ok(None) && *final(buffer) == *old(buffer),
            Err(e) => r == Err::<Option<Frame>, AlternatorProtocolError>(e) && *final(buffer)
                == *old(buffer),
        },
{
    let ghost s = mut_contents(*buffer);
    if mut_len(buffer) < HEADER_LENGTH {
        return Ok(None);
    }
    let header: FrameHeader = match decode_header(mut_slice(buffer)) {
        Ok(header) => header,
        Err(e) => {
            return Err(e);
        },
    };
    if header.body_length > MAX_BODY_LENGTH {
        return Err(AlternatorProtocolError::BodyTooLarge(header.body_length));
    }
    let length: usize = header.body_length as usize;
    if mut_len(buffer) < HEADER_LENGTH + length {
        return Ok(None);
    }
    let _ = split_to(buffer, HEADER_LENGTH);
    let body: BytesMut = split_to(buffer, length);
    assert(mut_contents(body) =~= s.subrange(12, 12 + length));
    assert(mut_contents(*buffer) =~= s.skip(12 + length));
    Ok(Some(Frame { header, body: freeze(body) }))
}

/// What the end of the stream means: nothing where it comes between frames, an error within one.
pub fn end_of_stream(buffer: &BytesMut) -> (r: Result<Option<Frame>, AlternatorProtocolError>)
    ensures
        if mut_contents(*buffer).len() == 0 {
            r matches Ok(None)
        } else {
            r == Err::<Option<Frame>, AlternatorProtocolError>(
                AlternatorProtocolError::UnexpectedEof,
            )
        },
{
    if mut_len(buffer) == 0 {
        Ok(None)
    } else {
        Err(AlternatorProtocolError::UnexpectedEof)
    }
}

/// The bytes of a request.
pub open spec fn request_bytes(opcode: RequestOpcode, stream: i16, body: Seq<u8>) -> Seq<u8> {
    header_bytes(VERSION_REQUEST, 0, stream, opcode.number(), body.len() as int) + body
}

/// Encodes a request.
pub fn encode_request(opcode: RequestOpcode, stream: i16, body: &[u8]) -> (buf: BytesMut)
    ensures
        mut_contents(buf) == request_bytes(opcode, stream, body@),
{
    let mut buf: BytesMut = new_buffer();
    put_u8(&mut buf, VERSION_REQUEST);
    put_u8(&mut buf, 0);
    put_i16(&mut buf, stream);
    put_u8(&mut buf, opcode.as_u8());
    put_u8(&mut buf, 0);
    put_u8(&mut buf, 0);
    put_u8(&mut buf, 0);
    put_u32(&mut buf, low_u32(body.len()));
    put_slice(&mut buf, body);
    assert(mut_contents(buf) =~= request_bytes(opcode, stream, body@));
    buf
}

/// A frame that was written is the frame that is read, with what follows it
/// left in the buffer.
pub proof fn law_frame_round_trip(
    version: u8,
    flags: u8,
    stream: i16,
    opcode: u8,
    body: Seq<u8>,
    rest: Seq<u8>,
)
    requires
        body.len() <= MAX_BODY_LENGTH,
    ensures
        frame_at(header_bytes(version, flags, stream, opcode, body.len() as int) + body + rest)
            == Ok::<Option<(FrameHeader, Seq<u8>, Seq<u8>)>, AlternatorProtocolError>(
            Some(
                (
                    FrameHeader { version, flags, stream, opcode, body_length: body.len() as u32 },
                    body,
                    rest,
                ),
            ),
        ),
{
    let n = body.len() as int;
    let h = header_bytes(version, flags, stream, opcode, n);
    let s = h + body + rest;
    let tail = seq![opcode, 0u8, 0u8, 0u8] + be4(n) + body + rest;
    lemma_be2(stream as int, tail);
    lemma_be4(n, body + rest);
    assert(s.skip(2) =~= be2(stream as int) + tail);
    assert(s.skip(8) =~= be4(n) + (body + rest));
    assert(s[4] == opcode);
    assert(s[0] == version && s[1] == flags);
    assert(s.subrange(12, 12 + n) =~= body);
    assert(s.skip(12 + n) =~= rest);
}

/// Every number that a response opcode has is read as that opcode.
pub proof fn law_response_opcode_round_trip(opcode: ResponseOpcode, n: u8)
    ensures
        ResponseOpcode::of_number(opcode.number()) == Some(opcode),
        ResponseOpcode::of_number(n) matches Some(o) ==> o.number() == n,
{
}

/// A text behind its length, and what follows it. Where the text is cut off,
/// only its length is passed over, and the fallback stands for it.
pub open spec fn error_text(s: Seq<u8>, fallback: Seq<char>) -> (Seq<char>, Seq<u8>) {
    if s.len() < 4 {
        (fallback, s)
    } else if s.len() - 4 < un4(s) {
        (fallback, s.skip(4))
    } else {
        (utf8_lossy(s.subrange(4, 4 + un4(s))), s.skip(4 + un4(s)))
    }
}

/// The code, the type and the message in the body of an ERROR frame.
pub open spec fn error_of(body: Seq<u8>) -> (u32, Seq<char>, Seq<char>) {
    if body.len() < 4 {
        (0, "UnknownError"@, "body too short"@)
    } else {
        let (kind, rest) = error_text(body.skip(4), "UnknownError"@);
        (un4(body) as u32, kind, error_text(rest, "unknown error"@).0)
    }
}

/// Reads a text behind its length, or the fallback.
fn read_error_text(slice: &mut &[u8], fallback: &str) -> (text: String)
    ensures
        text@ == error_text((*old(slice))@, fallback@).0,
        (*final(slice))@ == error_text((*old(slice))@, fallback@).1,
{
    let s: &[u8] = *slice;
    if s.len() < 4 {
        return fallback.to_owned();
    }
    let (_, rest): (&[u8], &[u8]) = s.split_at(4);
    assert(rest@ =~= s@.skip(4));
    let len: u32 = read_be4(s);
    if rest.len() < len as usize {
        *slice = rest;
        return fallback.to_owned();
    }
    let (text, rest): (&[u8], &[u8]) = rest.split_at(len as usize);
    assert(text@ =~= s@.subrange(4, 4 + len));
    assert(rest@ =~= s@.skip(4 + len));
    *slice = rest;
    from_utf8_lossy(text)
}

/// Decodes the code, the type and the message in the body of an ERROR frame.
pub fn decode_error(body: &Bytes) -> (r: (u32, String, String))
    ensures
        (r.0, r.1@, r.2@) == error_of(contents(*body)),
{
    let bytes: &[u8] = bytes_slice(body);
    if bytes.len() < 4 {
        return (0, "UnknownError".to_owned(), "body too short".to_owned());
    }
    let code: u32 = read_be4(bytes);
    let (_, rest): (&[u8], &[u8]) = bytes.split_at(4);
    assert(rest@ =~= bytes@.skip(4));
    let mut slice: &[u8] = rest;
    let kind: String = read_error_text(&mut slice, "UnknownError");
    let message: String = read_error_text(&mut slice, "unknown error");
    (code, kind, message)
}

} // verus!
