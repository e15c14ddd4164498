//! The adapter's side of the protocol: reading requests and writing responses.

use crate::ipc::protocol::{
    error_message_spec, header_at, header_bytes, ProtocolError, VERSION_RESPONSE,
};
use crate::text::lemma_utf8_round_trip;
use crate::wire::{
    be2, be4, bytes_slice, contents, freeze, lemma_be2, low_u16, low_u32, mut_contents, mut_len,
    new_buffer, put_i16, put_slice, put_u16, put_u32, put_u8,
};
use bytes::BytesMut;
use vstd::prelude::*;
use vstd::string::*;
use vstd::utf8::encode_utf8;

pub use crate::ipc::protocol::{ErrorCode, Frame, FrameHeader, Opcode};

verus! {

broadcast use crate::wire::group_be;

/// Why no request could be read.
#[derive(Debug, Clone, Copy, PartialEq, Eq, Structural)]
pub enum FrameError {
    UnknownOpcode(u8),
    UnexpectedEof,
    BodyTooLarge(u32),
}

/// The same error on the adapter's side.
pub open spec fn frame_error(e: ProtocolError) -> FrameError {
    match e {
        ProtocolError::UnknownOpcode(n) => FrameError::UnknownOpcode(n),
        ProtocolError::BodyTooLarge(n) => FrameError::BodyTooLarge(n),
        _ => FrameError::UnexpectedEof,
    }
}

/// The same error on the adapter's side.
fn to_frame_error(e: ProtocolError) -> (r: FrameError)
    ensures
        r == frame_error(e),
{
    match e {
        ProtocolError::UnknownOpcode(n) => FrameError::UnknownOpcode(n),
        ProtocolError::BodyTooLarge(n) => FrameError::BodyTooLarge(n),
        _ => FrameError::UnexpectedEof,
    }
}

/// Decodes the header at the front of the bytes.
pub fn decode_header(src: &[u8]) -> (r: Result<FrameHeader, FrameError>)
    ensures
        match header_at(src@) {
            Ok(header) => r == Ok::<FrameHeader, FrameError>(header),
            Err(e) => r == Err::<FrameHeader, FrameError>(frame_error(e)),
        },
{
    match crate::ipc::protocol::decode_header(src) {
        Ok(header) => Ok(header),
        Err(e) => Err(to_frame_error(e)),
    }
}

/// Takes the request at the front out of the buffer; nothing while it is not complete.
pub fn take_frame(buffer: &mut BytesMut) -> (r: Result<Option<Frame>, FrameError>)
    ensures
        match crate::ipc::protocol::frame_at(mut_contents(*old(buffer))) {
            Ok(Some((header, body, rest))) => r matches Ok(Some(frame)) && frame.header == header
                && contents(frame.body) == body && mut_contents(*final(buffer)) == rest,
            Ok(None) => r matches Ok(None) && *final(buffer) == *old(buffer),
            Err(e) => r == Err::<Option<Frame>, FrameError>(frame_error(e)) && *final(buffer)
                == *old(buffer),
        },
{
    match crate::ipc::protocol::take_frame(buffer) {
        Ok(frame) => Ok(frame),
        Err(e) => Err(to_frame_error(e)),
    }
}

/// What the end of the stream means: nothing where the buffer is empty, and an
/// error in the middle of a request.
pub fn end_of_stream(buffer: &BytesMut) -> (r: Result<Option<Frame>, FrameError>)
    ensures
        mut_contents(*buffer).len() == 0 ==> r matches Ok(None),
        mut_contents(*buffer).len() > 0 ==> r matches Err(FrameError::UnexpectedEof),
{
    match crate::ipc::protocol::end_of_stream(buffer) {
        Ok(frame) => Ok(frame),
        Err(e) => Err(to_frame_error(e)),
    }
}

/// A frame is a response with this opcode and this body, and its header says so.
pub open spec fn is_response(frame: Frame, stream: i16, opcode: Opcode, body: Seq<u8>) -> bool {
    &&& frame.header.version == VERSION_RESPONSE
    &&& frame.header.flags == 0
    &&& frame.header.stream == stream
    &&& frame.header.opcode == opcode
    &&& frame.header.body_length == body.len() as int % 0x1_0000_0000
    &&& contents(frame.body) == body
}

/// A response with a body.
pub fn response_frame(stream: i16, opcode: Opcode, body: BytesMut) -> (frame: Frame)
    ensures
        is_response(frame, stream, opcode, mut_contents(body)),
{
    let body_length: u32 = low_u32(mut_len(&body));
    Frame {
        header: FrameHeader { version: VERSION_RESPONSE, flags: 0, stream, opcode, body_length },
        body: freeze(body),
    }
}

/// The body of an ERROR frame: the code, and the message behind the lower 16 bits of its length.
pub open spec fn error_body(code: ErrorCode, message: Seq<char>) -> Seq<u8> {
    be4(code.number() as int) + be2(encode_utf8(message).len() as int) + encode_utf8(message)
}

/// An ERROR frame.
pub fn error_frame(stream: i16, code: ErrorCode, message: &str) -> (frame: Frame)
    ensures
        is_response(frame, stream, Opcode::Error, error_body(code, message@)),
{
    let mut body: BytesMut = new_buffer();
    put_u32(&mut body, code.as_u32());
    let bytes: &[u8] = message.as_bytes();
    put_u16(&mut body, low_u16(bytes.len()));
    put_slice(&mut body, bytes);
    assert(mut_contents(body) =~= error_body(code, message@));
    response_frame(stream, Opcode::Error, body)
}

/// The client reads the message of an ERROR frame back, unless it is too long
/// for the 16 bits of its length.
pub proof fn law_error_message_round_trip(code: ErrorCode, message: Seq<char>)
    requires
        encode_utf8(message).len() <= 0xFFFF,
    ensures
        error_message_spec(error_body(code, message)) == message,
{
    let bytes = encode_utf8(message);
    let body = error_body(code, message);
    lemma_be2(bytes.len() as int, bytes);
    assert(body.skip(4) =~= be2(bytes.len() as int) + bytes);
    assert(body.subrange(6, (6 + bytes.len()) as int) =~= bytes);
    lemma_utf8_round_trip(message);
}

/// The bytes of a frame on the wire, as a response.
pub open spec fn response_bytes(frame: Frame) -> Seq<u8> {
    header_bytes(
        VERSION_RESPONSE,
        frame.header.flags,
        frame.header.stream,
        frame.header.opcode.number(),
        contents(frame.body).len() as int,
    ) + contents(frame.body)
}

/// Encodes a frame as a response.
pub fn encode_response(frame: &Frame) -> (encoded: BytesMut)
    ensures
        mut_contents(encoded) == response_bytes(*frame),
{
    let mut encoded: BytesMut = new_buffer();
    put_u8(&mut encoded, VERSION_RESPONSE);
    put_u8(&mut encoded, frame.header.flags);
    put_i16(&mut encoded, frame.header.stream);
    put_u8(&mut encoded, frame.header.opcode.as_u8());
    let body: &[u8] = bytes_slice(&frame.body);
    put_u32(&mut encoded, low_u32(body.len()));
    put_slice(&mut encoded, body);
    assert(mut_contents(encoded) =~= response_bytes(*frame));
    encoded
}

} // verus!
