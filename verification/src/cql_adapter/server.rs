//! What the server does with a request, and how its answers are framed.

use crate::driver_adapter::messages::{codec_message, codec_text};
use crate::driver_adapter::protocol::{
    error_body, error_frame, is_response, response_frame, ErrorCode, Frame, FrameHeader, Opcode,
};
use crate::driver_adapter::registry::{
    unprepared_frame, unprepared_text, BindError, BindFailure, SessionRegistry,
};
use crate::driver_adapter::session::{
    batch_of, execute_of, parse_batch_frame, parse_execute_frame, parse_prepare_frame,
    parse_query_frame, prepare_of, query_of, read_string_map, string_map_at, BatchReq,
    ExecuteReq, ParseError, ParsedBatch, ParsedExecute, ParsedPrepare, ParsedQuery, PrepareReq,
    QueryReq,
};
use crate::error::CodecError;
use crate::ipc::client::{law_latency_round_trip, split_latency};
use crate::ipc::protocol::error_message_spec;
use crate::number::{decimal, decimal_text};
use crate::reader::{read_string_bytes, string_bytes_at};
use crate::string_map::StringMap;
use crate::text::{both, from_utf8, joined, lemma_utf8_round_trip, utf8_complaint, utf8_error};
use crate::wire::{
    be2, be8, bytes_slice, contents, freeze, lemma_be2, low_u32, mut_contents, mut_len,
    new_buffer, put_slice, put_u64, read_be2, un2,
};
use bytes::BytesMut;
use vstd::prelude::*;
use vstd::string::*;
use vstd::utf8::{encode_utf8, valid_utf8};

verus! {

broadcast use crate::wire::group_be;

/// What a request asks for.
pub enum Step {
    /// The request is answered at once.
    Reply(Frame),
    /// A session is created with these parameters.
    CreateSession(StringMap),
    /// A query is executed.
    Query(ParsedQuery),
    /// A statement is prepared.
    Prepare(ParsedPrepare),
    /// A prepared statement is executed.
    Execute(ParsedExecute),
    /// A batch is executed.
    Batch(ParsedBatch),
}

/// What a request asks for; the mathematical value of a [`Step`].
pub enum Asked {
    Refused(ErrorCode, Seq<char>),
    CreateSession(Map<Seq<char>, Seq<char>>),
    Query(QueryReq),
    Prepare(PrepareReq),
    Execute(ExecuteReq),
    Batch(BatchReq),
}

/// The bytes of the first of `n` strings that is no UTF-8, if one is found.
pub open spec fn bad_string(s: Seq<u8>, n: nat) -> Option<Seq<u8>>
    decreases n,
{
    if n == 0 {
        None
    } else {
        match string_bytes_at(s) {
            Err(_) => None,
            Ok((data, rest)) => if valid_utf8(data) {
                bad_string(rest, (n - 1) as nat)
            } else {
                Some(data)
            },
        }
    }
}

/// What is said of session parameters that cannot be read.
pub open spec fn params_text(body: Seq<u8>, e: CodecError) -> Seq<char> {
    match e {
        CodecError::InvalidUtf8 => match bad_string(body.skip(2), 2 * un2(body) as nat) {
            Some(data) => utf8_complaint(data),
            None => codec_text(e),
        },
        _ => codec_text(e),
    }
}

/// The bytes of the first of `n` strings that is no UTF-8.
fn find_bad_string(body: &[u8], n: u32) -> (r: Option<&[u8]>)
    ensures
        match r {
            Some(data) => bad_string(body@, n as nat) == Some(data@) && !valid_utf8(data@),
            None => bad_string(body@, n as nat) is None,
        },
{
    let mut slice: &[u8] = body;
    let mut i: u32 = 0;
    while i < n
        invariant
            i <= n,
            bad_string(body@, n as nat) == bad_string(slice@, (n - i) as nat),
        decreases n - i,
    {
        let data: &[u8] = match read_string_bytes(&mut slice) {
            Ok(data) => data,
            Err(_) => {
                return None;
            },
        };
        if from_utf8(data).is_none() {
            return Some(data);
        }
        i = i + 1;
    }
    None
}

/// What is said of session parameters that cannot be read.
fn params_message(body: &[u8], e: CodecError) -> (text: String)
    requires
        body@.len() >= 2 || e != CodecError::InvalidUtf8,
    ensures
        text@ == params_text(body@, e),
{
    if e == CodecError::InvalidUtf8 {
        let count: u32 = read_be2(body) as u32;
        let (_, strings): (&[u8], &[u8]) = body.split_at(2);
        assert(strings@ =~= body@.skip(2));
        if let Some(data) = find_bad_string(strings, 2 * count) {
            return utf8_error(data);
        }
    }
    codec_message(e)
}

/// What is said of a session that is not there.
pub open spec fn unknown_session(id: u64) -> Asked {
    Asked::Refused(ErrorCode::Protocol, "unknown session id "@ + decimal(id as nat))
}

/// What a request asks for, where these sessions are there.
pub open spec fn asked(opcode: Opcode, body: Seq<u8>, sessions: Set<u64>) -> Asked {
    match opcode {
        Opcode::CreateSession => match string_map_at(body) {
            Err(e) => Asked::Refused(ErrorCode::Server, params_text(body, e)),
            Ok((params, rest)) => if rest.len() > 0 {
                Asked::Refused(
                    ErrorCode::Server,
                    "unexpected trailing bytes after session params"@,
                )
            } else {
                Asked::CreateSession(params)
            },
        },
        Opcode::Query => match query_of(body) {
            Err(e) => Asked::Refused(ErrorCode::Server, e.text()),
            Ok(req) => if sessions.contains(req.session_id) {
                Asked::Query(req)
            } else {
                unknown_session(req.session_id)
            },
        },
        Opcode::Prepare => match prepare_of(body) {
            Err(e) => Asked::Refused(ErrorCode::Server, e.text()),
            Ok(req) => if sessions.contains(req.session_id) {
                Asked::Prepare(req)
            } else {
                unknown_session(req.session_id)
            },
        },
        Opcode::Execute => match execute_of(body) {
            Err(e) => Asked::Refused(ErrorCode::Server, e.text()),
            Ok(req) => if sessions.contains(req.session_id) {
                Asked::Execute(req)
            } else {
                unknown_session(req.session_id)
            },
        },
        Opcode::Batch => match batch_of(body) {
            Err(e) => Asked::Refused(ErrorCode::Server, e.text()),
            Ok(req) => if sessions.contains(req.session_id) {
                Asked::Batch(req)
            } else {
                unknown_session(req.session_id)
            },
        },
        _ => Asked::Refused(ErrorCode::Protocol, "unsupported opcode "@ + opcode.label()),
    }
}

/// A step is what a request asks for; a refusal is an ERROR frame on the request's stream.
pub open spec fn takes(step: Step, stream: i16, a: Asked) -> bool {
    match a {
        Asked::Refused(code, text) => step matches Step::Reply(frame) && is_response(
            frame,
            stream,
            Opcode::Error,
            error_body(code, text),
        ),
        Asked::CreateSession(params) => step matches Step::CreateSession(map) && map@ == params,
        Asked::Query(req) => step matches Step::Query(parsed) && parsed@ == req,
        Asked::Prepare(req) => step matches Step::Prepare(parsed) && parsed@ == req,
        Asked::Execute(req) => step matches Step::Execute(parsed) && parsed@ == req,
        Asked::Batch(req) => step matches Step::Batch(parsed) && parsed@ == req,
    }
}

/// The answer to a request that cannot be parsed.
fn refuse(stream: i16, e: ParseError) -> (step: Step)
    ensures
        takes(step, stream, Asked::Refused(ErrorCode::Server, e.text())),
{
    let text: String = e.message();
    Step::Reply(error_frame(stream, ErrorCode::Server, text.as_str()))
}

/// The answer to a request for a session that is not there.
fn no_session(stream: i16, id: u64) -> (step: Step)
    ensures
        takes(step, stream, unknown_session(id)),
{
    let text: String = both("unknown session id ", decimal_text(id).as_str());
    Step::Reply(error_frame(stream, ErrorCode::Protocol, text.as_str()))
}

/// What a CREATE_SESSION request asks for.
fn handle_create_session(frame: &Frame) -> (step: Step)
    ensures
        takes(
            step,
            frame.header.stream,
            asked(Opcode::CreateSession, contents(frame.body), Set::empty()),
        ),
{
    let mut slice: &[u8] = bytes_slice(&frame.body);
    match read_string_map(&mut slice) {
        Err(e) => {
            let text: String = params_message(bytes_slice(&frame.body), e);
            Step::Reply(error_frame(frame.header.stream, ErrorCode::Server, text.as_str()))
        },
        Ok(params) => if slice.len() > 0 {
            Step::Reply(
                error_frame(
                    frame.header.stream,
                    ErrorCode::Server,
                    "unexpected trailing bytes after session params",
                ),
            )
        } else {
            Step::CreateSession(params)
        },
    }
}

/// What a QUERY request asks for.
fn handle_query(frame: &Frame, sessions: &SessionRegistry) -> (step: Step)
    ensures
        takes(
            step,
            frame.header.stream,
            asked(Opcode::Query, contents(frame.body), sessions@.dom()),
        ),
{
    match parse_query_frame(frame) {
        Err(e) => refuse(frame.header.stream, e),
        Ok(parsed) => if sessions.get(parsed.session_id).is_some() {
            Step::Query(parsed)
        } else {
            no_session(frame.header.stream, parsed.session_id)
        },
    }
}

/// What a PREPARE request asks for.
fn handle_prepare(frame: &Frame, sessions: &SessionRegistry) -> (step: Step)
    ensures
        takes(
            step,
            frame.header.stream,
            asked(Opcode::Prepare, contents(frame.body), sessions@.dom()),
        ),
{
    match parse_prepare_frame(frame) {
        Err(e) => refuse(frame.header.stream, e),
        Ok(parsed) => if sessions.get(parsed.session_id).is_some() {
            Step::Prepare(parsed)
        } else {
            no_session(frame.header.stream, parsed.session_id)
        },
    }
}

/// What an EXECUTE request asks for.
fn handle_execute(frame: &Frame, sessions: &SessionRegistry) -> (step: Step)
    ensures
        takes(
            step,
            frame.header.stream,
            asked(Opcode::Execute, contents(frame.body), sessions@.dom()),
        ),
{
    match parse_execute_frame(frame) {
        Err(e) => refuse(frame.header.stream, e),
        Ok(parsed) => if sessions.get(parsed.session_id).is_some() {
            Step::Execute(parsed)
        } else {
            no_session(frame.header.stream, parsed.session_id)
        },
    }
}

/// What a BATCH request asks for.
fn handle_batch(frame: &Frame, sessions: &SessionRegistry) -> (step: Step)
    ensures
        takes(
            step,
            frame.header.stream,
            asked(Opcode::Batch, contents(frame.body), sessions@.dom()),
        ),
{
    match parse_batch_frame(frame) {
        Err(e) => refuse(frame.header.stream, e),
        Ok(parsed) => if sessions.get(parsed.session_id).is_some() {
            Step::Batch(parsed)
        } else {
            no_session(frame.header.stream, parsed.session_id)
        },
    }
}

/// Decides what is done with a request.
pub fn dispatch(frame: &Frame, sessions: &SessionRegistry) -> (step: Step)
    ensures
        takes(
            step,
            frame.header.stream,
            asked(frame.header.opcode, contents(frame.body), sessions@.dom()),
        ),
{
    match frame.header.opcode {
        Opcode::CreateSession => handle_create_session(frame),
        Opcode::Query => handle_query(frame, sessions),
        Opcode::Prepare => handle_prepare(frame, sessions),
        Opcode::Execute => handle_execute(frame, sessions),
        Opcode::Batch => handle_batch(frame, sessions),
        other => {
            let text: String = both("unsupported opcode ", other.name());
            Step::Reply(error_frame(frame.header.stream, ErrorCode::Protocol, text.as_str()))
        },
    }
}

/// A latency in nanoseconds, at most what 64 bits hold.
pub open spec fn saturated(nanos: u128) -> u64 {
    if nanos > u64::MAX {
        u64::MAX
    } else {
        nanos as u64
    }
}

/// Appends the driver's latency in nanoseconds, in eight bytes, to the body of a frame.
pub fn append_latency_to_frame(frame: Frame, latency_ns: u128) -> (r: Frame)
    ensures
        contents(r.body) == contents(frame.body) + be8(saturated(latency_ns) as int),
        r.header == (FrameHeader {
            body_length: ((contents(frame.body).len() + 8) % 0x1_0000_0000) as u32,
            ..frame.header
        }),
{
    let nanos: u64 = if latency_ns > 0xFFFF_FFFF_FFFF_FFFF {
        0xFFFF_FFFF_FFFF_FFFF
    } else {
        latency_ns as u64
    };
    let mut body: BytesMut = new_buffer();
    put_slice(&mut body, bytes_slice(&frame.body));
    put_u64(&mut body, nanos);
    assert(mut_contents(body) =~= contents(frame.body) + be8(nanos as int));
    let body_length: u32 = low_u32(mut_len(&body));
    Frame {
        header: FrameHeader {
            version: frame.header.version,
            flags: frame.header.flags,
            stream: frame.header.stream,
            opcode: frame.header.opcode,
            body_length,
        },
        body: freeze(body),
    }
}

/// A SESSION_CREATED frame.
pub fn session_created_frame(stream: i16, session_id: u64) -> (frame: Frame)
    ensures
        is_response(frame, stream, Opcode::SessionCreated, be8(session_id as int)),
{
    let mut body: BytesMut = new_buffer();
    put_u64(&mut body, session_id);
    assert(mut_contents(body) =~= be8(session_id as int));
    response_frame(stream, Opcode::SessionCreated, body)
}

/// How long the adapter tries to reach its host, in milliseconds.
pub const CONNECT_DEADLINE_MS: u64 = 30_000;

/// How long the adapter waits between two tries, in milliseconds.
pub const CONNECT_PAUSE_MS: u64 = 100;

/// What is done after a try to reach the host has failed.
#[derive(Debug, Clone, Copy, PartialEq, Eq, Structural)]
pub enum Retry {
    /// It is tried again after this many milliseconds.
    After(u64),
    /// Nobody is there.
    GiveUp,
}

/// Decides what is done after a try to reach the host has failed, by the
/// milliseconds since the first one.
pub fn after_refused(elapsed_ms: u64) -> (r: Retry)
    ensures
        r == (if elapsed_ms >= CONNECT_DEADLINE_MS {
            Retry::GiveUp
        } else {
            Retry::After(CONNECT_PAUSE_MS)
        }),
{
    if elapsed_ms >= CONNECT_DEADLINE_MS {
        Retry::GiveUp
    } else {
        Retry::After(CONNECT_PAUSE_MS)
    }
}

/// What a request came to.
pub enum Done {
    /// A session was created.
    Created(u64),
    /// There is an answer without a latency.
    Answer(Frame),
    /// There is an answer, which took the driver this many nanoseconds.
    Timed(Frame, u128),
    /// The statement with this key is not prepared; the driver was not asked.
    Unprepared(String),
    /// It failed, and this is said of it.
    Failed(String),
}

/// A frame has the body of another one with a latency behind it, and its header but for the length.
pub open spec fn is_timed(r: Frame, frame: Frame, nanos: u128) -> bool {
    &&& contents(r.body) == contents(frame.body) + be8(saturated(nanos) as int)
    &&& r.header == (FrameHeader {
        body_length: ((contents(frame.body).len() + 8) % 0x1_0000_0000) as u32,
        ..frame.header
    })
}

/// The body of the answer for a statement that is not prepared: what is said of it, and a latency of nothing.
pub open spec fn unprepared_body(key: Seq<char>) -> Seq<u8> {
    error_body(ErrorCode::Unprepared, unprepared_text(key)) + be8(0)
}

/// The frame that a request is answered with.
pub fn respond(stream: i16, done: Done) -> (frame: Frame)
    ensures
        match done {
            Done::Created(id) => is_response(
                frame,
                stream,
                Opcode::SessionCreated,
                be8(id as int),
            ),
            Done::Answer(answer) => frame == answer,
            Done::Timed(answer, nanos) => is_timed(frame, answer, nanos),
            Done::Unprepared(key) => is_response(
                frame,
                stream,
                Opcode::Error,
                unprepared_body(key@),
            ),
            Done::Failed(text) => is_response(
                frame,
                stream,
                Opcode::Error,
                error_body(ErrorCode::Server, text@),
            ),
        },
{
    match done {
        Done::Created(id) => session_created_frame(stream, id),
        Done::Answer(answer) => answer,
        Done::Timed(answer, nanos) => append_latency_to_frame(answer, nanos),
        Done::Unprepared(key) => append_latency_to_frame(unprepared_frame(stream, key.as_str()), 0),
        Done::Failed(text) => error_frame(stream, ErrorCode::Server, text.as_str()),
    }
}

/// What a request comes to whose values cannot be bound.
pub fn unbound(e: BindError) -> (done: Done)
    ensures
        match e@ {
            BindFailure::Unprepared(key) => done matches Done::Unprepared(k) && k@ == key,
            BindFailure::Value(e, detail) => done matches Done::Failed(text) && text@ == codec_text(
                e,
            ) + detail,
        },
{
    match e {
        BindError::Unprepared(key) => Done::Unprepared(key),
        BindError::Value(e, detail) => Done::Failed(
            both(codec_message(e).as_str(), detail.as_str()),
        ),
    }
}

/// What is said of a statement that could not be executed.
pub open spec fn execute_text(key: Seq<char>, values: nat) -> Seq<char> {
    "execute failed for statement '"@ + key + ("' with "@ + decimal(values) + " values"@)
}

/// What is said of a statement that could not be executed.
pub fn execute_message(key: &str, values: usize) -> (text: String)
    ensures
        text@ == execute_text(key@, values as nat),
{
    let tail: String = joined("' with ", decimal_text(values as u64).as_str(), " values");
    joined("execute failed for statement '", key, tail.as_str())
}

/// The client reads what is said in an ERROR frame, with or without a latency
/// behind it, unless it is too long for the 16 bits of its length.
pub proof fn law_refusal_is_read(code: ErrorCode, text: Seq<char>, latency: Seq<u8>)
    requires
        encode_utf8(text).len() <= 0xFFFF,
    ensures
        error_message_spec(error_body(code, text) + latency) == text,
{
    let bytes = encode_utf8(text);
    let body = error_body(code, text) + latency;
    lemma_be2(bytes.len() as int, bytes + latency);
    assert(body.skip(4) =~= be2(bytes.len() as int) + (bytes + latency));
    assert(body.subrange(6, (6 + bytes.len()) as int) =~= bytes);
    lemma_utf8_round_trip(text);
}

/// The client reads the latency of a timed reply behind the reply itself: the
/// time that was taken, or the longest that fits.
pub proof fn law_timed_reply_is_read(r: Frame, frame: Frame, nanos: u128)
    requires
        is_timed(r, frame, nanos),
        contents(frame.body).len() >= 4,
    ensures
        split_latency(contents(r.body)).0 == contents(frame.body),
        split_latency(contents(r.body)).1 matches Some(n) && n <= nanos && (n == nanos || n
            == u64::MAX),
        r.header.opcode == frame.header.opcode,
        r.header.stream == frame.header.stream,
        r.header.flags == frame.header.flags,
        r.header.version == frame.header.version,
        contents(frame.body).len() + 8 <= u32::MAX ==> r.header.body_length == contents(
            r.body,
        ).len(),
{
    law_latency_round_trip(contents(frame.body), saturated(nanos));
}

/// What is asked of a session is done for a session that is there, and
/// whatever names another is refused; nothing but requests is served.
pub proof fn law_only_known_sessions_are_served(opcode: Opcode, body: Seq<u8>, sessions: Set<u64>)
    ensures
        match asked(opcode, body, sessions) {
            Asked::CreateSession(_) => opcode == Opcode::CreateSession,
            Asked::Query(req) => opcode == Opcode::Query && sessions.contains(req.session_id),
            Asked::Prepare(req) => opcode == Opcode::Prepare && sessions.contains(req.session_id),
            Asked::Execute(req) => opcode == Opcode::Execute && sessions.contains(req.session_id),
            Asked::Batch(req) => opcode == Opcode::Batch && sessions.contains(req.session_id),
            Asked::Refused(code, text) => code == ErrorCode::Protocol || code == ErrorCode::Server,
        },
        opcode != Opcode::CreateSession ==> (asked(opcode, body, Set::empty()) is Refused),
        !(opcode == Opcode::CreateSession || opcode == Opcode::Query || opcode == Opcode::Prepare
            || opcode == Opcode::Execute || opcode == Opcode::Batch) ==> asked(
            opcode,
            body,
            sessions,
        ) == Asked::Refused(ErrorCode::Protocol, "unsupported opcode "@ + opcode.label()),
        opcode == Opcode::CreateSession ==> asked(opcode, body, sessions) == asked(
            opcode,
            body,
            Set::empty(),
        ),
{
}

} // verus!
