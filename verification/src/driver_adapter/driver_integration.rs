//! A handle on the adapter: what it sends, and what it makes of the replies.

use super::protocol::{Frame, Opcode};
use crate::error::{after, lemma_after, wrote, Coded, CodecError, Limit};
use crate::ipc::client::{
    built, decode_prepared, prepare_body, query_body, short_string, write_string, ReplyError,
};
use crate::ipc::encode::{encode_stripped, tail};
use crate::ipc::protocol::error_message_spec;
use crate::ipc::types::{put_setting, with_setting};
use crate::string_map::StringMap;
use crate::text::{join, join_texts, lemma_texts_push, opt_text, texts};
use crate::value::{vals, Consistency, CqlValue, Val};
use crate::wire::{
    be2, be8, bytes_slice, contents, mut_contents, new_buffer, put_u16, put_u64, put_u8,
    read_be8, un8,
};
use bytes::BytesMut;
use vstd::prelude::*;
use vstd::string::*;
use vstd::utf8::encode_utf8;

verus! {

broadcast use crate::wire::group_be;

/// Collects the parameters of a session.
#[derive(Debug)]
pub struct DriverSessionBuilder {
    contact_points: Vec<String>,
    keyspace: Option<String>,
    username: Option<String>,
    password: Option<String>,
    extra: StringMap,
}

impl DriverSessionBuilder {
    /// The contact points.
    pub closed spec fn points(self) -> Seq<Seq<char>> {
        texts(self.contact_points@)
    }

    /// The keyspace.
    pub closed spec fn space(self) -> Option<Seq<char>> {
        opt_text(self.keyspace)
    }

    /// The user name and the password.
    pub closed spec fn login(self) -> Option<(Seq<char>, Seq<char>)> {
        match (self.username, self.password) {
            (Some(user), Some(password)) => Some((user@, password@)),
            _ => None,
        }
    }

    /// Further parameters.
    pub closed spec fn others(self) -> Map<Seq<char>, Seq<char>> {
        self.extra@
    }

    /// No parameters.
    pub fn new() -> (builder: DriverSessionBuilder)
        ensures
            builder.points() == Seq::<Seq<char>>::empty(),
            builder.space() is None,
            builder.login() is None,
            builder.others() == Map::<Seq<char>, Seq<char>>::empty(),
    {
        let builder: DriverSessionBuilder = DriverSessionBuilder {
            contact_points: Vec::new(),
            keyspace: None,
            username: None,
            password: None,
            extra: StringMap::new(),
        };
        assert(builder.points() =~= Seq::empty());
        builder
    }

    /// Adds a contact point.
    pub fn known_node(self, node: String) -> (builder: DriverSessionBuilder)
        ensures
            builder.points() == self.points().push(node@),
            builder.space() == self.space(),
            builder.login() == self.login(),
            builder.others() == self.others(),
    {
        let mut builder: DriverSessionBuilder = self;
        proof {
            lemma_texts_push(builder.contact_points@, node);
        }
        builder.contact_points.push(node);
        builder
    }

    /// Adds contact points.
    pub fn known_nodes(self, nodes: Vec<String>) -> (builder: DriverSessionBuilder)
        ensures
            builder.points() == self.points() + texts(nodes@),
            builder.space() == self.space(),
            builder.login() == self.login(),
            builder.others() == self.others(),
    {
        let mut builder: DriverSessionBuilder = self;
        let mut nodes: Vec<String> = nodes;
        let ghost added = nodes@;
        builder.contact_points.append(&mut nodes);
        assert(builder.points() =~= self.points() + texts(added));
        builder
    }

    /// Sets the keyspace.
    pub fn use_keyspace(self, keyspace: String, _case_sensitive: bool) -> (builder:
        DriverSessionBuilder)
        ensures
            builder.space() == Some(keyspace@),
            builder.points() == self.points(),
            builder.login() == self.login(),
            builder.others() == self.others(),
    {
        let mut builder: DriverSessionBuilder = self;
        builder.keyspace = Some(keyspace);
        builder
    }

    /// Sets the user name and the password.
    pub fn user(self, username: String, password: String) -> (builder: DriverSessionBuilder)
        ensures
            builder.login() == Some((username@, password@)),
            builder.points() == self.points(),
            builder.space() == self.space(),
            builder.others() == self.others(),
    {
        let mut builder: DriverSessionBuilder = self;
        builder.username = Some(username);
        builder.password = Some(password);
        builder
    }

    /// Sets a further parameter.
    pub fn with_param(self, key: String, value: String) -> (builder: DriverSessionBuilder)
        ensures
            builder.others() == self.others().insert(key@, value@),
            builder.points() == self.points(),
            builder.space() == self.space(),
            builder.login() == self.login(),
    {
        let mut builder: DriverSessionBuilder = self;
        let mut extra: StringMap = builder.extra;
        extra.insert(key, value);
        builder.extra = extra;
        builder
    }

    /// The parameters of the session: the further ones, and over them the
    /// contact points, the keyspace and the credentials.
    pub open spec fn params(self) -> Map<Seq<char>, Seq<char>> {
        let m = if self.points().len() == 0 {
            self.others()
        } else {
            self.others().insert("contact_points"@, join(self.points(), ","@))
        };
        let m = with_setting(m, "keyspace"@, self.space());
        match self.login() {
            Some((user, password)) => m.insert("username"@, user).insert("password"@, password),
            None => m,
        }
    }

    /// The parameters of the session.
    pub fn into_params(self) -> (map: StringMap)
        ensures
            map@ == self.params(),
    {
        let mut map: StringMap = self.extra;
        if self.contact_points.len() > 0 {
            map.insert("contact_points".to_owned(), join_texts(&self.contact_points, ","));
        }
        put_setting(&mut map, "keyspace", self.keyspace);
        if let (Some(user), Some(password)) = (self.username, self.password) {
            map.insert("username".to_owned(), user);
            map.insert("password".to_owned(), password);
        }
        map
    }
}

/// Encodes the body of a QUERY request. The query must fit a 32-bit length.
pub fn encode_query_body(session_id: u64, query: &str, consistency: Consistency) -> (body: BytesMut)
    requires
        encode_utf8(query@).len() <= i32::MAX,
    ensures
        mut_contents(body) == query_body(session_id, query@, consistency),
{
    crate::ipc::client::encode_query_body(session_id, query, consistency)
}

/// Encodes the body of a PREPARE request. The query must fit a 32-bit length, and the key one of 16 bits.
pub fn encode_prepare_body(session_id: u64, query: &str, statement_key: &str) -> (body: BytesMut)
    requires
        encode_utf8(query@).len() <= i32::MAX,
        encode_utf8(statement_key@).len() <= 0xFFFF,
    ensures
        prepare_body(session_id, query@, statement_key@) == Coded::Ok(mut_contents(body)),
{
    crate::ipc::client::encode_prepare_body(session_id, query, statement_key)
}

/// What is sent for a value without a type code. Collections and numbers of
/// arbitrary size are not sent.
pub open spec fn plain_bytes(v: Val) -> Coded {
    match v {
        Val::List(_) | Val::SetOf(_) | Val::MapOf(_) | Val::Tuple(_) | Val::Udt(_, _, _)
        | Val::Vector(_) | Val::Decimal(_, _) | Val::Varint(_) | Val::Duration(_) => Err(
            CodecError::Unsupported,
        ),
        _ => tail(v),
    }
}

/// Appends a value without a type code.
pub fn encode_value(value: &CqlValue, buf: &mut BytesMut) -> (r: Result<(), CodecError>)
    ensures
        wrote(plain_bytes(value@), r, mut_contents(*old(buf)), mut_contents(*final(buf))),
{
    match value {
        CqlValue::List(_) | CqlValue::SetOf(_) | CqlValue::MapOf(_) | CqlValue::Tuple(_)
        | CqlValue::UserDefinedType { .. } | CqlValue::Vector(_) | CqlValue::Decimal { .. }
        | CqlValue::Varint(_) | CqlValue::Duration(_) => Err(CodecError::Unsupported),
        _ => encode_stripped(value, buf),
    }
}

/// What is sent for values without type codes.
pub open spec fn all_plain(values: Seq<Val>) -> Coded
    decreases values.len(),
{
    if values.len() == 0 {
        Ok(Seq::empty())
    } else {
        match plain_bytes(values[0]) {
            Ok(bytes) => after(bytes, all_plain(values.skip(1))),
            Err(e) => Err(e),
        }
    }
}

/// Values without type codes behind their number.
pub open spec fn plain_values(values: Seq<Val>) -> Coded {
    if values.len() > 0xFFFF {
        Err(CodecError::TooLong(Limit::Values))
    } else {
        after(be2(values.len() as int), all_plain(values))
    }
}

/// Appends values without type codes behind their number.
pub fn encode_values(values: &[CqlValue], buf: &mut BytesMut) -> (r: Result<(), CodecError>)
    ensures
        wrote(plain_values(vals(values@)), r, mut_contents(*old(buf)), mut_contents(*final(buf))),
{
    let ghost s = vals(values@);
    let ghost start = mut_contents(*buf);
    let count: usize = values.len();
    if count > 0xFFFF {
        return Err(CodecError::TooLong(Limit::Values));
    }
    put_u16(buf, count as u16);
    let ghost mut done = Seq::<u8>::empty();
    let mut i: usize = 0;
    assert(s.skip(0) =~= s);
    proof {
        lemma_after(done, Seq::empty(), all_plain(s));
    }
    while i < count
        invariant
            i <= count,
            count == values@.len(),
            count <= 0xFFFF,
            s == vals(values@),
            start == mut_contents(*old(buf)),
            mut_contents(*buf) =~= start + be2(count as int) + done,
            all_plain(s) == after(done, all_plain(s.skip(i as int))),
        decreases count - i,
    {
        let ghost rest = s.skip(i as int);
        assert(rest[0] == values@[i as int]@);
        assert(rest.skip(1) =~= s.skip(i + 1));
        if let Err(e) = encode_value(&values[i], buf) {
            return Err(e);
        }
        proof {
            let more = plain_bytes(rest[0])->Ok_0;
            lemma_after(done, more, all_plain(s.skip(i + 1)));
            done = done + more;
        }
        i = i + 1;
    }
    assert(s.skip(i as int) =~= Seq::empty());
    proof {
        lemma_after(done, Seq::empty(), all_plain(s));
        assert(mut_contents(*buf) =~= start + (be2(count as int) + done));
    }
    Ok(())
}

/// The body of an EXECUTE request with values without type codes.
pub open spec fn plain_execute_body(
    session: u64,
    key: Seq<char>,
    consistency: Consistency,
    values: Seq<Val>,
) -> Coded {
    match short_string(key) {
        Err(e) => Err(e),
        Ok(key) => {
            let head = be8(session as int) + key + be2(consistency.code() as int);
            if values.len() == 0 {
                Ok(head + seq![0u8])
            } else {
                after(head + seq![1u8], plain_values(values))
            }
        },
    }
}

/// Encodes the body of an EXECUTE request.
pub fn encode_execute_body(
    session_id: u64,
    statement_key: &str,
    consistency: Consistency,
    values: &[CqlValue],
) -> (r: Result<BytesMut, CodecError>)
    ensures
        built(plain_execute_body(session_id, statement_key@, consistency, vals(values@)), r),
{
    let mut body: BytesMut = new_buffer();
    put_u64(&mut body, session_id);
    if let Err(e) = write_string(statement_key, &mut body) {
        return Err(e);
    }
    put_u16(&mut body, consistency.as_u16());
    if values.len() == 0 {
        put_u8(&mut body, 0);
    } else {
        put_u8(&mut body, 1);
        let ghost head = mut_contents(body);
        assert(head =~= be8(session_id as int) + short_string(statement_key@)->Ok_0 + be2(
            consistency.code() as int,
        ) + seq![1u8]);
        if let Err(e) = encode_values(values, &mut body) {
            return Err(e);
        }
    }
    assert(mut_contents(body) =~= plain_execute_body(
        session_id,
        statement_key@,
        consistency,
        vals(values@),
    )->Ok_0);
    Ok(body)
}

/// Reads the reply to a CREATE_SESSION request: the id of the new session, in exactly eight bytes.
pub fn decode_created(frame: &Frame) -> (r: Result<u64, ReplyError>)
    ensures
        if frame.header.opcode != Opcode::SessionCreated {
            r matches Err(ReplyError::UnexpectedOpcode(o)) && o == frame.header.opcode
        } else if contents(frame.body).len() != 8 {
            r matches Err(ReplyError::BodyLength(n)) && n == contents(frame.body).len()
        } else {
            r matches Ok(id) && id == un8(contents(frame.body))
        },
{
    if frame.header.opcode != Opcode::SessionCreated {
        return Err(ReplyError::UnexpectedOpcode(frame.header.opcode));
    }
    let body: &[u8] = bytes_slice(&frame.body);
    if body.len() != 8 {
        return Err(ReplyError::BodyLength(body.len()));
    }
    Ok(read_be8(body))
}

/// Reads the reply to a PREPARE or EXECUTE request: any frame but an ERROR is handed on.
pub fn check_reply(frame: Frame) -> (r: Result<Frame, ReplyError>)
    ensures
        match frame.header.opcode {
            Opcode::Error => r matches Err(ReplyError::Failed(message)) && message@
                == error_message_spec(contents(frame.body)),
            _ => r matches Ok(same) && same == frame,
        },
{
    match decode_prepared(&frame) {
        Ok(_) => Ok(frame),
        Err(e) => Err(e),
    }
}

} // verus!
