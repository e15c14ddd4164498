//! Which bytes the adapter and its clients take for requests and attributes.

use super::protocol::{ErrorCode, Opcode};
use super::session::{long_string_at, pairs_at, prepare_of, query_of};
use crate::cql_adapter::server::{asked, Asked};
use crate::error::{Coded, CodecError, Part};
use crate::ipc::alternator_codec::{attr_at, blob_at, blob_bytes, text_at, u16_at, u32_at, u8_at};
use crate::ipc::attribute::Attr;
use crate::ipc::client::{long_string, map_strings, prepare_body, short_string};
use crate::number::{decimal, is_digit, law_decimal_spells_number, unsigned_of};
use crate::reader::{law_numbers_are_read_whole, law_text_is_read_whole, string_at, At};
use crate::text::utf8_lossy;
use crate::value::Consistency;
use crate::wire::{be2, be4, be8, lemma_un};
use vstd::prelude::*;
use vstd::utf8::encode_utf8;

verus! {

broadcast use crate::wire::group_be;

/// A long text is read only where all its bytes are there.
pub proof fn law_long_text_is_read_whole(s: Seq<u8>)
    ensures
        long_string_at(s) matches Ok((t, rest)) ==> encode_utf8(t).len() <= 0x7FFF_FFFF && s
            == long_string(t) + rest,
{
    law_numbers_are_read_whole(s);
    if let Ok((t, rest)) = long_string_at(s) {
        let n = crate::reader::int_at(s)->Ok_0.0;
        let data = s.skip(4).take(n as int);
        vstd::utf8::decode_utf8_encode_utf8(data);
        assert(s =~= be4(n as int) + data + rest);
    }
}

/// A QUERY request is taken only where all of it is there: the session, the
/// text, a level and no flags.
pub proof fn law_query_is_read_whole(body: Seq<u8>)
    ensures
        query_of(body) matches Ok(req) ==> exists|level: u16, more: Seq<u8>|
            body == #[trigger] (be8(req.session_id as int) + long_string(req.query) + be2(
                level as int,
            ) + seq![0u8] + more) && req.consistency == Consistency::of_code(level),
{
    if let Ok(req) = query_of(body) {
        law_numbers_are_read_whole(body);
        let s1 = body.skip(8);
        law_long_text_is_read_whole(s1);
        let s2 = long_string_at(s1)->Ok_0.1;
        law_numbers_are_read_whole(s2);
        let (level, s3) = crate::reader::short_at(s2)->Ok_0;
        let more = s3.skip(1);
        assert(s3 =~= seq![0u8] + more);
        assert(body =~= be8(req.session_id as int) + long_string(req.query) + be2(level as int)
            + seq![0u8] + more);
    }
}

/// A PREPARE request is taken only where all of it is there: then it is the
/// one that a client sends for it, with or without bytes behind it.
pub proof fn law_prepare_is_read_whole(body: Seq<u8>)
    ensures
        prepare_of(body) matches Ok(req) ==> (prepare_body(
            req.session_id,
            req.query,
            req.statement_key,
        ) matches Ok(sent) && exists|more: Seq<u8>| body == #[trigger] (sent + more)),
{
    if let Ok(req) = prepare_of(body) {
        law_numbers_are_read_whole(body);
        let s1 = body.skip(8);
        law_long_text_is_read_whole(s1);
        let s2 = long_string_at(s1)->Ok_0.1;
        law_text_is_read_whole(s2);
        let more = string_at(s2)->Ok_0.1;
        let sent = prepare_body(req.session_id, req.query, req.statement_key)->Ok_0;
        assert(body =~= sent + more);
    }
}

/// A text is read only where it is as it is sent.
proof fn lemma_sent_text(s: Seq<u8>)
    ensures
        string_at(s) matches Ok((t, rest)) ==> (short_string(t) matches Ok(sent) && s == sent
            + rest),
{
    law_text_is_read_whole(s);
}

/// The first pair is sent, and then the others.
proof fn lemma_first_pair(key: Seq<char>, value: Seq<char>, more: Seq<(Seq<char>, Seq<char>)>)
    requires
        short_string(key) is Ok,
        short_string(value) is Ok,
        map_strings(more) is Ok,
    ensures
        map_strings(seq![(key, value)] + more) == Coded::Ok(
            short_string(key)->Ok_0 + short_string(value)->Ok_0 + map_strings(more)->Ok_0,
        ),
{
    let pairs = seq![(key, value)] + more;
    assert(pairs.skip(1) =~= more);
    assert(pairs[0] == (key, value));
}

/// Parts that stand one behind the other.
proof fn lemma_in_line(s: Seq<u8>, a: Seq<u8>, b: Seq<u8>, c: Seq<u8>, rest: Seq<u8>)
    requires
        s == a + (b + (c + rest)),
    ensures
        s == a + b + c + rest,
{
    assert(s =~= a + b + c + rest);
}

/// Pairs of texts are read only where all their bytes are there.
#[verifier::spinoff_prover]
#[verifier::rlimit(60)]
pub proof fn law_pairs_are_read_whole(s: Seq<u8>, n: nat)
    ensures
        pairs_at(s, n) matches Ok((pairs, rest)) ==> pairs.len() == n && (map_strings(
            pairs,
        ) matches Ok(sent) && s == sent + rest),
    decreases n,
{
    if n > 0 {
        lemma_sent_text(s);
        if let Ok((key, s1)) = string_at(s) {
            lemma_sent_text(s1);
            if let Ok((value, s2)) = string_at(s1) {
                law_pairs_are_read_whole(s2, (n - 1) as nat);
                if let Ok((more, rest)) = pairs_at(s2, (n - 1) as nat) {
                    lemma_first_pair(key, value, more);
                    lemma_in_line(
                        s,
                        short_string(key)->Ok_0,
                        short_string(value)->Ok_0,
                        map_strings(more)->Ok_0,
                        rest,
                    );
                    assert(pairs_at(s, n) == At::Ok((seq![(key, value)] + more, rest)));
                }
            }
        }
    } else {
        assert(Seq::<u8>::empty() + s =~= s);
    }
}

/// A request that names a session that is not there is refused, and the
/// refusal ends in the digits of its id.
pub proof fn law_unknown_session_is_named(body: Seq<u8>, sessions: Set<u64>)
    ensures
        query_of(body) matches Ok(req) ==> !sessions.contains(req.session_id) ==> refuses(
            asked(Opcode::Query, body, sessions),
            req.session_id,
        ),
        prepare_of(body) matches Ok(req) ==> !sessions.contains(req.session_id) ==> refuses(
            asked(Opcode::Prepare, body, sessions),
            req.session_id,
        ),
{
    if let Ok(req) = query_of(body) {
        lemma_named(req.session_id);
    }
    if let Ok(req) = prepare_of(body) {
        lemma_named(req.session_id);
    }
}

/// A refusal for a session that is not there.
pub open spec fn refuses(a: Asked, id: u64) -> bool {
    a matches Asked::Refused(code, text) && code == ErrorCode::Protocol && exists|
        digits: Seq<char>,
    |
        unsigned_of(digits, u64::MAX as int) == Some(id as int) && text
            == #[trigger] ("unknown session id "@ + digits)
}

/// The digits of an id spell it.
proof fn lemma_named(id: u64)
    ensures
        refuses(
            Asked::Refused(ErrorCode::Protocol, "unknown session id "@ + decimal(id as nat)),
            id,
        ),
{
    law_decimal_spells_number(id as nat);
    assert(is_digit(decimal(id as nat)[0]));
}

/// The numbers, byte strings and texts of attributes are read only where all
/// their bytes are there.
pub proof fn law_attribute_parts_are_read_whole(s: Seq<u8>, part: Part)
    ensures
        match u8_at(s) {
            Ok((n, rest)) => s == seq![n] + rest,
            Err(_) => s.len() == 0,
        },
        match u16_at(s) {
            Ok((n, rest)) => s == be2(n as int) + rest,
            Err(_) => s.len() < 2,
        },
        match u32_at(s) {
            Ok((n, rest)) => s == be4(n as int) + rest,
            Err(_) => s.len() < 4,
        },
        match blob_at(s, part) {
            Ok((b, rest)) => b.len() <= u32::MAX && s == blob_bytes(b) + rest,
            Err(_) => u32_at(s) matches Ok((n, rest)) ==> rest.len() < n,
        },
        match text_at(s) {
            Ok((t, rest)) => blob_at(s, part) matches Ok((b, left)) && left == rest && t
                == utf8_lossy(b),
            Err(_) => blob_at(s, part) is Err,
        },
{
    lemma_un(s);
    if s.len() > 0 {
        assert(s =~= seq![s[0]] + s.skip(1));
    }
    if let Ok((b, rest)) = blob_at(s, part) {
        assert(s =~= blob_bytes(b) + rest);
    }
}

/// An attribute with a code that is not known is a null that takes no bytes.
pub proof fn law_unknown_attribute_is_null(c: u8, rest: Seq<u8>)
    requires
        c == 0 || c > 0x09,
    ensures
        attr_at(seq![c] + rest) == Ok::<(Attr, Seq<u8>), CodecError>((Attr::Null(true), rest)),
{
    assert((seq![c] + rest).skip(1) =~= rest);
    assert((seq![c] + rest)[0] == c);
}

} // verus!
