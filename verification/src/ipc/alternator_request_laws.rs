//! What an adapter that reads the requests of an Alternator client finds in
//! them: each argument, and nothing else.

use super::alternator_client::{
    all_gets, all_keys, all_pairs, all_table_writes, all_writes, condition_bytes, flag, head,
    names_bytes, opt_key_bytes, opt_number_bytes, opt_text_bytes, pairs_bytes, table_get_bytes,
    table_write_bytes, values_bytes, write_bytes, BatchGetRequestItems, BatchWriteRequest,
};
use super::alternator_codec::{
    bool_at, item_at, item_bytes, key_at, key_bytes, text_at, text_bytes, u16_at, u32_at, u8_at,
};
use super::alternator_laws::{
    attrs_readable, countable, law_item_round_trip, law_key_round_trip, lemma_text, max_length,
};
use super::alternator_protocol::RequestOpcode;
use super::attribute::{attrs, items_of, Attrs};
use crate::reader::{long_at, At};
use crate::wire::{be2, be4, be8, lemma_be2, lemma_be4, lemma_be8};
use vstd::prelude::*;

verus! {

broadcast use crate::wire::group_be;

/// Names and what they stand for.
pub type Pairs = Seq<(Seq<char>, Seq<char>)>;

/// An optional text that can be read.
pub open spec fn opt_countable(t: Option<Seq<char>>) -> bool {
    t matches Some(t) ==> countable(t)
}

/// A key that can be read.
pub open spec fn key_readable(key: Attrs) -> bool {
    attrs_readable(key) && key.len() <= 0xFFFF
}

/// Pairs that can be read.
pub open spec fn pairs_readable(s: Pairs) -> bool {
    s.len() <= 0xFFFF && all_pairs_countable(s)
}

/// Pairs of texts whose lengths are counted.
pub open spec fn all_pairs_countable(s: Pairs) -> bool {
    forall|i: int| 0 <= i < s.len() ==> countable((#[trigger] s[i]).0) && countable(s[i].1)
}

/// Optional names that can be read.
pub open spec fn names_readable(names: Option<Pairs>) -> bool {
    names matches Some(s) ==> pairs_readable(s)
}

/// Optional values that can be read.
pub open spec fn values_readable(values: Option<Attrs>) -> bool {
    values matches Some(s) ==> key_readable(s)
}

/// What stands for names or values: nothing where none are given.
pub open spec fn given<T>(s: Option<Seq<T>>) -> Seq<T> {
    match s {
        Some(s) => s,
        None => Seq::empty(),
    }
}

/// An optional text at the front: a byte that says whether it is there, and the text.
pub open spec fn opt_text_at(s: Seq<u8>) -> At<Option<Seq<char>>> {
    match bool_at(s) {
        Err(e) => Err(e),
        Ok((false, rest)) => Ok((None, rest)),
        Ok((true, rest)) => match text_at(rest) {
            Err(e) => Err(e),
            Ok((t, rest)) => Ok((Some(t), rest)),
        },
    }
}

/// An optional number at the front: a byte that says whether it is there, and the number.
pub open spec fn opt_number_at(s: Seq<u8>) -> At<Option<u32>> {
    match bool_at(s) {
        Err(e) => Err(e),
        Ok((false, rest)) => Ok((None, rest)),
        Ok((true, rest)) => match u32_at(rest) {
            Err(e) => Err(e),
            Ok((n, rest)) => Ok((Some(n), rest)),
        },
    }
}

/// An optional key at the front.
pub open spec fn opt_key_at(s: Seq<u8>) -> At<Option<Attrs>> {
    match bool_at(s) {
        Err(e) => Err(e),
        Ok((false, rest)) => Ok((None, rest)),
        Ok((true, rest)) => match key_at(rest) {
            Err(e) => Err(e),
            Ok((k, rest)) => Ok((Some(k), rest)),
        },
    }
}

/// `n` pairs of texts at the front.
pub open spec fn some_pairs_at(s: Seq<u8>, n: nat) -> At<Pairs>
    decreases n,
{
    if n == 0 {
        Ok((Seq::empty(), s))
    } else {
        match text_at(s) {
            Err(e) => Err(e),
            Ok((name, s)) => match text_at(s) {
                Err(e) => Err(e),
                Ok((value, s)) => match some_pairs_at(s, (n - 1) as nat) {
                    Err(e) => Err(e),
                    Ok((more, s)) => Ok((seq![(name, value)] + more, s)),
                },
            },
        }
    }
}

/// Pairs of texts at the front, behind their number.
pub open spec fn pairs_at(s: Seq<u8>) -> At<Pairs> {
    match u16_at(s) {
        Err(e) => Err(e),
        Ok((n, s)) => some_pairs_at(s, n as nat),
    }
}

/// An optional condition at the front, with its names and values.
pub open spec fn condition_at(s: Seq<u8>) -> At<Option<(Seq<char>, Pairs, Attrs)>> {
    match bool_at(s) {
        Err(e) => Err(e),
        Ok((false, rest)) => Ok((None, rest)),
        Ok((true, rest)) => match text_at(rest) {
            Err(e) => Err(e),
            Ok((t, rest)) => match pairs_at(rest) {
                Err(e) => Err(e),
                Ok((names, rest)) => match key_at(rest) {
                    Err(e) => Err(e),
                    Ok((values, rest)) => Ok((Some((t, names, values)), rest)),
                },
            },
        },
    }
}

/// An optional text is found as it was given; one that is there never looks
/// like one that is not.
pub proof fn law_optional_text_is_found(t: Option<Seq<char>>, rest: Seq<u8>)
    requires
        opt_countable(t),
    ensures
        opt_text_at(opt_text_bytes(t) + rest) == At::<Option<Seq<char>>>::Ok((t, rest)),
{
    let s = opt_text_bytes(t) + rest;
    match t {
        None => {
            assert(s.skip(1) =~= rest);
        },
        Some(text) => {
            assert(s.skip(1) =~= text_bytes(text) + rest);
            lemma_text(text, rest);
        },
    }
}

/// An optional number is found as it was given; one that is there never looks
/// like one that is not.
pub proof fn law_optional_number_is_found(n: Option<u32>, rest: Seq<u8>)
    ensures
        opt_number_at(opt_number_bytes(n) + rest) == At::<Option<u32>>::Ok((n, rest)),
{
    let s = opt_number_bytes(n) + rest;
    match n {
        None => {
            assert(s.skip(1) =~= rest);
        },
        Some(number) => {
            assert(s.skip(1) =~= be4(number as int) + rest);
            lemma_be4(number as int, rest);
        },
    }
}

/// An optional key is found as it was given.
pub proof fn law_optional_key_is_found(key: Option<Attrs>, rest: Seq<u8>)
    requires
        values_readable(key),
    ensures
        opt_key_at(opt_key_bytes(key) + rest) == At::<Option<Attrs>>::Ok((key, rest)),
{
    let s = opt_key_bytes(key) + rest;
    match key {
        None => {
            assert(s.skip(1) =~= rest);
        },
        Some(k) => {
            assert(s.skip(1) =~= key_bytes(k) + rest);
            law_key_round_trip(k, rest);
        },
    }
}

/// A truth value is found as it was given.
proof fn lemma_flag(b: bool, rest: Seq<u8>)
    ensures
        bool_at(flag(b) + rest) == At::<bool>::Ok((b, rest)),
{
    assert((flag(b) + rest).skip(1) =~= rest);
}

/// Pairs are found one behind the other.
proof fn lemma_pairs(s: Pairs, rest: Seq<u8>)
    requires
        all_pairs_countable(s),
    ensures
        some_pairs_at(all_pairs(s) + rest, s.len()) == At::<Pairs>::Ok((s, rest)),
    decreases s.len(),
{
    if s.len() == 0 {
        assert(all_pairs(s) + rest =~= rest);
        assert(s =~= Seq::empty());
    } else {
        let more = s.skip(1);
        let tail = all_pairs(more) + rest;
        assert(all_pairs(s) + rest =~= text_bytes(s[0].0) + (text_bytes(s[0].1) + tail));
        lemma_text(s[0].0, text_bytes(s[0].1) + tail);
        lemma_text(s[0].1, tail);
        assert(forall|i: int| 0 <= i < more.len() ==> more[i] == s[i + 1]);
        lemma_pairs(more, rest);
        assert(seq![(s[0].0, s[0].1)] + more =~= s);
    }
}

/// Pairs of texts, such as the parameters of a session, are found as they were given.
pub proof fn law_pairs_are_found(s: Pairs, rest: Seq<u8>)
    requires
        pairs_readable(s),
    ensures
        pairs_at(pairs_bytes(s) + rest) == At::<Pairs>::Ok((s, rest)),
{
    let tail = all_pairs(s) + rest;
    assert(pairs_bytes(s) + rest =~= be2(s.len() as int) + tail);
    lemma_be2(s.len() as int, tail);
    lemma_pairs(s, rest);
}

/// Names are found as they were given; none where they were not.
pub proof fn law_names_are_found(names: Option<Pairs>, rest: Seq<u8>)
    requires
        names_readable(names),
    ensures
        pairs_at(names_bytes(names) + rest) == At::<Pairs>::Ok((given(names), rest)),
{
    match names {
        Some(s) => law_pairs_are_found(s, rest),
        None => {
            lemma_be2(0, rest);
        },
    }
}

/// Values are found as they were given; none where they were not.
pub proof fn law_values_are_found(values: Option<Attrs>, rest: Seq<u8>)
    requires
        values_readable(values),
    ensures
        key_at(values_bytes(values) + rest) == At::<Attrs>::Ok((given(values), rest)),
{
    match values {
        Some(s) => law_key_round_trip(s, rest),
        None => {
            let none: Attrs = Seq::empty();
            law_key_round_trip(none, rest);
            assert(key_bytes(none) =~= be2(0));
        },
    }
}

/// A condition is found as it was given, with its names and values.
pub proof fn law_condition_is_found(
    condition: Option<Seq<char>>,
    names: Option<Pairs>,
    values: Option<Attrs>,
    rest: Seq<u8>,
)
    requires
        opt_countable(condition),
        names_readable(names),
        values_readable(values),
    ensures
        condition_at(condition_bytes(condition, names, values) + rest) == At::<
            Option<(Seq<char>, Pairs, Attrs)>,
        >::Ok(
            (
                match condition {
                    Some(t) => Some((t, given(names), given(values))),
                    None => None,
                },
                rest,
            ),
        ),
{
    let s = condition_bytes(condition, names, values) + rest;
    match condition {
        None => {
            assert(s.skip(1) =~= rest);
        },
        Some(t) => {
            let s2 = values_bytes(values) + rest;
            let s1 = names_bytes(names) + s2;
            assert(s.skip(1) =~= text_bytes(t) + s1);
            lemma_text(t, s1);
            law_names_are_found(names, s2);
            law_values_are_found(values, rest);
        },
    }
}

/// The session and the table are found as they were given.
proof fn lemma_head(session: u64, table: Seq<char>, rest: Seq<u8>)
    requires
        countable(table),
    ensures
        long_at(head(session, table) + rest) == At::<u64>::Ok((session, text_bytes(table) + rest)),
        text_at(text_bytes(table) + rest) == At::<Seq<char>>::Ok((table, rest)),
{
    let tail = text_bytes(table) + rest;
    assert(head(session, table) + rest =~= be8(session as int) + tail);
    lemma_be8(session as int, tail);
    lemma_text(table, rest);
}

/// Three parts in a row.
proof fn lemma_in_a_row(a: Seq<u8>, b: Seq<u8>, c: Seq<u8>)
    ensures
        a + b + c == a + (b + c),
{
    assert(a + b + c =~= a + (b + c));
}

/// Eleven parts in a row.
proof fn lemma_eleven(
    a: Seq<u8>,
    b: Seq<u8>,
    c: Seq<u8>,
    d: Seq<u8>,
    e: Seq<u8>,
    f: Seq<u8>,
    g: Seq<u8>,
    h: Seq<u8>,
    i: Seq<u8>,
    j: Seq<u8>,
    k: Seq<u8>,
)
    ensures
        a + b + c + d + e + f + g + h + i + j + k == a + (b + (c + (d + (e + (f + (g + (h + (i + (j
            + (k + Seq::<u8>::empty())))))))))),
{
    let none = Seq::<u8>::empty();
    assert(k + none =~= k);
    let t9 = j + k;
    let t8 = i + t9;
    let t7 = h + t8;
    let t6 = g + t7;
    let t5 = f + t6;
    let t4 = e + t5;
    let t3 = d + t4;
    let t2 = c + t3;
    lemma_in_a_row(a + b + c + d + e + f + g + h + i, j, k);
    lemma_in_a_row(a + b + c + d + e + f + g + h, i, t9);
    lemma_in_a_row(a + b + c + d + e + f + g, h, t8);
    lemma_in_a_row(a + b + c + d + e + f, g, t7);
    lemma_in_a_row(a + b + c + d + e, f, t6);
    lemma_in_a_row(a + b + c + d, e, t5);
    lemma_in_a_row(a + b + c, d, t4);
    lemma_in_a_row(a + b, c, t3);
    lemma_in_a_row(a, b, t2);
}

/// What a GetItem request asks for.
pub struct Get {
    pub session: u64,
    pub table: Seq<char>,
    pub key: Attrs,
    pub consistent: bool,
    pub projection: Option<Seq<char>>,
    pub names: Pairs,
}

/// A GetItem request, read part by part to its end.
pub open spec fn get_in(s: Seq<u8>) -> Option<Get> {
    match long_at(s) {
        Err(_) => None,
        Ok((session, s)) => match text_at(s) {
            Err(_) => None,
            Ok((table, s)) => match key_at(s) {
                Err(_) => None,
                Ok((key, s)) => match bool_at(s) {
                    Err(_) => None,
                    Ok((consistent, s)) => match opt_text_at(s) {
                        Err(_) => None,
                        Ok((projection, s)) => match pairs_at(s) {
                            Ok((names, s)) => if s.len() == 0 {
                                Some(Get { session, table, key, consistent, projection, names })
                            } else {
                                None
                            },
                            Err(_) => None,
                        },
                    },
                },
            },
        },
    }
}

/// A GetItem request says what was asked for, and nothing else.
#[verifier::spinoff_prover]
#[verifier::rlimit(60)]
pub proof fn law_get_item_says_what_was_asked(
    session: u64,
    table: Seq<char>,
    key: Attrs,
    consistent: bool,
    projection: Option<Seq<char>>,
    names: Option<Pairs>,
)
    requires
        countable(table),
        key_readable(key),
        opt_countable(projection),
        names_readable(names),
    ensures
        get_in(
            head(session, table) + key_bytes(key) + flag(consistent) + opt_text_bytes(projection)
                + names_bytes(names),
        ) == Some(
            Get { session, table, key, consistent, projection, names: given(names) },
        ),
{
    let none = Seq::<u8>::empty();
    let s4 = names_bytes(names) + none;
    let s3 = opt_text_bytes(projection) + s4;
    let s2 = flag(consistent) + s3;
    let s1 = key_bytes(key) + s2;
    assert(head(session, table) + key_bytes(key) + flag(consistent) + opt_text_bytes(projection)
        + names_bytes(names) =~= head(session, table) + s1);
    lemma_head(session, table, s1);
    law_key_round_trip(key, s2);
    lemma_flag(consistent, s3);
    law_optional_text_is_found(projection, s4);
    law_names_are_found(names, none);
}

/// What a PutItem or a DeleteItem request asks for: the item or the key.
pub struct Change {
    pub session: u64,
    pub table: Seq<char>,
    pub row: Attrs,
    pub condition: Option<(Seq<char>, Pairs, Attrs)>,
    pub return_values: u8,
}

/// A PutItem request, or a DeleteItem request, which has a key, read part by part to its end.
pub open spec fn change_in(s: Seq<u8>, key: bool) -> Option<Change> {
    match long_at(s) {
        Err(_) => None,
        Ok((session, s)) => match text_at(s) {
            Err(_) => None,
            Ok((table, s)) => match if key {
                key_at(s)
            } else {
                item_at(s)
            } {
                Err(_) => None,
                Ok((row, s)) => match condition_at(s) {
                    Err(_) => None,
                    Ok((condition, s)) => if s.len() == 1 {
                        Some(Change { session, table, row, condition, return_values: s[0] })
                    } else {
                        None
                    },
                },
            },
        },
    }
}

/// A PutItem request says what was asked for, and nothing else.
#[verifier::spinoff_prover]
#[verifier::rlimit(60)]
pub proof fn law_put_item_says_what_was_asked(
    session: u64,
    table: Seq<char>,
    item: Attrs,
    condition: Option<Seq<char>>,
    names: Option<Pairs>,
    values: Option<Attrs>,
    return_values: u8,
)
    requires
        countable(table),
        attrs_readable(item),
        item.len() <= max_length(),
        opt_countable(condition),
        names_readable(names),
        values_readable(values),
    ensures
        change_in(
            head(session, table) + item_bytes(item) + condition_bytes(condition, names, values)
                + seq![return_values],
            false,
        ) == Some(
            Change {
                session,
                table,
                row: item,
                condition: match condition {
                    Some(t) => Some((t, given(names), given(values))),
                    None => None,
                },
                return_values,
            },
        ),
{
    let s3 = seq![return_values];
    let s2 = condition_bytes(condition, names, values) + s3;
    let s1 = item_bytes(item) + s2;
    assert(head(session, table) + item_bytes(item) + condition_bytes(condition, names, values)
        + seq![return_values] =~= head(session, table) + s1);
    lemma_head(session, table, s1);
    law_item_round_trip(item, s2);
    law_condition_is_found(condition, names, values, s3);
}

/// A DeleteItem request says what was asked for, and nothing else.
#[verifier::spinoff_prover]
#[verifier::rlimit(60)]
pub proof fn law_delete_item_says_what_was_asked(
    session: u64,
    table: Seq<char>,
    key: Attrs,
    condition: Option<Seq<char>>,
    names: Option<Pairs>,
    values: Option<Attrs>,
    return_values: u8,
)
    requires
        countable(table),
        key_readable(key),
        opt_countable(condition),
        names_readable(names),
        values_readable(values),
    ensures
        change_in(
            head(session, table) + key_bytes(key) + condition_bytes(condition, names, values)
                + seq![return_values],
            true,
        ) == Some(
            Change {
                session,
                table,
                row: key,
                condition: match condition {
                    Some(t) => Some((t, given(names), given(values))),
                    None => None,
                },
                return_values,
            },
        ),
{
    let s3 = seq![return_values];
    let s2 = condition_bytes(condition, names, values) + s3;
    let s1 = key_bytes(key) + s2;
    assert(head(session, table) + key_bytes(key) + condition_bytes(condition, names, values)
        + seq![return_values] =~= head(session, table) + s1);
    lemma_head(session, table, s1);
    law_key_round_trip(key, s2);
    law_condition_is_found(condition, names, values, s3);
}

/// What an UpdateItem request asks for.
pub struct Update {
    pub session: u64,
    pub table: Seq<char>,
    pub key: Attrs,
    pub update: Seq<char>,
    pub condition: Option<(Seq<char>, Pairs, Attrs)>,
    pub names: Pairs,
    pub values: Attrs,
    pub return_values: u8,
}

/// An UpdateItem request, read part by part to its end.
pub open spec fn update_in(s: Seq<u8>) -> Option<Update> {
    match long_at(s) {
        Err(_) => None,
        Ok((session, s)) => match text_at(s) {
            Err(_) => None,
            Ok((table, s)) => match key_at(s) {
                Err(_) => None,
                Ok((key, s)) => match text_at(s) {
                    Err(_) => None,
                    Ok((update, s)) => match condition_at(s) {
                        Err(_) => None,
                        Ok((condition, s)) => match pairs_at(s) {
                            Err(_) => None,
                            Ok((names, s)) => match key_at(s) {
                                Ok((values, s)) => if s.len() == 1 {
                                    Some(
                                        Update {
                                            session,
                                            table,
                                            key,
                                            update,
                                            condition,
                                            names,
                                            values,
                                            return_values: s[0],
                                        },
                                    )
                                } else {
                                    None
                                },
                                Err(_) => None,
                            },
                        },
                    },
                },
            },
        },
    }
}

/// An UpdateItem request says what was asked for, and nothing else.
#[verifier::spinoff_prover]
#[verifier::rlimit(60)]
pub proof fn law_update_item_says_what_was_asked(
    session: u64,
    table: Seq<char>,
    key: Attrs,
    update: Seq<char>,
    condition: Option<Seq<char>>,
    names: Option<Pairs>,
    values: Option<Attrs>,
    return_values: u8,
)
    requires
        countable(table),
        key_readable(key),
        countable(update),
        opt_countable(condition),
        names_readable(names),
        values_readable(values),
    ensures
        update_in(
            head(session, table) + key_bytes(key) + text_bytes(update) + condition_bytes(
                condition,
                names,
                values,
            ) + names_bytes(names) + values_bytes(values) + seq![return_values],
        ) == Some(
            Update {
                session,
                table,
                key,
                update,
                condition: match condition {
                    Some(t) => Some((t, given(names), given(values))),
                    None => None,
                },
                names: given(names),
                values: given(values),
                return_values,
            },
        ),
{
    let s6 = seq![return_values];
    let s5 = values_bytes(values) + s6;
    let s4 = names_bytes(names) + s5;
    let s3 = condition_bytes(condition, names, values) + s4;
    let s2 = text_bytes(update) + s3;
    let s1 = key_bytes(key) + s2;
    assert(head(session, table) + key_bytes(key) + text_bytes(update) + condition_bytes(
        condition,
        names,
        values,
    ) + names_bytes(names) + values_bytes(values) + seq![return_values] =~= head(session, table)
        + s1);
    lemma_head(session, table, s1);
    law_key_round_trip(key, s2);
    lemma_text(update, s3);
    law_condition_is_found(condition, names, values, s4);
    law_names_are_found(names, s5);
    law_values_are_found(values, s6);
}

/// What a Query request asks for.
pub struct Query {
    pub session: u64,
    pub table: Seq<char>,
    pub index: Option<Seq<char>>,
    pub key_condition: Seq<char>,
    pub filter: Option<Seq<char>>,
    pub projection: Option<Seq<char>>,
    pub names: Pairs,
    pub values: Attrs,
    pub limit: Option<u32>,
    pub consistent: bool,
    pub forward: bool,
    pub start: Option<Attrs>,
}

/// The end of a Query request: the limit, the two truth values and the key to start behind.
pub open spec fn query_end_in(s: Seq<u8>) -> Option<(Option<u32>, bool, bool, Option<Attrs>)> {
    match opt_number_at(s) {
        Err(_) => None,
        Ok((limit, s)) => match bool_at(s) {
            Err(_) => None,
            Ok((consistent, s)) => match bool_at(s) {
                Err(_) => None,
                Ok((forward, s)) => match opt_key_at(s) {
                    Ok((start, s)) => if s.len() == 0 {
                        Some((limit, consistent, forward, start))
                    } else {
                        None
                    },
                    Err(_) => None,
                },
            },
        },
    }
}

/// The filter and the projection of a query or a scan, and the names and
/// values that they speak of.
pub open spec fn filter_at(s: Seq<u8>) -> At<
    (Option<Seq<char>>, Option<Seq<char>>, Pairs, Attrs),
> {
    match opt_text_at(s) {
        Err(e) => Err(e),
        Ok((filter, s)) => match opt_text_at(s) {
            Err(e) => Err(e),
            Ok((projection, s)) => match pairs_at(s) {
                Err(e) => Err(e),
                Ok((names, s)) => match key_at(s) {
                    Err(e) => Err(e),
                    Ok((values, s)) => Ok(((filter, projection, names, values), s)),
                },
            },
        },
    }
}

/// A Query request, read part by part to its end.
pub open spec fn query_in(s: Seq<u8>) -> Option<Query> {
    match long_at(s) {
        Err(_) => None,
        Ok((session, s)) => match text_at(s) {
            Err(_) => None,
            Ok((table, s)) => match opt_text_at(s) {
                Err(_) => None,
                Ok((index, s)) => match text_at(s) {
                    Err(_) => None,
                    Ok((key_condition, s)) => match filter_at(s) {
                        Err(_) => None,
                        Ok(((filter, projection, names, values), s)) => match query_end_in(s) {
                            Some((limit, consistent, forward, start)) => Some(
                                Query {
                                    session,
                                    table,
                                    index,
                                    key_condition,
                                    filter,
                                    projection,
                                    names,
                                    values,
                                    limit,
                                    consistent,
                                    forward,
                                    start,
                                },
                            ),
                            None => None,
                        },
                    },
                },
            },
        },
    }
}

/// The filter and the projection are found as they were given.
proof fn lemma_filter(
    filter: Option<Seq<char>>,
    projection: Option<Seq<char>>,
    names: Option<Pairs>,
    values: Option<Attrs>,
    rest: Seq<u8>,
)
    requires
        opt_countable(filter),
        opt_countable(projection),
        names_readable(names),
        values_readable(values),
    ensures
        filter_at(
            opt_text_bytes(filter) + (opt_text_bytes(projection) + (names_bytes(names) + (
            values_bytes(values) + rest))),
        ) == At::<(Option<Seq<char>>, Option<Seq<char>>, Pairs, Attrs)>::Ok(
            ((filter, projection, given(names), given(values)), rest),
        ),
{
    let s3 = values_bytes(values) + rest;
    let s2 = names_bytes(names) + s3;
    let s1 = opt_text_bytes(projection) + s2;
    law_optional_text_is_found(filter, s1);
    law_optional_text_is_found(projection, s2);
    law_names_are_found(names, s3);
    law_values_are_found(values, rest);
}

/// A Query request says what was asked for, and nothing else.
#[verifier::spinoff_prover]
#[verifier::rlimit(80)]
pub proof fn law_query_says_what_was_asked(
    session: u64,
    table: Seq<char>,
    index: Option<Seq<char>>,
    key_condition: Seq<char>,
    filter: Option<Seq<char>>,
    projection: Option<Seq<char>>,
    names: Option<Pairs>,
    values: Option<Attrs>,
    limit: Option<u32>,
    consistent: bool,
    forward: bool,
    start: Option<Attrs>,
)
    requires
        countable(table),
        opt_countable(index),
        countable(key_condition),
        opt_countable(filter),
        opt_countable(projection),
        names_readable(names),
        values_readable(values),
        values_readable(start),
    ensures
        query_in(
            head(session, table) + opt_text_bytes(index) + text_bytes(key_condition)
                + opt_text_bytes(filter) + opt_text_bytes(projection) + names_bytes(names)
                + values_bytes(values) + opt_number_bytes(limit) + flag(consistent) + flag(forward)
                + opt_key_bytes(start),
        ) == Some(
            Query {
                session,
                table,
                index,
                key_condition,
                filter,
                projection,
                names: given(names),
                values: given(values),
                limit,
                consistent,
                forward,
                start,
            },
        ),
{
    let none = Seq::<u8>::empty();
    let s10 = opt_key_bytes(start) + none;
    let s9 = flag(forward) + s10;
    let s8 = flag(consistent) + s9;
    let s7 = opt_number_bytes(limit) + s8;
    let s3 = opt_text_bytes(filter) + (opt_text_bytes(projection) + (names_bytes(names) + (
    values_bytes(values) + s7)));
    let s2 = text_bytes(key_condition) + s3;
    let s1 = opt_text_bytes(index) + s2;
    lemma_eleven(
        head(session, table),
        opt_text_bytes(index),
        text_bytes(key_condition),
        opt_text_bytes(filter),
        opt_text_bytes(projection),
        names_bytes(names),
        values_bytes(values),
        opt_number_bytes(limit),
        flag(consistent),
        flag(forward),
        opt_key_bytes(start),
    );
    lemma_head(session, table, s1);
    law_optional_text_is_found(index, s2);
    lemma_text(key_condition, s3);
    lemma_filter(filter, projection, names, values, s7);
    lemma_query_end(limit, consistent, forward, start);
}

/// The end of a Query request is found as it was given.
proof fn lemma_query_end(
    limit: Option<u32>,
    consistent: bool,
    forward: bool,
    start: Option<Attrs>,
)
    requires
        values_readable(start),
    ensures
        query_end_in(
            opt_number_bytes(limit) + (flag(consistent) + (flag(forward) + (opt_key_bytes(start)
                + Seq::<u8>::empty()))),
        ) == Some((limit, consistent, forward, start)),
{
    let none = Seq::<u8>::empty();
    let s10 = opt_key_bytes(start) + none;
    let s9 = flag(forward) + s10;
    let s8 = flag(consistent) + s9;
    law_optional_number_is_found(limit, s8);
    lemma_flag(consistent, s9);
    lemma_flag(forward, s10);
    law_optional_key_is_found(start, none);
}

/// What a Scan request asks for.
pub struct Scan {
    pub session: u64,
    pub table: Seq<char>,
    pub index: Option<Seq<char>>,
    pub filter: Option<Seq<char>>,
    pub projection: Option<Seq<char>>,
    pub names: Pairs,
    pub values: Attrs,
    pub limit: Option<u32>,
    pub consistent: bool,
    pub segment: Option<u32>,
    pub segments: Option<u32>,
    pub start: Option<Attrs>,
}

/// The end of a Scan request: the limit, the consistency, the segments and
/// the key to start behind.
pub open spec fn scan_end_in(s: Seq<u8>) -> Option<
    (Option<u32>, bool, Option<u32>, Option<u32>, Option<Attrs>),
> {
    match opt_number_at(s) {
        Err(_) => None,
        Ok((limit, s)) => match bool_at(s) {
            Err(_) => None,
            Ok((consistent, s)) => match opt_number_at(s) {
                Err(_) => None,
                Ok((segment, s)) => match opt_number_at(s) {
                    Err(_) => None,
                    Ok((segments, s)) => match opt_key_at(s) {
                        Ok((start, s)) => if s.len() == 0 {
                            Some((limit, consistent, segment, segments, start))
                        } else {
                            None
                        },
                        Err(_) => None,
                    },
                },
            },
        },
    }
}

/// A Scan request, read part by part to its end.
pub open spec fn scan_in(s: Seq<u8>) -> Option<Scan> {
    match long_at(s) {
        Err(_) => None,
        Ok((session, s)) => match text_at(s) {
            Err(_) => None,
            Ok((table, s)) => match opt_text_at(s) {
                Err(_) => None,
                Ok((index, s)) => match filter_at(s) {
                    Err(_) => None,
                    Ok(((filter, projection, names, values), s)) => match scan_end_in(s) {
                        Some((limit, consistent, segment, segments, start)) => Some(
                            Scan {
                                session,
                                table,
                                index,
                                filter,
                                projection,
                                names,
                                values,
                                limit,
                                consistent,
                                segment,
                                segments,
                                start,
                            },
                        ),
                        None => None,
                    },
                },
            },
        },
    }
}

/// A Scan request says what was asked for, and nothing else.
#[verifier::spinoff_prover]
#[verifier::rlimit(80)]
pub proof fn law_scan_says_what_was_asked(
    session: u64,
    table: Seq<char>,
    index: Option<Seq<char>>,
    filter: Option<Seq<char>>,
    projection: Option<Seq<char>>,
    names: Option<Pairs>,
    values: Option<Attrs>,
    limit: Option<u32>,
    consistent: bool,
    segment: Option<u32>,
    segments: Option<u32>,
    start: Option<Attrs>,
)
    requires
        countable(table),
        opt_countable(index),
        opt_countable(filter),
        opt_countable(projection),
        names_readable(names),
        values_readable(values),
        values_readable(start),
    ensures
        scan_in(
            head(session, table) + opt_text_bytes(index) + opt_text_bytes(filter)
                + opt_text_bytes(projection) + names_bytes(names) + values_bytes(values)
                + opt_number_bytes(limit) + flag(consistent) + opt_number_bytes(segment)
                + opt_number_bytes(segments) + opt_key_bytes(start),
        ) == Some(
            Scan {
                session,
                table,
                index,
                filter,
                projection,
                names: given(names),
                values: given(values),
                limit,
                consistent,
                segment,
                segments,
                start,
            },
        ),
{
    let none = Seq::<u8>::empty();
    let s10 = opt_key_bytes(start) + none;
    let s9 = opt_number_bytes(segments) + s10;
    let s8 = opt_number_bytes(segment) + s9;
    let s7 = flag(consistent) + s8;
    let s6 = opt_number_bytes(limit) + s7;
    let s2 = opt_text_bytes(filter) + (opt_text_bytes(projection) + (names_bytes(names) + (
    values_bytes(values) + s6)));
    let s1 = opt_text_bytes(index) + s2;
    lemma_eleven(
        head(session, table),
        opt_text_bytes(index),
        opt_text_bytes(filter),
        opt_text_bytes(projection),
        names_bytes(names),
        values_bytes(values),
        opt_number_bytes(limit),
        flag(consistent),
        opt_number_bytes(segment),
        opt_number_bytes(segments),
        opt_key_bytes(start),
    );
    lemma_head(session, table, s1);
    law_optional_text_is_found(index, s2);
    lemma_filter(filter, projection, names, values, s6);
    lemma_scan_end(limit, consistent, segment, segments, start);
}

/// The end of a Scan request is found as it was given.
proof fn lemma_scan_end(
    limit: Option<u32>,
    consistent: bool,
    segment: Option<u32>,
    segments: Option<u32>,
    start: Option<Attrs>,
)
    requires
        values_readable(start),
    ensures
        scan_end_in(
            opt_number_bytes(limit) + (flag(consistent) + (opt_number_bytes(segment) + (
            opt_number_bytes(segments) + (opt_key_bytes(start) + Seq::<u8>::empty())))),
        ) == Some((limit, consistent, segment, segments, start)),
{
    let none = Seq::<u8>::empty();
    let s10 = opt_key_bytes(start) + none;
    let s9 = opt_number_bytes(segments) + s10;
    let s8 = opt_number_bytes(segment) + s9;
    let s7 = flag(consistent) + s8;
    law_optional_number_is_found(limit, s7);
    lemma_flag(consistent, s8);
    law_optional_number_is_found(segment, s9);
    law_optional_number_is_found(segments, s10);
    law_optional_key_is_found(start, none);
}

/// What is asked of a table in a BatchGetItem request.
pub struct TableGet {
    pub table: Seq<char>,
    pub keys: Seq<Attrs>,
    pub consistent: bool,
    pub projection: Option<Seq<char>>,
    pub names: Pairs,
}

/// `n` keys at the front.
pub open spec fn keys_at(s: Seq<u8>, n: nat) -> At<Seq<Attrs>>
    decreases n,
{
    if n == 0 {
        Ok((Seq::empty(), s))
    } else {
        match key_at(s) {
            Err(e) => Err(e),
            Ok((key, s)) => match keys_at(s, (n - 1) as nat) {
                Err(e) => Err(e),
                Ok((more, s)) => Ok((seq![key] + more, s)),
            },
        }
    }
}

/// What is asked of a table, at the front.
pub open spec fn table_get_at(s: Seq<u8>) -> At<TableGet> {
    match text_at(s) {
        Err(e) => Err(e),
        Ok((table, s)) => match u32_at(s) {
            Err(e) => Err(e),
            Ok((n, s)) => match keys_at(s, n as nat) {
                Err(e) => Err(e),
                Ok((keys, s)) => match bool_at(s) {
                    Err(e) => Err(e),
                    Ok((consistent, s)) => match opt_text_at(s) {
                        Err(e) => Err(e),
                        Ok((projection, s)) => match pairs_at(s) {
                            Err(e) => Err(e),
                            Ok((names, s)) => Ok(
                                (TableGet { table, keys, consistent, projection, names }, s),
                            ),
                        },
                    },
                },
            },
        },
    }
}

/// What is asked of `n` tables, at the front.
pub open spec fn table_gets_at(s: Seq<u8>, n: nat) -> At<Seq<TableGet>>
    decreases n,
{
    if n == 0 {
        Ok((Seq::empty(), s))
    } else {
        match table_get_at(s) {
            Err(e) => Err(e),
            Ok((get, s)) => match table_gets_at(s, (n - 1) as nat) {
                Err(e) => Err(e),
                Ok((more, s)) => Ok((seq![get] + more, s)),
            },
        }
    }
}

/// A BatchGetItem request, read to its end.
pub open spec fn batch_get_in(s: Seq<u8>) -> Option<(u64, Seq<TableGet>)> {
    match long_at(s) {
        Err(_) => None,
        Ok((session, s)) => match u16_at(s) {
            Err(_) => None,
            Ok((n, s)) => match table_gets_at(s, n as nat) {
                Ok((gets, s)) => if s.len() == 0 {
                    Some((session, gets))
                } else {
                    None
                },
                Err(_) => None,
            },
        },
    }
}

/// The projection of what is asked of a table.
pub open spec fn projection_of(items: BatchGetRequestItems) -> Option<Seq<char>> {
    match items.projection_expression {
        Some(t) => Some(t@),
        None => None,
    }
}

/// The names of what is asked of a table.
pub open spec fn names_of(items: BatchGetRequestItems) -> Option<Pairs> {
    match items.expression_attribute_names {
        Some(m) => Some(m.items()),
        None => None,
    }
}

/// What is asked of a table that has a name.
pub open spec fn asked_of(table: Seq<char>, items: BatchGetRequestItems) -> TableGet {
    TableGet {
        table,
        keys: items_of(items.keys@),
        consistent: items.consistent_read,
        projection: projection_of(items),
        names: given(names_of(items)),
    }
}

/// What is asked of a table can be read.
pub open spec fn get_readable(table: Seq<char>, items: BatchGetRequestItems) -> bool {
    &&& countable(table)
    &&& items.keys@.len() <= max_length()
    &&& forall|i: int|
        0 <= i < items.keys@.len() ==> key_readable(attrs((#[trigger] items.keys@[i])@))
    &&& opt_countable(projection_of(items))
    &&& names_readable(names_of(items))
}

/// Keys are found one behind the other.
proof fn lemma_keys(s: Seq<Attrs>, rest: Seq<u8>)
    requires
        forall|i: int| 0 <= i < s.len() ==> key_readable(#[trigger] s[i]),
    ensures
        keys_at(all_keys(s) + rest, s.len()) == At::<Seq<Attrs>>::Ok((s, rest)),
    decreases s.len(),
{
    if s.len() == 0 {
        assert(all_keys(s) + rest =~= rest);
        assert(s =~= Seq::empty());
    } else {
        let more = s.skip(1);
        let tail = all_keys(more) + rest;
        assert(all_keys(s) + rest =~= key_bytes(s[0]) + tail);
        law_key_round_trip(s[0], tail);
        assert(forall|i: int| 0 <= i < more.len() ==> more[i] == s[i + 1]);
        lemma_keys(more, rest);
        assert(seq![s[0]] + more =~= s);
    }
}

/// What is asked of a table is found.
#[verifier::spinoff_prover]
#[verifier::rlimit(60)]
proof fn lemma_table_get(table: Seq<char>, items: BatchGetRequestItems, rest: Seq<u8>)
    requires
        get_readable(table, items),
    ensures
        table_get_at(text_bytes(table) + table_get_bytes(items) + rest) == At::<TableGet>::Ok(
            (asked_of(table, items), rest),
        ),
{
    let keys = items_of(items.keys@);
    let s5 = names_bytes(names_of(items)) + rest;
    let s4 = opt_text_bytes(projection_of(items)) + s5;
    let s3 = flag(items.consistent_read) + s4;
    let s2 = all_keys(keys) + s3;
    let s1 = be4(keys.len() as int) + s2;
    assert(text_bytes(table) + table_get_bytes(items) + rest =~= text_bytes(table) + s1);
    lemma_text(table, s1);
    lemma_be4(keys.len() as int, s2);
    assert forall|i: int| 0 <= i < keys.len() implies key_readable(#[trigger] keys[i]) by {
        assert(keys[i] == attrs(items.keys@[i]@));
    }
    lemma_keys(keys, s3);
    lemma_flag(items.consistent_read, s4);
    law_optional_text_is_found(projection_of(items), s5);
    law_names_are_found(names_of(items), rest);
}

/// What is asked of tables is found one behind the other.
proof fn lemma_table_gets(s: Seq<(Seq<char>, BatchGetRequestItems)>, rest: Seq<u8>)
    requires
        forall|i: int| 0 <= i < s.len() ==> get_readable((#[trigger] s[i]).0, s[i].1),
    ensures
        table_gets_at(all_gets(s) + rest, s.len()) matches Ok((gets, left)) && left == rest
            && gets.len() == s.len() && forall|i: int|
            0 <= i < s.len() ==> #[trigger] gets[i] == asked_of(s[i].0, s[i].1),
    decreases s.len(),
{
    if s.len() == 0 {
        assert(all_gets(s) + rest =~= rest);
    } else {
        let more = s.skip(1);
        let tail = all_gets(more) + rest;
        assert(all_gets(s) + rest =~= text_bytes(s[0].0) + table_get_bytes(s[0].1) + tail);
        lemma_table_get(s[0].0, s[0].1, tail);
        assert forall|i: int| 0 <= i < more.len() implies get_readable(
            (#[trigger] more[i]).0,
            more[i].1,
        ) by {
            assert(more[i] == s[i + 1]);
        }
        lemma_table_gets(more, rest);
        let gets = table_gets_at(tail, more.len())->Ok_0.0;
        let all = seq![asked_of(s[0].0, s[0].1)] + gets;
        assert forall|i: int| 0 <= i < s.len() implies #[trigger] all[i] == asked_of(
            s[i].0,
            s[i].1,
        ) by {
            if i > 0 {
                assert(all[i] == gets[i - 1]);
                assert(more[i - 1] == s[i]);
            }
        }
    }
}

/// A BatchGetItem request says for every table which keys were asked for, and
/// how they are read, and nothing else.
pub proof fn law_batch_get_says_what_was_asked(
    session: u64,
    s: Seq<(Seq<char>, BatchGetRequestItems)>,
)
    requires
        s.len() <= 0xFFFF,
        forall|i: int| 0 <= i < s.len() ==> get_readable((#[trigger] s[i]).0, s[i].1),
    ensures
        batch_get_in(be8(session as int) + be2(s.len() as int) + all_gets(s)) matches Some(
            (id, gets),
        ) && id == session && gets.len() == s.len() && forall|i: int|
            0 <= i < s.len() ==> #[trigger] gets[i] == asked_of(s[i].0, s[i].1),
{
    let none = Seq::<u8>::empty();
    let s2 = all_gets(s) + none;
    let s1 = be2(s.len() as int) + s2;
    assert(be8(session as int) + be2(s.len() as int) + all_gets(s) =~= be8(session as int) + s1);
    lemma_be8(session as int, s1);
    lemma_be2(s.len() as int, s2);
    lemma_table_gets(s, none);
}

/// A write: whether it puts an item, and the item or the key.
pub open spec fn write_at(s: Seq<u8>) -> Option<((bool, Attrs), Seq<u8>)> {
    match u8_at(s) {
        Ok((0x01, s)) => match item_at(s) {
            Ok((item, s)) => Some(((true, item), s)),
            Err(_) => None,
        },
        Ok((0x02, s)) => match key_at(s) {
            Ok((key, s)) => Some(((false, key), s)),
            Err(_) => None,
        },
        _ => None,
    }
}

/// `n` writes at the front.
pub open spec fn some_writes_at(s: Seq<u8>, n: nat) -> Option<(Seq<(bool, Attrs)>, Seq<u8>)>
    decreases n,
{
    if n == 0 {
        Some((Seq::empty(), s))
    } else {
        match write_at(s) {
            None => None,
            Some((w, s)) => match some_writes_at(s, (n - 1) as nat) {
                None => None,
                Some((more, s)) => Some((seq![w] + more, s)),
            },
        }
    }
}

/// A table's writes.
pub type TableWrites = (Seq<char>, Seq<(bool, Attrs)>);

/// The writes of `n` tables at the front.
pub open spec fn some_table_writes_at(s: Seq<u8>, n: nat) -> Option<(Seq<TableWrites>, Seq<u8>)>
    decreases n,
{
    if n == 0 {
        Some((Seq::empty(), s))
    } else {
        match text_at(s) {
            Err(_) => None,
            Ok((table, s)) => match u32_at(s) {
                Err(_) => None,
                Ok((k, s)) => match some_writes_at(s, k as nat) {
                    None => None,
                    Some((writes, s)) => match some_table_writes_at(s, (n - 1) as nat) {
                        None => None,
                        Some((more, s)) => Some((seq![(table, writes)] + more, s)),
                    },
                },
            },
        }
    }
}

/// A BatchWriteItem request, read to its end.
pub open spec fn batch_write_in(s: Seq<u8>) -> Option<(u64, Seq<TableWrites>)> {
    match long_at(s) {
        Err(_) => None,
        Ok((session, s)) => match u16_at(s) {
            Err(_) => None,
            Ok((n, s)) => match some_table_writes_at(s, n as nat) {
                Some((tables, s)) => if s.len() == 0 {
                    Some((session, tables))
                } else {
                    None
                },
                None => None,
            },
        },
    }
}

/// What a write does: whether it puts an item, and the item or the key.
pub open spec fn deed(w: BatchWriteRequest) -> (bool, Attrs) {
    match w {
        BatchWriteRequest::Put(item) => (true, attrs(item@)),
        BatchWriteRequest::Delete(key) => (false, attrs(key@)),
    }
}

/// A write that can be read.
pub open spec fn write_readable(w: BatchWriteRequest) -> bool {
    attrs_readable(deed(w).1) && deed(w).1.len() <= if deed(w).0 {
        max_length()
    } else {
        0xFFFF
    }
}

/// Writes that can be read.
pub open spec fn writes_readable(s: Seq<BatchWriteRequest>) -> bool {
    s.len() <= max_length() && all_writes_readable(s)
}

/// Writes that can be read, however many there are.
pub open spec fn all_writes_readable(s: Seq<BatchWriteRequest>) -> bool {
    forall|i: int| 0 <= i < s.len() ==> write_readable(#[trigger] s[i])
}

/// What writes do.
pub open spec fn deeds(s: Seq<BatchWriteRequest>) -> Seq<(bool, Attrs)> {
    Seq::new(s.len(), |i: int| deed(s[i]))
}

/// Writes are found one behind the other.
proof fn lemma_writes(s: Seq<BatchWriteRequest>, rest: Seq<u8>)
    requires
        all_writes_readable(s),
    ensures
        some_writes_at(all_writes(s) + rest, s.len()) == Some((deeds(s), rest)),
    decreases s.len(),
{
    if s.len() == 0 {
        assert(all_writes(s) + rest =~= rest);
        assert(deeds(s) =~= Seq::empty());
    } else {
        let more = s.skip(1);
        let tail = all_writes(more) + rest;
        let whole = all_writes(s) + rest;
        assert(whole =~= write_bytes(s[0]) + tail);
        assert(write_readable(s[0]));
        match s[0] {
            BatchWriteRequest::Put(item) => {
                assert(whole.skip(1) =~= item_bytes(attrs(item@)) + tail);
                law_item_round_trip(attrs(item@), tail);
            },
            BatchWriteRequest::Delete(key) => {
                assert(whole.skip(1) =~= key_bytes(attrs(key@)) + tail);
                law_key_round_trip(attrs(key@), tail);
            },
        }
        assert(forall|i: int| 0 <= i < more.len() ==> more[i] == s[i + 1]);
        lemma_writes(more, rest);
        assert(seq![deed(s[0])] + deeds(more) =~= deeds(s));
    }
}

/// The writes of the first of some tables are found.
proof fn lemma_first_table(table: Seq<char>, writes: Seq<BatchWriteRequest>, n: nat, tail: Seq<u8>)
    requires
        countable(table),
        writes_readable(writes),
        n > 0,
        some_table_writes_at(tail, (n - 1) as nat) is Some,
    ensures
        some_table_writes_at(text_bytes(table) + table_write_bytes(writes) + tail, n) == Some(
            (
                seq![(table, deeds(writes))] + some_table_writes_at(tail, (n - 1) as nat)->Some_0.0,
                some_table_writes_at(tail, (n - 1) as nat)->Some_0.1,
            ),
        ),
{
    let s2 = all_writes(writes) + tail;
    let s1 = be4(writes.len() as int) + s2;
    assert(text_bytes(table) + table_write_bytes(writes) + tail =~= text_bytes(table) + s1);
    lemma_text(table, s1);
    lemma_be4(writes.len() as int, s2);
    lemma_writes(writes, tail);
}

/// The writes of tables are found one behind the other.
proof fn lemma_table_writes(s: Seq<(Seq<char>, Vec<BatchWriteRequest>)>, rest: Seq<u8>)
    requires
        forall|i: int|
            0 <= i < s.len() ==> countable((#[trigger] s[i]).0) && writes_readable(s[i].1@),
    ensures
        some_table_writes_at(all_table_writes(s) + rest, s.len()) matches Some((tables, left))
            && left == rest && tables.len() == s.len() && forall|i: int|
            0 <= i < s.len() ==> #[trigger] tables[i] == (s[i].0, deeds(s[i].1@)),
    decreases s.len(),
{
    if s.len() == 0 {
        assert(all_table_writes(s) + rest =~= rest);
    } else {
        let more = s.skip(1);
        let tail = all_table_writes(more) + rest;
        assert(all_table_writes(s) + rest =~= text_bytes(s[0].0) + table_write_bytes(s[0].1@)
            + tail);
        assert(forall|i: int| 0 <= i < more.len() ==> more[i] == s[i + 1]);
        lemma_table_writes(more, rest);
        lemma_first_table(s[0].0, s[0].1@, s.len(), tail);
        let tables = some_table_writes_at(tail, more.len())->Some_0.0;
        let all = seq![(s[0].0, deeds(s[0].1@))] + tables;
        assert forall|i: int| 0 <= i < s.len() implies #[trigger] all[i] == (
            s[i].0,
            deeds(s[i].1@),
        ) by {
            if i > 0 {
                assert(all[i] == tables[i - 1]);
                assert(more[i - 1] == s[i]);
            }
        }
    }
}

/// A BatchWriteItem request says for every table which items are put and
/// which keys are deleted, in their order, and nothing else.
pub proof fn law_batch_write_says_what_was_asked(
    session: u64,
    s: Seq<(Seq<char>, Vec<BatchWriteRequest>)>,
)
    requires
        s.len() <= 0xFFFF,
        forall|i: int|
            0 <= i < s.len() ==> countable((#[trigger] s[i]).0) && writes_readable(s[i].1@),
    ensures
        batch_write_in(be8(session as int) + be2(s.len() as int) + all_table_writes(s)) matches Some(
            (id, tables),
        ) && id == session && tables.len() == s.len() && forall|i: int|
            0 <= i < s.len() ==> #[trigger] tables[i] == (s[i].0, deeds(s[i].1@)),
{
    let none = Seq::<u8>::empty();
    let s2 = all_table_writes(s) + none;
    let s1 = be2(s.len() as int) + s2;
    assert(be8(session as int) + be2(s.len() as int) + all_table_writes(s) =~= be8(session as int)
        + s1);
    lemma_be8(session as int, s1);
    lemma_be2(s.len() as int, s2);
    lemma_table_writes(s, none);
}

/// No two operations have one number.
pub proof fn law_request_opcodes_differ(a: RequestOpcode, b: RequestOpcode)
    ensures
        a.number() == b.number() ==> a == b,
{
}

} // verus!
