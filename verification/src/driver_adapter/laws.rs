//! What the client sends is what the adapter reads.

use super::convert::Raw;
use super::decode::{
    elements_of, entries_of, field_info_at, field_infos_at, fields_of, low_i16, low_i8,
    packed_vectors, shorts_at, tuple_of, typed,
};
use super::session::raw_value_at;
use crate::error::{after, Coded, Part};
use crate::ipc::decode::{count_at, float_vals, low_i32, Decoded};
use crate::ipc::encode::{
    code, encoded, entry_tails, field_subtype, field_tails, floats, is_packed, item_subtype,
    key_subtype, lemma_floats_len, list_subtype, list_tails, max_len, opt_tail, opt_tails,
    packed_floats, sized, tail, tails, tuple_subtype, tuple_types, udt_types, BLOB, FLOAT,
    VECTOR,
};
use crate::reader::{nullable_at, short_at, At};
use crate::text::lemma_utf8_round_trip;
use crate::value::Val;
use crate::wire::{be2, be4, be8, lemma_be2, lemma_be4, lemma_be8};
use vstd::prelude::*;
use vstd::utf8::encode_utf8;

verus! {

broadcast use crate::wire::group_be;

/// All elements of a vector are single-precision floats.
pub open spec fn all_floats(elements: Seq<Val>) -> bool {
    forall|i: int| 0 <= i < elements.len() ==> (#[trigger] elements[i]) is Float
}

/// A value can be told from what is sent: it is no null, and every item in it
/// is sent with the type that the value announces for it.
///
/// Not so, for one: a list of booleans, since a list announces no such
/// element type, and a list of doubles that starts with a float.
#[verifier::opaque]
pub open spec fn faithful(v: Val) -> bool
    decreases v,
{
    match v {
        Val::Empty => false,
        Val::Uuid(b) => b.len() == 16,
        Val::Timeuuid(b) => b.len() == 16,
        Val::Inet(octets) => octets.len() == 4 || octets.len() == 16,
        Val::Vector(elements) => all_floats(elements),
        Val::List(elements) => if is_packed(elements) {
            elements.len() <= max_len() && elements[0]->Vector_0.len() <= 0xFFFF && forall|i: int|
                0 <= i < elements.len() ==> uniform(
                    #[trigger] elements[i],
                    elements[0]->Vector_0.len(),
                )
        } else {
            forall|i: int|
                0 <= i < elements.len() ==> faithful(#[trigger] elements[i]) && code(elements[i])
                    == list_subtype(elements)
        },
        Val::SetOf(elements) => forall|i: int|
            0 <= i < elements.len() ==> faithful(#[trigger] elements[i]) && code(elements[i])
                == item_subtype(elements[0]),
        Val::MapOf(entries) => forall|i: int|
            0 <= i < entries.len() ==> faithful((#[trigger] entries[i]).0) && code(entries[i].0)
                == key_subtype(entries[0].0) && (entries[i].1 is Empty || (faithful(entries[i].1)
                && code(entries[i].1) == item_subtype(entries[0].1))),
        Val::Tuple(elements) => forall|i: int|
            0 <= i < elements.len() ==> match #[trigger] elements[i] {
                Some(e) => faithful(e) && code(e) == tuple_subtype(Some(e)),
                None => true,
            },
        Val::Udt(_, _, fields) => forall|i: int|
            0 <= i < fields.len() ==> match (#[trigger] fields[i]).1 {
                Some(f) => faithful(f) && code(f) == field_subtype(Some(f)),
                None => true,
            },
        _ => true,
    }
}

/// A vector of so many single-precision floats.
pub open spec fn uniform(v: Val, dimension: nat) -> bool {
    match v {
        Val::Vector(elements) => elements.len() == dimension && all_floats(elements),
        _ => false,
    }
}

/// A value as the adapter sees it: without the name and the keyspace of a
/// user-defined type, which are not sent.
pub open spec fn unnamed(v: Val) -> Val
    decreases v,
{
    match v {
        Val::List(s) => Val::List(unnamed_all(s)),
        Val::SetOf(s) => Val::SetOf(unnamed_all(s)),
        Val::MapOf(s) => Val::MapOf(unnamed_entries(s)),
        Val::Tuple(s) => Val::Tuple(unnamed_opts(s)),
        Val::Udt(_, _, s) => Val::Udt(""@, "udt"@, unnamed_fields(s)),
        _ => v,
    }
}

/// As `unnamed`, for an optional value.
pub open spec fn unnamed_opt(v: Option<Val>) -> Option<Val>
    decreases v,
{
    match v {
        Some(x) => Some(unnamed(x)),
        None => None,
    }
}

/// As `unnamed`, for each of a sequence.
pub open spec fn unnamed_all(s: Seq<Val>) -> Seq<Val>
    decreases s,
{
    Seq::new(
        s.len(),
        |i: int|
            if 0 <= i < s.len() {
                unnamed(s[i])
            } else {
                Val::Empty
            },
    )
}

/// As `unnamed`, for the entries of a map.
pub open spec fn unnamed_entries(s: Seq<(Val, Val)>) -> Seq<(Val, Val)>
    decreases s,
{
    Seq::new(
        s.len(),
        |i: int|
            if 0 <= i < s.len() {
                (unnamed(s[i].0), unnamed(s[i].1))
            } else {
                (Val::Empty, Val::Empty)
            },
    )
}

/// As `unnamed`, for the elements of a tuple.
pub open spec fn unnamed_opts(s: Seq<Option<Val>>) -> Seq<Option<Val>>
    decreases s,
{
    Seq::new(
        s.len(),
        |i: int|
            if 0 <= i < s.len() {
                unnamed_opt(s[i])
            } else {
                None
            },
    )
}

/// As `unnamed`, for the fields of a user-defined type.
pub open spec fn unnamed_fields(s: Seq<(Seq<char>, Option<Val>)>) -> Seq<(Seq<char>, Option<Val>)>
    decreases s,
{
    Seq::new(
        s.len(),
        |i: int|
            if 0 <= i < s.len() {
                (s[i].0, unnamed_opt(s[i].1))
            } else {
                (Seq::empty(), None)
            },
    )
}

/// Data behind its length is read back.
pub proof fn lemma_nullable(data: Seq<u8>, rest: Seq<u8>, part: Part)
    requires
        data.len() <= max_len(),
    ensures
        nullable_at(sized(data) + rest, part) == At::Ok((Some(data), rest)),
{
    let n = data.len() as int;
    lemma_be4(n, data + rest);
    let s = sized(data) + rest;
    assert(s =~= be4(n) + (data + rest));
    assert(s.skip(4) =~= data + rest);
    assert((data + rest).take(n) =~= data);
    assert((data + rest).skip(n) =~= rest);
}

/// A null is read back.
pub proof fn lemma_null(rest: Seq<u8>, part: Part)
    ensures
        nullable_at(be4(-1) + rest, part) == At::<Option<Seq<u8>>>::Ok((None, rest)),
{
    lemma_be4(-1, rest);
}

/// A number of 16 bits is read back.
proof fn lemma_short(n: int, rest: Seq<u8>)
    requires
        0 <= n < 0x1_0000,
    ensures
        short_at(be2(n) + rest) == At::Ok((n as u16, rest)),
{
    lemma_be2(n, rest);
}

/// A count is read back.
pub proof fn lemma_count(n: int, rest: Seq<u8>)
    requires
        0 <= n <= max_len(),
    ensures
        count_at(be4(n) + rest) == At::Ok((n as nat, rest)),
{
    lemma_be4(n, rest);
}

/// The floats of a vector are read back.
pub proof fn lemma_floats(elements: Seq<Val>, rest: Seq<u8>)
    requires
        all_floats(elements),
    ensures
        floats(elements) is Ok,
        floats(elements)->Ok_0.len() == elements.len() * 4,
        float_vals(floats(elements)->Ok_0 + rest, elements.len()) == elements,
    decreases elements.len(),
{
    lemma_floats_len(elements);
    if elements.len() > 0 {
        let more = elements.skip(1);
        assert(all_floats(more)) by {
            assert forall|i: int| 0 <= i < more.len() implies (#[trigger] more[i]) is Float by {
                assert(more[i] == elements[i + 1]);
            }
        }
        lemma_floats(more, rest);
        let bits = elements[0]->Float_0;
        let f = floats(more)->Ok_0;
        let s = floats(elements)->Ok_0 + rest;
        assert(s =~= be4(bits as int) + (f + rest));
        lemma_be4(bits as int, f + rest);
        let got = float_vals(s, elements.len());
        assert forall|i: int| 0 <= i < elements.len() implies got[i] == elements[i] by {
            if i == 0 {
                assert(s.skip(0) =~= s);
            } else {
                assert(s.skip(4 * i) =~= (f + rest).skip(4 * (i - 1)));
                assert(float_vals(f + rest, more.len())[i - 1] == more[i - 1]);
                assert(more[i - 1] == elements[i]);
            }
        }
        assert(got =~= elements);
    } else {
        assert(float_vals(floats(elements)->Ok_0 + rest, 0) =~= elements);
    }
}

/// The vectors of a packed list are read back.
proof fn lemma_packed(elements: Seq<Val>, dimension: nat)
    requires
        forall|i: int| 0 <= i < elements.len() ==> uniform(#[trigger] elements[i], dimension),
    ensures
        packed_floats(elements) is Ok,
        packed_floats(elements)->Ok_0.len() == elements.len() * (dimension * 4),
        packed_vectors(packed_floats(elements)->Ok_0, elements.len(), dimension) == elements,
    decreases elements.len(),
{
    let stride = dimension * 4;
    if elements.len() > 0 {
        let more = elements.skip(1);
        assert forall|i: int| 0 <= i < more.len() implies uniform(#[trigger] more[i], dimension) by {
            assert(more[i] == elements[i + 1]);
        }
        lemma_packed(more, dimension);
        assert(uniform(elements[0], dimension));
        let first = elements[0]->Vector_0;
        let b = packed_floats(more)->Ok_0;
        lemma_floats(first, b);
        let f = floats(first)->Ok_0;
        let s = packed_floats(elements)->Ok_0;
        assert(s == f + b);
        assert(elements.len() * stride == stride + more.len() * stride) by (nonlinear_arith)
            requires
                elements.len() == more.len() + 1,
        ;
        let got = packed_vectors(s, elements.len(), dimension);
        assert forall|i: int| 0 <= i < elements.len() implies got[i] == elements[i] by {
            if i == 0 {
                assert(0 * (dimension * 4) == 0);
                assert(s.skip(0) =~= f + b);
            } else {
                assert(i * stride == stride + (i - 1) * stride) by (nonlinear_arith);
                assert(0 <= (i - 1) * stride <= more.len() * stride) by (nonlinear_arith)
                    requires
                        0 <= i - 1 < more.len(),
                        stride >= 0,
                ;
                assert(s.skip(i * stride) =~= b.skip((i - 1) * stride));
                assert(packed_vectors(b, more.len(), dimension)[i - 1] == more[i - 1]);
                assert(more[i - 1] == elements[i]);
            }
        }
        assert(got =~= elements);
    } else {
        assert(0 * stride == 0) by (nonlinear_arith);
        assert(packed_vectors(packed_floats(elements)->Ok_0, 0, dimension) =~= elements);
    }
}

/// The type codes of a tuple are read back.
proof fn lemma_tuple_types(elements: Seq<Option<Val>>, rest: Seq<u8>)
    ensures
        shorts_at(tuple_types(elements) + rest, elements.len()) == At::Ok(
            (elements.map_values(|e: Option<Val>| tuple_subtype(e)), rest),
        ),
    decreases elements.len(),
{
    let f = |e: Option<Val>| tuple_subtype(e);
    if elements.len() > 0 {
        let more = elements.skip(1);
        lemma_tuple_types(more, rest);
        let s = tuple_types(elements) + rest;
        assert(s =~= be2(tuple_subtype(elements[0]) as int) + (tuple_types(more) + rest));
        lemma_short(tuple_subtype(elements[0]) as int, tuple_types(more) + rest);
        assert(elements.map_values(f) =~= seq![f(elements[0])] + more.map_values(f));
    } else {
        assert(tuple_types(elements) + rest =~= rest);
        assert(elements.map_values(f) =~= Seq::empty());
    }
}

/// The name and the type code of a field are read back.
proof fn lemma_field_info(text: Seq<char>, c: u16, rest: Seq<u8>)
    requires
        encode_utf8(text).len() <= 0xFFFF,
    ensures
        field_info_at(
            be2(encode_utf8(text).len() as int) + encode_utf8(text) + be2(c as int) + rest,
        ) == At::Ok(((text, c), rest)),
{
    let name = encode_utf8(text);
    let s3 = be2(c as int) + rest;
    let s2 = name + s3;
    let s = be2(name.len() as int) + name + be2(c as int) + rest;
    assert(s =~= be2(name.len() as int) + s2);
    lemma_short(name.len() as int, s2);
    assert(s2.take(name.len() as int) =~= name);
    assert(s2.skip(name.len() as int) =~= s3);
    lemma_short(c as int, rest);
    lemma_utf8_round_trip(text);
}

/// The field names and type codes of a user-defined type are read back.
proof fn lemma_udt_types(fields: Seq<(Seq<char>, Option<Val>)>, rest: Seq<u8>)
    requires
        udt_types(fields) is Ok,
    ensures
        field_infos_at(udt_types(fields)->Ok_0 + rest, fields.len()) == At::Ok(
            (
                fields.map_values(|f: (Seq<char>, Option<Val>)| (f.0, field_subtype(f.1))),
                rest,
            ),
        ),
    decreases fields.len(),
{
    let g = |f: (Seq<char>, Option<Val>)| (f.0, field_subtype(f.1));
    if fields.len() > 0 {
        let more = fields.skip(1);
        lemma_udt_types(more, rest);
        let name = encode_utf8(fields[0].0);
        let c = field_subtype(fields[0].1);
        let b = udt_types(more)->Ok_0;
        let first = be2(name.len() as int) + name + be2(c as int);
        assert(udt_types(fields)->Ok_0 == first + b);
        assert(first + b + rest =~= first + (b + rest));
        lemma_field_info(fields[0].0, c, b + rest);
        assert(fields.map_values(g) =~= seq![g(fields[0])] + more.map_values(g));
    } else {
        assert(udt_types(fields)->Ok_0 + rest =~= rest);
        assert(fields.map_values(g) =~= Seq::empty());
    }
}

/// What is sent for a value behind its code is data behind its length, and
/// the data decode to the value.
#[verifier::opaque]
pub open spec fn comes_back(v: Val) -> bool {
    let t = tail(v)->Ok_0;
    &&& t.len() >= 4
    &&& t.skip(4).len() <= max_len()
    &&& t == sized(t.skip(4))
    &&& typed(t.skip(4), code(v)) == Decoded::Ok(unnamed(v))
}

/// One element is read, and then the others.
proof fn lemma_element_step(v: Val, rest: Seq<u8>, n: nat, part: Part)
    requires
        n > 0,
        comes_back(v),
    ensures
        elements_of(tail(v)->Ok_0 + rest, n, code(v), None, part) == after(
            seq![unnamed(v)],
            elements_of(rest, (n - 1) as nat, code(v), None, part),
        ),
{
    reveal(comes_back);
    lemma_nullable(tail(v)->Ok_0.skip(4), rest, part);
}

/// The elements of a set come back.
proof fn lemma_elements(s: Seq<Val>, subtype: u16, part: Part)
    requires
        tails(s) is Ok,
        forall|i: int| 0 <= i < s.len() ==> faithful(#[trigger] s[i]) && code(s[i]) == subtype,
    ensures
        elements_of(tails(s)->Ok_0, s.len(), subtype, None, part) == Ok::<
            Seq<Val>,
            crate::error::CodecError,
        >(unnamed_all(s)),
    decreases s, 0int,
{
    if s.len() == 0 {
        assert(unnamed_all(s) =~= Seq::empty());
    } else {
        let more = s.skip(1);
        assert forall|i: int| 0 <= i < more.len() implies faithful(#[trigger] more[i]) && code(
            more[i],
        ) == subtype by {
            assert(more[i] == s[i + 1]);
        }
        lemma_elements(more, subtype, part);
        assert(faithful(s[0]));
        lemma_value(s[0]);
        lemma_element_step(s[0], tails(more)->Ok_0, s.len(), part);
        assert(unnamed_all(s) =~= seq![unnamed(s[0])] + unnamed_all(more));
    }
}

/// The elements of a list that is not packed come back.
proof fn lemma_list_elements(s: Seq<Val>, subtype: u16)
    requires
        list_tails(s) is Ok,
        subtype != VECTOR,
        forall|i: int| 0 <= i < s.len() ==> faithful(#[trigger] s[i]) && code(s[i]) == subtype,
    ensures
        elements_of(list_tails(s)->Ok_0, s.len(), subtype, None, Part::ListElement) == Ok::<
            Seq<Val>,
            crate::error::CodecError,
        >(unnamed_all(s)),
    decreases s, 0int,
{
    if s.len() == 0 {
        assert(unnamed_all(s) =~= Seq::empty());
    } else {
        let more = s.skip(1);
        assert forall|i: int| 0 <= i < more.len() implies faithful(#[trigger] more[i]) && code(
            more[i],
        ) == subtype by {
            assert(more[i] == s[i + 1]);
        }
        lemma_list_elements(more, subtype);
        assert(faithful(s[0]));
        assert(!(s[0] is Vector));
        lemma_value(s[0]);
        lemma_element_step(s[0], list_tails(more)->Ok_0, s.len(), Part::ListElement);
        assert(unnamed_all(s) =~= seq![unnamed(s[0])] + unnamed_all(more));
    }
}

/// One entry of a map is read, and then the others.
proof fn lemma_entry_read(
    data: Seq<u8>,
    key: Val,
    item: Option<Seq<u8>>,
    value: Val,
    value_bytes: Seq<u8>,
    rest: Seq<u8>,
    n: nat,
    key_type: u16,
    value_type: u16,
)
    requires
        n > 0,
        data.len() <= max_len(),
        typed(data, key_type) == Decoded::Ok(key),
        nullable_at(value_bytes + rest, Part::MapValue) == At::Ok((item, rest)),
        match item {
            None => value is Empty,
            Some(d) => typed(d, value_type) == Decoded::Ok(value),
        },
    ensures
        entries_of(sized(data) + value_bytes + rest, n, key_type, value_type) == after(
            seq![(key, value)],
            entries_of(rest, (n - 1) as nat, key_type, value_type),
        ),
{
    lemma_nullable(data, value_bytes + rest, Part::MapKey);
    assert(sized(data) + value_bytes + rest =~= sized(data) + (value_bytes + rest));
}

/// One entry of a map is read, and then the others.
proof fn lemma_entry_step(key: Val, value: Val, rest: Seq<u8>, n: nat, value_type: u16)
    requires
        n > 0,
        comes_back(key),
        value is Empty || (comes_back(value) && code(value) == value_type),
    ensures
        entries_of(
            tail(key)->Ok_0 + tail(value)->Ok_0 + rest,
            n,
            code(key),
            value_type,
        ) == after(
            seq![(unnamed(key), unnamed(value))],
            entries_of(rest, (n - 1) as nat, code(key), value_type),
        ),
{
    let k = tail(key)->Ok_0.skip(4);
    let v = tail(value)->Ok_0;
    assert(k.len() <= max_len() && typed(k, code(key)) == Decoded::Ok(unnamed(key)) && tail(
        key,
    )->Ok_0 == sized(k)) by {
        reveal(comes_back);
    }
    if value is Empty {
        lemma_null(rest, Part::MapValue);
        lemma_entry_read(k, unnamed(key), None, Val::Empty, v, rest, n, code(key), value_type);
    } else {
        assert(v.skip(4).len() <= max_len() && typed(v.skip(4), value_type) == Decoded::Ok(
            unnamed(value),
        ) && v == sized(v.skip(4))) by {
            reveal(comes_back);
        }
        lemma_nullable(v.skip(4), rest, Part::MapValue);
        lemma_entry_read(
            k,
            unnamed(key),
            Some(v.skip(4)),
            unnamed(value),
            v,
            rest,
            n,
            code(key),
            value_type,
        );
    }
}

/// The entries of a map come back.
proof fn lemma_entries(s: Seq<(Val, Val)>, key_type: u16, value_type: u16)
    requires
        entry_tails(s) is Ok,
        forall|i: int|
            0 <= i < s.len() ==> faithful((#[trigger] s[i]).0) && code(s[i].0) == key_type && (
            s[i].1 is Empty || (faithful(s[i].1) && code(s[i].1) == value_type)),
    ensures
        entries_of(entry_tails(s)->Ok_0, s.len(), key_type, value_type) == Ok::<
            Seq<(Val, Val)>,
            crate::error::CodecError,
        >(unnamed_entries(s)),
    decreases s, 0int,
{
    if s.len() == 0 {
        assert(unnamed_entries(s) =~= Seq::empty());
    } else {
        let more = s.skip(1);
        assert forall|i: int| 0 <= i < more.len() implies faithful((#[trigger] more[i]).0) && code(
            more[i].0,
        ) == key_type && (more[i].1 is Empty || (faithful(more[i].1) && code(more[i].1)
            == value_type)) by {
            assert(more[i] == s[i + 1]);
        }
        lemma_entries(more, key_type, value_type);
        assert(faithful(s[0].0));
        assert(decreases_to!(s => s[0]));
        lemma_value(s[0].0);
        if !(s[0].1 is Empty) {
            lemma_value(s[0].1);
        }
        lemma_entry_step(s[0].0, s[0].1, entry_tails(more)->Ok_0, s.len(), value_type);
        assert(unnamed_entries(s) =~= seq![(unnamed(s[0].0), unnamed(s[0].1))]
            + unnamed_entries(more));
    }
}

/// One element of a tuple is read, and then the others.
proof fn lemma_tuple_step(e: Option<Val>, rest: Seq<u8>, types: Seq<u16>, k: nat)
    requires
        k < types.len(),
        e matches Some(v) ==> comes_back(v) && code(v) == types[k as int],
    ensures
        tuple_of(opt_tail(e)->Ok_0 + rest, types, k) == after(
            seq![unnamed_opt(e)],
            tuple_of(rest, types, k + 1),
        ),
{
    reveal(comes_back);
    match e {
        Some(v) => {
            assert(opt_tail(e) == tail(v));
            lemma_nullable(tail(v)->Ok_0.skip(4), rest, Part::TupleElement);
        },
        None => {
            assert(opt_tail(e) == Coded::Ok(be4(-1)));
            lemma_null(rest, Part::TupleElement);
        },
    }
}

/// One field of a user-defined type is read, and then the others.
proof fn lemma_field_step(
    e: Option<Val>,
    rest: Seq<u8>,
    infos: Seq<(Seq<char>, u16)>,
    k: nat,
)
    requires
        k < infos.len(),
        e matches Some(v) ==> comes_back(v) && code(v) == infos[k as int].1,
    ensures
        fields_of(opt_tail(e)->Ok_0 + rest, infos, k) == after(
            seq![(infos[k as int].0, unnamed_opt(e))],
            fields_of(rest, infos, k + 1),
        ),
{
    reveal(comes_back);
    match e {
        Some(v) => {
            assert(opt_tail(e) == tail(v));
            lemma_nullable(tail(v)->Ok_0.skip(4), rest, Part::UdtFieldValue);
        },
        None => {
            assert(opt_tail(e) == Coded::Ok(be4(-1)));
            lemma_null(rest, Part::UdtFieldValue);
        },
    }
}

/// The elements of a tuple come back, from the `k`-th on.
proof fn lemma_tuple(s: Seq<Option<Val>>, types: Seq<u16>, k: nat)
    requires
        k + s.len() == types.len(),
        opt_tails(s) is Ok,
        forall|i: int|
            0 <= i < s.len() ==> match #[trigger] s[i] {
                Some(e) => faithful(e) && code(e) == types[k + i],
                None => true,
            },
    ensures
        tuple_of(opt_tails(s)->Ok_0, types, k) == Ok::<
            Seq<Option<Val>>,
            crate::error::CodecError,
        >(unnamed_opts(s)),
    decreases s, 0int,
{
    if s.len() == 0 {
        assert(unnamed_opts(s) =~= Seq::empty());
    } else {
        let more = s.skip(1);
        assert forall|i: int| 0 <= i < more.len() implies match #[trigger] more[i] {
            Some(e) => faithful(e) && code(e) == types[k + 1 + i],
            None => true,
        } by {
            assert(more[i] == s[i + 1]);
        }
        lemma_tuple(more, types, k + 1);
        let b = opt_tails(more)->Ok_0;
        assert(decreases_to!(s => s[0]));
        if let Some(e) = s[0] {
            assert(opt_tail(s[0]) == tail(e));
            lemma_value(e);
        }
        assert(types[k as int] == types[k + 0int]);
        lemma_tuple_step(s[0], b, types, k);
        assert(unnamed_opts(s) =~= seq![unnamed_opt(s[0])] + unnamed_opts(more));
    }
}

/// The fields of a user-defined type come back, from the `k`-th on.
proof fn lemma_fields(
    s: Seq<(Seq<char>, Option<Val>)>,
    infos: Seq<(Seq<char>, u16)>,
    k: nat,
)
    requires
        k + s.len() == infos.len(),
        field_tails(s) is Ok,
        forall|i: int|
            0 <= i < s.len() ==> infos[k + i].0 == (#[trigger] s[i]).0 && match s[i].1 {
                Some(e) => faithful(e) && code(e) == infos[k + i].1,
                None => true,
            },
    ensures
        fields_of(field_tails(s)->Ok_0, infos, k) == Ok::<
            Seq<(Seq<char>, Option<Val>)>,
            crate::error::CodecError,
        >(unnamed_fields(s)),
    decreases s, 0int,
{
    if s.len() == 0 {
        assert(unnamed_fields(s) =~= Seq::empty());
    } else {
        let more = s.skip(1);
        assert forall|i: int| 0 <= i < more.len() implies infos[k + 1 + i].0 == (
        #[trigger] more[i]).0 && match more[i].1 {
            Some(e) => faithful(e) && code(e) == infos[k + 1 + i].1,
            None => true,
        } by {
            assert(more[i] == s[i + 1]);
        }
        lemma_fields(more, infos, k + 1);
        let b = field_tails(more)->Ok_0;
        assert(decreases_to!(s => s[0]));
        assert(infos[k + 0int].0 == s[0].0);
        if let Some(e) = s[0].1 {
            assert(opt_tail(s[0].1) == tail(e));
            lemma_value(e);
        }
        lemma_field_step(s[0].1, b, infos, k);
        assert(unnamed_fields(s) =~= seq![(s[0].0, unnamed_opt(s[0].1))]
            + unnamed_fields(more));
    }
}

/// The data behind a length are what was put there.
pub proof fn lemma_sized(data: Seq<u8>)
    ensures
        sized(data).len() == data.len() + 4,
        sized(data).skip(4) == data,
{
    assert(sized(data).skip(4) =~= data);
}

/// A value that holds no other values comes back.
#[verifier::spinoff_prover]
#[verifier::rlimit(60)]
proof fn lemma_scalar(v: Val)
    requires
        faithful(v),
        tail(v) is Ok,
        !(v is List || v is SetOf || v is MapOf || v is Tuple || v is Udt || v is Vector),
    ensures
        comes_back(v),
{
    reveal(faithful);
    reveal(comes_back);
    let none = Seq::<u8>::empty();
    let d = tail(v)->Ok_0.skip(4);
    match v {
        Val::TinyInt(n) => {
            lemma_sized(seq![(n as int % 0x100) as u8]);
            assert(low_i8(n as i64) == n);
        },
        Val::SmallInt(n) => {
            lemma_sized(be2(n as int));
            lemma_be2(n as int, none);
            assert(be2(n as int) + none =~= be2(n as int));
            assert(low_i16(n as i64) == n);
        },
        Val::Int(n) => {
            lemma_sized(be4(n as int));
            lemma_be4(n as int, none);
            assert(be4(n as int) + none =~= be4(n as int));
            assert(low_i32(n as i64) == n);
        },
        Val::BigInt(n) | Val::Timestamp(n) | Val::Time(n) | Val::Counter(n) => {
            lemma_sized(be8(n as int));
            lemma_be8(n as int, none);
            assert(be8(n as int) + none =~= be8(n as int));
        },
        Val::Text(t) | Val::Ascii(t) => {
            lemma_sized(encode_utf8(t));
            lemma_utf8_round_trip(t);
        },
        Val::Boolean(b) => {
            lemma_sized(seq![if b { 1u8 } else { 0u8 }]);
        },
        Val::Float(n) => {
            lemma_sized(be4(n as int));
            lemma_be4(n as int, none);
            assert(be4(n as int) + none =~= be4(n as int));
        },
        Val::Date(n) => {
            lemma_sized(be4(n as int));
            lemma_be4(n as int, none);
            assert(be4(n as int) + none =~= be4(n as int));
        },
        Val::Double(n) => {
            lemma_sized(be8(n as int));
            lemma_be8(n as int, none);
            assert(be8(n as int) + none =~= be8(n as int));
        },
        Val::Uuid(b) | Val::Timeuuid(b) | Val::Inet(b) | Val::Blob(b) => {
            lemma_sized(b);
        },
        _ => {},
    }
}

/// A vector of floats comes back.
proof fn lemma_vector(elements: Seq<Val>)
    requires
        all_floats(elements),
        tail(Val::Vector(elements)) is Ok,
    ensures
        comes_back(Val::Vector(elements)),
{
    reveal(faithful);
    reveal(comes_back);
    let n = elements.len() as int;
    lemma_floats(elements, Seq::empty());
    let f = floats(elements)->Ok_0;
    assert(f + Seq::<u8>::empty() =~= f);
    let d = be2(FLOAT as int) + be2(n) + f;
    lemma_sized(d);
    assert(d =~= be2(FLOAT as int) + (be2(n) + f));
    lemma_short(FLOAT as int, be2(n) + f);
    lemma_short(n, f);
}

/// A packed list comes back.
proof fn lemma_packed_list(elements: Seq<Val>)
    requires
        is_packed(elements),
        faithful(Val::List(elements)),
        tail(Val::List(elements)) is Ok,
    ensures
        comes_back(Val::List(elements)),
{
    reveal(faithful);
    reveal(comes_back);
    let n = elements.len() as int;
    let dimension = elements[0]->Vector_0.len();
    lemma_packed(elements, dimension);
    let b = packed_floats(elements)->Ok_0;
    assert(elements.len() * dimension * 4 == elements.len() * (dimension * 4)) by (nonlinear_arith);
    let d = be4(n) + be2(dimension as int) + b;
    lemma_sized(d);
    let t = tail(Val::List(elements))->Ok_0;
    assert(t =~= sized(d));
    assert(d =~= be4(n) + (be2(dimension as int) + b));
    lemma_count(n, be2(dimension as int) + b);
    lemma_short(dimension as int, b);
    assert(unnamed_all(elements) =~= elements) by {
        assert forall|i: int| 0 <= i < elements.len() implies unnamed(elements[i])
            == elements[i] by {
            assert(uniform(elements[i], dimension));
        }
    }
}

/// A list that is not packed comes back.
proof fn lemma_list(elements: Seq<Val>)
    requires
        !is_packed(elements),
        faithful(Val::List(elements)),
        tail(Val::List(elements)) is Ok,
    ensures
        comes_back(Val::List(elements)),
    decreases elements, 1int,
{
    reveal(faithful);
    reveal(comes_back);
    let n = elements.len() as int;
    let subtype = list_subtype(elements);
    assert(subtype != VECTOR) by {
        if elements.len() > 0 && elements[0] is Vector {
            assert(faithful(elements[0]));
            lemma_floats(elements[0]->Vector_0, Seq::empty());
        }
    }
    lemma_list_elements(elements, subtype);
    let b = list_tails(elements)->Ok_0;
    let d = be2(subtype as int) + Seq::<u8>::empty() + be4(n) + b;
    lemma_sized(d);
    assert(tail(Val::List(elements)) == Coded::Ok(sized(d)));
    assert(d =~= be2(subtype as int) + (be4(n) + b));
    lemma_short(subtype as int, be4(n) + b);
    lemma_count(n, b);
}

/// A set comes back.
proof fn lemma_set(elements: Seq<Val>)
    requires
        faithful(Val::SetOf(elements)),
        tail(Val::SetOf(elements)) is Ok,
    ensures
        comes_back(Val::SetOf(elements)),
    decreases elements, 1int,
{
    reveal(faithful);
    reveal(comes_back);
    let n = elements.len() as int;
    let subtype = if elements.len() == 0 { BLOB } else { item_subtype(elements[0]) };
    lemma_elements(elements, subtype, Part::SetElement);
    let b = tails(elements)->Ok_0;
    let d = be2(subtype as int) + be4(n) + b;
    lemma_sized(d);
    assert(d =~= be2(subtype as int) + (be4(n) + b));
    lemma_short(subtype as int, be4(n) + b);
    lemma_count(n, b);
}

/// A map comes back.
proof fn lemma_map(entries: Seq<(Val, Val)>)
    requires
        faithful(Val::MapOf(entries)),
        tail(Val::MapOf(entries)) is Ok,
    ensures
        comes_back(Val::MapOf(entries)),
    decreases entries, 1int,
{
    reveal(faithful);
    reveal(comes_back);
    let n = entries.len() as int;
    let key = if entries.len() == 0 { BLOB } else { key_subtype(entries[0].0) };
    let value = if entries.len() == 0 { BLOB } else { item_subtype(entries[0].1) };
    lemma_entries(entries, key, value);
    let b = entry_tails(entries)->Ok_0;
    let d = be2(key as int) + be2(value as int) + be4(n) + b;
    lemma_sized(d);
    assert(d =~= be2(key as int) + (be2(value as int) + (be4(n) + b)));
    lemma_short(key as int, be2(value as int) + (be4(n) + b));
    lemma_short(value as int, be4(n) + b);
    lemma_count(n, b);
}

/// A tuple comes back.
proof fn lemma_tuple_value(elements: Seq<Option<Val>>)
    requires
        faithful(Val::Tuple(elements)),
        tail(Val::Tuple(elements)) is Ok,
    ensures
        comes_back(Val::Tuple(elements)),
    decreases elements, 1int,
{
    reveal(faithful);
    reveal(comes_back);
    let n = elements.len() as int;
    let types = elements.map_values(|e: Option<Val>| tuple_subtype(e));
    lemma_tuple(elements, types, 0);
    let b = opt_tails(elements)->Ok_0;
    let d = be2(n) + tuple_types(elements) + b;
    lemma_sized(d);
    assert(d =~= be2(n) + (tuple_types(elements) + b));
    lemma_short(n, tuple_types(elements) + b);
    lemma_tuple_types(elements, b);
}

/// A value of a user-defined type comes back.
proof fn lemma_udt(keyspace: Seq<char>, name: Seq<char>, fields: Seq<(Seq<char>, Option<Val>)>)
    requires
        faithful(Val::Udt(keyspace, name, fields)),
        tail(Val::Udt(keyspace, name, fields)) is Ok,
    ensures
        comes_back(Val::Udt(keyspace, name, fields)),
    decreases fields, 1int,
{
    reveal(faithful);
    reveal(comes_back);
    let n = fields.len() as int;
    let infos = fields.map_values(|f: (Seq<char>, Option<Val>)| (f.0, field_subtype(f.1)));
    lemma_fields(fields, infos, 0);
    let types = udt_types(fields)->Ok_0;
    let b = field_tails(fields)->Ok_0;
    let d = be2(n) + types + b;
    lemma_sized(d);
    assert(d =~= be2(n) + (types + b));
    lemma_short(n, types + b);
    lemma_udt_types(fields, b);
}

/// A value comes back.
proof fn lemma_value(v: Val)
    requires
        faithful(v),
        tail(v) is Ok,
    ensures
        comes_back(v),
    decreases v, 2int,
{
    reveal(faithful);
    match v {
        Val::List(elements) => if is_packed(elements) {
            lemma_packed_list(elements);
        } else {
            lemma_list(elements);
        },
        Val::SetOf(elements) => {
            lemma_set(elements);
        },
        Val::MapOf(entries) => {
            lemma_map(entries);
        },
        Val::Tuple(elements) => {
            lemma_tuple_value(elements);
        },
        Val::Udt(keyspace, name, fields) => {
            lemma_udt(keyspace, name, fields);
        },
        Val::Vector(elements) => {
            lemma_vector(elements);
        },
        _ => {
            lemma_scalar(v);
        },
    }
}

/// A bind value that the adapter reads stands for a value: a null, or bytes
/// with a type code that decode to the value.
#[verifier::opaque]
pub open spec fn carries(raw: Raw, v: Val) -> bool {
    match v {
        Val::Empty => raw == Raw::Null(BLOB),
        _ => raw matches Raw::Bytes(type_code, data) && type_code == code(v) && typed(
            data,
            type_code,
        ) == Decoded::Ok(unnamed(v)),
    }
}

/// A value that is sent and decoded again, or a null.
pub open spec fn sendable(v: Val) -> bool {
    v is Empty || faithful(v)
}

/// What the client encodes, the adapter reads: a type code and data behind
/// their length that decode to the same value, but for the names of
/// user-defined types, and a null for a null.
pub proof fn law_value_round_trip(v: Val, rest: Seq<u8>)
    requires
        sendable(v),
        encoded(v) is Ok,
    ensures
        raw_value_at(encoded(v)->Ok_0 + rest) matches Ok((raw, behind)) && behind == rest
            && carries(raw, v),
{
    reveal(carries);
    let t = tail(v)->Ok_0;
    assert(be2(code(v) as int) + t + rest =~= be2(code(v) as int) + (t + rest));
    lemma_short(code(v) as int, t + rest);
    if v is Empty {
        lemma_be4(-1, rest);
    } else {
        lemma_value(v);
        reveal(comes_back);
        let data = t.skip(4);
        lemma_be4(data.len() as int, data + rest);
        assert(t + rest =~= be4(data.len() as int) + (data + rest));
        assert((data + rest).take(data.len() as int) =~= data);
        assert((data + rest).skip(data.len() as int) =~= rest);
    }
}

} // verus!
