//! What the client reads of collections within collections, and of the
//! elements of tuples and of the fields of user-defined types.

use super::collection_laws::{
    are_blobs, entries_in_line, item_fits, items_in_line, keyed, law_all_items_are_present,
    law_entries_are_read, law_items_are_read, lemma_all_keyed, lemma_element, not_null,
    sent_in_set, whole_entries,
};
use super::encode::{
    all_element_bytes, all_entry_bytes, element_bytes, field_bytes, opt_element_bytes,
    tuple_bytes, type_code_of,
};
use super::frames::cell;
use super::laws::{lemma_count, lemma_nullable};
use crate::error::{after, Coded, CodecError, Part};
use crate::ipc::decode::{column_data, column_value_at, Decoded};
use crate::ipc::encode::{max_len, sized};
use crate::value::{ColumnType, UdtDefinition, Val};
use crate::wire::be4;
use vstd::prelude::*;

verus! {

broadcast use crate::wire::group_be;

/// A value of which every part belongs to its type.
pub open spec fn whole(t: ColumnType, v: Val) -> bool
    decreases t, 1int,
{
    match (t, v) {
        (ColumnType::List(e), Val::List(s)) => forall|i: int|
            0 <= i < s.len() ==> whole(*e, #[trigger] s[i]),
        (ColumnType::SetOf(e), Val::SetOf(s)) => forall|i: int|
            0 <= i < s.len() ==> whole(*e, #[trigger] s[i]),
        (ColumnType::MapOf(_, _), Val::MapOf(s)) => forall|i: int|
            0 <= i < s.len() ==> whole_entry(t, #[trigger] s[i]),
        _ => sent_in_set(t, v),
    }
}

/// An entry of a map of which every part belongs to its type.
pub open spec fn whole_entry(t: ColumnType, e: (Val, Val)) -> bool
    decreases t, 0int,
{
    match t {
        ColumnType::MapOf(k, v) => whole(*k, e.0) && whole(*v, e.1),
        _ => false,
    }
}

/// Bytes stand for a value: they decode, by its type, to the value itself or
/// to a collection of as many blobs, each of which stands for the element, the
/// key or the value at its place.
pub open spec fn stands(data: Seq<u8>, t: ColumnType, v: Val) -> bool
    decreases t, 1int,
{
    match (t, v) {
        (ColumnType::List(e), Val::List(s)) => column_data(data, 0x0020) matches Ok(Val::List(r))
            && r.len() == s.len() && forall|i: int|
            0 <= i < s.len() ==> (#[trigger] r[i] matches Val::Blob(b) && stands(b, *e, s[i])),
        (ColumnType::SetOf(e), Val::SetOf(s)) => column_data(data, 0x0022) matches Ok(
            Val::SetOf(r),
        ) && r.len() == s.len() && forall|i: int|
            0 <= i < s.len() ==> (#[trigger] r[i] matches Val::Blob(b) && stands(b, *e, s[i])),
        (ColumnType::MapOf(_, _), Val::MapOf(s)) => column_data(data, 0x0021) matches Ok(
            Val::MapOf(r),
        ) && r.len() == s.len() && forall|i: int|
            0 <= i < s.len() ==> (#[trigger] r[i] matches (Val::Blob(a), Val::Blob(b))
                && entry_stands(a, b, t, s[i])),
        _ => column_data(data, type_code_of(t)->0) == Decoded::Ok(v),
    }
}

/// Bytes stand for the key and the value of an entry.
pub open spec fn entry_stands(a: Seq<u8>, b: Seq<u8>, t: ColumnType, e: (Val, Val)) -> bool
    decreases t, 0int,
{
    match t {
        ColumnType::MapOf(k, v) => stands(a, *k, e.0) && stands(b, *v, e.1),
        _ => false,
    }
}

/// A list or a set of items that are not null is read as their blobs.
proof fn lemma_collection(data: Seq<Seq<u8>>)
    requires
        data.len() <= max_len(),
        forall|i: int| 0 <= i < data.len() ==> (#[trigger] data[i]).len() <= max_len(),
    ensures
        ({
            let bytes = be4(data.len() as int) + items_in_line(not_null(data));
            &&& column_data(bytes, 0x0020) matches Ok(Val::List(r)) && are_blobs(r, data)
            &&& column_data(bytes, 0x0022) matches Ok(Val::SetOf(r)) && are_blobs(r, data)
        }),
{
    let none = Seq::<u8>::empty();
    let items = not_null(data);
    assert forall|i: int| 0 <= i < items.len() implies item_fits(#[trigger] items[i]) by {
        assert(items[i] == Some(data[i]));
    }
    lemma_count(items.len() as int, items_in_line(items));
    law_all_items_are_present(data);
    law_items_are_read(items, none, Part::ListElement);
    law_items_are_read(items, none, Part::SetElement);
    assert(items_in_line(items) + none =~= items_in_line(items));
    reveal(column_data);
}

/// A map of entries that are not null is read as their blobs.
proof fn lemma_map(data: Seq<(Seq<u8>, Seq<u8>)>)
    requires
        data.len() <= max_len(),
        forall|i: int|
            0 <= i < data.len() ==> (#[trigger] data[i]).0.len() <= max_len() && data[i].1.len()
                <= max_len(),
    ensures
        column_data(
            be4(data.len() as int) + entries_in_line(whole_entries(data)),
            0x0021,
        ) matches Ok(Val::MapOf(r)) && r.len() == data.len() && forall|i: int|
            0 <= i < data.len() ==> #[trigger] r[i] == (Val::Blob(data[i].0), Val::Blob(data[i].1)),
{
    let none = Seq::<u8>::empty();
    let entries = whole_entries(data);
    assert forall|i: int| 0 <= i < entries.len() implies item_fits((#[trigger] entries[i]).0)
        && item_fits(entries[i].1) by {
        assert(entries[i] == (Some(data[i].0), Some(data[i].1)));
    }
    lemma_all_keyed(data);
    lemma_count(entries.len() as int, entries_in_line(entries));
    law_entries_are_read(entries, none);
    assert(entries_in_line(entries) + none =~= entries_in_line(entries));
    reveal(column_data);
    let r = column_data(be4(data.len() as int) + entries_in_line(entries), 0x0021)->Ok_0->MapOf_0;
    assert forall|i: int| 0 <= i < data.len() implies #[trigger] r[i] == (
        Val::Blob(data[i].0),
        Val::Blob(data[i].1),
    ) by {
        assert(keyed(entries)[i] == (data[i].0, Some(data[i].1)));
    }
}

/// An element is sent as bytes that stand for it.
proof fn lemma_nested(t: ColumnType, v: Val) -> (data: Seq<u8>)
    requires
        whole(t, v),
        element_bytes(t, v) is Ok,
        element_bytes(t, v)->Ok_0.len() <= max_len(),
    ensures
        data.len() <= max_len(),
        element_bytes(t, v) == Coded::Ok(sized(data)),
        stands(data, t, v),
    decreases t, 1int, 0nat,
{
    match (t, v) {
        (ColumnType::List(e), Val::List(s)) => {
            let line = lemma_nested_line(*e, s);
            lemma_collection(line);
            be4(s.len() as int) + items_in_line(not_null(line))
        },
        (ColumnType::SetOf(e), Val::SetOf(s)) => {
            let line = lemma_nested_line(*e, s);
            lemma_collection(line);
            be4(s.len() as int) + items_in_line(not_null(line))
        },
        (ColumnType::MapOf(_, _), Val::MapOf(s)) => {
            let line = lemma_nested_entries(t, s);
            lemma_map(line);
            let data = be4(s.len() as int) + entries_in_line(whole_entries(line));
            let r = column_data(data, 0x0021)->Ok_0->MapOf_0;
            assert forall|i: int| 0 <= i < s.len() implies (#[trigger] r[i] matches (
                Val::Blob(a),
                Val::Blob(b),
            ) && entry_stands(a, b, t, s[i])) by {
                assert(entry_stands(line[i].0, line[i].1, t, s[i]));
            }
            data
        },
        _ => lemma_element(t, v),
    }
}

/// Elements are sent one behind the other, as bytes that stand for them.
proof fn lemma_nested_line(t: ColumnType, s: Seq<Val>) -> (data: Seq<Seq<u8>>)
    requires
        forall|i: int| 0 <= i < s.len() ==> whole(t, #[trigger] s[i]),
        all_element_bytes(t, s) is Ok,
        all_element_bytes(t, s)->Ok_0.len() <= max_len(),
    ensures
        data.len() == s.len(),
        forall|i: int|
            0 <= i < s.len() ==> (#[trigger] data[i]).len() <= max_len() && stands(
                data[i],
                t,
                s[i],
            ),
        all_element_bytes(t, s) == Coded::Ok(items_in_line(not_null(data))),
    decreases t, 2int, s.len(),
{
    if s.len() == 0 {
        let data = Seq::<Seq<u8>>::empty();
        assert(items_in_line(not_null(data)) =~= Seq::empty());
        data
    } else {
        let more = s.skip(1);
        assert(forall|i: int| 0 <= i < more.len() ==> more[i] == s[i + 1]);
        let first = lemma_nested(t, s[0]);
        let tail = lemma_nested_line(t, more);
        let data = seq![first] + tail;
        assert(not_null(data).skip(1) =~= not_null(tail));
        assert(not_null(data)[0] == Some(first));
        assert forall|i: int| 0 <= i < s.len() implies (#[trigger] data[i]).len() <= max_len()
            && stands(data[i], t, s[i]) by {
            if i > 0 {
                assert(data[i] == tail[i - 1]);
                assert(more[i - 1] == s[i]);
            }
        }
        data
    }
}

/// Entries are sent one behind the other, as bytes that stand for them.
proof fn lemma_nested_entries(t: ColumnType, s: Seq<(Val, Val)>) -> (data: Seq<
    (Seq<u8>, Seq<u8>),
>)
    requires
        t is MapOf,
        forall|i: int| 0 <= i < s.len() ==> whole_entry(t, #[trigger] s[i]),
        all_entry_bytes(t, s) is Ok,
        all_entry_bytes(t, s)->Ok_0.len() <= max_len(),
    ensures
        data.len() == s.len(),
        forall|i: int|
            0 <= i < s.len() ==> (#[trigger] data[i]).0.len() <= max_len() && data[i].1.len()
                <= max_len() && entry_stands(data[i].0, data[i].1, t, s[i]),
        all_entry_bytes(t, s) == Coded::Ok(entries_in_line(whole_entries(data))),
    decreases t, 0int, s.len(),
{
    if s.len() == 0 {
        let data = Seq::<(Seq<u8>, Seq<u8>)>::empty();
        assert(entries_in_line(whole_entries(data)) =~= Seq::empty());
        data
    } else {
        let more = s.skip(1);
        assert(forall|i: int| 0 <= i < more.len() ==> more[i] == s[i + 1]);
        assert(whole_entry(t, s[0]));
        match t {
            ColumnType::MapOf(k, e) => {
                let key = lemma_nested(*k, s[0].0);
                let value = lemma_nested(*e, s[0].1);
                let tail = lemma_nested_entries(t, more);
                let data = seq![(key, value)] + tail;
                assert(whole_entries(data).skip(1) =~= whole_entries(tail));
                assert(whole_entries(data)[0] == (Some(key), Some(value)));
                assert(all_entry_bytes(t, s) == after(
                    sized(key) + sized(value),
                    all_entry_bytes(t, more),
                ));
                assert forall|i: int| 0 <= i < s.len() implies (#[trigger] data[i]).0.len()
                    <= max_len() && data[i].1.len() <= max_len() && entry_stands(
                    data[i].0,
                    data[i].1,
                    t,
                    s[i],
                ) by {
                    if i > 0 {
                        assert(data[i] == tail[i - 1]);
                        assert(more[i - 1] == s[i]);
                    }
                }
                data
            },
            _ => Seq::empty(),
        }
    }
}

/// Of a set or a map column the client reads blobs that stand, at every
/// depth, for the elements, keys and values at their places.
pub proof fn law_nested_collections_are_read(t: ColumnType, v: Val, rest: Seq<u8>)
    requires
        t is SetOf || t is MapOf,
        v is SetOf || v is MapOf,
        whole(t, v),
        cell(t, Some(v)) is Ok,
    ensures
        exists|data: Seq<u8>|
            cell(t, Some(v))->Ok_0 == #[trigger] sized(data) && stands(data, t, v) && (column_data(
                data,
                type_code_of(t)->0,
            ) matches Ok(read) && column_value_at(
                cell(t, Some(v))->Ok_0 + rest,
                type_code_of(t)->0,
            ) == Ok::<(Option<Val>, Seq<u8>), CodecError>((Some(read), rest))),
{
    match (t, v) {
        (ColumnType::SetOf(e), Val::SetOf(s)) => {
            let line = lemma_nested_line(*e, s);
            lemma_collection(line);
            let data = be4(s.len() as int) + items_in_line(not_null(line));
            assert(cell(t, Some(v))->Ok_0 == sized(data));
            lemma_nullable(data, rest, Part::ColumnValue);
            assert(stands(data, t, v));
        },
        (ColumnType::MapOf(_, _), Val::MapOf(s)) => {
            let line = lemma_nested_entries(t, s);
            lemma_map(line);
            let data = be4(s.len() as int) + entries_in_line(whole_entries(line));
            assert(cell(t, Some(v))->Ok_0 == sized(data));
            lemma_nullable(data, rest, Part::ColumnValue);
            let r = column_data(data, 0x0021)->Ok_0->MapOf_0;
            assert forall|i: int| 0 <= i < s.len() implies (#[trigger] r[i] matches (
                Val::Blob(a),
                Val::Blob(b),
            ) && entry_stands(a, b, t, s[i])) by {
                assert(entry_stands(line[i].0, line[i].1, t, s[i]));
            }
            assert(stands(data, t, v));
        },
        _ => {},
    }
}

/// An item stands for an optional value: a null for none.
pub open spec fn item_stands(item: Option<Seq<u8>>, t: ColumnType, v: Option<Val>) -> bool {
    match (item, v) {
        (None, None) => true,
        (Some(data), Some(x)) => stands(data, t, x),
        _ => false,
    }
}

/// The elements of a tuple from one on stand in a line.
proof fn lemma_tuple_line(types: Seq<ColumnType>, s: Seq<Option<Val>>, k: nat) -> (items: Seq<
    Option<Seq<u8>>,
>)
    requires
        types.len() == s.len(),
        k <= s.len(),
        forall|i: int|
            0 <= i < s.len() ==> (#[trigger] s[i] matches Some(x) ==> whole(types[i], x)),
        tuple_bytes(types, s, k) is Ok,
        tuple_bytes(types, s, k)->Ok_0.len() <= max_len(),
    ensures
        items.len() == s.len() - k,
        forall|i: int| k <= i < s.len() ==> item_stands(items[i - k], types[i], #[trigger] s[i]),
        tuple_bytes(types, s, k) == Coded::Ok(items_in_line(items)),
    decreases s.len() - k,
{
    if k == s.len() {
        let items = Seq::<Option<Seq<u8>>>::empty();
        assert(items_in_line(items) =~= Seq::empty());
        items
    } else {
        let tail = lemma_tuple_line(types, s, k + 1);
        let first = match s[k as int] {
            Some(x) => Some(lemma_nested(types[k as int], x)),
            None => None,
        };
        let items = seq![first] + tail;
        assert(items.skip(1) =~= tail);
        assert forall|i: int| k <= i < s.len() implies item_stands(
            items[i - k],
            types[i],
            #[trigger] s[i],
        ) by {
            if i > k {
                assert(items[i - k] == tail[i - (k + 1)]);
            }
        }
        items
    }
}

/// A tuple column is read as a blob of items, one for each element, which
/// stand for the elements in their order; nulls are nulls.
pub proof fn law_tuple_is_read(
    t: ColumnType,
    types: Seq<ColumnType>,
    s: Seq<Option<Val>>,
    rest: Seq<u8>,
)
    requires
        t matches ColumnType::Tuple(v) && v@ == types,
        types.len() == s.len(),
        forall|i: int|
            0 <= i < s.len() ==> (#[trigger] s[i] matches Some(x) ==> whole(types[i], x)),
        cell(t, Some(Val::Tuple(s))) is Ok,
    ensures
        exists|items: Seq<Option<Seq<u8>>>|
            items.len() == s.len() && (forall|i: int|
                0 <= i < s.len() ==> item_stands(items[i], types[i], #[trigger] s[i]))
                && column_value_at(
                cell(t, Some(Val::Tuple(s)))->Ok_0 + rest,
                type_code_of(t)->0,
            ) == Ok::<(Option<Val>, Seq<u8>), CodecError>(
                (Some(Val::Blob(#[trigger] items_in_line(items))), rest),
            ),
{
    let items = lemma_tuple_line(types, s, 0);
    let data = items_in_line(items);
    lemma_nullable(data, rest, Part::ColumnValue);
    reveal(column_data);
    assert forall|i: int| 0 <= i < s.len() implies item_stands(items[i], types[i], #[trigger] s[i]) by {
        assert(item_stands(items[i - 0], types[i], s[i]));
    }
}

/// The fields of a user-defined type from one on stand in a line.
proof fn lemma_field_line(
    types: Seq<(String, ColumnType)>,
    s: Seq<(Seq<char>, Option<Val>)>,
    k: nat,
) -> (items: Seq<Option<Seq<u8>>>)
    requires
        types.len() == s.len(),
        k <= s.len(),
        forall|i: int|
            0 <= i < s.len() ==> ((#[trigger] s[i]).1 matches Some(x) ==> whole(types[i].1, x)),
        field_bytes(types, s, k) is Ok,
        field_bytes(types, s, k)->Ok_0.len() <= max_len(),
    ensures
        items.len() == s.len() - k,
        forall|i: int|
            k <= i < s.len() ==> item_stands(items[i - k], types[i].1, (#[trigger] s[i]).1),
        field_bytes(types, s, k) == Coded::Ok(items_in_line(items)),
    decreases s.len() - k,
{
    if k == s.len() {
        let items = Seq::<Option<Seq<u8>>>::empty();
        assert(items_in_line(items) =~= Seq::empty());
        items
    } else {
        let (t, v) = (types[k as int].1, s[k as int].1);
        assert(field_bytes(types, s, k) == (match opt_element_bytes(t, v) {
            Ok(bytes) => after(bytes, field_bytes(types, s, k + 1)),
            Err(e) => Coded::Err(e),
        }));
        assert(opt_element_bytes(t, v) == (match v {
            Some(x) => element_bytes(t, x),
            None => Coded::Ok(be4(-1)),
        }));
        let tail = lemma_field_line(types, s, k + 1);
        let first = match s[k as int].1 {
            Some(x) => Some(lemma_nested(types[k as int].1, x)),
            None => None,
        };
        let items = seq![first] + tail;
        assert(items.skip(1) =~= tail);
        assert forall|i: int| k <= i < s.len() implies item_stands(
            items[i - k],
            types[i].1,
            (#[trigger] s[i]).1,
        ) by {
            if i > k {
                assert(items[i - k] == tail[i - (k + 1)]);
            }
        }
        items
    }
}

/// A column of a user-defined type is read as a blob of items, one for each
/// field, which stand for the fields in their order; nulls are nulls.
pub proof fn law_fields_are_read(
    t: ColumnType,
    d: UdtDefinition,
    keyspace: Seq<char>,
    name: Seq<char>,
    s: Seq<(Seq<char>, Option<Val>)>,
    rest: Seq<u8>,
)
    requires
        t == ColumnType::UserDefinedType(d),
        d.field_types@.len() == s.len(),
        forall|i: int|
            0 <= i < s.len() ==> ((#[trigger] s[i]).1 matches Some(x) ==> whole(
                d.field_types@[i].1,
                x,
            )),
        cell(t, Some(Val::Udt(keyspace, name, s))) is Ok,
    ensures
        exists|items: Seq<Option<Seq<u8>>>|
            items.len() == s.len() && (forall|i: int|
                0 <= i < s.len() ==> item_stands(
                    items[i],
                    d.field_types@[i].1,
                    (#[trigger] s[i]).1,
                )) && column_value_at(
                cell(t, Some(Val::Udt(keyspace, name, s)))->Ok_0 + rest,
                type_code_of(t)->0,
            ) == Ok::<(Option<Val>, Seq<u8>), CodecError>(
                (Some(Val::Blob(#[trigger] items_in_line(items))), rest),
            ),
{
    let types = d.field_types@;
    let items = lemma_field_line(types, s, 0);
    let data = items_in_line(items);
    lemma_nullable(data, rest, Part::ColumnValue);
    reveal(column_data);
    assert forall|i: int| 0 <= i < s.len() implies item_stands(
        items[i],
        types[i].1,
        (#[trigger] s[i]).1,
    ) by {
        assert(item_stands(items[i - 0], types[i].1, s[i].1));
    }
}

} // verus!
