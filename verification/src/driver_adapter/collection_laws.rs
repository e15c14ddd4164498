//! What the client reads of the lists, sets and maps in a result.

use super::encode::{
    all_element_bytes, all_entry_bytes, all_list_element_bytes, column_bytes, duration_bytes,
    element_bytes, float_bytes, list_element_bytes, type_code_of,
};
use super::frames::cell;
use super::laws::{all_floats, lemma_count, lemma_null, lemma_nullable};
use super::reply_laws::lemma_data;
use crate::error::{after, Coded, CodecError, Part};
use crate::ipc::decode::{blob_entries_of, blobs_of, column_data, column_value_at, Decoded};
use crate::ipc::encode::{max_len, sized};
use crate::value::{ColumnType, NativeType, Val};
use crate::wire::be4;
use vstd::prelude::*;
use vstd::utf8::encode_utf8;

verus! {

broadcast use crate::wire::group_be;

/// An item that may be null: its length and its data, or a negative length.
pub open spec fn item_sent(item: Option<Seq<u8>>) -> Seq<u8> {
    match item {
        Some(data) => sized(data),
        None => be4(-1),
    }
}

/// An item whose length fits.
pub open spec fn item_fits(item: Option<Seq<u8>>) -> bool {
    item matches Some(data) ==> data.len() <= max_len()
}

/// Items, one behind the other.
pub open spec fn items_in_line(items: Seq<Option<Seq<u8>>>) -> Seq<u8>
    decreases items.len(),
{
    if items.len() == 0 {
        Seq::empty()
    } else {
        item_sent(items[0]) + items_in_line(items.skip(1))
    }
}

/// The items that are not null, in their order.
pub open spec fn present(items: Seq<Option<Seq<u8>>>) -> Seq<Seq<u8>>
    decreases items.len(),
{
    if items.len() == 0 {
        Seq::empty()
    } else {
        match items[0] {
            Some(data) => seq![data] + present(items.skip(1)),
            None => present(items.skip(1)),
        }
    }
}

/// Values are blobs of these bytes, one by one.
pub open spec fn are_blobs(s: Seq<Val>, data: Seq<Seq<u8>>) -> bool {
    s.len() == data.len() && forall|i: int|
        0 <= i < s.len() ==> #[trigger] s[i] == Val::Blob(data[i])
}

/// The items of a list or a set that are not null are read as blobs of their
/// bytes, in their order.
pub proof fn law_items_are_read(items: Seq<Option<Seq<u8>>>, rest: Seq<u8>, part: Part)
    requires
        forall|i: int| 0 <= i < items.len() ==> item_fits(#[trigger] items[i]),
    ensures
        blobs_of(items_in_line(items) + rest, items.len(), part) matches Ok(s) && are_blobs(
            s,
            present(items),
        ),
    decreases items.len(),
{
    if items.len() > 0 {
        let more = items.skip(1);
        let tail = items_in_line(more) + rest;
        assert(items_in_line(items) + rest =~= item_sent(items[0]) + tail);
        assert(item_fits(items[0]));
        assert(forall|i: int| 0 <= i < more.len() ==> more[i] == items[i + 1]);
        law_items_are_read(more, rest, part);
        match items[0] {
            Some(data) => {
                lemma_nullable(data, tail, part);
                let s = blobs_of(tail, more.len(), part)->Ok_0;
                let all = seq![Val::Blob(data)] + s;
                let want = seq![data] + present(more);
                assert forall|i: int| 0 <= i < all.len() implies #[trigger] all[i] == Val::Blob(
                    want[i],
                ) by {
                    if i > 0 {
                        assert(all[i] == s[i - 1]);
                        assert(want[i] == present(more)[i - 1]);
                    }
                }
            },
            None => {
                lemma_null(tail, part);
            },
        }
    }
}

/// Where no item is null, all are there.
pub proof fn law_all_items_are_present(data: Seq<Seq<u8>>)
    ensures
        present(data.map_values(|d: Seq<u8>| Some(d))) == data,
    decreases data.len(),
{
    let items = data.map_values(|d: Seq<u8>| Some(d));
    if data.len() > 0 {
        let more = data.skip(1);
        law_all_items_are_present(more);
        assert(items.skip(1) =~= more.map_values(|d: Seq<u8>| Some(d)));
        assert(items[0] == Some(data[0]));
        assert(seq![data[0]] + more =~= data);
    } else {
        assert(present(items) =~= data);
    }
}

/// A list or a set column is read as the blobs of its items that are not null.
pub proof fn law_collection_column_is_read(items: Seq<Option<Seq<u8>>>, rest: Seq<u8>)
    requires
        items.len() <= max_len(),
        (be4(items.len() as int) + items_in_line(items)).len() <= max_len(),
        forall|i: int| 0 <= i < items.len() ==> item_fits(#[trigger] items[i]),
    ensures
        ({
            let bytes = sized(be4(items.len() as int) + items_in_line(items)) + rest;
            &&& column_value_at(bytes, 0x0020) matches Ok((Some(Val::List(s)), left)) && left
                == rest && are_blobs(s, present(items))
            &&& column_value_at(bytes, 0x0022) matches Ok((Some(Val::SetOf(s)), left)) && left
                == rest && are_blobs(s, present(items))
        }),
{
    let none = Seq::<u8>::empty();
    let data = be4(items.len() as int) + items_in_line(items);
    lemma_nullable(data, rest, Part::ColumnValue);
    lemma_count(items.len() as int, items_in_line(items));
    law_items_are_read(items, none, Part::ListElement);
    law_items_are_read(items, none, Part::SetElement);
    assert(items_in_line(items) + none =~= items_in_line(items));
    reveal(column_data);
}

/// A key and a value that may be null.
pub type RawEntry = (Option<Seq<u8>>, Option<Seq<u8>>);

/// Entries, one behind the other.
pub open spec fn entries_in_line(entries: Seq<RawEntry>) -> Seq<u8>
    decreases entries.len(),
{
    if entries.len() == 0 {
        Seq::empty()
    } else {
        item_sent(entries[0].0) + item_sent(entries[0].1) + entries_in_line(entries.skip(1))
    }
}

/// The entries with a key that is not null, in their order.
pub open spec fn keyed(entries: Seq<RawEntry>) -> Seq<(Seq<u8>, Option<Seq<u8>>)>
    decreases entries.len(),
{
    if entries.len() == 0 {
        Seq::empty()
    } else {
        match entries[0].0 {
            Some(key) => seq![(key, entries[0].1)] + keyed(entries.skip(1)),
            None => keyed(entries.skip(1)),
        }
    }
}

/// Entries are blobs of these bytes, one by one; a null value is an empty one.
pub open spec fn are_blob_entries(
    s: Seq<(Val, Val)>,
    data: Seq<(Seq<u8>, Option<Seq<u8>>)>,
) -> bool {
    s.len() == data.len() && forall|i: int|
        0 <= i < s.len() ==> (#[trigger] s[i]).0 == Val::Blob(data[i].0) && s[i].1 == (
        match data[i].1 {
            Some(value) => Val::Blob(value),
            None => Val::Empty,
        })
}

/// The entries of a map are read as blobs of their bytes, in their order: all
/// but those with a null key, of which nothing is left.
pub proof fn law_entries_are_read(entries: Seq<RawEntry>, rest: Seq<u8>)
    requires
        forall|i: int|
            0 <= i < entries.len() ==> item_fits((#[trigger] entries[i]).0) && item_fits(
                entries[i].1,
            ),
    ensures
        blob_entries_of(entries_in_line(entries) + rest, entries.len()) matches Ok(s)
            && are_blob_entries(s, keyed(entries)),
    decreases entries.len(),
{
    if entries.len() > 0 {
        let more = entries.skip(1);
        let tail = entries_in_line(more) + rest;
        let middle = item_sent(entries[0].1) + tail;
        assert(entries_in_line(entries) + rest =~= item_sent(entries[0].0) + middle);
        assert(item_fits(entries[0].0) && item_fits(entries[0].1));
        assert(forall|i: int| 0 <= i < more.len() ==> more[i] == entries[i + 1]);
        law_entries_are_read(more, rest);
        match entries[0].1 {
            Some(value) => lemma_nullable(value, tail, Part::MapValue),
            None => lemma_null(tail, Part::MapValue),
        }
        match entries[0].0 {
            Some(key) => {
                lemma_nullable(key, middle, Part::MapKey);
                let value = match entries[0].1 {
                    Some(value) => Val::Blob(value),
                    None => Val::Empty,
                };
                let s = blob_entries_of(tail, more.len())->Ok_0;
                let all = seq![(Val::Blob(key), value)] + s;
                let want = seq![(key, entries[0].1)] + keyed(more);
                assert(blob_entries_of(entries_in_line(entries) + rest, entries.len()) == Ok::<
                    Seq<(Val, Val)>,
                    CodecError,
                >(all));
                assert forall|i: int| 0 <= i < all.len() implies (#[trigger] all[i]).0
                    == Val::Blob(want[i].0) && all[i].1 == (match want[i].1 {
                    Some(value) => Val::Blob(value),
                    None => Val::Empty,
                }) by {
                    if i > 0 {
                        assert(all[i] == s[i - 1]);
                        assert(want[i] == keyed(more)[i - 1]);
                    }
                }
            },
            None => {
                lemma_null(middle, Part::MapKey);
            },
        }
    }
}

/// A map column is read as the blobs of its entries.
pub proof fn law_map_column_is_read(entries: Seq<RawEntry>, rest: Seq<u8>)
    requires
        entries.len() <= max_len(),
        (be4(entries.len() as int) + entries_in_line(entries)).len() <= max_len(),
        forall|i: int|
            0 <= i < entries.len() ==> item_fits((#[trigger] entries[i]).0) && item_fits(
                entries[i].1,
            ),
    ensures
        column_value_at(
            sized(be4(entries.len() as int) + entries_in_line(entries)) + rest,
            0x0021,
        ) matches Ok((Some(Val::MapOf(s)), left)) && left == rest && are_blob_entries(
            s,
            keyed(entries),
        ),
{
    let none = Seq::<u8>::empty();
    let data = be4(entries.len() as int) + entries_in_line(entries);
    lemma_nullable(data, rest, Part::ColumnValue);
    lemma_count(entries.len() as int, entries_in_line(entries));
    law_entries_are_read(entries, none);
    assert(entries_in_line(entries) + none =~= entries_in_line(entries));
    reveal(column_data);
}

/// An element that a list column sends.
pub open spec fn sent_in_list(t: ColumnType, v: Val) -> bool {
    column_bytes(t, v) is Ok && match (t, v) {
        (ColumnType::Native(NativeType::Int), Val::Int(_)) => true,
        (ColumnType::Native(NativeType::BigInt), Val::BigInt(_)) => true,
        (ColumnType::Native(NativeType::Float), Val::Float(_)) => true,
        (ColumnType::Native(NativeType::Text), Val::Text(_)) => true,
        (ColumnType::Vector { .. }, Val::Vector(_)) => true,
        _ => false,
    }
}

/// An element that a set column sends, or a key or a value that a map column sends.
pub open spec fn sent_in_set(t: ColumnType, v: Val) -> bool {
    sent_in_list(t, v) || match (t, v) {
        (ColumnType::Native(NativeType::Double), Val::Double(_)) => true,
        (ColumnType::Native(NativeType::Boolean), Val::Boolean(_)) => true,
        _ => false,
    }
}

/// Bytes that stand for values of a type, one by one.
pub open spec fn stand_for(data: Seq<Seq<u8>>, t: ColumnType, s: Seq<Val>) -> bool {
    data.len() == s.len() && forall|i: int|
        0 <= i < s.len() ==> column_data(#[trigger] data[i], type_code_of(t)->0) == Decoded::Ok(
            s[i],
        )
}

/// The items of these bytes, none of them null.
pub open spec fn not_null(data: Seq<Seq<u8>>) -> Seq<Option<Seq<u8>>> {
    data.map_values(|d: Seq<u8>| Some(d))
}

/// An element is sent as a column of its type is.
pub(crate) proof fn lemma_element(t: ColumnType, v: Val) -> (data: Seq<u8>)
    requires
        sent_in_set(t, v),
    ensures
        data.len() <= max_len(),
        element_bytes(t, v) == Coded::Ok(sized(data)),
        sent_in_list(t, v) ==> list_element_bytes(t, v) == Coded::Ok(sized(data)),
        column_data(data, type_code_of(t)->0) == Decoded::Ok(v),
{
    lemma_data(t, v)
}

/// The elements of a set stand in a line, each as a column of its type is sent.
proof fn lemma_set_line(t: ColumnType, s: Seq<Val>) -> (data: Seq<Seq<u8>>)
    requires
        forall|i: int| 0 <= i < s.len() ==> sent_in_set(t, #[trigger] s[i]),
    ensures
        stand_for(data, t, s),
        forall|i: int| 0 <= i < data.len() ==> (#[trigger] data[i]).len() <= max_len(),
        all_element_bytes(t, s) == Coded::Ok(items_in_line(not_null(data))),
    decreases s.len(),
{
    if s.len() == 0 {
        let data = Seq::<Seq<u8>>::empty();
        assert(items_in_line(not_null(data)) =~= Seq::empty());
        data
    } else {
        let more = s.skip(1);
        assert(forall|i: int| 0 <= i < more.len() ==> more[i] == s[i + 1]);
        let first = lemma_element(t, s[0]);
        let tail = lemma_set_line(t, more);
        let data = seq![first] + tail;
        assert(not_null(data).skip(1) =~= not_null(tail));
        assert(not_null(data)[0] == Some(first));
        assert forall|i: int| 0 <= i < s.len() implies column_data(
            #[trigger] data[i],
            type_code_of(t)->0,
        ) == Decoded::Ok(s[i]) by {
            if i > 0 {
                assert(data[i] == tail[i - 1]);
                assert(more[i - 1] == s[i]);
            }
        }
        data
    }
}

/// The elements of a list stand in a line, each as a column of its type is sent.
proof fn lemma_list_line(t: ColumnType, s: Seq<Val>) -> (data: Seq<Seq<u8>>)
    requires
        forall|i: int| 0 <= i < s.len() ==> sent_in_list(t, #[trigger] s[i]),
    ensures
        stand_for(data, t, s),
        forall|i: int| 0 <= i < data.len() ==> (#[trigger] data[i]).len() <= max_len(),
        all_list_element_bytes(t, s) == Coded::Ok(items_in_line(not_null(data))),
    decreases s.len(),
{
    if s.len() == 0 {
        let data = Seq::<Seq<u8>>::empty();
        assert(items_in_line(not_null(data)) =~= Seq::empty());
        data
    } else {
        let more = s.skip(1);
        assert(forall|i: int| 0 <= i < more.len() ==> more[i] == s[i + 1]);
        let first = lemma_element(t, s[0]);
        let tail = lemma_list_line(t, more);
        let data = seq![first] + tail;
        assert(not_null(data).skip(1) =~= not_null(tail));
        assert(not_null(data)[0] == Some(first));
        assert forall|i: int| 0 <= i < s.len() implies column_data(
            #[trigger] data[i],
            type_code_of(t)->0,
        ) == Decoded::Ok(s[i]) by {
            if i > 0 {
                assert(data[i] == tail[i - 1]);
                assert(more[i - 1] == s[i]);
            }
        }
        data
    }
}

/// Blobs that stand for values of a type: each decodes, as a column of the
/// type, to the value at its place.
pub open spec fn blobs_stand_for(blobs: Seq<Val>, t: ColumnType, s: Seq<Val>) -> bool {
    blobs.len() == s.len() && forall|i: int|
        0 <= i < s.len() ==> (#[trigger] blobs[i] matches Val::Blob(b) && column_data(
            b,
            type_code_of(t)->0,
        ) == Decoded::Ok(s[i]))
}

/// Of a list column the client reads as many blobs as there are elements, and
/// each decodes, by the type of the elements, to the element at its place.
pub proof fn law_list_is_read_element_by_element(t: ColumnType, s: Seq<Val>, rest: Seq<u8>)
    requires
        forall|i: int| 0 <= i < s.len() ==> sent_in_list(t, #[trigger] s[i]),
        cell(ColumnType::List(Box::new(t)), Some(Val::List(s))) is Ok,
    ensures
        column_value_at(
            cell(ColumnType::List(Box::new(t)), Some(Val::List(s)))->Ok_0 + rest,
            type_code_of(ColumnType::List(Box::new(t)))->0,
        ) matches Ok((Some(Val::List(blobs)), left)) && left == rest && blobs_stand_for(
            blobs,
            t,
            s,
        ),
{
    let data = lemma_list_line(t, s);
    let items = not_null(data);
    law_all_items_are_present(data);
    assert forall|i: int| 0 <= i < items.len() implies item_fits(#[trigger] items[i]) by {
        assert(items[i] == Some(data[i]));
    }
    law_collection_column_is_read(items, rest);
}

/// Of a set column the client reads as many blobs as there are elements, and
/// each decodes, by the type of the elements, to the element at its place.
pub proof fn law_set_is_read_element_by_element(t: ColumnType, s: Seq<Val>, rest: Seq<u8>)
    requires
        forall|i: int| 0 <= i < s.len() ==> sent_in_set(t, #[trigger] s[i]),
        cell(ColumnType::SetOf(Box::new(t)), Some(Val::SetOf(s))) is Ok,
    ensures
        column_value_at(
            cell(ColumnType::SetOf(Box::new(t)), Some(Val::SetOf(s)))->Ok_0 + rest,
            type_code_of(ColumnType::SetOf(Box::new(t)))->0,
        ) matches Ok((Some(Val::SetOf(blobs)), left)) && left == rest && blobs_stand_for(
            blobs,
            t,
            s,
        ),
{
    let data = lemma_set_line(t, s);
    let items = not_null(data);
    law_all_items_are_present(data);
    assert forall|i: int| 0 <= i < items.len() implies item_fits(#[trigger] items[i]) by {
        assert(items[i] == Some(data[i]));
    }
    law_collection_column_is_read(items, rest);
}

/// The entries of a map stand in a line, each key and value as a column of its type is sent.
proof fn lemma_map_line(k: ColumnType, e: ColumnType, s: Seq<(Val, Val)>) -> (data: Seq<
    (Seq<u8>, Seq<u8>),
>)
    requires
        forall|i: int|
            0 <= i < s.len() ==> sent_in_set(k, (#[trigger] s[i]).0) && sent_in_set(e, s[i].1),
    ensures
        data.len() == s.len(),
        forall|i: int|
            0 <= i < s.len() ==> (#[trigger] data[i]).0.len() <= max_len() && data[i].1.len()
                <= max_len() && column_data(data[i].0, type_code_of(k)->0) == Decoded::Ok(s[i].0)
                && column_data(data[i].1, type_code_of(e)->0) == Decoded::Ok(s[i].1),
        all_entry_bytes(ColumnType::MapOf(Box::new(k), Box::new(e)), s) == Coded::Ok(
            entries_in_line(whole_entries(data)),
        ),
    decreases s.len(),
{
    let t = ColumnType::MapOf(Box::new(k), Box::new(e));
    if s.len() == 0 {
        let data = Seq::<(Seq<u8>, Seq<u8>)>::empty();
        assert(entries_in_line(whole_entries(data)) =~= Seq::empty());
        data
    } else {
        let more = s.skip(1);
        assert(forall|i: int| 0 <= i < more.len() ==> more[i] == s[i + 1]);
        let key = lemma_element(k, s[0].0);
        let value = lemma_element(e, s[0].1);
        let tail = lemma_map_line(k, e, more);
        let data = seq![(key, value)] + tail;
        assert(whole_entries(data).skip(1) =~= whole_entries(tail));
        assert(whole_entries(data)[0] == (Some(key), Some(value)));
        assert(all_entry_bytes(t, s) == after(sized(key) + sized(value), all_entry_bytes(t, more)));
        assert forall|i: int| 0 <= i < s.len() implies (#[trigger] data[i]).0.len() <= max_len()
            && data[i].1.len() <= max_len() && column_data(data[i].0, type_code_of(k)->0)
            == Decoded::Ok(s[i].0) && column_data(data[i].1, type_code_of(e)->0) == Decoded::Ok(
            s[i].1,
        ) by {
            if i > 0 {
                assert(data[i] == tail[i - 1]);
                assert(more[i - 1] == s[i]);
            }
        }
        data
    }
}

/// Entries of these bytes, without nulls.
pub open spec fn whole_entries(data: Seq<(Seq<u8>, Seq<u8>)>) -> Seq<RawEntry> {
    data.map_values(|d: (Seq<u8>, Seq<u8>)| (Some(d.0), Some(d.1)))
}

/// Entries without nulls are all there.
pub(crate) proof fn lemma_all_keyed(data: Seq<(Seq<u8>, Seq<u8>)>)
    ensures
        keyed(whole_entries(data)).len() == data.len(),
        forall|i: int|
            0 <= i < data.len() ==> #[trigger] keyed(whole_entries(data))[i] == (
                data[i].0,
                Some(data[i].1),
            ),
    decreases data.len(),
{
    let entries = whole_entries(data);
    if data.len() > 0 {
        let more = data.skip(1);
        lemma_all_keyed(more);
        assert(entries.skip(1) =~= whole_entries(more));
        assert(entries[0] == (Some(data[0].0), Some(data[0].1)));
        let all = keyed(entries);
        assert forall|i: int| 0 <= i < data.len() implies #[trigger] all[i] == (
            data[i].0,
            Some(data[i].1),
        ) by {
            if i > 0 {
                assert(all[i] == keyed(whole_entries(more))[i - 1]);
                assert(more[i - 1] == data[i]);
            }
        }
    }
}

/// Of a map column the client reads as many entries as there are, and each
/// key and value decodes, by its type, to the one at its place.
pub proof fn law_map_is_read_entry_by_entry(
    k: ColumnType,
    e: ColumnType,
    s: Seq<(Val, Val)>,
    rest: Seq<u8>,
)
    requires
        forall|i: int|
            0 <= i < s.len() ==> sent_in_set(k, (#[trigger] s[i]).0) && sent_in_set(e, s[i].1),
        cell(ColumnType::MapOf(Box::new(k), Box::new(e)), Some(Val::MapOf(s))) is Ok,
    ensures
        column_value_at(
            cell(ColumnType::MapOf(Box::new(k), Box::new(e)), Some(Val::MapOf(s)))->Ok_0 + rest,
            type_code_of(ColumnType::MapOf(Box::new(k), Box::new(e)))->0,
        ) matches Ok((Some(Val::MapOf(r)), left)) && left == rest && r.len() == s.len()
            && forall|i: int|
            0 <= i < s.len() ==> ((#[trigger] r[i]).0 matches Val::Blob(a) && column_data(
                a,
                type_code_of(k)->0,
            ) == Decoded::Ok(s[i].0)) && (r[i].1 matches Val::Blob(b) && column_data(
                b,
                type_code_of(e)->0,
            ) == Decoded::Ok(s[i].1)),
{
    let data = lemma_map_line(k, e, s);
    let entries = whole_entries(data);
    lemma_all_keyed(data);
    assert forall|i: int| 0 <= i < entries.len() implies item_fits((#[trigger] entries[i]).0)
        && item_fits(entries[i].1) by {
        assert(entries[i] == (Some(data[i].0), Some(data[i].1)));
    }
    law_map_column_is_read(entries, rest);
    let bytes = cell(ColumnType::MapOf(Box::new(k), Box::new(e)), Some(Val::MapOf(s)))->Ok_0;
    let r = column_value_at(bytes + rest, 0x0021)->Ok_0.0->Some_0->MapOf_0;
    assert forall|i: int| 0 <= i < s.len() implies ((#[trigger] r[i]).0 matches Val::Blob(a)
        && column_data(a, type_code_of(k)->0) == Decoded::Ok(s[i].0)) && (r[i].1 matches Val::Blob(
        b,
    ) && column_data(b, type_code_of(e)->0) == Decoded::Ok(s[i].1)) by {
        assert(keyed(entries)[i] == (data[i].0, Some(data[i].1)));
    }
}

/// A value that belongs to a column of a native or a vector type, with a length that fits.
pub open spec fn belongs(t: ColumnType, v: Val) -> bool {
    match (t, v) {
        (ColumnType::Native(NativeType::Int), Val::Int(_)) => true,
        (ColumnType::Native(NativeType::BigInt), Val::BigInt(_)) => true,
        (ColumnType::Native(NativeType::SmallInt), Val::SmallInt(_)) => true,
        (ColumnType::Native(NativeType::TinyInt), Val::TinyInt(_)) => true,
        (ColumnType::Native(NativeType::Boolean), Val::Boolean(_)) => true,
        (ColumnType::Native(NativeType::Float), Val::Float(_)) => true,
        (ColumnType::Native(NativeType::Double), Val::Double(_)) => true,
        (ColumnType::Native(NativeType::Date), Val::Date(_)) => true,
        (ColumnType::Native(NativeType::Time), Val::Time(_)) => true,
        (ColumnType::Native(NativeType::Timestamp), Val::Timestamp(_)) => true,
        (ColumnType::Native(NativeType::Counter), Val::Counter(_)) => true,
        (ColumnType::Native(NativeType::Uuid), Val::Uuid(_)) => true,
        (ColumnType::Native(NativeType::Timeuuid), Val::Timeuuid(_)) => true,
        (ColumnType::Native(NativeType::Inet), Val::Inet(_)) => true,
        (ColumnType::Native(NativeType::Text), Val::Text(s)) => encode_utf8(s).len() <= max_len(),
        (ColumnType::Native(NativeType::Ascii), Val::Ascii(s)) => encode_utf8(s).len() <= max_len(),
        (ColumnType::Native(NativeType::Blob), Val::Blob(b)) => b.len() <= max_len(),
        (ColumnType::Native(NativeType::Varint), Val::Varint(b)) => b.len() <= max_len(),
        (ColumnType::Native(NativeType::Decimal), Val::Decimal(b, _)) => b.len() + 4 <= max_len(),
        (ColumnType::Native(NativeType::Duration), Val::Duration(d)) => duration_bytes(d).len()
            <= max_len(),
        (ColumnType::Vector { dimensions, .. }, Val::Vector(s)) => s.len() == dimensions
            && all_floats(s),
        _ => false,
    }
}

/// A value is sent in a column of a native or a vector type exactly if it
/// belongs there, and a null always is.
pub proof fn law_values_that_belong_are_sent(t: ColumnType, v: Val)
    requires
        t is Native || t is Vector,
    ensures
        cell(t, Some(v)) is Ok <==> belongs(t, v),
        cell(t, None) is Ok,
{
    if let Val::Vector(s) = v {
        lemma_floats_are_sent(s);
    }
}

/// Floats, and only floats, are sent in a vector.
proof fn lemma_floats_are_sent(s: Seq<Val>)
    ensures
        float_bytes(s) is Ok <==> all_floats(s),
    decreases s.len(),
{
    if s.len() > 0 {
        let more = s.skip(1);
        lemma_floats_are_sent(more);
        assert(forall|i: int| 0 <= i < more.len() ==> more[i] == s[i + 1]);
        assert forall|i: int| all_floats(more) && s[0] is Float && 0 <= i < s.len() implies (
        #[trigger] s[i]) is Float by {
            if i > 0 {
                assert(more[i - 1] == s[i]);
            }
        }
    }
}

/// A list, set or map is sent where its items are, and their bytes are not too many.
pub proof fn law_collections_are_sent(t: ColumnType, s: Seq<Val>)
    requires
        s.len() <= max_len(),
    ensures
        (forall|i: int| 0 <= i < s.len() ==> sent_in_list(t, #[trigger] s[i])) && 4
            + all_list_element_bytes(t, s)->Ok_0.len() <= max_len() ==> cell(
            ColumnType::List(Box::new(t)),
            Some(Val::List(s)),
        ) is Ok,
        (forall|i: int| 0 <= i < s.len() ==> sent_in_set(t, #[trigger] s[i])) && 4
            + all_element_bytes(t, s)->Ok_0.len() <= max_len() ==> cell(
            ColumnType::SetOf(Box::new(t)),
            Some(Val::SetOf(s)),
        ) is Ok,
{
    if forall|i: int| 0 <= i < s.len() ==> sent_in_list(t, #[trigger] s[i]) {
        let _ = lemma_list_line(t, s);
    }
    if forall|i: int| 0 <= i < s.len() ==> sent_in_set(t, #[trigger] s[i]) {
        let _ = lemma_set_line(t, s);
    }
}

} // verus!
