//! What the adapter decodes of the values of a request.

use super::collection_laws::{
    entries_in_line, item_fits, item_sent, items_in_line, present, RawEntry,
};
use super::decode::{elements_of, entries_of, fields_of, int_of, tuple_of, typed};
use super::driver_integration::{all_plain, plain_bytes};
use super::laws::{lemma_null, lemma_nullable};
use super::sending_laws::is_simple;
use crate::error::{Coded, CodecError, Part};
use crate::ipc::client::all_encoded;
use crate::ipc::decode::Decoded;
use crate::ipc::encode::{code, encoded};
use crate::value::Val;
use crate::wire::{be2, be4, be8, lemma_be2, lemma_be4, lemma_be8};
use vstd::prelude::*;

verus! {

broadcast use crate::wire::group_be;

/// An integer is read by the number of its bytes: one, two, four or eight,
/// each with its sign; other numbers of bytes are no integer.
pub proof fn law_integers_of_every_width_are_read(a: i8, b: i16, c: i32, d: i64, data: Seq<u8>)
    ensures
        int_of(seq![(a as int % 0x100) as u8]) == Ok::<i64, CodecError>(a as i64),
        int_of(be2(b as int)) == Ok::<i64, CodecError>(b as i64),
        int_of(be4(c as int)) == Ok::<i64, CodecError>(c as i64),
        int_of(be8(d as int)) == Ok::<i64, CodecError>(d),
        data.len() != 1 && data.len() != 2 && data.len() != 4 && data.len() != 8 ==> int_of(data)
            == Err::<i64, CodecError>(CodecError::IntegerLength(data.len() as usize)),
{
    let none = Seq::<u8>::empty();
    lemma_be2(b as int, none);
    lemma_be4(c as int, none);
    lemma_be8(d as int, none);
    assert(be2(b as int) + none =~= be2(b as int));
    assert(be4(c as int) + none =~= be4(c as int));
    assert(be8(d as int) + none =~= be8(d as int));
}

/// The type of a number decides what it becomes, whatever its width: the wide
/// types take it as it is, and the narrow ones take it where it fits.
#[verifier::spinoff_prover]
#[verifier::rlimit(80)]
pub proof fn law_numbers_take_their_type(data: Seq<u8>, n: i64)
    requires
        int_of(data) == Ok::<i64, CodecError>(n),
    ensures
        typed(data, 0x0002) == Decoded::Ok(Val::BigInt(n)),
        typed(data, 0x0005) == Decoded::Ok(Val::Counter(n)),
        typed(data, 0x000B) == Decoded::Ok(Val::Timestamp(n)),
        i32::MIN <= n <= i32::MAX ==> typed(data, 0x0009) == Decoded::Ok(Val::Int(n as i32)),
        i16::MIN <= n <= i16::MAX ==> typed(data, 0x0013) == Decoded::Ok(Val::SmallInt(n as i16)),
        i8::MIN <= n <= i8::MAX ==> typed(data, 0x0014) == Decoded::Ok(Val::TinyInt(n as i8)),
{
}

/// The elements that are not null are decoded by their type, in their order,
/// and nulls are left out.
#[verifier::spinoff_prover]
#[verifier::rlimit(60)]
pub proof fn law_elements_are_decoded(
    items: Seq<Option<Seq<u8>>>,
    values: Seq<Val>,
    subtype: u16,
    part: Part,
    rest: Seq<u8>,
)
    requires
        forall|i: int| 0 <= i < items.len() ==> item_fits(#[trigger] items[i]),
        values.len() == present(items).len(),
        forall|i: int|
            0 <= i < values.len() ==> typed(present(items)[i], subtype) == Decoded::Ok(
                #[trigger] values[i],
            ),
    ensures
        elements_of(items_in_line(items) + rest, items.len(), subtype, None, part) == Ok::<
            Seq<Val>,
            CodecError,
        >(values),
    decreases items.len(),
{
    if items.len() == 0 {
        assert(values =~= Seq::empty());
    } else {
        let more = items.skip(1);
        let tail = items_in_line(more) + rest;
        assert(items_in_line(items) + rest =~= item_sent(items[0]) + tail);
        assert(item_fits(items[0]));
        assert(forall|i: int| 0 <= i < more.len() ==> more[i] == items[i + 1]);
        match items[0] {
            Some(data) => {
                lemma_nullable(data, tail, part);
                let others = values.skip(1);
                assert(present(items) == seq![data] + present(more));
                assert(typed(present(items)[0], subtype) == Decoded::Ok(values[0]));
                assert forall|i: int| 0 <= i < others.len() implies typed(
                    present(more)[i],
                    subtype,
                ) == Decoded::Ok(#[trigger] others[i]) by {
                    assert(others[i] == values[i + 1]);
                    assert(present(items)[i + 1] == present(more)[i]);
                }
                law_elements_are_decoded(more, others, subtype, part, rest);
                assert(seq![values[0]] + others =~= values);
            },
            None => {
                lemma_null(tail, part);
                law_elements_are_decoded(more, values, subtype, part, rest);
            },
        }
    }
}

/// A map whose first key is null is refused.
pub proof fn law_null_keys_are_refused(
    value: Option<Seq<u8>>,
    rest: Seq<u8>,
    n: nat,
    key_type: u16,
    value_type: u16,
)
    requires
        n > 0,
    ensures
        entries_of(item_sent(None) + (item_sent(value) + rest), n, key_type, value_type) == Err::<
            Seq<(Val, Val)>,
            CodecError,
        >(CodecError::NullMapKey),
{
    lemma_null(item_sent(value) + rest, Part::MapKey);
}

/// The value that an item of a map stands for: an empty one for a null.
pub open spec fn map_value(item: Option<Seq<u8>>, t: u16) -> Decoded {
    match item {
        Some(data) => typed(data, t),
        None => Ok(Val::Empty),
    }
}

/// The entries of a map are decoded by their types, in their order; a null
/// value is an empty one.
#[verifier::spinoff_prover]
#[verifier::rlimit(60)]
pub proof fn law_entries_are_decoded(
    entries: Seq<RawEntry>,
    values: Seq<(Val, Val)>,
    key_type: u16,
    value_type: u16,
    rest: Seq<u8>,
)
    requires
        values.len() == entries.len(),
        forall|i: int|
            0 <= i < entries.len() ==> item_fits((#[trigger] entries[i]).0) && item_fits(
                entries[i].1,
            ) && (entries[i].0 matches Some(key) && typed(key, key_type) == Decoded::Ok(
                values[i].0,
            )) && map_value(entries[i].1, value_type) == Decoded::Ok(values[i].1),
    ensures
        entries_of(entries_in_line(entries) + rest, entries.len(), key_type, value_type) == Ok::<
            Seq<(Val, Val)>,
            CodecError,
        >(values),
    decreases entries.len(),
{
    if entries.len() == 0 {
        assert(values =~= Seq::empty());
    } else {
        let (more, others) = (entries.skip(1), values.skip(1));
        let tail = entries_in_line(more) + rest;
        let middle = item_sent(entries[0].1) + tail;
        assert(entries_in_line(entries) + rest =~= item_sent(entries[0].0) + middle);
        assert(item_fits(entries[0].0) && item_fits(entries[0].1));
        assert forall|i: int| 0 <= i < more.len() implies item_fits((#[trigger] more[i]).0)
            && item_fits(more[i].1) && (more[i].0 matches Some(key) && typed(key, key_type)
            == Decoded::Ok(others[i].0)) && map_value(more[i].1, value_type) == Decoded::Ok(
            others[i].1,
        ) by {
            assert(more[i] == entries[i + 1]);
        }
        law_entries_are_decoded(more, others, key_type, value_type, rest);
        lemma_nullable(entries[0].0->Some_0, middle, Part::MapKey);
        match entries[0].1 {
            Some(value) => lemma_nullable(value, tail, Part::MapValue),
            None => lemma_null(tail, Part::MapValue),
        }
        assert(seq![values[0]] + others =~= values);
    }
}

/// The value that an item stands for: none for a null.
pub open spec fn opt_typed(item: Option<Seq<u8>>, t: u16) -> Result<Option<Val>, CodecError> {
    match item {
        Some(data) => match typed(data, t) {
            Ok(v) => Ok(Some(v)),
            Err(e) => Err(e),
        },
        None => Ok(None),
    }
}

/// The elements of a tuple from one on are decoded each by its own type, in
/// their order; nulls are nulls.
#[verifier::spinoff_prover]
#[verifier::rlimit(60)]
pub proof fn law_tuple_is_decoded(
    items: Seq<Option<Seq<u8>>>,
    values: Seq<Option<Val>>,
    types: Seq<u16>,
    k: nat,
    rest: Seq<u8>,
)
    requires
        types.len() == k + items.len(),
        values.len() == items.len(),
        forall|i: int|
            0 <= i < items.len() ==> item_fits(#[trigger] items[i]) && opt_typed(
                items[i],
                types[k + i],
            ) == Ok::<Option<Val>, CodecError>(values[i]),
    ensures
        tuple_of(items_in_line(items) + rest, types, k) == Ok::<Seq<Option<Val>>, CodecError>(
            values,
        ),
    decreases items.len(),
{
    if items.len() == 0 {
        assert(values =~= Seq::empty());
    } else {
        let (more, others) = (items.skip(1), values.skip(1));
        let tail = items_in_line(more) + rest;
        assert(items_in_line(items) + rest =~= item_sent(items[0]) + tail);
        assert(item_fits(items[0]) && opt_typed(items[0], types[k as int]) == Ok::<
            Option<Val>,
            CodecError,
        >(values[0]));
        assert forall|i: int| 0 <= i < more.len() implies item_fits(#[trigger] more[i])
            && opt_typed(more[i], types[k + 1 + i]) == Ok::<Option<Val>, CodecError>(others[i]) by {
            assert(more[i] == items[i + 1]);
            assert(types[k + (i + 1)] == types[k + 1 + i]);
        }
        law_tuple_is_decoded(more, others, types, k + 1, rest);
        match items[0] {
            Some(data) => lemma_nullable(data, tail, Part::TupleElement),
            None => lemma_null(tail, Part::TupleElement),
        }
        assert(seq![values[0]] + others =~= values);
    }
}

/// The fields of a user-defined type from one on are decoded each by its own
/// type, under their names and in their order; nulls are nulls.
#[verifier::spinoff_prover]
#[verifier::rlimit(60)]
pub proof fn law_fields_are_decoded(
    items: Seq<Option<Seq<u8>>>,
    values: Seq<(Seq<char>, Option<Val>)>,
    infos: Seq<(Seq<char>, u16)>,
    k: nat,
    rest: Seq<u8>,
)
    requires
        infos.len() == k + items.len(),
        values.len() == items.len(),
        forall|i: int|
            0 <= i < items.len() ==> item_fits(#[trigger] items[i]) && opt_typed(
                items[i],
                infos[k + i].1,
            ) == Ok::<Option<Val>, CodecError>(values[i].1) && values[i].0 == infos[k + i].0,
    ensures
        fields_of(items_in_line(items) + rest, infos, k) == Ok::<
            Seq<(Seq<char>, Option<Val>)>,
            CodecError,
        >(values),
    decreases items.len(),
{
    if items.len() == 0 {
        assert(values =~= Seq::empty());
    } else {
        let (more, others) = (items.skip(1), values.skip(1));
        let tail = items_in_line(more) + rest;
        assert(items_in_line(items) + rest =~= item_sent(items[0]) + tail);
        assert(item_fits(items[0]) && opt_typed(items[0], infos[k as int].1) == Ok::<
            Option<Val>,
            CodecError,
        >(values[0].1) && values[0].0 == infos[k as int].0);
        assert forall|i: int| 0 <= i < more.len() implies item_fits(#[trigger] more[i])
            && opt_typed(more[i], infos[k + 1 + i].1) == Ok::<Option<Val>, CodecError>(
            others[i].1,
        ) && others[i].0 == infos[k + 1 + i].0 by {
            assert(more[i] == items[i + 1]);
            assert(infos[k + (i + 1)] == infos[k + 1 + i]);
        }
        law_fields_are_decoded(more, others, infos, k + 1, rest);
        match items[0] {
            Some(data) => lemma_nullable(data, tail, Part::UdtFieldValue),
            None => lemma_null(tail, Part::UdtFieldValue),
        }
        assert(seq![values[0]] + others =~= values);
    }
}

/// A value is sent plainly as it is sent behind its type, without the type;
/// values follow each other either way.
pub proof fn law_plain_values_lack_only_their_types(v: Val, values: Seq<Val>)
    ensures
        is_simple(v) ==> encoded(v) == Coded::Ok(be2(code(v) as int) + plain_bytes(v)->Ok_0),
        encoded(v) is Ok && all_encoded(values) is Ok ==> all_encoded(seq![v] + values)
            == Coded::Ok(encoded(v)->Ok_0 + all_encoded(values)->Ok_0),
        plain_bytes(v) is Ok && all_plain(values) is Ok ==> all_plain(seq![v] + values)
            == Coded::Ok(plain_bytes(v)->Ok_0 + all_plain(values)->Ok_0),
        all_encoded(Seq::empty()) == Coded::Ok(Seq::empty()),
        all_plain(Seq::empty()) == Coded::Ok(Seq::empty()),
{
    reveal(all_encoded);
    let all = seq![v] + values;
    assert(all[0] == v);
    assert(all.skip(1) =~= values);
}

} // verus!
