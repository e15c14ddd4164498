//! What bind values are after they were made to match the types of their columns.

use super::convert::{
    be16, bound, bound_all, clock_of_text, coerced, coerced_all, coerced_entries, coerced_fields,
    coerced_tuple, converted, day_of_text, decimal_of_text, field_named, item_at, octets_of,
    uuid_of_text, Raw,
};
use super::decode::{int_of, typed};
use super::duration::duration_of_text;
use crate::error::CodecError;
use crate::ipc::decode::Decoded;
use crate::value::{ColumnType, IpAddr, NativeType, Val};
use crate::wire::{lemma_be8, signed8, un8};
use vstd::prelude::*;
use vstd::string::*;
use vstd::utf8::{decode_utf8, valid_utf8};

verus! {

/// The number that an integer value stands for.
pub open spec fn whole(v: Val) -> int {
    match v {
        Val::BigInt(n) => n as int,
        Val::Int(n) => n as int,
        Val::SmallInt(n) => n as int,
        Val::TinyInt(n) => n as int,
        _ => 0,
    }
}

/// The value at a position is that of the last field with a name.
pub open spec fn last_named(fields: Seq<(Seq<char>, Option<Val>)>, name: Seq<char>, j: int) -> bool {
    &&& 0 <= j < fields.len()
    &&& fields[j].0 == name
    &&& forall|k: int| j < k < fields.len() ==> (#[trigger] fields[k]).0 != name
}

/// `w` is what `v` becomes in a column of the type: the same number in a
/// narrower type, a collection of as many items, each of which is what the
/// item at its place becomes, or the value itself.
pub open spec fn becomes(v: Val, t: ColumnType, w: Val) -> bool
    decreases t, 1int,
{
    match (v, t) {
        (Val::BigInt(_), ColumnType::Native(NativeType::Int)) => w is Int && whole(w) == whole(v),
        (Val::BigInt(_), ColumnType::Native(NativeType::SmallInt)) => w is SmallInt && whole(w)
            == whole(v),
        (Val::BigInt(_), ColumnType::Native(NativeType::TinyInt)) => w is TinyInt && whole(w)
            == whole(v),
        (Val::Int(_), ColumnType::Native(NativeType::SmallInt)) => w is SmallInt && whole(w)
            == whole(v),
        (Val::Int(_), ColumnType::Native(NativeType::TinyInt)) => w is TinyInt && whole(w)
            == whole(v),
        (Val::List(s), ColumnType::List(e)) => w matches Val::List(r) && all_become(s, *e, r),
        (Val::SetOf(s), ColumnType::SetOf(e)) => w matches Val::SetOf(r) && all_become(s, *e, r),
        (Val::MapOf(s), ColumnType::MapOf(_, _)) => w matches Val::MapOf(r) && entries_become(
            s,
            t,
            r,
        ),
        (Val::Tuple(s), ColumnType::Tuple(types)) => w matches Val::Tuple(r) && tuple_becomes(
            s,
            types@,
            r,
        ),
        (Val::Udt(_, _, s), ColumnType::UserDefinedType(d)) => w matches Val::Udt(ks, name, r)
            && ks == d.keyspace@ && name == d.name@ && fields_become(s, d.field_types@, r),
        _ => w == v,
    }
}

/// Each item becomes the one at its place.
pub open spec fn all_become(s: Seq<Val>, t: ColumnType, r: Seq<Val>) -> bool
    decreases t, 2int,
{
    r.len() == s.len() && forall|i: int|
        0 <= i < s.len() ==> becomes(#[trigger] s[i], t, r[i])
}

/// Each entry of a map becomes the one at its place.
pub open spec fn entries_become(s: Seq<(Val, Val)>, t: ColumnType, r: Seq<(Val, Val)>) -> bool
    decreases t, 0int,
{
    match t {
        ColumnType::MapOf(k, e) => r.len() == s.len() && forall|i: int|
            0 <= i < s.len() ==> becomes((#[trigger] s[i]).0, *k, r[i].0) && becomes(
                s[i].1,
                *e,
                r[i].1,
            ),
        _ => r == s,
    }
}

/// An item that may be null becomes a null or a value.
pub open spec fn opt_becomes(v: Option<Val>, t: ColumnType, w: Option<Val>) -> bool
    decreases t, 2int,
{
    match (v, w) {
        (None, None) => true,
        (Some(v), Some(w)) => becomes(v, t, w),
        _ => false,
    }
}

/// Each element of a tuple becomes the one at its place, as long as there are
/// both elements and types.
pub open spec fn tuple_becomes(
    s: Seq<Option<Val>>,
    types: Seq<ColumnType>,
    r: Seq<Option<Val>>,
) -> bool
    decreases types, 0int,
{
    r.len() == (if s.len() < types.len() {
        s.len()
    } else {
        types.len()
    }) && forall|i: int|
        0 <= i < r.len() && i < types.len() ==> opt_becomes(s[i], types[i], #[trigger] r[i])
}

/// The fields are those of the definition, in its order, each with what the
/// last value of its name becomes, or null where there is none.
pub open spec fn fields_become(
    s: Seq<(Seq<char>, Option<Val>)>,
    types: Seq<(String, ColumnType)>,
    r: Seq<(Seq<char>, Option<Val>)>,
) -> bool
    decreases types, 0int,
{
    &&& r.len() == types.len()
    &&& forall|i: int| 0 <= i < types.len() ==> (#[trigger] r[i]).0 == types[i].0@
    &&& forall|i: int, j: int|
        0 <= i < types.len() && #[trigger] last_named(s, types[i].0@, j) ==> opt_becomes(
            s[j].1,
            types[i].1,
            r[i].1,
        )
    &&& forall|i: int|
        0 <= i < types.len() && (forall|j: int|
            0 <= j < s.len() ==> (#[trigger] s[j]).0 != types[i].0@) ==> (#[trigger] r[i]).1 is None
}

/// All numbers of a value fit the types of its column.
pub open spec fn fits(v: Val, t: ColumnType) -> bool
    decreases t, 1int,
{
    match (v, t) {
        (Val::BigInt(n), ColumnType::Native(NativeType::Int)) => i32::MIN <= n <= i32::MAX,
        (Val::BigInt(n), ColumnType::Native(NativeType::SmallInt)) => i16::MIN <= n <= i16::MAX,
        (Val::BigInt(n), ColumnType::Native(NativeType::TinyInt)) => i8::MIN <= n <= i8::MAX,
        (Val::Int(n), ColumnType::Native(NativeType::SmallInt)) => i16::MIN <= n <= i16::MAX,
        (Val::Int(n), ColumnType::Native(NativeType::TinyInt)) => i8::MIN <= n <= i8::MAX,
        (Val::List(s), ColumnType::List(e)) => all_fit(s, *e),
        (Val::SetOf(s), ColumnType::SetOf(e)) => all_fit(s, *e),
        (Val::MapOf(s), ColumnType::MapOf(_, _)) => entries_fit(s, t),
        (Val::Tuple(s), ColumnType::Tuple(types)) => tuple_fits(s, types@),
        (Val::Udt(_, _, s), ColumnType::UserDefinedType(d)) => fields_fit(s, d.field_types@),
        _ => true,
    }
}

/// All items fit a type.
pub open spec fn all_fit(s: Seq<Val>, t: ColumnType) -> bool
    decreases t, 2int,
{
    forall|i: int| 0 <= i < s.len() ==> fits(#[trigger] s[i], t)
}

/// All keys and values of a map fit their types.
pub open spec fn entries_fit(s: Seq<(Val, Val)>, t: ColumnType) -> bool
    decreases t, 0int,
{
    match t {
        ColumnType::MapOf(k, e) => forall|i: int|
            0 <= i < s.len() ==> fits((#[trigger] s[i]).0, *k) && fits(s[i].1, *e),
        _ => true,
    }
}

/// An item that may be null fits a type.
pub open spec fn opt_fits(v: Option<Val>, t: ColumnType) -> bool
    decreases t, 2int,
{
    match v {
        None => true,
        Some(v) => fits(v, t),
    }
}

/// All elements of a tuple that have a type fit it.
pub open spec fn tuple_fits(s: Seq<Option<Val>>, types: Seq<ColumnType>) -> bool
    decreases types, 0int,
{
    forall|i: int|
        0 <= i < s.len() && i < types.len() ==> opt_fits(#[trigger] s[i], types[i])
}

/// All values that a definition has a field for fit the field.
pub open spec fn fields_fit(
    s: Seq<(Seq<char>, Option<Val>)>,
    types: Seq<(String, ColumnType)>,
) -> bool
    decreases types, 0int,
{
    forall|i: int, j: int|
        0 <= i < types.len() && #[trigger] last_named(s, types[i].0@, j) ==> opt_fits(
            s[j].1,
            types[i].1,
        )
}

/// A field by its name is the last one of that name.
proof fn lemma_field_named(s: Seq<(Seq<char>, Option<Val>)>, name: Seq<char>)
    ensures
        forall|j: int| #[trigger] last_named(s, name, j) ==> field_named(s, name) == s[j].1,
        (forall|j: int| 0 <= j < s.len() ==> (#[trigger] s[j]).0 != name) ==> field_named(s, name)
            is None,
        (exists|j: int| 0 <= j < s.len() && (#[trigger] s[j]).0 == name) ==> exists|j: int|
            last_named(s, name, j),
    decreases s.len(),
{
    if s.len() > 0 {
        let init = s.drop_last();
        let end = s.len() - 1;
        lemma_field_named(init, name);
        if s.last().0 == name {
            assert(last_named(s, name, end));
            assert forall|j: int| #[trigger] last_named(s, name, j) implies field_named(s, name)
                == s[j].1 by {
                if j < end {
                    assert(s[end].0 != name);
                }
            }
        } else {
            assert forall|j: int| #[trigger] last_named(s, name, j) implies field_named(s, name)
                == s[j].1 by {
                assert(forall|k: int| j < k < init.len() ==> init[k] == s[k]);
                assert(last_named(init, name, j));
            }
            if forall|j: int| 0 <= j < s.len() ==> (#[trigger] s[j]).0 != name {
                assert forall|j: int| 0 <= j < init.len() implies (#[trigger] init[j]).0 != name by {
                    assert(init[j] == s[j]);
                }
            }
            if exists|j: int| 0 <= j < s.len() && (#[trigger] s[j]).0 == name {
                let j = choose|j: int| 0 <= j < s.len() && (#[trigger] s[j]).0 == name;
                assert(init[j] == s[j]);
                assert(exists|j: int| 0 <= j < init.len() && (#[trigger] init[j]).0 == name);
                let k = choose|k: int| last_named(init, name, k);
                assert forall|m: int| k < m < s.len() implies (#[trigger] s[m]).0 != name by {
                    if m < end {
                        assert(init[m] == s[m]);
                    }
                }
                assert(last_named(s, name, k));
            }
        }
    }
}

/// A value becomes what it is converted to, and it is converted exactly if
/// its numbers fit.
pub proof fn law_value_becomes(v: Val, t: ColumnType)
    ensures
        coerced(v, t) is Ok <==> fits(v, t),
        coerced(v, t) is Ok ==> becomes(v, t, coerced(v, t)->Ok_0),
        coerced(v, t) is Err ==> coerced(v, t)->Err_0 is OutOfRange,
    decreases t, 1int,
{
    match (v, t) {
        (Val::List(s), ColumnType::List(e)) => law_items_become(s, *e),
        (Val::SetOf(s), ColumnType::SetOf(e)) => law_items_become(s, *e),
        (Val::MapOf(s), ColumnType::MapOf(_, _)) => lemma_entries_become(s, t),
        (Val::Tuple(s), ColumnType::Tuple(types)) => {
            lemma_tuple_becomes(s, types@, 0);
        },
        (Val::Udt(_, _, s), ColumnType::UserDefinedType(d)) => {
            lemma_fields_become(s, d.field_types@, 0);
        },
        _ => {},
    }
}

/// Of a list or a set whose items all fit, as many items are bound as were
/// sent, and each is what the item at its place becomes.
pub proof fn law_items_become(s: Seq<Val>, t: ColumnType)
    ensures
        coerced_all(s, t) is Ok <==> all_fit(s, t),
        coerced_all(s, t) is Ok ==> all_become(s, t, coerced_all(s, t)->Ok_0),
        coerced_all(s, t) is Err ==> coerced_all(s, t)->Err_0 is OutOfRange,
    decreases t, 2int, s.len(),
{
    if s.len() > 0 {
        let more = s.skip(1);
        law_value_becomes(s[0], t);
        law_items_become(more, t);
        assert(forall|i: int| 0 <= i < more.len() ==> more[i] == s[i + 1]);
        assert forall|i: int| all_fit(more, t) && fits(s[0], t) && 0 <= i < s.len() implies fits(
            #[trigger] s[i],
            t,
        ) by {
            if i > 0 {
                assert(more[i - 1] == s[i]);
            }
        }
        if coerced_all(s, t) is Ok {
            let r = coerced_all(s, t)->Ok_0;
            let tail = coerced_all(more, t)->Ok_0;
            assert(r =~= seq![coerced(s[0], t)->Ok_0] + tail);
            assert forall|i: int| 0 <= i < s.len() implies becomes(#[trigger] s[i], t, r[i]) by {
                if i > 0 {
                    assert(more[i - 1] == s[i]);
                    assert(r[i] == tail[i - 1]);
                }
            }
        }
        if all_fit(s, t) {
            assert forall|i: int| 0 <= i < more.len() implies fits(#[trigger] more[i], t) by {
                assert(more[i] == s[i + 1]);
            }
        }
    }
}

/// Of a map as many entries are bound as were sent, each with its key and value.
proof fn lemma_entries_become(s: Seq<(Val, Val)>, t: ColumnType)
    requires
        t is MapOf,
    ensures
        coerced_entries(s, t) is Ok <==> entries_fit(s, t),
        coerced_entries(s, t) is Ok ==> entries_become(s, t, coerced_entries(s, t)->Ok_0),
        coerced_entries(s, t) is Err ==> coerced_entries(s, t)->Err_0 is OutOfRange,
    decreases t, 0int, s.len(),
{
    if s.len() > 0 {
        if let ColumnType::MapOf(k, e) = t {
            let more = s.skip(1);
            law_value_becomes(s[0].0, *k);
            law_value_becomes(s[0].1, *e);
            lemma_entries_become(more, t);
            assert(forall|i: int| 0 <= i < more.len() ==> more[i] == s[i + 1]);
            assert forall|i: int|
                entries_fit(more, t) && fits(s[0].0, *k) && fits(s[0].1, *e) && 0 <= i
                    < s.len() implies fits((#[trigger] s[i]).0, *k) && fits(s[i].1, *e) by {
                if i > 0 {
                    assert(more[i - 1] == s[i]);
                }
            }
            if coerced_entries(s, t) is Ok {
                let r = coerced_entries(s, t)->Ok_0;
                let tail = coerced_entries(more, t)->Ok_0;
                assert(r =~= seq![(coerced(s[0].0, *k)->Ok_0, coerced(s[0].1, *e)->Ok_0)] + tail);
                assert forall|i: int| 0 <= i < s.len() implies becomes(
                    (#[trigger] s[i]).0,
                    *k,
                    r[i].0,
                ) && becomes(s[i].1, *e, r[i].1) by {
                    if i > 0 {
                        assert(more[i - 1] == s[i]);
                        assert(r[i] == tail[i - 1]);
                    }
                }
            }
            if entries_fit(s, t) {
                assert forall|i: int| 0 <= i < more.len() implies fits((#[trigger] more[i]).0, *k)
                    && fits(more[i].1, *e) by {
                    assert(more[i] == s[i + 1]);
                }
            }
        }
    }
}

/// The elements of a tuple from the `k`-th on.
proof fn lemma_tuple_becomes(s: Seq<Option<Val>>, types: Seq<ColumnType>, k: nat)
    requires
        k <= s.len(),
        k <= types.len(),
    ensures
        coerced_tuple(s, types, k) is Ok <==> (forall|i: int|
            k <= i < s.len() && i < types.len() ==> opt_fits(#[trigger] s[i], types[i])),
        coerced_tuple(s, types, k) is Ok ==> {
            let r = coerced_tuple(s, types, k)->Ok_0;
            &&& r.len() == (if s.len() < types.len() {
                s.len()
            } else {
                types.len()
            }) - k
            &&& forall|i: int|
                k <= i < s.len() && i < types.len() ==> opt_becomes(
                    #[trigger] s[i],
                    types[i],
                    r[i - k],
                )
        },
        coerced_tuple(s, types, k) is Err ==> coerced_tuple(s, types, k)->Err_0 is OutOfRange,
        k == 0 && coerced_tuple(s, types, k) is Ok ==> tuple_becomes(
            s,
            types,
            coerced_tuple(s, types, k)->Ok_0,
        ),
    decreases types, 0int, types.len() - k,
{
    if k < types.len() && k < s.len() {
        if let Some(v) = s[k as int] {
            law_value_becomes(v, types[k as int]);
        }
        lemma_tuple_becomes(s, types, k + 1);
        assert(opt_fits(s[k as int], types[k as int]) <==> (match s[k as int] {
            None => true,
            Some(v) => coerced(v, types[k as int]) is Ok,
        }));
        if coerced_tuple(s, types, k) is Ok {
            let r = coerced_tuple(s, types, k)->Ok_0;
            let tail = coerced_tuple(s, types, k + 1)->Ok_0;
            assert forall|i: int| k <= i < s.len() && i < types.len() implies opt_becomes(
                #[trigger] s[i],
                types[i],
                r[i - k],
            ) by {
                if i > k {
                    assert(r[i - k] == tail[i - (k + 1)]);
                }
            }
            if k == 0 {
                assert forall|i: int| 0 <= i < r.len() && i < types.len() implies opt_becomes(
                    s[i],
                    types[i],
                    #[trigger] r[i],
                ) by {
                    assert(opt_becomes(s[i], types[i], r[i - 0]));
                }
            }
        }
    }
}

/// The fields of a definition from the `k`-th on.
proof fn lemma_fields_become(
    s: Seq<(Seq<char>, Option<Val>)>,
    types: Seq<(String, ColumnType)>,
    k: nat,
)
    requires
        k <= types.len(),
    ensures
        coerced_fields(s, types, k) is Ok <==> (forall|i: int, j: int|
            k <= i < types.len() && #[trigger] last_named(s, types[i].0@, j) ==> opt_fits(
                s[j].1,
                types[i].1,
            )),
        coerced_fields(s, types, k) is Ok ==> {
            let r = coerced_fields(s, types, k)->Ok_0;
            &&& r.len() == types.len() - k
            &&& forall|i: int| k <= i < types.len() ==> r[i - k].0 == (#[trigger] types[i]).0@
            &&& forall|i: int, j: int|
                k <= i < types.len() && #[trigger] last_named(s, types[i].0@, j) ==> opt_becomes(
                    s[j].1,
                    types[i].1,
                    r[i - k].1,
                )
            &&& forall|i: int|
                k <= i < types.len() && (forall|j: int|
                    0 <= j < s.len() ==> (#[trigger] s[j]).0 != types[i].0@) ==> r[i - k].1 is None
                    && (#[trigger] types[i]).0@ == types[i].0@
        },
        coerced_fields(s, types, k) is Err ==> coerced_fields(s, types, k)->Err_0 is OutOfRange,
        k == 0 && coerced_fields(s, types, k) is Ok ==> fields_become(
            s,
            types,
            coerced_fields(s, types, k)->Ok_0,
        ),
    decreases types, 0int, types.len() - k,
{
    if k < types.len() {
        let name = types[k as int].0@;
        lemma_field_named(s, name);
        assert(decreases_to!(types => types[k as int]));
        if let Some(v) = field_named(s, name) {
            law_value_becomes(v, types[k as int].1);
        }
        lemma_fields_become(s, types, k + 1);
        if coerced_fields(s, types, k) is Ok {
            let r = coerced_fields(s, types, k)->Ok_0;
            let tail = coerced_fields(s, types, k + 1)->Ok_0;
            assert forall|i: int| k < i < types.len() implies r[i - k] == tail[i - (k + 1)] && (
            #[trigger] types[i]) == types[i] by {}
            if k == 0 {
                assert forall|i: int| 0 <= i < types.len() implies (#[trigger] r[i]).0
                    == types[i].0@ by {
                    assert(r[i - 0].0 == types[i].0@);
                }
                assert forall|i: int|
                    0 <= i < types.len() && (forall|j: int|
                        0 <= j < s.len() ==> (#[trigger] s[j]).0 != types[i].0@) implies (
                #[trigger] r[i]).1 is None by {
                    assert(types[i].0@ == types[i].0@);
                    assert(r[i - 0].1 is None);
                }
            }
        } else if exists|j: int| 0 <= j < s.len() && (#[trigger] s[j]).0 == name {
            let j = choose|j: int| last_named(s, name, j);
            assert(last_named(s, types[k as int].0@, j));
        }
    }
}

/// What is bound for a list, set, map, tuple or user-defined type that was
/// sent as `v`: as many items as were sent, each made to match its type. A
/// list that was sent for a set column is bound as a set.
pub proof fn law_collections_become(
    data: Seq<u8>,
    type_code: u16,
    v: Val,
    bind: ColumnType,
    address: Option<Seq<u8>>,
)
    requires
        typed(data, type_code) == Decoded::Ok(v),
    ensures
        bind is List && v is List && (type_code == 0x0020 || type_code == 0x0032) ==> {
            let r = converted(data, type_code, Some(bind), address);
            &&& r is Ok <==> fits(v, bind)
            &&& r is Ok ==> becomes(v, bind, r->Ok_0)
        },
        bind matches ColumnType::SetOf(e) && v is List && (type_code == 0x0020 || type_code
            == 0x0032) ==> {
            let r = converted(data, type_code, Some(bind), address);
            &&& r is Ok <==> all_fit(v->List_0, *bind->SetOf_0)
            &&& r is Ok ==> r->Ok_0 is SetOf && all_become(
                v->List_0,
                *bind->SetOf_0,
                r->Ok_0->SetOf_0,
            )
        },
        (bind is SetOf && v is SetOf && type_code == 0x0022) || (bind is MapOf && v is MapOf
            && type_code == 0x0021) || (bind is Tuple && v is Tuple && type_code == 0x0031) || (
        bind is UserDefinedType && v is Udt && type_code == 0x0040) ==> {
            let r = converted(data, type_code, Some(bind), address);
            &&& r is Ok <==> fits(v, bind)
            &&& r is Ok ==> becomes(v, bind, r->Ok_0)
        },
{
    law_value_becomes(v, bind);
    if let ColumnType::SetOf(e) = bind {
        if let Val::List(s) = v {
            law_items_become(s, *e);
        }
    }
}

/// A 64-bit integer keeps its number in every column type that is held in an
/// integer, and is refused only where the type is too narrow.
pub proof fn law_integers_keep_their_number(
    data: Seq<u8>,
    n: i64,
    native: NativeType,
    address: Option<Seq<u8>>,
)
    requires
        int_of(data) == Ok::<i64, CodecError>(n),
    ensures
        ({
            let r = converted(data, 0x0002, Some(ColumnType::Native(native)), address);
            match native {
                NativeType::Int => (r is Ok <==> i32::MIN <= n <= i32::MAX) && (r is Ok
                    ==> r->Ok_0 is Int && whole(r->Ok_0) == n),
                NativeType::SmallInt => (r is Ok <==> i16::MIN <= n <= i16::MAX) && (r is Ok
                    ==> r->Ok_0 is SmallInt && whole(r->Ok_0) == n),
                NativeType::TinyInt => (r is Ok <==> i8::MIN <= n <= i8::MAX) && (r is Ok
                    ==> r->Ok_0 is TinyInt && whole(r->Ok_0) == n),
                NativeType::Timestamp => r == Decoded::Ok(Val::Timestamp(n)),
                NativeType::Time => r == Decoded::Ok(Val::Time(n)),
                NativeType::Counter => r == Decoded::Ok(Val::Counter(n)),
                NativeType::Varint => r matches Ok(Val::Varint(b)) && b.len() == 8 && signed8(
                    un8(b),
                ) == n,
                NativeType::Decimal => r matches Ok(Val::Decimal(b, scale)) && b.len() == 8
                    && signed8(un8(b)) == n && scale == 0,
                NativeType::BigInt => r == typed(data, 0x0002),
                _ => true,
            }
        }),
{
    let none = Seq::<u8>::empty();
    lemma_be8(n as int, none);
    assert(crate::wire::be8(n as int) + none =~= crate::wire::be8(n as int));
}

/// The number that sixteen bytes spell in two's complement.
pub open spec fn signed16(b: Seq<u8>) -> int {
    signed8(un8(b)) * 0x1_0000_0000_0000_0000 + un8(b.skip(8))
}

/// What a text is converted to: the number, the day, the time of day or the
/// bytes that its reading gives. Times are counted in nanoseconds since
/// midnight and days from the middle of the range, which is 1970-01-01, day
/// 719163 of the calendar.
pub proof fn law_texts_become(data: Seq<u8>, address: Option<Seq<u8>>)
    requires
        valid_utf8(data),
    ensures
        ({
            let text = decode_utf8(data);
            let as_type = |native: NativeType|
                converted(data, 0x000D, Some(ColumnType::Native(native)), address);
            &&& match decimal_of_text(text) {
                Ok((mantissa, scale)) => if scale <= i32::MAX {
                    as_type(NativeType::Decimal) matches Ok(Val::Decimal(b, k)) && b.len() == 16
                        && signed16(b) == mantissa && k == scale
                } else {
                    as_type(NativeType::Decimal) is Err
                },
                Err(_) => as_type(NativeType::Decimal) is Err,
            }
            &&& match day_of_text(text, "%Y-%m-%d"@) {
                Ok(day) => as_type(NativeType::Date) matches Ok(Val::Date(d)) && (d - (day
                    - 719_163 + 0x8000_0000)) % 0x1_0000_0000 == 0,
                Err(_) => as_type(NativeType::Date) is Err,
            }
            &&& match clock_of_text(text, "%H:%M:%S"@) {
                Ok((seconds, nanos)) => as_type(NativeType::Time) matches Ok(Val::Time(t)) && t
                    == seconds * 1_000_000_000 + nanos,
                Err(_) => match clock_of_text(text, "%-H:%-M:%-S"@) {
                    Ok((seconds, nanos)) => as_type(NativeType::Time) matches Ok(Val::Time(t)) && t
                        == seconds * 1_000_000_000 + nanos,
                    Err(_) => as_type(NativeType::Time) is Err,
                },
            }
            &&& match duration_of_text(text) {
                Ok(d) => as_type(NativeType::Duration) == Decoded::Ok(Val::Duration(d)),
                Err(e) => as_type(NativeType::Duration) == Decoded::Err(e),
            }
            &&& match address {
                Some(octets) => as_type(NativeType::Inet) == Decoded::Ok(Val::Inet(octets)),
                None => as_type(NativeType::Inet) is Err,
            }
            &&& match uuid_of_text(text) {
                Ok(bytes) => as_type(NativeType::Timeuuid) == Decoded::Ok(Val::Timeuuid(bytes)),
                Err(_) => as_type(NativeType::Timeuuid) is Err,
            }
        }),
{
    let text = decode_utf8(data);
    if let Ok((mantissa, scale)) = decimal_of_text(text) {
        lemma_be16(mantissa);
    }
}

/// Sixteen bytes spell their number.
proof fn lemma_be16(n: i128)
    ensures
        be16(n).len() == 16,
        signed16(be16(n)) == n,
{
    let none = Seq::<u8>::empty();
    let q = n as int / 0x1_0000_0000_0000_0000;
    let m = n as int % 0x1_0000_0000_0000_0000;
    let b = be16(n);
    crate::wire::lemma_be8_wraps(n as int);
    lemma_be8(q, crate::wire::be8(m));
    lemma_be8(m, none);
    assert(crate::wire::be8(m) + none =~= crate::wire::be8(m));
    assert(b.skip(8) =~= crate::wire::be8(m));
    assert(n as int == q * 0x1_0000_0000_0000_0000 + m);
}

/// A value without a column type, and one whose column has the type that it
/// was sent with, is bound as it was sent.
pub proof fn law_other_values_stay(data: Seq<u8>, type_code: u16, address: Option<Seq<u8>>)
    ensures
        converted(data, type_code, None, address) == typed(data, type_code),
        forall|native: NativeType|
            type_code != 0x0002 && type_code != 0x0007 && type_code != 0x000D
                ==> #[trigger] converted(data, type_code, Some(ColumnType::Native(native)), address)
                == typed(data, type_code),
        converted(data, 0x000D, Some(ColumnType::Native(NativeType::Text)), address) == typed(
            data,
            0x000D,
        ),
        converted(data, 0x0007, Some(ColumnType::Native(NativeType::Double)), address) == typed(
            data,
            0x0007,
        ),
{
}

/// As many values are bound as were sent. A null is bound as a null, and each
/// other value as it is converted to the type of the variable at its place;
/// a statement is bound exactly if each of its values can be.
pub proof fn law_values_are_bound_one_by_one(
    s: Seq<Raw>,
    types: Seq<ColumnType>,
    addresses: Seq<Option<IpAddr>>,
)
    ensures
        bound_all(s, types, addresses, 0) is Ok <==> forall|i: int|
            0 <= i < s.len() ==> binds(#[trigger] s[i], types, addresses, i) is Ok,
        bound_all(s, types, addresses, 0) is Ok ==> {
            let r = bound_all(s, types, addresses, 0)->Ok_0;
            &&& r.len() == s.len()
            &&& forall|i: int|
                0 <= i < s.len() ==> binds(#[trigger] s[i], types, addresses, i) == Ok::<
                    Option<Val>,
                    CodecError,
                >(r[i])
        },
{
    lemma_bound_from(s, types, addresses, 0);
}

/// What the value at a place is bound as.
pub open spec fn binds(
    raw: Raw,
    types: Seq<ColumnType>,
    addresses: Seq<Option<IpAddr>>,
    i: int,
) -> Result<Option<Val>, CodecError> {
    match raw {
        Raw::Null(_) => Ok(None),
        Raw::Bytes(type_code, data) => match converted(
            data,
            type_code,
            if i < types.len() {
                Some(types[i])
            } else {
                None
            },
            if i < addresses.len() {
                match addresses[i] {
                    Some(a) => Some(a@),
                    None => None,
                }
            } else {
                None
            },
        ) {
            Ok(v) => Ok(Some(v)),
            Err(e) => Err(e),
        },
    }
}

/// The values from the `k`-th on are bound one by one.
proof fn lemma_bound_from(
    s: Seq<Raw>,
    types: Seq<ColumnType>,
    addresses: Seq<Option<IpAddr>>,
    k: nat,
)
    requires
        k <= s.len(),
    ensures
        bound_all(s, types, addresses, k) is Ok <==> forall|i: int|
            k <= i < s.len() ==> binds(#[trigger] s[i], types, addresses, i) is Ok,
        bound_all(s, types, addresses, k) is Ok ==> {
            let r = bound_all(s, types, addresses, k)->Ok_0;
            &&& r.len() == s.len() - k
            &&& forall|i: int|
                k <= i < s.len() ==> binds(#[trigger] s[i], types, addresses, i) == Ok::<
                    Option<Val>,
                    CodecError,
                >(r[i - k])
        },
    decreases s.len() - k,
{
    if k < s.len() {
        lemma_bound_from(s, types, addresses, k + 1);
        let address = match item_at(addresses, k as int) {
            Some(a) => octets_of(a),
            None => None,
        };
        assert(bound(s[k as int], item_at(types, k as int), address) == binds(
            s[k as int],
            types,
            addresses,
            k as int,
        ));
        if bound_all(s, types, addresses, k) is Ok {
            let r = bound_all(s, types, addresses, k)->Ok_0;
            let tail = bound_all(s, types, addresses, k + 1)->Ok_0;
            assert forall|i: int| k <= i < s.len() implies binds(
                #[trigger] s[i],
                types,
                addresses,
                i,
            ) == Ok::<Option<Val>, CodecError>(r[i - k]) by {
                if i > k {
                    assert(r[i - k] == tail[i - (k + 1)]);
                }
            }
        }
    }
}

} // verus!
