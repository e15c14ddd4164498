//! What becomes of the values, options and batches of scripts.

use super::client::{bool_field, field_of, integer_field, string_field};
use super::operations::{
    attribute_type_of, bytes_of, key_type_of, number_texts_of, projection_type_of, strings_of,
    KeyType, ProjectionType, ScalarAttributeType,
};
use super::options::{
    bad_attribute_text, bad_field_text, keys_of, law_items_agree, low_signed, low_unsigned,
    names_option, no_text, table_keys_of, table_writes_of, to_item, to_names, to_object,
    to_objects, to_tables, values_option, write_of, writes_of, Fields, TableKeys, TableWrites,
    Write,
};
use super::types::{
    attribute_of, attributes_of, item_of, numbers_of, object_of, script_of, scripts_of, Script,
};
use crate::ipc::attribute::{Attr, Attrs};
use crate::number::{all_digits, is_float, lemma_digits_value_grows, signed_of};
use vstd::prelude::*;

verus! {

/// A value of which no part is left out.
pub open spec fn is_whole(v: Script) -> bool
    decreases v,
{
    match v {
        Script::Other => false,
        Script::Something(x) => is_whole(*x),
        Script::List(s) => forall|i: int| 0 <= i < s.len() ==> is_whole(#[trigger] s[i]),
        Script::Object(s) => forall|i: int| 0 <= i < s.len() ==> is_whole((#[trigger] s[i]).1),
        _ => true,
    }
}

/// An attribute value holds what a value of a script holds.
pub open spec fn holds_same(v: Script, a: Attr) -> bool
    decreases v,
{
    match v {
        Script::Bool(b) => a == Attr::Bool(b),
        Script::Integer(n) => a matches Attr::N(t) && signed_of(t) == Some(n as int),
        Script::Float(t) => a == Attr::N(t),
        Script::Text(t) => a == Attr::S(t),
        Script::Bytes(b) => a == Attr::B(b),
        Script::List(s) => a matches Attr::L(l) && l.len() == s.len() && forall|i: int|
            0 <= i < s.len() ==> holds_same(#[trigger] s[i], l[i]),
        Script::Object(s) => a matches Attr::M(m) && m.len() == s.len() && forall|i: int|
            0 <= i < s.len() ==> m[i].0 == (#[trigger] s[i]).0 && holds_same(s[i].1, m[i].1),
        Script::Nothing => a == Attr::Null(true),
        Script::Something(x) => holds_same(*x, a),
        Script::Attribute(b) => a == b,
        Script::Other => false,
    }
}

/// A value of a script becomes an attribute value exactly if it is whole, and
/// then one that holds the same: elements and fields stay in their order, and
/// none is left out.
pub proof fn law_value_is_held(v: Script)
    ensures
        attribute_of(v) is Some <==> is_whole(v),
        attribute_of(v) matches Some(a) ==> holds_same(v, a),
    decreases v, 1int,
{
    match v {
        Script::Integer(n) => crate::number::law_signed_number_round_trip(n),
        Script::List(s) => lemma_values(s),
        Script::Object(s) => law_object_is_held(s),
        Script::Something(x) => law_value_is_held(*x),
        _ => {},
    }
}

/// The values of a list are held one by one.
proof fn lemma_values(s: Seq<Script>)
    ensures
        attributes_of(s) is Some <==> forall|i: int|
            0 <= i < s.len() ==> is_whole(#[trigger] s[i]),
        attributes_of(s) matches Some(l) ==> l.len() == s.len() && forall|i: int|
            0 <= i < s.len() ==> holds_same(#[trigger] s[i], l[i]),
    decreases s, 0int,
{
    if s.len() > 0 {
        let more = s.skip(1);
        law_value_is_held(s[0]);
        lemma_values(more);
        assert(forall|i: int| 0 <= i < more.len() ==> more[i] == s[i + 1]);
        if attributes_of(s) is None && is_whole(s[0]) {
            let i = choose|i: int| 0 <= i < more.len() && !is_whole(#[trigger] more[i]);
            assert(!is_whole(s[i + 1]));
        }
        if let Some(l) = attributes_of(s) {
            let rest = attributes_of(more)->0;
            assert forall|i: int| 0 <= i < s.len() implies is_whole(#[trigger] s[i]) && holds_same(
                s[i],
                l[i],
            ) by {
                if i > 0 {
                    assert(more[i - 1] == s[i]);
                    assert(l[i] == rest[i - 1]);
                }
            }
        }
    }
}

/// An object becomes an item exactly if its values are whole; names and
/// values stay in their order, and none is left out.
pub proof fn law_object_is_held(s: Fields)
    ensures
        item_of(s) is Some <==> forall|i: int|
            0 <= i < s.len() ==> is_whole((#[trigger] s[i]).1),
        item_of(s) matches Some(m) ==> m.len() == s.len() && forall|i: int|
            0 <= i < s.len() ==> m[i].0 == (#[trigger] s[i]).0 && holds_same(s[i].1, m[i].1),
    decreases s, 0int,
{
    if s.len() > 0 {
        let more = s.skip(1);
        assert(decreases_to!(s => s[0]));
        law_value_is_held(s[0].1);
        law_object_is_held(more);
        assert(forall|i: int| 0 <= i < more.len() ==> more[i] == s[i + 1]);
        if item_of(s) is None && is_whole(s[0].1) {
            let i = choose|i: int| 0 <= i < more.len() && !is_whole((#[trigger] more[i]).1);
            assert(!is_whole(s[i + 1].1));
        }
        if let Some(m) = item_of(s) {
            let rest = item_of(more)->0;
            assert forall|i: int| 0 <= i < s.len() implies is_whole((#[trigger] s[i]).1) && m[i].0
                == s[i].0 && holds_same(s[i].1, m[i].1) by {
                if i > 0 {
                    assert(more[i - 1] == s[i]);
                    assert(m[i] == rest[i - 1]);
                }
            }
        }
    }
}

/// A text that spells a number for scripts.
pub open spec fn is_number(t: Seq<char>) -> bool {
    signed_of(t) is Some || is_float(t)
}

/// An attribute value of which every number is one.
pub open spec fn is_shown(a: Attr) -> bool
    decreases a,
{
    match a {
        Attr::N(t) => is_number(t),
        Attr::Ns(s) => forall|i: int| 0 <= i < s.len() ==> is_number(#[trigger] s[i]),
        Attr::L(s) => forall|i: int| 0 <= i < s.len() ==> is_shown(#[trigger] s[i]),
        Attr::M(s) => forall|i: int| 0 <= i < s.len() ==> is_shown((#[trigger] s[i]).1),
        _ => true,
    }
}

/// A value of a script is the number that a text spells: an integer where it is one.
pub open spec fn shows_number(v: Script, t: Seq<char>) -> bool {
    match signed_of(t) {
        Some(n) => v matches Script::Integer(k) && k == n,
        None => v == Script::Float(t),
    }
}

/// A value of a script shows what an attribute value holds.
pub open spec fn shows_same(a: Attr, v: Script) -> bool
    decreases a,
{
    match a {
        Attr::S(t) => v == Script::Text(t),
        Attr::N(t) => shows_number(v, t),
        Attr::B(b) => v == Script::Bytes(b),
        Attr::Bool(b) => v == Script::Bool(b),
        Attr::Null(_) => v == Script::Nothing,
        Attr::L(s) => v matches Script::List(l) && l.len() == s.len() && forall|i: int|
            0 <= i < s.len() ==> shows_same(#[trigger] s[i], l[i]),
        Attr::M(s) => v matches Script::Object(m) && m.len() == s.len() && forall|i: int|
            0 <= i < s.len() ==> m[i].0 == (#[trigger] s[i]).0 && shows_same(s[i].1, m[i].1),
        Attr::Ss(s) => v matches Script::List(l) && l.len() == s.len() && forall|i: int|
            0 <= i < s.len() ==> #[trigger] l[i] == Script::Text(s[i]),
        Attr::Ns(s) => v matches Script::List(l) && l.len() == s.len() && forall|i: int|
            0 <= i < s.len() ==> shows_number(#[trigger] l[i], s[i]),
        Attr::Bs(s) => v matches Script::List(l) && l.len() == s.len() && forall|i: int|
            0 <= i < s.len() ==> #[trigger] l[i] == Script::Bytes(s[i]),
    }
}

/// A number that a text spells has 64 bits.
proof fn lemma_in_range(t: Seq<char>)
    ensures
        signed_of(t) matches Some(n) ==> i64::MIN <= n <= i64::MAX,
{
    let digits = if t.len() > 0 && (t[0] == '-' || t[0] == '+') { t.skip(1) } else { t };
    if all_digits(digits) {
        lemma_digits_value_grows(digits, 0);
        assert(digits.take(0) =~= Seq::empty());
    }
}

/// Scripts are shown an attribute value exactly if its numbers are such, and
/// then a value with the same contents: elements and fields stay in their
/// order, and none is left out.
pub proof fn law_attribute_is_shown(a: Attr)
    ensures
        script_of(a) is Ok <==> is_shown(a),
        script_of(a) matches Ok(v) ==> shows_same(a, v),
    decreases a, 1int,
{
    match a {
        Attr::L(s) => lemma_shown(s),
        Attr::M(s) => law_item_is_shown(s),
        Attr::N(t) => lemma_in_range(t),
        Attr::Ns(s) => lemma_numbers_shown(s),
        _ => {},
    }
}

/// The attribute values of a list are shown one by one.
proof fn lemma_shown(s: Seq<Attr>)
    ensures
        scripts_of(s) is Ok <==> forall|i: int| 0 <= i < s.len() ==> is_shown(#[trigger] s[i]),
        scripts_of(s) matches Ok(l) ==> l.len() == s.len() && forall|i: int|
            0 <= i < s.len() ==> shows_same(#[trigger] s[i], l[i]),
    decreases s, 0int,
{
    if s.len() > 0 {
        let more = s.skip(1);
        law_attribute_is_shown(s[0]);
        lemma_shown(more);
        assert(forall|i: int| 0 <= i < more.len() ==> more[i] == s[i + 1]);
        if scripts_of(s) is Err && is_shown(s[0]) {
            let i = choose|i: int| 0 <= i < more.len() && !is_shown(#[trigger] more[i]);
            assert(!is_shown(s[i + 1]));
        }
        if let Ok(l) = scripts_of(s) {
            let rest = scripts_of(more)->Ok_0;
            assert forall|i: int| 0 <= i < s.len() implies is_shown(#[trigger] s[i]) && shows_same(
                s[i],
                l[i],
            ) by {
                if i > 0 {
                    assert(more[i - 1] == s[i]);
                    assert(l[i] == rest[i - 1]);
                }
            }
        }
    }
}

/// The numbers of a set are shown one by one.
proof fn lemma_numbers_shown(s: Seq<Seq<char>>)
    ensures
        numbers_of(s) is Ok <==> forall|i: int| 0 <= i < s.len() ==> is_number(#[trigger] s[i]),
        numbers_of(s) matches Ok(l) ==> l.len() == s.len() && forall|i: int|
            0 <= i < s.len() ==> shows_number(#[trigger] l[i], s[i]),
    decreases s.len(),
{
    if s.len() > 0 {
        let more = s.skip(1);
        lemma_in_range(s[0]);
        lemma_numbers_shown(more);
        assert(forall|i: int| 0 <= i < more.len() ==> more[i] == s[i + 1]);
        if numbers_of(s) is Err && is_number(s[0]) {
            let i = choose|i: int| 0 <= i < more.len() && !is_number(#[trigger] more[i]);
            assert(!is_number(s[i + 1]));
        }
        if let Ok(l) = numbers_of(s) {
            let rest = numbers_of(more)->Ok_0;
            assert forall|i: int| 0 <= i < s.len() implies is_number(#[trigger] s[i])
                && shows_number(l[i], s[i]) by {
                if i > 0 {
                    assert(more[i - 1] == s[i]);
                    assert(l[i] == rest[i - 1]);
                }
            }
        }
    }
}

/// Scripts are shown an item exactly if its numbers are such; names and
/// values stay in their order, and none is left out.
pub proof fn law_item_is_shown(s: Attrs)
    ensures
        object_of(s) is Ok <==> forall|i: int| 0 <= i < s.len() ==> is_shown((#[trigger] s[i]).1),
        object_of(s) matches Ok(m) ==> m.len() == s.len() && forall|i: int|
            0 <= i < s.len() ==> m[i].0 == (#[trigger] s[i]).0 && shows_same(s[i].1, m[i].1),
    decreases s, 0int,
{
    if s.len() > 0 {
        let more = s.skip(1);
        assert(decreases_to!(s => s[0]));
        law_attribute_is_shown(s[0].1);
        law_item_is_shown(more);
        assert(forall|i: int| 0 <= i < more.len() ==> more[i] == s[i + 1]);
        if object_of(s) is Err && is_shown(s[0].1) {
            let i = choose|i: int| 0 <= i < more.len() && !is_shown((#[trigger] more[i]).1);
            assert(!is_shown(s[i + 1].1));
        }
        if let Ok(m) = object_of(s) {
            let rest = object_of(more)->Ok_0;
            assert forall|i: int| 0 <= i < s.len() implies is_shown((#[trigger] s[i]).1) && m[i].0
                == s[i].0 && shows_same(s[i].1, m[i].1) by {
                if i > 0 {
                    assert(more[i - 1] == s[i]);
                    assert(m[i] == rest[i - 1]);
                }
            }
        }
    }
}

/// The object that a script hands over becomes the item with its names and
/// values, and is refused exactly if a value is not whole: the error names the
/// first field with such a value.
pub proof fn law_object_becomes_item(s: Fields)
    ensures
        match to_item(s, Seq::empty()) {
            Ok(m) => m.len() == s.len() && forall|i: int|
                0 <= i < s.len() ==> m[i].0 == (#[trigger] s[i]).0 && holds_same(s[i].1, m[i].1),
            Err(t) => exists|i: int|
                0 <= i < s.len() && !is_whole((#[trigger] s[i]).1) && t == bad_field_text(s[i].0)
                    && forall|j: int| 0 <= j < i ==> is_whole((#[trigger] s[j]).1),
        },
{
    law_items_agree(s, Seq::empty());
    law_object_is_held(s);
    match to_item(s, Seq::empty()) {
        Ok(m) => {
            assert(Seq::empty() + item_of(s)->0 =~= item_of(s)->0);
        },
        Err(_) => lemma_first_refused(s, Seq::empty()),
    }
}

/// The first field that is not whole is named.
proof fn lemma_first_refused(s: Fields, done: Attrs)
    ensures
        to_item(s, done) matches Err(t) ==> exists|i: int|
            0 <= i < s.len() && !is_whole((#[trigger] s[i]).1) && t == bad_field_text(s[i].0)
                && forall|j: int| 0 <= j < i ==> is_whole((#[trigger] s[j]).1),
    decreases s.len(),
{
    if s.len() > 0 {
        law_value_is_held(s[0].1);
        let more = s.skip(1);
        assert(forall|i: int| 0 <= i < more.len() ==> more[i] == s[i + 1]);
        if let Some(a) = attribute_of(s[0].1) {
            lemma_first_refused(more, done.push((s[0].0, a)));
            if let Err(t) = to_item(s, done) {
                let k = choose|k: int|
                    0 <= k < more.len() && !is_whole((#[trigger] more[k]).1) && t == bad_field_text(
                        more[k].0,
                    ) && forall|j: int| 0 <= j < k ==> is_whole((#[trigger] more[j]).1);
                assert(!is_whole(s[k + 1].1));
                assert forall|j: int| 0 <= j < k + 1 implies is_whole((#[trigger] s[j]).1) by {
                    if j > 0 {
                        assert(is_whole(more[j - 1].1));
                    }
                }
            }
        } else {
            assert(!is_whole(s[0].1));
        }
    }
}

/// A field of this name holds this text, and no later field has the name.
pub open spec fn last_text(s: Fields, name: Seq<char>, text: Seq<char>) -> bool {
    exists|i: int|
        0 <= i < s.len() && #[trigger] s[i] == (name, Script::Text(text)) && forall|j: int|
            i < j < s.len() ==> (#[trigger] s[j]).0 != name
}

/// The names that a script gives are read exactly if all are texts; there is
/// a text for every name of the object and for no other, and it is the last
/// one given. The error names the first field that holds none.
pub proof fn law_names_are_read(s: Fields)
    ensures
        match to_names(s, Map::empty()) {
            Ok(m) => {
                &&& forall|i: int| 0 <= i < s.len() ==> (#[trigger] s[i]).1 is Text
                &&& forall|i: int| 0 <= i < s.len() ==> m.contains_key((#[trigger] s[i]).0)
                &&& forall|k: Seq<char>| #[trigger]
                    m.contains_key(k) ==> last_text(s, k, m[k])
            },
            Err(t) => exists|i: int|
                0 <= i < s.len() && !((#[trigger] s[i]).1 is Text) && t == no_text(s[i].0)
                    && forall|j: int| 0 <= j < i ==> (#[trigger] s[j]).1 is Text,
        },
{
    lemma_names(s, Map::empty());
}

/// The names of the rest of an object are added to those that are there.
proof fn lemma_names(s: Fields, done: Map<Seq<char>, Seq<char>>)
    ensures
        match to_names(s, done) {
            Ok(m) => {
                &&& forall|i: int| 0 <= i < s.len() ==> (#[trigger] s[i]).1 is Text
                &&& forall|i: int| 0 <= i < s.len() ==> m.contains_key((#[trigger] s[i]).0)
                &&& forall|k: Seq<char>| #[trigger]
                    done.contains_key(k) ==> m.contains_key(k)
                &&& forall|k: Seq<char>| #[trigger]
                    m.contains_key(k) ==> last_text(s, k, m[k]) || (done.contains_key(k) && m[k]
                        == done[k] && forall|j: int| 0 <= j < s.len() ==> (#[trigger] s[j]).0 != k)
            },
            Err(t) => exists|i: int|
                0 <= i < s.len() && !((#[trigger] s[i]).1 is Text) && t == no_text(s[i].0)
                    && forall|j: int| 0 <= j < i ==> (#[trigger] s[j]).1 is Text,
        },
    decreases s.len(),
{
    if s.len() > 0 {
        let more = s.skip(1);
        assert(forall|i: int| 0 <= i < more.len() ==> more[i] == s[i + 1]);
        match s[0].1 {
            Script::Text(text) => {
                let next = done.insert(s[0].0, text);
                lemma_names(more, next);
                match to_names(s, done) {
                    Ok(m) => {
                        assert forall|i: int| 0 <= i < s.len() implies (#[trigger] s[i]).1 is Text
                            && m.contains_key(s[i].0) by {
                            if i > 0 {
                                assert(more[i - 1] == s[i]);
                            } else {
                                assert(next.contains_key(s[0].0));
                            }
                        }
                        assert forall|k: Seq<char>| #[trigger] done.contains_key(k) implies
                            m.contains_key(k) by {
                            assert(next.contains_key(k));
                        }
                        assert forall|k: Seq<char>| #[trigger] m.contains_key(k) implies last_text(
                            s,
                            k,
                            m[k],
                        ) || (done.contains_key(k) && m[k] == done[k] && forall|j: int|
                            0 <= j < s.len() ==> (#[trigger] s[j]).0 != k) by {
                            if last_text(more, k, m[k]) {
                                let i = choose|i: int|
                                    0 <= i < more.len() && #[trigger] more[i] == (
                                        k,
                                        Script::Text(m[k]),
                                    ) && forall|j: int|
                                        i < j < more.len() ==> (#[trigger] more[j]).0 != k;
                                assert(s[i + 1] == (k, Script::Text(m[k])));
                                assert forall|j: int| i + 1 < j < s.len() implies (
                                #[trigger] s[j]).0 != k by {
                                    assert(more[j - 1] == s[j]);
                                }
                            } else {
                                assert forall|j: int| 0 < j < s.len() implies (
                                #[trigger] s[j]).0 != k by {
                                    assert(more[j - 1] == s[j]);
                                }
                                if s[0].0 == k {
                                    assert(s[0] == (k, Script::Text(m[k])));
                                    assert(last_text(s, k, m[k]));
                                }
                            }
                        }
                    },
                    Err(t) => {
                        let k = choose|k: int|
                            0 <= k < more.len() && !((#[trigger] more[k]).1 is Text) && t
                                == no_text(more[k].0) && forall|j: int|
                                0 <= j < k ==> (#[trigger] more[j]).1 is Text;
                        assert(!(s[k + 1].1 is Text));
                        assert forall|j: int| 0 <= j < k + 1 implies (
                        #[trigger] s[j]).1 is Text by {
                            if j > 0 {
                                assert(more[j - 1].1 is Text);
                            }
                        }
                    },
                }
            },
            _ => {
                assert(!(s[0].1 is Text));
            },
        }
    }
}

/// A field is found by its name: it is the first that has it, and nothing is
/// found only where no field has it.
pub proof fn law_first_field_is_found(s: Fields, name: Seq<char>)
    ensures
        match field_of(s, name) {
            Some(v) => exists|i: int|
                0 <= i < s.len() && #[trigger] s[i] == (name, v) && forall|j: int|
                    0 <= j < i ==> (#[trigger] s[j]).0 != name,
            None => forall|i: int| 0 <= i < s.len() ==> (#[trigger] s[i]).0 != name,
        },
    decreases s.len(),
{
    if s.len() > 0 {
        let more = s.skip(1);
        assert(forall|i: int| 0 <= i < more.len() ==> more[i] == s[i + 1]);
        if s[0].0 == name {
            assert(s[0] == (name, s[0].1));
        } else {
            law_first_field_is_found(more, name);
            match field_of(more, name) {
                Some(v) => {
                    let i = choose|i: int|
                        0 <= i < more.len() && #[trigger] more[i] == (name, v) && forall|j: int|
                            0 <= j < i ==> (#[trigger] more[j]).0 != name;
                    assert(s[i + 1] == (name, v));
                    assert forall|j: int| 0 <= j < i + 1 implies (#[trigger] s[j]).0 != name by {
                        if j > 0 {
                            assert(more[j - 1].0 != name);
                        }
                    }
                },
                None => {
                    assert forall|i: int| 0 <= i < s.len() implies (#[trigger] s[i]).0 != name by {
                        if i > 0 {
                            assert(more[i - 1].0 != name);
                        }
                    }
                },
            }
        }
    }
}

/// Of a field whose name occurs once, its value is taken where it has the
/// type that is asked for, and nothing where it has another.
pub proof fn law_field_is_taken_by_type(s: Fields, i: int)
    requires
        0 <= i < s.len(),
        forall|j: int| 0 <= j < s.len() && j != i ==> (#[trigger] s[j]).0 != s[i].0,
    ensures
        forall|t: Seq<char>|
            s[i].1 == Script::Text(t) <==> #[trigger] string_field(s, s[i].0) == Some(t),
        forall|n: i64|
            s[i].1 == Script::Integer(n) <==> #[trigger] integer_field(s, s[i].0) == Some(n),
        forall|b: bool|
            s[i].1 == Script::Bool(b) <==> #[trigger] bool_field(s, s[i].0) == Some(b),
{
    law_first_field_is_found(s, s[i].0);
    assert(field_of(s, s[i].0) == Some(s[i].1));
}

/// The lowest bits of a number that fits are the number, and any two numbers
/// with the same lowest bits are sent alike; nothing stays nothing.
pub proof fn law_numbers_that_fit_are_kept(n: i64, other: i64)
    ensures
        low_unsigned(None) is None && low_signed(None) is None,
        0 <= n <= u32::MAX ==> low_unsigned(Some(n)) == Some(n as u32),
        i32::MIN <= n <= i32::MAX ==> low_signed(Some(n)) == Some(n as i32),
        low_unsigned(Some(n)) is Some && low_signed(Some(n)) is Some,
        (low_unsigned(Some(n)) == low_unsigned(Some(other))) <==> (n - other) % 0x1_0000_0000 == 0,
        (low_signed(Some(n)) == low_signed(Some(other))) <==> (n - other) % 0x1_0000_0000 == 0,
{
}

/// The object that a field holds, if it holds one.
pub open spec fn under(s: Fields, name: Seq<char>) -> Option<Fields> {
    match field_of(s, name) {
        Some(Script::Object(o)) => Some(o),
        _ => None,
    }
}

/// An object with an item under "put" asks to put it, whatever else it holds;
/// one with a key under "delete" and none such asks to delete it; any other
/// value asks for nothing.
pub proof fn law_write_is_asked_for(v: Script)
    ensures
        match write_of(v) {
            Ok(Some(Write::Put(m))) => v is Object && (under(v->Object_0, "put"@) matches Some(item)
                && to_item(item, Seq::empty()) == Ok::<Attrs, Seq<char>>(m)),
            Ok(Some(Write::Delete(m))) => v is Object && under(v->Object_0, "put"@) is None && (
            under(v->Object_0, "delete"@) matches Some(key) && to_item(key, Seq::empty()) == Ok::<
                Attrs,
                Seq<char>,
            >(m)),
            Ok(None) => v is Object ==> under(v->Object_0, "put"@) is None && under(
                v->Object_0,
                "delete"@,
            ) is None,
            Err(t) => v is Object && match under(v->Object_0, "put"@) {
                Some(item) => to_item(item, Seq::empty()) == Err::<Attrs, Seq<char>>(t),
                None => under(v->Object_0, "delete"@) matches Some(key) && to_item(
                    key,
                    Seq::empty(),
                ) == Err::<Attrs, Seq<char>>(t),
            },
        },
{
}

/// The writes that two lists ask for, one behind the other, are those of the
/// first and then those of the second; what the first cannot say, both cannot.
pub proof fn law_writes_follow_each_other(s: Seq<Script>, t: Seq<Script>)
    ensures
        match (writes_of(s, Seq::empty()), writes_of(t, Seq::empty())) {
            (Ok(a), Ok(b)) => writes_of(s + t, Seq::empty()) == Ok::<Seq<Write>, Seq<char>>(a + b),
            (Err(e), _) => writes_of(s + t, Seq::empty()) == Err::<Seq<Write>, Seq<char>>(e),
            (Ok(_), Err(e)) => writes_of(s + t, Seq::empty()) == Err::<Seq<Write>, Seq<char>>(e),
        },
{
    lemma_writes_go_on(s, t, Seq::empty());
    if let Ok(a) = writes_of(s, Seq::empty()) {
        lemma_writes_behind(t, a);
        assert(t + Seq::empty() =~= t);
    }
}

/// The reading of two lists goes on with the second.
proof fn lemma_writes_go_on(s: Seq<Script>, t: Seq<Script>, done: Seq<Write>)
    ensures
        match writes_of(s, done) {
            Ok(a) => writes_of(s + t, done) == writes_of(t, a),
            Err(e) => writes_of(s + t, done) == Err::<Seq<Write>, Seq<char>>(e),
        },
    decreases s.len(),
{
    if s.len() == 0 {
        assert(s + t =~= t);
    } else {
        assert((s + t).skip(1) =~= s.skip(1) + t);
        match write_of(s[0]) {
            Ok(Some(w)) => lemma_writes_go_on(s.skip(1), t, done.push(w)),
            Ok(None) => lemma_writes_go_on(s.skip(1), t, done),
            Err(_) => {},
        }
    }
}

/// Writes are added behind those that are there.
proof fn lemma_writes_behind(s: Seq<Script>, done: Seq<Write>)
    ensures
        match writes_of(s, Seq::empty()) {
            Ok(a) => writes_of(s, done) == Ok::<Seq<Write>, Seq<char>>(done + a),
            Err(e) => writes_of(s, done) == Err::<Seq<Write>, Seq<char>>(e),
        },
    decreases s.len(),
{
    if s.len() == 0 {
        assert(done + Seq::<Write>::empty() =~= done);
    } else {
        let more = s.skip(1);
        match write_of(s[0]) {
            Ok(Some(w)) => {
                lemma_writes_behind(more, done.push(w));
                lemma_writes_behind(more, Seq::empty().push(w));
                if let Ok(a) = writes_of(more, Seq::empty()) {
                    assert(done.push(w) + a =~= done + (Seq::empty().push(w) + a));
                }
            },
            Ok(None) => lemma_writes_behind(more, done),
            Err(_) => {},
        }
    }
}

/// A list of one value asks for the write of that value, or for nothing.
pub proof fn law_single_write_is_read(v: Script)
    ensures
        writes_of(seq![v], Seq::empty()) == match write_of(v) {
            Ok(Some(w)) => Ok::<Seq<Write>, Seq<char>>(seq![w]),
            Ok(None) => Ok(Seq::empty()),
            Err(t) => Err(t),
        },
        writes_of(Seq::empty(), Seq::empty()) == Ok::<Seq<Write>, Seq<char>>(Seq::empty()),
{
    reveal_with_fuel(writes_of, 2);
    assert(seq![v].skip(1) =~= Seq::empty());
    if let Ok(Some(w)) = write_of(v) {
        assert(Seq::empty().push(w) =~= seq![w]);
    }
}

/// Where every value of a list asks for a write, there are as many writes as
/// values, in their order.
pub proof fn law_every_write_is_read(s: Seq<Script>, w: Seq<Write>)
    requires
        w.len() == s.len(),
        forall|i: int|
            0 <= i < s.len() ==> write_of(#[trigger] s[i]) == Ok::<Option<Write>, Seq<char>>(
                Some(w[i]),
            ),
    ensures
        writes_of(s, Seq::empty()) == Ok::<Seq<Write>, Seq<char>>(w),
{
    lemma_every_write(s, w, Seq::empty());
    assert(Seq::empty() + w =~= w);
}

/// Every write is added behind those that are there.
proof fn lemma_every_write(s: Seq<Script>, w: Seq<Write>, done: Seq<Write>)
    requires
        w.len() == s.len(),
        forall|i: int|
            0 <= i < s.len() ==> write_of(#[trigger] s[i]) == Ok::<Option<Write>, Seq<char>>(
                Some(w[i]),
            ),
    ensures
        writes_of(s, done) == Ok::<Seq<Write>, Seq<char>>(done + w),
    decreases s.len(),
{
    if s.len() == 0 {
        assert(done + w =~= done);
    } else {
        let (more, rest) = (s.skip(1), w.skip(1));
        assert(write_of(s[0]) == Ok::<Option<Write>, Seq<char>>(Some(w[0])));
        assert forall|i: int| 0 <= i < more.len() implies write_of(#[trigger] more[i]) == Ok::<
            Option<Write>,
            Seq<char>,
        >(Some(rest[i])) by {
            assert(more[i] == s[i + 1]);
        }
        lemma_every_write(more, rest, done.push(w[0]));
        assert(done.push(w[0]) + rest =~= done + w);
    }
}

/// Where every value of a list is an object that becomes a key, there are as
/// many keys as values, in their order.
pub proof fn law_every_key_is_read(s: Seq<Script>, k: Seq<Attrs>)
    requires
        k.len() == s.len(),
        forall|i: int|
            0 <= i < s.len() ==> (#[trigger] s[i] matches Script::Object(o) && to_item(
                o,
                Seq::empty(),
            ) == Ok::<Attrs, Seq<char>>(k[i])),
    ensures
        keys_of(s, Seq::empty()) == Ok::<Seq<Attrs>, Seq<char>>(k),
{
    lemma_every_key(s, k, Seq::empty());
    assert(Seq::empty() + k =~= k);
}

/// Every key is added behind those that are there.
proof fn lemma_every_key(s: Seq<Script>, k: Seq<Attrs>, done: Seq<Attrs>)
    requires
        k.len() == s.len(),
        forall|i: int|
            0 <= i < s.len() ==> (#[trigger] s[i] matches Script::Object(o) && to_item(
                o,
                Seq::empty(),
            ) == Ok::<Attrs, Seq<char>>(k[i])),
    ensures
        keys_of(s, done) == Ok::<Seq<Attrs>, Seq<char>>(done + k),
    decreases s.len(),
{
    if s.len() == 0 {
        assert(done + k =~= done);
    } else {
        let (more, rest) = (s.skip(1), k.skip(1));
        assert(s[0] matches Script::Object(o) && to_item(o, Seq::empty()) == Ok::<Attrs, Seq<char>>(
            k[0],
        ));
        assert forall|i: int| 0 <= i < more.len() implies (#[trigger] more[i] matches Script::Object(
            o,
        ) && to_item(o, Seq::empty()) == Ok::<Attrs, Seq<char>>(rest[i])) by {
            assert(more[i] == s[i + 1]);
        }
        lemma_every_key(more, rest, done.push(k[0]));
        assert(done.push(k[0]) + rest =~= done + k);
    }
}

/// Values that are no objects stand for no keys.
pub proof fn law_other_values_are_no_keys(s: Seq<Script>, i: int)
    requires
        0 <= i < s.len(),
        !(s[i] is Object),
    ensures
        keys_of(s, Seq::empty()) == keys_of(s.remove(i), Seq::empty()),
{
    lemma_no_key(s, i, Seq::empty());
}

/// A value that is no object stands for no key.
proof fn lemma_no_key(s: Seq<Script>, i: int, done: Seq<Attrs>)
    requires
        0 <= i < s.len(),
        !(s[i] is Object),
    ensures
        keys_of(s, done) == keys_of(s.remove(i), done),
    decreases s.len(),
{
    if i == 0 {
        assert(s.remove(0) =~= s.skip(1));
    } else {
        let less = s.remove(i);
        assert(less[0] == s[0]);
        assert(less.skip(1) =~= s.skip(1).remove(i - 1));
        match s[0] {
            Script::Object(o) => if let Ok(m) = to_item(o, Seq::empty()) {
                lemma_no_key(s.skip(1), i - 1, done.push(m));
            },
            _ => lemma_no_key(s.skip(1), i - 1, done),
        }
    }
}

/// Where every field of a request holds a list of writes, there is an entry
/// for each field, with its name and its writes, in their order.
pub proof fn law_every_table_is_written(s: Fields, w: TableWrites)
    requires
        w.len() == s.len(),
        forall|i: int|
            0 <= i < s.len() ==> w[i].0 == (#[trigger] s[i]).0 && (s[i].1 matches Script::List(l)
                && writes_of(l, Seq::empty()) == Ok::<Seq<Write>, Seq<char>>(w[i].1)),
    ensures
        table_writes_of(s, Seq::empty()) == Ok::<TableWrites, Seq<char>>(w),
{
    lemma_every_table_written(s, w, Seq::empty());
    assert(Seq::empty() + w =~= w);
}

/// Every entry is added behind those that are there.
proof fn lemma_every_table_written(s: Fields, w: TableWrites, done: TableWrites)
    requires
        w.len() == s.len(),
        forall|i: int|
            0 <= i < s.len() ==> w[i].0 == (#[trigger] s[i]).0 && (s[i].1 matches Script::List(l)
                && writes_of(l, Seq::empty()) == Ok::<Seq<Write>, Seq<char>>(w[i].1)),
    ensures
        table_writes_of(s, done) == Ok::<TableWrites, Seq<char>>(done + w),
    decreases s.len(),
{
    if s.len() == 0 {
        assert(done + w =~= done);
    } else {
        let (more, rest) = (s.skip(1), w.skip(1));
        assert(w[0].0 == s[0].0);
        assert forall|i: int| 0 <= i < more.len() implies rest[i].0 == (#[trigger] more[i]).0 && (
        more[i].1 matches Script::List(l) && writes_of(l, Seq::empty()) == Ok::<
            Seq<Write>,
            Seq<char>,
        >(rest[i].1)) by {
            assert(more[i] == s[i + 1]);
        }
        lemma_every_table_written(more, rest, done.push(w[0]));
        assert(done.push(w[0]) + rest =~= done + w);
    }
}

/// Where every field of a request holds a list of keys, there is an entry for
/// each field, with its name and its keys, in their order.
pub proof fn law_every_table_is_read(s: Fields, k: TableKeys)
    requires
        k.len() == s.len(),
        forall|i: int|
            0 <= i < s.len() ==> k[i].0 == (#[trigger] s[i]).0 && (s[i].1 matches Script::List(l)
                && keys_of(l, Seq::empty()) == Ok::<Seq<Attrs>, Seq<char>>(k[i].1)),
    ensures
        table_keys_of(s, Seq::empty()) == Ok::<TableKeys, Seq<char>>(k),
{
    lemma_every_table_read(s, k, Seq::empty());
    assert(Seq::empty() + k =~= k);
}

/// Every entry is added behind those that are there.
proof fn lemma_every_table_read(s: Fields, k: TableKeys, done: TableKeys)
    requires
        k.len() == s.len(),
        forall|i: int|
            0 <= i < s.len() ==> k[i].0 == (#[trigger] s[i]).0 && (s[i].1 matches Script::List(l)
                && keys_of(l, Seq::empty()) == Ok::<Seq<Attrs>, Seq<char>>(k[i].1)),
    ensures
        table_keys_of(s, done) == Ok::<TableKeys, Seq<char>>(done + k),
    decreases s.len(),
{
    if s.len() == 0 {
        assert(done + k =~= done);
    } else {
        let (more, rest) = (s.skip(1), k.skip(1));
        assert(k[0].0 == s[0].0);
        assert forall|i: int| 0 <= i < more.len() implies rest[i].0 == (#[trigger] more[i]).0 && (
        more[i].1 matches Script::List(l) && keys_of(l, Seq::empty()) == Ok::<
            Seq<Attrs>,
            Seq<char>,
        >(rest[i].1)) by {
            assert(more[i] == s[i + 1]);
        }
        lemma_every_table_read(more, rest, done.push(k[0]));
        assert(done.push(k[0]) + rest =~= done + k);
    }
}

/// A request field that holds no list asks for nothing.
pub proof fn law_fields_without_lists_ask_for_nothing(s: Fields, i: int)
    requires
        0 <= i < s.len(),
        !(s[i].1 is List),
    ensures
        table_writes_of(s, Seq::empty()) == table_writes_of(s.remove(i), Seq::empty()),
        table_keys_of(s, Seq::empty()) == table_keys_of(s.remove(i), Seq::empty()),
{
    lemma_no_table(s, i, Seq::empty(), Seq::empty());
}

/// A request field that holds no list asks for nothing.
proof fn lemma_no_table(s: Fields, i: int, writes: TableWrites, keys: TableKeys)
    requires
        0 <= i < s.len(),
        !(s[i].1 is List),
    ensures
        table_writes_of(s, writes) == table_writes_of(s.remove(i), writes),
        table_keys_of(s, keys) == table_keys_of(s.remove(i), keys),
    decreases s.len(),
{
    if i == 0 {
        assert(s.remove(0) =~= s.skip(1));
    } else {
        let less = s.remove(i);
        assert(less[0] == s[0]);
        assert(less.skip(1) =~= s.skip(1).remove(i - 1));
        match s[0].1 {
            Script::List(l) => {
                let more_writes = match writes_of(l, Seq::empty()) {
                    Ok(w) => writes.push((s[0].0, w)),
                    Err(_) => writes,
                };
                let more_keys = match keys_of(l, Seq::empty()) {
                    Ok(k) => keys.push((s[0].0, k)),
                    Err(_) => keys,
                };
                lemma_no_table(s.skip(1), i - 1, more_writes, more_keys);
            },
            _ => lemma_no_table(s.skip(1), i - 1, writes, keys),
        }
    }
}

/// An object shows an item.
pub open spec fn shows_item(s: Attrs, o: Fields) -> bool {
    o.len() == s.len() && forall|i: int|
        0 <= i < s.len() ==> o[i].0 == (#[trigger] s[i]).0 && shows_same(s[i].1, o[i].1)
}

/// The object that a script is handed for an item shows its names and values
/// in their order; the error names the first attribute that has none.
pub proof fn law_item_becomes_object(s: Attrs)
    ensures
        match to_object(s, Seq::empty()) {
            Ok(o) => shows_item(s, o),
            Err(t) => exists|i: int|
                0 <= i < s.len() && (script_of((#[trigger] s[i]).1) matches Err(reason) && t
                    == bad_attribute_text(s[i].0, reason)) && !is_shown(s[i].1),
        },
{
    lemma_object(s, Seq::empty());
    if let Ok(o) = to_object(s, Seq::empty()) {
        assert(o.skip(0) =~= o);
    }
}

/// The values of the rest of an item are added behind those that are there.
proof fn lemma_object(s: Attrs, done: Fields)
    ensures
        match to_object(s, done) {
            Ok(o) => o.len() == done.len() + s.len() && o.take(done.len() as int) == done
                && shows_item(s, o.skip(done.len() as int)),
            Err(t) => exists|i: int|
                0 <= i < s.len() && (script_of((#[trigger] s[i]).1) matches Err(reason) && t
                    == bad_attribute_text(s[i].0, reason)) && !is_shown(s[i].1),
        },
    decreases s.len(),
{
    if s.len() == 0 {
        assert(done.take(done.len() as int) =~= done);
    } else {
        let more = s.skip(1);
        assert(forall|i: int| 0 <= i < more.len() ==> more[i] == s[i + 1]);
        law_attribute_is_shown(s[0].1);
        match script_of(s[0].1) {
            Ok(v) => {
                let next = done.push((s[0].0, v));
                lemma_object(more, next);
                match to_object(s, done) {
                    Ok(o) => {
                        let tail = o.skip(next.len() as int);
                        let all = o.skip(done.len() as int);
                        assert(next == o.take(next.len() as int));
                        assert(o.take(done.len() as int) =~= next.take(done.len() as int));
                        assert(next.take(done.len() as int) =~= done);
                        assert(all[0] == o[done.len() as int]);
                        assert(o[done.len() as int] == next[done.len() as int]);
                        assert forall|i: int| 0 <= i < s.len() implies all[i].0 == (
                        #[trigger] s[i]).0 && shows_same(s[i].1, all[i].1) by {
                            if i > 0 {
                                assert(more[i - 1] == s[i]);
                                assert(tail[i - 1] == all[i]);
                            }
                        }
                    },
                    Err(t) => {
                        let k = choose|k: int|
                            0 <= k < more.len() && (script_of(
                                (#[trigger] more[k]).1,
                            ) matches Err(reason) && t == bad_attribute_text(more[k].0, reason))
                                && !is_shown(more[k].1);
                        assert(script_of(s[k + 1].1) is Err);
                    },
                }
            },
            Err(_) => {},
        }
    }
}

/// Items become as many objects, in their order.
pub proof fn law_items_become_objects(s: Seq<Attrs>)
    ensures
        to_objects(s, Seq::empty()) matches Ok(l) ==> l.len() == s.len() && forall|i: int|
            0 <= i < s.len() ==> (#[trigger] l[i] matches Script::Object(o) && shows_item(s[i], o)),
        (forall|i: int|
            0 <= i < s.len() ==> to_object(#[trigger] s[i], Seq::empty()) is Ok) <==> to_objects(
            s,
            Seq::empty(),
        ) is Ok,
{
    lemma_objects(s, Seq::empty());
    if let Ok(l) = to_objects(s, Seq::empty()) {
        assert(l.skip(0) =~= l);
    }
}

/// A list of objects shows items.
pub open spec fn shows_items(s: Seq<Attrs>, l: Seq<Script>) -> bool {
    l.len() == s.len() && forall|i: int|
        0 <= i < s.len() ==> (#[trigger] l[i] matches Script::Object(o) && shows_item(s[i], o))
}

/// Objects are added behind those that are there.
proof fn lemma_objects(s: Seq<Attrs>, done: Seq<Script>)
    ensures
        to_objects(s, done) matches Ok(l) ==> l.len() == done.len() + s.len() && l.take(
            done.len() as int,
        ) == done && shows_items(s, l.skip(done.len() as int)),
        (forall|i: int|
            0 <= i < s.len() ==> to_object(#[trigger] s[i], Seq::empty()) is Ok) <==> to_objects(
            s,
            done,
        ) is Ok,
    decreases s.len(),
{
    if s.len() == 0 {
        assert(done.take(done.len() as int) =~= done);
    } else {
        let more = s.skip(1);
        assert(forall|i: int| 0 <= i < more.len() ==> more[i] == s[i + 1]);
        law_item_becomes_object(s[0]);
        if let Ok(o) = to_object(s[0], Seq::empty()) {
            let next = done.push(Script::Object(o));
            lemma_objects(more, next);
            if let Ok(l) = to_objects(s, done) {
                let tail = l.skip(next.len() as int);
                let all = l.skip(done.len() as int);
                assert(next == l.take(next.len() as int));
                assert(l.take(done.len() as int) =~= next.take(done.len() as int));
                assert(next.take(done.len() as int) =~= done);
                assert(l[done.len() as int] == next[done.len() as int]);
                assert forall|i: int| 0 <= i < s.len() implies (
                #[trigger] all[i] matches Script::Object(o) && shows_item(s[i], o)) by {
                    if i > 0 {
                        assert(more[i - 1] == s[i]);
                        assert(tail[i - 1] == all[i]);
                    }
                }
                assert forall|i: int| 0 <= i < s.len() implies to_object(
                    #[trigger] s[i],
                    Seq::empty(),
                ) is Ok by {
                    if i > 0 {
                        assert(to_object(more[i - 1], Seq::empty()) is Ok);
                    }
                }
            } else {
                let i = choose|i: int|
                    0 <= i < more.len() && !(to_object(#[trigger] more[i], Seq::empty()) is Ok);
                assert(!(to_object(s[i + 1], Seq::empty()) is Ok));
            }
        } else {
            assert(!(to_object(s[0], Seq::empty()) is Ok));
        }
    }
}

/// The result of a batch has a field for each table, with its name and a list
/// of the objects of its items, in their order.
pub proof fn law_tables_become_fields(s: TableKeys)
    ensures
        to_tables(s, Seq::empty()) matches Ok(f) ==> f.len() == s.len() && forall|i: int|
            0 <= i < s.len() ==> (#[trigger] f[i]).0 == s[i].0 && (f[i].1 matches Script::List(l)
                && shows_items(s[i].1, l)),
{
    lemma_tables(s, Seq::empty());
    if let Ok(f) = to_tables(s, Seq::empty()) {
        assert(f.skip(0) =~= f);
    }
}

/// A field for each table.
pub open spec fn shows_tables(s: TableKeys, f: Fields) -> bool {
    f.len() == s.len() && forall|i: int|
        0 <= i < s.len() ==> (#[trigger] f[i]).0 == s[i].0 && (f[i].1 matches Script::List(l)
            && shows_items(s[i].1, l))
}

/// Fields are added behind those that are there.
proof fn lemma_tables(s: TableKeys, done: Fields)
    ensures
        to_tables(s, done) matches Ok(f) ==> f.len() == done.len() + s.len() && f.take(
            done.len() as int,
        ) == done && shows_tables(s, f.skip(done.len() as int)),
    decreases s.len(),
{
    if s.len() == 0 {
        assert(done.take(done.len() as int) =~= done);
    } else {
        let more = s.skip(1);
        assert(forall|i: int| 0 <= i < more.len() ==> more[i] == s[i + 1]);
        lemma_objects(s[0].1, Seq::empty());
        if let Ok(l) = to_objects(s[0].1, Seq::empty()) {
            assert(l.skip(0) =~= l);
            let next = done.push((s[0].0, Script::List(l)));
            lemma_tables(more, next);
            if let Ok(f) = to_tables(s, done) {
                let tail = f.skip(next.len() as int);
                let all = f.skip(done.len() as int);
                assert(next == f.take(next.len() as int));
                assert(f.take(done.len() as int) =~= next.take(done.len() as int));
                assert(next.take(done.len() as int) =~= done);
                assert(f[done.len() as int] == next[done.len() as int]);
                assert forall|i: int| 0 <= i < s.len() implies (#[trigger] all[i]).0 == s[i].0 && (
                all[i].1 matches Script::List(l) && shows_items(s[i].1, l)) by {
                    if i > 0 {
                        assert(more[i - 1] == s[i]);
                        assert(tail[i - 1] == all[i]);
                    }
                }
            }
        }
    }
}

/// Options give names or values exactly where the field for them holds an object.
pub proof fn law_given_names_and_values_are_taken(s: Fields)
    ensures
        match field_of(s, "expression_attribute_names"@) {
            Some(Script::Object(o)) => match names_option(s) {
                Ok(m) => m is Some && to_names(o, Map::empty()) == Ok::<
                    Map<Seq<char>, Seq<char>>,
                    Seq<char>,
                >(m->0),
                Err(t) => to_names(o, Map::empty()) == Err::<
                    Map<Seq<char>, Seq<char>>,
                    Seq<char>,
                >(t),
            },
            _ => names_option(s) matches Ok(m) && m is None,
        },
        match field_of(s, "expression_attribute_values"@) {
            Some(Script::Object(o)) => match values_option(s) {
                Ok(m) => m is Some && to_item(o, Seq::empty()) == Ok::<Attrs, Seq<char>>(m->0),
                Err(t) => to_item(o, Seq::empty()) == Err::<Attrs, Seq<char>>(t),
            },
            _ => values_option(s) matches Ok(m) && m is None,
        },
{
}

/// A list becomes a set exactly if all its values are of the kind of the set,
/// and the set has its values in their order.
pub proof fn law_sets_hold_every_value(s: Seq<Script>)
    ensures
        match bytes_of(s) {
            Some(l) => l.len() == s.len() && forall|i: int|
                0 <= i < s.len() ==> #[trigger] s[i] == Script::Bytes(l[i]),
            None => exists|i: int| 0 <= i < s.len() && !(#[trigger] s[i] is Bytes),
        },
        match strings_of(s) {
            Some(l) => l.len() == s.len() && forall|i: int|
                0 <= i < s.len() ==> #[trigger] s[i] == Script::Text(l[i]),
            None => exists|i: int| 0 <= i < s.len() && !(#[trigger] s[i] is Text),
        },
        match number_texts_of(s) {
            Some(l) => l.len() == s.len() && forall|i: int|
                0 <= i < s.len() ==> holds_number(#[trigger] s[i], l[i]),
            None => exists|i: int|
                0 <= i < s.len() && !(#[trigger] s[i] is Integer || s[i] is Float),
        },
    decreases s.len(),
{
    if s.len() > 0 {
        let init = s.drop_last();
        law_sets_hold_every_value(init);
        assert(forall|i: int| 0 <= i < init.len() ==> init[i] == s[i]);
        let last = s[s.len() - 1];
        assert(last == s.last());
        if let Script::Integer(n) = last {
            crate::number::law_signed_number_round_trip(n);
        }
        if bytes_of(init) is None {
            let i = choose|i: int| 0 <= i < init.len() && !(#[trigger] init[i] is Bytes);
            assert(!(s[i] is Bytes));
        }
        if strings_of(init) is None {
            let i = choose|i: int| 0 <= i < init.len() && !(#[trigger] init[i] is Text);
            assert(!(s[i] is Text));
        }
        if number_texts_of(init) is None {
            let i = choose|i: int|
                0 <= i < init.len() && !(#[trigger] init[i] is Integer || init[i] is Float);
            assert(!(s[i] is Integer || s[i] is Float));
        }
        if let Some(l) = number_texts_of(s) {
            assert forall|i: int| 0 <= i < s.len() implies holds_number(#[trigger] s[i], l[i]) by {
                if i < s.len() - 1 {
                    assert(init[i] == s[i]);
                    assert(l[i] == number_texts_of(init)->0[i]);
                }
            }
        }
    }
}

/// A text spells the number of a value.
pub open spec fn holds_number(v: Script, t: Seq<char>) -> bool {
    match v {
        Script::Integer(n) => signed_of(t) == Some(n as int),
        Script::Float(f) => t == f,
        _ => false,
    }
}

/// Every kind of key, attribute and projection has one name in upper case,
/// and no other text stands for one.
pub proof fn law_kinds_have_names(name: Seq<char>)
    ensures
        key_type_of(name) == Some(KeyType::Hash) <==> name == "HASH"@,
        key_type_of(name) == Some(KeyType::Range) <==> name == "RANGE"@,
        attribute_type_of(name) == Some(ScalarAttributeType::S) <==> name == "S"@,
        attribute_type_of(name) == Some(ScalarAttributeType::N) <==> name == "N"@,
        attribute_type_of(name) == Some(ScalarAttributeType::B) <==> name == "B"@,
        projection_type_of(name) == Some(ProjectionType::All) <==> name == "ALL"@,
        projection_type_of(name) == Some(ProjectionType::KeysOnly) <==> name == "KEYS_ONLY"@,
        projection_type_of(name) == Some(ProjectionType::Include) <==> name == "INCLUDE"@,
{
    reveal_strlit("HASH");
    reveal_strlit("RANGE");
    reveal_strlit("S");
    reveal_strlit("N");
    reveal_strlit("B");
    reveal_strlit("ALL");
    reveal_strlit("KEYS_ONLY");
    reveal_strlit("INCLUDE");
    assert("S"@[0] == 'S' && "N"@[0] == 'N' && "B"@[0] == 'B');
    assert("HASH"@.len() != "RANGE"@.len());
    assert("ALL"@.len() == 3 && "KEYS_ONLY"@.len() == 9 && "INCLUDE"@.len() == 7);
}

} // verus!
