//! The values of item attributes, as plain data.
//!
//! [`Attr`] is the mathematical value that an [`AttributeValue`] stands for:
//! contracts speak of it.

use crate::text::{copy_texts, same_text, texts};
use vstd::prelude::*;
use vstd::string::*;

verus! {

/// The value of an attribute. A number is held as its text.
#[derive(Debug)]
pub enum AttributeValue {
    Null(bool),
    Bool(bool),
    N(String),
    S(String),
    B(Vec<u8>),
    Ss(Vec<String>),
    Ns(Vec<String>),
    Bs(Vec<Vec<u8>>),
    L(Vec<AttributeValue>),
    /// Names and values; no name occurs twice.
    M(Vec<(String, AttributeValue)>),
}

/// The attributes of an item or of a key, by their names; no name occurs twice.
pub type Item = Vec<(String, AttributeValue)>;

/// The mathematical value of an [`AttributeValue`].
pub enum Attr {
    Null(bool),
    Bool(bool),
    N(Seq<char>),
    S(Seq<char>),
    B(Seq<u8>),
    Ss(Seq<Seq<char>>),
    Ns(Seq<Seq<char>>),
    Bs(Seq<Seq<u8>>),
    L(Seq<Attr>),
    M(Seq<(Seq<char>, Attr)>),
}

/// Names and values of attributes.
pub type Attrs = Seq<(Seq<char>, Attr)>;

/// The values of a sequence of attribute values.
pub open spec fn attr_list(s: Seq<AttributeValue>) -> Seq<Attr>
    decreases s,
{
    Seq::new(
        s.len(),
        |i: int|
            if 0 <= i < s.len() {
                s[i]@
            } else {
                Attr::Null(true)
            },
    )
}

/// The names and values of attributes.
pub open spec fn attrs(s: Seq<(String, AttributeValue)>) -> Attrs
    decreases s,
{
    Seq::new(
        s.len(),
        |i: int|
            if 0 <= i < s.len() {
                (s[i].0@, s[i].1@)
            } else {
                (Seq::empty(), Attr::Null(true))
            },
    )
}

/// The bytes of a sequence of byte strings.
pub open spec fn blobs(s: Seq<Vec<u8>>) -> Seq<Seq<u8>> {
    s.map_values(|b: Vec<u8>| b@)
}

/// The attributes of a sequence of items.
pub open spec fn items_of(s: Seq<Item>) -> Seq<Attrs> {
    s.map_values(|item: Item| attrs(item@))
}

impl View for AttributeValue {
    type V = Attr;

    open spec fn view(&self) -> Attr
        decreases self,
    {
        match self {
            AttributeValue::Null(b) => Attr::Null(*b),
            AttributeValue::Bool(b) => Attr::Bool(*b),
            AttributeValue::N(s) => Attr::N(s@),
            AttributeValue::S(s) => Attr::S(s@),
            AttributeValue::B(b) => Attr::B(b@),
            AttributeValue::Ss(v) => Attr::Ss(texts(v@)),
            AttributeValue::Ns(v) => Attr::Ns(texts(v@)),
            AttributeValue::Bs(v) => Attr::Bs(blobs(v@)),
            AttributeValue::L(v) => Attr::L(attr_list(v@)),
            AttributeValue::M(v) => Attr::M(attrs(v@)),
        }
    }
}

/// Some attribute has a name.
pub open spec fn has_name(s: Attrs, name: Seq<char>) -> bool {
    exists|i: int| 0 <= i < s.len() && (#[trigger] s[i]).0 == name
}

/// No name occurs twice.
pub open spec fn distinct_names(s: Attrs) -> bool {
    forall|i: int, j: int| 0 <= i < j < s.len() ==> (#[trigger] s[i]).0 != (#[trigger] s[j]).0
}

/// Attributes with one of them set: in its place where the name is there, at the end where not.
pub open spec fn with_attr(s: Attrs, name: Seq<char>, value: Attr) -> Attrs
    decreases s.len(),
{
    if s.len() == 0 {
        seq![(name, value)]
    } else if s[0].0 == name {
        s.update(0, (name, value))
    } else {
        seq![s[0]] + with_attr(s.skip(1), name, value)
    }
}

/// Setting the attribute at its place updates that place.
pub proof fn lemma_with_attr_at(s: Attrs, name: Seq<char>, value: Attr, i: int)
    requires
        0 <= i < s.len(),
        s[i].0 == name,
        forall|j: int| 0 <= j < i ==> (#[trigger] s[j]).0 != name,
    ensures
        with_attr(s, name, value) == s.update(i, (name, value)),
    decreases s.len(),
{
    if i > 0 {
        assert(s.skip(1)[i - 1] == s[i]);
        assert forall|j: int| 0 <= j < i - 1 implies (#[trigger] s.skip(1)[j]).0 != name by {
            assert(s[j + 1].0 != name);
        }
        lemma_with_attr_at(s.skip(1), name, value, i - 1);
        assert(seq![s[0]] + s.skip(1).update(i - 1, (name, value)) =~= s.update(i, (name, value)));
    }
}

/// Setting an attribute that is not there appends it.
pub proof fn lemma_with_attr_new(s: Attrs, name: Seq<char>, value: Attr)
    requires
        forall|j: int| 0 <= j < s.len() ==> (#[trigger] s[j]).0 != name,
    ensures
        with_attr(s, name, value) == s.push((name, value)),
    decreases s.len(),
{
    if s.len() > 0 {
        assert forall|j: int| 0 <= j < s.skip(1).len() implies (#[trigger] s.skip(1)[j]).0
            != name by {
            assert(s[j + 1].0 != name);
        }
        lemma_with_attr_new(s.skip(1), name, value);
        assert(seq![s[0]] + s.skip(1).push((name, value)) =~= s.push((name, value)));
    } else {
        assert(seq![(name, value)] =~= s.push((name, value)));
    }
}

/// Setting an attribute sets it, keeps the others, and doubles no name.
pub proof fn law_set_attribute(s: Attrs, name: Seq<char>, value: Attr)
    requires
        distinct_names(s),
    ensures
        distinct_names(with_attr(s, name, value)),
        attr_of(with_attr(s, name, value), name) == Some(value),
        forall|other: Seq<char>|
            other != name ==> #[trigger] attr_of(with_attr(s, name, value), other) == attr_of(
                s,
                other,
            ),
{
    let now = with_attr(s, name, value);
    if has_name(s, name) {
        let i = choose|i: int| 0 <= i < s.len() && (#[trigger] s[i]).0 == name;
        lemma_with_attr_at(s, name, value, i);
        assert(now[i] == (name, value));
        assert forall|other: Seq<char>| other != name implies #[trigger] attr_of(now, other)
            == attr_of(s, other) by {
            lemma_attr_of(now, other);
            lemma_attr_of(s, other);
            if has_name(s, other) {
                let k = choose|k: int| 0 <= k < s.len() && (#[trigger] s[k]).0 == other;
                assert(now[k] == s[k]);
            }
            if has_name(now, other) {
                let k = choose|k: int| 0 <= k < now.len() && (#[trigger] now[k]).0 == other;
                assert(now[k] == s[k]);
            }
        }
        assert(forall|k: int| 0 <= k < now.len() ==> (#[trigger] now[k]).0 == s[k].0);
        lemma_attr_of(now, name);
    } else {
        lemma_with_attr_new(s, name, value);
        assert(now.last() == (name, value));
        assert(distinct_names(now));
        lemma_attr_of(now, name);
        assert forall|other: Seq<char>| other != name implies #[trigger] attr_of(now, other)
            == attr_of(s, other) by {
            lemma_attr_of(now, other);
            lemma_attr_of(s, other);
            if has_name(s, other) {
                let k = choose|k: int| 0 <= k < s.len() && (#[trigger] s[k]).0 == other;
                assert(now[k] == s[k]);
            }
            if has_name(now, other) {
                let k = choose|k: int| 0 <= k < now.len() && (#[trigger] now[k]).0 == other;
                assert(now[k] == s[k]);
            }
        }
    }
}

/// The value of the first attribute with a name.
pub open spec fn attr_of(s: Attrs, name: Seq<char>) -> Option<Attr>
    decreases s.len(),
{
    if s.len() == 0 {
        None
    } else if s[0].0 == name {
        Some(s[0].1)
    } else {
        attr_of(s.skip(1), name)
    }
}

/// An attribute is found exactly where its name is there, and with distinct names it has the value beside its name.
pub proof fn lemma_attr_of(s: Attrs, name: Seq<char>)
    ensures
        attr_of(s, name) is Some <==> has_name(s, name),
        distinct_names(s) ==> forall|i: int|
            0 <= i < s.len() && (#[trigger] s[i]).0 == name ==> attr_of(s, name) == Some(s[i].1),
    decreases s.len(),
{
    if s.len() > 0 {
        let rest = s.skip(1);
        lemma_attr_of(rest, name);
        assert(forall|i: int| 0 <= i < rest.len() ==> rest[i] == s[i + 1]);
        if has_name(rest, name) {
            let i = choose|i: int| 0 <= i < rest.len() && (#[trigger] rest[i]).0 == name;
            assert(s[i + 1].0 == name);
        }
        if has_name(s, name) && s[0].0 != name {
            let i = choose|i: int| 0 <= i < s.len() && (#[trigger] s[i]).0 == name;
            assert(rest[i - 1].0 == name);
        }
        if distinct_names(s) {
            assert(distinct_names(rest));
            assert forall|i: int| 0 <= i < s.len() && (#[trigger] s[i]).0 == name implies attr_of(
                s,
                name,
            ) == Some(s[i].1) by {
                if i > 0 {
                    assert(s[0].0 != s[i].0);
                    assert(rest[i - 1] == s[i]);
                }
            }
        }
    }
}

/// The position of the first attribute with a name.
fn position(item: &Item, name: &str) -> (r: Option<usize>)
    ensures
        match r {
            Some(i) => i < item@.len() && item@[i as int].0@ == name@ && forall|j: int|
                0 <= j < i ==> (#[trigger] item@[j]).0@ != name@,
            None => forall|j: int| 0 <= j < item@.len() ==> (#[trigger] item@[j]).0@ != name@,
        },
{
    let mut i: usize = 0;
    while i < item.len()
        invariant
            i <= item@.len(),
            forall|j: int| 0 <= j < i ==> (#[trigger] item@[j]).0@ != name@,
        decreases item@.len() - i,
    {
        if same_text(item[i].0.as_str(), name) {
            return Some(i);
        }
        i = i + 1;
    }
    None
}

/// Sets an attribute: in its place where the name is there, at the end where not.
pub fn set_attribute(item: &mut Item, name: String, value: AttributeValue)
    ensures
        attrs(final(item)@) == with_attr(attrs(old(item)@), name@, value@),
{
    let ghost before = attrs(item@);
    let ghost n = name@;
    let ghost v = value@;
    match position(item, name.as_str()) {
        Some(i) => {
            proof {
                assert forall|j: int| 0 <= j < i implies (#[trigger] before[j]).0 != n by {
                    assert(item@[j].0@ != n);
                }
                lemma_with_attr_at(before, n, v, i as int);
            }
            item.set(i, (name, value));
            assert(attrs(item@) =~= before.update(i as int, (n, v)));
        },
        None => {
            proof {
                assert forall|j: int| 0 <= j < before.len() implies (#[trigger] before[j]).0
                    != n by {
                    assert(item@[j].0@ != n);
                }
                lemma_with_attr_new(before, n, v);
            }
            item.push((name, value));
            assert(attrs(item@) =~= before.push((n, v)));
        },
    }
}

/// The value of an attribute.
pub fn get_attribute<'a>(item: &'a Item, name: &str) -> (r: Option<&'a AttributeValue>)
    ensures
        match r {
            Some(value) => attr_of(attrs(item@), name@) == Some(value@),
            None => attr_of(attrs(item@), name@) is None,
        },
{
    let ghost s = attrs(item@);
    match position(item, name) {
        Some(i) => {
            proof {
                assert(s[i as int].0 == name@);
                assert forall|j: int| 0 <= j < i implies (#[trigger] s[j]).0 != name@ by {
                    assert(item@[j].0@ != name@);
                }
                lemma_first(s, name@, i as int);
            }
            Some(&item[i].1)
        },
        None => {
            proof {
                assert forall|j: int| 0 <= j < s.len() implies (#[trigger] s[j]).0 != name@ by {
                    assert(item@[j].0@ != name@);
                }
                lemma_attr_of(s, name@);
            }
            None
        },
    }
}

/// The first attribute with a name is the one that is found.
proof fn lemma_first(s: Attrs, name: Seq<char>, i: int)
    requires
        0 <= i < s.len(),
        s[i].0 == name,
        forall|j: int| 0 <= j < i ==> (#[trigger] s[j]).0 != name,
    ensures
        attr_of(s, name) == Some(s[i].1),
    decreases s.len(),
{
    if i > 0 {
        assert(s.skip(1)[i - 1] == s[i]);
        assert forall|j: int| 0 <= j < i - 1 implies (#[trigger] s.skip(1)[j]).0 != name by {
            assert(s[j + 1].0 != name);
        }
        lemma_first(s.skip(1), name, i - 1);
    }
}

impl AttributeValue {
    /// A copy of the value.
    pub fn copy(&self) -> (r: AttributeValue)
        ensures
            r@ == self@,
        decreases self, 1int,
    {
        match self {
            AttributeValue::Null(b) => AttributeValue::Null(*b),
            AttributeValue::Bool(b) => AttributeValue::Bool(*b),
            AttributeValue::N(s) => AttributeValue::N(s.clone()),
            AttributeValue::S(s) => AttributeValue::S(s.clone()),
            AttributeValue::B(b) => AttributeValue::B(copy_blob(b)),
            AttributeValue::Ss(v) => AttributeValue::Ss(copy_texts(v)),
            AttributeValue::Ns(v) => AttributeValue::Ns(copy_texts(v)),
            AttributeValue::Bs(v) => AttributeValue::Bs(copy_blobs(v)),
            AttributeValue::L(v) => AttributeValue::L(copy_list(v)),
            AttributeValue::M(v) => AttributeValue::M(copy_item(v)),
        }
    }
}

/// A copy of bytes.
pub fn copy_blob(b: &Vec<u8>) -> (r: Vec<u8>)
    ensures
        r@ == b@,
{
    vstd::slice::slice_to_vec(b.as_slice())
}

/// A copy of byte strings.
fn copy_blobs(v: &Vec<Vec<u8>>) -> (r: Vec<Vec<u8>>)
    ensures
        blobs(r@) == blobs(v@),
{
    let mut r: Vec<Vec<u8>> = Vec::new();
    let mut i: usize = 0;
    while i < v.len()
        invariant
            i <= v@.len(),
            r@.len() == i,
            forall|j: int| 0 <= j < i ==> (#[trigger] r@[j])@ == v@[j]@,
        decreases v@.len() - i,
    {
        r.push(copy_blob(&v[i]));
        i = i + 1;
    }
    assert(blobs(r@) =~= blobs(v@));
    r
}

/// A copy of a list.
fn copy_list(v: &Vec<AttributeValue>) -> (r: Vec<AttributeValue>)
    ensures
        attr_list(r@) == attr_list(v@),
    decreases v, 0int,
{
    let mut r: Vec<AttributeValue> = Vec::new();
    let mut i: usize = 0;
    while i < v.len()
        invariant
            i <= v@.len(),
            r@.len() == i,
            forall|j: int| 0 <= j < i ==> (#[trigger] r@[j])@ == v@[j]@,
        decreases v@.len() - i,
    {
        r.push(v[i].copy());
        i = i + 1;
    }
    assert(attr_list(r@) =~= attr_list(v@));
    r
}

/// A copy of an item.
pub fn copy_item(v: &Vec<(String, AttributeValue)>) -> (r: Vec<(String, AttributeValue)>)
    ensures
        attrs(r@) == attrs(v@),
    decreases v, 0int,
{
    let mut r: Vec<(String, AttributeValue)> = Vec::new();
    let mut i: usize = 0;
    while i < v.len()
        invariant
            i <= v@.len(),
            r@.len() == i,
            forall|j: int| 0 <= j < i ==> (#[trigger] r@[j]).0@ == v@[j].0@ && r@[j].1@ == v@[j].1@,
        decreases v@.len() - i,
    {
        assert(decreases_to!(v@ => v@[i as int]));
        let value: AttributeValue = v[i].1.copy();
        r.push((v[i].0.clone(), value));
        i = i + 1;
    }
    assert(attrs(r@) =~= attrs(v@));
    r
}

} // verus!
