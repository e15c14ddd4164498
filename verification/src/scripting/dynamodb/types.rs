//! The values of scripts, and how they become attribute values and come back.
//!
//! [`Script`] is the mathematical value that a [`ScriptValue`] stands for.

use super::error::{DynamoError, DynamoErrorKind};
use crate::ipc::attribute::{attr_list, attrs, blobs, copy_blob, Attr, AttributeValue, Attrs, Item};
use crate::number::{
    is_float, law_signed_number_round_trip, parse_i64, signed_decimal, signed_decimal_text,
    signed_of, spells_float,
};
use crate::text::{both, texts};
use vstd::prelude::*;
use vstd::slice::slice_to_vec;
use vstd::string::*;

verus! {

/// A value of a script.
#[derive(Debug)]
pub enum ScriptValue {
    Bool(bool),
    Integer(i64),
    /// A floating-point number, by its text.
    Float(String),
    Text(String),
    Bytes(Vec<u8>),
    List(Vec<ScriptValue>),
    /// Names and values; no name occurs twice.
    Object(Vec<(String, ScriptValue)>),
    /// An option without a value.
    Nothing,
    /// An option with a value.
    Something(Box<ScriptValue>),
    /// An attribute value that a script has made.
    Attribute(AttributeValue),
    /// Any other value.
    Other,
}

/// The mathematical value of a [`ScriptValue`].
pub enum Script {
    Bool(bool),
    Integer(i64),
    Float(Seq<char>),
    Text(Seq<char>),
    Bytes(Seq<u8>),
    List(Seq<Script>),
    Object(Seq<(Seq<char>, Script)>),
    Nothing,
    Something(Box<Script>),
    Attribute(Attr),
    Other,
}

/// The values of a list.
pub open spec fn scripts(s: Seq<ScriptValue>) -> Seq<Script>
    decreases s,
{
    Seq::new(
        s.len(),
        |i: int|
            if 0 <= i < s.len() {
                script(s[i])
            } else {
                Script::Other
            },
    )
}

/// The names and values of an object.
pub open spec fn fields(s: Seq<(String, ScriptValue)>) -> Seq<(Seq<char>, Script)>
    decreases s,
{
    Seq::new(
        s.len(),
        |i: int|
            if 0 <= i < s.len() {
                (s[i].0@, script(s[i].1))
            } else {
                (Seq::empty(), Script::Other)
            },
    )
}

/// The value of a value of a script.
pub open spec fn script(v: ScriptValue) -> Script
    decreases v,
{
    match v {
        ScriptValue::Bool(b) => Script::Bool(b),
        ScriptValue::Integer(n) => Script::Integer(n),
        ScriptValue::Float(t) => Script::Float(t@),
        ScriptValue::Text(t) => Script::Text(t@),
        ScriptValue::Bytes(b) => Script::Bytes(b@),
        ScriptValue::List(l) => Script::List(scripts(l@)),
        ScriptValue::Object(o) => Script::Object(fields(o@)),
        ScriptValue::Nothing => Script::Nothing,
        ScriptValue::Something(x) => Script::Something(Box::new(script(*x))),
        ScriptValue::Attribute(a) => Script::Attribute(a@),
        ScriptValue::Other => Script::Other,
    }
}

impl View for ScriptValue {
    type V = Script;

    open spec fn view(&self) -> Script {
        script(*self)
    }
}

/// An attribute value that scripts can hold.
#[derive(Debug)]
pub struct DynamoValue {
    inner: AttributeValue,
}

impl View for DynamoValue {
    type V = Attr;

    closed spec fn view(&self) -> Attr {
        self.inner@
    }
}

impl DynamoValue {
    /// Wraps an attribute value.
    pub fn new(inner: AttributeValue) -> (v: DynamoValue)
        ensures
            v@ == inner@,
    {
        DynamoValue { inner }
    }

    /// The attribute value.
    pub fn into_inner(self) -> (v: AttributeValue)
        ensures
            v@ == self@,
    {
        self.inner
    }

    /// The attribute value.
    pub fn as_inner(&self) -> (v: &AttributeValue)
        ensures
            v@ == self@,
    {
        &self.inner
    }
}

/// The attribute value that a value of a script becomes, if it can become one.
pub open spec fn attribute_of(v: Script) -> Option<Attr>
    decreases v,
{
    match v {
        Script::Bool(b) => Some(Attr::Bool(b)),
        Script::Integer(n) => Some(Attr::N(signed_decimal(n as int))),
        Script::Float(t) => Some(Attr::N(t)),
        Script::Text(t) => Some(Attr::S(t)),
        Script::Bytes(b) => Some(Attr::B(b)),
        Script::List(s) => match attributes_of(s) {
            Some(l) => Some(Attr::L(l)),
            None => None,
        },
        Script::Object(s) => match item_of(s) {
            Some(m) => Some(Attr::M(m)),
            None => None,
        },
        Script::Nothing => Some(Attr::Null(true)),
        Script::Something(x) => attribute_of(*x),
        Script::Attribute(a) => Some(a),
        Script::Other => None,
    }
}

/// The attribute values that the values of a list become, if they all can.
pub open spec fn attributes_of(s: Seq<Script>) -> Option<Seq<Attr>>
    decreases s,
{
    if s.len() == 0 {
        Some(Seq::empty())
    } else {
        match attribute_of(s[0]) {
            None => None,
            Some(a) => match attributes_of(s.skip(1)) {
                None => None,
                Some(rest) => Some(seq![a] + rest),
            },
        }
    }
}

/// The item that an object becomes, if its values all become attribute values.
pub open spec fn item_of(s: Seq<(Seq<char>, Script)>) -> Option<Attrs>
    decreases s,
{
    if s.len() == 0 {
        Some(Seq::empty())
    } else {
        match attribute_of(s[0].1) {
            None => None,
            Some(a) => match item_of(s.skip(1)) {
                None => None,
                Some(rest) => Some(seq![(s[0].0, a)] + rest),
            },
        }
    }
}

/// What is said of a value that becomes no attribute value.
pub open spec fn no_attribute(e: DynamoError) -> bool {
    e.is(
        DynamoErrorKind::InvalidParameter,
        "Unsupported type for conversion to AttributeValue"@,
    )
}

/// The error for a value that becomes no attribute value.
fn unsupported() -> (e: DynamoError)
    ensures
        no_attribute(e),
{
    DynamoError::invalid_parameter(
        "Unsupported type for conversion to AttributeValue".to_owned(),
    )
}

/// Converts a value of a script to an attribute value.
pub fn rune_to_attribute_value(value: &ScriptValue) -> (r: Result<AttributeValue, DynamoError>)
    ensures
        match attribute_of(value@) {
            Some(a) => r is Ok && r->Ok_0@ == a,
            None => r is Err && no_attribute(r->Err_0),
        },
    decreases value, 1int,
{
    match value {
        ScriptValue::Bool(b) => Ok(AttributeValue::Bool(*b)),
        ScriptValue::Integer(n) => Ok(AttributeValue::N(signed_decimal_text(*n))),
        ScriptValue::Float(t) => Ok(AttributeValue::N(t.clone())),
        ScriptValue::Text(t) => Ok(AttributeValue::S(t.clone())),
        ScriptValue::Bytes(b) => Ok(AttributeValue::B(copy_blob(b))),
        ScriptValue::List(v) => match list_to_attributes(v) {
            Ok(l) => Ok(AttributeValue::L(l)),
            Err(e) => Err(e),
        },
        ScriptValue::Object(v) => match rune_object_to_item(v) {
            Ok(m) => Ok(AttributeValue::M(m)),
            Err(e) => Err(e),
        },
        ScriptValue::Nothing => Ok(AttributeValue::Null(true)),
        ScriptValue::Something(v) => rune_to_attribute_value(v),
        ScriptValue::Attribute(a) => Ok(a.copy()),
        ScriptValue::Other => Err(unsupported()),
    }
}

/// Converts the values of a list.
pub fn list_to_attributes(v: &Vec<ScriptValue>) -> (r: Result<Vec<AttributeValue>, DynamoError>)
    ensures
        match attributes_of(scripts(v@)) {
            Some(l) => r is Ok && attr_list(r->Ok_0@) == l,
            None => r is Err && no_attribute(r->Err_0),
        },
    decreases v, 0int,
{
    let ghost s = scripts(v@);
    let ghost whole = attributes_of(s);
    let mut list: Vec<AttributeValue> = Vec::new();
    let mut i: usize = 0;
    assert(s.skip(0) =~= s);
    assert(attr_list(list@) =~= Seq::empty());
    proof {
        if let Some(l) = whole {
            assert(Seq::empty() + l =~= l);
        }
    }
    while i < v.len()
        invariant
            i <= v@.len(),
            s == scripts(v@),
            whole == attributes_of(s),
            whole == (match attributes_of(s.skip(i as int)) {
                Some(rest) => Some(attr_list(list@) + rest),
                None => None,
            }),
        decreases v@.len() - i,
    {
        let ghost before = list@;
        assert(s.skip(i as int)[0] == v@[i as int]@);
        assert(s.skip(i as int).skip(1) =~= s.skip(i + 1));
        match rune_to_attribute_value(&v[i]) {
            Err(e) => {
                return Err(e);
            },
            Ok(a) => {
                list.push(a);
                proof {
                    assert(attr_list(list@) =~= attr_list(before).push(a@));
                    if let Some(rest) = attributes_of(s.skip(i + 1)) {
                        assert(attr_list(before) + (seq![a@] + rest) =~= attr_list(list@) + rest);
                    }
                }
            },
        }
        i = i + 1;
    }
    assert(s.skip(i as int) =~= Seq::empty());
    assert(attr_list(list@) + Seq::empty() =~= attr_list(list@));
    Ok(list)
}

/// Converts an object to an item.
pub fn rune_object_to_item(v: &Vec<(String, ScriptValue)>) -> (r: Result<Item, DynamoError>)
    ensures
        match item_of(fields(v@)) {
            Some(m) => r is Ok && attrs(r->Ok_0@) == m,
            None => r is Err && no_attribute(r->Err_0),
        },
    decreases v, 0int,
{
    let ghost s = fields(v@);
    let ghost whole = item_of(s);
    let mut item: Item = Vec::new();
    let mut i: usize = 0;
    assert(s.skip(0) =~= s);
    assert(attrs(item@) =~= Seq::empty());
    proof {
        if let Some(m) = whole {
            assert(Seq::empty() + m =~= m);
        }
    }
    while i < v.len()
        invariant
            i <= v@.len(),
            s == fields(v@),
            whole == item_of(s),
            whole == (match item_of(s.skip(i as int)) {
                Some(rest) => Some(attrs(item@) + rest),
                None => None,
            }),
        decreases v@.len() - i,
    {
        let ghost before = item@;
        assert(s.skip(i as int)[0] == (v@[i as int].0@, v@[i as int].1@));
        assert(s.skip(i as int).skip(1) =~= s.skip(i + 1));
        assert(decreases_to!(v@ => v@[i as int]));
        match rune_to_attribute_value(&v[i].1) {
            Err(e) => {
                return Err(e);
            },
            Ok(a) => {
                item.push((v[i].0.clone(), a));
                proof {
                    let pair = (v@[i as int].0@, a@);
                    assert(attrs(item@) =~= attrs(before).push(pair));
                    if let Some(rest) = item_of(s.skip(i + 1)) {
                        assert(attrs(before) + (seq![pair] + rest) =~= attrs(item@) + rest);
                    }
                }
            },
        }
        i = i + 1;
    }
    assert(s.skip(i as int) =~= Seq::empty());
    assert(attrs(item@) + Seq::empty() =~= attrs(item@));
    Ok(item)
}

/// The number that a text spells for a script: an integer where 64 bits hold it, else a float.
pub open spec fn number_of(t: Seq<char>) -> Option<Script> {
    match signed_of(t) {
        Some(n) => Some(Script::Integer(n as i64)),
        None => if is_float(t) {
            Some(Script::Float(t))
        } else {
            None
        },
    }
}

/// The value that an attribute value becomes, or what is said of a number that cannot be read.
pub open spec fn script_of(a: Attr) -> Result<Script, Seq<char>>
    decreases a,
{
    match a {
        Attr::S(t) => Ok(Script::Text(t)),
        Attr::N(t) => match number_of(t) {
            Some(n) => Ok(n),
            None => Err("Failed to parse number: "@ + t),
        },
        Attr::B(b) => Ok(Script::Bytes(b)),
        Attr::Bool(b) => Ok(Script::Bool(b)),
        Attr::Null(_) => Ok(Script::Nothing),
        Attr::L(s) => match scripts_of(s) {
            Ok(l) => Ok(Script::List(l)),
            Err(t) => Err(t),
        },
        Attr::M(s) => match object_of(s) {
            Ok(m) => Ok(Script::Object(m)),
            Err(t) => Err(t),
        },
        Attr::Ss(s) => Ok(Script::List(s.map_values(|t: Seq<char>| Script::Text(t)))),
        Attr::Ns(s) => match numbers_of(s) {
            Ok(l) => Ok(Script::List(l)),
            Err(t) => Err(t),
        },
        Attr::Bs(s) => Ok(Script::List(s.map_values(|b: Seq<u8>| Script::Bytes(b)))),
    }
}

/// The values that attribute values become.
pub open spec fn scripts_of(s: Seq<Attr>) -> Result<Seq<Script>, Seq<char>>
    decreases s,
{
    if s.len() == 0 {
        Ok(Seq::empty())
    } else {
        match script_of(s[0]) {
            Err(t) => Err(t),
            Ok(v) => match scripts_of(s.skip(1)) {
                Err(t) => Err(t),
                Ok(rest) => Ok(seq![v] + rest),
            },
        }
    }
}

/// The object that an item becomes.
pub open spec fn object_of(s: Attrs) -> Result<Seq<(Seq<char>, Script)>, Seq<char>>
    decreases s,
{
    if s.len() == 0 {
        Ok(Seq::empty())
    } else {
        match script_of(s[0].1) {
            Err(t) => Err(t),
            Ok(v) => match object_of(s.skip(1)) {
                Err(t) => Err(t),
                Ok(rest) => Ok(seq![(s[0].0, v)] + rest),
            },
        }
    }
}

/// The numbers that the texts of a set spell.
pub open spec fn numbers_of(s: Seq<Seq<char>>) -> Result<Seq<Script>, Seq<char>>
    decreases s.len(),
{
    if s.len() == 0 {
        Ok(Seq::empty())
    } else {
        match number_of(s[0]) {
            None => Err("Failed to parse number in set: "@ + s[0]),
            Some(v) => match numbers_of(s.skip(1)) {
                Err(t) => Err(t),
                Ok(rest) => Ok(seq![v] + rest),
            },
        }
    }
}

/// An error says that a number cannot be read.
pub open spec fn says(e: DynamoError, text: Seq<char>) -> bool {
    e.is(DynamoErrorKind::InvalidParameter, text)
}

/// The number that a text spells for a script.
fn read_number(text: &String) -> (r: Option<ScriptValue>)
    ensures
        match number_of(text@) {
            Some(n) => r is Some && r->0@ == n,
            None => r is None,
        },
{
    match parse_i64(text.as_str()) {
        Some(n) => Some(ScriptValue::Integer(n)),
        None => if spells_float(text.as_str()) {
            Some(ScriptValue::Float(text.clone()))
        } else {
            None
        },
    }
}

/// Converts an attribute value to a value of a script.
pub fn attribute_value_to_rune(attr: &AttributeValue) -> (r: Result<ScriptValue, DynamoError>)
    ensures
        match script_of(attr@) {
            Ok(v) => r is Ok && r->Ok_0@ == v,
            Err(t) => r is Err && says(r->Err_0, t),
        },
    decreases attr, 1int,
{
    match attr {
        AttributeValue::S(t) => Ok(ScriptValue::Text(t.clone())),
        AttributeValue::N(t) => match read_number(t) {
            Some(v) => Ok(v),
            None => Err(
                DynamoError::invalid_parameter(both("Failed to parse number: ", t.as_str())),
            ),
        },
        AttributeValue::B(b) => Ok(ScriptValue::Bytes(copy_blob(b))),
        AttributeValue::Bool(b) => Ok(ScriptValue::Bool(*b)),
        AttributeValue::Null(_) => Ok(ScriptValue::Nothing),
        AttributeValue::L(v) => match attributes_to_list(v) {
            Ok(l) => Ok(ScriptValue::List(l)),
            Err(e) => Err(e),
        },
        AttributeValue::M(v) => match item_to_rune_object(v) {
            Ok(m) => Ok(ScriptValue::Object(m)),
            Err(e) => Err(e),
        },
        AttributeValue::Ss(v) => {
            let list: Vec<ScriptValue> = texts_to_list(v);
            Ok(ScriptValue::List(list))
        },
        AttributeValue::Ns(v) => match numbers_to_list(v) {
            Ok(l) => Ok(ScriptValue::List(l)),
            Err(e) => Err(e),
        },
        AttributeValue::Bs(v) => {
            let list: Vec<ScriptValue> = blobs_to_list(v);
            Ok(ScriptValue::List(list))
        },
    }
}

/// Converts the texts of a set.
fn texts_to_list(v: &Vec<String>) -> (list: Vec<ScriptValue>)
    ensures
        scripts(list@) == texts(v@).map_values(|t: Seq<char>| Script::Text(t)),
{
    let mut list: Vec<ScriptValue> = Vec::new();
    let mut i: usize = 0;
    while i < v.len()
        invariant
            i <= v@.len(),
            list@.len() == i,
            forall|j: int| 0 <= j < i ==> (#[trigger] list@[j])@ == Script::Text(v@[j]@),
        decreases v@.len() - i,
    {
        list.push(ScriptValue::Text(v[i].clone()));
        i = i + 1;
    }
    assert(scripts(list@) =~= texts(v@).map_values(|t: Seq<char>| Script::Text(t)));
    list
}

/// Converts the byte strings of a set.
fn blobs_to_list(v: &Vec<Vec<u8>>) -> (list: Vec<ScriptValue>)
    ensures
        scripts(list@) == blobs(v@).map_values(|b: Seq<u8>| Script::Bytes(b)),
{
    let mut list: Vec<ScriptValue> = Vec::new();
    let mut i: usize = 0;
    while i < v.len()
        invariant
            i <= v@.len(),
            list@.len() == i,
            forall|j: int| 0 <= j < i ==> (#[trigger] list@[j])@ == Script::Bytes(v@[j]@),
        decreases v@.len() - i,
    {
        list.push(ScriptValue::Bytes(copy_blob(&v[i])));
        i = i + 1;
    }
    assert(scripts(list@) =~= blobs(v@).map_values(|b: Seq<u8>| Script::Bytes(b)));
    list
}

/// Converts the numbers of a set.
fn numbers_to_list(v: &Vec<String>) -> (r: Result<Vec<ScriptValue>, DynamoError>)
    ensures
        match numbers_of(texts(v@)) {
            Ok(l) => r is Ok && scripts(r->Ok_0@) == l,
            Err(t) => r is Err && says(r->Err_0, t),
        },
{
    let ghost s = texts(v@);
    let ghost whole = numbers_of(s);
    let mut list: Vec<ScriptValue> = Vec::new();
    let mut i: usize = 0;
    assert(s.skip(0) =~= s);
    assert(scripts(list@) =~= Seq::empty());
    proof {
        if let Ok(l) = whole {
            assert(Seq::empty() + l =~= l);
        }
    }
    while i < v.len()
        invariant
            i <= v@.len(),
            s == texts(v@),
            whole == numbers_of(s),
            whole == (match numbers_of(s.skip(i as int)) {
                Ok(rest) => Ok::<Seq<Script>, Seq<char>>(scripts(list@) + rest),
                Err(t) => Err(t),
            }),
        decreases v@.len() - i,
    {
        let ghost before = list@;
        assert(s.skip(i as int)[0] == v@[i as int]@);
        assert(s.skip(i as int).skip(1) =~= s.skip(i + 1));
        match read_number(&v[i]) {
            None => {
                return Err(
                    DynamoError::invalid_parameter(
                        both("Failed to parse number in set: ", v[i].as_str()),
                    ),
                );
            },
            Some(n) => {
                list.push(n);
                proof {
                    assert(scripts(list@) =~= scripts(before).push(n@));
                    if let Ok(rest) = numbers_of(s.skip(i + 1)) {
                        assert(scripts(before) + (seq![n@] + rest) =~= scripts(list@) + rest);
                    }
                }
            },
        }
        i = i + 1;
    }
    assert(s.skip(i as int) =~= Seq::empty());
    assert(scripts(list@) + Seq::empty() =~= scripts(list@));
    Ok(list)
}

/// Converts attribute values to a list.
fn attributes_to_list(v: &Vec<AttributeValue>) -> (r: Result<Vec<ScriptValue>, DynamoError>)
    ensures
        match scripts_of(attr_list(v@)) {
            Ok(l) => r is Ok && scripts(r->Ok_0@) == l,
            Err(t) => r is Err && says(r->Err_0, t),
        },
    decreases v, 0int,
{
    let ghost s = attr_list(v@);
    let ghost whole = scripts_of(s);
    let mut list: Vec<ScriptValue> = Vec::new();
    let mut i: usize = 0;
    assert(s.skip(0) =~= s);
    assert(scripts(list@) =~= Seq::empty());
    proof {
        if let Ok(l) = whole {
            assert(Seq::empty() + l =~= l);
        }
    }
    while i < v.len()
        invariant
            i <= v@.len(),
            s == attr_list(v@),
            whole == scripts_of(s),
            whole == (match scripts_of(s.skip(i as int)) {
                Ok(rest) => Ok::<Seq<Script>, Seq<char>>(scripts(list@) + rest),
                Err(t) => Err(t),
            }),
        decreases v@.len() - i,
    {
        let ghost before = list@;
        assert(s.skip(i as int)[0] == v@[i as int]@);
        assert(s.skip(i as int).skip(1) =~= s.skip(i + 1));
        match attribute_value_to_rune(&v[i]) {
            Err(e) => {
                return Err(e);
            },
            Ok(n) => {
                list.push(n);
                proof {
                    assert(scripts(list@) =~= scripts(before).push(n@));
                    if let Ok(rest) = scripts_of(s.skip(i + 1)) {
                        assert(scripts(before) + (seq![n@] + rest) =~= scripts(list@) + rest);
                    }
                }
            },
        }
        i = i + 1;
    }
    assert(s.skip(i as int) =~= Seq::empty());
    assert(scripts(list@) + Seq::empty() =~= scripts(list@));
    Ok(list)
}

/// Converts an item to an object.
pub fn item_to_rune_object(v: &Vec<(String, AttributeValue)>) -> (r: Result<
    Vec<(String, ScriptValue)>,
    DynamoError,
>)
    ensures
        match object_of(attrs(v@)) {
            Ok(m) => r is Ok && fields(r->Ok_0@) == m,
            Err(t) => r is Err && says(r->Err_0, t),
        },
    decreases v, 0int,
{
    let ghost s = attrs(v@);
    let ghost whole = object_of(s);
    let mut object: Vec<(String, ScriptValue)> = Vec::new();
    let mut i: usize = 0;
    assert(s.skip(0) =~= s);
    assert(fields(object@) =~= Seq::empty());
    proof {
        if let Ok(m) = whole {
            assert(Seq::empty() + m =~= m);
        }
    }
    while i < v.len()
        invariant
            i <= v@.len(),
            s == attrs(v@),
            whole == object_of(s),
            whole == (match object_of(s.skip(i as int)) {
                Ok(rest) => Ok::<Seq<(Seq<char>, Script)>, Seq<char>>(fields(object@) + rest),
                Err(t) => Err(t),
            }),
        decreases v@.len() - i,
    {
        let ghost before = object@;
        assert(s.skip(i as int)[0] == (v@[i as int].0@, v@[i as int].1@));
        assert(s.skip(i as int).skip(1) =~= s.skip(i + 1));
        assert(decreases_to!(v@ => v@[i as int]));
        match attribute_value_to_rune(&v[i].1) {
            Err(e) => {
                return Err(e);
            },
            Ok(n) => {
                object.push((v[i].0.clone(), n));
                proof {
                    let pair = (v@[i as int].0@, n@);
                    assert(fields(object@) =~= fields(before).push(pair));
                    if let Ok(rest) = object_of(s.skip(i + 1)) {
                        assert(fields(before) + (seq![pair] + rest) =~= fields(object@) + rest);
                    }
                }
            },
        }
        i = i + 1;
    }
    assert(s.skip(i as int) =~= Seq::empty());
    assert(fields(object@) + Seq::empty() =~= fields(object@));
    Ok(object)
}

/// An attribute value that scripts hold as it is: no set, no false null, and
/// no number but an integer in plain digits.
pub open spec fn keeps_form(a: Attr) -> bool
    decreases a,
{
    match a {
        Attr::S(_) => true,
        Attr::B(_) => true,
        Attr::Bool(_) => true,
        Attr::Null(b) => b,
        Attr::N(t) => exists|n: i64| t == #[trigger] signed_decimal(n as int),
        Attr::L(s) => forall|i: int| 0 <= i < s.len() ==> keeps_form(#[trigger] s[i]),
        Attr::M(s) => forall|i: int| 0 <= i < s.len() ==> keeps_form((#[trigger] s[i]).1),
        Attr::Ss(_) => false,
        Attr::Ns(_) => false,
        Attr::Bs(_) => false,
    }
}

/// The values of a list come back.
proof fn lemma_list_back(s: Seq<Attr>)
    requires
        forall|i: int| 0 <= i < s.len() ==> keeps_form(#[trigger] s[i]),
    ensures
        scripts_of(s) is Ok,
        attributes_of(scripts_of(s)->Ok_0) == Some(s),
    decreases s, 0int,
{
    if s.len() > 0 {
        let more = s.skip(1);
        assert forall|i: int| 0 <= i < more.len() implies keeps_form(#[trigger] more[i]) by {
            assert(more[i] == s[i + 1]);
        }
        law_script_round_trip(s[0]);
        lemma_list_back(more);
        let v = script_of(s[0])->Ok_0;
        let rest = scripts_of(more)->Ok_0;
        let all = seq![v] + rest;
        assert(all.skip(1) =~= rest);
        assert(all[0] == v);
        assert(seq![s[0]] + more =~= s);
    } else {
        assert(s =~= Seq::empty());
    }
}

/// The attributes of a map come back.
proof fn lemma_map_back(s: Attrs)
    requires
        forall|i: int| 0 <= i < s.len() ==> keeps_form((#[trigger] s[i]).1),
    ensures
        object_of(s) is Ok,
        item_of(object_of(s)->Ok_0) == Some(s),
    decreases s, 0int,
{
    if s.len() > 0 {
        let more = s.skip(1);
        assert forall|i: int| 0 <= i < more.len() implies keeps_form((#[trigger] more[i]).1) by {
            assert(more[i] == s[i + 1]);
        }
        assert(decreases_to!(s => s[0]));
        law_script_round_trip(s[0].1);
        lemma_map_back(more);
        let v = (s[0].0, script_of(s[0].1)->Ok_0);
        let rest = object_of(more)->Ok_0;
        let all = seq![v] + rest;
        assert(all.skip(1) =~= rest);
        assert(all[0] == v);
        assert(seq![s[0]] + more =~= s);
    } else {
        assert(s =~= Seq::empty());
    }
}

/// An attribute value that a script gets and hands back is the same one,
/// where scripts hold it as it is.
pub proof fn law_script_round_trip(a: Attr)
    requires
        keeps_form(a),
    ensures
        script_of(a) is Ok,
        attribute_of(script_of(a)->Ok_0) == Some(a),
    decreases a, 0int,
{
    match a {
        Attr::N(t) => {
            let n = choose|n: i64| t == #[trigger] signed_decimal(n as int);
            law_signed_number_round_trip(n);
        },
        Attr::L(s) => {
            lemma_list_back(s);
        },
        Attr::M(s) => {
            lemma_map_back(s);
        },
        _ => {},
    }
}

/// A string.
pub fn make_s(s: &str) -> (v: DynamoValue)
    ensures
        v@ == Attr::S(s@),
{
    DynamoValue::new(AttributeValue::S(s.to_owned()))
}

/// A number.
pub fn make_n_i64(n: i64) -> (v: DynamoValue)
    ensures
        v@ == Attr::N(signed_decimal(n as int)),
{
    DynamoValue::new(AttributeValue::N(signed_decimal_text(n)))
}

/// A floating-point number, by its text.
pub fn make_n_f64(text: String) -> (v: DynamoValue)
    ensures
        v@ == Attr::N(text@),
{
    DynamoValue::new(AttributeValue::N(text))
}

/// Bytes.
pub fn make_b(bytes: &[u8]) -> (v: DynamoValue)
    ensures
        v@ == Attr::B(bytes@),
{
    DynamoValue::new(AttributeValue::B(slice_to_vec(bytes)))
}

/// A truth value.
pub fn make_bool(b: bool) -> (v: DynamoValue)
    ensures
        v@ == Attr::Bool(b),
{
    DynamoValue::new(AttributeValue::Bool(b))
}

/// A null.
pub fn make_null() -> (v: DynamoValue)
    ensures
        v@ == Attr::Null(true),
{
    DynamoValue::new(AttributeValue::Null(true))
}

/// A set of strings.
pub fn make_ss(strings: Vec<String>) -> (v: DynamoValue)
    ensures
        v@ == Attr::Ss(texts(strings@)),
{
    DynamoValue::new(AttributeValue::Ss(strings))
}

/// A set of numbers.
pub fn make_ns(numbers: Vec<String>) -> (v: DynamoValue)
    ensures
        v@ == Attr::Ns(texts(numbers@)),
{
    DynamoValue::new(AttributeValue::Ns(numbers))
}

/// A set of byte strings.
pub fn make_bs(byte_strings: Vec<Vec<u8>>) -> (v: DynamoValue)
    ensures
        v@ == Attr::Bs(blobs(byte_strings@)),
{
    DynamoValue::new(AttributeValue::Bs(byte_strings))
}

/// A list.
pub fn make_list(items: Vec<AttributeValue>) -> (v: DynamoValue)
    ensures
        v@ == Attr::L(attr_list(items@)),
{
    DynamoValue::new(AttributeValue::L(items))
}

/// A map.
pub fn make_map(items: Item) -> (v: DynamoValue)
    ensures
        v@ == Attr::M(attrs(items@)),
{
    DynamoValue::new(AttributeValue::M(items))
}

} // verus!
