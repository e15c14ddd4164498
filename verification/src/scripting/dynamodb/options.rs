//! How scripts hand items, options and batches to an operation, and how they
//! get its results.

use super::batch::ByTable;
use super::client::{
    field_of, get_field, get_opt_bool, get_opt_i64, get_opt_string, integer_field, string_field,
    bool_field,
};
use super::error::{DynamoError, DynamoErrorKind};
use super::types::{
    attribute_of, attribute_value_to_rune, fields, item_of, rune_to_attribute_value, says,
    script_of, scripts, Script, ScriptValue,
};
use crate::exec::workload::seed_of;
use crate::ipc::alternator_client::{BatchGetRequestItems, BatchWriteRequest};
use crate::ipc::attribute::{attrs, items_of, Attr, AttributeValue, Attrs, Item};
use crate::string_map::StringMap;
use crate::text::{both, joined, opt_text};
use vstd::prelude::*;
use vstd::string::*;

verus! {

/// The names and values of an object of a script.
pub type Object = Vec<(String, ScriptValue)>;

/// The names and values of an object of a script.
pub type Fields = Seq<(Seq<char>, Script)>;

/// The text of an invalid parameter with a message.
pub open spec fn invalid_text(message: Seq<char>) -> Seq<char> {
    "DynamoError("@ + DynamoErrorKind::InvalidParameter.label() + (": "@ + message + ")"@)
}

/// What is said of a value that becomes no attribute value.
pub open spec fn unsupported_text() -> Seq<char> {
    invalid_text("Unsupported type for conversion to AttributeValue"@)
}

/// What is said of a field that becomes no attribute.
pub open spec fn bad_field_text(name: Seq<char>) -> Seq<char> {
    "Failed to convert '"@ + name + ("': "@ + unsupported_text())
}

/// The item that an object becomes, or what is said of the first field that becomes no attribute.
pub open spec fn to_item(s: Fields, done: Attrs) -> Result<Attrs, Seq<char>>
    decreases s.len(),
{
    if s.len() == 0 {
        Ok(done)
    } else {
        match attribute_of(s[0].1) {
            None => Err(bad_field_text(s[0].0)),
            Some(a) => to_item(s.skip(1), done.push((s[0].0, a))),
        }
    }
}

/// Converts an object to an item. The error names the field that cannot be converted.
pub fn object_to_item(object: &Object) -> (r: Result<Item, DynamoError>)
    ensures
        match to_item(fields(object@), Seq::empty()) {
            Ok(m) => r is Ok && attrs(r->Ok_0@) == m,
            Err(t) => r is Err && says(r->Err_0, t),
        },
{
    let ghost s = fields(object@);
    let mut item: Item = Vec::new();
    let mut i: usize = 0;
    assert(s.skip(0) =~= s);
    assert(attrs(item@) =~= Seq::empty());
    while i < object.len()
        invariant
            i <= object@.len(),
            s == fields(object@),
            to_item(s, Seq::empty()) == to_item(s.skip(i as int), attrs(item@)),
        decreases object@.len() - i,
    {
        let ghost before = item@;
        assert(s.skip(i as int)[0] == (object@[i as int].0@, object@[i as int].1@));
        assert(s.skip(i as int).skip(1) =~= s.skip(i + 1));
        match rune_to_attribute_value(&object[i].1) {
            Err(e) => {
                let reason: String = e.to_string();
                let tail: String = both("': ", reason.as_str());
                return Err(
                    DynamoError::invalid_parameter(
                        joined("Failed to convert '", object[i].0.as_str(), tail.as_str()),
                    ),
                );
            },
            Ok(a) => {
                item.push((object[i].0.clone(), a));
                assert(attrs(item@) =~= attrs(before).push((object@[i as int].0@, a@)));
            },
        }
        i = i + 1;
    }
    assert(s.skip(i as int) =~= Seq::empty());
    Ok(item)
}

/// An object becomes the same item whether an error would name its field or not.
pub proof fn law_items_agree(s: Fields, done: Attrs)
    ensures
        match item_of(s) {
            Some(m) => to_item(s, done) == Ok::<Attrs, Seq<char>>(done + m),
            None => to_item(s, done) is Err,
        },
    decreases s.len(),
{
    if s.len() == 0 {
        assert(done + Seq::<(Seq<char>, Attr)>::empty() =~= done);
    } else {
        if let Some(a) = attribute_of(s[0].1) {
            law_items_agree(s.skip(1), done.push((s[0].0, a)));
            if let Some(rest) = item_of(s.skip(1)) {
                assert(done.push((s[0].0, a)) + rest =~= done + (seq![(s[0].0, a)] + rest));
            }
        }
    }
}

/// What is said of a field that holds no text.
pub open spec fn no_text(name: Seq<char>) -> Seq<char> {
    "Expected string value for key '"@ + name + "'"@
}

/// The texts of an object by their names, or what is said of the first field that holds none.
pub open spec fn to_names(s: Fields, done: Map<Seq<char>, Seq<char>>) -> Result<
    Map<Seq<char>, Seq<char>>,
    Seq<char>,
>
    decreases s.len(),
{
    if s.len() == 0 {
        Ok(done)
    } else {
        match s[0].1 {
            Script::Text(t) => to_names(s.skip(1), done.insert(s[0].0, t)),
            _ => Err(no_text(s[0].0)),
        }
    }
}

/// Converts an object to a map of texts.
pub fn object_to_string_map(object: &Object) -> (r: Result<StringMap, DynamoError>)
    ensures
        match to_names(fields(object@), Map::empty()) {
            Ok(m) => r is Ok && r->Ok_0@ == m,
            Err(t) => r is Err && says(r->Err_0, t),
        },
{
    let ghost s = fields(object@);
    let mut map: StringMap = StringMap::new();
    let mut i: usize = 0;
    assert(s.skip(0) =~= s);
    while i < object.len()
        invariant
            i <= object@.len(),
            s == fields(object@),
            to_names(s, Map::empty()) == to_names(s.skip(i as int), map@),
        decreases object@.len() - i,
    {
        assert(s.skip(i as int)[0] == (object@[i as int].0@, object@[i as int].1@));
        assert(s.skip(i as int).skip(1) =~= s.skip(i + 1));
        match &object[i].1 {
            ScriptValue::Text(t) => {
                map.insert(object[i].0.clone(), t.clone());
            },
            _ => {
                return Err(
                    DynamoError::invalid_parameter(
                        joined("Expected string value for key '", object[i].0.as_str(), "'"),
                    ),
                );
            },
        }
        i = i + 1;
    }
    assert(s.skip(i as int) =~= Seq::empty());
    Ok(map)
}

/// The options of an operation.
#[derive(Debug)]
pub struct Options {
    pub condition_expression: Option<String>,
    pub update_expression: Option<String>,
    pub index_name: Option<String>,
    pub filter_expression: Option<String>,
    pub projection_expression: Option<String>,
    pub names: Option<StringMap>,
    pub values: Option<Item>,
    pub limit: Option<i64>,
    pub segment: Option<i64>,
    pub total_segments: Option<i64>,
    pub scan_index_forward: Option<bool>,
    pub consistent_read: Option<bool>,
}

/// The names of attributes that options give, if they give them.
pub open spec fn names_option(s: Fields) -> Result<Option<Map<Seq<char>, Seq<char>>>, Seq<char>> {
    match field_of(s, "expression_attribute_names"@) {
        Some(Script::Object(o)) => match to_names(o, Map::empty()) {
            Ok(m) => Ok(Some(m)),
            Err(t) => Err(t),
        },
        _ => Ok(None),
    }
}

/// The values that options give, if they give them.
pub open spec fn values_option(s: Fields) -> Result<Option<Attrs>, Seq<char>> {
    match field_of(s, "expression_attribute_values"@) {
        Some(Script::Object(o)) => match to_item(o, Seq::empty()) {
            Ok(m) => Ok(Some(m)),
            Err(t) => Err(t),
        },
        _ => Ok(None),
    }
}

/// The map of an optional map.
pub open spec fn opt_map(m: Option<StringMap>) -> Option<Map<Seq<char>, Seq<char>>> {
    match m {
        Some(map) => Some(map@),
        None => None,
    }
}

/// The attributes of an optional item.
pub open spec fn opt_item(m: Option<Item>) -> Option<Attrs> {
    match m {
        Some(item) => Some(attrs(item@)),
        None => None,
    }
}

impl Options {
    /// The options are those of an object. A field of another type than its
    /// option counts as not there.
    pub open spec fn are(self, s: Fields, with_values: bool) -> bool {
        &&& opt_text(self.condition_expression) == string_field(s, "condition_expression"@)
        &&& opt_text(self.update_expression) == string_field(s, "update_expression"@)
        &&& opt_text(self.index_name) == string_field(s, "index_name"@)
        &&& opt_text(self.filter_expression) == string_field(s, "filter_expression"@)
        &&& opt_text(self.projection_expression) == string_field(s, "projection_expression"@)
        &&& Ok::<Option<Map<Seq<char>, Seq<char>>>, Seq<char>>(opt_map(self.names)) == names_option(s)
        &&& if with_values {
            Ok::<Option<Attrs>, Seq<char>>(opt_item(self.values)) == values_option(s)
        } else {
            self.values is None
        }
        &&& self.limit == integer_field(s, "limit"@)
        &&& self.segment == integer_field(s, "segment"@)
        &&& self.total_segments == integer_field(s, "total_segments"@)
        &&& self.scan_index_forward == bool_field(s, "scan_index_forward"@)
        &&& self.consistent_read == bool_field(s, "consistent_read"@)
    }

    /// Whether the read sees all earlier writes; it need not where nothing is asked for.
    pub fn reads_consistently(&self) -> (r: bool)
        ensures
            r == (self.consistent_read == Some(true)),
    {
        match self.consistent_read {
            Some(b) => b,
            None => false,
        }
    }

    /// Whether the items come in the order of the index; they do where nothing is asked for.
    pub fn runs_forward(&self) -> (r: bool)
        ensures
            r == (self.scan_index_forward != Some(false)),
    {
        match self.scan_index_forward {
            Some(b) => b,
            None => true,
        }
    }

    /// The update, which is empty where nothing is asked for.
    pub fn update(&self) -> (r: &str)
        ensures
            match self.update_expression {
                Some(t) => r@ == t@,
                None => r@.len() == 0,
            },
    {
        proof {
            reveal_strlit("");
        }
        match &self.update_expression {
            Some(t) => t.as_str(),
            None => "",
        }
    }
}

/// The fields of options; none where there are no options.
pub open spec fn option_fields(options: Option<&Object>) -> Fields {
    match options {
        Some(o) => fields(o@),
        None => Seq::empty(),
    }
}

/// What is wrong with options: the names are looked at before the values, and
/// the values only for operations that take values.
pub open spec fn option_error(s: Fields, with_values: bool) -> Option<Seq<char>> {
    match names_option(s) {
        Err(t) => Some(t),
        Ok(_) => if with_values {
            match values_option(s) {
                Err(t) => Some(t),
                Ok(_) => None,
            }
        } else {
            None
        },
    }
}

/// The names of attributes that options give.
fn read_names(options: &Object) -> (r: Result<Option<StringMap>, DynamoError>)
    ensures
        match names_option(fields(options@)) {
            Ok(m) => r is Ok && opt_map(r->Ok_0) == m,
            Err(t) => r is Err && says(r->Err_0, t),
        },
{
    match get_field(options, "expression_attribute_names") {
        Some(ScriptValue::Object(o)) => match object_to_string_map(o) {
            Ok(m) => Ok(Some(m)),
            Err(e) => Err(e),
        },
        _ => Ok(None),
    }
}

/// The values that options give.
fn read_values(options: &Object) -> (r: Result<Option<Item>, DynamoError>)
    ensures
        match values_option(fields(options@)) {
            Ok(m) => r is Ok && opt_item(r->Ok_0) == m,
            Err(t) => r is Err && says(r->Err_0, t),
        },
{
    match get_field(options, "expression_attribute_values") {
        Some(ScriptValue::Object(o)) => match object_to_item(o) {
            Ok(m) => Ok(Some(m)),
            Err(e) => Err(e),
        },
        _ => Ok(None),
    }
}

/// Reads the options of an operation. Operations that take values have them
/// read from the options too.
pub fn read_options(options: Option<&Object>, with_values: bool) -> (r: Result<
    Options,
    DynamoError,
>)
    ensures
        match option_error(option_fields(options), with_values) {
            Some(t) => r is Err && says(r->Err_0, t),
            None => r is Ok && r->Ok_0.are(option_fields(options), with_values),
        },
{
    let none: Object = Vec::new();
    assert(fields(none@) =~= Seq::empty());
    let o: &Object = match options {
        Some(o) => o,
        None => &none,
    };
    let names: Option<StringMap> = match read_names(o) {
        Ok(m) => m,
        Err(e) => {
            return Err(e);
        },
    };
    let values: Option<Item> = if with_values {
        match read_values(o) {
            Ok(m) => m,
            Err(e) => {
                return Err(e);
            },
        }
    } else {
        None
    };
    Ok(
        Options {
            condition_expression: get_opt_string(o, "condition_expression"),
            update_expression: get_opt_string(o, "update_expression"),
            index_name: get_opt_string(o, "index_name"),
            filter_expression: get_opt_string(o, "filter_expression"),
            projection_expression: get_opt_string(o, "projection_expression"),
            names,
            values,
            limit: get_opt_i64(o, "limit"),
            segment: get_opt_i64(o, "segment"),
            total_segments: get_opt_i64(o, "total_segments"),
            scan_index_forward: get_opt_bool(o, "scan_index_forward"),
            consistent_read: get_opt_bool(o, "consistent_read"),
        },
    )
}

/// The lowest 32 bits of an optional number, for an adapter.
pub open spec fn low_unsigned(n: Option<i64>) -> Option<u32> {
    match n {
        Some(n) => Some((n as int % 0x1_0000_0000) as u32),
        None => None,
    }
}

/// The lowest 32 bits of an optional number, for an adapter.
pub fn adapter_number(n: Option<i64>) -> (r: Option<u32>)
    ensures
        r == low_unsigned(n),
{
    match n {
        Some(n) => Some((seed_of(n) % 0x1_0000_0000) as u32),
        None => None,
    }
}

/// The lowest 32 bits of an optional number with their sign, for a direct client.
pub open spec fn low_signed(n: Option<i64>) -> Option<i32> {
    match n {
        Some(n) => {
            let low = n as int % 0x1_0000_0000;
            Some(
                (if low < 0x8000_0000 {
                    low
                } else {
                    low - 0x1_0000_0000
                }) as i32,
            )
        },
        None => None,
    }
}

/// The lowest 32 bits of an optional number with their sign, for a direct client.
pub fn client_number(n: Option<i64>) -> (r: Option<i32>)
    ensures
        r == low_signed(n),
{
    match n {
        Some(n) => {
            let low: u64 = seed_of(n) % 0x1_0000_0000;
            if low < 0x8000_0000 {
                Some(low as i32)
            } else {
                Some((low as i64 - 0x1_0000_0000) as i32)
            }
        },
        None => None,
    }
}

/// A write of a batch.
pub enum Write {
    Put(Attrs),
    Delete(Attrs),
}

impl View for BatchWriteRequest {
    type V = Write;

    open spec fn view(&self) -> Write {
        match self {
            BatchWriteRequest::Put(item) => Write::Put(attrs(item@)),
            BatchWriteRequest::Delete(key) => Write::Delete(attrs(key@)),
        }
    }
}

/// The write that a value of a script asks for: an object with an item to put,
/// or else with a key to delete. Any other value asks for none.
pub open spec fn write_of(v: Script) -> Result<Option<Write>, Seq<char>> {
    match v {
        Script::Object(o) => match field_of(o, "put"@) {
            Some(Script::Object(item)) => match to_item(item, Seq::empty()) {
                Ok(m) => Ok(Some(Write::Put(m))),
                Err(t) => Err(t),
            },
            _ => match field_of(o, "delete"@) {
                Some(Script::Object(key)) => match to_item(key, Seq::empty()) {
                    Ok(m) => Ok(Some(Write::Delete(m))),
                    Err(t) => Err(t),
                },
                _ => Ok(None),
            },
        },
        _ => Ok(None),
    }
}

/// The write that a value of a script asks for.
fn read_write(v: &ScriptValue) -> (r: Result<Option<BatchWriteRequest>, DynamoError>)
    ensures
        match write_of(v@) {
            Ok(Some(w)) => r is Ok && r->Ok_0 is Some && r->Ok_0->0@ == w,
            Ok(None) => r is Ok && r->Ok_0 is None,
            Err(t) => r is Err && says(r->Err_0, t),
        },
{
    match v {
        ScriptValue::Object(o) => match get_field(o, "put") {
            Some(ScriptValue::Object(item)) => match object_to_item(item) {
                Ok(m) => Ok(Some(BatchWriteRequest::Put(m))),
                Err(e) => Err(e),
            },
            _ => match get_field(o, "delete") {
                Some(ScriptValue::Object(key)) => match object_to_item(key) {
                    Ok(m) => Ok(Some(BatchWriteRequest::Delete(m))),
                    Err(e) => Err(e),
                },
                _ => Ok(None),
            },
        },
        _ => Ok(None),
    }
}

/// The writes that the values of a list ask for, in their order.
pub open spec fn writes_of(s: Seq<Script>, done: Seq<Write>) -> Result<Seq<Write>, Seq<char>>
    decreases s.len(),
{
    if s.len() == 0 {
        Ok(done)
    } else {
        match write_of(s[0]) {
            Err(t) => Err(t),
            Ok(None) => writes_of(s.skip(1), done),
            Ok(Some(w)) => writes_of(s.skip(1), done.push(w)),
        }
    }
}

/// The writes of a list.
pub open spec fn write_list(s: Seq<BatchWriteRequest>) -> Seq<Write> {
    s.map_values(|w: BatchWriteRequest| w@)
}

/// The writes that the values of a list ask for.
fn read_writes(v: &Vec<ScriptValue>) -> (r: Result<Vec<BatchWriteRequest>, DynamoError>)
    ensures
        match writes_of(scripts(v@), Seq::empty()) {
            Ok(l) => r is Ok && write_list(r->Ok_0@) == l,
            Err(t) => r is Err && says(r->Err_0, t),
        },
{
    let ghost s = scripts(v@);
    let mut list: Vec<BatchWriteRequest> = Vec::new();
    let mut i: usize = 0;
    assert(s.skip(0) =~= s);
    assert(write_list(list@) =~= Seq::empty());
    while i < v.len()
        invariant
            i <= v@.len(),
            s == scripts(v@),
            writes_of(s, Seq::empty()) == writes_of(s.skip(i as int), write_list(list@)),
        decreases v@.len() - i,
    {
        let ghost before = list@;
        assert(s.skip(i as int)[0] == v@[i as int]@);
        assert(s.skip(i as int).skip(1) =~= s.skip(i + 1));
        match read_write(&v[i]) {
            Err(e) => {
                return Err(e);
            },
            Ok(None) => {},
            Ok(Some(w)) => {
                list.push(w);
                assert(write_list(list@) =~= write_list(before).push(w@));
            },
        }
        i = i + 1;
    }
    assert(s.skip(i as int) =~= Seq::empty());
    Ok(list)
}

/// Writes by the names of their tables.
pub type TableWrites = Seq<(Seq<char>, Seq<Write>)>;

/// The writes that a script asks for in a batch. A field that holds no list asks for nothing.
pub open spec fn table_writes_of(s: Fields, done: TableWrites) -> Result<TableWrites, Seq<char>>
    decreases s.len(),
{
    if s.len() == 0 {
        Ok(done)
    } else {
        match s[0].1 {
            Script::List(l) => match writes_of(l, Seq::empty()) {
                Err(t) => Err(t),
                Ok(w) => table_writes_of(s.skip(1), done.push((s[0].0, w))),
            },
            _ => table_writes_of(s.skip(1), done),
        }
    }
}

/// The writes of groups, by the names of their tables.
pub open spec fn named_writes(s: Seq<(String, Vec<BatchWriteRequest>)>) -> TableWrites {
    s.map_values(|g: (String, Vec<BatchWriteRequest>)| (g.0@, write_list(g.1@)))
}

/// Reads the writes that a script asks for in a batch.
pub fn batch_writes(request_items: &Object) -> (r: Result<
    ByTable<BatchWriteRequest>,
    DynamoError,
>)
    ensures
        match table_writes_of(fields(request_items@), Seq::empty()) {
            Ok(l) => r is Ok && named_writes(r->Ok_0@) == l,
            Err(t) => r is Err && says(r->Err_0, t),
        },
{
    let ghost s = fields(request_items@);
    let mut list: ByTable<BatchWriteRequest> = Vec::new();
    let mut i: usize = 0;
    assert(s.skip(0) =~= s);
    assert(named_writes(list@) =~= Seq::empty());
    while i < request_items.len()
        invariant
            i <= request_items@.len(),
            s == fields(request_items@),
            table_writes_of(s, Seq::empty()) == table_writes_of(
                s.skip(i as int),
                named_writes(list@),
            ),
        decreases request_items@.len() - i,
    {
        let ghost before = list@;
        assert(s.skip(i as int)[0] == (request_items@[i as int].0@, request_items@[i as int].1@));
        assert(s.skip(i as int).skip(1) =~= s.skip(i + 1));
        match &request_items[i].1 {
            ScriptValue::List(l) => match read_writes(l) {
                Err(e) => {
                    return Err(e);
                },
                Ok(w) => {
                    list.push((request_items[i].0.clone(), w));
                    assert(named_writes(list@) =~= named_writes(before).push(
                        (request_items@[i as int].0@, write_list(w@)),
                    ));
                },
            },
            _ => {},
        }
        i = i + 1;
    }
    assert(s.skip(i as int) =~= Seq::empty());
    Ok(list)
}

/// The keys that the objects of a list stand for, in their order. Other values stand for none.
pub open spec fn keys_of(s: Seq<Script>, done: Seq<Attrs>) -> Result<Seq<Attrs>, Seq<char>>
    decreases s.len(),
{
    if s.len() == 0 {
        Ok(done)
    } else {
        match s[0] {
            Script::Object(o) => match to_item(o, Seq::empty()) {
                Err(t) => Err(t),
                Ok(m) => keys_of(s.skip(1), done.push(m)),
            },
            _ => keys_of(s.skip(1), done),
        }
    }
}

/// The keys that the objects of a list stand for.
fn read_keys(v: &Vec<ScriptValue>) -> (r: Result<Vec<Item>, DynamoError>)
    ensures
        match keys_of(scripts(v@), Seq::empty()) {
            Ok(l) => r is Ok && items_of(r->Ok_0@) == l,
            Err(t) => r is Err && says(r->Err_0, t),
        },
{
    let ghost s = scripts(v@);
    let mut list: Vec<Item> = Vec::new();
    let mut i: usize = 0;
    assert(s.skip(0) =~= s);
    assert(items_of(list@) =~= Seq::empty());
    while i < v.len()
        invariant
            i <= v@.len(),
            s == scripts(v@),
            keys_of(s, Seq::empty()) == keys_of(s.skip(i as int), items_of(list@)),
        decreases v@.len() - i,
    {
        let ghost before = list@;
        assert(s.skip(i as int)[0] == v@[i as int]@);
        assert(s.skip(i as int).skip(1) =~= s.skip(i + 1));
        match &v[i] {
            ScriptValue::Object(o) => match object_to_item(o) {
                Err(e) => {
                    return Err(e);
                },
                Ok(m) => {
                    list.push(m);
                    assert(items_of(list@) =~= items_of(before).push(attrs(m@)));
                },
            },
            _ => {},
        }
        i = i + 1;
    }
    assert(s.skip(i as int) =~= Seq::empty());
    Ok(list)
}

/// Keys by the names of their tables.
pub type TableKeys = Seq<(Seq<char>, Seq<Attrs>)>;

/// The keys that a script asks for in a batch. A field that holds no list asks for nothing.
pub open spec fn table_keys_of(s: Fields, done: TableKeys) -> Result<TableKeys, Seq<char>>
    decreases s.len(),
{
    if s.len() == 0 {
        Ok(done)
    } else {
        match s[0].1 {
            Script::List(l) => match keys_of(l, Seq::empty()) {
                Err(t) => Err(t),
                Ok(k) => table_keys_of(s.skip(1), done.push((s[0].0, k))),
            },
            _ => table_keys_of(s.skip(1), done),
        }
    }
}

/// The keys of reads, by the names of their tables.
pub open spec fn named_keys(s: Seq<(String, BatchGetRequestItems)>) -> TableKeys {
    s.map_values(|g: (String, BatchGetRequestItems)| (g.0@, items_of(g.1.keys@)))
}

/// A read with nothing but keys.
pub open spec fn is_plain(g: BatchGetRequestItems) -> bool {
    !g.consistent_read && g.projection_expression is None && g.expression_attribute_names is None
}

/// Reads the keys that a script asks for in a batch.
pub fn batch_gets(request_items: &Object) -> (r: Result<
    Vec<(String, BatchGetRequestItems)>,
    DynamoError,
>)
    ensures
        match table_keys_of(fields(request_items@), Seq::empty()) {
            Ok(l) => r is Ok && named_keys(r->Ok_0@) == l && forall|i: int|
                0 <= i < r->Ok_0@.len() ==> is_plain((#[trigger] r->Ok_0@[i]).1),
            Err(t) => r is Err && says(r->Err_0, t),
        },
{
    let ghost s = fields(request_items@);
    let mut list: Vec<(String, BatchGetRequestItems)> = Vec::new();
    let mut i: usize = 0;
    assert(s.skip(0) =~= s);
    assert(named_keys(list@) =~= Seq::empty());
    while i < request_items.len()
        invariant
            i <= request_items@.len(),
            s == fields(request_items@),
            table_keys_of(s, Seq::empty()) == table_keys_of(s.skip(i as int), named_keys(list@)),
            forall|j: int| 0 <= j < list@.len() ==> is_plain((#[trigger] list@[j]).1),
        decreases request_items@.len() - i,
    {
        let ghost before = list@;
        assert(s.skip(i as int)[0] == (request_items@[i as int].0@, request_items@[i as int].1@));
        assert(s.skip(i as int).skip(1) =~= s.skip(i + 1));
        match &request_items[i].1 {
            ScriptValue::List(l) => match read_keys(l) {
                Err(e) => {
                    return Err(e);
                },
                Ok(keys) => {
                    let get: BatchGetRequestItems = BatchGetRequestItems {
                        keys,
                        consistent_read: false,
                        projection_expression: None,
                        expression_attribute_names: None,
                    };
                    list.push((request_items[i].0.clone(), get));
                    assert(named_keys(list@) =~= named_keys(before).push(
                        (request_items@[i as int].0@, items_of(keys@)),
                    ));
                },
            },
            _ => {},
        }
        i = i + 1;
    }
    assert(s.skip(i as int) =~= Seq::empty());
    Ok(list)
}

/// What is said of an attribute that becomes no value of a script.
pub open spec fn bad_attribute_text(name: Seq<char>, reason: Seq<char>) -> Seq<char> {
    "Convert error for '"@ + name + ("': "@ + invalid_text(reason))
}

/// The object that an item becomes, or what is said of the first attribute that becomes no value.
pub open spec fn to_object(s: Attrs, done: Fields) -> Result<Fields, Seq<char>>
    decreases s.len(),
{
    if s.len() == 0 {
        Ok(done)
    } else {
        match script_of(s[0].1) {
            Err(t) => Err(bad_attribute_text(s[0].0, t)),
            Ok(v) => to_object(s.skip(1), done.push((s[0].0, v))),
        }
    }
}

/// Converts an item to an object. The error names the attribute that cannot be converted.
pub fn item_to_object(item: &Item) -> (r: Result<Object, DynamoError>)
    ensures
        match to_object(attrs(item@), Seq::empty()) {
            Ok(m) => r is Ok && fields(r->Ok_0@) == m,
            Err(t) => r is Err && says(r->Err_0, t),
        },
{
    let ghost s = attrs(item@);
    let mut object: Object = Vec::new();
    let mut i: usize = 0;
    assert(s.skip(0) =~= s);
    assert(fields(object@) =~= Seq::empty());
    while i < item.len()
        invariant
            i <= item@.len(),
            s == attrs(item@),
            to_object(s, Seq::empty()) == to_object(s.skip(i as int), fields(object@)),
        decreases item@.len() - i,
    {
        let ghost before = object@;
        assert(s.skip(i as int)[0] == (item@[i as int].0@, item@[i as int].1@));
        assert(s.skip(i as int).skip(1) =~= s.skip(i + 1));
        match attribute_value_to_rune(&item[i].1) {
            Err(e) => {
                let reason: String = e.to_string();
                let tail: String = both("': ", reason.as_str());
                return Err(
                    DynamoError::invalid_parameter(
                        joined("Convert error for '", item[i].0.as_str(), tail.as_str()),
                    ),
                );
            },
            Ok(v) => {
                object.push((item[i].0.clone(), v));
                assert(fields(object@) =~= fields(before).push((item@[i as int].0@, v@)));
            },
        }
        i = i + 1;
    }
    assert(s.skip(i as int) =~= Seq::empty());
    Ok(object)
}

/// The objects that items become.
pub open spec fn to_objects(s: Seq<Attrs>, done: Seq<Script>) -> Result<Seq<Script>, Seq<char>>
    decreases s.len(),
{
    if s.len() == 0 {
        Ok(done)
    } else {
        match to_object(s[0], Seq::empty()) {
            Err(t) => Err(t),
            Ok(o) => to_objects(s.skip(1), done.push(Script::Object(o))),
        }
    }
}

/// Converts items to a list of objects.
pub fn items_to_rune_vec(items: &Vec<Item>) -> (r: Result<ScriptValue, DynamoError>)
    ensures
        match to_objects(items_of(items@), Seq::empty()) {
            Ok(l) => r is Ok && r->Ok_0@ == Script::List(l),
            Err(t) => r is Err && says(r->Err_0, t),
        },
{
    let ghost s = items_of(items@);
    let mut list: Vec<ScriptValue> = Vec::new();
    let mut i: usize = 0;
    assert(s.skip(0) =~= s);
    assert(scripts(list@) =~= Seq::empty());
    while i < items.len()
        invariant
            i <= items@.len(),
            s == items_of(items@),
            to_objects(s, Seq::empty()) == to_objects(s.skip(i as int), scripts(list@)),
        decreases items@.len() - i,
    {
        let ghost before = list@;
        assert(s.skip(i as int)[0] == attrs(items@[i as int]@));
        assert(s.skip(i as int).skip(1) =~= s.skip(i + 1));
        match item_to_object(&items[i]) {
            Err(e) => {
                return Err(e);
            },
            Ok(o) => {
                let value: ScriptValue = ScriptValue::Object(o);
                list.push(value);
                assert(scripts(list@) =~= scripts(before).push(value@));
            },
        }
        i = i + 1;
    }
    assert(s.skip(i as int) =~= Seq::empty());
    Ok(ScriptValue::List(list))
}

/// What a read hands to a script: an object, or an empty tuple where there is no item.
pub fn read_result(item: &Option<Item>) -> (r: Result<Option<Object>, DynamoError>)
    ensures
        match item {
            None => r is Ok && r->Ok_0 is None,
            Some(m) => match to_object(attrs(m@), Seq::empty()) {
                Ok(o) => r is Ok && r->Ok_0 is Some && fields(r->Ok_0->0@) == o,
                Err(t) => r is Err && says(r->Err_0, t),
            },
        },
{
    match item {
        None => Ok(None),
        Some(m) => match item_to_object(m) {
            Ok(o) => Ok(Some(o)),
            Err(e) => Err(e),
        },
    }
}

/// Items by the names of their tables.
pub open spec fn named_items(s: Seq<(String, Vec<Item>)>) -> TableKeys {
    s.map_values(|g: (String, Vec<Item>)| (g.0@, items_of(g.1@)))
}

/// The object that the items of a batch become: a list of objects for each table.
pub open spec fn to_tables(s: TableKeys, done: Fields) -> Result<Fields, Seq<char>>
    decreases s.len(),
{
    if s.len() == 0 {
        Ok(done)
    } else {
        match to_objects(s[0].1, Seq::empty()) {
            Err(t) => Err(t),
            Ok(l) => to_tables(s.skip(1), done.push((s[0].0, Script::List(l)))),
        }
    }
}

/// Converts the items of a batch to an object with a list of objects for each table.
pub fn batch_result(responses: &Vec<(String, Vec<Item>)>) -> (r: Result<Object, DynamoError>)
    ensures
        match to_tables(named_items(responses@), Seq::empty()) {
            Ok(o) => r is Ok && fields(r->Ok_0@) == o,
            Err(t) => r is Err && says(r->Err_0, t),
        },
{
    let ghost s = named_items(responses@);
    let mut object: Object = Vec::new();
    let mut i: usize = 0;
    assert(s.skip(0) =~= s);
    assert(fields(object@) =~= Seq::empty());
    while i < responses.len()
        invariant
            i <= responses@.len(),
            s == named_items(responses@),
            to_tables(s, Seq::empty()) == to_tables(s.skip(i as int), fields(object@)),
        decreases responses@.len() - i,
    {
        let ghost before = object@;
        assert(s.skip(i as int)[0] == (
            responses@[i as int].0@,
            items_of(responses@[i as int].1@),
        ));
        assert(s.skip(i as int).skip(1) =~= s.skip(i + 1));
        match items_to_rune_vec(&responses[i].1) {
            Err(e) => {
                return Err(e);
            },
            Ok(v) => {
                object.push((responses[i].0.clone(), v));
                assert(fields(object@) =~= fields(before).push((responses@[i as int].0@, v@)));
            },
        }
        i = i + 1;
    }
    assert(s.skip(i as int) =~= Seq::empty());
    Ok(object)
}

} // verus!
