//! What scripts build operations from: keys, attributes, indexes, and the
//! parts of transactions.

use super::error::{DynamoError, DynamoErrorKind};
use super::options::unsupported_text;
use super::types::{
    fields, item_of, list_to_attributes, make_bs, make_list, make_map, make_ns, make_ss,
    no_attribute, rune_object_to_item, attributes_of, scripts, DynamoValue, Script, ScriptValue,
};
use crate::ipc::alternator_client::{BatchGetRequestItems, BatchWriteRequest};
use crate::ipc::attribute::{attrs, blobs, copy_blob, Attr, Attrs, Item};
use crate::number::{signed_decimal, signed_decimal_text};
use crate::string_map::StringMap;
use crate::text::{both, joined, lemma_texts_push, same_text, texts};
use vstd::prelude::*;
use vstd::string::*;

verus! {

/// Which part of a key an attribute is.
#[derive(Debug, Clone, Copy, PartialEq, Eq, Structural)]
pub enum KeyType {
    Hash,
    Range,
}

/// An attribute of a key.
#[derive(Debug)]
pub struct KeySchemaElement {
    pub attribute_name: String,
    pub key_type: KeyType,
}

/// The type of an attribute of a key.
#[derive(Debug, Clone, Copy, PartialEq, Eq, Structural)]
pub enum ScalarAttributeType {
    S,
    N,
    B,
}

/// An attribute that a table declares.
#[derive(Debug)]
pub struct AttributeDefinition {
    pub attribute_name: String,
    pub attribute_type: ScalarAttributeType,
}

/// The capacity of a table or an index.
#[derive(Debug, Clone, Copy, PartialEq, Eq, Structural)]
pub struct ProvisionedThroughput {
    pub read_capacity_units: i64,
    pub write_capacity_units: i64,
}

/// Which attributes an index holds.
#[derive(Debug, Clone, Copy, PartialEq, Eq, Structural)]
pub enum ProjectionType {
    All,
    KeysOnly,
    Include,
}

/// What `str::to_uppercase` makes of a text.
pub uninterp spec fn uppercase(text: Seq<char>) -> Seq<char>;

/// `str::to_uppercase`: the text in upper case by the rules of Unicode, which
/// depends on the text alone and has a name.
#[verifier::external_body]
fn to_uppercase(text: &str) -> (r: String)
    ensures
        r@ == uppercase(text@),
{
    text.to_uppercase()
}

/// The key type that a name in upper case stands for.
pub open spec fn key_type_of(upper: Seq<char>) -> Option<KeyType> {
    if upper == "HASH"@ {
        Some(KeyType::Hash)
    } else if upper == "RANGE"@ {
        Some(KeyType::Range)
    } else {
        None
    }
}

/// Reads a key type by its name in upper case.
pub fn read_key_type(upper: &str) -> (r: Option<KeyType>)
    ensures
        r == key_type_of(upper@),
{
    if same_text(upper, "HASH") {
        Some(KeyType::Hash)
    } else if same_text(upper, "RANGE") {
        Some(KeyType::Range)
    } else {
        None
    }
}

/// An attribute of a key, by its name and the name of its part.
pub fn key_schema(name: &str, key_type: &str) -> (r: Result<KeySchemaElement, DynamoError>)
    ensures
        match key_type_of(uppercase(key_type@)) {
            Some(t) => r matches Ok(e) && e.attribute_name@ == name@ && e.key_type == t,
            None => r matches Err(e) && e.is(
                DynamoErrorKind::InvalidParameter,
                "Invalid key type: "@ + key_type@ + ". Must be HASH or RANGE"@,
            ),
        },
{
    let upper: String = to_uppercase(key_type);
    match read_key_type(upper.as_str()) {
        Some(t) => Ok(KeySchemaElement { attribute_name: name.to_owned(), key_type: t }),
        None => Err(
            DynamoError::invalid_parameter(
                joined("Invalid key type: ", key_type, ". Must be HASH or RANGE"),
            ),
        ),
    }
}

/// The attribute type that a name in upper case stands for.
pub open spec fn attribute_type_of(upper: Seq<char>) -> Option<ScalarAttributeType> {
    if upper == "S"@ {
        Some(ScalarAttributeType::S)
    } else if upper == "N"@ {
        Some(ScalarAttributeType::N)
    } else if upper == "B"@ {
        Some(ScalarAttributeType::B)
    } else {
        None
    }
}

/// Reads an attribute type by its name in upper case.
pub fn read_attribute_type(upper: &str) -> (r: Option<ScalarAttributeType>)
    ensures
        r == attribute_type_of(upper@),
{
    if same_text(upper, "S") {
        Some(ScalarAttributeType::S)
    } else if same_text(upper, "N") {
        Some(ScalarAttributeType::N)
    } else if same_text(upper, "B") {
        Some(ScalarAttributeType::B)
    } else {
        None
    }
}

/// An attribute that a table declares, by its name and the name of its type.
pub fn attribute_def(name: &str, attr_type: &str) -> (r: Result<AttributeDefinition, DynamoError>)
    ensures
        match attribute_type_of(uppercase(attr_type@)) {
            Some(t) => r matches Ok(d) && d.attribute_name@ == name@ && d.attribute_type == t,
            None => r matches Err(e) && e.is(
                DynamoErrorKind::InvalidParameter,
                "Invalid attribute type: "@ + attr_type@ + ". Must be S, N, or B"@,
            ),
        },
{
    let upper: String = to_uppercase(attr_type);
    match read_attribute_type(upper.as_str()) {
        Some(t) => Ok(AttributeDefinition { attribute_name: name.to_owned(), attribute_type: t }),
        None => Err(
            DynamoError::invalid_parameter(
                joined("Invalid attribute type: ", attr_type, ". Must be S, N, or B"),
            ),
        ),
    }
}

/// The capacity of a table or an index.
pub fn throughput(read_capacity: i64, write_capacity: i64) -> (t: ProvisionedThroughput)
    ensures
        t.read_capacity_units == read_capacity,
        t.write_capacity_units == write_capacity,
{
    ProvisionedThroughput {
        read_capacity_units: read_capacity,
        write_capacity_units: write_capacity,
    }
}

/// A write that puts an item.
pub fn put_request(item: Item) -> (w: BatchWriteRequest)
    ensures
        w == BatchWriteRequest::Put(item),
{
    BatchWriteRequest::Put(item)
}

/// A write that deletes an item.
pub fn delete_request(key: Item) -> (w: BatchWriteRequest)
    ensures
        w == BatchWriteRequest::Delete(key),
{
    BatchWriteRequest::Delete(key)
}

/// A read of items by their keys.
pub fn keys_and_attributes(keys: Vec<Item>) -> (r: BatchGetRequestItems)
    ensures
        r == (BatchGetRequestItems {
            keys,
            consistent_read: false,
            projection_expression: None,
            expression_attribute_names: None,
        }),
{
    BatchGetRequestItems {
        keys,
        consistent_read: false,
        projection_expression: None,
        expression_attribute_names: None,
    }
}

/// The projection type that a name in upper case stands for.
pub open spec fn projection_type_of(upper: Seq<char>) -> Option<ProjectionType> {
    if upper == "ALL"@ {
        Some(ProjectionType::All)
    } else if upper == "KEYS_ONLY"@ {
        Some(ProjectionType::KeysOnly)
    } else if upper == "INCLUDE"@ {
        Some(ProjectionType::Include)
    } else {
        None
    }
}

/// Reads a projection type by its name in upper case.
pub fn read_projection_type(upper: &str) -> (r: Option<ProjectionType>)
    ensures
        r == projection_type_of(upper@),
{
    if same_text(upper, "ALL") {
        Some(ProjectionType::All)
    } else if same_text(upper, "KEYS_ONLY") {
        Some(ProjectionType::KeysOnly)
    } else if same_text(upper, "INCLUDE") {
        Some(ProjectionType::Include)
    } else {
        None
    }
}

/// What is said of an unknown projection type.
pub open spec fn no_projection(e: DynamoError, name: Seq<char>) -> bool {
    e.is(
        DynamoErrorKind::InvalidParameter,
        "Invalid projection type: "@ + name + ". Must be ALL, KEYS_ONLY, or INCLUDE"@,
    )
}

/// The projection type with a name.
fn projection_named(name: &str) -> (r: Result<ProjectionType, DynamoError>)
    ensures
        match projection_type_of(uppercase(name@)) {
            Some(t) => r == Ok::<ProjectionType, DynamoError>(t),
            None => r is Err && no_projection(r->Err_0, name@),
        },
{
    let upper: String = to_uppercase(name);
    match read_projection_type(upper.as_str()) {
        Some(t) => Ok(t),
        None => Err(
            DynamoError::invalid_parameter(
                joined(
                    "Invalid projection type: ",
                    name,
                    ". Must be ALL, KEYS_ONLY, or INCLUDE",
                ),
            ),
        ),
    }
}

/// A global secondary index.
#[derive(Debug)]
pub struct GlobalSecondaryIndex {
    pub index_name: String,
    pub key_schema: Vec<KeySchemaElement>,
    pub projection_type: ProjectionType,
    pub non_key_attributes: Option<Vec<String>>,
    pub provisioned_throughput: Option<ProvisionedThroughput>,
}

/// Builds a global secondary index.
#[derive(Debug)]
pub struct GsiBuilder {
    index: GlobalSecondaryIndex,
}

impl View for GsiBuilder {
    type V = GlobalSecondaryIndex;

    closed spec fn view(&self) -> GlobalSecondaryIndex {
        self.index
    }
}

impl GsiBuilder {
    /// An index with a name that holds all attributes.
    pub fn new(name: &str) -> (b: GsiBuilder)
        ensures
            b@.index_name@ == name@,
            b@.key_schema@.len() == 0,
            b@.projection_type == ProjectionType::All,
            b@.non_key_attributes is None,
            b@.provisioned_throughput is None,
    {
        GsiBuilder {
            index: GlobalSecondaryIndex {
                index_name: name.to_owned(),
                key_schema: Vec::new(),
                projection_type: ProjectionType::All,
                non_key_attributes: None,
                provisioned_throughput: None,
            },
        }
    }

    /// Adds an attribute to the key.
    pub fn key_schema(self, element: KeySchemaElement) -> (b: GsiBuilder)
        ensures
            b@.key_schema@ == self@.key_schema@.push(element),
            b@ == (GlobalSecondaryIndex { key_schema: b@.key_schema, ..self@ }),
    {
        let mut b: GsiBuilder = self;
        b.index.key_schema.push(element);
        b
    }

    /// Sets which attributes the index holds.
    pub fn projection_type(self, proj_type: &str) -> (r: Result<GsiBuilder, DynamoError>)
        ensures
            match projection_type_of(uppercase(proj_type@)) {
                Some(t) => r matches Ok(b) && b@ == (GlobalSecondaryIndex {
                    projection_type: t,
                    ..self@
                }),
                None => r is Err && no_projection(r->Err_0, proj_type@),
            },
    {
        match projection_named(proj_type) {
            Ok(t) => {
                let mut b: GsiBuilder = self;
                b.index.projection_type = t;
                Ok(b)
            },
            Err(e) => Err(e),
        }
    }

    /// Sets the attributes that the index holds besides its key.
    pub fn non_key_attributes(self, names: Vec<String>) -> (b: GsiBuilder)
        ensures
            b@ == (GlobalSecondaryIndex { non_key_attributes: Some(names), ..self@ }),
    {
        let mut b: GsiBuilder = self;
        b.index.non_key_attributes = Some(names);
        b
    }

    /// Sets the capacity of the index.
    pub fn provisioned_throughput(self, throughput: ProvisionedThroughput) -> (b: GsiBuilder)
        ensures
            b@ == (GlobalSecondaryIndex { provisioned_throughput: Some(throughput), ..self@ }),
    {
        let mut b: GsiBuilder = self;
        b.index.provisioned_throughput = Some(throughput);
        b
    }

    /// The index.
    pub fn build(self) -> (index: GlobalSecondaryIndex)
        ensures
            index == self@,
    {
        self.index
    }
}

/// Builds a global secondary index.
pub fn gsi(name: &str) -> (b: GsiBuilder)
    ensures
        b@.index_name@ == name@,
        b@.key_schema@.len() == 0,
        b@.projection_type == ProjectionType::All,
        b@.non_key_attributes is None,
        b@.provisioned_throughput is None,
{
    GsiBuilder::new(name)
}

/// A local secondary index.
#[derive(Debug)]
pub struct LocalSecondaryIndex {
    pub index_name: String,
    pub key_schema: Vec<KeySchemaElement>,
    pub projection_type: ProjectionType,
    pub non_key_attributes: Option<Vec<String>>,
}

/// Builds a local secondary index.
#[derive(Debug)]
pub struct LsiBuilder {
    index: LocalSecondaryIndex,
}

impl View for LsiBuilder {
    type V = LocalSecondaryIndex;

    closed spec fn view(&self) -> LocalSecondaryIndex {
        self.index
    }
}

impl LsiBuilder {
    /// An index with a name that holds all attributes.
    pub fn new(name: &str) -> (b: LsiBuilder)
        ensures
            b@.index_name@ == name@,
            b@.key_schema@.len() == 0,
            b@.projection_type == ProjectionType::All,
            b@.non_key_attributes is None,
    {
        LsiBuilder {
            index: LocalSecondaryIndex {
                index_name: name.to_owned(),
                key_schema: Vec::new(),
                projection_type: ProjectionType::All,
                non_key_attributes: None,
            },
        }
    }

    /// Adds an attribute to the key.
    pub fn key_schema(self, element: KeySchemaElement) -> (b: LsiBuilder)
        ensures
            b@.key_schema@ == self@.key_schema@.push(element),
            b@ == (LocalSecondaryIndex { key_schema: b@.key_schema, ..self@ }),
    {
        let mut b: LsiBuilder = self;
        b.index.key_schema.push(element);
        b
    }

    /// Sets which attributes the index holds.
    pub fn projection_type(self, proj_type: &str) -> (r: Result<LsiBuilder, DynamoError>)
        ensures
            match projection_type_of(uppercase(proj_type@)) {
                Some(t) => r matches Ok(b) && b@ == (LocalSecondaryIndex {
                    projection_type: t,
                    ..self@
                }),
                None => r is Err && no_projection(r->Err_0, proj_type@),
            },
    {
        match projection_named(proj_type) {
            Ok(t) => {
                let mut b: LsiBuilder = self;
                b.index.projection_type = t;
                Ok(b)
            },
            Err(e) => Err(e),
        }
    }

    /// Sets the attributes that the index holds besides its key.
    pub fn non_key_attributes(self, names: Vec<String>) -> (b: LsiBuilder)
        ensures
            b@ == (LocalSecondaryIndex { non_key_attributes: Some(names), ..self@ }),
    {
        let mut b: LsiBuilder = self;
        b.index.non_key_attributes = Some(names);
        b
    }

    /// The index.
    pub fn build(self) -> (index: LocalSecondaryIndex)
        ensures
            index == self@,
    {
        self.index
    }
}

/// Builds a local secondary index.
pub fn lsi(name: &str) -> (b: LsiBuilder)
    ensures
        b@.index_name@ == name@,
        b@.key_schema@.len() == 0,
        b@.projection_type == ProjectionType::All,
        b@.non_key_attributes is None,
{
    LsiBuilder::new(name)
}

/// The byte strings of a list, if it holds nothing else.
pub open spec fn bytes_of(s: Seq<Script>) -> Option<Seq<Seq<u8>>>
    decreases s.len(),
{
    if s.len() == 0 {
        Some(Seq::empty())
    } else {
        match (bytes_of(s.drop_last()), s.last()) {
            (Some(rest), Script::Bytes(b)) => Some(rest.push(b)),
            _ => None,
        }
    }
}

/// The strings of a list, if it holds nothing else.
pub open spec fn strings_of(s: Seq<Script>) -> Option<Seq<Seq<char>>>
    decreases s.len(),
{
    if s.len() == 0 {
        Some(Seq::empty())
    } else {
        match (strings_of(s.drop_last()), s.last()) {
            (Some(rest), Script::Text(t)) => Some(rest.push(t)),
            _ => None,
        }
    }
}

/// The texts of the numbers of a list, if it holds nothing else.
pub open spec fn number_texts_of(s: Seq<Script>) -> Option<Seq<Seq<char>>>
    decreases s.len(),
{
    if s.len() == 0 {
        Some(Seq::empty())
    } else {
        match (number_texts_of(s.drop_last()), s.last()) {
            (Some(rest), Script::Integer(n)) => Some(rest.push(signed_decimal(n as int))),
            (Some(rest), Script::Float(t)) => Some(rest.push(t)),
            _ => None,
        }
    }
}

/// What is said of a set of values that are not of one kind.
#[derive(Debug, Clone, Copy, PartialEq, Eq, Structural)]
pub enum SetError {
    Bytes,
    Strings,
    Numbers,
}

impl SetError {
    /// What is said of the error.
    pub fn message(self) -> (r: &'static str)
        ensures
            r@ == (match self {
                SetError::Bytes => "BS requires bytes values"@,
                SetError::Strings => "SS requires string values"@,
                SetError::Numbers => "NS requires numeric values"@,
            }),
    {
        match self {
            SetError::Bytes => "BS requires bytes values",
            SetError::Strings => "SS requires string values",
            SetError::Numbers => "NS requires numeric values",
        }
    }
}

/// A part of a list that is not of one kind keeps the whole from being so.
proof fn lemma_prefix(s: Seq<Script>, n: int)
    requires
        0 <= n <= s.len(),
    ensures
        bytes_of(s.take(n)) is None ==> bytes_of(s) is None,
        strings_of(s.take(n)) is None ==> strings_of(s) is None,
        number_texts_of(s.take(n)) is None ==> number_texts_of(s) is None,
    decreases s.len() - n,
{
    if n < s.len() {
        lemma_prefix(s, n + 1);
        assert(s.take(n + 1).drop_last() =~= s.take(n));
    } else {
        assert(s.take(n) =~= s);
    }
}

/// A set of byte strings.
pub fn dynamo_bs(items: &Vec<ScriptValue>) -> (r: Result<DynamoValue, SetError>)
    ensures
        match bytes_of(scripts(items@)) {
            Some(s) => r is Ok && r->Ok_0@ == Attr::Bs(s),
            None => r matches Err(e) && e == SetError::Bytes,
        },
{
    let ghost s = scripts(items@);
    let mut list: Vec<Vec<u8>> = Vec::new();
    let mut i: usize = 0;
    assert(blobs(list@) =~= Seq::empty());
    assert(s.take(0) =~= Seq::empty());
    while i < items.len()
        invariant
            i <= items@.len(),
            s == scripts(items@),
            bytes_of(s.take(i as int)) == Some(blobs(list@)),
        decreases items@.len() - i,
    {
        let ghost before = list@;
        assert(s[i as int] == items@[i as int]@);
        assert(s.take(i + 1).drop_last() =~= s.take(i as int));
        if let ScriptValue::Bytes(b) = &items[i] {
            list.push(copy_blob(b));
            assert(blobs(list@) =~= blobs(before).push(b@));
        } else {
            proof {
                lemma_prefix(s, i + 1);
            }
            return Err(SetError::Bytes);
        }
        i = i + 1;
    }
    assert(s.take(i as int) =~= s);
    Ok(make_bs(list))
}

/// A set of strings.
pub fn dynamo_ss(items: &Vec<ScriptValue>) -> (r: Result<DynamoValue, SetError>)
    ensures
        match strings_of(scripts(items@)) {
            Some(s) => r is Ok && r->Ok_0@ == Attr::Ss(s),
            None => r matches Err(e) && e == SetError::Strings,
        },
{
    let ghost s = scripts(items@);
    let mut list: Vec<String> = Vec::new();
    let mut i: usize = 0;
    assert(texts(list@) =~= Seq::empty());
    assert(s.take(0) =~= Seq::empty());
    while i < items.len()
        invariant
            i <= items@.len(),
            s == scripts(items@),
            strings_of(s.take(i as int)) == Some(texts(list@)),
        decreases items@.len() - i,
    {
        assert(s[i as int] == items@[i as int]@);
        assert(s.take(i + 1).drop_last() =~= s.take(i as int));
        if let ScriptValue::Text(t) = &items[i] {
            let copy: String = t.clone();
            proof {
                lemma_texts_push(list@, copy);
            }
            list.push(copy);
        } else {
            proof {
                lemma_prefix(s, i + 1);
            }
            return Err(SetError::Strings);
        }
        i = i + 1;
    }
    assert(s.take(i as int) =~= s);
    Ok(make_ss(list))
}

/// A set of numbers.
pub fn dynamo_ns(items: &Vec<ScriptValue>) -> (r: Result<DynamoValue, SetError>)
    ensures
        match number_texts_of(scripts(items@)) {
            Some(s) => r is Ok && r->Ok_0@ == Attr::Ns(s),
            None => r matches Err(e) && e == SetError::Numbers,
        },
{
    let ghost s = scripts(items@);
    let mut list: Vec<String> = Vec::new();
    let mut i: usize = 0;
    assert(texts(list@) =~= Seq::empty());
    assert(s.take(0) =~= Seq::empty());
    while i < items.len()
        invariant
            i <= items@.len(),
            s == scripts(items@),
            number_texts_of(s.take(i as int)) == Some(texts(list@)),
        decreases items@.len() - i,
    {
        assert(s[i as int] == items@[i as int]@);
        assert(s.take(i + 1).drop_last() =~= s.take(i as int));
        let text: String = match &items[i] {
            ScriptValue::Integer(n) => signed_decimal_text(*n),
            ScriptValue::Float(t) => t.clone(),
            _ => {
                proof {
                    lemma_prefix(s, i + 1);
                }
                return Err(SetError::Numbers);
            },
        };
        proof {
            lemma_texts_push(list@, text);
        }
        list.push(text);
        i = i + 1;
    }
    assert(s.take(i as int) =~= s);
    Ok(make_ns(list))
}

/// What is said of an argument that becomes no attribute values.
pub open spec fn unconverted(what: Seq<char>) -> Seq<char> {
    "Failed to convert "@ + what + (": "@ + unsupported_text())
}

/// Says which argument becomes no attribute values.
fn not_converted(what: &str, e: DynamoError) -> (text: String)
    requires
        no_attribute(e),
    ensures
        text@ == unconverted(what@),
{
    let reason: String = e.to_string();
    let tail: String = both(": ", reason.as_str());
    joined("Failed to convert ", what, tail.as_str())
}

/// A list.
pub fn dynamo_l(items: &Vec<ScriptValue>) -> (r: Result<DynamoValue, String>)
    ensures
        match attributes_of(scripts(items@)) {
            Some(s) => r is Ok && r->Ok_0@ == Attr::L(s),
            None => r is Err && r->Err_0@ == unconverted("value"@),
        },
{
    match list_to_attributes(items) {
        Ok(list) => Ok(make_list(list)),
        Err(e) => Err(not_converted("value", e)),
    }
}

/// A map.
pub fn dynamo_m(object: &Vec<(String, ScriptValue)>) -> (r: Result<DynamoValue, String>)
    ensures
        match item_of(fields(object@)) {
            Some(s) => r is Ok && r->Ok_0@ == Attr::M(s),
            None => r is Err && r->Err_0@ == unconverted("value"@),
        },
{
    match rune_object_to_item(object) {
        Ok(item) => Ok(make_map(item)),
        Err(e) => Err(not_converted("value", e)),
    }
}

/// A write of a transaction.
#[derive(Debug)]
pub enum TransactWriteItem {
    Put { table_name: String, item: Item, condition_expression: Option<String> },
    Delete { table_name: String, key: Item, condition_expression: Option<String> },
    Update {
        table_name: String,
        key: Item,
        update_expression: String,
        condition_expression: Option<String>,
        expression_attribute_names: Option<StringMap>,
        expression_attribute_values: Option<Item>,
    },
    ConditionCheck {
        table_name: String,
        key: Item,
        condition_expression: String,
        expression_attribute_names: Option<StringMap>,
        expression_attribute_values: Option<Item>,
    },
}

/// A read of a transaction.
#[derive(Debug)]
pub struct TransactGetItem {
    pub table_name: String,
    pub key: Item,
    pub projection_expression: Option<String>,
}

/// A write of a transaction that puts an item.
pub fn transact_put_internal(
    table_name: &str,
    item: Item,
    condition_expression: Option<String>,
) -> (w: TransactWriteItem)
    ensures
        w matches TransactWriteItem::Put { table_name: t, item: i, condition_expression: c }
            && t@ == table_name@ && i == item && c == condition_expression,
{
    TransactWriteItem::Put { table_name: table_name.to_owned(), item, condition_expression }
}

/// A write of a transaction that deletes an item.
pub fn transact_delete_internal(
    table_name: &str,
    key: Item,
    condition_expression: Option<String>,
) -> (w: TransactWriteItem)
    ensures
        w matches TransactWriteItem::Delete { table_name: t, key: k, condition_expression: c }
            && t@ == table_name@ && k == key && c == condition_expression,
{
    TransactWriteItem::Delete { table_name: table_name.to_owned(), key, condition_expression }
}

/// A read of a transaction.
pub fn transact_get_internal(
    table_name: &str,
    key: Item,
    projection_expression: Option<String>,
) -> (g: TransactGetItem)
    ensures
        g.table_name@ == table_name@,
        g.key == key,
        g.projection_expression == projection_expression,
{
    TransactGetItem { table_name: table_name.to_owned(), key, projection_expression }
}

/// A write of a transaction that changes an item.
pub fn transact_update_internal(
    table_name: &str,
    key: Item,
    update_expression: &str,
    condition_expression: Option<String>,
    expression_attribute_names: Option<StringMap>,
    expression_attribute_values: Option<Item>,
) -> (w: TransactWriteItem)
    ensures
        w matches TransactWriteItem::Update {
            table_name: t,
            key: k,
            update_expression: u,
            condition_expression: c,
            expression_attribute_names: n,
            expression_attribute_values: v,
        } && t@ == table_name@ && k == key && u@ == update_expression@ && c
            == condition_expression && n == expression_attribute_names && v
            == expression_attribute_values,
{
    TransactWriteItem::Update {
        table_name: table_name.to_owned(),
        key,
        update_expression: update_expression.to_owned(),
        condition_expression,
        expression_attribute_names,
        expression_attribute_values,
    }
}

/// A check of a condition in a transaction.
pub fn transact_condition_check_internal(
    table_name: &str,
    key: Item,
    condition_expression: &str,
    expression_attribute_names: Option<StringMap>,
    expression_attribute_values: Option<Item>,
) -> (w: TransactWriteItem)
    ensures
        w matches TransactWriteItem::ConditionCheck {
            table_name: t,
            key: k,
            condition_expression: c,
            expression_attribute_names: n,
            expression_attribute_values: v,
        } && t@ == table_name@ && k == key && c@ == condition_expression@ && n
            == expression_attribute_names && v == expression_attribute_values,
{
    TransactWriteItem::ConditionCheck {
        table_name: table_name.to_owned(),
        key,
        condition_expression: condition_expression.to_owned(),
        expression_attribute_names,
        expression_attribute_values,
    }
}

/// A write of a transaction that puts the item of a script.
pub fn dynamo_transact_put(table_name: &str, item: &Vec<(String, ScriptValue)>) -> (r: Result<
    TransactWriteItem,
    String,
>)
    ensures
        match item_of(fields(item@)) {
            Some(s) => r matches Ok(
                TransactWriteItem::Put { table_name: t, item: i, condition_expression: c },
            ) && t@ == table_name@ && attrs(i@) == s && c is None,
            None => r is Err && r->Err_0@ == unconverted("value"@),
        },
{
    match rune_object_to_item(item) {
        Ok(item) => Ok(transact_put_internal(table_name, item, None)),
        Err(e) => Err(not_converted("value", e)),
    }
}

/// A write of a transaction that deletes the item with the key of a script.
pub fn dynamo_transact_delete(table_name: &str, key: &Vec<(String, ScriptValue)>) -> (r: Result<
    TransactWriteItem,
    String,
>)
    ensures
        match item_of(fields(key@)) {
            Some(s) => r matches Ok(
                TransactWriteItem::Delete { table_name: t, key: k, condition_expression: c },
            ) && t@ == table_name@ && attrs(k@) == s && c is None,
            None => r is Err && r->Err_0@ == unconverted("key"@),
        },
{
    match rune_object_to_item(key) {
        Ok(key) => Ok(transact_delete_internal(table_name, key, None)),
        Err(e) => Err(not_converted("key", e)),
    }
}

/// A read of a transaction with the key of a script.
pub fn dynamo_transact_get(table_name: &str, key: &Vec<(String, ScriptValue)>) -> (r: Result<
    TransactGetItem,
    String,
>)
    ensures
        match item_of(fields(key@)) {
            Some(s) => r matches Ok(g) && g.table_name@ == table_name@ && attrs(g.key@) == s
                && g.projection_expression is None,
            None => r is Err && r->Err_0@ == unconverted("key"@),
        },
{
    match rune_object_to_item(key) {
        Ok(key) => Ok(transact_get_internal(table_name, key, None)),
        Err(e) => Err(not_converted("key", e)),
    }
}

/// The item of an optional object: none where there is no object.
pub open spec fn opt_item_of(values: Option<&Vec<(String, ScriptValue)>>) -> Option<
    Option<Attrs>,
> {
    match values {
        None => Some(None),
        Some(v) => match item_of(fields(v@)) {
            Some(s) => Some(Some(s)),
            None => None,
        },
    }
}

/// An optional item holds these attributes.
pub open spec fn holds(item: Option<Item>, s: Option<Attrs>) -> bool {
    match (item, s) {
        (None, None) => true,
        (Some(v), Some(s)) => attrs(v@) == s,
        _ => false,
    }
}

/// Converts an optional object.
fn convert_values(values: Option<&Vec<(String, ScriptValue)>>) -> (r: Result<
    Option<Item>,
    DynamoError,
>)
    ensures
        match opt_item_of(values) {
            Some(s) => r is Ok && holds(r->Ok_0, s),
            None => r is Err && no_attribute(r->Err_0),
        },
{
    match values {
        None => Ok(None),
        Some(v) => match rune_object_to_item(v) {
            Ok(item) => Ok(Some(item)),
            Err(e) => Err(e),
        },
    }
}

/// A write of a transaction that changes the item with the key of a script. The
/// error says whether the key or the values cannot be converted; the key counts first.
pub fn dynamo_transact_update(
    table_name: &str,
    key: &Vec<(String, ScriptValue)>,
    update_expression: &str,
    expression_values: Option<&Vec<(String, ScriptValue)>>,
) -> (r: Result<TransactWriteItem, String>)
    ensures
        match (item_of(fields(key@)), opt_item_of(expression_values)) {
            (Some(s), Some(values)) => r matches Ok(
                TransactWriteItem::Update {
                    table_name: t,
                    key: k,
                    update_expression: u,
                    condition_expression: c,
                    expression_attribute_names: n,
                    expression_attribute_values: v,
                },
            ) && t@ == table_name@ && attrs(k@) == s && u@ == update_expression@ && c is None && n
                is None && holds(v, values),
            (None, _) => r is Err && r->Err_0@ == unconverted("key"@),
            (Some(_), None) => r is Err && r->Err_0@ == unconverted("expression value"@),
        },
{
    let key: Item = match rune_object_to_item(key) {
        Ok(key) => key,
        Err(e) => {
            return Err(not_converted("key", e));
        },
    };
    match convert_values(expression_values) {
        Ok(values) => Ok(
            transact_update_internal(table_name, key, update_expression, None, None, values),
        ),
        Err(e) => Err(not_converted("expression value", e)),
    }
}

/// A check of a condition on the item with the key of a script. The error says
/// whether the key or the values cannot be converted; the key counts first.
pub fn dynamo_transact_condition_check(
    table_name: &str,
    key: &Vec<(String, ScriptValue)>,
    condition_expression: &str,
    expression_values: Option<&Vec<(String, ScriptValue)>>,
) -> (r: Result<TransactWriteItem, String>)
    ensures
        match (item_of(fields(key@)), opt_item_of(expression_values)) {
            (Some(s), Some(values)) => r matches Ok(
                TransactWriteItem::ConditionCheck {
                    table_name: t,
                    key: k,
                    condition_expression: c,
                    expression_attribute_names: n,
                    expression_attribute_values: v,
                },
            ) && t@ == table_name@ && attrs(k@) == s && c@ == condition_expression@ && n is None
                && holds(v, values),
            (None, _) => r is Err && r->Err_0@ == unconverted("key"@),
            (Some(_), None) => r is Err && r->Err_0@ == unconverted("expression value"@),
        },
{
    let key: Item = match rune_object_to_item(key) {
        Ok(key) => key,
        Err(e) => {
            return Err(not_converted("key", e));
        },
    };
    match convert_values(expression_values) {
        Ok(values) => Ok(
            transact_condition_check_internal(table_name, key, condition_expression, None, values),
        ),
        Err(e) => Err(not_converted("expression value", e)),
    }
}

} // verus!
