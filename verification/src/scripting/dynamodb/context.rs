//! What the context of a script keeps: its clients and its prepared operations.

use super::config::DynamoDbConf;
use super::error::{DynamoError, DynamoErrorKind};
use super::options::{invalid_text, unsupported_text, Object};
use super::types::{
    attributes_of, fields, item_to_rune_object, list_to_attributes, object_of, says, scripts,
    Script, ScriptValue,
};
use crate::ipc::alternator_client::AlternatorSessionId;
use crate::ipc::attribute::{
    attr_list, attrs, set_attribute, with_attr, Attr, AttributeValue, Attrs, Item,
};
use crate::ipc::docker::DockerConfig;
use crate::ipc::types::{put_number, put_setting, with_setting};
use crate::number::{decimal, decimal_text};
use crate::string_map::{lemma_to_map, StringMap};
use crate::text::{both, copy_opt, copy_texts, joined, opt_text, texts};
use crate::text_map::TextMap;
use vstd::prelude::*;
use vstd::string::*;

verus! {

/// The kinds of operations.
#[derive(Debug, Clone, Copy, PartialEq, Eq, Structural)]
pub enum OperationType {
    PutItem,
    GetItem,
    DeleteItem,
    UpdateItem,
    Query,
    Scan,
}

/// A template of an operation. The values of its keys come with each execution.
#[derive(Debug)]
pub struct PreparedOperation {
    pub operation_type: OperationType,
    pub table_name: String,
    /// The names of the attributes, or of the values in an expression, that are filled in.
    pub template_keys: Vec<String>,
    pub key_condition_expression: Option<String>,
    pub projection_expression: Option<String>,
    pub limit: Option<i32>,
}

impl PreparedOperation {
    /// The template has these parts.
    pub open spec fn is(
        self,
        operation_type: OperationType,
        table_name: Seq<char>,
        template_keys: Vec<String>,
        condition: Option<Seq<char>>,
        projection_expression: Option<String>,
        limit: Option<i32>,
    ) -> bool {
        &&& self.operation_type == operation_type
        &&& self.table_name@ == table_name
        &&& self.template_keys == template_keys
        &&& opt_text(self.key_condition_expression) == condition
        &&& self.projection_expression == projection_expression
        &&& self.limit == limit
    }
}

/// Two templates have the same parts.
pub open spec fn same_template(a: PreparedOperation, b: PreparedOperation) -> bool {
    &&& a.operation_type == b.operation_type
    &&& a.table_name@ == b.table_name@
    &&& texts(a.template_keys@) == texts(b.template_keys@)
    &&& opt_text(a.key_condition_expression) == opt_text(b.key_condition_expression)
    &&& opt_text(a.projection_expression) == opt_text(b.projection_expression)
    &&& a.limit == b.limit
}

/// A copy of a template.
fn copy_template(op: &PreparedOperation) -> (r: PreparedOperation)
    ensures
        same_template(r, *op),
{
    PreparedOperation {
        operation_type: op.operation_type,
        table_name: op.table_name.clone(),
        template_keys: copy_texts(&op.template_keys),
        key_condition_expression: copy_opt(&op.key_condition_expression),
        projection_expression: copy_opt(&op.projection_expression),
        limit: op.limit,
    }
}

/// Templates have the same names and the same parts.
pub open spec fn same_templates(
    a: Seq<(Seq<char>, PreparedOperation)>,
    b: Seq<(Seq<char>, PreparedOperation)>,
) -> bool {
    a.len() == b.len() && forall|i: int|
        0 <= i < a.len() ==> (#[trigger] a[i]).0 == b[i].0 && same_template(a[i].1, b[i].1)
}

/// A copy of templates.
fn copy_templates(map: &TextMap<PreparedOperation>) -> (r: TextMap<PreparedOperation>)
    ensures
        same_templates(r.items(), map.items()),
{
    let mut r: TextMap<PreparedOperation> = TextMap::new();
    let mut i: usize = 0;
    while i < map.len()
        invariant
            i <= map.items().len(),
            r.items().len() == i,
            same_templates(r.items(), map.items().take(i as int)),
        decreases map.items().len() - i,
    {
        let key: &String = map.key_at(i);
        proof {
            lemma_to_map(r.items(), key@);
            assert forall|j: int| 0 <= j < i implies (#[trigger] r.items()[j]).0 != key@ by {
                assert(r.items()[j].0 == map.items().take(i as int)[j].0);
                assert(map.items()[j].0 != key@);
            }
        }
        let ghost before = r.items();
        let ghost name = key@;
        r.insert(key.clone(), copy_template(map.value_at(i)));
        proof {
            let taken = map.items().take(i + 1);
            assert forall|j: int| 0 <= j < i + 1 implies (#[trigger] r.items()[j]).0 == taken[j].0
                && same_template(r.items()[j].1, taken[j].1) by {
                if j < i {
                    assert(r.items()[j] == before[j]);
                    assert(map.items().take(i as int)[j] == taken[j]);
                }
            }
        }
        i = i + 1;
    }
    assert(map.items().take(i as int) =~= map.items());
    r
}

/// An operation with its values filled in.
#[derive(Debug)]
pub enum Operation {
    Put { table_name: String, item: Item },
    Get { table_name: String, key: Item, projection_expression: Option<String> },
    Delete { table_name: String, key: Item },
    Query {
        table_name: String,
        key_condition_expression: String,
        projection_expression: Option<String>,
        values: Item,
        limit: Option<i32>,
    },
}

/// Names with their values; of a name that occurs twice the last value stays.
pub open spec fn filled(names: Seq<Seq<char>>, values: Seq<Attr>, n: nat) -> Attrs
    decreases n,
{
    if n == 0 {
        Seq::empty()
    } else {
        with_attr(filled(names, values, (n - 1) as nat), names[n - 1], values[n - 1])
    }
}

/// The attributes of a template with values filled in.
pub open spec fn filled_in(op: PreparedOperation, values: Seq<Attr>) -> Attrs {
    filled(texts(op.template_keys@), values, op.template_keys@.len())
}

/// The condition of a template, which is empty where it has none.
pub open spec fn condition_of(op: PreparedOperation) -> Seq<char> {
    match op.key_condition_expression {
        Some(t) => t@,
        None => Seq::empty(),
    }
}

/// What is said of a wrong number of values.
pub open spec fn count_text(wanted: nat, got: nat) -> Seq<char> {
    "Expected "@ + decimal(wanted) + (" values but got "@ + decimal(got))
}

/// Why a template cannot be executed with values.
pub open spec fn template_error(op: PreparedOperation, values: Seq<Script>) -> Option<Seq<char>> {
    match attributes_of(values) {
        None => Some("Failed to convert value: "@ + unsupported_text()),
        Some(l) => if l.len() != op.template_keys@.len() {
            Some(count_text(op.template_keys@.len(), l.len()))
        } else if op.operation_type == OperationType::UpdateItem {
            Some("UpdateItem prepared operations not yet supported"@)
        } else if op.operation_type == OperationType::Scan {
            Some("Scan prepared operations not supported"@)
        } else {
            None
        },
    }
}

impl Operation {
    /// The operation is a template with values filled in.
    pub open spec fn fills(self, op: PreparedOperation, values: Seq<Attr>) -> bool {
        match self {
            Operation::Put { table_name, item } => {
                &&& op.operation_type == OperationType::PutItem
                &&& table_name@ == op.table_name@
                &&& attrs(item@) == filled_in(op, values)
            },
            Operation::Get { table_name, key, projection_expression } => {
                &&& op.operation_type == OperationType::GetItem
                &&& table_name@ == op.table_name@
                &&& attrs(key@) == filled_in(op, values)
                &&& opt_text(projection_expression) == opt_text(op.projection_expression)
            },
            Operation::Delete { table_name, key } => {
                &&& op.operation_type == OperationType::DeleteItem
                &&& table_name@ == op.table_name@
                &&& attrs(key@) == filled_in(op, values)
            },
            Operation::Query {
                table_name,
                key_condition_expression,
                projection_expression,
                values: filled_values,
                limit,
            } => {
                &&& op.operation_type == OperationType::Query
                &&& table_name@ == op.table_name@
                &&& key_condition_expression@ == condition_of(op)
                &&& opt_text(projection_expression) == opt_text(op.projection_expression)
                &&& attrs(filled_values@) == filled_in(op, values)
                &&& limit == op.limit
            },
        }
    }
}

/// Fills values in for names.
fn fill(names: &Vec<String>, values: &Vec<AttributeValue>) -> (item: Item)
    requires
        names@.len() == values@.len(),
    ensures
        attrs(item@) == filled(texts(names@), attr_list(values@), names@.len()),
{
    let mut item: Item = Vec::new();
    let mut i: usize = 0;
    assert(attrs(item@) =~= Seq::empty());
    while i < names.len()
        invariant
            i <= names@.len(),
            names@.len() == values@.len(),
            attrs(item@) == filled(texts(names@), attr_list(values@), i as nat),
        decreases names@.len() - i,
    {
        assert(texts(names@)[i as int] == names@[i as int]@);
        assert(attr_list(values@)[i as int] == values@[i as int]@);
        set_attribute(&mut item, names[i].clone(), values[i].copy());
        i = i + 1;
    }
    item
}

/// Fills values in for the keys of a template.
pub fn fill_template(op: &PreparedOperation, values: &Vec<ScriptValue>) -> (r: Result<
    Operation,
    DynamoError,
>)
    ensures
        match template_error(*op, scripts(values@)) {
            Some(t) => r is Err && says(r->Err_0, t),
            None => r is Ok && r->Ok_0.fills(*op, attributes_of(scripts(values@))->0),
        },
{
    let list: Vec<AttributeValue> = match list_to_attributes(values) {
        Ok(l) => l,
        Err(e) => {
            let reason: String = e.to_string();
            return Err(
                DynamoError::invalid_parameter(both("Failed to convert value: ", reason.as_str())),
            );
        },
    };
    if list.len() != op.template_keys.len() {
        let tail: String = both(" values but got ", decimal_text(list.len() as u64).as_str());
        return Err(
            DynamoError::invalid_parameter(
                joined(
                    "Expected ",
                    decimal_text(op.template_keys.len() as u64).as_str(),
                    tail.as_str(),
                ),
            ),
        );
    }
    match op.operation_type {
        OperationType::PutItem => Ok(
            Operation::Put {
                table_name: op.table_name.clone(),
                item: fill(&op.template_keys, &list),
            },
        ),
        OperationType::GetItem => Ok(
            Operation::Get {
                table_name: op.table_name.clone(),
                key: fill(&op.template_keys, &list),
                projection_expression: copy_opt(&op.projection_expression),
            },
        ),
        OperationType::DeleteItem => Ok(
            Operation::Delete {
                table_name: op.table_name.clone(),
                key: fill(&op.template_keys, &list),
            },
        ),
        OperationType::Query => {
            proof {
                reveal_strlit("");
            }
            assert(""@ =~= Seq::<char>::empty());
            let key_condition_expression: String = match &op.key_condition_expression {
                Some(t) => t.clone(),
                None => "".to_owned(),
            };
            Ok(
                Operation::Query {
                    table_name: op.table_name.clone(),
                    key_condition_expression,
                    projection_expression: copy_opt(&op.projection_expression),
                    values: fill(&op.template_keys, &list),
                    limit: op.limit,
                },
            )
        },
        OperationType::UpdateItem => Err(
            DynamoError::invalid_parameter(
                "UpdateItem prepared operations not yet supported".to_owned(),
            ),
        ),
        OperationType::Scan => Err(
            DynamoError::invalid_parameter("Scan prepared operations not supported".to_owned()),
        ),
    }
}

/// Converts an item that a prepared operation has read.
pub fn prepared_result(item: &Item) -> (r: Result<Object, DynamoError>)
    ensures
        match object_of(attrs(item@)) {
            Ok(m) => r is Ok && fields(r->Ok_0@) == m,
            Err(t) => r is Err && says(r->Err_0, "Failed to convert result: "@ + invalid_text(t)),
        },
{
    match item_to_rune_object(item) {
        Ok(m) => Ok(m),
        Err(e) => {
            let reason: String = e.to_string();
            Err(DynamoError::invalid_parameter(both("Failed to convert result: ", reason.as_str())))
        },
    }
}

/// What scripts reach a database through. A client is whatever sends requests.
pub struct DynamoContext<C> {
    pub default_client: C,
    pub named_clients: TextMap<C>,
    /// The templates by their names.
    pub prepared_operations: TextMap<PreparedOperation>,
    /// The session with an adapter.
    pub ipc_session_id: Option<AlternatorSessionId>,
    /// The number of cycles of the load phase.
    pub load_cycle_count: u64,
}

impl<C> DynamoContext<C> {
    /// A context has everything of another one but its templates.
    pub open spec fn differs_in_templates(self, other: DynamoContext<C>) -> bool {
        &&& self.default_client == other.default_client
        &&& self.named_clients == other.named_clients
        &&& self.ipc_session_id == other.ipc_session_id
        &&& self.load_cycle_count == other.load_cycle_count
    }

    /// A context has one template that another one need not have.
    pub open spec fn has_new_template(self, other: DynamoContext<C>, name: Seq<char>) -> bool {
        self.prepared_operations@ == other.prepared_operations@.insert(
            name,
            self.prepared_operations@[name],
        )
    }

    /// A context with a client and maybe a session with an adapter.
    pub fn new(client: C, ipc_session_id: Option<AlternatorSessionId>) -> (ctx: DynamoContext<C>)
        ensures
            ctx.default_client == client,
            ctx.named_clients@ == Map::<Seq<char>, C>::empty(),
            ctx.prepared_operations@ == Map::<Seq<char>, PreparedOperation>::empty(),
            ctx.ipc_session_id == ipc_session_id,
            ctx.load_cycle_count == 0,
    {
        DynamoContext {
            default_client: client,
            named_clients: TextMap::new(),
            prepared_operations: TextMap::new(),
            ipc_session_id,
            load_cycle_count: 0,
        }
    }

    /// Whether requests go through an adapter.
    pub fn is_using_ipc(&self) -> (r: bool)
        ensures
            r == self.ipc_session_id is Some,
    {
        self.ipc_session_id.is_some()
    }

    /// The client without a name.
    pub fn client(&self) -> (client: &C)
        ensures
            *client == self.default_client,
    {
        &self.default_client
    }

    /// The client with a name.
    pub fn client_named(&self, name: &str) -> (r: Result<&C, DynamoError>)
        ensures
            match r {
                Ok(client) => self.named_clients@.dom().contains(name@) && *client
                    == self.named_clients@[name@],
                Err(e) => !self.named_clients@.dom().contains(name@) && e.is(
                    DynamoErrorKind::ClientNotFound,
                    "Client not found: "@ + name@,
                ),
            },
    {
        match self.named_clients.get(name) {
            Some(client) => Ok(client),
            None => Err(DynamoError::client_not_found(name)),
        }
    }

    /// Gives a client a name. An earlier client of that name is forgotten.
    pub fn add_client(&mut self, name: &str, client: C)
        ensures
            final(self).named_clients@ == old(self).named_clients@.insert(name@, client),
            final(self).default_client == old(self).default_client,
            final(self).prepared_operations@ == old(self).prepared_operations@,
            final(self).ipc_session_id == old(self).ipc_session_id,
            final(self).load_cycle_count == old(self).load_cycle_count,
    {
        self.named_clients.insert(name.to_owned(), client);
    }

    /// Keeps a template. An earlier template of that name is forgotten.
    pub fn store_prepared(&mut self, name: &str, operation: PreparedOperation)
        ensures
            final(self).prepared_operations@ == old(self).prepared_operations@.insert(name@, operation),
            final(self).differs_in_templates(*old(self)),
    {
        self.prepared_operations.insert(name.to_owned(), operation);
    }

    /// The template with a name.
    pub fn get_prepared(&self, name: &str) -> (r: Option<&PreparedOperation>)
        ensures
            r is Some <==> self.prepared_operations@.dom().contains(name@),
            r is Some ==> *r->0 == self.prepared_operations@[name@],
    {
        self.prepared_operations.get(name)
    }

    /// Keeps a template that puts an item.
    pub fn prepare_put_item(&mut self, name: &str, table_name: &str, template_keys: Vec<String>)
        ensures
            final(self).has_new_template(*old(self), name@),
            final(self).prepared_operations@[name@].is(
                OperationType::PutItem,
                table_name@,
                template_keys,
                None,
                None,
                None,
            ),
            final(self).differs_in_templates(*old(self)),
    {
        let op: PreparedOperation = PreparedOperation {
            operation_type: OperationType::PutItem,
            table_name: table_name.to_owned(),
            template_keys,
            key_condition_expression: None,
            projection_expression: None,
            limit: None,
        };
        self.store_prepared(name, op);
    }

    /// Keeps a template that reads an item.
    pub fn prepare_get_item(
        &mut self,
        name: &str,
        table_name: &str,
        template_keys: Vec<String>,
        projection_expression: Option<String>,
    )
        ensures
            final(self).has_new_template(*old(self), name@),
            final(self).prepared_operations@[name@].is(
                OperationType::GetItem,
                table_name@,
                template_keys,
                None,
                projection_expression,
                None,
            ),
            final(self).differs_in_templates(*old(self)),
    {
        let op: PreparedOperation = PreparedOperation {
            operation_type: OperationType::GetItem,
            table_name: table_name.to_owned(),
            template_keys,
            key_condition_expression: None,
            projection_expression,
            limit: None,
        };
        self.store_prepared(name, op);
    }

    /// Keeps a template that queries a table.
    pub fn prepare_query(
        &mut self,
        name: &str,
        table_name: &str,
        key_condition_expression: &str,
        template_keys: Vec<String>,
        projection_expression: Option<String>,
        limit: Option<i32>,
    )
        ensures
            final(self).has_new_template(*old(self), name@),
            final(self).prepared_operations@[name@].is(
                OperationType::Query,
                table_name@,
                template_keys,
                Some(key_condition_expression@),
                projection_expression,
                limit,
            ),
            final(self).differs_in_templates(*old(self)),
    {
        let op: PreparedOperation = PreparedOperation {
            operation_type: OperationType::Query,
            table_name: table_name.to_owned(),
            template_keys,
            key_condition_expression: Some(key_condition_expression.to_owned()),
            projection_expression,
            limit,
        };
        self.store_prepared(name, op);
    }

    /// The operation that the execution of a template makes.
    pub fn execute_prepared(&self, name: &str, values: &Vec<ScriptValue>) -> (r: Result<
        Operation,
        DynamoError,
    >)
        ensures
            if self.prepared_operations@.dom().contains(name@) {
                let op = self.prepared_operations@[name@];
                match template_error(op, scripts(values@)) {
                    Some(t) => r is Err && says(r->Err_0, t),
                    None => r is Ok && r->Ok_0.fills(op, attributes_of(scripts(values@))->0),
                }
            } else {
                r is Err && r->Err_0.is(
                    DynamoErrorKind::PreparedOperationNotFound,
                    "Prepared operation not found: "@ + name@,
                )
            },
    {
        match self.get_prepared(name) {
            Some(op) => fill_template(op, values),
            None => Err(DynamoError::prepared_operation_not_found(name)),
        }
    }
}

impl<C> DynamoContext<C> {
    /// The texts of a list, if it holds nothing else.
    pub fn vec_to_string_vec(vec: &Vec<ScriptValue>) -> (r: Result<Vec<String>, String>)
        ensures
            match r {
                Ok(t) => t@.len() == vec@.len() && forall|i: int|
                    0 <= i < vec@.len() ==> (#[trigger] vec@[i] matches ScriptValue::Text(s)
                        && t@[i]@ == s@),
                Err(message) => message@ == "Expected string values in template"@ && exists|i: int|
                    0 <= i < vec@.len() && !(#[trigger] vec@[i] is Text),
            },
    {
        let mut t: Vec<String> = Vec::new();
        let mut i: usize = 0;
        while i < vec.len()
            invariant
                i <= vec@.len(),
                t@.len() == i,
                forall|j: int|
                    0 <= j < i ==> (#[trigger] vec@[j] matches ScriptValue::Text(s) && t@[j]@ == s@),
            decreases vec@.len() - i,
        {
            match &vec[i] {
                ScriptValue::Text(s) => t.push(s.clone()),
                _ => {
                    assert(!(vec@[i as int] is Text));
                    return Err("Expected string values in template".to_string());
                },
            }
            i = i + 1;
        }
        Ok(t)
    }
}

impl<C: Copy> DynamoContext<C> {
    /// A context for another thread: the same clients, templates and session.
    pub fn clone_for_thread(&self) -> (ctx: DynamoContext<C>)
        ensures
            ctx.default_client == self.default_client,
            ctx.named_clients@ == self.named_clients@,
            same_templates(ctx.prepared_operations.items(), self.prepared_operations.items()),
            ctx.ipc_session_id == self.ipc_session_id,
            ctx.load_cycle_count == self.load_cycle_count,
    {
        DynamoContext {
            default_client: self.default_client,
            named_clients: self.named_clients.copy(),
            prepared_operations: copy_templates(&self.prepared_operations),
            ipc_session_id: self.ipc_session_id,
            load_cycle_count: self.load_cycle_count,
        }
    }
}

/// The time that a driver needed, if it has told one.
pub fn driver_latency(ns: i64) -> (r: Option<u64>)
    ensures
        r == (if ns > 0 {
            Some(ns as u64)
        } else {
            None
        }),
{
    if ns > 0 {
        Some(ns as u64)
    } else {
        None
    }
}

/// The parameters of a session with an adapter.
pub open spec fn adapter_params(conf: DynamoDbConf) -> Map<Seq<char>, Seq<char>> {
    let m = Map::empty();
    let m = with_setting(m, "endpoint"@, opt_text(conf.endpoint));
    let m = m.insert("region"@, conf.region@);
    let m = with_setting(m, "access_key_id"@, opt_text(conf.access_key_id));
    let m = with_setting(m, "secret_access_key"@, opt_text(conf.secret_access_key));
    let m = m.insert("max_connections"@, decimal(conf.max_connections as nat));
    let m = m.insert("connect_timeout_ms"@, decimal(conf.connect_timeout_ms as nat));
    let m = m.insert("request_timeout_ms"@, decimal(conf.read_timeout_ms as nat));
    m.insert("max_retries"@, decimal(conf.max_retries as nat))
}

/// The parameters of a session with an adapter.
pub fn session_params(conf: &DynamoDbConf) -> (map: StringMap)
    ensures
        map@ == adapter_params(*conf),
{
    let mut map: StringMap = StringMap::new();
    put_setting(&mut map, "endpoint", copy_opt(&conf.endpoint));
    map.insert("region".to_owned(), conf.region.clone());
    put_setting(&mut map, "access_key_id", copy_opt(&conf.access_key_id));
    put_setting(&mut map, "secret_access_key", copy_opt(&conf.secret_access_key));
    put_number(&mut map, "max_connections", Some(conf.max_connections as u64));
    put_number(&mut map, "connect_timeout_ms", Some(conf.connect_timeout_ms));
    put_number(&mut map, "request_timeout_ms", Some(conf.read_timeout_ms));
    put_number(&mut map, "max_retries", Some(conf.max_retries as u64));
    map
}

/// The container that an adapter image is started in. It gets the endpoint, if there is one.
pub fn adapter_container(image: &str, socket_path: &str, endpoint: Option<&str>) -> (config:
    DockerConfig)
    ensures
        config.image@ == image@,
        config.socket_path@ == socket_path@,
        config.container_name is None,
        config.socket_env_name@ == "LATTE_ALTERNATOR_SOCKET"@,
        match endpoint {
            Some(url) => config.extra_envs@.len() == 1 && config.extra_envs@[0].0@
                == "LATTE_ALTERNATOR_ENDPOINT"@ && config.extra_envs@[0].1@ == url@,
            None => config.extra_envs@.len() == 0,
        },
{
    let mut extra_envs: Vec<(String, String)> = Vec::new();
    if let Some(url) = endpoint {
        extra_envs.push(("LATTE_ALTERNATOR_ENDPOINT".to_owned(), url.to_owned()));
    }
    DockerConfig {
        image: image.to_owned(),
        socket_path: socket_path.to_owned(),
        container_name: None,
        socket_env_name: "LATTE_ALTERNATOR_SOCKET".to_owned(),
        extra_envs,
    }
}

} // verus!
