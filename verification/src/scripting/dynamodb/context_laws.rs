//! What templates, configurations and errors come to.

use super::batch::{
    flat, flat_all, flat_keys, get_failure, is_full, items_in, read_as, read_as_of, splits,
    write_failure, ByTable,
};
use super::client::{configures, integer_field, low_word, string_field};
use super::config::{DynamoDbCompression, DynamoDbConf};
use super::context::{
    adapter_params, count_text, filled, template_error, OperationType, PreparedOperation,
};
use super::error::{kind_of_lowercase, kind_of_sdk, shows, DynamoError, DynamoErrorKind};
use super::options::Fields;
use super::types::{attributes_of, Script};
use crate::ipc::alternator_client::BatchGetRequestItems;
use crate::driver_adapter::plan::param;
use crate::ipc::attribute::{attr_of, distinct_names, law_set_attribute, Attr};
use crate::number::{decimal, is_digit, law_decimal_spells_number, unsigned_of};
use crate::text::{occurs, opt_text};
use vstd::prelude::*;

verus! {

/// A template is filled in with a value for each of its keys: no name is
/// doubled, a key has the last value that was given for it, and no other name
/// has any.
pub proof fn law_template_is_filled_in(names: Seq<Seq<char>>, values: Seq<Attr>, n: nat)
    requires
        n <= names.len(),
        names.len() == values.len(),
    ensures
        distinct_names(filled(names, values, n)),
        forall|k: int|
            0 <= k < n && (forall|j: int| k < j < n ==> #[trigger] names[j] != names[k])
                ==> attr_of(filled(names, values, n), #[trigger] names[k]) == Some(values[k]),
        forall|name: Seq<char>|
            (forall|k: int| 0 <= k < n ==> #[trigger] names[k] != name) ==> #[trigger] attr_of(
                filled(names, values, n),
                name,
            ) is None,
    decreases n,
{
    if n > 0 {
        let m = (n - 1) as nat;
        law_template_is_filled_in(names, values, m);
        let before = filled(names, values, m);
        let now = filled(names, values, n);
        law_set_attribute(before, names[m as int], values[m as int]);
        assert forall|k: int|
            0 <= k < n && (forall|j: int| k < j < n ==> #[trigger] names[j]
                != names[k]) implies attr_of(now, #[trigger] names[k]) == Some(values[k]) by {
            if k < m {
                assert(names[m as int] != names[k]);
                assert(forall|j: int| k < j < m ==> #[trigger] names[j] != names[k]);
                assert(attr_of(now, names[k]) == attr_of(before, names[k]));
            }
        }
        assert forall|name: Seq<char>|
            (forall|k: int| 0 <= k < n ==> #[trigger] names[k] != name) implies #[trigger] attr_of(
            now,
            name,
        ) is None by {
            assert(names[m as int] != name);
            assert(attr_of(now, name) == attr_of(before, name));
        }
    }
}

/// A text spells a number.
pub open spec fn spells(text: Option<Seq<char>>, n: nat) -> bool {
    text matches Some(t) && unsigned_of(t, n as int) == Some(n as int)
}

/// A number that was written spells itself.
proof fn lemma_spells(n: nat)
    ensures
        unsigned_of(decimal(n), n as int) == Some(n as int),
{
    law_decimal_spells_number(n);
    assert(is_digit(decimal(n)[0]));
}

/// An adapter is told the endpoint and the credentials exactly where they are
/// configured, and always the region and the limits, each under its own name.
#[verifier::spinoff_prover]
#[verifier::rlimit(60)]
pub proof fn law_adapter_is_told_configuration(conf: DynamoDbConf)
    ensures
        param(adapter_params(conf), "endpoint"@) == opt_text(conf.endpoint),
        param(adapter_params(conf), "access_key_id"@) == opt_text(conf.access_key_id),
        param(adapter_params(conf), "secret_access_key"@) == opt_text(conf.secret_access_key),
        param(adapter_params(conf), "region"@) == Some(conf.region@),
        spells(param(adapter_params(conf), "max_connections"@), conf.max_connections as nat),
        spells(param(adapter_params(conf), "connect_timeout_ms"@), conf.connect_timeout_ms as nat),
        spells(param(adapter_params(conf), "request_timeout_ms"@), conf.read_timeout_ms as nat),
        spells(param(adapter_params(conf), "max_retries"@), conf.max_retries as nat),
{
    lemma_spells(conf.max_connections as nat);
    lemma_spells(conf.connect_timeout_ms as nat);
    lemma_spells(conf.read_timeout_ms as nat);
    lemma_spells(conf.max_retries as nat);
    reveal_strlit("endpoint");
    reveal_strlit("access_key_id");
    reveal_strlit("secret_access_key");
    reveal_strlit("region");
    reveal_strlit("max_connections");
    reveal_strlit("connect_timeout_ms");
    reveal_strlit("request_timeout_ms");
    reveal_strlit("max_retries");
    assert("endpoint"@.len() == 8 && "access_key_id"@.len() == 13 && "secret_access_key"@.len()
        == 17 && "region"@.len() == 6 && "max_connections"@.len() == 15
        && "connect_timeout_ms"@.len() == 18 && "request_timeout_ms"@.len() == 18
        && "max_retries"@.len() == 11);
    assert("connect_timeout_ms"@[0] == 'c' && "request_timeout_ms"@[0] == 'r');
}

/// The lowest bits of a small number are the number.
proof fn lemma_small(n: i64)
    requires
        0 <= n <= u32::MAX,
    ensures
        low_word(n) == n,
{
    vstd::arithmetic::div_mod::lemma_small_mod(n as nat, (usize::MAX + 1) as nat);
}

/// A client is configured with what a script says: texts and numbers that are
/// not negative are taken as they are, and gzip is switched on by its name.
pub proof fn law_script_configures_client(s: Fields, conf: DynamoDbConf)
    requires
        configures(s, conf),
    ensures
        conf.enabled,
        opt_text(conf.endpoint) == string_field(s, "endpoint"@),
        string_field(s, "region"@) matches Some(t) ==> conf.region@ == t,
        opt_text(conf.access_key_id) == string_field(s, "access_key_id"@),
        opt_text(conf.secret_access_key) == string_field(s, "secret_access_key"@),
        integer_field(s, "max_connections"@) matches Some(n) ==> 0 <= n <= u32::MAX
            ==> conf.max_connections == n,
        integer_field(s, "connect_timeout_ms"@) matches Some(n) ==> 0 <= n
            ==> conf.connect_timeout_ms == n,
        integer_field(s, "read_timeout_ms"@) matches Some(n) ==> 0 <= n ==> conf.read_timeout_ms
            == n,
        integer_field(s, "max_retries"@) matches Some(n) ==> 0 <= n <= u32::MAX ==> conf.max_retries
            == n,
        integer_field(s, "request_compression_min_size"@) matches Some(n) ==> 0 <= n <= u32::MAX
            ==> conf.compression.request.min_size == n,
        conf.compression.request.algorithm == DynamoDbCompression::Gzip <==> string_field(
            s,
            "request_compression"@,
        ) == Some("gzip"@),
        conf.compression.response.algorithm == DynamoDbCompression::Gzip <==> string_field(
            s,
            "response_compression"@,
        ) == Some("gzip"@),
        conf.compression.response.accept_compression_enabled <==> string_field(
            s,
            "response_compression"@,
        ) == Some("gzip"@),
{
    if let Some(n) = integer_field(s, "max_connections"@) {
        if 0 <= n <= u32::MAX {
            lemma_small(n);
        }
    }
    if let Some(n) = integer_field(s, "request_compression_min_size"@) {
        if 0 <= n <= u32::MAX {
            lemma_small(n);
        }
    }
}

/// A script that says nothing gets the settings that are meant for it.
pub proof fn law_silent_script_gets_defaults(s: Fields, conf: DynamoDbConf)
    requires
        configures(s, conf),
        s.len() == 0,
    ensures
        conf.endpoint is None && conf.access_key_id is None && conf.secret_access_key is None,
        conf.region@ == "us-east-1"@,
        conf.max_connections == 100 && conf.connect_timeout_ms == 5000 && conf.read_timeout_ms
            == 30000 && conf.max_retries == 3,
        conf.compression.request.algorithm == DynamoDbCompression::Off
            && conf.compression.request.min_size == 1024 && conf.compression.response.algorithm
            == DynamoDbCompression::Off,
{
}

/// The kind of an error of a client is one that its text shows, and of those
/// that it shows, the one that counts first; it is another only where it shows none.
pub proof fn law_shown_kind_is_told(message: Seq<char>, debug: Seq<char>)
    ensures
        ({
            let kind = kind_of_sdk(message, debug);
            let missing = shows(message, debug, "ResourceNotFoundException"@);
            let in_use = shows(message, debug, "ResourceInUseException"@);
            let invalid = shows(message, debug, "ValidationException"@);
            let refused = shows(message, debug, "ConditionalCheckFailed"@) || shows(
                message,
                debug,
                "ConditionalCheckFailedException"@,
            );
            let slowed = shows(message, debug, "ProvisionedThroughputExceededException"@);
            let limited = shows(message, debug, "RequestLimitExceeded"@);
            let conflict = shows(message, debug, "TransactionConflictException"@);
            let cancelled = shows(message, debug, "TransactionCanceledException"@);
            let denied = shows(message, debug, "AccessDeniedException"@);
            let internal = shows(message, debug, "InternalServerError"@);
            let unavailable = shows(message, debug, "ServiceUnavailable"@);
            let late = occurs(message, "timeout"@) || occurs(message, "Timeout"@);
            let lost = occurs(message, "connection"@) || occurs(message, "Connection"@);
            let first = missing || in_use || invalid || refused;
            let second = first || slowed || limited || conflict || cancelled;
            let third = second || denied || internal || unavailable;
            &&& kind == DynamoErrorKind::ResourceNotFound <==> missing
            &&& kind == DynamoErrorKind::ResourceInUse <==> in_use && !missing
            &&& kind == DynamoErrorKind::ValidationError <==> invalid && !missing && !in_use
            &&& kind == DynamoErrorKind::ConditionalCheckFailed <==> refused && !missing && !in_use
                && !invalid
            &&& kind == DynamoErrorKind::ProvisionedThroughputExceeded <==> slowed && !first
            &&& kind == DynamoErrorKind::RequestLimitExceeded <==> limited && !slowed && !first
            &&& kind == DynamoErrorKind::TransactionConflict <==> conflict && !limited && !slowed
                && !first
            &&& kind == DynamoErrorKind::TransactionCanceled <==> cancelled && !conflict && !limited
                && !slowed && !first
            &&& kind == DynamoErrorKind::AccessDenied <==> denied && !second
            &&& kind == DynamoErrorKind::InternalServerError <==> internal && !denied && !second
            &&& kind == DynamoErrorKind::ServiceUnavailable <==> unavailable && !internal && !denied
                && !second
            &&& kind == DynamoErrorKind::Timeout <==> late && !third
            &&& kind == DynamoErrorKind::ConnectionError <==> lost && !late && !third
            &&& kind == DynamoErrorKind::Other <==> !lost && !late && !third
        }),
{
}

/// The kind of an error of an adapter is one that its text shows, and of those
/// that it shows, the one that counts first.
pub proof fn law_told_kind_is_shown(t: Seq<char>)
    ensures
        ({
            let kind = kind_of_lowercase(t);
            let refused = occurs(t, "conditionalcheckfailed"@);
            let missing = occurs(t, "resourcenotfound"@) || (occurs(t, "table"@) && occurs(
                t,
                "not found"@,
            ));
            let invalid = occurs(t, "validation"@);
            let slowed = occurs(t, "throughput"@) || occurs(t, "throttl"@);
            let internal = occurs(t, "internal"@);
            let lost = occurs(t, "timeout"@) || occurs(t, "connection"@);
            &&& kind == DynamoErrorKind::ConditionalCheckFailed <==> refused
            &&& kind == DynamoErrorKind::ResourceNotFound <==> missing && !refused
            &&& kind == DynamoErrorKind::ValidationError <==> invalid && !missing && !refused
            &&& kind == DynamoErrorKind::ProvisionedThroughputExceeded <==> slowed && !invalid
                && !missing && !refused
            &&& kind == DynamoErrorKind::InternalServerError <==> internal && !slowed && !invalid
                && !missing && !refused
            &&& kind == DynamoErrorKind::ConnectionError <==> lost && !internal && !slowed
                && !invalid && !missing && !refused
            &&& kind == DynamoErrorKind::Other <==> !lost && !internal && !slowed && !invalid
                && !missing && !refused
        }),
{
}

/// Full chunks hold as many entries as their number times the limit.
proof fn lemma_full_chunks<W>(chunks: Seq<ByTable<W>>, limit: nat)
    requires
        forall|i: int| 0 <= i < chunks.len() ==> is_full(#[trigger] chunks[i], limit),
    ensures
        flat_all(chunks).len() == chunks.len() * limit,
    decreases chunks.len(),
{
    if chunks.len() > 0 {
        let init = chunks.drop_last();
        assert(forall|i: int| 0 <= i < init.len() ==> init[i] == chunks[i]);
        lemma_full_chunks(init, limit);
        assert(is_full(chunks[chunks.len() - 1], limit));
        assert((init.len() + 1) * limit == init.len() * limit + limit) by (nonlinear_arith);
    } else {
        assert(chunks.len() * limit == 0) by (nonlinear_arith)
            requires
                chunks.len() == 0,
        ;
    }
}

/// Entries are split into as few chunks as the limit allows: none where there
/// are no entries, and otherwise all of them full but the last, which is not empty.
pub proof fn law_chunks_are_as_few_as_can_be<W>(
    chunks: Seq<ByTable<W>>,
    entries: Seq<(Seq<char>, W)>,
    limit: nat,
)
    requires
        limit > 0,
        splits(chunks, entries, limit),
    ensures
        entries.len() == 0 <==> chunks.len() == 0,
        chunks.len() > 0 ==> (chunks.len() - 1) * limit < entries.len() <= chunks.len() * limit,
        flat_all(chunks).len() == entries.len(),
        forall|i: int| 0 <= i < entries.len() ==> #[trigger] flat_all(chunks)[i] == entries[i],
{
    if chunks.len() > 0 {
        let init = chunks.drop_last();
        assert(forall|i: int| 0 <= i < init.len() ==> init[i] == chunks[i]);
        lemma_full_chunks(init, limit);
        let last = chunks[chunks.len() - 1];
        assert(0 < flat(last@).len() <= limit);
        assert(flat_all(chunks) == flat_all(init) + flat(last@));
        assert(chunks.len() * limit == (chunks.len() - 1) * limit + limit) by (nonlinear_arith);
    }
}

/// The entries of groups are those of each group under the name of its table,
/// group behind group.
pub proof fn law_entries_follow_groups<W>(
    s: Seq<(String, Vec<W>)>,
    t: Seq<(String, Vec<W>)>,
    group: (String, Vec<W>),
)
    ensures
        flat(s + t) == flat(s) + flat(t),
        flat(seq![group]).len() == group.1@.len(),
        forall|i: int|
            0 <= i < group.1@.len() ==> #[trigger] flat(seq![group])[i] == (
                group.0@,
                group.1@[i],
            ),
    decreases t.len(),
{
    assert(seq![group].drop_last() =~= Seq::empty());
    assert(flat(seq![group].drop_last()).len() == 0);
    if t.len() == 0 {
        assert(s + t =~= s);
        assert(flat(s) + flat(t) =~= flat(s));
    } else {
        law_entries_follow_groups(s, t.drop_last(), group);
        assert((s + t).drop_last() =~= s + t.drop_last());
        assert(flat(s + t) =~= flat(s) + flat(t));
    }
}

/// The keys of reads are those of each read under the name of its table, read
/// behind read.
pub proof fn law_keys_follow_reads(
    s: Seq<(String, BatchGetRequestItems)>,
    t: Seq<(String, BatchGetRequestItems)>,
    read: (String, BatchGetRequestItems),
)
    ensures
        flat_keys(s + t) == flat_keys(s) + flat_keys(t),
        flat_keys(seq![read]).len() == read.1.keys@.len(),
        forall|i: int|
            0 <= i < read.1.keys@.len() ==> #[trigger] flat_keys(seq![read])[i] == (
                read.0@,
                read.1.keys@[i],
            ),
    decreases t.len(),
{
    assert(seq![read].drop_last() =~= Seq::empty());
    assert(flat_keys(seq![read].drop_last()).len() == 0);
    if t.len() == 0 {
        assert(s + t =~= s);
        assert(flat_keys(s) + flat_keys(t) =~= flat_keys(s));
    } else {
        law_keys_follow_reads(s, t.drop_last(), read);
        assert((s + t).drop_last() =~= s + t.drop_last());
        assert(flat_keys(s + t) =~= flat_keys(s) + flat_keys(t));
    }
}

/// The items of a table are those of every response that names it, response
/// behind response.
pub proof fn law_items_follow_responses<T>(
    s: Seq<(String, Vec<T>)>,
    t: Seq<(String, Vec<T>)>,
    response: (String, Vec<T>),
    table: Seq<char>,
)
    ensures
        items_in(s + t, table) == items_in(s, table) + items_in(t, table),
        items_in(seq![response], table) == (if response.0@ == table {
            response.1@
        } else {
            Seq::empty()
        }),
    decreases t.len(),
{
    assert(seq![response].drop_last() =~= Seq::empty());
    assert(items_in(seq![response].drop_last(), table) =~= Seq::empty());
    assert(seq![response].last() == response);
    if response.0@ == table {
        assert(Seq::empty() + response.1@ =~= response.1@);
    }
    if t.len() == 0 {
        assert(s + t =~= s);
        assert(items_in(s, table) + items_in(t, table) =~= items_in(s, table));
    } else {
        law_items_follow_responses(s, t.drop_last(), response, table);
        assert((s + t).drop_last() =~= s + t.drop_last());
        assert(items_in(s + t, table) =~= items_in(s, table) + items_in(t, table));
    }
}

/// A template is executed exactly if all values become attribute values, there
/// is one for each of its keys, and its kind can be prepared.
pub proof fn law_templates_are_refused(op: PreparedOperation, values: Seq<Script>)
    ensures
        template_error(op, values) is None <==> (attributes_of(values) matches Some(l) && l.len()
            == op.template_keys@.len()) && op.operation_type != OperationType::UpdateItem
            && op.operation_type != OperationType::Scan,
        attributes_of(values) matches Some(l) ==> l.len() != op.template_keys@.len()
            ==> template_error(op, values) == Some(count_text(op.template_keys@.len(), l.len())),
{
}

/// After an error an operation is repeated exactly if the service was slowed
/// down, limited, late, broken or not there.
pub proof fn law_temporary_errors(e: DynamoError)
    ensures
        e.temporary() <==> e.kind == DynamoErrorKind::ProvisionedThroughputExceeded || e.kind
            == DynamoErrorKind::RequestLimitExceeded || e.kind
            == DynamoErrorKind::InternalServerError || e.kind == DynamoErrorKind::ServiceUnavailable
            || e.kind == DynamoErrorKind::Timeout,
{
}

/// What is said of a batch that failed tells how much is left and how often
/// it was tried again; of values that do not fit, how many there should be and
/// how many there are.
pub proof fn law_failures_tell_their_numbers(left: nat, tries: u32, wanted: nat, got: nat)
    ensures
        exists|a: Seq<char>, b: Seq<char>|
            spells(Some(a), left) && spells(Some(b), tries as nat) && write_failure(left, tries)
                == #[trigger] ("Batch write failed: "@ + a + (" unprocessed items after "@ + b
                + " retries"@)),
        exists|a: Seq<char>, b: Seq<char>|
            spells(Some(a), left) && spells(Some(b), tries as nat) && get_failure(left, tries)
                == #[trigger] ("Batch get failed: "@ + a + (" tables with unprocessed keys after "@
                + b + " retries"@)),
        exists|a: Seq<char>, b: Seq<char>|
            spells(Some(a), wanted) && spells(Some(b), got) && count_text(wanted, got)
                == #[trigger] ("Expected "@ + a + (" values but got "@ + b)),
{
    lemma_spells(left);
    lemma_spells(tries as nat);
    lemma_spells(wanted);
    lemma_spells(got);
    let (a, b) = (decimal(left), decimal(tries as nat));
    assert(write_failure(left, tries) == "Batch write failed: "@ + a + (
    " unprocessed items after "@ + b + " retries"@));
    assert(get_failure(left, tries) == "Batch get failed: "@ + a + (
    " tables with unprocessed keys after "@ + b + " retries"@));
    assert(count_text(wanted, got) == "Expected "@ + decimal(wanted) + (" values but got "@
        + decimal(got)));
}

/// A table is read as the first of its requests asks, and as plainly as can be
/// where none names it.
pub proof fn law_first_request_of_table_counts(
    s: Seq<(String, BatchGetRequestItems)>,
    name: Seq<char>,
)
    ensures
        forall|i: int|
            0 <= i < s.len() && (#[trigger] s[i]).0@ == name && (forall|j: int|
                0 <= j < i ==> (#[trigger] s[j]).0@ != name) ==> read_as_of(s, name) == read_as(
                s[i].1,
            ),
        (forall|i: int| 0 <= i < s.len() ==> (#[trigger] s[i]).0@ != name) ==> read_as_of(
            s,
            name,
        ).projection is None && read_as_of(s, name).names is None,
    decreases s.len(),
{
    if s.len() > 0 {
        let more = s.skip(1);
        law_first_request_of_table_counts(more, name);
        assert(forall|i: int| 0 <= i < more.len() ==> more[i] == s[i + 1]);
        assert forall|i: int|
            0 <= i < s.len() && (#[trigger] s[i]).0@ == name && (forall|j: int|
                0 <= j < i ==> (#[trigger] s[j]).0@ != name) implies read_as_of(s, name)
            == read_as(s[i].1) by {
            if i > 0 {
                assert(s[0].0@ != name);
                assert(more[i - 1] == s[i]);
                assert forall|j: int| 0 <= j < i - 1 implies (#[trigger] more[j]).0@ != name by {
                    assert(s[j + 1].0@ != name);
                }
            }
        }
    }
}

} // verus!
