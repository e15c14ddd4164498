//! How large batches are split into requests, and when a request of a batch
//! is repeated.

use super::error::{DynamoError, DynamoErrorKind};
use crate::ipc::alternator_client::{BatchGetRequestItems, BatchWriteRequest};
use crate::ipc::attribute::Item;
use crate::number::{decimal, decimal_text};
use crate::string_map::StringMap;
use crate::text::{joined, same_text};
use crate::text_map::TextMap;
use vstd::prelude::*;
use vstd::string::*;

verus! {

/// The largest number of writes in a request.
pub const BATCH_WRITE_MAX_ITEMS: usize = 25;

/// The largest number of keys in a request.
pub const BATCH_GET_MAX_KEYS: usize = 100;

/// Entries by the names of their tables.
pub type ByTable<W> = Vec<(String, Vec<W>)>;

/// The entries of one table, each with the name of the table.
pub open spec fn named<W>(table: Seq<char>, entries: Seq<W>) -> Seq<(Seq<char>, W)> {
    Seq::new(entries.len(), |i: int| (table, entries[i]))
}

/// All entries, each with the name of its table.
pub open spec fn flat<W>(s: Seq<(String, Vec<W>)>) -> Seq<(Seq<char>, W)>
    decreases s.len(),
{
    if s.len() == 0 {
        Seq::empty()
    } else {
        flat(s.drop_last()) + named(s.last().0@, s.last().1@)
    }
}

/// The entries of all requests, one behind the other.
pub open spec fn flat_all<W>(s: Seq<ByTable<W>>) -> Seq<(Seq<char>, W)>
    decreases s.len(),
{
    if s.len() == 0 {
        Seq::empty()
    } else {
        flat_all(s.drop_last()) + flat(s.last()@)
    }
}

/// No table occurs twice.
pub open spec fn tables_differ<W>(s: Seq<(String, Vec<W>)>) -> bool {
    forall|i: int, j: int| 0 <= i < j < s.len() ==> (#[trigger] s[i]).0@ != (#[trigger] s[j]).0@
}

/// Every table has entries.
pub open spec fn none_empty<W>(s: Seq<(String, Vec<W>)>) -> bool {
    forall|i: int| 0 <= i < s.len() ==> (#[trigger] s[i]).1@.len() > 0
}

/// A request has as many entries as the limit allows.
pub open spec fn is_full<W>(chunk: ByTable<W>, limit: nat) -> bool {
    flat(chunk@).len() == limit
}

/// Requests split entries: together they hold all of them in their order,
/// each but the last as many as the limit allows, and none is empty.
pub open spec fn splits<W>(
    chunks: Seq<ByTable<W>>,
    entries: Seq<(Seq<char>, W)>,
    limit: nat,
) -> bool {
    &&& flat_all(chunks) == entries
    &&& forall|i: int| 0 <= i < chunks.len() - 1 ==> is_full(#[trigger] chunks[i], limit)
    &&& forall|i: int|
        0 <= i < chunks.len() ==> 0 < flat((#[trigger] chunks[i])@).len() <= limit && none_empty(
            chunks[i]@,
        )
}

/// Appending a table appends its entries.
proof fn lemma_flat_push<W>(s: Seq<(String, Vec<W>)>, last: (String, Vec<W>))
    ensures
        flat(s.push(last)) == flat(s) + named(last.0@, last.1@),
{
    assert(s.push(last).drop_last() =~= s);
}

/// Appending a request appends its entries.
proof fn lemma_flat_all_push<W>(s: Seq<ByTable<W>>, last: ByTable<W>)
    ensures
        flat_all(s.push(last)) == flat_all(s) + flat(last@),
{
    assert(s.push(last).drop_last() =~= s);
}

/// The number of all entries.
pub fn count_entries<W>(s: &ByTable<W>) -> (n: usize)
    requires
        flat(s@).len() <= usize::MAX,
    ensures
        n == flat(s@).len(),
{
    let mut n: usize = 0;
    let mut i: usize = 0;
    assert(s@.take(0) =~= Seq::empty());
    while i < s.len()
        invariant
            i <= s@.len(),
            flat(s@).len() <= usize::MAX,
            n == flat(s@.take(i as int)).len(),
        decreases s@.len() - i,
    {
        proof {
            assert(s@.take(i + 1).drop_last() =~= s@.take(i as int));
            lemma_flat_prefix(s@, i + 1);
        }
        n = n + s[i].1.len();
        i = i + 1;
    }
    assert(s@.take(i as int) =~= s@);
    n
}

/// Some of the tables have no more entries than all of them.
proof fn lemma_flat_prefix<W>(s: Seq<(String, Vec<W>)>, n: int)
    requires
        0 <= n <= s.len(),
    ensures
        flat(s.take(n)).len() <= flat(s).len(),
    decreases s.len() - n,
{
    if n < s.len() {
        lemma_flat_prefix(s, n + 1);
        assert(s.take(n + 1).drop_last() =~= s.take(n));
    } else {
        assert(s.take(n) =~= s);
    }
}

/// Adds an entry to a request: to the last table where it is the entry's, else to a new one.
fn add_entry<W>(chunk: &mut ByTable<W>, table: &String, entry: W)
    requires
        none_empty(old(chunk)@),
    ensures
        flat(final(chunk)@) == flat(old(chunk)@).push((table@, entry)),
        none_empty(final(chunk)@),
        final(chunk)@.len() > 0,
        final(chunk)@.last().0@ == table@,
        old(chunk)@.len() > 0 && old(chunk)@.last().0@ == table@ ==> final(chunk)@.len() == old(chunk)@.len(),
        !(old(chunk)@.len() > 0 && old(chunk)@.last().0@ == table@) ==> final(chunk)@.len() == old(chunk)@.len() + 1,
        forall|i: int|
            0 <= i < old(chunk)@.len() ==> (#[trigger] final(chunk)@[i]).0@ == old(chunk)@[i].0@,
{
    let ghost before = chunk@;
    let n: usize = chunk.len();
    if n > 0 && same_text(chunk[n - 1].0.as_str(), table.as_str()) {
        let mut last: (String, Vec<W>) = match chunk.pop() {
            Some(last) => last,
            None => (table.clone(), Vec::new()),
        };
        let ghost entries = last.1@;
        last.1.push(entry);
        proof {
            assert(chunk@ =~= before.drop_last());
            lemma_flat_push(chunk@, last);
            assert(named(table@, last.1@) =~= named(table@, entries).push((table@, entry)));
            assert(flat(before) == flat(before.drop_last()) + named(table@, entries));
            assert(flat(chunk@) + named(table@, last.1@) =~= flat(before).push((table@, entry)));
        }
        chunk.push(last);
    } else {
        let mut entries: Vec<W> = Vec::new();
        entries.push(entry);
        let last: (String, Vec<W>) = (table.clone(), entries);
        proof {
            lemma_flat_push(chunk@, last);
            assert(named(table@, last.1@) =~= seq![(table@, entry)]);
            assert(flat(before) + seq![(table@, entry)] =~= flat(before).push((table@, entry)));
        }
        chunk.push(last);
    }
}

/// A name is that of one of the first `k` tables.
pub open spec fn is_among<W>(name: Seq<char>, s: Seq<(String, Vec<W>)>, k: int) -> bool {
    exists|j: int| 0 <= j < k && (#[trigger] s[j]).0@ == name
}

/// The tables of a request differ: all but the last are among the first `k`,
/// and the last is among them or has the name `table`.
spec fn in_order<W>(
    chunk: Seq<(String, Vec<W>)>,
    s: Seq<(String, Vec<W>)>,
    k: int,
    table: Seq<char>,
) -> bool {
    &&& tables_differ(chunk)
    &&& forall|i: int| 0 <= i < chunk.len() - 1 ==> is_among((#[trigger] chunk[i]).0@, s, k)
    &&& chunk.len() > 0 ==> is_among(chunk.last().0@, s, k) || chunk.last().0@ == table
}

/// The tables of a request differ, and all are among the first `k`.
spec fn settled<W>(chunk: Seq<(String, Vec<W>)>, s: Seq<(String, Vec<W>)>, k: int) -> bool {
    &&& tables_differ(chunk)
    &&& forall|i: int| 0 <= i < chunk.len() ==> is_among((#[trigger] chunk[i]).0@, s, k)
}

/// An entry of the `k`-th table keeps the tables of a request different.
proof fn lemma_in_order<W>(
    before: Seq<(String, Vec<W>)>,
    now: Seq<(String, Vec<W>)>,
    s: Seq<(String, Vec<W>)>,
    k: int,
    table: Seq<char>,
)
    requires
        in_order(before, s, k, table),
        tables_differ(s),
        0 <= k < s.len(),
        s[k].0@ == table,
        now.len() > 0,
        now.last().0@ == table,
        before.len() > 0 && before.last().0@ == table ==> now.len() == before.len(),
        !(before.len() > 0 && before.last().0@ == table) ==> now.len() == before.len() + 1,
        forall|i: int| 0 <= i < before.len() ==> (#[trigger] now[i]).0@ == before[i].0@,
    ensures
        in_order(now, s, k, table),
{
    assert forall|i: int| 0 <= i < now.len() - 1 implies is_among((#[trigger] now[i]).0@, s, k) by {
        assert(now[i].0@ == before[i].0@);
        if i < before.len() - 1 {
            assert(is_among(before[i].0@, s, k));
        }
    }
    assert forall|i: int, j: int| 0 <= i < j < now.len() implies (#[trigger] now[i]).0@ != (
    #[trigger] now[j]).0@ by {
        if j < before.len() {
            assert(before[i].0@ != before[j].0@);
            assert(now[j].0@ == before[j].0@);
            assert(now[i].0@ == before[i].0@);
        } else {
            assert(is_among(now[i].0@, s, k));
            let m = choose|m: int| 0 <= m < k && (#[trigger] s[m]).0@ == now[i].0@;
            assert(s[m].0@ != s[k].0@);
        }
    }
}

/// Where all entries of the `k`-th table are taken up, the tables of a request are among one more.
proof fn lemma_next_table<W>(
    chunk: Seq<(String, Vec<W>)>,
    s: Seq<(String, Vec<W>)>,
    k: int,
    table: Seq<char>,
)
    requires
        in_order(chunk, s, k, table),
        0 <= k < s.len(),
        s[k].0@ == table,
    ensures
        settled(chunk, s, k + 1),
{
    assert forall|i: int| 0 <= i < chunk.len() implies is_among(
        (#[trigger] chunk[i]).0@,
        s,
        k + 1,
    ) by {
        let name = chunk[i].0@;
        if is_among(name, s, k) {
            let m = choose|m: int| 0 <= m < k && (#[trigger] s[m]).0@ == name;
            assert(s[m].0@ == name);
        } else {
            assert(i == chunk.len() - 1);
            assert(s[k].0@ == name);
        }
    }
}

/// Splits entries into requests of at most `limit` entries. Where no table
/// occurs twice, none does in a request.
pub fn split_into_chunks<W>(request_items: ByTable<W>, limit: usize) -> (chunks: Vec<ByTable<W>>)
    requires
        limit > 0,
    ensures
        splits(chunks@, flat(request_items@), limit as nat),
        tables_differ(request_items@) ==> forall|i: int|
            0 <= i < chunks@.len() ==> tables_differ((#[trigger] chunks@[i])@),
{
    let ghost input = request_items@;
    let mut chunks: Vec<ByTable<W>> = Vec::new();
    let mut current: ByTable<W> = Vec::new();
    let mut count: usize = 0;
    assert(flat_all(chunks@) + flat(current@) =~= flat(input.take(0)));
    for group in it: request_items
        invariant
            it.seq() == input,
            limit > 0,
            count == flat(current@).len(),
            count <= limit,
            none_empty(current@),
            flat_all(chunks@) + flat(current@) == flat(input.take(it.index() as int)),
            forall|i: int| 0 <= i < chunks@.len() ==> is_full(#[trigger] chunks@[i], limit as nat),
            forall|i: int| 0 <= i < chunks@.len() ==> none_empty((#[trigger] chunks@[i])@),
            tables_differ(input) ==> settled(current@, input, it.index() as int),
            tables_differ(input) ==> forall|i: int|
                0 <= i < chunks@.len() ==> tables_differ((#[trigger] chunks@[i])@),
    {
        let ghost done = flat(input.take(it.index() as int));
        let ghost k = it.index() as int;
        let (table, requests): (String, Vec<W>) = group;
        let ghost entries = requests@;
        assert(named(table@, entries.take(0)) =~= Seq::empty());
        assert(done + Seq::empty() =~= done);
        for request in it2: requests
            invariant
                it2.seq() == entries,
                limit > 0,
                count == flat(current@).len(),
                count <= limit,
                none_empty(current@),
                flat_all(chunks@) + flat(current@) == done + named(
                    table@,
                    entries.take(it2.index() as int),
                ),
                forall|i: int|
                    0 <= i < chunks@.len() ==> is_full(#[trigger] chunks@[i], limit as nat),
                forall|i: int| 0 <= i < chunks@.len() ==> none_empty((#[trigger] chunks@[i])@),
                0 <= k < input.len(),
                input[k].0@ == table@,
                tables_differ(input) ==> in_order(current@, input, k, table@),
                tables_differ(input) ==> forall|i: int|
                    0 <= i < chunks@.len() ==> tables_differ((#[trigger] chunks@[i])@),
        {
            let ghost sum = flat_all(chunks@) + flat(current@);
            if count >= limit {
                let mut full: ByTable<W> = Vec::new();
                std::mem::swap(&mut full, &mut current);
                proof {
                    lemma_flat_all_push(chunks@, full);
                    assert(flat(current@) =~= Seq::empty());
                }
                chunks.push(full);
                count = 0;
                assert(flat_all(chunks@) + flat(current@) =~= sum);
            }
            let ghost before = flat(current@);
            let ghost chunk_before = current@;
            add_entry(&mut current, &table, request);
            count = count + 1;
            proof {
                if tables_differ(input) {
                    lemma_in_order(chunk_before, current@, input, k, table@);
                }
                let n = it2.index() as int;
                assert(entries.take(n + 1) =~= entries.take(n).push(request));
                assert(named(table@, entries.take(n + 1)) =~= named(table@, entries.take(n)).push(
                    (table@, request),
                ));
                assert(flat_all(chunks@) + before.push((table@, request)) =~= sum.push(
                    (table@, request),
                ));
                assert(done + named(table@, entries.take(n)).push((table@, request)) =~= (done
                    + named(table@, entries.take(n))).push((table@, request)));
            }
        }
        proof {
            if tables_differ(input) {
                lemma_next_table(current@, input, k, table@);
            }
            assert(entries.take(entries.len() as int) =~= entries);
            assert(input.take(k + 1).drop_last() =~= input.take(k));
            assert(input.take(k + 1).last() == group);
        }
    }
    assert(input.take(input.len() as int) =~= input);
    if current.len() > 0 {
        proof {
            lemma_flat_all_push(chunks@, current);
            lemma_some_entries(current@);
        }
        chunks.push(current);
    } else {
        assert(flat(current@) =~= Seq::empty());
        assert(flat_all(chunks@) + flat(current@) =~= flat_all(chunks@));
    }
    chunks
}

/// A request with tables that all have entries has entries.
proof fn lemma_some_entries<W>(s: Seq<(String, Vec<W>)>)
    requires
        none_empty(s),
        s.len() > 0,
    ensures
        flat(s).len() > 0,
{
    assert(s.last().1@.len() > 0);
}

/// Splits writes into requests. Where one request holds them all, they are sent as they are.
pub fn plan_writes(request_items: ByTable<BatchWriteRequest>) -> (chunks: Vec<
    ByTable<BatchWriteRequest>,
>)
    requires
        flat(request_items@).len() <= usize::MAX,
    ensures
        if flat(request_items@).len() <= BATCH_WRITE_MAX_ITEMS {
            chunks@ == seq![request_items]
        } else {
            splits(chunks@, flat(request_items@), BATCH_WRITE_MAX_ITEMS as nat) && (tables_differ(
                request_items@,
            ) ==> forall|i: int|
                0 <= i < chunks@.len() ==> tables_differ((#[trigger] chunks@[i])@))
        },
{
    if count_entries(&request_items) <= BATCH_WRITE_MAX_ITEMS {
        let mut chunks: Vec<ByTable<BatchWriteRequest>> = Vec::new();
        chunks.push(request_items);
        assert(chunks@ =~= seq![request_items]);
        return chunks;
    }
    split_into_chunks(request_items, BATCH_WRITE_MAX_ITEMS)
}

/// Reads by the names of their tables.
pub type Gets = Vec<(String, BatchGetRequestItems)>;

/// All keys, each with the name of its table.
pub open spec fn flat_keys(s: Seq<(String, BatchGetRequestItems)>) -> Seq<(Seq<char>, Item)>
    decreases s.len(),
{
    if s.len() == 0 {
        Seq::empty()
    } else {
        flat_keys(s.drop_last()) + named(s.last().0@, s.last().1.keys@)
    }
}

/// The keys of all requests, one behind the other.
pub open spec fn all_flat_keys(s: Seq<Gets>) -> Seq<(Seq<char>, Item)>
    decreases s.len(),
{
    if s.len() == 0 {
        Seq::empty()
    } else {
        all_flat_keys(s.drop_last()) + flat_keys(s.last()@)
    }
}

/// How a table is read: the projection and the names of attributes.
pub struct ReadAs {
    pub projection: Option<Seq<char>>,
    pub names: Option<Seq<(Seq<char>, Seq<char>)>>,
}

/// How the keys of an entry are read.
pub open spec fn read_as(items: BatchGetRequestItems) -> ReadAs {
    ReadAs {
        projection: match items.projection_expression {
            Some(t) => Some(t@),
            None => None,
        },
        names: match items.expression_attribute_names {
            Some(m) => Some(m.items()),
            None => None,
        },
    }
}

/// How the first table with a name is read.
pub open spec fn read_as_of(s: Seq<(String, BatchGetRequestItems)>, name: Seq<char>) -> ReadAs
    decreases s.len(),
{
    if s.len() == 0 {
        ReadAs { projection: None, names: None }
    } else if s[0].0@ == name {
        read_as(s[0].1)
    } else {
        read_as_of(s.skip(1), name)
    }
}

/// The reads of a request that a larger one was split into: each table is
/// read as it was asked for, but never with strong consistency.
pub open spec fn reads_like(chunk: Seq<(String, BatchGetRequestItems)>, s: Seq<
    (String, BatchGetRequestItems),
>) -> bool {
    forall|i: int|
        0 <= i < chunk.len() ==> read_as((#[trigger] chunk[i]).1) == read_as_of(s, chunk[i].0@)
            && !chunk[i].1.consistent_read
}

/// No table is read twice in a request.
pub open spec fn reads_differ(s: Seq<(String, BatchGetRequestItems)>) -> bool {
    forall|i: int, j: int| 0 <= i < j < s.len() ==> (#[trigger] s[i]).0@ != (#[trigger] s[j]).0@
}

/// Requests split keys: together they hold all of them in their order, each
/// but the last as many as the limit allows, and none is empty. Where no table
/// is read twice, none is within a request.
pub open spec fn splits_keys(chunks: Seq<Gets>, s: Seq<(String, BatchGetRequestItems)>, limit: nat) -> bool {
    &&& all_flat_keys(chunks) == flat_keys(s)
    &&& forall|i: int|
        0 <= i < chunks.len() - 1 ==> flat_keys((#[trigger] chunks[i])@).len() == limit
    &&& forall|i: int|
        0 <= i < chunks.len() ==> 0 < flat_keys((#[trigger] chunks[i])@).len() <= limit
            && reads_like(chunks[i]@, s)
    &&& reads_differ(s) ==> forall|i: int|
        0 <= i < chunks.len() ==> reads_differ((#[trigger] chunks[i])@)
}

/// How a table is read.
struct Options {
    table: String,
    projection_expression: Option<String>,
    expression_attribute_names: Option<StringMap>,
}

/// How a table is read.
spec fn options_as(o: Options) -> ReadAs {
    ReadAs {
        projection: match o.projection_expression {
            Some(t) => Some(t@),
            None => None,
        },
        names: match o.expression_attribute_names {
            Some(m) => Some(m.items()),
            None => None,
        },
    }
}

/// Options are those of the entries, one by one.
spec fn options_match(options: Seq<Options>, s: Seq<(String, BatchGetRequestItems)>) -> bool {
    options.len() == s.len() && forall|i: int|
        0 <= i < s.len() ==> (#[trigger] options[i]).table@ == s[i].0@ && options_as(options[i])
            == read_as(s[i].1)
}

/// The keys of a table with the options that it is read with.
fn with_options(table: String, keys: Vec<Item>, options: &Vec<Options>, Ghost(s): Ghost<
    Seq<(String, BatchGetRequestItems)>,
>) -> (r: (String, BatchGetRequestItems))
    requires
        options_match(options@, s),
    ensures
        r.0 == table,
        r.1.keys == keys,
        !r.1.consistent_read,
        read_as(r.1) == read_as_of(s, table@),
{
    let mut i: usize = 0;
    assert(s.skip(0) =~= s);
    while i < options.len()
        invariant
            i <= options@.len(),
            options_match(options@, s),
            read_as_of(s, table@) == read_as_of(s.skip(i as int), table@),
        decreases options@.len() - i,
    {
        assert(s.skip(i as int)[0] == s[i as int]);
        assert(s.skip(i as int).skip(1) =~= s.skip(i + 1));
        let o: &Options = &options[i];
        if same_text(o.table.as_str(), table.as_str()) {
            let projection_expression: Option<String> = match &o.projection_expression {
                Some(t) => Some(t.clone()),
                None => None,
            };
            let expression_attribute_names: Option<StringMap> = match &o.expression_attribute_names {
                Some(m) => Some(m.copy()),
                None => None,
            };
            let items: BatchGetRequestItems = BatchGetRequestItems {
                keys,
                consistent_read: false,
                projection_expression,
                expression_attribute_names,
            };
            assert(read_as(items) == options_as(options@[i as int]));
            return (table, items);
        }
        i = i + 1;
    }
    assert(s.skip(i as int) =~= Seq::empty());
    (
        table,
        BatchGetRequestItems {
            keys,
            consistent_read: false,
            projection_expression: None,
            expression_attribute_names: None,
        },
    )
}

/// Makes reads of the keys of a request.
fn to_gets(chunk: ByTable<Item>, options: &Vec<Options>, Ghost(s): Ghost<
    Seq<(String, BatchGetRequestItems)>,
>) -> (gets: Gets)
    requires
        options_match(options@, s),
    ensures
        flat_keys(gets@) == flat(chunk@),
        reads_like(gets@, s),
        tables_differ(chunk@) ==> reads_differ(gets@),
{
    let ghost input = chunk@;
    let mut gets: Gets = Vec::new();
    assert(flat_keys(gets@) =~= flat(input.take(0)));
    for group in it: chunk
        invariant
            it.seq() == input,
            options_match(options@, s),
            flat_keys(gets@) == flat(input.take(it.index() as int)),
            reads_like(gets@, s),
            gets@.len() == it.index(),
            forall|j: int| 0 <= j < it.index() ==> (#[trigger] gets@[j]).0 == input[j].0,
    {
        let ghost k = it.index() as int;
        let (table, keys): (String, Vec<Item>) = group;
        let ghost before = gets@;
        let get: (String, BatchGetRequestItems) = with_options(table, keys, options, Ghost(s));
        gets.push(get);
        proof {
            assert(gets@.drop_last() =~= before);
            assert(input.take(k + 1).drop_last() =~= input.take(k));
            assert(input.take(k + 1).last() == group);
        }
    }
    assert(input.take(input.len() as int) =~= input);
    gets
}

/// Splits reads into requests. Where one request holds all keys, they are sent
/// as they are. Otherwise each table is read with its projection and its
/// names of attributes in every request.
pub fn plan_gets(request_items: Gets) -> (chunks: Vec<Gets>)
    requires
        flat_keys(request_items@).len() <= usize::MAX,
    ensures
        if flat_keys(request_items@).len() <= BATCH_GET_MAX_KEYS {
            chunks@ == seq![request_items]
        } else {
            splits_keys(chunks@, request_items@, BATCH_GET_MAX_KEYS as nat)
        },
{
    let ghost s = request_items@;
    let mut total: usize = 0;
    let mut i: usize = 0;
    assert(s.take(0) =~= Seq::empty());
    while i < request_items.len()
        invariant
            i <= request_items@.len(),
            s == request_items@,
            flat_keys(s).len() <= usize::MAX,
            total == flat_keys(s.take(i as int)).len(),
        decreases request_items@.len() - i,
    {
        proof {
            assert(s.take(i + 1).drop_last() =~= s.take(i as int));
            lemma_keys_prefix(s, i + 1);
        }
        total = total + request_items[i].1.keys.len();
        i = i + 1;
    }
    assert(s.take(i as int) =~= s);
    if total <= BATCH_GET_MAX_KEYS {
        let mut chunks: Vec<Gets> = Vec::new();
        chunks.push(request_items);
        assert(chunks@ =~= seq![request_items]);
        return chunks;
    }
    let mut keys: ByTable<Item> = Vec::new();
    let mut options: Vec<Options> = Vec::new();
    assert(flat(keys@) =~= flat_keys(s.take(0)));
    for group in it: request_items
        invariant
            it.seq() == s,
            flat(keys@) == flat_keys(s.take(it.index() as int)),
            keys@.len() == it.index(),
            forall|j: int| 0 <= j < it.index() ==> (#[trigger] keys@[j]).0@ == s[j].0@,
            options@.len() == it.index(),
            forall|j: int|
                0 <= j < it.index() ==> (#[trigger] options@[j]).table@ == s[j].0@ && options_as(
                    options@[j],
                ) == read_as(s[j].1),
    {
        let ghost k = it.index() as int;
        let (table, items): (String, BatchGetRequestItems) = group;
        let ghost before = keys@;
        let pair: (String, Vec<Item>) = (table.clone(), items.keys);
        keys.push(pair);
        options.push(
            Options {
                table,
                projection_expression: items.projection_expression,
                expression_attribute_names: items.expression_attribute_names,
            },
        );
        proof {
            lemma_flat_push(before, pair);
            assert(s.take(k + 1).drop_last() =~= s.take(k));
            assert(s.take(k + 1).last() == group);
        }
    }
    assert(s.take(s.len() as int) =~= s);
    assert(reads_differ(s) ==> tables_differ(keys@));
    let parts: Vec<ByTable<Item>> = split_into_chunks(keys, BATCH_GET_MAX_KEYS);
    let ghost input = parts@;
    let mut chunks: Vec<Gets> = Vec::new();
    assert(all_flat_keys(chunks@) =~= flat_all(input.take(0)));
    for part in it: parts
        invariant
            it.seq() == input,
            options_match(options@, s),
            chunks@.len() == it.index(),
            all_flat_keys(chunks@) == flat_all(input.take(it.index() as int)),
            forall|j: int|
                0 <= j < it.index() ==> flat_keys((#[trigger] chunks@[j])@) == flat(input[j]@)
                    && reads_like(chunks@[j]@, s) && (tables_differ(input[j]@) ==> reads_differ(
                    chunks@[j]@,
                )),
    {
        let ghost k = it.index() as int;
        let ghost before = chunks@;
        let gets: Gets = to_gets(part, &options, Ghost(s));
        chunks.push(gets);
        proof {
            assert(chunks@.drop_last() =~= before);
            assert(input.take(k + 1).drop_last() =~= input.take(k));
            assert(input.take(k + 1).last() == part);
        }
    }
    assert(input.take(input.len() as int) =~= input);
    assert forall|j: int| 0 <= j < chunks@.len() - 1 implies flat_keys((#[trigger] chunks@[j])@).len()
        == BATCH_GET_MAX_KEYS by {
        assert(is_full(input[j], BATCH_GET_MAX_KEYS as nat));
    }
    assert forall|j: int| 0 <= j < chunks@.len() implies 0 < flat_keys(
        (#[trigger] chunks@[j])@,
    ).len() <= BATCH_GET_MAX_KEYS && reads_like(chunks@[j]@, s) by {
        assert(0 < flat(input[j]@).len() <= BATCH_GET_MAX_KEYS);
    }
    assert forall|j: int| reads_differ(s) && 0 <= j < chunks@.len() implies reads_differ(
        (#[trigger] chunks@[j])@,
    ) by {
        assert(tables_differ(input[j]@));
    }
    chunks
}

/// Some of the tables have no more keys than all of them.
proof fn lemma_keys_prefix(s: Seq<(String, BatchGetRequestItems)>, n: int)
    requires
        0 <= n <= s.len(),
    ensures
        flat_keys(s.take(n)).len() <= flat_keys(s).len(),
    decreases s.len() - n,
{
    if n < s.len() {
        lemma_keys_prefix(s, n + 1);
        assert(s.take(n + 1).drop_last() =~= s.take(n));
    } else {
        assert(s.take(n) =~= s);
    }
}

/// What is done after a request of a batch.
#[derive(Debug)]
pub enum BatchNext {
    /// Nothing is left.
    Done,
    /// What is left is sent again after this many milliseconds.
    RetryAfter(u64),
    /// It was repeated too often.
    GiveUp(DynamoError),
}

/// Two to a power.
pub open spec fn two_to(n: nat) -> nat
    decreases n,
{
    if n == 0 {
        1
    } else {
        2 * two_to((n - 1) as nat)
    }
}

/// The wait before a repetition: 50 milliseconds, and twice as long each time.
pub open spec fn backoff(retries: u32) -> nat {
    50 * two_to(retries as nat)
}

/// The powers of two grow.
proof fn lemma_two_to(n: nat, m: nat)
    requires
        n <= m,
    ensures
        1 <= two_to(n) <= two_to(m),
    decreases m,
{
    if n < m {
        lemma_two_to(n, (m - 1) as nat);
    } else if n > 0 {
        lemma_two_to((n - 1) as nat, (n - 1) as nat);
    }
}

/// The largest power of two that a wait is made of.
proof fn lemma_largest_power()
    ensures
        two_to(58) == 0x400_0000_0000_0000,
{
    assert(two_to(15) == 0x8000) by {
        reveal_with_fuel(two_to, 16);
    }
    assert(two_to(30) == 0x4000_0000) by {
        reveal_with_fuel(two_to, 16);
    }
    assert(two_to(45) == 0x2000_0000_0000) by {
        reveal_with_fuel(two_to, 16);
    }
    assert(two_to(58) == 0x400_0000_0000_0000) by {
        reveal_with_fuel(two_to, 14);
    }
}

/// The waits double, and the first is 50 milliseconds.
pub proof fn law_backoff_doubles(retries: u32)
    requires
        retries < u32::MAX,
    ensures
        backoff(0) == 50,
        backoff((retries + 1) as u32) == 2 * backoff(retries),
{
}

/// The largest number of repetitions whose wait is counted in 64 bits.
pub const MAX_BACKOFF_RETRIES: u32 = 58;

/// The wait before a repetition.
fn backoff_ms(retries: u32) -> (ms: u64)
    requires
        retries <= MAX_BACKOFF_RETRIES,
    ensures
        ms == backoff(retries),
{
    let mut power: u64 = 1;
    let mut i: u32 = 0;
    proof {
        lemma_two_to(retries as nat, 58);
        lemma_largest_power();
    }
    while i < retries
        invariant
            i <= retries,
            power == two_to(i as nat),
            two_to(retries as nat) <= 0x400_0000_0000_0000,
        decreases retries - i,
    {
        proof {
            lemma_two_to((i + 1) as nat, retries as nat);
        }
        power = power * 2;
        i = i + 1;
    }
    power * 50
}

/// What is said of writes that were not made.
pub open spec fn write_failure(left: nat, max_retries: u32) -> Seq<char> {
    "Batch write failed: "@ + decimal(left) + (" unprocessed items after "@ + decimal(
        max_retries as nat,
    ) + " retries"@)
}

/// Decides what is done after a write request of a batch, by the writes that were not made.
pub fn after_batch_write(unprocessed: &ByTable<BatchWriteRequest>, retries: u32, max_retries: u32) -> (next:
    BatchNext)
    requires
        flat(unprocessed@).len() <= usize::MAX,
        retries < max_retries ==> retries <= MAX_BACKOFF_RETRIES,
    ensures
        if unprocessed@.len() == 0 {
            next is Done
        } else if retries >= max_retries {
            next matches BatchNext::GiveUp(e) && e.is(
                DynamoErrorKind::RequestLimitExceeded,
                write_failure(flat(unprocessed@).len(), max_retries),
            )
        } else {
            next matches BatchNext::RetryAfter(ms) && ms == backoff(retries)
        },
{
    if unprocessed.len() == 0 {
        return BatchNext::Done;
    }
    if retries >= max_retries {
        let left: usize = count_entries(unprocessed);
        let tail: String = joined(
            " unprocessed items after ",
            decimal_text(max_retries as u64).as_str(),
            " retries",
        );
        let text: String = joined(
            "Batch write failed: ",
            decimal_text(left as u64).as_str(),
            tail.as_str(),
        );
        return BatchNext::GiveUp(
            DynamoError::new(DynamoErrorKind::RequestLimitExceeded, text),
        );
    }
    BatchNext::RetryAfter(backoff_ms(retries))
}

/// What is said of keys that were not read.
pub open spec fn get_failure(tables: nat, max_retries: u32) -> Seq<char> {
    "Batch get failed: "@ + decimal(tables) + (" tables with unprocessed keys after "@ + decimal(
        max_retries as nat,
    ) + " retries"@)
}

/// Decides what is done after a read request of a batch, by the number of
/// tables with keys that were not read.
pub fn after_batch_get(unprocessed_tables: usize, retries: u32, max_retries: u32) -> (next:
    BatchNext)
    requires
        retries < max_retries ==> retries <= MAX_BACKOFF_RETRIES,
    ensures
        if unprocessed_tables == 0 {
            next is Done
        } else if retries >= max_retries {
            next matches BatchNext::GiveUp(e) && e.is(
                DynamoErrorKind::RequestLimitExceeded,
                get_failure(unprocessed_tables as nat, max_retries),
            )
        } else {
            next matches BatchNext::RetryAfter(ms) && ms == backoff(retries)
        },
{
    if unprocessed_tables == 0 {
        return BatchNext::Done;
    }
    if retries >= max_retries {
        let tail: String = joined(
            " tables with unprocessed keys after ",
            decimal_text(max_retries as u64).as_str(),
            " retries",
        );
        let text: String = joined(
            "Batch get failed: ",
            decimal_text(unprocessed_tables as u64).as_str(),
            tail.as_str(),
        );
        return BatchNext::GiveUp(
            DynamoError::new(DynamoErrorKind::RequestLimitExceeded, text),
        );
    }
    BatchNext::RetryAfter(backoff_ms(retries))
}

/// The items of a table.
pub open spec fn items_at<T>(m: Map<Seq<char>, Vec<T>>, table: Seq<char>) -> Seq<T> {
    if m.dom().contains(table) {
        m[table]@
    } else {
        Seq::empty()
    }
}

/// The items of a table among groups of items.
pub open spec fn items_in<T>(s: Seq<(String, Vec<T>)>, table: Seq<char>) -> Seq<T>
    decreases s.len(),
{
    if s.len() == 0 {
        Seq::empty()
    } else if s.last().0@ == table {
        items_in(s.drop_last(), table) + s.last().1@
    } else {
        items_in(s.drop_last(), table)
    }
}

/// The tables of groups of items.
pub open spec fn tables_in<T>(s: Seq<(String, Vec<T>)>) -> Set<Seq<char>> {
    Set::new(|table: Seq<char>| exists|i: int| 0 <= i < s.len() && (#[trigger] s[i]).0@ == table)
}

/// Takes up the items that a request came back with: those of each table
/// behind those that came before. A table without items is taken up too.
pub fn merge_responses<T>(all: &mut TextMap<Vec<T>>, responses: ByTable<T>)
    ensures
        forall|table: Seq<char>| #[trigger]
            items_at(final(all)@, table) == items_at(old(all)@, table) + items_in(
                responses@,
                table,
            ),
        final(all)@.dom() == old(all)@.dom() + tables_in(responses@),
{
    let ghost input = responses@;
    let ghost start = all@;
    assert forall|table: Seq<char>| #[trigger]
        items_at(all@, table) == items_at(start, table) + items_in(input.take(0), table) by {
        assert(items_at(start, table) + items_in(input.take(0), table) =~= items_at(start, table));
    }
    for group in it: responses
        invariant
            it.seq() == input,
            start == old(all)@,
            forall|table: Seq<char>| #[trigger]
                items_at(all@, table) == items_at(start, table) + items_in(
                    input.take(it.index() as int),
                    table,
                ),
            all@.dom() =~= start.dom() + tables_in(input.take(it.index() as int)),
    {
        let ghost k = it.index() as int;
        let (table, items): (String, Vec<T>) = group;
        let ghost before = all@;
        let ghost name = table@;
        let ghost added = items@;
        all.extend(table, items);
        proof {
            assert(input.take(k + 1).drop_last() =~= input.take(k));
            assert(input.take(k + 1).last() == group);
            assert forall|t: Seq<char>| #[trigger] tables_in(input.take(k + 1)).contains(t)
                == (tables_in(input.take(k)).contains(t) || t == name) by {
                assert(input.take(k + 1)[k].0@ == name);
                if tables_in(input.take(k)).contains(t) {
                    let i = choose|i: int|
                        0 <= i < k && (#[trigger] input.take(k)[i]).0@ == t;
                    assert(input.take(k + 1)[i].0@ == t);
                }
                if tables_in(input.take(k + 1)).contains(t) && t != name {
                    let i = choose|i: int|
                        0 <= i < k + 1 && (#[trigger] input.take(k + 1)[i]).0@ == t;
                    assert(input.take(k)[i].0@ == t);
                }
            }
            assert forall|t: Seq<char>| #[trigger]
                items_at(all@, t) == items_at(start, t) + items_in(input.take(k + 1), t) by {
                assert(items_at(before, t) == items_at(start, t) + items_in(input.take(k), t));
                if t == name {
                    assert(items_at(all@, t) =~= items_at(before, t) + added);
                    assert(items_at(start, t) + items_in(input.take(k), t) + added =~= items_at(
                        start,
                        t,
                    ) + (items_in(input.take(k), t) + added));
                } else {
                    assert(items_at(all@, t) == items_at(before, t));
                }
            }
        }
    }
    assert(input.take(input.len() as int) =~= input);
}

} // verus!
