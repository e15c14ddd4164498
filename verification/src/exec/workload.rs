//! The functions of a workload: how they are found, how their calls are
//! counted, and when a call is repeated.

use crate::text::same_text;
use vstd::prelude::*;
use vstd::string::*;

verus! {

/// A shared reference to the context of a script.
pub struct SessionRef<'a, C> {
    context: &'a C,
}

impl<'a, C> SessionRef<'a, C> {
    /// The context.
    pub closed spec fn target(self) -> C {
        *self.context
    }

    /// Wraps a reference.
    pub fn new(context: &'a C) -> (r: SessionRef<'a, C>)
        ensures
            r.target() == *context,
    {
        SessionRef { context }
    }

    /// The reference.
    pub fn context(&self) -> (context: &'a C)
        ensures
            *context == self.target(),
    {
        self.context
    }
}

/// A mutable reference to the context of a script.
pub struct ContextRefMut<'a, C> {
    pub context: &'a mut C,
}

impl<'a, C> ContextRefMut<'a, C> {
    /// Wraps a reference.
    pub fn new(context: &'a mut C) -> (r: ContextRefMut<'a, C>)
        ensures
            *r.context == *old(context),
            *final(r.context) == *final(context),
    {
        ContextRefMut { context }
    }
}

/// `rune::Hash::type_hash` of a path of one name. The hash of a name is the
/// same throughout a process; it depends on the byte order of the machine, so
/// nothing more is said of it.
#[verifier::external_body]
fn type_hash(name: &str) -> (hash: u64) {
    rune::Hash::type_hash([name]).into_inner()
}

/// A function by its name and the hash of its name. The name is for messages,
/// the hash for finding the function.
#[derive(Debug)]
pub struct FnRef {
    pub name: String,
    pub hash: u64,
}

impl FnRef {
    /// The function with a name.
    pub fn new(name: &str) -> (f: FnRef)
        ensures
            f.name@ == name@,
    {
        FnRef { name: name.to_owned(), hash: type_hash(name) }
    }

    /// Two references are to the same function.
    pub open spec fn same(self, other: FnRef) -> bool {
        self.name@ == other.name@ && self.hash == other.hash
    }

    /// A copy of the reference.
    pub fn copy(&self) -> (f: FnRef)
        ensures
            f.same(*self),
    {
        FnRef { name: self.name.clone(), hash: self.hash }
    }
}

/// The function that creates the schema.
pub const SCHEMA_FN: &'static str = "schema";

/// The function that prepares the workload.
pub const PREPARE_FN: &'static str = "prepare";

/// The function that erases the data.
pub const ERASE_FN: &'static str = "erase";

/// The function that loads the data.
pub const LOAD_FN: &'static str = "load";

/// The functions that a script defines.
pub struct ProgramMetadata {
    functions: Vec<FnRef>,
}

impl ProgramMetadata {
    /// The functions, in the order in which they came.
    pub closed spec fn known(self) -> Seq<FnRef> {
        self.functions@
    }

    /// Some function has a name.
    pub open spec fn has_name(self, name: Seq<char>) -> bool {
        exists|i: int| 0 <= i < self.known().len() && (#[trigger] self.known()[i]).name@ == name
    }

    /// No functions.
    pub fn new() -> (meta: ProgramMetadata)
        ensures
            meta.known().len() == 0,
    {
        ProgramMetadata { functions: Vec::new() }
    }

    /// Takes up a function.
    pub fn register(&mut self, function: FnRef)
        ensures
            final(self).known() == old(self).known().push(function),
    {
        self.functions.push(function);
    }

    /// Whether a function is there.
    pub fn has_function(&self, function: &FnRef) -> (r: bool)
        ensures
            r == exists|i: int|
                0 <= i < self.known().len() && function.same(#[trigger] self.known()[i]),
    {
        let mut i: usize = 0;
        while i < self.functions.len()
            invariant
                i <= self.functions@.len(),
                forall|j: int| 0 <= j < i ==> !function.same(#[trigger] self.functions@[j]),
            decreases self.functions@.len() - i,
        {
            let f: &FnRef = &self.functions[i];
            if f.hash == function.hash && same_text(f.name.as_str(), function.name.as_str()) {
                assert(function.same(self.known()[i as int]));
                return true;
            }
            i = i + 1;
        }
        false
    }

    /// Whether a function with a name is there.
    fn has_named(&self, name: &str) -> (r: bool)
        ensures
            r == self.has_name(name@),
    {
        let mut i: usize = 0;
        while i < self.functions.len()
            invariant
                i <= self.functions@.len(),
                forall|j: int| 0 <= j < i ==> (#[trigger] self.functions@[j]).name@ != name@,
            decreases self.functions@.len() - i,
        {
            if same_text(self.functions[i].name.as_str(), name) {
                assert(self.known()[i as int].name@ == name@);
                return true;
            }
            i = i + 1;
        }
        false
    }

    /// Whether the script prepares the workload.
    pub fn has_prepare(&self) -> (r: bool)
        ensures
            r == self.has_name("prepare"@),
    {
        self.has_named(PREPARE_FN)
    }

    /// Whether the script creates the schema.
    pub fn has_schema(&self) -> (r: bool)
        ensures
            r == self.has_name("schema"@),
    {
        self.has_named(SCHEMA_FN)
    }

    /// Whether the script erases the data.
    pub fn has_erase(&self) -> (r: bool)
        ensures
            r == self.has_name("erase"@),
    {
        self.has_named(ERASE_FN)
    }

    /// Whether the script loads the data.
    pub fn has_load(&self) -> (r: bool)
        ensures
            r == self.has_name("load"@),
    {
        self.has_named(LOAD_FN)
    }
}

/// What a call of a script function came back with: a value, or a result
/// value that holds a value or an error.
pub enum Returned<V, C> {
    Plain(V),
    Success(V),
    /// An error of the database.
    Cassandra(C),
    /// Any other error, as text.
    Failure(String),
}

/// Why a call of a script function failed.
pub enum CallError<C> {
    Cassandra(C),
    /// The name of the function, and what it returned.
    FunctionResult(String, String),
}

/// Makes an error of a function that returned one. Any other value is handed on.
pub fn convert_error<V, C>(function_name: &str, result: Returned<V, C>) -> (r: Result<
    V,
    CallError<C>,
>)
    ensures
        match result {
            Returned::Plain(v) => r == Ok::<V, CallError<C>>(v),
            Returned::Success(v) => r == Ok::<V, CallError<C>>(v),
            Returned::Cassandra(e) => r == Err::<V, CallError<C>>(CallError::Cassandra(e)),
            Returned::Failure(text) => r matches Err(CallError::FunctionResult(name, message))
                && name@ == function_name@ && message == text,
        },
{
    match result {
        Returned::Plain(v) => Ok(v),
        Returned::Success(v) => Ok(v),
        Returned::Cassandra(e) => Err(CallError::Cassandra(e)),
        Returned::Failure(text) => Err(CallError::FunctionResult(function_name.to_owned(), text)),
    }
}

/// The calls of a function: how many there were, how many failed, and how
/// long each took, in nanoseconds.
#[derive(Debug)]
pub struct FnStats {
    pub function: FnRef,
    pub call_count: u64,
    pub error_count: u64,
    pub call_latency: Vec<u128>,
}

impl FnStats {
    /// No calls.
    pub open spec fn is_fresh(self) -> bool {
        self.call_count == 0 && self.error_count == 0 && self.call_latency@.len() == 0
    }

    /// Every call has a latency, and no more calls failed than there were.
    pub open spec fn is_consistent(self) -> bool {
        self.call_latency@.len() == self.call_count && self.error_count <= self.call_count
    }

    /// The statistics after one more call.
    pub open spec fn after_call(self, now: FnStats, nanos: u128, failed: bool) -> bool {
        &&& now.function.same(self.function)
        &&& now.call_count == self.call_count + 1
        &&& now.error_count == self.error_count + if failed {
            1int
        } else {
            0int
        }
        &&& now.call_latency@ == self.call_latency@.push(nanos)
    }

    /// The statistics of a function without calls.
    pub fn new(function: FnRef) -> (stats: FnStats)
        ensures
            stats.function == function,
            stats.is_fresh(),
            stats.is_consistent(),
    {
        FnStats { function, call_count: 0, error_count: 0, call_latency: Vec::new() }
    }

    /// Forgets all calls.
    pub fn reset(&mut self)
        ensures
            final(self).function == old(self).function,
            final(self).is_fresh(),
            final(self).is_consistent(),
    {
        self.call_count = 0;
        self.error_count = 0;
        self.call_latency = Vec::new();
    }

    /// Counts a call that succeeded.
    pub fn operation_completed(&mut self, nanos: u128)
        requires
            old(self).call_count < u64::MAX,
        ensures
            old(self).after_call(*final(self), nanos, false),
            final(self).function == old(self).function,
            old(self).is_consistent() ==> final(self).is_consistent(),
    {
        self.call_count = self.call_count + 1;
        self.call_latency.push(nanos);
    }

    /// Counts a call that failed.
    pub fn operation_failed(&mut self, nanos: u128)
        requires
            old(self).call_count < u64::MAX,
            old(self).error_count < u64::MAX,
        ensures
            old(self).after_call(*final(self), nanos, true),
            final(self).function == old(self).function,
            old(self).is_consistent() ==> final(self).is_consistent(),
    {
        self.call_count = self.call_count + 1;
        self.error_count = self.error_count + 1;
        self.call_latency.push(nanos);
    }
}

/// The calls of functions since a point in time.
pub struct FnStatsCollector<I> {
    pub start_time: I,
    pub fn_stats: Vec<FnStats>,
}

/// Statistics are of the same functions, in the same order.
pub open spec fn same_functions(a: Seq<FnStats>, b: Seq<FnStats>) -> bool {
    a.len() == b.len() && forall|i: int|
        0 <= i < a.len() ==> (#[trigger] a[i]).function.same(b[i].function)
}

/// The first statistics of a function with a hash.
pub open spec fn first_with(s: Seq<FnStats>, hash: u64, i: int) -> bool {
    &&& 0 <= i < s.len()
    &&& s[i].function.hash == hash
    &&& forall|j: int| 0 <= j < i ==> (#[trigger] s[j]).function.hash != hash
}

/// There are statistics of a function with a hash.
pub open spec fn has_stats(s: Seq<FnStats>, hash: u64) -> bool {
    exists|i: int| 0 <= i < s.len() && (#[trigger] s[i]).function.hash == hash
}

impl<I: Copy> FnStatsCollector<I> {
    /// No calls of functions.
    pub fn new(functions: Vec<FnRef>, start_time: I) -> (collector: FnStatsCollector<I>)
        ensures
            collector.start_time == start_time,
            collector.fn_stats@.len() == functions@.len(),
            forall|i: int|
                0 <= i < functions@.len() ==> (#[trigger] collector.fn_stats@[i]).function
                    == functions@[i] && collector.fn_stats@[i].is_fresh(),
    {
        let mut fn_stats: Vec<FnStats> = Vec::new();
        for f in it: functions
            invariant
                fn_stats@.len() == it.index(),
                forall|i: int|
                    0 <= i < it.index() ==> (#[trigger] fn_stats@[i]).function == it.seq()[i]
                        && fn_stats@[i].is_fresh(),
        {
            fn_stats.push(FnStats::new(f));
        }
        FnStatsCollector { start_time, fn_stats }
    }

    /// The functions.
    pub fn functions(&self) -> (list: Vec<FnRef>)
        ensures
            list@.len() == self.fn_stats@.len(),
            forall|i: int|
                0 <= i < list@.len() ==> (#[trigger] list@[i]).same(self.fn_stats@[i].function),
    {
        let mut list: Vec<FnRef> = Vec::new();
        let mut i: usize = 0;
        while i < self.fn_stats.len()
            invariant
                i <= self.fn_stats@.len(),
                list@.len() == i,
                forall|j: int|
                    0 <= j < i ==> (#[trigger] list@[j]).same(self.fn_stats@[j].function),
            decreases self.fn_stats@.len() - i,
        {
            list.push(self.fn_stats[i].function.copy());
            i = i + 1;
        }
        list
    }

    /// The position of the statistics of a function, which must be there.
    fn fn_stats_at(&self, function: &FnRef) -> (i: usize)
        requires
            has_stats(self.fn_stats@, function.hash),
        ensures
            first_with(self.fn_stats@, function.hash, i as int),
    {
        let mut i: usize = 0;
        while i < self.fn_stats.len()
            invariant
                i <= self.fn_stats@.len(),
                has_stats(self.fn_stats@, function.hash),
                forall|j: int|
                    0 <= j < i ==> (#[trigger] self.fn_stats@[j]).function.hash != function.hash,
            decreases self.fn_stats@.len() - i,
        {
            if self.fn_stats[i].function.hash == function.hash {
                return i;
            }
            i = i + 1;
        }
        0
    }

    /// Counts a call that succeeded. The function must be one of those that are counted.
    pub fn operation_completed(&mut self, function: &FnRef, nanos: u128)
        requires
            has_stats(old(self).fn_stats@, function.hash),
            forall|i: int|
                0 <= i < old(self).fn_stats@.len() ==> (#[trigger] old(self).fn_stats@[i]).call_count
                    < u64::MAX,
        ensures
            final(self).start_time == old(self).start_time,
            exists|i: int|
                #![trigger final(self).fn_stats@[i]]
                first_with(old(self).fn_stats@, function.hash, i) && old(self).fn_stats@[i].after_call(final(self).fn_stats@[i], nanos, false)
                    && final(self).fn_stats@ == old(self).fn_stats@.update(
                    i,
                    final(self).fn_stats@[i],
                ),
    {
        let i: usize = self.fn_stats_at(function);
        let stats: &mut FnStats = &mut self.fn_stats[i];
        stats.operation_completed(nanos);
        assert(old(self).fn_stats@[i as int].after_call(self.fn_stats@[i as int], nanos, false));
        assert(self.fn_stats@ =~= old(self).fn_stats@.update(i as int, self.fn_stats@[i as int]));
    }

    /// Counts a call that failed. The function must be one of those that are counted.
    pub fn operation_failed(&mut self, function: &FnRef, nanos: u128)
        requires
            has_stats(old(self).fn_stats@, function.hash),
            forall|i: int|
                0 <= i < old(self).fn_stats@.len() ==> (#[trigger] old(self).fn_stats@[i]).call_count
                    < u64::MAX && old(self).fn_stats@[i].error_count < u64::MAX,
        ensures
            final(self).start_time == old(self).start_time,
            exists|i: int|
                #![trigger final(self).fn_stats@[i]]
                first_with(old(self).fn_stats@, function.hash, i) && old(self).fn_stats@[i].after_call(final(self).fn_stats@[i], nanos, true)
                    && final(self).fn_stats@ == old(self).fn_stats@.update(
                    i,
                    final(self).fn_stats@[i],
                ),
    {
        let i: usize = self.fn_stats_at(function);
        let stats: &mut FnStats = &mut self.fn_stats[i];
        stats.operation_failed(nanos);
        assert(old(self).fn_stats@[i as int].after_call(self.fn_stats@[i as int], nanos, true));
        assert(self.fn_stats@ =~= old(self).fn_stats@.update(i as int, self.fn_stats@[i as int]));
    }

    /// Forgets all calls and starts again at a point in time.
    pub fn reset(&mut self, start_time: I)
        ensures
            final(self).start_time == start_time,
            same_functions(final(self).fn_stats@, old(self).fn_stats@),
            forall|i: int|
                0 <= i < final(self).fn_stats@.len() ==> (#[trigger] final(self).fn_stats@[i]).is_fresh(),
    {
        let functions: Vec<FnRef> = self.functions();
        let fresh: FnStatsCollector<I> = FnStatsCollector::new(functions, start_time);
        self.fn_stats = fresh.fn_stats;
        self.start_time = start_time;
    }

    /// Hands out the calls so far, and starts again at the end of their time.
    pub fn take(&mut self, end_time: I) -> (taken: FnStatsCollector<I>)
        ensures
            taken == *old(self),
            final(self).start_time == end_time,
            same_functions(final(self).fn_stats@, taken.fn_stats@),
            forall|i: int|
                0 <= i < final(self).fn_stats@.len() ==> (#[trigger] final(self).fn_stats@[i]).is_fresh(),
    {
        let functions: Vec<FnRef> = self.functions();
        let mut state: FnStatsCollector<I> = FnStatsCollector::new(functions, end_time);
        std::mem::swap(self, &mut state);
        state
    }
}

/// What happens when a script signals a failure of its own.
#[derive(Debug, Clone, Copy, PartialEq, Eq, Structural)]
pub enum ValidationStrategy {
    Retry,
    FailFast,
    Ignore,
}

/// What a call of a workload function came back with.
#[derive(Debug, Clone, Copy, PartialEq, Eq, Structural)]
pub enum CallOutcome {
    Completed,
    /// The database is overloaded.
    Overloaded,
    /// The script signalled a failure.
    Signalled,
    /// Anything else went wrong.
    Failed,
}

/// What is done after a call.
#[derive(Debug, Clone, Copy, PartialEq, Eq, Structural)]
pub enum AfterCall {
    /// The cycle is done.
    Done,
    /// The cycle ends with the error of the call.
    Abort,
    /// The error is reported, and the cycle is done.
    ReportAndFinish,
    /// The error is reported, and the function is called again.
    ReportAndRetry,
    /// The error is reported, and the cycle ends: it was repeated too often.
    ReportAndGiveUp,
}

/// What is done after the call with a number, counted from 0.
pub open spec fn after_call(
    outcome: CallOutcome,
    strategy: ValidationStrategy,
    attempt: u64,
    limit: u64,
) -> AfterCall {
    match outcome {
        CallOutcome::Completed => AfterCall::Done,
        CallOutcome::Overloaded => AfterCall::Done,
        CallOutcome::Failed => AfterCall::Abort,
        CallOutcome::Signalled => match strategy {
            ValidationStrategy::FailFast => AfterCall::Abort,
            ValidationStrategy::Ignore => AfterCall::ReportAndFinish,
            ValidationStrategy::Retry => if attempt + 1 < limit {
                AfterCall::ReportAndRetry
            } else {
                AfterCall::ReportAndGiveUp
            },
        },
    }
}

/// Decides what is done after the call with a number, counted from 0. Of a
/// cycle no more than `limit` calls are made.
pub fn decide_after_call(
    outcome: CallOutcome,
    strategy: ValidationStrategy,
    attempt: u64,
    limit: u64,
) -> (next: AfterCall)
    requires
        attempt < limit,
    ensures
        next == after_call(outcome, strategy, attempt, limit),
{
    match outcome {
        CallOutcome::Completed => AfterCall::Done,
        CallOutcome::Overloaded => AfterCall::Done,
        CallOutcome::Failed => AfterCall::Abort,
        CallOutcome::Signalled => match strategy {
            ValidationStrategy::FailFast => AfterCall::Abort,
            ValidationStrategy::Ignore => AfterCall::ReportAndFinish,
            ValidationStrategy::Retry => if attempt + 1 < limit {
                AfterCall::ReportAndRetry
            } else {
                AfterCall::ReportAndGiveUp
            },
        },
    }
}

/// Whether a call is counted as a failure: all are but those that completed.
pub fn counts_as_failure(outcome: CallOutcome) -> (r: bool)
    ensures
        r == (outcome != CallOutcome::Completed),
{
    outcome != CallOutcome::Completed
}

/// Statistics with one more call of the first function with a hash.
pub open spec fn counted<I>(
    before: FnStatsCollector<I>,
    now: FnStatsCollector<I>,
    hash: u64,
    nanos: u128,
    failed: bool,
) -> bool {
    &&& now.start_time == before.start_time
    &&& exists|i: int|
        #![trigger now.fn_stats@[i]]
        first_with(before.fn_stats@, hash, i) && before.fn_stats@[i].after_call(
            now.fn_stats@[i],
            nanos,
            failed,
        ) && now.fn_stats@ == before.fn_stats@.update(i, now.fn_stats@[i])
}

/// Counts the call with a number, counted from 0, and decides what is done after it.
pub fn finish_call<I: Copy>(
    stats: &mut FnStatsCollector<I>,
    function: &FnRef,
    nanos: u128,
    outcome: CallOutcome,
    strategy: ValidationStrategy,
    attempt: u64,
    limit: u64,
) -> (next: AfterCall)
    requires
        attempt < limit,
        has_stats(old(stats).fn_stats@, function.hash),
        forall|i: int|
            0 <= i < old(stats).fn_stats@.len() ==> (#[trigger] old(stats).fn_stats@[i]).call_count
                < u64::MAX && old(stats).fn_stats@[i].error_count < u64::MAX,
    ensures
        counted(
            *old(stats),
            *final(stats),
            function.hash,
            nanos,
            outcome != CallOutcome::Completed,
        ),
        next == after_call(outcome, strategy, attempt, limit),
{
    if counts_as_failure(outcome) {
        stats.operation_failed(function, nanos);
    } else {
        stats.operation_completed(function, nanos);
    }
    decide_after_call(outcome, strategy, attempt, limit)
}

/// Whether a cycle makes a call at all: without one it ends as if it had been repeated too often.
pub fn makes_a_call(limit: u64) -> (r: bool)
    ensures
        r == (limit > 0),
{
    limit > 0
}

/// How many calls a cycle makes from the call with a number on, and how it
/// ends, where `outcomes` says what each call comes back with.
pub open spec fn rest_of_cycle(
    outcomes: spec_fn(u64) -> CallOutcome,
    strategy: ValidationStrategy,
    attempt: u64,
    limit: u64,
) -> (nat, AfterCall)
    decreases limit - attempt,
{
    let next = after_call(outcomes(attempt), strategy, attempt, limit);
    if next == AfterCall::ReportAndRetry && attempt < limit {
        let (calls, end) = rest_of_cycle(outcomes, strategy, (attempt + 1) as u64, limit);
        (calls + 1, end)
    } else {
        (1, next)
    }
}

/// How many calls a cycle makes, and how it ends. A cycle that may make no
/// call gives up at once.
pub open spec fn whole_cycle(
    outcomes: spec_fn(u64) -> CallOutcome,
    strategy: ValidationStrategy,
    limit: u64,
) -> (nat, AfterCall) {
    if limit == 0 {
        (0, AfterCall::ReportAndGiveUp)
    } else {
        rest_of_cycle(outcomes, strategy, 0, limit)
    }
}

/// Where the calls up to the `last` signal a failure and are repeated, the rest
/// of a cycle is the calls that are left, and ends as the last call does.
proof fn lemma_rest_of_cycle(
    outcomes: spec_fn(u64) -> CallOutcome,
    attempt: u64,
    last: u64,
    limit: u64,
)
    requires
        attempt <= last < limit,
        forall|n: u64| attempt <= n < last ==> #[trigger] outcomes(n) == CallOutcome::Signalled,
        last + 1 == limit || outcomes(last) != CallOutcome::Signalled,
    ensures
        rest_of_cycle(outcomes, ValidationStrategy::Retry, attempt, limit) == (
            (last - attempt + 1) as nat,
            after_call(outcomes(last), ValidationStrategy::Retry, last, limit),
        ),
    decreases last - attempt,
{
    if attempt < last {
        assert(outcomes(attempt) == CallOutcome::Signalled);
        lemma_rest_of_cycle(outcomes, (attempt + 1) as u64, last, limit);
    }
}

/// A cycle makes no more calls than the limit allows, whatever they come back
/// with, and it ends.
pub proof fn law_retries_are_bounded(
    outcomes: spec_fn(u64) -> CallOutcome,
    strategy: ValidationStrategy,
    limit: u64,
)
    ensures
        whole_cycle(outcomes, strategy, limit).0 <= limit,
        whole_cycle(outcomes, strategy, limit).1 != AfterCall::ReportAndRetry,
{
    if limit > 0 {
        lemma_retries_are_bounded(outcomes, strategy, 0, limit);
    }
}

/// The rest of a cycle makes no more calls than are left.
proof fn lemma_retries_are_bounded(
    outcomes: spec_fn(u64) -> CallOutcome,
    strategy: ValidationStrategy,
    attempt: u64,
    limit: u64,
)
    requires
        attempt < limit,
    ensures
        rest_of_cycle(outcomes, strategy, attempt, limit).0 <= limit - attempt,
        rest_of_cycle(outcomes, strategy, attempt, limit).1 != AfterCall::ReportAndRetry,
    decreases limit - attempt,
{
    if after_call(outcomes(attempt), strategy, attempt, limit) == AfterCall::ReportAndRetry {
        lemma_retries_are_bounded(outcomes, strategy, (attempt + 1) as u64, limit);
    }
}

/// Where failures are repeated, a function that always signals one is called
/// exactly as often as the limit says, and then the cycle gives up.
pub proof fn law_failures_are_repeated_to_the_limit(
    outcomes: spec_fn(u64) -> CallOutcome,
    limit: u64,
)
    requires
        forall|n: u64| n < limit ==> #[trigger] outcomes(n) == CallOutcome::Signalled,
    ensures
        whole_cycle(outcomes, ValidationStrategy::Retry, limit) == (
            limit as nat,
            AfterCall::ReportAndGiveUp,
        ),
{
    if limit > 0 {
        assert(outcomes((limit - 1) as u64) == CallOutcome::Signalled);
        lemma_rest_of_cycle(outcomes, 0, (limit - 1) as u64, limit);
    }
}

/// Where failures are repeated, the first call that signals none is the last
/// one, and the cycle ends as that call does.
pub proof fn law_first_other_outcome_ends_cycle(
    outcomes: spec_fn(u64) -> CallOutcome,
    last: u64,
    limit: u64,
)
    requires
        last < limit,
        forall|n: u64| n < last ==> #[trigger] outcomes(n) == CallOutcome::Signalled,
        outcomes(last) != CallOutcome::Signalled,
    ensures
        whole_cycle(outcomes, ValidationStrategy::Retry, limit) == (
            (last + 1) as nat,
            if outcomes(last) == CallOutcome::Failed {
                AfterCall::Abort
            } else {
                AfterCall::Done
            },
        ),
{
    lemma_rest_of_cycle(outcomes, 0, last, limit);
}

/// Where failures are not repeated, a cycle makes one call, whatever it comes
/// back with.
pub proof fn law_no_call_is_repeated(
    outcomes: spec_fn(u64) -> CallOutcome,
    strategy: ValidationStrategy,
    limit: u64,
)
    requires
        strategy != ValidationStrategy::Retry,
        limit > 0,
    ensures
        whole_cycle(outcomes, strategy, limit) == (1nat, after_call(outcomes(0), strategy, 0, limit)),
{
}

/// Only a failure that the script signals is treated by the strategy: what
/// follows from any other outcome depends on nothing else. An ordinary error
/// ends the cycle with that error, and a call that completed or met an
/// overloaded database is the last one of a cycle that is done.
pub proof fn law_only_signals_depend_on_the_strategy(
    outcome: CallOutcome,
    a: (ValidationStrategy, u64, u64),
    b: (ValidationStrategy, u64, u64),
)
    ensures
        outcome != CallOutcome::Signalled ==> after_call(outcome, a.0, a.1, a.2) == after_call(
            outcome,
            b.0,
            b.1,
            b.2,
        ),
        outcome == CallOutcome::Failed <==> (forall|s: ValidationStrategy, n: u64, m: u64|
            #[trigger] after_call(outcome, s, n, m) == AfterCall::Abort),
        outcome == CallOutcome::Completed || outcome == CallOutcome::Overloaded <==> (forall|
            s: ValidationStrategy,
            n: u64,
            m: u64,
        | #[trigger]
            after_call(outcome, s, n, m) == AfterCall::Done),
{
    if outcome != CallOutcome::Failed {
        assert(after_call(outcome, ValidationStrategy::Ignore, 0, 0) != AfterCall::Abort);
    }
    if outcome == CallOutcome::Failed || outcome == CallOutcome::Signalled {
        assert(after_call(outcome, ValidationStrategy::FailFast, 0, 0) != AfterCall::Done);
    }
}

/// Each strategy treats a signalled failure in its own way: one ends the cycle
/// with the error, one reports it and counts the cycle as done, and one
/// reports it and repeats the call while the limit allows.
pub proof fn law_strategies_treat_signals(attempt: u64, limit: u64)
    ensures
        after_call(CallOutcome::Signalled, ValidationStrategy::FailFast, attempt, limit)
            == AfterCall::Abort,
        after_call(CallOutcome::Signalled, ValidationStrategy::Ignore, attempt, limit)
            == AfterCall::ReportAndFinish,
        after_call(CallOutcome::Signalled, ValidationStrategy::Retry, attempt, limit)
            == AfterCall::ReportAndRetry <==> attempt + 1 < limit,
        after_call(CallOutcome::Signalled, ValidationStrategy::Retry, attempt, limit)
            == AfterCall::ReportAndGiveUp <==> attempt + 1 >= limit,
{
}

/// A call is counted once, for one function that has the hash: as a call, as
/// an error exactly if it failed, and with its latency behind all others. The
/// counts of all other functions stay.
pub proof fn law_call_is_counted_once<I>(
    before: FnStatsCollector<I>,
    now: FnStatsCollector<I>,
    hash: u64,
    nanos: u128,
    failed: bool,
)
    requires
        counted(before, now, hash, nanos, failed),
    ensures
        now.fn_stats@.len() == before.fn_stats@.len(),
        exists|i: int|
            #![trigger now.fn_stats@[i]]
            {
                &&& 0 <= i < before.fn_stats@.len()
                &&& before.fn_stats@[i].function.hash == hash
                &&& now.fn_stats@[i].function.hash == hash
                &&& now.fn_stats@[i].call_count == before.fn_stats@[i].call_count + 1
                &&& failed ==> now.fn_stats@[i].error_count == before.fn_stats@[i].error_count + 1
                &&& !failed ==> now.fn_stats@[i].error_count == before.fn_stats@[i].error_count
                &&& now.fn_stats@[i].call_latency@.len() == before.fn_stats@[i].call_latency@.len()
                    + 1
                &&& now.fn_stats@[i].call_latency@.last() == nanos
                &&& now.fn_stats@[i].call_latency@.drop_last()
                    == before.fn_stats@[i].call_latency@
                &&& forall|j: int|
                    0 <= j < before.fn_stats@.len() && j != i ==> #[trigger] now.fn_stats@[j]
                        == before.fn_stats@[j]
            },
{
    let i = choose|i: int|
        #![trigger now.fn_stats@[i]]
        first_with(before.fn_stats@, hash, i) && before.fn_stats@[i].after_call(
            now.fn_stats@[i],
            nanos,
            failed,
        ) && now.fn_stats@ == before.fn_stats@.update(i, now.fn_stats@[i]);
    assert(now.fn_stats@[i].call_latency@.drop_last() =~= before.fn_stats@[i].call_latency@);
}

/// Which functions a workload calls.
pub struct FunctionRouter {
    functions: Vec<FnRef>,
}

impl FunctionRouter {
    /// The functions.
    pub closed spec fn targets(self) -> Seq<FnRef> {
        self.functions@
    }

    /// Calls these functions.
    pub fn new(functions: Vec<FnRef>) -> (router: FunctionRouter)
        ensures
            router.targets() == functions@,
    {
        FunctionRouter { functions }
    }

    /// Whether there is only one function, so that no random number is needed.
    pub fn is_single_function(&self) -> (r: bool)
        ensures
            r == (self.targets().len() == 1),
    {
        self.functions.len() == 1
    }

    /// The only function.
    pub fn get_single(&self) -> (f: &FnRef)
        requires
            self.targets().len() > 0,
        ensures
            *f == self.targets()[0],
    {
        &self.functions[0]
    }

    /// The function at the position that was drawn.
    pub fn select(&self, index: usize) -> (f: &FnRef)
        requires
            index < self.targets().len(),
        ensures
            *f == self.targets()[index as int],
    {
        &self.functions[index]
    }
}

/// The seed of the random numbers of a cycle: one cycle always calls the same function.
pub fn seed_of(cycle: i64) -> (seed: u64)
    ensures
        seed == (if cycle < 0 {
            cycle + 0x1_0000_0000_0000_0000
        } else {
            cycle as int
        }),
{
    if cycle >= 0 {
        cycle as u64
    } else {
        (cycle as i128 + 0x1_0000_0000_0000_0000) as u64
    }
}

} // verus!
