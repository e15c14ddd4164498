//! The requests that wait for a response, by their stream ids.

use crate::dash::{
    clear_streams, count_streams, insert_stream, new_streams, remove_stream, streams_of,
};
use dashmap::DashMap;
use vstd::prelude::*;

verus! {

/// How many requests are expected to wait at a time.
pub const EXPECTED_REQUESTS: usize = 256;

/// The stream id behind another; behind the largest comes the smallest.
pub open spec fn next_stream_of(id: i16) -> i16 {
    if id == i16::MAX {
        i16::MIN
    } else {
        (id + 1) as i16
    }
}

/// Requests that wait for a response, each known by a number, and the stream id
/// of the next one.
pub struct Pending {
    next_stream: i16,
    waiting: DashMap<i16, u64>,
}

impl View for Pending {
    type V = Map<i16, u64>;

    closed spec fn view(&self) -> Map<i16, u64> {
        streams_of(self.waiting)
    }
}

impl Pending {
    /// The stream id of the next request.
    pub closed spec fn next(self) -> i16 {
        self.next_stream
    }

    /// No requests; the first one gets the stream id 0.
    pub fn new() -> (pending: Pending)
        ensures
            pending@ == Map::<i16, u64>::empty(),
            pending.next() == 0,
    {
        let waiting: DashMap<i16, u64> = new_streams(EXPECTED_REQUESTS);
        assert(streams_of(waiting) =~= Map::<i16, u64>::empty());
        Pending { next_stream: 0, waiting }
    }

    /// Gives out the next stream id.
    pub fn take_stream(&mut self) -> (id: i16)
        ensures
            id == old(self).next(),
            final(self).next() == next_stream_of(id),
            final(self)@ == old(self)@,
    {
        let id: i16 = self.next_stream;
        self.next_stream = if id == 32767 {
            -32768
        } else {
            id + 1
        };
        id
    }

    /// Lets a request wait for the response on its stream.
    pub fn insert(&mut self, stream_id: i16, waiter: u64)
        ensures
            final(self)@ == old(self)@.insert(stream_id, waiter),
            final(self).next() == old(self).next(),
    {
        insert_stream(&mut self.waiting, stream_id, waiter);
    }

    /// Takes out the request that a response on a stream is for.
    pub fn remove(&mut self, stream_id: i16) -> (r: Option<u64>)
        ensures
            match r {
                Some(waiter) => old(self)@.dom().contains(stream_id) && old(self)@[stream_id]
                    == waiter,
                None => !old(self)@.dom().contains(stream_id),
            },
            final(self)@ == old(self)@.remove(stream_id),
            final(self).next() == old(self).next(),
    {
        remove_stream(&mut self.waiting, stream_id)
    }

    /// Forgets all requests.
    pub fn clear(&mut self)
        ensures
            final(self)@ == Map::<i16, u64>::empty(),
            final(self).next() == old(self).next(),
    {
        clear_streams(&mut self.waiting);
        assert(self@ =~= Map::<i16, u64>::empty());
    }

    /// The number of requests that wait.
    pub fn len(&self) -> (n: usize)
        ensures
            n == self@.dom().len(),
    {
        count_streams(&self.waiting)
    }
}

/// The stream id that is given out `n` requests after another.
pub open spec fn stream_after(id: i16, n: nat) -> i16
    decreases n,
{
    if n == 0 {
        id
    } else {
        next_stream_of(stream_after(id, (n - 1) as nat))
    }
}

/// The `n`-th stream id counts up and wraps around.
proof fn lemma_stream_after(id: i16, n: nat)
    ensures
        (stream_after(id, n) - id - n) % 0x1_0000 == 0,
    decreases n,
{
    if n > 0 {
        lemma_stream_after(id, (n - 1) as nat);
    }
}

/// Stream ids come back only after all 65536 of them were given out: as long
/// as no more requests wait at a time, no two of them share a stream.
pub proof fn law_streams_differ(id: i16, m: nat, n: nat)
    requires
        m < n < m + 0x1_0000,
    ensures
        stream_after(id, m) != stream_after(id, n),
{
    lemma_stream_after(id, m);
    lemma_stream_after(id, n);
}

/// A response finds the request that was sent on its stream, whatever was
/// sent on other streams and answered there meanwhile.
pub proof fn law_response_finds_request(
    before: Map<i16, u64>,
    stream: i16,
    waiter: u64,
    other: i16,
    another: u64,
)
    requires
        other != stream,
    ensures
        before.insert(stream, waiter).insert(other, another)[stream] == waiter,
        before.insert(stream, waiter).remove(other).dom().contains(stream),
        before.insert(stream, waiter).remove(other)[stream] == waiter,
{
}

} // verus!
