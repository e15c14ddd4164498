//! When a writer that collects messages flushes its buffer.

use vstd::prelude::*;

verus! {

/// What the writer is doing.
#[derive(Debug, Clone, Copy, PartialEq, Eq, Structural)]
pub enum Phase {
    /// It waits for a first message; nothing is in its buffer.
    Waiting,
    /// It collects messages that come soon after.
    Collecting,
    /// It has ended.
    Ended,
}

/// What happens to the writer.
#[derive(Debug, Clone, Copy, PartialEq, Eq, Structural)]
pub enum Event {
    /// A message was written; the buffer now holds this many bytes.
    Written(usize),
    /// A message could not be written.
    WriteFailed,
    /// No more messages came in time.
    Idle,
    /// No more messages will come.
    Closed,
    /// The buffer could not be flushed.
    FlushFailed,
}

/// How a writer batches.
#[derive(Debug, Clone, Copy, PartialEq, Eq, Structural)]
pub struct Batching {
    /// A buffer of this many bytes is flushed at once.
    pub threshold: usize,
    /// After such a flush the writer waits for a first message again.
    pub wait_after_flush: bool,
    /// A message that fails while others are collected still has those flushed.
    pub flush_on_failure: bool,
}

/// What the writer does next.
#[derive(Debug, Clone, Copy, PartialEq, Eq, Structural)]
pub struct Next {
    /// The buffer is flushed first.
    pub flush: bool,
    pub phase: Phase,
}

/// What the client's writer, and the server's, flush at.
pub const SMALL_BATCH: usize = 4096;

/// What the driver handle's writer flushes at.
pub const LARGE_BATCH: usize = 32768;

/// How long the writers wait for more messages, in microseconds.
pub const FLUSH_TIMEOUT_MICROS: u64 = 50;

impl Batching {
    /// How the client writes requests.
    pub fn client() -> (b: Batching)
        ensures
            b == (Batching {
                threshold: SMALL_BATCH,
                wait_after_flush: true,
                flush_on_failure: false,
            }),
    {
        Batching { threshold: SMALL_BATCH, wait_after_flush: true, flush_on_failure: false }
    }

    /// How the server writes responses.
    pub fn server() -> (b: Batching)
        ensures
            b == (Batching {
                threshold: SMALL_BATCH,
                wait_after_flush: true,
                flush_on_failure: true,
            }),
    {
        Batching { threshold: SMALL_BATCH, wait_after_flush: true, flush_on_failure: true }
    }

    /// How the driver handle writes requests.
    pub fn handle() -> (b: Batching)
        ensures
            b == (Batching {
                threshold: LARGE_BATCH,
                wait_after_flush: false,
                flush_on_failure: true,
            }),
    {
        Batching { threshold: LARGE_BATCH, wait_after_flush: false, flush_on_failure: true }
    }

    /// What the writer does after an event.
    pub open spec fn step(self, phase: Phase, event: Event) -> Next {
        match (phase, event) {
            (Phase::Ended, _) => Next { flush: false, phase: Phase::Ended },
            (_, Event::FlushFailed) => Next { flush: false, phase: Phase::Ended },
            (_, Event::Closed) => Next { flush: true, phase: Phase::Ended },
            (Phase::Waiting, Event::Written(_)) => Next { flush: false, phase: Phase::Collecting },
            (Phase::Waiting, Event::WriteFailed) => Next { flush: true, phase: Phase::Ended },
            (Phase::Waiting, Event::Idle) => Next { flush: false, phase: Phase::Waiting },
            (Phase::Collecting, Event::Written(n)) => if n < self.threshold {
                Next { flush: false, phase: Phase::Collecting }
            } else {
                Next {
                    flush: true,
                    phase: if self.wait_after_flush {
                        Phase::Waiting
                    } else {
                        Phase::Collecting
                    },
                }
            },
            (Phase::Collecting, Event::WriteFailed) => Next {
                flush: self.flush_on_failure,
                phase: Phase::Ended,
            },
            (Phase::Collecting, Event::Idle) => Next { flush: true, phase: Phase::Waiting },
        }
    }

    /// Decides what the writer does after an event.
    pub fn next(&self, phase: Phase, event: Event) -> (next: Next)
        ensures
            next == self.step(phase, event),
    {
        match (phase, event) {
            (Phase::Ended, _) => Next { flush: false, phase: Phase::Ended },
            (_, Event::FlushFailed) => Next { flush: false, phase: Phase::Ended },
            (_, Event::Closed) => Next { flush: true, phase: Phase::Ended },
            (Phase::Waiting, Event::Written(_)) => Next { flush: false, phase: Phase::Collecting },
            (Phase::Waiting, Event::WriteFailed) => Next { flush: true, phase: Phase::Ended },
            (Phase::Waiting, Event::Idle) => Next { flush: false, phase: Phase::Waiting },
            (Phase::Collecting, Event::Written(n)) => if n < self.threshold {
                Next { flush: false, phase: Phase::Collecting }
            } else {
                Next {
                    flush: true,
                    phase: if self.wait_after_flush {
                        Phase::Waiting
                    } else {
                        Phase::Collecting
                    },
                }
            },
            (Phase::Collecting, Event::WriteFailed) => Next {
                flush: self.flush_on_failure,
                phase: Phase::Ended,
            },
            (Phase::Collecting, Event::Idle) => Next { flush: true, phase: Phase::Waiting },
        }
    }
}

/// A writer never waits on messages in its buffer: where it stops collecting,
/// it flushes first, and so it does when no more messages come.
pub proof fn law_nothing_is_held_back(batching: Batching, event: Event)
    ensures
        batching.step(Phase::Collecting, event).phase == Phase::Waiting ==> batching.step(
            Phase::Collecting,
            event,
        ).flush,
        batching.step(Phase::Collecting, Event::Closed) == (Next {
            flush: true,
            phase: Phase::Ended,
        }),
        batching.step(Phase::Collecting, Event::Idle).flush,
{
}

/// A writer that has ended stays so and flushes nothing; any other ends only
/// when no more messages come or something fails.
pub proof fn law_writer_ends_once(batching: Batching, phase: Phase, event: Event)
    ensures
        batching.step(Phase::Ended, event) == (Next { flush: false, phase: Phase::Ended }),
        phase != Phase::Ended && batching.step(phase, event).phase == Phase::Ended ==> event
            is Closed || event is FlushFailed || event is WriteFailed,
        event is Closed || event is FlushFailed || event is WriteFailed ==> batching.step(
            phase,
            event,
        ).phase == Phase::Ended,
        event is FlushFailed ==> !batching.step(phase, event).flush,
{
}

/// A writer collects messages until they reach its threshold: below it none
/// is flushed, from it on all are; the first message is not flushed alone.
pub proof fn law_messages_are_collected(batching: Batching, n: usize)
    ensures
        batching.step(Phase::Waiting, Event::Written(n)) == (Next {
            flush: false,
            phase: Phase::Collecting,
        }),
        batching.step(Phase::Collecting, Event::Written(n)).flush <==> n >= batching.threshold,
        batching.step(Phase::Collecting, Event::Written(n)).phase == Phase::Waiting <==> n
            >= batching.threshold && batching.wait_after_flush,
        batching.step(Phase::Collecting, Event::Written(n)).phase != Phase::Ended,
        batching.step(Phase::Waiting, Event::Idle) == (Next {
            flush: false,
            phase: Phase::Waiting,
        }),
{
}

} // verus!
