//! The queue between the thread that reads the pen and the one that draws.
//!
//! Readings wait in the order they arrived and are taken all at once. How long the newest of them
//! waited is the part of the pen's latency the application owns.

use vstd::prelude::*;

verus! {

/// How many readings one message may hold.
pub const CAPTURE_BATCH: usize = 64;

/// How many messages may wait before the pen thread takes them.
pub const CAPTURE_CAPACITY: usize = 8;

/// Whether readings the system coalesced are asked for.
pub const CAPTURE_HISTORY: bool = true;

/// Whether each reading is traced.
pub const CAPTURE_TRACE: bool = false;

/// Readings that wait, mathematically.
#[verifier::ext_equal]
pub ghost struct Waiting<S> {
    /// The readings, oldest first.
    pub samples: Seq<S>,
    /// When the newest of them was queued.
    pub newest_at: Option<u64>,
}

impl<S> Waiting<S> {
    /// Nothing waits.
    pub open spec fn nothing() -> Self {
        Waiting { samples: seq![], newest_at: None }
    }

    /// The readings with more queued behind them.
    pub open spec fn after_push(self, samples: Seq<S>, now: u64) -> Self {
        Waiting { samples: self.samples + samples, newest_at: Some(now) }
    }

    /// How long the newest reading has waited. Nothing queued is nothing waited.
    pub open spec fn waited(self, now: u64) -> int {
        match self.newest_at {
            Some(newest) => if now > newest {
                now - newest
            } else {
                0
            },
            None => 0,
        }
    }
}

/// A batch of readings, and how long the newest of them waited to be taken.
#[derive(Debug)]
pub struct PenBatch<S> {
    /// The readings, oldest first.
    pub samples: Vec<S>,
    /// How long the newest reading sat in the queue, in nanoseconds.
    pub waited: u64,
}

/// The queue the pen thread fills and the drawing thread drains.
#[derive(Debug)]
pub struct PenInbox<S> {
    samples: Vec<S>,
    newest_at: Option<u64>,
}

impl<S> View for PenInbox<S> {
    type V = Waiting<S>;

    closed spec fn view(&self) -> Waiting<S> {
        Waiting { samples: self.samples@, newest_at: self.newest_at }
    }
}

impl<S> Default for PenInbox<S> {
    fn default() -> (inbox: Self)
        ensures
            inbox@ == Waiting::<S>::nothing(),
    {
        let inbox: PenInbox<S> = PenInbox { samples: Vec::new(), newest_at: None };
        assert(inbox@ =~= Waiting::<S>::nothing());
        inbox
    }
}

impl<S: Copy> PenInbox<S> {
    /// Takes everything queued so far, leaving the queue empty.
    pub fn take(&mut self, now: u64) -> (batch: PenBatch<S>)
        ensures
            batch.samples@ == old(self)@.samples,
            batch.waited == old(self)@.waited(now),
            final(self)@ == Waiting::<S>::nothing(),
    {
        let mut samples: Vec<S> = Vec::new();
        std::mem::swap(&mut samples, &mut self.samples);
        let waited: u64 = match self.newest_at {
            Some(newest) => now.saturating_sub(newest),
            None => 0,
        };
        self.newest_at = None;
        assert(self@ =~= Waiting::<S>::nothing());
        PenBatch { samples, waited }
    }

    /// Appends a batch.
    pub fn push(&mut self, samples: &[S], now: u64)
        ensures
            final(self)@ == old(self)@.after_push(samples@, now),
    {
        let ghost held = self.samples@;
        let mut i: usize = 0;
        while i < samples.len()
            invariant
                i <= samples@.len(),
                held == old(self)@.samples,
                self.samples@ == held + samples@.take(i as int),
            decreases samples@.len() - i,
        {
            self.samples.push(samples[i]);
            assert(samples@.take(i + 1) =~= samples@.take(i as int).push(samples@[i as int]));
            assert(self.samples@ =~= held + samples@.take(i + 1));
            i = i + 1;
        }
        assert(samples@.take(i as int) =~= samples@);
        self.newest_at = Some(now);
        assert(self@ =~= old(self)@.after_push(samples@, now));
    }
}

/// The wait is measured from the newest reading: whatever was queued before it does not make it
/// longer.
pub proof fn the_wait_is_measured_from_the_newest<S>(
    queue: Waiting<S>,
    samples: Seq<S>,
    queued_at: u64,
    now: u64,
)
    requires
        now >= queued_at,
    ensures
        queue.after_push(samples, queued_at).waited(now) == now - queued_at,
{
}

/// What is queued in two batches comes out as if it had been queued in one: in order, and all of it.
pub proof fn batches_queue_up_in_order<S>(
    queue: Waiting<S>,
    first: Seq<S>,
    second: Seq<S>,
    at: u64,
    later: u64,
)
    ensures
        queue.after_push(first, at).after_push(second, later) == queue.after_push(
            first + second,
            later,
        ),
{
    assert(queue.after_push(first, at).after_push(second, later) =~= queue.after_push(
        first + second,
        later,
    ));
}

/// What the status bar says of the pen: it is attached, or why the mouse draws instead.
pub fn status(unavailable: Option<&str>) -> (status: String)
    ensures
        status@ == (match unavailable {
            None => "pen attached"@,
            Some(reason) => "drawing with the mouse: "@ + reason@,
        }),
{
    match unavailable {
        None => String::from_str("pen attached"),
        Some(reason) => String::from_str("drawing with the mouse: ").concat(reason),
    }
}

/// What is queued waits behind what was there, every reading as it came, and an empty queue has nothing
/// and has waited for nothing.
pub proof fn readings_wait_in_order<S>(queue: Waiting<S>, samples: Seq<S>, at: u64, now: u64, i: int)
    ensures
        queue.after_push(samples, at).samples.len() == queue.samples.len() + samples.len(),
        0 <= i < queue.samples.len() ==> queue.after_push(samples, at).samples[i]
            == queue.samples[i],
        0 <= i < samples.len() ==> queue.after_push(samples, at).samples[queue.samples.len() + i]
            == samples[i],
        queue.after_push(samples, at).newest_at == Some(at),
        now < at ==> queue.after_push(samples, at).waited(now) == 0,
        Waiting::<S>::nothing().samples.len() == 0,
        Waiting::<S>::nothing().waited(now) == 0,
{
}

/// Up to sixty-four readings come in one message and up to eight messages wait; what the system coalesced is asked
/// for, and nothing is traced.
pub proof fn readings_come_in_messages()
    ensures
        CAPTURE_BATCH == 64,
        CAPTURE_CAPACITY == 8,
        CAPTURE_HISTORY,
        !CAPTURE_TRACE,
{
}

} // verus!
