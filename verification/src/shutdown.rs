use vstd::prelude::*;

verus! {

/// The shutdown coordinator: a stopping flag plus a count of dispatched
/// handlers still running. The listener asks it before every receive;
/// the shutdown path waits until the count reaches zero, and only then
/// closes the index and removes the socket.
pub struct Coordinator {
    stopping: bool,
    in_flight: u64,
}

impl Coordinator {
    /// Whether shutdown has been requested.
    pub closed spec fn stopping_spec(&self) -> bool {
        self.stopping
    }

    /// How many dispatched handlers have not finished yet.
    pub closed spec fn in_flight_spec(&self) -> u64 {
        self.in_flight
    }

    pub fn new() -> (c: Self)
        ensures
            !c.stopping_spec(),
            c.in_flight_spec() == 0,
    {
        Coordinator { stopping: false, in_flight: 0 }
    }

    /// Requests shutdown. Idempotent: setting the flag twice is a
    /// no-op, and it is never cleared again.
    pub fn request_stop(&mut self)
        ensures
            final(self).stopping_spec(),
            final(self).in_flight_spec() == old(self).in_flight_spec(),
    {
        self.stopping = true;
    }

    /// Whether shutdown has been requested.
    pub fn is_stopping(&self) -> (r: bool)
        ensures
            r == self.stopping_spec(),
    {
        self.stopping
    }

    /// The test at the top of the listener loop: admits one handler
    /// unless the stop flag is set (or the in-flight counter is
    /// saturated). No new work begins once the flag is observed.
    pub fn try_dispatch(&mut self) -> (dispatched: bool)
        ensures
            final(self).stopping_spec() == old(self).stopping_spec(),
            dispatched == (!old(self).stopping_spec() && old(self).in_flight_spec() < u64::MAX),
            final(self).in_flight_spec() == if dispatched {
                old(self).in_flight_spec() + 1
            } else {
                old(self).in_flight_spec() as int
            },
    {
        if self.stopping || self.in_flight == u64::MAX {
            false
        } else {
            self.in_flight = self.in_flight + 1;
            true
        }
    }

    /// One handler, already dispatched, completes. Allowed whether or
    /// not shutdown was requested meanwhile: in-flight work is always
    /// run to completion, never cancelled.
    pub fn finish(&mut self)
        ensures
            final(self).stopping_spec() == old(self).stopping_spec(),
            final(self).in_flight_spec() == if old(self).in_flight_spec() > 0 {
                old(self).in_flight_spec() - 1
            } else {
                0int
            },
    {
        if self.in_flight > 0 {
            self.in_flight = self.in_flight - 1;
        }
    }

    /// Whether every dispatched handler has completed: the drain the
    /// shutdown path waits for.
    pub fn drained(&self) -> (r: bool)
        ensures
            r == (self.in_flight_spec() == 0),
    {
        self.in_flight == 0
    }
}

// ---------------------------------------------------------------------------
// The drain protocol as a transition system
// ---------------------------------------------------------------------------

/// The coordinator's abstract state.
pub struct CoordState {
    pub stopping: bool,
    pub in_flight: nat,
}

/// What can happen to the coordinator.
pub enum CoordEvent {
    /// Shutdown is requested.
    Stop,
    /// The listener admits one new handler.
    Dispatch,
    /// A dispatched handler completes.
    Finish,
}

/// When an event may happen: a dispatch only while not stopping, a
/// finish only while work is in flight, a stop at any time.
pub open spec fn coord_enabled(s: CoordState, e: CoordEvent) -> bool {
    match e {
        CoordEvent::Stop => true,
        CoordEvent::Dispatch => !s.stopping,
        CoordEvent::Finish => s.in_flight > 0,
    }
}

/// What an event does.
pub open spec fn coord_step(s: CoordState, e: CoordEvent) -> CoordState {
    match e {
        CoordEvent::Stop => CoordState { stopping: true, ..s },
        CoordEvent::Dispatch => CoordState { in_flight: s.in_flight + 1, ..s },
        CoordEvent::Finish => CoordState { in_flight: (s.in_flight - 1) as nat, ..s },
    }
}

/// The state after a run of events.
pub open spec fn trace_state(s0: CoordState, evs: Seq<CoordEvent>) -> CoordState
    decreases evs.len(),
{
    if evs.len() == 0 {
        s0
    } else {
        coord_step(trace_state(s0, evs.drop_last()), evs.last())
    }
}

/// A run in which every event was enabled when it happened.
pub open spec fn valid_trace(s0: CoordState, evs: Seq<CoordEvent>) -> bool
    decreases evs.len(),
{
    if evs.len() == 0 {
        true
    } else {
        valid_trace(s0, evs.drop_last()) && coord_enabled(
            trace_state(s0, evs.drop_last()),
            evs.last(),
        )
    }
}

/// Graceful drain: from the moment the stop flag is set, it stays set,
/// no run of events contains a dispatch — no new request ever starts —
/// and the in-flight count can only fall; yet while any handler is
/// still in flight, its completion stays enabled, so work already
/// dispatched is never cut off.
pub proof fn lemma_graceful_drain(s0: CoordState, evs: Seq<CoordEvent>)
    requires
        s0.stopping,
        valid_trace(s0, evs),
    ensures
        trace_state(s0, evs).stopping,
        forall|i: int| 0 <= i < evs.len() ==> !((#[trigger] evs[i]) is Dispatch),
        trace_state(s0, evs).in_flight <= s0.in_flight,
        trace_state(s0, evs).in_flight > 0 ==> coord_enabled(
            trace_state(s0, evs),
            CoordEvent::Finish,
        ),
    decreases evs.len(),
{
    if evs.len() > 0 {
        lemma_graceful_drain(s0, evs.drop_last());
        assert forall|i: int| 0 <= i < evs.len() implies !((#[trigger] evs[i]) is Dispatch) by {
            if i < evs.len() - 1 {
                assert(evs[i] == evs.drop_last()[i]);
            } else {
                assert(evs[i] == evs.last());
            }
        }
    }
}

} // verus!
