//! Bounded diagnostics of what a host did. Nothing in it comes from a guest.
use vstd::prelude::*;

use crate::tauri::webview::WebviewTestObservation;

verus! {

/// How many events are kept.
pub const TRACE_CAPACITY: usize = 512;

/// One event that the host observed.
#[derive(Clone, Copy, Debug)]
pub struct WebviewTestTraceEvent {
    /// Time since the recorder was made, in nanoseconds.
    pub elapsed: u64,
    /// A name that the host chose.
    pub phase: &'static str,
    pub opcode: Option<u32>,
    pub observation: Option<WebviewTestObservation>,
}

/// How many of so many events a recorder keeps.
pub open spec fn kept_after(events: nat) -> nat {
    if events < TRACE_CAPACITY { events } else { TRACE_CAPACITY as nat }
}

/// Keeps the first events and counts the rest.
#[derive(Debug)]
pub struct Recorder {
    start: u64,
    events: Vec<WebviewTestTraceEvent>,
    lost: usize,
}

impl Recorder {
    pub closed spec fn spec_start(&self) -> u64 {
        self.start
    }

    pub closed spec fn spec_events(&self) -> Seq<WebviewTestTraceEvent> {
        self.events@
    }

    pub closed spec fn spec_lost(&self) -> usize {
        self.lost
    }

    pub open spec fn wf(&self) -> bool {
        &&& self.spec_events().len() <= TRACE_CAPACITY
        &&& self.spec_lost() > 0 ==> self.spec_events().len() == TRACE_CAPACITY
    }

    /// Whether this is the recorder after one more event at that time.
    pub open spec fn follows(&self, before: &Recorder, at: u64) -> bool {
        &&& self.wf()
        &&& self.spec_start() == before.spec_start()
        &&& if before.spec_events().len() == TRACE_CAPACITY {
            &&& self.spec_events() == before.spec_events()
            &&& self.spec_lost() == if before.spec_lost() == usize::MAX {
                usize::MAX as int
            } else {
                before.spec_lost() + 1
            }
        } else {
            &&& self.spec_lost() == before.spec_lost()
            &&& self.spec_events().len() == before.spec_events().len() + 1
            &&& self.spec_events().drop_last() == before.spec_events()
            &&& self.spec_events().last().elapsed == if at < before.spec_start() {
                0
            } else {
                at - before.spec_start()
            }
        }
    }

    /// A recorder that counts time from `start`.
    pub fn new(start: u64) -> (recorder: Self)
        ensures
            recorder.wf(),
            recorder.spec_start() == start,
            recorder.spec_events().len() == 0,
            recorder.spec_lost() == 0,
    {
        Recorder { start, events: Vec::new(), lost: 0 }
    }

    /// Keeps an event, or counts it where there is no room.
    pub fn record(
        &mut self,
        at: u64,
        phase: &'static str,
        opcode: Option<u32>,
        observation: Option<WebviewTestObservation>,
    )
        requires
            old(self).wf(),
        ensures
            final(self).wf(),
            final(self).spec_start() == old(self).spec_start(),
            final(self).follows(old(self), at),
            if old(self).spec_events().len() == TRACE_CAPACITY {
                &&& final(self).spec_events() == old(self).spec_events()
                &&& final(self).spec_lost() == if old(self).spec_lost() == usize::MAX {
                    usize::MAX as int
                } else {
                    old(self).spec_lost() + 1
                }
            } else {
                &&& final(self).spec_lost() == old(self).spec_lost()
                &&& final(self).spec_events() == old(self).spec_events().push(
                    WebviewTestTraceEvent {
                        elapsed: if at < old(self).spec_start() {
                            0
                        } else {
                            (at - old(self).spec_start()) as u64
                        },
                        phase,
                        opcode,
                        observation,
                    },
                )
            },
    {
        if self.events.len() == TRACE_CAPACITY {
            if self.lost < usize::MAX {
                self.lost = self.lost + 1;
            }
            return ;
        }
        let elapsed: u64 = if at < self.start { 0 } else { at - self.start };
        let ghost before = self.events@;
        self.events.push(WebviewTestTraceEvent { elapsed, phase, opcode, observation });
        assert(self.events@.drop_last() =~= before);
    }

    /// What was kept, and how much was not.
    pub fn snapshot(&self) -> (snapshot: (Vec<WebviewTestTraceEvent>, usize))
        ensures
            snapshot.0@ == self.spec_events(),
            snapshot.1 == self.spec_lost(),
    {
        let mut events: Vec<WebviewTestTraceEvent> = Vec::new();
        for at in 0..self.events.len()
            invariant
                events@ == self.events@.take(at as int),
        {
            events.push(self.events[at]);
            assert(events@ =~= self.events@.take(at + 1));
        }
        assert(self.events@.take(self.events@.len() as int) =~= self.events@);
        (events, self.lost)
    }
}

/// Whether a list of recorders is the history of one, from its making on, with
/// events at those times.
pub open spec fn is_history(states: Seq<Recorder>, times: Seq<u64>) -> bool {
    &&& states.len() == times.len() + 1
    &&& states[0].wf() && states[0].spec_events().len() == 0 && states[0].spec_lost() == 0
    &&& forall|i: int|
        0 <= i < times.len() ==> (#[trigger] states[i + 1]).follows(&states[i], times[i])
}

/// Every event is kept or counted: the first ones are kept, as far as there is room,
/// and all others are counted as lost.
pub proof fn every_event_is_accounted_for(states: Seq<Recorder>, times: Seq<u64>)
    requires
        is_history(states, times),
        times.len() <= usize::MAX,
    ensures
        states.last().spec_events().len() == kept_after(times.len()),
        states.last().spec_lost() == times.len() - kept_after(times.len()),
    decreases times.len(),
{
    if times.len() > 0 {
        let before = states.drop_last();
        let earlier = times.drop_last();
        lemma_shorter_history(states, times);
        every_event_is_accounted_for(before, earlier);
        assert(states[times.len() - 1 + 1].follows(&states[times.len() - 1], times.last()));
    }
}

proof fn lemma_shorter_history(states: Seq<Recorder>, times: Seq<u64>)
    requires
        is_history(states, times),
        times.len() > 0,
    ensures
        is_history(states.drop_last(), times.drop_last()),
{
    let before = states.drop_last();
    let earlier = times.drop_last();
    assert forall|i: int| 0 <= i < earlier.len() implies (#[trigger] before[i + 1]).follows(
        &before[i],
        earlier[i],
    ) by {
        assert(states[i + 1].follows(&states[i], times[i]));
    }
}

/// Where time does not run backwards, neither do the events.
pub proof fn events_are_in_order(states: Seq<Recorder>, times: Seq<u64>)
    requires
        is_history(states, times),
        forall|i: int, j: int| 0 <= i < j < times.len() ==> times[i] <= times[j],
    ensures
        forall|i: int, j: int|
            0 <= i < j < states.last().spec_events().len()
                ==> states.last().spec_events()[i].elapsed
                <= states.last().spec_events()[j].elapsed,
{
    lemma_events_in_order(states, times);
}

proof fn lemma_events_in_order(states: Seq<Recorder>, times: Seq<u64>)
    requires
        is_history(states, times),
        forall|i: int, j: int| 0 <= i < j < times.len() ==> times[i] <= times[j],
    ensures
        states.last().spec_start() == states[0].spec_start(),
        forall|i: int, j: int|
            0 <= i < j < states.last().spec_events().len()
                ==> states.last().spec_events()[i].elapsed
                <= states.last().spec_events()[j].elapsed,
        times.len() > 0 ==> forall|i: int|
            0 <= i < states.last().spec_events().len() ==> (
            #[trigger] states.last().spec_events()[i]).elapsed <= if times.last()
                < states[0].spec_start() {
                0
            } else {
                times.last() - states[0].spec_start()
            },
    decreases times.len(),
{
    if times.len() > 0 {
        let before = states.drop_last();
        let earlier = times.drop_last();
        lemma_shorter_history(states, times);
        assert forall|i: int, j: int| 0 <= i < j < earlier.len() implies earlier[i]
            <= earlier[j] by {
            assert(times[i] <= times[j]);
        }
        lemma_events_in_order(before, earlier);
        let last = states.last();
        assert(states[times.len() - 1 + 1].follows(&states[times.len() - 1], times.last()));
        assert(before.last() == states[times.len() - 1]);
        if earlier.len() > 0 {
            assert(times[times.len() - 2] <= times[times.len() - 1]);
        }
        if before.last().spec_events().len() < TRACE_CAPACITY {
            let events = last.spec_events();
            assert forall|i: int| 0 <= i < events.len() - 1 implies #[trigger] events[i]
                == before.last().spec_events()[i] by {
                assert(events.drop_last()[i] == events[i]);
            }
            assert(events.last() == events[events.len() - 1]);
        }
    }
}

} // verus!
