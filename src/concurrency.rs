//! What a job does with a trigger that fires while an earlier run is still going.

use vstd::prelude::*;

verus! {

/// The policy a job declares for overlapping triggers.
#[derive(Clone, Copy, Debug, PartialEq, Eq, Structural)]
pub enum Concurrency {
    /// Drop the new trigger while a run is in flight.
    Skip,
    /// Defer the new trigger until the run in flight ends, keeping at most one.
    Queue,
    /// Start the new trigger alongside the runs in flight.
    Parallel,
}

/// Per-job run state: how many runs are in flight and whether one trigger waits.
#[derive(Clone, Copy, Debug, PartialEq, Eq, Structural)]
pub struct RunState {
    pub running: u32,
    pub pending: bool,
}

/// What the scheduler does with one trigger.
#[derive(Clone, Copy, Debug, PartialEq, Eq, Structural)]
pub enum TriggerDecision {
    /// Launch a run now.
    Start,
    /// Keep the trigger for when the run in flight ends.
    Defer,
    /// Drop the trigger.
    Drop,
}

/// An event in the life of one job's run state.
#[derive(Clone, Copy, Debug, PartialEq, Eq, Structural)]
pub enum RunEvent {
    /// The job's schedule became due.
    Trigger,
    /// One of its runs ended.
    Finish,
}

impl RunState {
    /// The state of a job that has never run.
    pub fn idle() -> (r: RunState)
        ensures
            r == idle_state(),
    {
        RunState { running: 0, pending: false }
    }
}

pub open spec fn idle_state() -> RunState {
    RunState { running: 0, pending: false }
}

/// The decision for a trigger and the state after it.
pub open spec fn trigger_spec(policy: Concurrency, s: RunState) -> (TriggerDecision, RunState) {
    if s.running == 0 {
        (TriggerDecision::Start, RunState { running: 1, pending: s.pending })
    } else {
        match policy {
            Concurrency::Skip => (TriggerDecision::Drop, s),
            Concurrency::Queue => (TriggerDecision::Defer, RunState { running: s.running, pending: true }),
            Concurrency::Parallel => if s.running < u32::MAX {
                (TriggerDecision::Start, RunState { running: (s.running + 1) as u32, pending: s.pending })
            } else {
                (TriggerDecision::Drop, s)
            },
        }
    }
}

/// Whether the end of a run launches the deferred trigger, and the state after it.
pub open spec fn finish_spec(s: RunState) -> (bool, RunState) {
    if s.running == 0 {
        (false, s)
    } else if s.running == 1 && s.pending {
        (true, RunState { running: 1, pending: false })
    } else {
        (false, RunState { running: (s.running - 1) as u32, pending: s.pending })
    }
}

/// One event: the state after it, and whether it launched a run.
pub open spec fn step_spec(policy: Concurrency, s: RunState, e: RunEvent) -> (RunState, bool) {
    match e {
        RunEvent::Trigger => (trigger_spec(policy, s).1, trigger_spec(policy, s).0 == TriggerDecision::Start),
        RunEvent::Finish => (finish_spec(s).1, finish_spec(s).0),
    }
}

/// The state after a sequence of events.
pub open spec fn state_after(policy: Concurrency, s: RunState, evs: Seq<RunEvent>) -> RunState
    decreases evs.len(),
{
    if evs.len() == 0 {
        s
    } else {
        state_after(policy, step_spec(policy, s, evs[0]).0, evs.drop_first())
    }
}

/// How many runs a sequence of events launches.
pub open spec fn starts_in(policy: Concurrency, s: RunState, evs: Seq<RunEvent>) -> nat
    decreases evs.len(),
{
    if evs.len() == 0 {
        0
    } else {
        (if step_spec(policy, s, evs[0]).1 { 1nat } else { 0nat }) + starts_in(
            policy,
            step_spec(policy, s, evs[0]).0,
            evs.drop_first(),
        )
    }
}

/// `n` triggers in a row.
pub open spec fn burst(n: nat) -> Seq<RunEvent> {
    Seq::new(n, |i: int| RunEvent::Trigger)
}

/// Decides what to do with a trigger and records it in the run state.
pub fn on_trigger(policy: Concurrency, state: &mut RunState) -> (d: TriggerDecision)
    ensures
        (d, *final(state)) == trigger_spec(policy, *old(state)),
{
    if state.running == 0 {
        state.running = 1;
        TriggerDecision::Start
    } else {
        match policy {
            Concurrency::Skip => TriggerDecision::Drop,
            Concurrency::Queue => {
                state.pending = true;
                TriggerDecision::Defer
            },
            Concurrency::Parallel => {
                if state.running < u32::MAX {
                    state.running = state.running + 1;
                    TriggerDecision::Start
                } else {
                    TriggerDecision::Drop
                }
            },
        }
    }
}

/// Records the end of a run; returns whether the deferred trigger is to be launched now.
pub fn on_finish(state: &mut RunState) -> (launch: bool)
    ensures
        (launch, *final(state)) == finish_spec(*old(state)),
{
    if state.running == 0 {
        false
    } else if state.running == 1 && state.pending {
        state.pending = false;
        true
    } else {
        state.running = state.running - 1;
        false
    }
}

/// Under `skip`, a trigger that arrives while a run is in flight is dropped and
/// leaves the state as it was; and from an idle job, no sequence of triggers and
/// run ends ever has two runs in flight at once.
pub proof fn lemma_skip_never_overlaps(s: RunState, evs: Seq<RunEvent>)
    requires
        s.running <= 1,
    ensures
        s.running >= 1 ==> trigger_spec(Concurrency::Skip, s) == (TriggerDecision::Drop, s),
        state_after(Concurrency::Skip, s, evs).running <= 1,
    decreases evs.len(),
{
    if evs.len() > 0 {
        lemma_skip_never_overlaps(step_spec(Concurrency::Skip, s, evs[0]).0, evs.drop_first());
    }
}

/// Under `queue`, runs of a job never overlap: from a state with at most one run
/// in flight, any sequence of triggers and run ends leaves at most one in flight.
pub proof fn lemma_queue_never_overlaps(s: RunState, evs: Seq<RunEvent>)
    requires
        s.running <= 1,
    ensures
        state_after(Concurrency::Queue, s, evs).running <= 1,
    decreases evs.len(),
{
    if evs.len() > 0 {
        lemma_queue_never_overlaps(step_spec(Concurrency::Queue, s, evs[0]).0, evs.drop_first());
    }
}

proof fn lemma_queue_burst(n: nat)
    ensures
        state_after(Concurrency::Queue, RunState { running: 1, pending: false }, burst(n))
            == (RunState { running: 1, pending: n > 0 }),
        starts_in(Concurrency::Queue, RunState { running: 1, pending: false }, burst(n)) == 0,
    decreases n,
{
    if n > 0 {
        lemma_queue_burst((n - 1) as nat);
        lemma_burst_from_pending((n - 1) as nat);
        assert(burst(n).drop_first() =~= burst((n - 1) as nat));
    }
}

proof fn lemma_burst_from_pending(n: nat)
    ensures
        state_after(Concurrency::Queue, RunState { running: 1, pending: true }, burst(n))
            == (RunState { running: 1, pending: true }),
        starts_in(Concurrency::Queue, RunState { running: 1, pending: true }, burst(n)) == 0,
    decreases n,
{
    if n > 0 {
        lemma_burst_from_pending((n - 1) as nat);
        assert(burst(n).drop_first() =~= burst((n - 1) as nat));
    }
}

proof fn lemma_split(policy: Concurrency, s: RunState, a: Seq<RunEvent>, b: Seq<RunEvent>)
    ensures
        state_after(policy, s, a + b) == state_after(policy, state_after(policy, s, a), b),
        starts_in(policy, s, a + b) == starts_in(policy, s, a) + starts_in(
            policy,
            state_after(policy, s, a),
            b,
        ),
    decreases a.len(),
{
    if a.len() > 0 {
        lemma_split(policy, step_spec(policy, s, a[0]).0, a.drop_first(), b);
        assert((a + b).drop_first() =~= a.drop_first() + b);
    } else {
        assert(a + b =~= b);
    }
}

/// Under `queue`, a burst of `n` triggers while one run is in flight, followed by
/// the end of that run, launches exactly one follow-up run if `n > 0` and none
/// otherwise: at most two runs in all, and nothing left waiting.
pub proof fn lemma_queue_coalesces(n: nat)
    ensures
        1 + starts_in(
            Concurrency::Queue,
            RunState { running: 1, pending: false },
            burst(n).push(RunEvent::Finish),
        ) == (if n > 0 { 2nat } else { 1nat }),
        !state_after(
            Concurrency::Queue,
            RunState { running: 1, pending: false },
            burst(n).push(RunEvent::Finish),
        ).pending,
{
    let busy = RunState { running: 1, pending: false };
    lemma_queue_burst(n);
    let fin = seq![RunEvent::Finish];
    assert(burst(n).push(RunEvent::Finish) =~= burst(n) + fin);
    lemma_split(Concurrency::Queue, busy, burst(n), fin);
    let mid = state_after(Concurrency::Queue, busy, burst(n));
    assert(fin.drop_first() =~= Seq::<RunEvent>::empty());
    assert(state_after(Concurrency::Queue, step_spec(Concurrency::Queue, mid, fin[0]).0, fin.drop_first())
        == step_spec(Concurrency::Queue, mid, fin[0]).0);
    assert(starts_in(Concurrency::Queue, step_spec(Concurrency::Queue, mid, fin[0]).0, fin.drop_first()) == 0);
    assert(starts_in(Concurrency::Queue, mid, fin) == (if n > 0 { 1nat } else { 0nat }));
}

} // verus!
