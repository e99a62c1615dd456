//! The job registry: jobs, their run state and next fire times, the reaction to
//! ticks, run ends and configuration reloads.

use vstd::prelude::*;
use crate::backoff::RetryConfig;
use crate::zone::{effective_offset, job_offset};
use crate::concurrency::{
    finish_spec, idle_state, on_finish, on_trigger, trigger_spec, Concurrency, RunState,
    TriggerDecision,
};

verus! {

/// The latest instant, in seconds since the Unix epoch, for which fire times are computed.
pub const MAX_SCHEDULE_TIME: i64 = 253402300799;

/// A scheduled unit of work. Durations are in milliseconds, instants in seconds
/// since the Unix epoch (UTC).
#[derive(Clone, Debug)]
pub struct Job {
    pub id: String,
    pub name: String,
    /// Cron expression, with a leading seconds field.
    pub schedule: String,
    pub timezone: Option<String>,
    pub command: String,
    pub timeout_ms: u64,
    pub concurrency: Concurrency,
    pub retry: Option<RetryConfig>,
    pub jitter_ms: Option<u64>,
    pub working_dir: Option<String>,
    pub enabled: bool,
}

/// The run state of a job and the instant it is next due.
#[derive(Clone, Copy, Debug, PartialEq, Eq, Structural)]
pub struct Slot {
    pub state: RunState,
    pub next_fire: Option<i64>,
}

/// The first instant strictly after `now` at which cron expression `expr`, read in
/// the zone `offset` seconds east of UTC, fires; `None` when the expression does
/// not parse, the offset is out of range, or it never fires again.
pub uninterp spec fn cron_next(expr: Seq<char>, offset: i32, now: i64) -> Option<i64>;

/// Relies on cron's `Schedule::from_str` to parse the expression and on
/// `Schedule::after(..).next()` for the first fire time after `now`, which cron
/// searches from `now + 1s` on, in chrono's fixed-offset zone.
#[verifier::external_body]
fn cron_next_after(expr: &String, offset: i32, now: i64) -> (r: Option<i64>)
    requires
        0 <= now <= MAX_SCHEDULE_TIME,
    ensures
        r == cron_next(expr@, offset, now),
        r matches Some(t) ==> t > now,
{
    let schedule = <cron::Schedule as std::str::FromStr>::from_str(expr).ok()?;
    let zone = chrono::FixedOffset::east_opt(offset)?;
    let start = chrono::DateTime::from_timestamp(now, 0)?.with_timezone(&zone);
    schedule.after(&start).next().map(|t| t.timestamp())
}

/// The next fire time of `expr` after `now`; none outside the supported range of instants.
pub open spec fn next_fire_spec(expr: Seq<char>, offset: i32, now: i64) -> Option<i64> {
    if 0 <= now <= MAX_SCHEDULE_TIME {
        cron_next(expr, offset, now)
    } else {
        None
    }
}

/// The first fire time of a cron expression, read at a fixed offset from UTC,
/// strictly after `now`.
pub fn next_fire_after(expr: &String, offset: i32, now: i64) -> (r: Option<i64>)
    ensures
        r == next_fire_spec(expr@, offset, now),
        r matches Some(t) ==> t > now,
{
    if 0 <= now && now <= MAX_SCHEDULE_TIME {
        cron_next_after(expr, offset, now)
    } else {
        None
    }
}

/// No two jobs share an id.
pub open spec fn unique_ids(jobs: Seq<Job>) -> bool {
    forall|i: int, j: int| 0 <= i < jobs.len() && 0 <= j < jobs.len() && i != j
        ==> (#[trigger] jobs[i]).id@ != (#[trigger] jobs[j]).id@
}

/// Some job in `jobs` has this id.
pub open spec fn has_id(jobs: Seq<Job>, id: Seq<char>) -> bool {
    exists|i: int| 0 <= i < jobs.len() && (#[trigger] jobs[i]).id@ == id
}

/// When job `job` next fires after `now`, with `default_offset` as the zone of
/// jobs that name none.
pub open spec fn job_next_fire(job: Job, default_offset: i32, now: i64) -> Option<i64> {
    next_fire_spec(job.schedule@, effective_offset(job.timezone, default_offset), now)
}

/// The slot of a job that has just been registered.
pub open spec fn fresh_slot(job: Job, default_offset: i32, now: i64) -> Slot {
    Slot { state: idle_state(), next_fire: job_next_fire(job, default_offset, now) }
}

/// Whether two jobs fire at the same instants: same expression, same zone.
pub open spec fn same_timing(a: Job, a_default: i32, b: Job, b_default: i32) -> bool {
    a.schedule@ == b.schedule@ && effective_offset(a.timezone, a_default) == effective_offset(
        b.timezone,
        b_default,
    )
}

/// The slot that job `job` gets on a reload, given the registry before it: a job
/// that was there keeps its run state, and its next fire time unless its timing
/// changed; a new job gets a fresh slot.
pub open spec fn reload_slot(
    old_jobs: Seq<Job>,
    old_slots: Seq<Slot>,
    old_default: i32,
    job: Job,
    default_offset: i32,
    now: i64,
) -> Slot {
    if has_id(old_jobs, job.id@) {
        let i = choose|i: int| 0 <= i < old_jobs.len() && (#[trigger] old_jobs[i]).id@ == job.id@;
        Slot {
            state: old_slots[i].state,
            next_fire: if same_timing(old_jobs[i], old_default, job, default_offset) {
                old_slots[i].next_fire
            } else {
                job_next_fire(job, default_offset, now)
            },
        }
    } else {
        fresh_slot(job, default_offset, now)
    }
}

/// A slot after a tick at `now`, and whether the tick launched a run of its job.
pub open spec fn tick_slot(job: Job, s: Slot, default_offset: i32, now: i64) -> (Slot, bool) {
    match s.next_fire {
        Some(t) => if job.enabled && t <= now {
            let (d, st) = trigger_spec(job.concurrency, s.state);
            (Slot { state: st, next_fire: job_next_fire(job, default_offset, now) }, d == TriggerDecision::Start)
        } else {
            (s, false)
        },
        None => (s, false),
    }
}

/// The ids of the jobs that a tick launches, in registry order.
pub open spec fn launched_ids(jobs: Seq<Job>, slots: Seq<Slot>, default_offset: i32, now: i64) -> Seq<Seq<char>>
    decreases jobs.len(),
{
    if jobs.len() == 0 || slots.len() == 0 {
        Seq::empty()
    } else {
        let k = (jobs.len() - 1) as int;
        let rest = launched_ids(jobs.drop_last(), slots.take(k), default_offset, now);
        if tick_slot(jobs[k], slots[k], default_offset, now).1 {
            rest.push(jobs[k].id@)
        } else {
            rest
        }
    }
}

/// A job list that can be loaded: ids unique, every timeout positive.
pub open spec fn valid_jobs(jobs: Seq<Job>) -> bool {
    &&& unique_ids(jobs)
    &&& forall|i: int| 0 <= i < jobs.len() ==> (#[trigger] jobs[i]).timeout_ms > 0
}

/// Whether a job list can be loaded: no two jobs share an id and every timeout is positive.
pub fn jobs_valid(jobs: &Vec<Job>) -> (r: bool)
    ensures
        r == valid_jobs(jobs@),
{
    let mut i: usize = 0;
    while i < jobs.len()
        invariant
            i <= jobs@.len(),
            forall|a: int, b: int| 0 <= a < i && 0 <= b < jobs@.len() && a != b
                ==> (#[trigger] jobs@[a]).id@ != (#[trigger] jobs@[b]).id@,
            forall|a: int| 0 <= a < i ==> (#[trigger] jobs@[a]).timeout_ms > 0,
        decreases jobs@.len() - i,
    {
        if jobs[i].timeout_ms == 0 {
            return false;
        }
        let mut j: usize = 0;
        while j < jobs.len()
            invariant
                i < jobs@.len(),
                j <= jobs@.len(),
                forall|b: int| 0 <= b < j && b != i ==> jobs@[i as int].id@ != (#[trigger] jobs@[b]).id@,
            decreases jobs@.len() - j,
        {
            if j != i && jobs[i].id == jobs[j].id {
                assert(jobs@[i as int].id@ == jobs@[j as int].id@);
                return false;
            }
            j = j + 1;
        }
        i = i + 1;
    }
    true
}

/// The registry of jobs with their run state, owned by the scheduler alone.
pub struct JobRegistry {
    jobs: Vec<Job>,
    slots: Vec<Slot>,
    default_offset: i32,
}

impl JobRegistry {
    /// The registered jobs, in configuration order.
    pub closed spec fn jobs_view(&self) -> Seq<Job> {
        self.jobs@
    }

    /// The slot of each registered job, at the same positions.
    pub closed spec fn slots_view(&self) -> Seq<Slot> {
        self.slots@
    }

    /// The zone, in seconds east of UTC, of the jobs that name none.
    pub closed spec fn default_offset_view(&self) -> i32 {
        self.default_offset
    }

    /// One slot per job, and no two jobs with the same id.
    pub open spec fn wf(&self) -> bool {
        &&& self.jobs_view().len() == self.slots_view().len()
        &&& unique_ids(self.jobs_view())
    }

    /// Seeds the registry from the first configuration; every job starts idle and
    /// due at its first fire time after `now`.
    pub fn new(jobs: Vec<Job>, default_offset: i32, now: i64) -> (r: JobRegistry)
        requires
            unique_ids(jobs@),
        ensures
            r.wf(),
            r.jobs_view() == jobs@,
            r.default_offset_view() == default_offset,
            forall|i: int| 0 <= i < jobs@.len() ==> r.slots_view()[i] == fresh_slot(
                #[trigger] jobs@[i],
                default_offset,
                now,
            ),
    {
        let mut slots: Vec<Slot> = Vec::new();
        let mut i: usize = 0;
        while i < jobs.len()
            invariant
                i <= jobs@.len(),
                slots@.len() == i,
                forall|k: int| 0 <= k < i ==> slots@[k] == fresh_slot(#[trigger] jobs@[k], default_offset, now),
            decreases jobs@.len() - i,
        {
            let offset = job_offset(&jobs[i].timezone, default_offset);
            let next_fire = next_fire_after(&jobs[i].schedule, offset, now);
            slots.push(Slot { state: RunState::idle(), next_fire });
            i = i + 1;
        }
        JobRegistry { jobs, slots, default_offset }
    }

    /// The number of registered jobs.
    pub fn len(&self) -> (r: usize)
        ensures
            r == self.jobs_view().len(),
    {
        self.jobs.len()
    }

    /// The job at position `i`.
    pub fn job(&self, i: usize) -> (r: &Job)
        requires
            i < self.jobs_view().len(),
        ensures
            *r == self.jobs_view()[i as int],
    {
        &self.jobs[i]
    }

    /// The slot of the job at position `i`.
    pub fn slot(&self, i: usize) -> (r: Slot)
        requires
            self.wf(),
            i < self.jobs_view().len(),
        ensures
            r == self.slots_view()[i as int],
    {
        self.slots[i]
    }

    /// The position of the job with this id, if one is registered.
    pub fn find(&self, id: &String) -> (r: Option<usize>)
        ensures
            r matches Some(i) ==> i < self.jobs_view().len() && self.jobs_view()[i as int].id@ == id@,
            r is None ==> !has_id(self.jobs_view(), id@),
    {
        let mut i: usize = 0;
        while i < self.jobs.len()
            invariant
                i <= self.jobs@.len(),
                forall|k: int| 0 <= k < i ==> (#[trigger] self.jobs@[k]).id@ != id@,
            decreases self.jobs@.len() - i,
        {
            if self.jobs[i].id == *id {
                return Some(i);
            }
            i = i + 1;
        }
        None
    }

    /// The ids of the registered jobs, in order.
    pub fn job_ids(&self) -> (r: Vec<String>)
        ensures
            r@.len() == self.jobs_view().len(),
            forall|i: int| 0 <= i < r@.len() ==> (#[trigger] r@[i])@ == self.jobs_view()[i].id@,
    {
        let mut r: Vec<String> = Vec::new();
        let mut i: usize = 0;
        while i < self.jobs.len()
            invariant
                i <= self.jobs@.len(),
                r@.len() == i,
                forall|k: int| 0 <= k < i ==> (#[trigger] r@[k])@ == self.jobs@[k].id@,
            decreases self.jobs@.len() - i,
        {
            r.push(self.jobs[i].id.clone());
            i = i + 1;
        }
        r
    }

    /// Replaces the job list: jobs left out are dropped with their run state, new
    /// ones are registered idle with a fresh fire time, and jobs in both lists take
    /// the new settings while keeping their run state.
    pub fn apply_config_update(&mut self, jobs: Vec<Job>, default_offset: i32, now: i64)
        requires
            old(self).wf(),
            unique_ids(jobs@),
        ensures
            final(self).wf(),
            final(self).jobs_view() == jobs@,
            final(self).default_offset_view() == default_offset,
            forall|i: int| 0 <= i < jobs@.len() ==> final(self).slots_view()[i] == reload_slot(
                old(self).jobs_view(),
                old(self).slots_view(),
                old(self).default_offset_view(),
                #[trigger] jobs@[i],
                default_offset,
                now,
            ),
    {
        let mut slots: Vec<Slot> = Vec::new();
        let mut i: usize = 0;
        while i < jobs.len()
            invariant
                i <= jobs@.len(),
                slots@.len() == i,
                self.jobs@.len() == self.slots@.len(),
                unique_ids(self.jobs@),
                forall|k: int| 0 <= k < i ==> slots@[k] == reload_slot(
                    self.jobs@,
                    self.slots@,
                    self.default_offset,
                    #[trigger] jobs@[k],
                    default_offset,
                    now,
                ),
            decreases jobs@.len() - i,
        {
            let job = &jobs[i];
            let slot = match self.find(&job.id) {
                Some(j) => {
                    proof {
                        let c = choose|c: int| 0 <= c < self.jobs@.len() && (#[trigger] self.jobs@[c]).id@ == job.id@;
                        assert(self.jobs@[c].id@ == self.jobs@[j as int].id@);
                        assert(c == j as int);
                    }
                    let old_slot = self.slots[j];
                    let new_offset = job_offset(&job.timezone, default_offset);
                    let old_offset = job_offset(&self.jobs[j].timezone, self.default_offset);
                    let next_fire = if self.jobs[j].schedule == job.schedule && old_offset == new_offset {
                        old_slot.next_fire
                    } else {
                        next_fire_after(&job.schedule, new_offset, now)
                    };
                    Slot { state: old_slot.state, next_fire }
                },
                None => {
                    let offset = job_offset(&job.timezone, default_offset);
                    Slot { state: RunState::idle(), next_fire: next_fire_after(&job.schedule, offset, now) }
                },
            };
            slots.push(slot);
            i = i + 1;
        }
        self.jobs = jobs;
        self.slots = slots;
        self.default_offset = default_offset;
    }

    /// Records the end of a run of job `id`; returns whether its deferred trigger is
    /// to be launched now. The end of a run of a job no longer registered changes nothing.
    pub fn finish_run(&mut self, id: &String) -> (launch: bool)
        requires
            old(self).wf(),
        ensures
            final(self).wf(),
            final(self).jobs_view() == old(self).jobs_view(),
            !has_id(old(self).jobs_view(), id@) ==> !launch && final(self).slots_view() == old(self).slots_view(),
            forall|i: int| 0 <= i < old(self).jobs_view().len() && (#[trigger] old(self).jobs_view()[i]).id@ == id@
                ==> launch == finish_spec(old(self).slots_view()[i].state).0
                && final(self).slots_view() == old(self).slots_view().update(
                    i,
                    Slot { state: finish_spec(old(self).slots_view()[i].state).1, ..old(self).slots_view()[i] },
                ),
    {
        match self.find(id) {
            Some(i) => {
                let mut slot = self.slots[i];
                let launch = on_finish(&mut slot.state);
                self.slots.set(i, slot);
                launch
            },
            None => false,
        }
    }

    /// Fires every enabled job that is due at `now`: advances its fire time past
    /// `now` and applies its concurrency policy. Returns the ids of the jobs to launch.
    pub fn tick(&mut self, now: i64) -> (r: Vec<String>)
        requires
            old(self).wf(),
        ensures
            final(self).wf(),
            final(self).jobs_view() == old(self).jobs_view(),
            final(self).default_offset_view() == old(self).default_offset_view(),
            forall|i: int| 0 <= i < old(self).jobs_view().len() ==> final(self).slots_view()[i] == tick_slot(
                #[trigger] old(self).jobs_view()[i],
                old(self).slots_view()[i],
                old(self).default_offset_view(),
                now,
            ).0,
            r@.map_values(|s: String| s@) == launched_ids(
                old(self).jobs_view(),
                old(self).slots_view(),
                old(self).default_offset_view(),
                now,
            ),
    {
        let ghost old_slots = self.slots@;
        let ghost old_jobs = self.jobs@;
        let mut r: Vec<String> = Vec::new();
        let mut i: usize = 0;
        while i < self.jobs.len()
            invariant
                i <= self.jobs@.len(),
                self.jobs@ == old_jobs,
                self.jobs@.len() == self.slots@.len(),
                old_slots.len() == self.slots@.len(),
                unique_ids(self.jobs@),
                self.default_offset == old(self).default_offset,
                forall|k: int| 0 <= k < i ==> self.slots@[k] == tick_slot(
                    #[trigger] self.jobs@[k],
                    old_slots[k],
                    self.default_offset,
                    now,
                ).0,
                forall|k: int| i <= k < self.slots@.len() ==> self.slots@[k] == old_slots[k],
                r@.map_values(|s: String| s@) == launched_ids(
                    self.jobs@.take(i as int),
                    old_slots.take(i as int),
                    self.default_offset,
                    now,
                ),
            decreases self.jobs@.len() - i,
        {
            let mut slot = self.slots[i];
            let mut launch = false;
            if let Some(t) = slot.next_fire {
                if self.jobs[i].enabled && t <= now {
                    let d = on_trigger(self.jobs[i].concurrency, &mut slot.state);
                    let offset = job_offset(&self.jobs[i].timezone, self.default_offset);
                    slot.next_fire = next_fire_after(&self.jobs[i].schedule, offset, now);
                    launch = d == TriggerDecision::Start;
                }
            }
            proof {
                let ti = i as int;
                assert(self.jobs@.take(ti + 1).drop_last() =~= self.jobs@.take(ti));
                assert(old_slots.take(ti + 1).take(ti) =~= old_slots.take(ti));
                assert(self.jobs@.take(ti + 1)[ti] == self.jobs@[ti]);
                assert(old_slots.take(ti + 1)[ti] == old_slots[ti]);
            }
            if launch {
                r.push(self.jobs[i].id.clone());
            }
            proof {
                assert(r@.map_values(|s: String| s@) =~= launched_ids(
                    self.jobs@.take(i + 1),
                    old_slots.take(i + 1),
                    self.default_offset,
                    now,
                ));
            }
            self.slots.set(i, slot);
            i = i + 1;
        }
        proof {
            assert(self.jobs@.take(i as int) =~= self.jobs@);
            assert(old_slots.take(i as int) =~= old_slots);
        }
        r
    }
}

/// A reload drops the run state of every job left out of the new list, starts
/// every job new to the registry idle and due at its first fire time after the
/// reload, keeps the run state of every job that stays, and leaves the fire time
/// of a job that stays with the same timing exactly as it was.
pub proof fn lemma_reload_effects(before: JobRegistry, after: JobRegistry, jobs: Seq<Job>, default_offset: i32, now: i64)
    requires
        before.wf(),
        unique_ids(jobs),
        after.jobs_view() == jobs,
        after.slots_view().len() == jobs.len(),
        forall|i: int| 0 <= i < jobs.len() ==> after.slots_view()[i] == reload_slot(
            before.jobs_view(),
            before.slots_view(),
            before.default_offset_view(),
            #[trigger] jobs[i],
            default_offset,
            now,
        ),
    ensures
        forall|id: Seq<char>| has_id(before.jobs_view(), id) && !has_id(jobs, id) ==> !has_id(after.jobs_view(), id),
        forall|i: int| 0 <= i < jobs.len() && !has_id(before.jobs_view(), (#[trigger] jobs[i]).id@) ==> {
            &&& after.slots_view()[i].state == idle_state()
            &&& after.slots_view()[i].next_fire == job_next_fire(jobs[i], default_offset, now)
        },
        forall|i: int, j: int|
            0 <= i < jobs.len() && 0 <= j < before.jobs_view().len()
                && (#[trigger] jobs[i]).id@ == (#[trigger] before.jobs_view()[j]).id@
                && same_timing(before.jobs_view()[j], before.default_offset_view(), jobs[i], default_offset)
            ==> after.slots_view()[i] == before.slots_view()[j],
        forall|i: int, j: int|
            0 <= i < jobs.len() && 0 <= j < before.jobs_view().len()
                && (#[trigger] jobs[i]).id@ == (#[trigger] before.jobs_view()[j]).id@
            ==> after.slots_view()[i].state == before.slots_view()[j].state,
{
    let bj = before.jobs_view();
    assert forall|i: int, j: int|
        0 <= i < jobs.len() && 0 <= j < bj.len() && (#[trigger] jobs[i]).id@ == (#[trigger] bj[j]).id@
    implies
        after.slots_view()[i].state == before.slots_view()[j].state
        && (same_timing(bj[j], before.default_offset_view(), jobs[i], default_offset)
            ==> after.slots_view()[i] == before.slots_view()[j])
    by {
        assert(has_id(bj, jobs[i].id@));
        let c = choose|c: int| 0 <= c < bj.len() && (#[trigger] bj[c]).id@ == jobs[i].id@;
        assert(c == j);
    }
}

} // verus!
