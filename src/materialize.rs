//! The protocol that replaces a job's working directory with the mirror's current
//! tree: build in the job's private staging directory, rename the old tree aside,
//! rename the new one into place, then drop the old one. The caller performs each
//! step on disk and reports whether it succeeded; the protocol decides what comes
//! next.

use vstd::prelude::*;

verus! {

/// A step of a materialisation.
#[derive(Clone, Copy, Debug, PartialEq, Eq, Structural)]
pub enum SyncStep {
    /// Remove a staging directory left over by an earlier attempt.
    ClearTemp,
    /// Create the empty staging directory.
    CreateTemp,
    /// Export the mirror's current tree as an archive.
    Export,
    /// Extract the archive into the staging directory.
    Extract,
    /// Remove a set-aside tree left over by an earlier attempt.
    ClearRetired,
    /// Rename the job directory, if there is one, to the set-aside directory.
    SetAside,
    /// Rename the staging directory to the job directory.
    Swap,
    /// Remove the set-aside old tree.
    DropRetired,
    /// Rename the set-aside tree back to the job directory after a failed swap.
    Restore,
    /// Remove the staging directory after a failure.
    Cleanup,
    /// The job directory holds the new tree.
    Done,
    /// The materialisation failed.
    Failed,
}

/// The step that follows `step` when it succeeded (`ok`) or failed.
pub open spec fn next_step_spec(step: SyncStep, ok: bool) -> SyncStep {
    match step {
        SyncStep::ClearTemp => if ok { SyncStep::CreateTemp } else { SyncStep::Failed },
        SyncStep::CreateTemp => if ok { SyncStep::Export } else { SyncStep::Cleanup },
        SyncStep::Export => if ok { SyncStep::Extract } else { SyncStep::Cleanup },
        SyncStep::Extract => if ok { SyncStep::ClearRetired } else { SyncStep::Cleanup },
        SyncStep::ClearRetired => if ok { SyncStep::SetAside } else { SyncStep::Cleanup },
        SyncStep::SetAside => if ok { SyncStep::Swap } else { SyncStep::Cleanup },
        SyncStep::Swap => if ok { SyncStep::DropRetired } else { SyncStep::Restore },
        SyncStep::DropRetired => SyncStep::Done,
        SyncStep::Restore => SyncStep::Cleanup,
        SyncStep::Cleanup => SyncStep::Failed,
        SyncStep::Done => SyncStep::Done,
        SyncStep::Failed => SyncStep::Failed,
    }
}

/// The first step of a materialisation.
pub fn first_step() -> (r: SyncStep)
    ensures
        r == SyncStep::ClearTemp,
{
    SyncStep::ClearTemp
}

/// Whether the materialisation has ended.
pub fn is_final(step: SyncStep) -> (r: bool)
    ensures
        r == (step == SyncStep::Done || step == SyncStep::Failed),
{
    match step {
        SyncStep::Done | SyncStep::Failed => true,
        _ => false,
    }
}

/// The step that follows `step`, given whether it succeeded.
pub fn next_step(step: SyncStep, ok: bool) -> (r: SyncStep)
    ensures
        r == next_step_spec(step, ok),
{
    match step {
        SyncStep::ClearTemp => if ok { SyncStep::CreateTemp } else { SyncStep::Failed },
        SyncStep::CreateTemp => if ok { SyncStep::Export } else { SyncStep::Cleanup },
        SyncStep::Export => if ok { SyncStep::Extract } else { SyncStep::Cleanup },
        SyncStep::Extract => if ok { SyncStep::ClearRetired } else { SyncStep::Cleanup },
        SyncStep::ClearRetired => if ok { SyncStep::SetAside } else { SyncStep::Cleanup },
        SyncStep::SetAside => if ok { SyncStep::Swap } else { SyncStep::Cleanup },
        SyncStep::Swap => if ok { SyncStep::DropRetired } else { SyncStep::Restore },
        SyncStep::DropRetired => SyncStep::Done,
        SyncStep::Restore => SyncStep::Cleanup,
        SyncStep::Cleanup => SyncStep::Failed,
        SyncStep::Done => SyncStep::Done,
        SyncStep::Failed => SyncStep::Failed,
    }
}

/// What a directory holds, as far as the protocol is concerned.
pub ghost enum Tree {
    /// A tree that was there before, identified by a version.
    Old(int),
    /// An empty directory.
    Empty,
    /// Part of a tree: an extraction or a removal that stopped half-way.
    Partial,
    /// The mirror's complete current tree.
    New,
}

/// The job directory, its staging directory and its set-aside directory.
pub ghost struct Dirs {
    pub job: Option<Tree>,
    pub temp: Option<Tree>,
    pub retired: Option<Tree>,
}

/// What a step does to the directories when it succeeds or fails. A removal or an
/// extraction that fails may leave part of a tree; a rename is atomic, so one that
/// fails changes nothing.
pub open spec fn effect(d: Dirs, step: SyncStep, ok: bool) -> Dirs {
    match step {
        SyncStep::ClearTemp => Dirs { temp: if ok { None } else { Some(Tree::Partial) }, ..d },
        SyncStep::CreateTemp => if ok { Dirs { temp: Some(Tree::Empty), ..d } } else { d },
        SyncStep::Extract => Dirs { temp: Some(if ok { Tree::New } else { Tree::Partial }), ..d },
        SyncStep::ClearRetired => Dirs { retired: if ok { None } else { Some(Tree::Partial) }, ..d },
        SyncStep::SetAside => if ok { Dirs { job: None, retired: d.job, ..d } } else { d },
        SyncStep::Swap => if ok { Dirs { job: d.temp, temp: None, ..d } } else { d },
        SyncStep::DropRetired => Dirs { retired: if ok { None } else { Some(Tree::Partial) }, ..d },
        SyncStep::Restore => if ok { Dirs { job: d.retired, retired: None, ..d } } else { d },
        SyncStep::Cleanup => Dirs { temp: if ok { None } else { Some(Tree::Partial) }, ..d },
        _ => d,
    }
}

/// Runs the protocol from `step` on the reported outcomes, until it ends or the
/// outcomes run out: the step reached, the directories then, and the outcomes used.
pub open spec fn run(step: SyncStep, d: Dirs, outcomes: Seq<bool>) -> (SyncStep, Dirs, nat)
    decreases outcomes.len(),
{
    if outcomes.len() == 0 || step == SyncStep::Done || step == SyncStep::Failed {
        (step, d, 0)
    } else {
        let r = run(next_step_spec(step, outcomes[0]), effect(d, step, outcomes[0]), outcomes.drop_first());
        (r.0, r.1, r.2 + 1)
    }
}

/// The position of each step before the swap in a run from the start.
pub open spec fn position(step: SyncStep) -> int {
    match step {
        SyncStep::ClearTemp => 0,
        SyncStep::CreateTemp => 1,
        SyncStep::Export => 2,
        SyncStep::Extract => 3,
        SyncStep::ClearRetired => 4,
        SyncStep::SetAside => 5,
        SyncStep::Swap => 6,
        _ => 7,
    }
}

proof fn lemma_cleanup_path(step: SyncStep, d: Dirs, outcomes: Seq<bool>)
    requires
        step == SyncStep::Cleanup || step == SyncStep::Failed,
    ensures
        run(step, d, outcomes).1.job == d.job,
        run(step, d, outcomes).0 != SyncStep::Done,
        step == SyncStep::Cleanup && outcomes.len() > 0 && outcomes[0] ==> run(step, d, outcomes).1.temp is None,
    decreases outcomes.len(),
{
    if outcomes.len() > 0 && step == SyncStep::Cleanup {
        lemma_cleanup_path(SyncStep::Failed, effect(d, step, outcomes[0]), outcomes.drop_first());
    }
}

proof fn lemma_before_swap(step: SyncStep, d: Dirs, outcomes: Seq<bool>)
    requires
        position(step) <= 5,
        exists|j: int| 0 <= j < 6 - position(step) && j < outcomes.len() && !#[trigger] outcomes[j],
    ensures
        run(step, d, outcomes).1.job == d.job,
        run(step, d, outcomes).0 != SyncStep::Done,
    decreases outcomes.len(),
{
    let j = choose|j: int| 0 <= j < 6 - position(step) && j < outcomes.len() && !#[trigger] outcomes[j];
    let nxt = next_step_spec(step, outcomes[0]);
    let d2 = effect(d, step, outcomes[0]);
    let rest = outcomes.drop_first();
    assert(run(step, d, outcomes).1 == run(nxt, d2, rest).1);
    assert(run(step, d, outcomes).0 == run(nxt, d2, rest).0);
    if !outcomes[0] {
        lemma_cleanup_path(nxt, d2, rest);
    } else {
        assert(j > 0);
        assert(rest[j - 1] == outcomes[j]);
        lemma_before_swap(nxt, d2, rest);
    }
}

proof fn lemma_swap_fails(step: SyncStep, d: Dirs, outcomes: Seq<bool>, job: Option<Tree>)
    requires
        4 <= position(step) <= 6,
        position(step) == 4 ==> d.job == job,
        position(step) == 5 ==> d.job == job,
        position(step) == 6 ==> d.job is None && d.retired == job,
        7 - position(step) < outcomes.len(),
        forall|j: int| 0 <= j < 6 - position(step) ==> #[trigger] outcomes[j],
        !outcomes[6 - position(step)],
        outcomes[7 - position(step)],
    ensures
        run(step, d, outcomes).1.job == job,
        run(step, d, outcomes).0 != SyncStep::Done,
    decreases outcomes.len(),
{
    let nxt = next_step_spec(step, outcomes[0]);
    let d2 = effect(d, step, outcomes[0]);
    let rest = outcomes.drop_first();
    assert(run(step, d, outcomes).1 == run(nxt, d2, rest).1);
    assert(run(step, d, outcomes).0 == run(nxt, d2, rest).0);
    if position(step) == 6 {
        assert(nxt == SyncStep::Restore);
        assert(rest[0] == outcomes[1]);
        let d3 = effect(d2, nxt, rest[0]);
        assert(d3.job == job);
        lemma_cleanup_path(SyncStep::Cleanup, d3, rest.drop_first());
        assert(run(nxt, d2, rest).1 == run(SyncStep::Cleanup, d3, rest.drop_first()).1);
        assert(run(nxt, d2, rest).0 == run(SyncStep::Cleanup, d3, rest.drop_first()).0);
    } else {
        assert(outcomes[0]);
        assert forall|j: int| 0 <= j < 6 - position(nxt) implies #[trigger] rest[j] by {
            assert(rest[j] == outcomes[j + 1]);
        }
        assert(rest[6 - position(nxt)] == outcomes[6 - position(step)]);
        assert(rest[7 - position(nxt)] == outcomes[7 - position(step)]);
        lemma_swap_fails(nxt, d2, rest, job);
    }
}

proof fn lemma_success_path(step: SyncStep, d: Dirs, outcomes: Seq<bool>)
    requires
        step == SyncStep::ClearRetired || step == SyncStep::SetAside || step == SyncStep::Swap ==> d.temp
            == Some(Tree::New),
        step == SyncStep::DropRetired ==> d.job == Some(Tree::New) && d.temp is None,
        step != SyncStep::Done,
        step != SyncStep::Failed,
    ensures
        run(step, d, outcomes).0 == SyncStep::Done ==> run(step, d, outcomes).1.job == Some(Tree::New)
            && run(step, d, outcomes).1.temp is None,
    decreases outcomes.len(),
{
    if outcomes.len() > 0 {
        let nxt = next_step_spec(step, outcomes[0]);
        let d2 = effect(d, step, outcomes[0]);
        let rest = outcomes.drop_first();
        assert(run(step, d, outcomes) == (run(nxt, d2, rest).0, run(nxt, d2, rest).1, run(nxt, d2, rest).2 + 1));
        if nxt == SyncStep::Cleanup {
            lemma_cleanup_path(nxt, d2, rest);
        } else if nxt == SyncStep::Restore {
            if rest.len() > 0 {
                lemma_cleanup_path(SyncStep::Cleanup, effect(d2, nxt, rest[0]), rest.drop_first());
            }
        } else if nxt != SyncStep::Done && nxt != SyncStep::Failed {
            lemma_success_path(nxt, d2, rest);
        }
    }
}

proof fn lemma_fail_then_clean(step: SyncStep, d: Dirs, outcomes: Seq<bool>, f: int)
    requires
        position(step) <= 5,
        1 <= f <= 5,
        position(step) <= f,
        f - position(step) + 1 < outcomes.len(),
        forall|j: int| 0 <= j < f - position(step) ==> #[trigger] outcomes[j],
        !outcomes[f - position(step)],
        outcomes[f - position(step) + 1],
    ensures
        run(step, d, outcomes).1.temp is None,
    decreases outcomes.len(),
{
    let nxt = next_step_spec(step, outcomes[0]);
    let d2 = effect(d, step, outcomes[0]);
    let rest = outcomes.drop_first();
    assert(run(step, d, outcomes).1 == run(nxt, d2, rest).1);
    if f == position(step) {
        assert(rest[0] == outcomes[1]);
        assert(nxt == SyncStep::Cleanup);
        lemma_cleanup_path(nxt, d2, rest);
    } else {
        assert(outcomes[0]);
        assert forall|j: int| 0 <= j < f - position(nxt) implies #[trigger] rest[j] by {
            assert(rest[j] == outcomes[j + 1]);
        }
        assert(rest[f - position(nxt)] == outcomes[f - position(step)]);
        assert(rest[f - position(nxt) + 1] == outcomes[f - position(step) + 1]);
        lemma_fail_then_clean(nxt, d2, rest, f);
    }
}

/// A materialisation that fails before the swap (while clearing, creating or
/// filling the staging directory, exporting the tree, clearing the set-aside
/// directory or setting the old tree aside) leaves the job directory exactly as it
/// was: the old complete tree, or nothing if there was none. So does one whose
/// swap fails and whose old tree is then renamed back. One that fails after
/// creating the staging directory and then removes it leaves no staging
/// directory. One that completes leaves the complete new tree and no staging
/// directory.
pub proof fn lemma_sync_is_all_or_nothing(
    job: Option<Tree>,
    temp: Option<Tree>,
    retired: Option<Tree>,
    outcomes: Seq<bool>,
)
    ensures
        (exists|i: int| 0 <= i < 6 && i < outcomes.len() && !#[trigger] outcomes[i]) ==> run(
            SyncStep::ClearTemp,
            Dirs { job, temp, retired },
            outcomes,
        ).1.job == job && run(SyncStep::ClearTemp, Dirs { job, temp, retired }, outcomes).0 != SyncStep::Done,
        7 < outcomes.len() && (forall|i: int| 0 <= i < 6 ==> #[trigger] outcomes[i]) && !outcomes[6]
            && outcomes[7] ==> run(SyncStep::ClearTemp, Dirs { job, temp, retired }, outcomes).1.job == job,
        run(SyncStep::ClearTemp, Dirs { job, temp, retired }, outcomes).0 == SyncStep::Done ==> run(
            SyncStep::ClearTemp,
            Dirs { job, temp, retired },
            outcomes,
        ).1.job == Some(Tree::New) && run(SyncStep::ClearTemp, Dirs { job, temp, retired }, outcomes).1.temp is None,
        forall|f: int|
            1 <= f <= 5 && f + 1 < outcomes.len() && (forall|j: int| 0 <= j < f ==> #[trigger] outcomes[j])
                && !#[trigger] outcomes[f] && outcomes[f + 1]
            ==> run(SyncStep::ClearTemp, Dirs { job, temp, retired }, outcomes).1.temp is None,
{
    let d = Dirs { job, temp, retired };
    assert forall|f: int|
        1 <= f <= 5 && f + 1 < outcomes.len() && (forall|j: int| 0 <= j < f ==> #[trigger] outcomes[j])
            && !#[trigger] outcomes[f] && outcomes[f + 1]
    implies run(SyncStep::ClearTemp, d, outcomes).1.temp is None by {
        lemma_fail_then_clean(SyncStep::ClearTemp, d, outcomes, f);
    }
    if exists|i: int| 0 <= i < 6 && i < outcomes.len() && !#[trigger] outcomes[i] {
        lemma_before_swap(SyncStep::ClearTemp, d, outcomes);
    }
    if 7 < outcomes.len() && (forall|i: int| 0 <= i < 6 ==> #[trigger] outcomes[i]) && !outcomes[6] && outcomes[7] {
        lemma_run_to_clear_retired(d, outcomes);
    }
    lemma_success_path(SyncStep::ClearTemp, d, outcomes);
}

proof fn lemma_run_to_clear_retired(d: Dirs, outcomes: Seq<bool>)
    requires
        7 < outcomes.len(),
        forall|i: int| 0 <= i < 6 ==> #[trigger] outcomes[i],
        !outcomes[6],
        outcomes[7],
    ensures
        run(SyncStep::ClearTemp, d, outcomes).1.job == d.job,
{
    let o1 = outcomes.drop_first();
    let o2 = o1.drop_first();
    let o3 = o2.drop_first();
    let o4 = o3.drop_first();
    assert(outcomes[0] && outcomes[1] && outcomes[2] && outcomes[3]);
    let d1 = effect(d, SyncStep::ClearTemp, true);
    let d2 = effect(d1, SyncStep::CreateTemp, true);
    let d3 = effect(d2, SyncStep::Export, true);
    let d4 = effect(d3, SyncStep::Extract, true);
    assert(o1[0] == outcomes[1] && o2[0] == outcomes[2] && o3[0] == outcomes[3]);
    assert(run(SyncStep::ClearTemp, d, outcomes).1 == run(SyncStep::CreateTemp, d1, o1).1);
    assert(run(SyncStep::CreateTemp, d1, o1).1 == run(SyncStep::Export, d2, o2).1);
    assert(run(SyncStep::Export, d2, o2).1 == run(SyncStep::Extract, d3, o3).1);
    assert(run(SyncStep::Extract, d3, o3).1 == run(SyncStep::ClearRetired, d4, o4).1);
    assert forall|j: int| 0 <= j < 2 implies #[trigger] o4[j] by {
        assert(o4[j] == outcomes[j + 4]);
    }
    assert(o4[2] == outcomes[6] && o4[3] == outcomes[7]);
    lemma_swap_fails(SyncStep::ClearRetired, d4, o4, d.job);
}

} // verus!
