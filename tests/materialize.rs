use rollcron::materialize::{first_step, is_final, next_step, SyncStep};

fn run(outcomes: &[bool]) -> Vec<SyncStep> {
    let mut steps = vec![first_step()];
    let mut step = first_step();
    for &ok in outcomes {
        if is_final(step) {
            break;
        }
        step = next_step(step, ok);
        steps.push(step);
    }
    steps
}

#[test]
fn successful_sync_swaps_last() {
    assert_eq!(
        run(&[true; 8]),
        vec![
            SyncStep::ClearTemp,
            SyncStep::CreateTemp,
            SyncStep::Export,
            SyncStep::Extract,
            SyncStep::ClearRetired,
            SyncStep::SetAside,
            SyncStep::Swap,
            SyncStep::DropRetired,
            SyncStep::Done,
        ]
    );
}

#[test]
fn failed_extraction_cleans_up_and_keeps_job_dir() {
    let steps = run(&[true, true, true, false, true]);
    assert_eq!(steps.last(), Some(&SyncStep::Failed));
    assert!(steps.contains(&SyncStep::Cleanup));
    assert!(!steps.contains(&SyncStep::SetAside));
    assert!(!steps.contains(&SyncStep::Swap));
}

#[test]
fn failed_export_cleans_up() {
    assert_eq!(
        run(&[true, true, false, true]),
        vec![SyncStep::ClearTemp, SyncStep::CreateTemp, SyncStep::Export, SyncStep::Cleanup, SyncStep::Failed]
    );
}

#[test]
fn failed_clear_stops() {
    assert_eq!(run(&[false]), vec![SyncStep::ClearTemp, SyncStep::Failed]);
}

#[test]
fn failed_swap_restores_old_tree() {
    let steps = run(&[true, true, true, true, true, true, false, true, true]);
    assert_eq!(&steps[6..], &[SyncStep::Swap, SyncStep::Restore, SyncStep::Cleanup, SyncStep::Failed]);
}

#[test]
fn failed_drop_of_old_tree_still_completes() {
    let steps = run(&[true, true, true, true, true, true, true, false]);
    assert_eq!(steps.last(), Some(&SyncStep::Done));
}
