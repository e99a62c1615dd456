use rollcron::concurrency::{Concurrency, RunState};
use rollcron::scheduler::{jobs_valid, next_fire_after, Job, JobRegistry, Slot};

fn job(id: &str, schedule: &str, concurrency: Concurrency) -> Job {
    Job {
        id: id.to_string(),
        name: format!("Job {}", id),
        schedule: schedule.to_string(),
        timezone: None,
        command: "true".to_string(),
        timeout_ms: 10_000,
        concurrency,
        retry: None,
        jitter_ms: None,
        working_dir: None,
        enabled: true,
    }
}

const HOURLY: &str = "0 0 * * * *";
const EVERY_SECOND: &str = "* * * * * *";

#[test]
fn next_fire_follows_cron() {
    assert_eq!(next_fire_after(&HOURLY.to_string(), 0, 0), Some(3600));
    assert_eq!(next_fire_after(&HOURLY.to_string(), 0, 3600), Some(7200));
    assert_eq!(next_fire_after(&EVERY_SECOND.to_string(), 0, 100), Some(101));
    assert_eq!(next_fire_after(&"not a schedule".to_string(), 0, 0), None);
    assert_eq!(next_fire_after(&HOURLY.to_string(), 0, -1), None);
}

#[test]
fn new_registry_is_idle_and_scheduled() {
    let reg = JobRegistry::new(vec![job("a", HOURLY, Concurrency::Skip)], 0, 0);
    assert_eq!(reg.len(), 1);
    assert_eq!(reg.slot(0), Slot { state: RunState::idle(), next_fire: Some(3600) });
    assert_eq!(reg.job_ids(), vec!["a".to_string()]);
}

#[test]
fn tick_fires_due_jobs_and_respects_skip() {
    let mut disabled = job("c", EVERY_SECOND, Concurrency::Skip);
    disabled.enabled = false;
    let mut reg = JobRegistry::new(
        vec![job("a", EVERY_SECOND, Concurrency::Skip), job("b", HOURLY, Concurrency::Skip), disabled],
        0,
        100,
    );
    assert!(reg.tick(100).is_empty());
    assert_eq!(reg.tick(101), vec!["a".to_string()]);
    assert_eq!(reg.slot(0).next_fire, Some(102));
    assert_eq!(reg.tick(102), Vec::<String>::new());
    assert_eq!(reg.slot(0).state, RunState { running: 1, pending: false });
    assert!(!reg.finish_run(&"a".to_string()));
    assert_eq!(reg.tick(103), vec!["a".to_string()]);
    assert_eq!(reg.slot(2).next_fire, Some(101));
}

#[test]
fn queued_trigger_launches_on_finish() {
    let mut reg = JobRegistry::new(vec![job("q", EVERY_SECOND, Concurrency::Queue)], 0, 0);
    assert_eq!(reg.tick(1), vec!["q".to_string()]);
    assert!(reg.tick(2).is_empty());
    assert!(reg.tick(3).is_empty());
    assert!(reg.finish_run(&"q".to_string()));
    assert!(!reg.finish_run(&"q".to_string()));
    assert_eq!(reg.slot(0).state, RunState::idle());
}

#[test]
fn reload_drops_removed_and_registers_new() {
    let mut reg = JobRegistry::new(
        vec![job("keep", EVERY_SECOND, Concurrency::Skip), job("gone", EVERY_SECOND, Concurrency::Skip)],
        0,
        0,
    );
    assert_eq!(reg.tick(1), vec!["keep".to_string(), "gone".to_string()]);
    let kept_before = reg.slot(0);
    reg.apply_config_update(
        vec![job("new", HOURLY, Concurrency::Skip), job("keep", EVERY_SECOND, Concurrency::Queue)],
        0,
        10,
    );
    assert_eq!(reg.job_ids(), vec!["new".to_string(), "keep".to_string()]);
    assert_eq!(reg.find(&"gone".to_string()), None);
    assert_eq!(reg.slot(0), Slot { state: RunState::idle(), next_fire: Some(3600) });
    assert_eq!(reg.slot(1), kept_before);
    assert_eq!(reg.job(1).concurrency, Concurrency::Queue);
    assert!(!reg.finish_run(&"gone".to_string()));
}

#[test]
fn reload_with_new_schedule_recomputes_fire_time() {
    let mut reg = JobRegistry::new(vec![job("a", EVERY_SECOND, Concurrency::Skip)], 0, 0);
    reg.tick(1);
    reg.apply_config_update(vec![job("a", HOURLY, Concurrency::Skip)], 0, 10);
    assert_eq!(reg.slot(0), Slot { state: RunState { running: 1, pending: false }, next_fire: Some(3600) });
}

const DAILY: &str = "0 0 0 * * *";

#[test]
fn fire_times_follow_the_zone() {
    assert_eq!(next_fire_after(&DAILY.to_string(), 0, 0), Some(86400));
    assert_eq!(next_fire_after(&DAILY.to_string(), 3600, 0), Some(82800));
    assert_eq!(next_fire_after(&DAILY.to_string(), -3600, 172800), Some(176400));
    let mut tokyo = job("t", DAILY, Concurrency::Skip);
    tokyo.timezone = Some("+09:00".to_string());
    let mut unknown = job("u", DAILY, Concurrency::Skip);
    unknown.timezone = Some("Mars/Olympus".to_string());
    let reg = JobRegistry::new(vec![tokyo, unknown, job("d", DAILY, Concurrency::Skip)], 3600, 0);
    assert_eq!(reg.slot(0).next_fire, Some(54000));
    assert_eq!(reg.slot(1).next_fire, Some(82800));
    assert_eq!(reg.slot(2).next_fire, Some(82800));
}

#[test]
fn reload_with_new_zone_recomputes_fire_time() {
    let mut reg = JobRegistry::new(vec![job("a", DAILY, Concurrency::Skip)], 0, 0);
    assert_eq!(reg.slot(0).next_fire, Some(86400));
    reg.apply_config_update(vec![job("a", DAILY, Concurrency::Skip)], 0, 10);
    assert_eq!(reg.slot(0).next_fire, Some(86400));
    reg.apply_config_update(vec![job("a", DAILY, Concurrency::Skip)], 3600, 10);
    assert_eq!(reg.slot(0).next_fire, Some(82800));
}

#[test]
fn job_list_validation() {
    assert!(jobs_valid(&vec![job("a", DAILY, Concurrency::Skip), job("b", DAILY, Concurrency::Skip)]));
    assert!(!jobs_valid(&vec![job("a", DAILY, Concurrency::Skip), job("a", HOURLY, Concurrency::Queue)]));
    let mut zero = job("z", DAILY, Concurrency::Skip);
    zero.timeout_ms = 0;
    assert!(!jobs_valid(&vec![zero]));
    assert!(jobs_valid(&Vec::new()));
}
