use cluster_job_monitor::diff::{diff, Event};
use cluster_job_monitor::job::{snapshots_equal, Job, JobState};
use cluster_job_monitor::pbs::parse_pbs_stat_at;

fn job(id: &str, state: JobState, t: i64) -> Job {
    Job {
        id: id.to_string(),
        name: format!("name-{}", id),
        owner: format!("owner-{}", id),
        state,
        update_time: t,
    }
}

#[test]
fn diff_of_snapshot_with_itself_is_silent() {
    let a = vec![job("1", JobState::Queuing, 5), job("2", JobState::Running, 6)];
    let b = vec![job("1", JobState::Queuing, 5), job("2", JobState::Running, 6)];
    let (events, recon) = diff(&a, &b, 100);
    assert_eq!(events.len(), 0);
    assert_eq!(recon.len(), 2);
    assert_eq!(recon[0].update_time, 5);
    assert_eq!(recon[1].update_time, 6);
    assert!(snapshots_equal(&a, &recon));
}

#[test]
fn carry_forward_keeps_previous_timestamp() {
    let prev = vec![job("1", JobState::Queuing, 5)];
    let mut curr = vec![job("1", JobState::Queuing, 99)];
    curr[0].name = "renamed".to_string();
    let (events, recon) = diff(&prev, &curr, 100);
    // same id, same state: no event, and the previous stamp is kept — never
    // the current one
    assert_eq!(events.len(), 0);
    assert_eq!(recon.len(), 1);
    assert_eq!(recon[0].update_time, 5);
    assert_eq!(recon[0].name, "renamed");
}

#[test]
fn partition_of_added_removed_changed() {
    let prev = vec![
        job("1", JobState::Queuing, 1),
        job("2", JobState::Running, 2),
        job("3", JobState::Running, 3),
    ];
    let curr = vec![
        job("2", JobState::Running, 10),
        job("3", JobState::Completing, 10),
        job("4", JobState::Queuing, 10),
    ];
    let (events, recon) = diff(&prev, &curr, 10);
    assert_eq!(events.len(), 3);
    let mut added = 0;
    let mut removed = 0;
    let mut changed = 0;
    for e in &events {
        match e {
            Event::Added(j) => {
                added += 1;
                assert_eq!(j.id, "4");
            }
            Event::Removed(j) => {
                removed += 1;
                assert_eq!(j.id, "1");
                assert_eq!(j.update_time, 1);
            }
            Event::Changed { old, new } => {
                changed += 1;
                assert_eq!(old.id, "3");
                assert_eq!(new.id, "3");
                assert_eq!(old.state, JobState::Running);
                assert_eq!(new.state, JobState::Completing);
            }
        }
    }
    assert_eq!((added, removed, changed), (1, 1, 1));
    // reconciliation: unchanged job keeps its old stamp, changed and added
    // jobs carry the poll time
    assert_eq!(recon[0].update_time, 2);
    assert_eq!(recon[1].update_time, 10);
    assert_eq!(recon[2].update_time, 10);
}

#[test]
fn end_to_end_scenario() {
    let prev = vec![job("1", JobState::Queuing, 50)];
    let now = 70;
    let curr = vec![job("1", JobState::Running, now), job("2", JobState::Queuing, now)];
    let (events, recon) = diff(&prev, &curr, now);
    assert_eq!(events.len(), 2);
    // events come in current-snapshot order: job 1's change, then job 2's
    // arrival
    match &events[0] {
        Event::Changed { old, new } => {
            assert_eq!(old.id, "1");
            assert_eq!(old.state, JobState::Queuing);
            assert_eq!(new.state, JobState::Running);
        }
        _ => panic!("first event should be the state change"),
    }
    match &events[1] {
        Event::Added(j) => assert_eq!(j.id, "2"),
        _ => panic!("second event should be the arrival"),
    }
    // job 1 changed state: stamped with the new poll time; job 2 is new
    assert_eq!(recon[0].id, "1");
    assert_eq!(recon[0].update_time, now);
    assert_eq!(recon[1].id, "2");
    assert_eq!(recon[1].update_time, now);
}

#[test]
fn diff_against_empty_snapshots() {
    let a: Vec<Job> = vec![];
    let b = vec![job("1", JobState::Queuing, 1)];
    let (events, recon) = diff(&a, &b, 2);
    assert_eq!(events.len(), 1);
    assert!(matches!(events[0], Event::Added(_)));
    assert_eq!(recon.len(), 1);

    let (events2, recon2) = diff(&b, &a, 2);
    assert_eq!(events2.len(), 1);
    assert!(matches!(events2[0], Event::Removed(_)));
    assert_eq!(recon2.len(), 0);
}

#[test]
fn parse_then_diff_cycle() {
    let first = parse_pbs_stat_at("Job Id: 1|Job_Name=a|Job_Owner=u|job_state=Q", 10);
    let second = parse_pbs_stat_at(
        "Job Id: 1|Job_Name=a|Job_Owner=u|job_state=R\nJob Id: 2|Job_Name=b|Job_Owner=v|job_state=Q",
        20,
    );
    let (events, recon) = diff(&first, &second, 20);
    assert_eq!(events.len(), 2);
    assert_eq!(recon.len(), 2);
    assert_eq!(recon[0].update_time, 20);
    let third = parse_pbs_stat_at(
        "Job Id: 1|Job_Name=a|Job_Owner=u|job_state=R\nJob Id: 2|Job_Name=b|Job_Owner=v|job_state=Q",
        30,
    );
    let (events2, recon2) = diff(&recon, &third, 30);
    assert_eq!(events2.len(), 0);
    // nothing changed in the third cycle: both stamps carried forward
    assert_eq!(recon2[0].update_time, 20);
    assert_eq!(recon2[1].update_time, 20);
}

#[test]
fn change_detection_ignores_snapshot_order() {
    let a = vec![job("1", JobState::Queuing, 1), job("2", JobState::Running, 2)];
    let b = vec![job("2", JobState::Running, 9), job("1", JobState::Queuing, 9)];
    let (events, recon) = diff(&a, &b, 9);
    // same ids, same states: no events, and both stamps carried forward
    assert_eq!(events.len(), 0);
    assert_eq!(recon[0].id, "2");
    assert_eq!(recon[0].update_time, 2);
    assert_eq!(recon[1].id, "1");
    assert_eq!(recon[1].update_time, 1);
}

#[test]
fn job_equality_ignores_update_time() {
    let a = job("1", JobState::Queuing, 5);
    let mut b = job("1", JobState::Queuing, 900);
    assert!(a == b);
    b.state = JobState::Running;
    assert!(a != b);
}

#[test]
fn snapshots_equal_ignores_timestamps_only() {
    let a = vec![job("1", JobState::Queuing, 5)];
    let b = vec![job("1", JobState::Queuing, 50)];
    assert!(snapshots_equal(&a, &b));
    let c = vec![job("1", JobState::Running, 5)];
    assert!(!snapshots_equal(&a, &c));
    let d: Vec<Job> = vec![];
    assert!(!snapshots_equal(&a, &d));
}

#[test]
fn duplicate_copies_every_field() {
    let a = job("7", JobState::Completed, 123);
    let b = a.duplicate();
    assert_eq!(b.id, "7");
    assert_eq!(b.name, a.name);
    assert_eq!(b.owner, a.owner);
    assert_eq!(b.state, JobState::Completed);
    assert_eq!(b.update_time, 123);
}
