use cluster_job_monitor::diff::Event;
use cluster_job_monitor::job::{Job, JobState};
use cluster_job_monitor::report::{
    format_event, format_report, history_records, u64_to_string, ActionKind,
};
use cluster_job_monitor::timing::next_sleep_millis;

fn job(id: &str, name: &str, owner: &str, state: JobState, t: i64) -> Job {
    Job {
        id: id.to_string(),
        name: name.to_string(),
        owner: owner.to_string(),
        state,
        update_time: t,
    }
}

fn expected_ago(then: i64, now: i64) -> String {
    let from = chrono::DateTime::from_timestamp(then, 0).unwrap();
    let to = chrono::DateTime::from_timestamp(now, 0).unwrap();
    timeago::Formatter::new().convert_chrono(from, to)
}

#[test]
fn added_line_exact() {
    let e = Event::Added(job("1", "foo", "bob", JobState::Running, 10));
    let line = format_event(&e, 10);
    assert_eq!(
        line,
        ":heavy_plus_sign: : name *foo* owner *bob* id *1* state *:arrow_forward:*\n"
    );
}

#[test]
fn removed_line_includes_relative_time() {
    let e = Event::Removed(job("2", "sim", "ann", JobState::Queuing, 1000));
    let now = 1000 + 3600;
    let line = format_event(&e, now);
    let ago = expected_ago(1000, now);
    // the relative rendering really is an elapsed-time phrase, not the raw
    // timestamp handed back
    assert!(ago.contains("ago"));
    assert_eq!(
        line,
        format!(
            ":heavy_minus_sign: : name *sim* owner *ann* id *2* state *:alarm_clock:* last update *{}*\n",
            ago
        )
    );
}

#[test]
fn changed_line_shows_both_states() {
    let old = job("3", "x", "u", JobState::Queuing, 500);
    let new = job("3", "x", "u", JobState::Running, 900);
    let now = 950;
    let line = format_event(&Event::Changed { old, new }, now);
    let ago = expected_ago(500, now);
    assert_eq!(
        line,
        format!(
            ":heavy_check_mark: : name *x* owner *u* id *3* state changed: *:alarm_clock:* -> *:arrow_forward:* last update *{}*\n",
            ago
        )
    );
}

#[test]
fn state_markers() {
    assert_eq!(JobState::Queuing.marker(), ":alarm_clock:");
    assert_eq!(JobState::Running.marker(), ":arrow_forward:");
    assert_eq!(JobState::Suspended.marker(), ":double_vertical_bar:");
    assert_eq!(JobState::Completing.marker(), ":checkered_flag:");
    assert_eq!(JobState::Completed.marker(), ":checkered_flag:");
    assert_eq!(JobState::Unknown.marker(), ":question:");
}

#[test]
fn state_labels() {
    assert_eq!(JobState::Queuing.label(), "Queuing");
    assert_eq!(JobState::Unknown.label(), "Unknown");
}

#[test]
fn decimal_rendering() {
    assert_eq!(u64_to_string(0), "0");
    assert_eq!(u64_to_string(7), "7");
    assert_eq!(u64_to_string(42), "42");
    assert_eq!(u64_to_string(1234567890), "1234567890");
    assert_eq!(u64_to_string(u64::MAX), format!("{}", u64::MAX));
}

#[test]
fn report_header_and_lines() {
    let events = vec![Event::Added(job("1", "foo", "bob", JobState::Queuing, 5))];
    let msg = format_report("mycluster", 3, &events, 5);
    assert_eq!(
        msg,
        "Cluster mycluster job changes (current 3 jobs):\n:heavy_plus_sign: : name *foo* owner *bob* id *1* state *:alarm_clock:*\n"
    );
}

#[test]
fn report_with_no_events_is_header_only() {
    let events: Vec<Event> = vec![];
    let msg = format_report("c", 0, &events, 0);
    assert_eq!(msg, "Cluster c job changes (current 0 jobs):\n");
}

#[test]
fn history_record_kinds() {
    let events = vec![
        Event::Added(job("1", "a", "u", JobState::Queuing, 5)),
        Event::Removed(job("2", "b", "v", JobState::Running, 6)),
        Event::Changed {
            old: job("3", "c", "w", JobState::Queuing, 7),
            new: job("3", "c", "w", JobState::Running, 40),
        },
    ];
    let recs = history_records(&events, 41);
    assert_eq!(recs.len(), 3);

    assert_eq!(recs[0].now, 41);
    assert_eq!(recs[0].update_time, None);
    assert_eq!(recs[0].action, ActionKind::Add);
    assert_eq!(recs[0].action.label(), "add");
    assert_eq!(recs[0].id, "1");
    assert_eq!(recs[0].state, JobState::Queuing);

    assert_eq!(recs[1].update_time, Some(6));
    assert_eq!(recs[1].action.label(), "removed");
    assert_eq!(recs[1].owner, "v");

    assert_eq!(recs[2].update_time, Some(40));
    assert_eq!(recs[2].action.label(), "changed");
    assert_eq!(recs[2].state, JobState::Running);
}

#[test]
fn sleep_is_within_jitter_band() {
    for _ in 0..50 {
        let r = next_sleep_millis(60);
        assert!(r >= 900 * 60);
        assert!(r <= 1100 * 60);
        assert!(r % 60 == 0);
    }
    assert_eq!(next_sleep_millis(0), 0);
}
