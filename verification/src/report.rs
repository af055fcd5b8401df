//! Report formatter: renders a diff's events into the human-readable
//! message lines sent as a notification, and into structured history
//! records for append-only persistence. Stateless; performs no I/O.

use crate::diff::{Event, EventModel};
use crate::job::JobState;
use vstd::prelude::*;

verus! {

/// The marker that distinguishes a job state in a message line.
pub open spec fn state_marker(s: JobState) -> Seq<char> {
    match s {
        JobState::Queuing => ":alarm_clock:"@,
        JobState::Running => ":arrow_forward:"@,
        JobState::Suspended => ":double_vertical_bar:"@,
        JobState::Completing => ":checkered_flag:"@,
        JobState::Completed => ":checkered_flag:"@,
        JobState::Unknown => ":question:"@,
    }
}

/// The name of a job state, as written into history records.
pub open spec fn state_label(s: JobState) -> Seq<char> {
    match s {
        JobState::Queuing => "Queuing"@,
        JobState::Running => "Running"@,
        JobState::Suspended => "Suspended"@,
        JobState::Completing => "Completing"@,
        JobState::Completed => "Completed"@,
        JobState::Unknown => "Unknown"@,
    }
}

impl JobState {
    /// The marker shown for this state in a message line.
    pub fn marker(&self) -> (r: &'static str)
        ensures
            r@ == state_marker(*self),
    {
        match self {
            JobState::Queuing => ":alarm_clock:",
            JobState::Running => ":arrow_forward:",
            JobState::Suspended => ":double_vertical_bar:",
            JobState::Completing => ":checkered_flag:",
            JobState::Completed => ":checkered_flag:",
            JobState::Unknown => ":question:",
        }
    }

    /// The state's name, as written into history records.
    pub fn label(&self) -> (r: &'static str)
        ensures
            r@ == state_label(*self),
    {
        match self {
            JobState::Queuing => "Queuing",
            JobState::Running => "Running",
            JobState::Suspended => "Suspended",
            JobState::Completing => "Completing",
            JobState::Completed => "Completed",
            JobState::Unknown => "Unknown",
        }
    }
}

/// Relies on `String::push_str`: appends the given string slice onto the
/// end of the string.
#[verifier::external_body]
fn push_str(s: &mut String, t: &str)
    ensures
        final(s)@ == old(s)@ + t@,
{
    s.push_str(t);
}

/// What timeago's `Formatter::convert_chrono`, with default settings,
/// renders for the elapsed time between two instants given as unix
/// timestamps: a function of the two instants alone.
pub uninterp spec fn timeago_of(then: int, now: int) -> Seq<char>;

/// Relies on timeago's `Formatter::convert_chrono` with default settings —
/// its result depends on the two instants alone — and on chrono's
/// `DateTime::from_timestamp` to build them; a timestamp out of chrono's
/// range falls back to the unix epoch, so the composition is total and
/// still a function of the two arguments.
#[verifier::external_body]
fn time_ago(then: i64, now: i64) -> (r: String)
    ensures
        r@ == timeago_of(then as int, now as int),
{
    let from = chrono::DateTime::from_timestamp(then, 0).unwrap_or(chrono::DateTime::UNIX_EPOCH);
    let to = chrono::DateTime::from_timestamp(now, 0).unwrap_or(chrono::DateTime::UNIX_EPOCH);
    timeago::Formatter::new().convert_chrono(from, to)
}

/// The decimal digit `d` as a character sequence.
pub open spec fn digit_seq(d: int) -> Seq<char> {
    if d == 0 {
        "0"@
    } else if d == 1 {
        "1"@
    } else if d == 2 {
        "2"@
    } else if d == 3 {
        "3"@
    } else if d == 4 {
        "4"@
    } else if d == 5 {
        "5"@
    } else if d == 6 {
        "6"@
    } else if d == 7 {
        "7"@
    } else if d == 8 {
        "8"@
    } else {
        "9"@
    }
}

/// The decimal rendering of `n`, without leading zeros (except for 0
/// itself).
pub open spec fn spec_decimal(n: nat) -> Seq<char>
    decreases n,
{
    if n < 10 {
        digit_seq(n as int)
    } else {
        spec_decimal(n / 10) + digit_seq((n % 10) as int)
    }
}

fn digit_str(d: u64) -> (r: &'static str)
    requires
        d < 10,
    ensures
        r@ == digit_seq(d as int),
{
    if d == 0 {
        "0"
    } else if d == 1 {
        "1"
    } else if d == 2 {
        "2"
    } else if d == 3 {
        "3"
    } else if d == 4 {
        "4"
    } else if d == 5 {
        "5"
    } else if d == 6 {
        "6"
    } else if d == 7 {
        "7"
    } else if d == 8 {
        "8"
    } else {
        "9"
    }
}

fn push_decimal(s: &mut String, n: u64)
    ensures
        final(s)@ == old(s)@ + spec_decimal(n as nat),
    decreases n,
{
    if n < 10 {
        push_str(s, digit_str(n));
    } else {
        let ghost pre = s@;
        push_decimal(s, n / 10);
        push_str(s, digit_str(n % 10));
        proof {
            assert((pre + spec_decimal((n / 10) as nat)) + digit_seq((n % 10) as int) =~= pre + (
            spec_decimal((n / 10) as nat) + digit_seq((n % 10) as int)));
        }
    }
}

/// The decimal rendering of `n`.
pub fn u64_to_string(n: u64) -> (r: String)
    ensures
        r@ == spec_decimal(n as nat),
{
    let mut r = String::new();
    push_decimal(&mut r, n);
    proof {
        assert(Seq::<char>::empty() + spec_decimal(n as nat) =~= spec_decimal(n as nat));
    }
    r
}

/// The message line an event renders to: one line per event, with a
/// distinct marker per event kind, the job's name, owner, id and state,
/// and — for removed and changed jobs — how long ago the job last changed,
/// relative to the poll time `now`.
pub open spec fn spec_format_event(e: EventModel, now: int) -> Seq<char> {
    match e {
        EventModel::Added(j) => ":heavy_plus_sign: : name *"@ + j.name + "* owner *"@ + j.owner
            + "* id *"@ + j.id + "* state *"@ + state_marker(j.state) + "*\n"@,
        EventModel::Removed(j) => ":heavy_minus_sign: : name *"@ + j.name + "* owner *"@ + j.owner
            + "* id *"@ + j.id + "* state *"@ + state_marker(j.state) + "* last update *"@
            + timeago_of(j.update_time, now) + "*\n"@,
        EventModel::Changed { old, new } => ":heavy_check_mark: : name *"@ + new.name
            + "* owner *"@ + new.owner + "* id *"@ + new.id + "* state changed: *"@ + state_marker(
            old.state,
        ) + "* -> *"@ + state_marker(new.state) + "* last update *"@ + timeago_of(
            old.update_time,
            now,
        ) + "*\n"@,
    }
}

/// Renders one event into its message line.
pub fn format_event(e: &Event, now: i64) -> (r: String)
    ensures
        r@ == spec_format_event(e.deep_view(), now as int),
{
    let mut r = String::new();
    match e {
        Event::Added(j) => {
            push_str(&mut r, ":heavy_plus_sign: : name *");
            push_str(&mut r, j.name.as_str());
            push_str(&mut r, "* owner *");
            push_str(&mut r, j.owner.as_str());
            push_str(&mut r, "* id *");
            push_str(&mut r, j.id.as_str());
            push_str(&mut r, "* state *");
            push_str(&mut r, j.state.marker());
            push_str(&mut r, "*\n");
        },
        Event::Removed(j) => {
            push_str(&mut r, ":heavy_minus_sign: : name *");
            push_str(&mut r, j.name.as_str());
            push_str(&mut r, "* owner *");
            push_str(&mut r, j.owner.as_str());
            push_str(&mut r, "* id *");
            push_str(&mut r, j.id.as_str());
            push_str(&mut r, "* state *");
            push_str(&mut r, j.state.marker());
            push_str(&mut r, "* last update *");
            let ago = time_ago(j.update_time, now);
            push_str(&mut r, ago.as_str());
            push_str(&mut r, "*\n");
        },
        Event::Changed { old, new } => {
            push_str(&mut r, ":heavy_check_mark: : name *");
            push_str(&mut r, new.name.as_str());
            push_str(&mut r, "* owner *");
            push_str(&mut r, new.owner.as_str());
            push_str(&mut r, "* id *");
            push_str(&mut r, new.id.as_str());
            push_str(&mut r, "* state changed: *");
            push_str(&mut r, old.state.marker());
            push_str(&mut r, "* -> *");
            push_str(&mut r, new.state.marker());
            push_str(&mut r, "* last update *");
            let ago = time_ago(old.update_time, now);
            push_str(&mut r, ago.as_str());
            push_str(&mut r, "*\n");
        },
    }
    r
}

/// The message lines of all events, concatenated in order.
pub open spec fn spec_event_lines(events: Seq<EventModel>, now: int) -> Seq<char>
    decreases events.len(),
{
    if events.len() == 0 {
        Seq::empty()
    } else {
        spec_event_lines(events.drop_last(), now) + spec_format_event(events.last(), now)
    }
}

/// The whole notification message: a header naming the cluster and the
/// current job count, then one line per event.
pub open spec fn spec_report(
    cluster: Seq<char>,
    job_count: nat,
    events: Seq<EventModel>,
    now: int,
) -> Seq<char> {
    "Cluster "@ + cluster + " job changes (current "@ + spec_decimal(job_count)
        + " jobs):\n"@ + spec_event_lines(events, now)
}

/// Renders the whole notification message for one cycle's changes.
pub fn format_report(cluster: &str, job_count: u64, events: &Vec<Event>, now: i64) -> (r: String)
    ensures
        r@ == spec_report(cluster@, job_count as nat, events.deep_view(), now as int),
{
    let ghost eseq = events.deep_view();
    let mut r = String::new();
    push_str(&mut r, "Cluster ");
    push_str(&mut r, cluster);
    push_str(&mut r, " job changes (current ");
    push_decimal(&mut r, job_count);
    push_str(&mut r, " jobs):\n");
    let ghost header = r@;
    proof {
        assert(r@ + spec_event_lines(eseq.take(0), now as int) =~= r@);
    }
    let mut i: usize = 0;
    while i < events.len()
        invariant
            eseq == events.deep_view(),
            i <= events@.len(),
            eseq.len() == events@.len(),
            r@ == header + spec_event_lines(eseq.take(i as int), now as int),
        decreases events@.len() - i,
    {
        let ghost pre = r@;
        let line = format_event(&events[i], now);
        push_str(&mut r, line.as_str());
        proof {
            assert(eseq.take(i + 1).drop_last() =~= eseq.take(i as int));
            assert(eseq.take(i + 1).last() == eseq[i as int]);
            assert((header + spec_event_lines(eseq.take(i as int), now as int)) + spec_format_event(
                eseq[i as int],
                now as int,
            ) =~= header + spec_event_lines(eseq.take(i + 1), now as int));
        }
        i += 1;
    }
    proof {
        assert(eseq.take(events@.len() as int) =~= eseq);
        assert(Seq::<char>::empty() + header =~= header);
    }
    r
}

/// What an event did to the job it reports on.
#[derive(PartialEq, Eq, Structural, Clone, Copy, Debug)]
pub enum ActionKind {
    Add,
    Removed,
    Changed,
}

/// The label a history record carries for its action.
pub open spec fn action_label(a: ActionKind) -> Seq<char> {
    match a {
        ActionKind::Add => "add"@,
        ActionKind::Removed => "removed"@,
        ActionKind::Changed => "changed"@,
    }
}

impl ActionKind {
    /// The action's label, as written into history records.
    pub fn label(&self) -> (r: &'static str)
        ensures
            r@ == action_label(*self),
    {
        match self {
            ActionKind::Add => "add",
            ActionKind::Removed => "removed",
            ActionKind::Changed => "changed",
        }
    }
}

/// One structured history record: the poll time, the job's last update
/// time where one is meaningful, the action, and the job's fields with its
/// resulting state.
pub struct HistoryRecord {
    pub now: i64,
    pub update_time: Option<i64>,
    pub action: ActionKind,
    pub name: String,
    pub owner: String,
    pub id: String,
    pub state: JobState,
}

/// The mathematical model of a `HistoryRecord`.
pub struct HistoryRecordModel {
    pub now: int,
    pub update_time: Option<int>,
    pub action: ActionKind,
    pub name: Seq<char>,
    pub owner: Seq<char>,
    pub id: Seq<char>,
    pub state: JobState,
}

impl DeepView for HistoryRecord {
    type V = HistoryRecordModel;

    open spec fn deep_view(&self) -> HistoryRecordModel {
        HistoryRecordModel {
            now: self.now as int,
            update_time: match self.update_time {
                Some(t) => Some(t as int),
                None => None,
            },
            action: self.action,
            name: self.name@,
            owner: self.owner@,
            id: self.id@,
            state: self.state,
        }
    }
}

/// The history record one event yields: an added job has no previous
/// update time; a removed job carries its last one; a changed job carries
/// the current record's stamp and its resulting state.
pub open spec fn spec_history_one(e: EventModel, now: int) -> HistoryRecordModel {
    match e {
        EventModel::Added(j) => HistoryRecordModel {
            now,
            update_time: None,
            action: ActionKind::Add,
            name: j.name,
            owner: j.owner,
            id: j.id,
            state: j.state,
        },
        EventModel::Removed(j) => HistoryRecordModel {
            now,
            update_time: Some(j.update_time),
            action: ActionKind::Removed,
            name: j.name,
            owner: j.owner,
            id: j.id,
            state: j.state,
        },
        EventModel::Changed { old, new } => HistoryRecordModel {
            now,
            update_time: Some(new.update_time),
            action: ActionKind::Changed,
            name: new.name,
            owner: new.owner,
            id: new.id,
            state: new.state,
        },
    }
}

/// The history records of all events, in order.
pub open spec fn spec_history(events: Seq<EventModel>, now: int) -> Seq<HistoryRecordModel> {
    Seq::new(events.len(), |i: int| spec_history_one(events[i], now))
}

/// Renders every event into its history record, in order.
pub fn history_records(events: &Vec<Event>, now: i64) -> (rs: Vec<HistoryRecord>)
    ensures
        rs.deep_view() == spec_history(events.deep_view(), now as int),
{
    let ghost eseq = events.deep_view();
    let mut rs: Vec<HistoryRecord> = Vec::new();
    let mut i: usize = 0;
    while i < events.len()
        invariant
            eseq == events.deep_view(),
            i <= events@.len(),
            eseq.len() == events@.len(),
            rs.deep_view().len() == i as int,
            forall|k: int|
                0 <= k < i ==> rs.deep_view()[k] == spec_history_one(eseq[k], now as int),
        decreases events@.len() - i,
    {
        let ghost before = rs.deep_view();
        let rec = match &events[i] {
            Event::Added(j) => HistoryRecord {
                now,
                update_time: None,
                action: ActionKind::Add,
                name: j.name.clone(),
                owner: j.owner.clone(),
                id: j.id.clone(),
                state: j.state,
            },
            Event::Removed(j) => HistoryRecord {
                now,
                update_time: Some(j.update_time),
                action: ActionKind::Removed,
                name: j.name.clone(),
                owner: j.owner.clone(),
                id: j.id.clone(),
                state: j.state,
            },
            Event::Changed { old, new } => HistoryRecord {
                now,
                update_time: Some(new.update_time),
                action: ActionKind::Changed,
                name: new.name.clone(),
                owner: new.owner.clone(),
                id: new.id.clone(),
                state: new.state,
            },
        };
        rs.push(rec);
        proof {
            assert(rs.deep_view() =~= before.push(spec_history_one(eseq[i as int], now as int)));
        }
        i += 1;
    }
    proof {
        assert(rs.deep_view() =~= spec_history(eseq, now as int));
    }
    rs
}

} // verus!
