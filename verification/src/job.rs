//! Canonical job record model: the closed set of scheduler job states, the
//! `Job` record, and its mathematical model `JobModel`.
//!
//! Equality of jobs is structural over `(id, name, owner, state)`;
//! `update_time` is deliberately excluded so that timestamp-only differences
//! never count as a change.

use vstd::prelude::*;

verus! {

/// The closed set of states a scheduler reports for a job. `Unknown` is the
/// adapters' default for unrecognized status text, never an error.
#[derive(PartialEq, Eq, Structural, Clone, Copy, Debug)]
pub enum JobState {
    Queuing,
    Running,
    Suspended,
    Completing,
    Completed,
    Unknown,
}

/// One scheduler job as observed in a snapshot. `update_time` is the unix
/// timestamp (in seconds) of the last observed state change.
pub struct Job {
    pub id: String,
    pub name: String,
    pub owner: String,
    pub state: JobState,
    pub update_time: i64,
}

/// The mathematical model of a `Job`: its string fields as character
/// sequences and its timestamp as an unbounded integer.
#[verifier::ext_equal]
pub struct JobModel {
    pub id: Seq<char>,
    pub name: Seq<char>,
    pub owner: Seq<char>,
    pub state: JobState,
    pub update_time: int,
}

impl JobModel {
    /// The same record with another timestamp.
    pub open spec fn with_time(self, t: int) -> JobModel {
        JobModel { update_time: t, ..self }
    }

    /// Structural equality over everything but the timestamp.
    pub open spec fn same_core(self, other: JobModel) -> bool {
        self.id == other.id && self.name == other.name && self.owner == other.owner
            && self.state == other.state
    }
}

impl View for Job {
    type V = JobModel;

    open spec fn view(&self) -> JobModel {
        JobModel {
            id: self.id@,
            name: self.name@,
            owner: self.owner@,
            state: self.state,
            update_time: self.update_time as int,
        }
    }
}

impl DeepView for Job {
    type V = JobModel;

    open spec fn deep_view(&self) -> JobModel {
        self.view()
    }
}

impl Job {
    /// A structurally identical copy, timestamp included.
    pub fn duplicate(&self) -> (r: Job)
        ensures
            r@ == self@,
    {
        Job {
            id: self.id.clone(),
            name: self.name.clone(),
            owner: self.owner.clone(),
            state: self.state,
            update_time: self.update_time,
        }
    }
}

impl PartialEq for Job {
    /// Jobs are equal when id, name, owner and state agree; the timestamp is
    /// ignored, so re-stamping alone never makes two jobs differ.
    fn eq(&self, other: &Self) -> (r: bool) {
        self.id == other.id && self.name == other.name && self.owner == other.owner && self.state
            == other.state
    }
}

impl vstd::std_specs::cmp::PartialEqSpecImpl for Job {
    open spec fn obeys_eq_spec() -> bool {
        true
    }

    open spec fn eq_spec(&self, other: &Job) -> bool {
        self@.same_core(other@)
    }
}

impl Eq for Job {

}

/// Ids are pairwise distinct: the §3 invariant every snapshot must satisfy.
pub open spec fn unique_ids(s: Seq<JobModel>) -> bool {
    forall|i: int, j: int| 0 <= i < j < s.len() ==> s[i].id != s[j].id
}

/// Two snapshots are equal when they hold the same records in the same
/// order, timestamps ignored.
pub open spec fn spec_snapshots_equal(a: Seq<JobModel>, b: Seq<JobModel>) -> bool {
    a.len() == b.len() && forall|i: int| 0 <= i < a.len() ==> a[i].same_core(b[i])
}

/// Elementwise comparison of two snapshots under job equality (which ignores
/// timestamps); this is the differ's overall "jobs changed" test.
pub fn snapshots_equal(a: &Vec<Job>, b: &Vec<Job>) -> (r: bool)
    ensures
        r == spec_snapshots_equal(a.deep_view(), b.deep_view()),
{
    if a.len() != b.len() {
        assert(a.deep_view().len() == a@.len());
        assert(b.deep_view().len() == b@.len());
        return false;
    }
    let n = a.len();
    let mut i: usize = 0;
    while i < n
        invariant
            n == a@.len() == b@.len(),
            i <= n,
            a.deep_view().len() == n && b.deep_view().len() == n,
            forall|k: int| 0 <= k < i ==> a.deep_view()[k].same_core(b.deep_view()[k]),
        decreases n - i,
    {
        if !(a[i] == b[i]) {
            assert(!a.deep_view()[i as int].same_core(b.deep_view()[i as int]));
            return false;
        }
        assert(a.deep_view()[i as int].same_core(b.deep_view()[i as int]));
        i += 1;
    }
    true
}

} // verus!
