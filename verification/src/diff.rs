//! Snapshot differ: compares the previous and the current job snapshot and
//! yields the change events — `Added`, `Removed`, `Changed` — together with
//! the reconciled current snapshot that becomes the next persisted one.
//!
//! Events come in a single pass over the current snapshot, in its order —
//! a changed job's event before a later-listed new job's — followed by one
//! `Removed` event per vanished id, in previous-snapshot order.
//!
//! The reconciled snapshot applies the carry-forward rule: a job whose state
//! is unchanged keeps the previous snapshot's `update_time`, a job whose
//! state changed is stamped with the poll time `now`, so that re-stamping
//! alone never looks like activity downstream.
//!
//! The differ is total: it cannot fail on any pair of snapshots.

use crate::job::{unique_ids, Job, JobModel};
use vstd::prelude::*;

verus! {

/// One detected change between two snapshots.
pub enum Event {
    /// A job whose id is new in the current snapshot.
    Added(Job),
    /// A job whose id is gone from the current snapshot; its `update_time`
    /// reflects the last time it was seen changing.
    Removed(Job),
    /// A job present in both snapshots with differing state: the previous
    /// record and the current one.
    Changed { old: Job, new: Job },
}

/// The mathematical model of an `Event`.
pub enum EventModel {
    Added(JobModel),
    Removed(JobModel),
    Changed { old: JobModel, new: JobModel },
}

impl DeepView for Event {
    type V = EventModel;

    open spec fn deep_view(&self) -> EventModel {
        match self {
            Event::Added(j) => EventModel::Added(j@),
            Event::Removed(j) => EventModel::Removed(j@),
            Event::Changed { old, new } => EventModel::Changed { old: old@, new: new@ },
        }
    }
}

/// The id an event reports on.
pub open spec fn event_id(e: EventModel) -> Seq<char> {
    match e {
        EventModel::Added(j) => j.id,
        EventModel::Removed(j) => j.id,
        EventModel::Changed { old, new } => new.id,
    }
}

/// First index whose record carries `id`, or -1.
pub open spec fn idx_of_id(s: Seq<JobModel>, id: Seq<char>) -> int
    decreases s.len(),
{
    if s.len() == 0 {
        -1
    } else if s[0].id == id {
        0
    } else {
        let r = idx_of_id(s.drop_first(), id);
        if r < 0 {
            -1
        } else {
            r + 1
        }
    }
}

/// Some record of `s` carries `id`.
pub open spec fn has_id(s: Seq<JobModel>, id: Seq<char>) -> bool {
    idx_of_id(s, id) >= 0
}

/// The first record of `s` carrying `id`; under `unique_ids` the only one.
pub open spec fn job_with_id(s: Seq<JobModel>, id: Seq<char>) -> JobModel {
    s[idx_of_id(s, id)]
}

pub proof fn lemma_idx_of_id(s: Seq<JobModel>, id: Seq<char>)
    ensures
        idx_of_id(s, id) >= 0 ==> idx_of_id(s, id) < s.len() && s[idx_of_id(s, id)].id == id,
        idx_of_id(s, id) >= 0 ==> forall|k: int| 0 <= k < idx_of_id(s, id) ==> s[k].id != id,
        idx_of_id(s, id) < 0 ==> forall|k: int| 0 <= k < s.len() ==> s[k].id != id,
    decreases s.len(),
{
    if s.len() > 0 && s[0].id != id {
        let t = s.drop_first();
        lemma_idx_of_id(t, id);
        let r = idx_of_id(t, id);
        if r >= 0 {
            assert(s[r + 1] == t[r]);
            assert forall|k: int| 0 <= k < r + 1 implies s[k].id != id by {
                if k > 0 {
                    assert(s[k] == t[k - 1]);
                }
            }
        } else {
            assert forall|k: int| 0 <= k < s.len() implies s[k].id != id by {
                if k > 0 {
                    assert(s[k] == t[k - 1]);
                }
            }
        }
    }
}

pub proof fn lemma_idx_of_id_is(s: Seq<JobModel>, id: Seq<char>, p: int)
    requires
        0 <= p < s.len(),
        s[p].id == id,
        forall|k: int| 0 <= k < p ==> s[k].id != id,
    ensures
        idx_of_id(s, id) == p,
    decreases s.len(),
{
    if p > 0 {
        let t = s.drop_first();
        assert forall|k: int| 0 <= k < p - 1 implies t[k].id != id by {
            assert(t[k] == s[k + 1]);
        }
        assert(t[p - 1] == s[p]);
        lemma_idx_of_id_is(t, id, p - 1);
    }
}

/// In a snapshot with unique ids, the record found by a job's own id is
/// that job.
pub proof fn lemma_idx_of_id_self(s: Seq<JobModel>, i: int)
    requires
        unique_ids(s),
        0 <= i < s.len(),
    ensures
        idx_of_id(s, s[i].id) == i,
        has_id(s, s[i].id),
        job_with_id(s, s[i].id) == s[i],
{
    assert forall|k: int| 0 <= k < i implies s[k].id != s[i].id by {
        assert(0 <= k < i < s.len());
    }
    lemma_idx_of_id_is(s, s[i].id, i);
}

/// The event one current record yields against the previous snapshot: an
/// `Added` event for a fresh id, a `Changed` event for a known id with
/// another state, nothing for a known id in the same state.
pub open spec fn upsert_event(prev: Seq<JobModel>, j: JobModel) -> Seq<EventModel> {
    if !has_id(prev, j.id) {
        seq![EventModel::Added(j)]
    } else if job_with_id(prev, j.id).state != j.state {
        seq![EventModel::Changed { old: job_with_id(prev, j.id), new: j }]
    } else {
        Seq::empty()
    }
}

/// The `Added` and `Changed` events of one pass over the current snapshot,
/// in its order.
pub open spec fn spec_upserts(prev: Seq<JobModel>, curr: Seq<JobModel>) -> Seq<EventModel>
    decreases curr.len(),
{
    if curr.len() == 0 {
        Seq::empty()
    } else {
        spec_upserts(prev, curr.drop_last()) + upsert_event(prev, curr.last())
    }
}

/// The `Removed` events: one per previous job whose id is absent from the
/// current snapshot, in previous-snapshot order.
pub open spec fn spec_removed(prev: Seq<JobModel>, curr: Seq<JobModel>) -> Seq<EventModel>
    decreases prev.len(),
{
    if prev.len() == 0 {
        Seq::empty()
    } else {
        spec_removed(prev.drop_last(), curr) + (if !has_id(curr, prev.last().id) {
            seq![EventModel::Removed(prev.last())]
        } else {
            Seq::empty()
        })
    }
}

/// Every event of one diff: the current snapshot's added and changed jobs
/// in its order, then the removed ones in previous-snapshot order.
pub open spec fn spec_events(prev: Seq<JobModel>, curr: Seq<JobModel>) -> Seq<EventModel> {
    spec_upserts(prev, curr) + spec_removed(prev, curr)
}

/// One current record reconciled against the previous snapshot: carry the
/// previous timestamp forward when the state is unchanged, stamp `now` when
/// it changed, keep a new job as parsed.
pub open spec fn reconcile_one(prev: Seq<JobModel>, j: JobModel, now: int) -> JobModel {
    if has_id(prev, j.id) {
        if job_with_id(prev, j.id).state == j.state {
            j.with_time(job_with_id(prev, j.id).update_time)
        } else {
            j.with_time(now)
        }
    } else {
        j
    }
}

/// The reconciled current snapshot: `curr` with the carry-forward rule
/// applied record by record.
pub open spec fn spec_reconcile(prev: Seq<JobModel>, curr: Seq<JobModel>, now: int) -> Seq<
    JobModel,
> {
    Seq::new(curr.len(), |i: int| reconcile_one(prev, curr[i], now))
}

/// How a lookup behaves on a snapshot extended by one record: an id already
/// present keeps its first position; a fresh id is found at the new record
/// or not at all.
proof fn lemma_idx_push(s: Seq<JobModel>, x: JobModel, id: Seq<char>)
    ensures
        has_id(s, id) ==> idx_of_id(s.push(x), id) == idx_of_id(s, id) && job_with_id(
            s.push(x),
            id,
        ) == job_with_id(s, id),
        !has_id(s, id) && x.id == id ==> idx_of_id(s.push(x), id) == s.len() && job_with_id(
            s.push(x),
            id,
        ) == x,
        !has_id(s, id) && x.id != id ==> !has_id(s.push(x), id),
{
    lemma_idx_of_id(s, id);
    let t = s.push(x);
    if has_id(s, id) {
        let p = idx_of_id(s, id);
        assert(t[p] == s[p]);
        assert forall|k: int| 0 <= k < p implies t[k].id != id by {
            assert(t[k] == s[k]);
        }
        lemma_idx_of_id_is(t, id, p);
    } else if x.id == id {
        assert(t[s.len() as int] == x);
        assert forall|k: int| 0 <= k < s.len() implies t[k].id != id by {
            assert(t[k] == s[k]);
        }
        lemma_idx_of_id_is(t, id, s.len() as int);
    } else {
        assert forall|k: int| 0 <= k < t.len() implies t[k].id != id by {
            if k < s.len() {
                assert(t[k] == s[k]);
            } else {
                assert(t[k] == x);
            }
        }
        lemma_idx_of_id(t, id);
        if has_id(t, id) {
            assert(t[idx_of_id(t, id)].id == id);
        }
    }
}

/// First index in `s` of the job carrying `id`, or none.
fn find_by_id(s: &Vec<Job>, id: &String) -> (r: Option<usize>)
    ensures
        match r {
            Some(k) => k < s@.len() && idx_of_id(s.deep_view(), id@) == k as int,
            None => !has_id(s.deep_view(), id@),
        },
{
    let ghost sseq = s.deep_view();
    let mut i: usize = 0;
    while i < s.len()
        invariant
            sseq == s.deep_view(),
            i <= s@.len(),
            sseq.len() == s@.len(),
            forall|k: int| 0 <= k < i ==> sseq[k].id != id@,
        decreases s@.len() - i,
    {
        if s[i].id == *id {
            proof {
                lemma_idx_of_id_is(sseq, id@, i as int);
            }
            return Some(i);
        }
        i += 1;
    }
    proof {
        lemma_idx_of_id(sseq, id@);
    }
    None
}

/// Compares the previous and the current snapshot. Returns the change
/// events — the current snapshot's added and changed jobs in its order,
/// then the removed ones — and the reconciled current snapshot that
/// becomes the next persisted one. Total: no pair of snapshots is an
/// error.
pub fn diff(prev: &Vec<Job>, curr: &Vec<Job>, now: i64) -> (r: (Vec<Event>, Vec<Job>))
    ensures
        r.0.deep_view() == spec_events(prev.deep_view(), curr.deep_view()),
        r.1.deep_view() == spec_reconcile(prev.deep_view(), curr.deep_view(), now as int),
{
    let ghost pseq = prev.deep_view();
    let ghost cseq = curr.deep_view();
    let mut events: Vec<Event> = Vec::new();
    let mut recon: Vec<Job> = Vec::new();

    // added and changed jobs, and the reconciled snapshot, in one pass
    // over the current snapshot
    proof {
        assert(events.deep_view() =~= spec_upserts(pseq, cseq.take(0)));
    }
    let mut i: usize = 0;
    while i < curr.len()
        invariant
            pseq == prev.deep_view(),
            cseq == curr.deep_view(),
            i <= curr@.len(),
            cseq.len() == curr@.len(),
            events.deep_view() == spec_upserts(pseq, cseq.take(i as int)),
            recon.deep_view().len() == i as int,
            forall|k: int|
                0 <= k < i ==> recon.deep_view()[k] == reconcile_one(pseq, cseq[k], now as int),
        decreases curr@.len() - i,
    {
        let ghost before = events.deep_view();
        let ghost before_recon = recon.deep_view();
        let job = &curr[i];
        match find_by_id(prev, &job.id) {
            Some(k) => {
                let old_job = &prev[k];
                assert(old_job@ == job_with_id(pseq, cseq[i as int].id));
                if old_job.state != job.state {
                    events.push(
                        Event::Changed { old: old_job.duplicate(), new: job.duplicate() },
                    );
                    let mut stamped = job.duplicate();
                    stamped.update_time = now;
                    recon.push(stamped);
                    proof {
                        assert(events.deep_view() =~= before.push(
                            EventModel::Changed {
                                old: job_with_id(pseq, cseq[i as int].id),
                                new: cseq[i as int],
                            },
                        ));
                        assert(recon.deep_view() =~= before_recon.push(
                            cseq[i as int].with_time(now as int),
                        ));
                        assert(recon.deep_view()[i as int] == reconcile_one(
                            pseq,
                            cseq[i as int],
                            now as int,
                        ));
                    }
                } else {
                    let mut kept = job.duplicate();
                    kept.update_time = old_job.update_time;
                    recon.push(kept);
                    proof {
                        assert(events.deep_view() =~= before + upsert_event(pseq, cseq[i as int]));
                        assert(recon.deep_view() =~= before_recon.push(
                            cseq[i as int].with_time(
                                job_with_id(pseq, cseq[i as int].id).update_time,
                            ),
                        ));
                        assert(recon.deep_view()[i as int] == reconcile_one(
                            pseq,
                            cseq[i as int],
                            now as int,
                        ));
                    }
                }
            },
            None => {
                events.push(Event::Added(job.duplicate()));
                recon.push(job.duplicate());
                proof {
                    assert(events.deep_view() =~= before.push(EventModel::Added(cseq[i as int])));
                    assert(recon.deep_view() =~= before_recon.push(cseq[i as int]));
                    assert(recon.deep_view()[i as int] == reconcile_one(
                        pseq,
                        cseq[i as int],
                        now as int,
                    ));
                }
            },
        }
        proof {
            assert(cseq.take(i + 1).drop_last() =~= cseq.take(i as int));
            assert(cseq.take(i + 1).last() == cseq[i as int]);
            assert(events.deep_view() =~= spec_upserts(pseq, cseq.take(i + 1)));
        }
        i += 1;
    }
    proof {
        assert(cseq.take(curr@.len() as int) =~= cseq);
        assert(recon.deep_view() =~= spec_reconcile(pseq, cseq, now as int));
    }

    // removed jobs
    let ghost upserts_all = events.deep_view();
    let mut i: usize = 0;
    proof {
        assert(events.deep_view() =~= upserts_all + spec_removed(pseq.take(0), cseq));
    }
    while i < prev.len()
        invariant
            pseq == prev.deep_view(),
            cseq == curr.deep_view(),
            i <= prev@.len(),
            pseq.len() == prev@.len(),
            upserts_all == spec_upserts(pseq, cseq),
            events.deep_view() == upserts_all + spec_removed(pseq.take(i as int), cseq),
        decreases prev@.len() - i,
    {
        let ghost before = events.deep_view();
        if find_by_id(curr, &prev[i].id).is_none() {
            events.push(Event::Removed(prev[i].duplicate()));
            proof {
                assert(events.deep_view() =~= before.push(EventModel::Removed(pseq[i as int])));
            }
        }
        proof {
            assert(pseq.take(i + 1).drop_last() =~= pseq.take(i as int));
            assert(pseq.take(i + 1).last() == pseq[i as int]);
            assert(events.deep_view() =~= upserts_all + spec_removed(pseq.take(i + 1), cseq));
        }
        i += 1;
    }
    proof {
        assert(pseq.take(prev@.len() as int) =~= pseq);
    }
    (events, recon)
}

/// An event reporting an id found only in the current snapshot, carrying
/// exactly the current record with that id.
pub open spec fn added_shape(prev: Seq<JobModel>, curr: Seq<JobModel>, e: EventModel) -> bool {
    &&& e == EventModel::Added(job_with_id(curr, event_id(e)))
    &&& has_id(curr, event_id(e))
    &&& !has_id(prev, event_id(e))
}

/// An event reporting an id found only in the previous snapshot, carrying
/// exactly the previous record with that id.
pub open spec fn removed_shape(prev: Seq<JobModel>, curr: Seq<JobModel>, e: EventModel) -> bool {
    &&& e == EventModel::Removed(job_with_id(prev, event_id(e)))
    &&& has_id(prev, event_id(e))
    &&& !has_id(curr, event_id(e))
}

/// An event reporting an id found in both snapshots whose state differs,
/// carrying exactly the two records with that id.
pub open spec fn changed_shape(prev: Seq<JobModel>, curr: Seq<JobModel>, e: EventModel) -> bool {
    &&& has_id(prev, event_id(e))
    &&& has_id(curr, event_id(e))
    &&& e == (EventModel::Changed {
        old: job_with_id(prev, event_id(e)),
        new: job_with_id(curr, event_id(e)),
    })
    &&& job_with_id(prev, event_id(e)).state != job_with_id(curr, event_id(e)).state
}

/// Every upsert event is an `Added` for an id only in `curr` or a
/// `Changed` for an id in both with differing state, carrying exactly the
/// records with its id; every such id is reported; no id twice.
proof fn lemma_upsert_char(prev: Seq<JobModel>, curr: Seq<JobModel>)
    requires
        unique_ids(curr),
    ensures
        forall|k: int|
            0 <= k < spec_upserts(prev, curr).len() ==> added_shape(
                prev,
                curr,
                #[trigger] spec_upserts(prev, curr)[k],
            ) || changed_shape(prev, curr, spec_upserts(prev, curr)[k]),
        forall|i: int|
            0 <= i < curr.len() && !has_id(prev, #[trigger] curr[i].id) ==> spec_upserts(
                prev,
                curr,
            ).contains(EventModel::Added(curr[i])),
        forall|i: int|
            0 <= i < curr.len() && has_id(prev, #[trigger] curr[i].id) && job_with_id(
                prev,
                curr[i].id,
            ).state != curr[i].state ==> spec_upserts(prev, curr).contains(
                EventModel::Changed { old: job_with_id(prev, curr[i].id), new: curr[i] },
            ),
        forall|k1: int, k2: int|
            0 <= k1 < k2 < spec_upserts(prev, curr).len() ==> event_id(spec_upserts(prev, curr)[k1])
                != event_id(spec_upserts(prev, curr)[k2]),
    decreases curr.len(),
{
    if curr.len() > 0 {
        let c = curr.drop_last();
        let x = curr.last();
        assert(unique_ids(c)) by {
            assert(forall|i: int| 0 <= i < c.len() ==> c[i] == curr[i]);
        }
        lemma_upsert_char(prev, c);
        assert(curr =~= c.push(x));
        let ud = spec_upserts(prev, c);
        let u = spec_upserts(prev, curr);
        // the last record's id is fresh among the earlier ones
        assert forall|k: int| 0 <= k < c.len() implies c[k].id != x.id by {
            assert(c[k] == curr[k]);
        }
        lemma_idx_of_id(c, x.id);
        assert(!has_id(c, x.id));
        lemma_idx_push(c, x, x.id);
        assert(job_with_id(curr, x.id) == x);
        // earlier events keep their shape: their lookups are unaffected
        assert forall|k: int| 0 <= k < ud.len() implies added_shape(prev, curr, u[k])
            || changed_shape(prev, curr, u[k]) by {
            assert(u[k] == ud[k]);
            lemma_idx_push(c, x, event_id(ud[k]));
        }
        // the tail event, if any, has its shape
        if !has_id(prev, x.id) {
            assert(u[ud.len() as int] == EventModel::Added(x));
            assert(added_shape(prev, curr, u[ud.len() as int]));
        } else if job_with_id(prev, x.id).state != x.state {
            assert(u[ud.len() as int] == (EventModel::Changed {
                old: job_with_id(prev, x.id),
                new: x,
            }));
            assert(changed_shape(prev, curr, u[ud.len() as int]));
        }
        assert forall|k: int| 0 <= k < u.len() implies added_shape(
            prev,
            curr,
            #[trigger] u[k],
        ) || changed_shape(prev, curr, u[k]) by {
            if k >= ud.len() {
                assert(u[k] == upsert_event(prev, x)[k - ud.len()]);
            }
        }
        // completeness for added
        assert forall|i: int|
            0 <= i < curr.len() && !has_id(prev, #[trigger] curr[i].id) implies u.contains(
            EventModel::Added(curr[i]),
        ) by {
            if i < c.len() {
                assert(c[i] == curr[i]);
                assert(ud.contains(EventModel::Added(curr[i])));
                let w = choose|w: int| 0 <= w < ud.len() && ud[w] == EventModel::Added(curr[i]);
                assert(u[w] == EventModel::Added(curr[i]));
            } else {
                assert(curr[i] == x);
                assert(u[ud.len() as int] == EventModel::Added(x));
            }
        }
        // completeness for changed
        assert forall|i: int|
            0 <= i < curr.len() && has_id(prev, #[trigger] curr[i].id) && job_with_id(
                prev,
                curr[i].id,
            ).state != curr[i].state implies u.contains(
            EventModel::Changed { old: job_with_id(prev, curr[i].id), new: curr[i] },
        ) by {
            let ev = EventModel::Changed { old: job_with_id(prev, curr[i].id), new: curr[i] };
            if i < c.len() {
                assert(c[i] == curr[i]);
                assert(ud.contains(ev));
                let w = choose|w: int| 0 <= w < ud.len() && ud[w] == ev;
                assert(u[w] == ev);
            } else {
                assert(curr[i] == x);
                assert(u[ud.len() as int] == ev);
            }
        }
        // no id reported twice
        assert forall|k1: int, k2: int| 0 <= k1 < k2 < u.len() implies event_id(u[k1]) != event_id(
            u[k2],
        ) by {
            if k2 < ud.len() {
                assert(u[k1] == ud[k1] && u[k2] == ud[k2]);
            } else {
                assert(event_id(u[k2]) == x.id);
                assert(u[k1] == ud[k1]);
                assert(added_shape(prev, c, ud[k1]) || changed_shape(prev, c, ud[k1]));
                let id1 = event_id(ud[k1]);
                lemma_idx_of_id(c, id1);
                assert(c[idx_of_id(c, id1)].id == id1);
                assert(c[idx_of_id(c, id1)].id != x.id);
            }
        }
    }
}

/// Every `Removed` event reports an id only in `prev` and carries its
/// record; every id only in `prev` is reported; no id twice.
proof fn lemma_removed_char(prev: Seq<JobModel>, curr: Seq<JobModel>)
    requires
        unique_ids(prev),
    ensures
        forall|k: int|
            0 <= k < spec_removed(prev, curr).len() ==> removed_shape(
                prev,
                curr,
                #[trigger] spec_removed(prev, curr)[k],
            ),
        forall|i: int|
            0 <= i < prev.len() && !has_id(curr, #[trigger] prev[i].id) ==> spec_removed(
                prev,
                curr,
            ).contains(EventModel::Removed(prev[i])),
        forall|k1: int, k2: int|
            0 <= k1 < k2 < spec_removed(prev, curr).len() ==> event_id(
                spec_removed(prev, curr)[k1],
            ) != event_id(spec_removed(prev, curr)[k2]),
    decreases prev.len(),
{
    if prev.len() > 0 {
        let p = prev.drop_last();
        let x = prev.last();
        assert(unique_ids(p)) by {
            assert(forall|i: int| 0 <= i < p.len() ==> p[i] == prev[i]);
        }
        lemma_removed_char(p, curr);
        assert(prev =~= p.push(x));
        let rd = spec_removed(p, curr);
        let r = spec_removed(prev, curr);
        assert forall|k: int| 0 <= k < p.len() implies p[k].id != x.id by {
            assert(p[k] == prev[k]);
        }
        lemma_idx_of_id(p, x.id);
        assert(!has_id(p, x.id));
        lemma_idx_push(p, x, x.id);
        assert(job_with_id(prev, x.id) == x);
        assert forall|k: int| 0 <= k < rd.len() implies removed_shape(prev, curr, r[k]) by {
            assert(r[k] == rd[k]);
            assert(removed_shape(p, curr, rd[k]));
            lemma_idx_push(p, x, event_id(rd[k]));
        }
        if !has_id(curr, x.id) {
            assert(r[rd.len() as int] == EventModel::Removed(x));
            assert(removed_shape(prev, curr, r[rd.len() as int]));
        }
        assert forall|k: int| 0 <= k < r.len() implies removed_shape(
            prev,
            curr,
            #[trigger] r[k],
        ) by {
            if k < rd.len() {
            } else {
                assert(r[k] == EventModel::Removed(x));
            }
        }
        assert forall|i: int|
            0 <= i < prev.len() && !has_id(curr, #[trigger] prev[i].id) implies r.contains(
            EventModel::Removed(prev[i]),
        ) by {
            if i < p.len() {
                assert(p[i] == prev[i]);
                assert(rd.contains(EventModel::Removed(prev[i])));
                let w = choose|w: int| 0 <= w < rd.len() && rd[w] == EventModel::Removed(prev[i]);
                assert(r[w] == EventModel::Removed(prev[i]));
            } else {
                assert(prev[i] == x);
                assert(r[rd.len() as int] == EventModel::Removed(x));
            }
        }
        assert forall|k1: int, k2: int| 0 <= k1 < k2 < r.len() implies event_id(r[k1]) != event_id(
            r[k2],
        ) by {
            if k2 < rd.len() {
                assert(r[k1] == rd[k1] && r[k2] == rd[k2]);
            } else {
                assert(r[k2] == EventModel::Removed(x));
                assert(r[k1] == rd[k1]);
                assert(removed_shape(p, curr, rd[k1]));
                let id1 = event_id(rd[k1]);
                lemma_idx_of_id(p, id1);
                assert(p[idx_of_id(p, id1)].id == id1);
                assert(p[idx_of_id(p, id1)].id != x.id);
            }
        }
    }
}

/// An event is of exactly one of the three shapes; which one is decided by
/// where its id occurs, so the three classes are disjoint.
pub open spec fn event_classified(prev: Seq<JobModel>, curr: Seq<JobModel>, e: EventModel) -> bool {
    added_shape(prev, curr, e) || removed_shape(prev, curr, e) || changed_shape(prev, curr, e)
}

/// The diff's events partition the ids exactly: every event reports an id
/// only in `curr` (`Added`, carrying the current record), only in `prev`
/// (`Removed`, carrying the previous record), or in both with differing
/// state (`Changed`, carrying both records); every such id yields its
/// event; an id in both snapshots with equal state yields no event at all;
/// and no id is reported twice.
pub proof fn lemma_event_partition(prev: Seq<JobModel>, curr: Seq<JobModel>)
    requires
        unique_ids(prev),
        unique_ids(curr),
    ensures
        forall|k: int|
            0 <= k < spec_events(prev, curr).len() ==> event_classified(
                prev,
                curr,
                #[trigger] spec_events(prev, curr)[k],
            ),
        forall|i: int|
            0 <= i < curr.len() && !has_id(prev, #[trigger] curr[i].id) ==> spec_events(
                prev,
                curr,
            ).contains(EventModel::Added(curr[i])),
        forall|i: int|
            0 <= i < prev.len() && !has_id(curr, #[trigger] prev[i].id) ==> spec_events(
                prev,
                curr,
            ).contains(EventModel::Removed(prev[i])),
        forall|i: int|
            0 <= i < curr.len() && has_id(prev, #[trigger] curr[i].id) && job_with_id(
                prev,
                curr[i].id,
            ).state != curr[i].state ==> spec_events(prev, curr).contains(
                EventModel::Changed { old: job_with_id(prev, curr[i].id), new: curr[i] },
            ),
        forall|i: int, k: int|
            0 <= i < curr.len() && has_id(prev, #[trigger] curr[i].id) && job_with_id(
                prev,
                curr[i].id,
            ).state == curr[i].state && 0 <= k < spec_events(prev, curr).len() ==> event_id(
                #[trigger] spec_events(prev, curr)[k],
            ) != curr[i].id,
        forall|k1: int, k2: int|
            0 <= k1 < k2 < spec_events(prev, curr).len() ==> event_id(spec_events(prev, curr)[k1])
                != event_id(spec_events(prev, curr)[k2]),
{
    lemma_upsert_char(prev, curr);
    lemma_removed_char(prev, curr);
    let u = spec_upserts(prev, curr);
    let r = spec_removed(prev, curr);
    let e = spec_events(prev, curr);
    assert(e.len() == u.len() + r.len());
    assert forall|k: int| 0 <= k < e.len() implies event_classified(prev, curr, #[trigger] e[k]) by {
        if k < u.len() {
            assert(e[k] == u[k]);
        } else {
            assert(e[k] == r[k - u.len()]);
        }
    }
    assert forall|i: int|
        0 <= i < curr.len() && !has_id(prev, #[trigger] curr[i].id) implies e.contains(
        EventModel::Added(curr[i]),
    ) by {
        let w = choose|w: int| 0 <= w < u.len() && u[w] == EventModel::Added(curr[i]);
        assert(e[w] == EventModel::Added(curr[i]));
    }
    assert forall|i: int|
        0 <= i < prev.len() && !has_id(curr, #[trigger] prev[i].id) implies e.contains(
        EventModel::Removed(prev[i]),
    ) by {
        let w = choose|w: int| 0 <= w < r.len() && r[w] == EventModel::Removed(prev[i]);
        assert(e[u.len() + w] == r[w]);
    }
    assert forall|i: int|
        0 <= i < curr.len() && has_id(prev, #[trigger] curr[i].id) && job_with_id(
            prev,
            curr[i].id,
        ).state != curr[i].state implies e.contains(
        EventModel::Changed { old: job_with_id(prev, curr[i].id), new: curr[i] },
    ) by {
        let ev = EventModel::Changed { old: job_with_id(prev, curr[i].id), new: curr[i] };
        let w = choose|w: int| 0 <= w < u.len() && u[w] == ev;
        assert(e[w] == ev);
    }
    assert forall|i: int, k: int|
        0 <= i < curr.len() && has_id(prev, #[trigger] curr[i].id) && job_with_id(
            prev,
            curr[i].id,
        ).state == curr[i].state && 0 <= k < e.len() implies event_id(#[trigger] e[k])
        != curr[i].id by {
        lemma_idx_of_id_self(curr, i);
        if event_id(e[k]) == curr[i].id {
            if k < u.len() {
                assert(e[k] == u[k]);
                assert(added_shape(prev, curr, e[k]) || changed_shape(prev, curr, e[k]));
                assert(job_with_id(curr, curr[i].id) == curr[i]);
            } else {
                assert(e[k] == r[k - u.len()]);
                assert(removed_shape(prev, curr, e[k]));
            }
        }
    }
    assert forall|k1: int, k2: int| 0 <= k1 < k2 < e.len() implies event_id(e[k1]) != event_id(
        e[k2],
    ) by {
        if k1 < u.len() {
            assert(e[k1] == u[k1]);
            assert(added_shape(prev, curr, e[k1]) || changed_shape(prev, curr, e[k1]));
        } else {
            assert(e[k1] == r[k1 - u.len()]);
            assert(removed_shape(prev, curr, e[k1]));
        }
        if k2 < u.len() {
            assert(e[k2] == u[k2]);
            assert(added_shape(prev, curr, e[k2]) || changed_shape(prev, curr, e[k2]));
        } else {
            assert(e[k2] == r[k2 - u.len()]);
            assert(removed_shape(prev, curr, e[k2]));
        }
    }
}

/// Carry-forward: an id present in both snapshots with equal state yields
/// no event, and its reconciled record keeps the previous snapshot's
/// `update_time` — never the current snapshot's.
pub proof fn lemma_carry_forward(prev: Seq<JobModel>, curr: Seq<JobModel>, now: int, i: int)
    requires
        unique_ids(prev),
        unique_ids(curr),
        0 <= i < curr.len(),
        has_id(prev, curr[i].id),
        job_with_id(prev, curr[i].id).state == curr[i].state,
    ensures
        spec_reconcile(prev, curr, now)[i] == curr[i].with_time(
            job_with_id(prev, curr[i].id).update_time,
        ),
        forall|k: int|
            0 <= k < spec_events(prev, curr).len() ==> event_id(
                #[trigger] spec_events(prev, curr)[k],
            ) != curr[i].id,
{
    lemma_event_partition(prev, curr);
}

/// The differ's overall change test: the event set is empty exactly when
/// nothing changed — every current id is in the previous snapshot with the
/// same state, and every previous id is still current. Any event at all
/// means the jobs changed.
pub proof fn lemma_no_events_iff_unchanged(prev: Seq<JobModel>, curr: Seq<JobModel>)
    requires
        unique_ids(prev),
        unique_ids(curr),
    ensures
        spec_events(prev, curr).len() == 0 <==> {
            &&& forall|i: int|
                0 <= i < curr.len() ==> has_id(prev, #[trigger] curr[i].id) && job_with_id(
                    prev,
                    curr[i].id,
                ).state == curr[i].state
            &&& forall|i: int| 0 <= i < prev.len() ==> has_id(curr, #[trigger] prev[i].id)
        },
{
    lemma_upsert_char(prev, curr);
    lemma_removed_char(prev, curr);
    let u = spec_upserts(prev, curr);
    let r = spec_removed(prev, curr);
    if spec_events(prev, curr).len() == 0 {
        assert(u.len() == 0 && r.len() == 0);
        assert forall|i: int| 0 <= i < curr.len() implies has_id(prev, #[trigger] curr[i].id)
            && job_with_id(prev, curr[i].id).state == curr[i].state by {
            if !has_id(prev, curr[i].id) {
                assert(u.contains(EventModel::Added(curr[i])));
            } else if job_with_id(prev, curr[i].id).state != curr[i].state {
                assert(u.contains(
                    EventModel::Changed { old: job_with_id(prev, curr[i].id), new: curr[i] },
                ));
            }
        }
        assert forall|i: int| 0 <= i < prev.len() implies has_id(curr, #[trigger] prev[i].id) by {
            if !has_id(curr, prev[i].id) {
                assert(r.contains(EventModel::Removed(prev[i])));
            }
        }
    } else {
        assert(u.len() > 0 || r.len() > 0);
        if u.len() > 0 {
            assert(added_shape(prev, curr, u[0]) || changed_shape(prev, curr, u[0]));
            let id = event_id(u[0]);
            lemma_idx_of_id(curr, id);
            let i = idx_of_id(curr, id);
            assert(curr[i].id == id);
            lemma_idx_of_id_self(curr, i);
            if added_shape(prev, curr, u[0]) {
                assert(!has_id(prev, curr[i].id));
            } else {
                assert(job_with_id(prev, curr[i].id).state != curr[i].state);
            }
        } else {
            assert(removed_shape(prev, curr, r[0]));
            let id = event_id(r[0]);
            lemma_idx_of_id(prev, id);
            let i = idx_of_id(prev, id);
            assert(prev[i].id == id);
            assert(!has_id(curr, prev[i].id));
        }
    }
}

/// A snapshot diffed against itself yields no events, and reconciles to
/// itself with every timestamp unchanged.
pub proof fn lemma_diff_identity(a: Seq<JobModel>, now: int)
    requires
        unique_ids(a),
    ensures
        spec_events(a, a).len() == 0,
        spec_reconcile(a, a, now) == a,
{
    lemma_event_partition(a, a);
    let e = spec_events(a, a);
    if e.len() > 0 {
        assert(event_classified(a, a, e[0]));
        let id = event_id(e[0]);
        if added_shape(a, a, e[0]) || removed_shape(a, a, e[0]) {
            assert(false);
        } else {
            assert(changed_shape(a, a, e[0]));
            assert(job_with_id(a, id).state != job_with_id(a, id).state);
        }
    }
    assert forall|i: int| 0 <= i < a.len() implies spec_reconcile(a, a, now)[i] == a[i] by {
        lemma_idx_of_id_self(a, i);
        assert(a[i].with_time(a[i].update_time) == a[i]);
    }
    assert(spec_reconcile(a, a, now) =~= a);
}

} // verus!
