//! PBS delimited adapter: turns pipe-delimited `qstat` output into job
//! records. A line is a record only if it holds the delimiter `|`; within a
//! record, tokens are classified by prefix (`Job Id: `, `Job_Name=`,
//! `Job_Owner=`) or matched whole (`job_state=Q`, `job_state=R`). A record
//! with no recognized state token defaults to `Unknown`. Malformed input is
//! never an error: unrecognized lines are skipped, unrecognized tokens
//! ignored.

use crate::job::{Job, JobModel, JobState};
use crate::text::{
    has_char, lemma_split_char_len, split_char, split_str, starts_with, str_eq, str_starts_with,
};
use crate::timing::now_unix;
use vstd::prelude::*;

verus! {

/// The fields accumulated while scanning one record's tokens.
pub struct PbsFields {
    pub id: Seq<char>,
    pub name: Seq<char>,
    pub owner: Seq<char>,
    pub state: JobState,
}

/// The effect of one token on the accumulated fields: later tokens of the
/// same kind overwrite earlier ones.
pub open spec fn pbs_apply(acc: PbsFields, col: Seq<char>) -> PbsFields {
    if starts_with(col, "Job Id: "@) {
        PbsFields { id: col.skip("Job Id: "@.len() as int), ..acc }
    } else if starts_with(col, "Job_Name="@) {
        PbsFields { name: col.skip("Job_Name="@.len() as int), ..acc }
    } else if starts_with(col, "Job_Owner="@) {
        PbsFields { owner: col.skip("Job_Owner="@.len() as int), ..acc }
    } else if col == "job_state=Q"@ {
        PbsFields { state: JobState::Queuing, ..acc }
    } else if col == "job_state=R"@ {
        PbsFields { state: JobState::Running, ..acc }
    } else {
        acc
    }
}

/// The fields of a record with the given tokens: every token applied in
/// order, starting from empty fields and the `Unknown` state.
pub open spec fn pbs_fold(cols: Seq<Seq<char>>) -> PbsFields
    decreases cols.len(),
{
    if cols.len() == 0 {
        PbsFields {
            id: Seq::empty(),
            name: Seq::empty(),
            owner: Seq::empty(),
            state: JobState::Unknown,
        }
    } else {
        pbs_apply(pbs_fold(cols.drop_last()), cols.last())
    }
}

/// The job a record line parses to, stamped with the poll time `now`.
pub open spec fn pbs_line_job(line: Seq<char>, now: int) -> JobModel {
    let f = pbs_fold(split_char(line, '|'));
    JobModel { id: f.id, name: f.name, owner: f.owner, state: f.state, update_time: now }
}

/// The jobs of the given lines: one per line holding the delimiter, in
/// input order; other lines are skipped.
pub open spec fn spec_parse_pbs_lines(lines: Seq<Seq<char>>, now: int) -> Seq<JobModel>
    decreases lines.len(),
{
    if lines.len() == 0 {
        Seq::empty()
    } else {
        spec_parse_pbs_lines(lines.drop_last(), now) + (if has_char(lines.last(), '|') {
            seq![pbs_line_job(lines.last(), now)]
        } else {
            Seq::empty()
        })
    }
}

/// What the PBS delimited adapter yields on `raw`, with every record stamped
/// `now`.
pub open spec fn spec_parse_pbs(raw: Seq<char>, now: int) -> Seq<JobModel> {
    spec_parse_pbs_lines(split_char(raw, '\n'), now)
}

/// Parses PBS delimited status output, stamping each record with the poll
/// time `now`. Total: no input is an error.
pub fn parse_pbs_stat_at(dsv: &str, now: i64) -> (jobs: Vec<Job>)
    ensures
        jobs.deep_view() == spec_parse_pbs(dsv@, now as int),
{
    let lines = split_str(dsv, '\n');
    let ghost lseq = lines.deep_view();
    let mut jobs: Vec<Job> = Vec::new();
    proof {
        assert(jobs.deep_view() =~= spec_parse_pbs_lines(lseq.take(0), now as int));
    }
    let mut li: usize = 0;
    while li < lines.len()
        invariant
            lseq == split_char(dsv@, '\n'),
            lseq == lines.deep_view(),
            li <= lines@.len(),
            lseq.len() == lines@.len(),
            jobs.deep_view() == spec_parse_pbs_lines(lseq.take(li as int), now as int),
        decreases lines@.len() - li,
    {
        let ghost prev_jobs = jobs.deep_view();
        let line: &String = &lines[li];
        assert(line@ == lseq[li as int]);
        let cols = split_str(line.as_str(), '|');
        let ghost cseq = cols.deep_view();
        proof {
            lemma_split_char_len(line@, '|');
        }
        if cols.len() >= 2 {
            assert(has_char(lseq[li as int], '|'));
            let mut id = String::new();
            let mut name = String::new();
            let mut owner = String::new();
            let mut state = JobState::Unknown;
            proof {
                assert(id@ =~= Seq::<char>::empty());
                assert(cseq.take(0) =~= Seq::<Seq<char>>::empty());
            }
            let mut ci: usize = 0;
            while ci < cols.len()
                invariant
                    cseq == cols.deep_view(),
                    ci <= cols@.len(),
                    cseq.len() == cols@.len(),
                    (PbsFields { id: id@, name: name@, owner: owner@, state }) == pbs_fold(
                        cseq.take(ci as int),
                    ),
                decreases cols@.len() - ci,
            {
                let col: &String = &cols[ci];
                assert(col@ == cseq[ci as int]);
                let cs = col.as_str();
                let n = cs.unicode_len();
                if str_starts_with(cs, "Job Id: ") {
                    proof {
                        reveal_strlit("Job Id: ");
                    }
                    id = cs.substring_char(8, n).to_owned();
                    assert(id@ =~= col@.skip("Job Id: "@.len() as int));
                } else if str_starts_with(cs, "Job_Name=") {
                    proof {
                        reveal_strlit("Job_Name=");
                    }
                    name = cs.substring_char(9, n).to_owned();
                    assert(name@ =~= col@.skip("Job_Name="@.len() as int));
                } else if str_starts_with(cs, "Job_Owner=") {
                    proof {
                        reveal_strlit("Job_Owner=");
                    }
                    owner = cs.substring_char(10, n).to_owned();
                    assert(owner@ =~= col@.skip("Job_Owner="@.len() as int));
                } else if str_eq(cs, "job_state=Q") {
                    state = JobState::Queuing;
                } else if str_eq(cs, "job_state=R") {
                    state = JobState::Running;
                }
                proof {
                    assert(cseq.take(ci + 1).drop_last() =~= cseq.take(ci as int));
                    assert(cseq.take(ci + 1).last() == cseq[ci as int]);
                }
                ci += 1;
            }
            proof {
                assert(cseq.take(cols@.len() as int) =~= cseq);
            }
            jobs.push(Job { id, name, owner, state, update_time: now });
            proof {
                assert(lseq.take(li + 1).drop_last() =~= lseq.take(li as int));
                assert(lseq.take(li + 1).last() == lseq[li as int]);
                assert(jobs.deep_view() =~= prev_jobs.push(pbs_line_job(lseq[li as int], now as int)));
                assert(jobs.deep_view() =~= spec_parse_pbs_lines(lseq.take(li + 1), now as int));
            }
        } else {
            proof {
                assert(!has_char(lseq[li as int], '|'));
                assert(lseq.take(li + 1).drop_last() =~= lseq.take(li as int));
                assert(lseq.take(li + 1).last() == lseq[li as int]);
                assert(jobs.deep_view() =~= spec_parse_pbs_lines(lseq.take(li + 1), now as int));
            }
        }
        li += 1;
    }
    proof {
        assert(lseq.take(lines@.len() as int) =~= lseq);
    }
    jobs
}

/// The job fields the legacy PBS JSON document yields, in document order:
/// for each entry of the top-level `Jobs` object, its key (the job id) and
/// the entry's `Job_Name`, `Job_Owner` and `Job_state` strings. A function
/// of the document alone; a malformed document yields nothing.
pub uninterp spec fn json_job_fields_of(raw: Seq<char>) -> Seq<
    (Seq<char>, Seq<char>, Seq<char>, Seq<char>),
>;

/// Relies on serde_json's `from_str::<Value>`, `Value::get`,
/// `Value::as_object` and `Value::as_str`: the `Jobs` object's entries in
/// map order (serde_json's map is ordered by key), each reduced to its id
/// and its `Job_Name`, `Job_Owner` and `Job_state` strings, a missing or
/// non-string field to the empty string. Malformed JSON yields the empty
/// vector. The result is a function of the document alone.
#[verifier::external_body]
fn json_job_fields(raw: &str) -> (r: Vec<(String, String, String, String)>)
    ensures
        r.deep_view() == json_job_fields_of(raw@),
{
    let mut out = Vec::new();
    if let Ok(v) = serde_json::from_str::<serde_json::Value>(raw) {
        if let Some(jobs) = v.get("Jobs").and_then(|j| j.as_object()) {
            for (id, job) in jobs {
                let name = job.get("Job_Name").and_then(|x| x.as_str()).unwrap_or("");
                let owner = job.get("Job_Owner").and_then(|x| x.as_str()).unwrap_or("");
                let state = job.get("Job_state").and_then(|x| x.as_str()).unwrap_or("");
                out.push((id.clone(), name.to_owned(), owner.to_owned(), state.to_owned()));
            }
        }
    }
    out
}

/// The state a PBS single-letter state code denotes.
pub open spec fn pbs_letter_state(code: Seq<char>) -> JobState {
    if code == "Q"@ {
        JobState::Queuing
    } else if code == "R"@ {
        JobState::Running
    } else {
        JobState::Unknown
    }
}

/// The job one extracted field tuple yields, stamped `now`.
pub open spec fn pbs_json_job(
    f: (Seq<char>, Seq<char>, Seq<char>, Seq<char>),
    now: int,
) -> JobModel {
    JobModel { id: f.0, name: f.1, owner: f.2, state: pbs_letter_state(f.3), update_time: now }
}

/// What the legacy PBS JSON adapter yields on `raw`, stamped `now`.
pub open spec fn spec_parse_pbs_json(raw: Seq<char>, now: int) -> Seq<JobModel> {
    Seq::new(
        json_job_fields_of(raw).len(),
        |i: int| pbs_json_job(json_job_fields_of(raw)[i], now),
    )
}

/// Builds the job records for extracted `(id, name, owner, state-code)`
/// field tuples, stamping each with `now`: the verified half of the legacy
/// JSON adapter, total over every extraction result.
pub fn jobs_from_json_fields(fields: &Vec<(String, String, String, String)>, now: i64) -> (jobs:
    Vec<Job>)
    ensures
        jobs.deep_view().len() == fields.deep_view().len(),
        forall|i: int|
            0 <= i < fields.deep_view().len() ==> jobs.deep_view()[i] == pbs_json_job(
                fields.deep_view()[i],
                now as int,
            ),
{
    let ghost fseq = fields.deep_view();
    let mut jobs: Vec<Job> = Vec::new();
    let mut i: usize = 0;
    while i < fields.len()
        invariant
            fseq == fields.deep_view(),
            i <= fields@.len(),
            fseq.len() == fields@.len(),
            jobs.deep_view().len() == i as int,
            forall|k: int|
                0 <= k < i ==> jobs.deep_view()[k] == pbs_json_job(fseq[k], now as int),
        decreases fields@.len() - i,
    {
        let ghost before = jobs.deep_view();
        let f = &fields[i];
        let code = f.3.as_str();
        let state = if str_eq(code, "Q") {
            JobState::Queuing
        } else if str_eq(code, "R") {
            JobState::Running
        } else {
            JobState::Unknown
        };
        jobs.push(
            Job {
                id: f.0.clone(),
                name: f.1.clone(),
                owner: f.2.clone(),
                state,
                update_time: now,
            },
        );
        proof {
            assert(jobs.deep_view() =~= before.push(pbs_json_job(fseq[i as int], now as int)));
        }
        i += 1;
    }
    jobs
}

/// Parses the legacy PBS JSON status document, stamping each record with
/// the poll time `now`. Malformed JSON yields an empty snapshot, never an
/// error.
pub fn parse_pbs_json_at(raw: &str, now: i64) -> (jobs: Vec<Job>)
    ensures
        jobs.deep_view() == spec_parse_pbs_json(raw@, now as int),
{
    let fields = json_job_fields(raw);
    let jobs = jobs_from_json_fields(&fields, now);
    proof {
        assert(jobs.deep_view() =~= spec_parse_pbs_json(raw@, now as int));
    }
    jobs
}

/// Parses the legacy PBS JSON status document, stamping each record with
/// the current wall-clock time.
pub fn parse_pbs_json(raw: &str) -> (jobs: Vec<Job>)
    ensures
        exists|t: int| jobs.deep_view() == #[trigger] spec_parse_pbs_json(raw@, t),
{
    let now = now_unix();
    let jobs = parse_pbs_json_at(raw, now);
    proof {
        assert(jobs.deep_view() == spec_parse_pbs_json(raw@, now as int));
    }
    jobs
}

/// Parses PBS delimited status output, stamping each record with the
/// current wall-clock time, as one poll of the scheduler does.
pub fn parse_pbs_stat(dsv: &str) -> (jobs: Vec<Job>)
    ensures
        exists|t: int| jobs.deep_view() == #[trigger] spec_parse_pbs(dsv@, t),
{
    let now = now_unix();
    let jobs = parse_pbs_stat_at(dsv, now);
    proof {
        assert(jobs.deep_view() == spec_parse_pbs(dsv@, now as int));
    }
    jobs
}

} // verus!
