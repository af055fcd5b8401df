//! Slurm delimited adapter, in two variants.
//!
//! The fixed-position variant reads whitespace-separated columns: the id is
//! the 1st token, the name the 3rd, the owner the 4th and the state the 5th,
//! empty tokens from repeated spaces skipped; header lines starting with
//! `JOBID` and lines with too few tokens are skipped.
//!
//! The header-driven variant is the canonical one: the first line beginning
//! with `ACCOUNT|` maps column labels to indices, and every later
//! `|`-delimited line is read through that map (labels `JOBID`, `NAME`,
//! `USER` and `STATE ` — the trailing space is part of the label), so
//! reordered columns do not change the parse. Extracted fields are trimmed
//! of padding spaces.
//!
//! Unrecognized state tokens yield `Unknown`; malformed lines are skipped;
//! no input is an error.

use crate::job::{Job, JobModel, JobState};
use crate::text::{
    has_char, lemma_split_char_len, split_char, split_str, starts_with, str_eq, str_starts_with,
    trim_spaces, trim_str,
};
use crate::timing::now_unix;
use vstd::prelude::*;

verus! {

/// The state a Slurm status token denotes; anything unrecognized is
/// `Unknown`.
pub open spec fn slurm_state(tok: Seq<char>) -> JobState {
    if tok == "PENDING"@ {
        JobState::Queuing
    } else if tok == "RUNNING"@ {
        JobState::Running
    } else if tok == "SUSPENDED"@ {
        JobState::Suspended
    } else if tok == "COMPLETING"@ {
        JobState::Completing
    } else if tok == "COMPLETED"@ {
        JobState::Completed
    } else {
        JobState::Unknown
    }
}

/// Maps a Slurm state token to the canonical job state.
pub fn slurm_state_of(tok: &str) -> (r: JobState)
    ensures
        r == slurm_state(tok@),
{
    if str_eq(tok, "PENDING") {
        JobState::Queuing
    } else if str_eq(tok, "RUNNING") {
        JobState::Running
    } else if str_eq(tok, "SUSPENDED") {
        JobState::Suspended
    } else if str_eq(tok, "COMPLETING") {
        JobState::Completing
    } else if str_eq(tok, "COMPLETED") {
        JobState::Completed
    } else {
        JobState::Unknown
    }
}

/// The non-empty segments, in order: splitting on repeated spaces leaves
/// empty segments behind, which are not columns.
pub open spec fn nonempty_tokens(parts: Seq<Seq<char>>) -> Seq<Seq<char>>
    decreases parts.len(),
{
    if parts.len() == 0 {
        Seq::empty()
    } else {
        nonempty_tokens(parts.drop_last()) + (if parts.last().len() > 0 {
            seq![parts.last()]
        } else {
            Seq::empty()
        })
    }
}

fn keep_nonempty(parts: &Vec<String>) -> (toks: Vec<String>)
    ensures
        toks.deep_view() == nonempty_tokens(parts.deep_view()),
{
    let ghost pseq = parts.deep_view();
    let mut toks: Vec<String> = Vec::new();
    proof {
        assert(toks.deep_view() =~= nonempty_tokens(pseq.take(0)));
    }
    let mut i: usize = 0;
    while i < parts.len()
        invariant
            pseq == parts.deep_view(),
            i <= parts@.len(),
            pseq.len() == parts@.len(),
            toks.deep_view() == nonempty_tokens(pseq.take(i as int)),
        decreases parts@.len() - i,
    {
        let ghost prev = toks.deep_view();
        if !parts[i].as_str().is_empty() {
            toks.push(parts[i].clone());
            proof {
                assert(toks.deep_view() =~= prev.push(pseq[i as int]));
            }
        }
        proof {
            assert(pseq.take(i + 1).drop_last() =~= pseq.take(i as int));
            assert(pseq.take(i + 1).last() == pseq[i as int]);
            assert(toks.deep_view() =~= nonempty_tokens(pseq.take(i + 1)));
        }
        i += 1;
    }
    proof {
        assert(pseq.take(parts@.len() as int) =~= pseq);
    }
    toks
}

/// The whitespace-separated columns of one line.
pub open spec fn slurm_line_tokens(line: Seq<char>) -> Seq<Seq<char>> {
    nonempty_tokens(split_char(line, ' '))
}

/// A line yields a record when it is not the `JOBID` header and has enough
/// columns to read the state from.
pub open spec fn slurm_line_ok(line: Seq<char>) -> bool {
    !starts_with(line, "JOBID"@) && slurm_line_tokens(line).len() >= 5
}

/// The job one fixed-position line parses to, stamped `now`.
pub open spec fn slurm_line_job(line: Seq<char>, now: int) -> JobModel {
    let t = slurm_line_tokens(line);
    JobModel { id: t[0], name: t[2], owner: t[3], state: slurm_state(t[4]), update_time: now }
}

/// The jobs of the given lines under the fixed-position rules, in input
/// order.
pub open spec fn spec_parse_slurm_lines(lines: Seq<Seq<char>>, now: int) -> Seq<JobModel>
    decreases lines.len(),
{
    if lines.len() == 0 {
        Seq::empty()
    } else {
        spec_parse_slurm_lines(lines.drop_last(), now) + (if slurm_line_ok(lines.last()) {
            seq![slurm_line_job(lines.last(), now)]
        } else {
            Seq::empty()
        })
    }
}

/// What the fixed-position Slurm adapter yields on `raw`, stamped `now`.
pub open spec fn spec_parse_slurm(raw: Seq<char>, now: int) -> Seq<JobModel> {
    spec_parse_slurm_lines(split_char(raw, '\n'), now)
}

/// Parses Slurm status output by fixed column positions, stamping each
/// record with the poll time `now`. Total: no input is an error.
pub fn parse_slurm_stat_at(dsv: &str, now: i64) -> (jobs: Vec<Job>)
    ensures
        jobs.deep_view() == spec_parse_slurm(dsv@, now as int),
{
    let lines = split_str(dsv, '\n');
    let ghost lseq = lines.deep_view();
    let mut jobs: Vec<Job> = Vec::new();
    proof {
        assert(jobs.deep_view() =~= spec_parse_slurm_lines(lseq.take(0), now as int));
    }
    let mut li: usize = 0;
    while li < lines.len()
        invariant
            lseq == split_char(dsv@, '\n'),
            lseq == lines.deep_view(),
            li <= lines@.len(),
            lseq.len() == lines@.len(),
            jobs.deep_view() == spec_parse_slurm_lines(lseq.take(li as int), now as int),
        decreases lines@.len() - li,
    {
        let ghost prev_jobs = jobs.deep_view();
        let line: &String = &lines[li];
        assert(line@ == lseq[li as int]);
        let parts = split_str(line.as_str(), ' ');
        let toks = keep_nonempty(&parts);
        let is_header = str_starts_with(line.as_str(), "JOBID");
        if !is_header && toks.len() >= 5 {
            assert(slurm_line_ok(lseq[li as int]));
            let state = slurm_state_of(toks[4].as_str());
            jobs.push(
                Job {
                    id: toks[0].clone(),
                    name: toks[2].clone(),
                    owner: toks[3].clone(),
                    state,
                    update_time: now,
                },
            );
            proof {
                assert(jobs.deep_view() =~= prev_jobs.push(
                    slurm_line_job(lseq[li as int], now as int),
                ));
            }
        } else {
            assert(!slurm_line_ok(lseq[li as int]));
        }
        proof {
            assert(lseq.take(li + 1).drop_last() =~= lseq.take(li as int));
            assert(lseq.take(li + 1).last() == lseq[li as int]);
            assert(jobs.deep_view() =~= spec_parse_slurm_lines(lseq.take(li + 1), now as int));
        }
        li += 1;
    }
    proof {
        assert(lseq.take(lines@.len() as int) =~= lseq);
    }
    jobs
}

/// Parses Slurm status output by fixed column positions, stamping each
/// record with the current wall-clock time.
pub fn parse_slurm_stat(dsv: &str) -> (jobs: Vec<Job>)
    ensures
        exists|t: int| jobs.deep_view() == #[trigger] spec_parse_slurm(dsv@, t),
{
    let now = now_unix();
    let jobs = parse_slurm_stat_at(dsv, now);
    proof {
        assert(jobs.deep_view() == spec_parse_slurm(dsv@, now as int));
    }
    jobs
}

/// First index whose entry equals `label`, or -1.
pub open spec fn find_label(cols: Seq<Seq<char>>, label: Seq<char>) -> int
    decreases cols.len(),
{
    if cols.len() == 0 {
        -1
    } else if cols[0] == label {
        0
    } else {
        let r = find_label(cols.drop_first(), label);
        if r < 0 {
            -1
        } else {
            r + 1
        }
    }
}

proof fn lemma_find_label_is(cols: Seq<Seq<char>>, label: Seq<char>, p: int)
    requires
        0 <= p < cols.len(),
        cols[p] == label,
        forall|k: int| 0 <= k < p ==> cols[k] != label,
    ensures
        find_label(cols, label) == p,
    decreases cols.len(),
{
    if p > 0 {
        let t = cols.drop_first();
        assert forall|k: int| 0 <= k < p - 1 implies t[k] != label by {
            assert(t[k] == cols[k + 1]);
        }
        assert(t[p - 1] == cols[p]);
        lemma_find_label_is(t, label, p - 1);
    }
}

proof fn lemma_find_label_none(cols: Seq<Seq<char>>, label: Seq<char>)
    requires
        forall|k: int| 0 <= k < cols.len() ==> cols[k] != label,
    ensures
        find_label(cols, label) < 0,
    decreases cols.len(),
{
    if cols.len() > 0 {
        let t = cols.drop_first();
        assert forall|k: int| 0 <= k < t.len() implies t[k] != label by {
            assert(t[k] == cols[k + 1]);
        }
        lemma_find_label_none(t, label);
    }
}

/// First index of the column labelled `label` in the header's split
/// columns, or none.
fn find_label_in(cols: &Vec<String>, label: &str) -> (r: Option<usize>)
    ensures
        match r {
            Some(k) => k < cols@.len() && find_label(cols.deep_view(), label@) == k as int,
            None => find_label(cols.deep_view(), label@) < 0,
        },
{
    let ghost cseq = cols.deep_view();
    let mut i: usize = 0;
    while i < cols.len()
        invariant
            cseq == cols.deep_view(),
            i <= cols@.len(),
            cseq.len() == cols@.len(),
            forall|k: int| 0 <= k < i ==> cseq[k] != label@,
        decreases cols@.len() - i,
    {
        if str_eq(cols[i].as_str(), label) {
            proof {
                lemma_find_label_is(cseq, label@, i as int);
            }
            return Some(i);
        }
        i += 1;
    }
    proof {
        lemma_find_label_none(cseq, label@);
    }
    None
}

/// First index of a line starting with `ACCOUNT|` — the header the mapped
/// variant is driven by — or -1.
pub open spec fn header_index(lines: Seq<Seq<char>>) -> int
    decreases lines.len(),
{
    if lines.len() == 0 {
        -1
    } else if starts_with(lines[0], "ACCOUNT|"@) {
        0
    } else {
        let r = header_index(lines.drop_first());
        if r < 0 {
            -1
        } else {
            r + 1
        }
    }
}

proof fn lemma_header_index_is(lines: Seq<Seq<char>>, p: int)
    requires
        0 <= p < lines.len(),
        starts_with(lines[p], "ACCOUNT|"@),
        forall|k: int| 0 <= k < p ==> !starts_with(lines[k], "ACCOUNT|"@),
    ensures
        header_index(lines) == p,
    decreases lines.len(),
{
    if p > 0 {
        let t = lines.drop_first();
        assert forall|k: int| 0 <= k < p - 1 implies !starts_with(t[k], "ACCOUNT|"@) by {
            assert(t[k] == lines[k + 1]);
        }
        assert(t[p - 1] == lines[p]);
        lemma_header_index_is(t, p - 1);
    }
}

proof fn lemma_header_index_none(lines: Seq<Seq<char>>)
    requires
        forall|k: int| 0 <= k < lines.len() ==> !starts_with(lines[k], "ACCOUNT|"@),
    ensures
        header_index(lines) < 0,
    decreases lines.len(),
{
    if lines.len() > 0 {
        let t = lines.drop_first();
        assert forall|k: int| 0 <= k < t.len() implies !starts_with(t[k], "ACCOUNT|"@) by {
            assert(t[k] == lines[k + 1]);
        }
        lemma_header_index_none(t);
    }
}

/// First line starting with `ACCOUNT|`, or none.
fn find_header_line(lines: &Vec<String>) -> (r: Option<usize>)
    ensures
        match r {
            Some(k) => k < lines@.len() && header_index(lines.deep_view()) == k as int,
            None => header_index(lines.deep_view()) < 0,
        },
{
    let ghost lseq = lines.deep_view();
    let mut i: usize = 0;
    while i < lines.len()
        invariant
            lseq == lines.deep_view(),
            i <= lines@.len(),
            lseq.len() == lines@.len(),
            forall|k: int| 0 <= k < i ==> !starts_with(lseq[k], "ACCOUNT|"@),
        decreases lines@.len() - i,
    {
        if str_starts_with(lines[i].as_str(), "ACCOUNT|") {
            proof {
                lemma_header_index_is(lseq, i as int);
            }
            return Some(i);
        }
        i += 1;
    }
    proof {
        lemma_header_index_none(lseq);
    }
    None
}

/// A data line yields a record when it is `|`-delimited and long enough for
/// every mapped column.
pub open spec fn mapped_line_ok(line: Seq<char>, ij: int, iname: int, iu: int, ist: int) -> bool {
    has_char(line, '|') && {
        let cols = split_char(line, '|');
        ij < cols.len() && iname < cols.len() && iu < cols.len() && ist < cols.len()
    }
}

/// The job given data columns yield under the given column indices: the
/// mapped columns, trimmed of padding spaces, stamped `now`.
pub open spec fn mapped_cols_job(
    cols: Seq<Seq<char>>,
    ij: int,
    iname: int,
    iu: int,
    ist: int,
    now: int,
) -> JobModel {
    JobModel {
        id: trim_spaces(cols[ij]),
        name: trim_spaces(cols[iname]),
        owner: trim_spaces(cols[iu]),
        state: slurm_state(trim_spaces(cols[ist])),
        update_time: now,
    }
}

/// The job one mapped data line parses to.
pub open spec fn mapped_line_job(
    line: Seq<char>,
    ij: int,
    iname: int,
    iu: int,
    ist: int,
    now: int,
) -> JobModel {
    mapped_cols_job(split_char(line, '|'), ij, iname, iu, ist, now)
}

/// The jobs of the data lines after the header, in input order.
pub open spec fn spec_mapped_lines(
    lines: Seq<Seq<char>>,
    ij: int,
    iname: int,
    iu: int,
    ist: int,
    now: int,
) -> Seq<JobModel>
    decreases lines.len(),
{
    if lines.len() == 0 {
        Seq::empty()
    } else {
        spec_mapped_lines(lines.drop_last(), ij, iname, iu, ist, now) + (if mapped_line_ok(
            lines.last(),
            ij,
            iname,
            iu,
            ist,
        ) {
            seq![mapped_line_job(lines.last(), ij, iname, iu, ist, now)]
        } else {
            Seq::empty()
        })
    }
}

/// What the header-driven Slurm adapter yields on `raw`, stamped `now`: no
/// header, or a header missing one of the four labels, yields no records.
pub open spec fn spec_parse_slurm_mapped(raw: Seq<char>, now: int) -> Seq<JobModel> {
    let lines = split_char(raw, '\n');
    let h = header_index(lines);
    if h < 0 {
        Seq::empty()
    } else {
        let hdr = split_char(lines[h], '|');
        let ij = find_label(hdr, "JOBID"@);
        let iname = find_label(hdr, "NAME"@);
        let iu = find_label(hdr, "USER"@);
        let ist = find_label(hdr, "STATE "@);
        if ij < 0 || iname < 0 || iu < 0 || ist < 0 {
            Seq::empty()
        } else {
            spec_mapped_lines(lines.skip(h + 1), ij, iname, iu, ist, now)
        }
    }
}

/// Parses Slurm status output through the header's column map, stamping
/// each record with the poll time `now`. Total: no input is an error.
pub fn parse_slurm_stat_mapped_at(dsv: &str, now: i64) -> (jobs: Vec<Job>)
    ensures
        jobs.deep_view() == spec_parse_slurm_mapped(dsv@, now as int),
{
    let lines = split_str(dsv, '\n');
    let ghost lseq = lines.deep_view();
    let mut jobs: Vec<Job> = Vec::new();
    let h: usize = match find_header_line(&lines) {
        Some(k) => k,
        None => {
            proof {
                assert(jobs.deep_view() =~= spec_parse_slurm_mapped(dsv@, now as int));
            }
            return jobs;
        },
    };
    let hdr = split_str(lines[h].as_str(), '|');
    let oj = find_label_in(&hdr, "JOBID");
    let oname = find_label_in(&hdr, "NAME");
    let ou = find_label_in(&hdr, "USER");
    let ost = find_label_in(&hdr, "STATE ");
    let (ij, iname, iu, ist) = match (oj, oname, ou, ost) {
        (Some(a), Some(b), Some(c), Some(d)) => (a, b, c, d),
        _ => {
            proof {
                assert(jobs.deep_view() =~= spec_parse_slurm_mapped(dsv@, now as int));
            }
            return jobs;
        },
    };
    let ghost gij = ij as int;
    let ghost giname = iname as int;
    let ghost giu = iu as int;
    let ghost gist = ist as int;
    let nlines = lines.len();
    assert(h < nlines);
    let mut li: usize = h + 1;
    proof {
        assert(lseq.subrange(h + 1, li as int) =~= Seq::<Seq<char>>::empty());
        assert(jobs.deep_view() =~= spec_mapped_lines(
            lseq.subrange(h + 1, li as int),
            gij,
            giname,
            giu,
            gist,
            now as int,
        ));
    }
    while li < lines.len()
        invariant
            lseq == lines.deep_view(),
            lseq == split_char(dsv@, '\n'),
            lseq.len() == lines@.len(),
            h < lines@.len(),
            h + 1 <= li <= lines@.len(),
            header_index(lseq) == h as int,
            gij == ij as int,
            giname == iname as int,
            giu == iu as int,
            gist == ist as int,
            find_label(split_char(lseq[h as int], '|'), "JOBID"@) == gij,
            find_label(split_char(lseq[h as int], '|'), "NAME"@) == giname,
            find_label(split_char(lseq[h as int], '|'), "USER"@) == giu,
            find_label(split_char(lseq[h as int], '|'), "STATE "@) == gist,
            jobs.deep_view() == spec_mapped_lines(
                lseq.subrange(h + 1, li as int),
                gij,
                giname,
                giu,
                gist,
                now as int,
            ),
        decreases lines@.len() - li,
    {
        let ghost prev_jobs = jobs.deep_view();
        let line: &String = &lines[li];
        assert(line@ == lseq[li as int]);
        let cols = split_str(line.as_str(), '|');
        proof {
            lemma_split_char_len(line@, '|');
        }
        if cols.len() >= 2 && ij < cols.len() && iname < cols.len() && iu < cols.len() && ist
            < cols.len() {
            assert(mapped_line_ok(lseq[li as int], gij, giname, giu, gist));
            let state = slurm_state_of(trim_str(cols[ist].as_str()).as_str());
            jobs.push(
                Job {
                    id: trim_str(cols[ij].as_str()),
                    name: trim_str(cols[iname].as_str()),
                    owner: trim_str(cols[iu].as_str()),
                    state,
                    update_time: now,
                },
            );
            proof {
                assert(jobs.deep_view() =~= prev_jobs.push(
                    mapped_line_job(lseq[li as int], gij, giname, giu, gist, now as int),
                ));
            }
        } else {
            assert(!mapped_line_ok(lseq[li as int], gij, giname, giu, gist));
        }
        proof {
            assert(lseq.subrange(h + 1, li + 1).drop_last() =~= lseq.subrange(h + 1, li as int));
            assert(lseq.subrange(h + 1, li + 1).last() == lseq[li as int]);
            assert(jobs.deep_view() =~= spec_mapped_lines(
                lseq.subrange(h + 1, li + 1),
                gij,
                giname,
                giu,
                gist,
                now as int,
            ));
        }
        li += 1;
    }
    proof {
        assert(lseq.subrange(h + 1, lines@.len() as int) =~= lseq.skip(h + 1));
    }
    jobs
}

/// Parses Slurm status output through the header's column map, stamping
/// each record with the current wall-clock time.
pub fn parse_slurm_stat_mapped(dsv: &str) -> (jobs: Vec<Job>)
    ensures
        exists|t: int| jobs.deep_view() == #[trigger] spec_parse_slurm_mapped(dsv@, t),
{
    let now = now_unix();
    let jobs = parse_slurm_stat_mapped_at(dsv, now);
    proof {
        assert(jobs.deep_view() == spec_parse_slurm_mapped(dsv@, now as int));
    }
    jobs
}

pub proof fn lemma_find_label_props(cols: Seq<Seq<char>>, label: Seq<char>)
    ensures
        find_label(cols, label) >= 0 ==> find_label(cols, label) < cols.len() && cols[find_label(
            cols,
            label,
        )] == label,
        find_label(cols, label) >= 0 ==> forall|k: int|
            0 <= k < find_label(cols, label) ==> cols[k] != label,
        find_label(cols, label) < 0 ==> forall|k: int| 0 <= k < cols.len() ==> cols[k] != label,
    decreases cols.len(),
{
    if cols.len() > 0 && cols[0] != label {
        let t = cols.drop_first();
        lemma_find_label_props(t, label);
        let r = find_label(t, label);
        if r >= 0 {
            assert(cols[r + 1] == t[r]);
            assert forall|k: int| 0 <= k < r + 1 implies cols[k] != label by {
                if k > 0 {
                    assert(cols[k] == t[k - 1]);
                }
            }
        } else {
            assert forall|k: int| 0 <= k < cols.len() implies cols[k] != label by {
                if k > 0 {
                    assert(cols[k] == t[k - 1]);
                }
            }
        }
    }
}

/// `perm` rearranges the first snapshot's columns into the second's —
/// header and data columns move together — and `inv` is its inverse,
/// witnessing that every original column lands somewhere.
pub open spec fn columns_permuted(
    hdr1: Seq<Seq<char>>,
    row1: Seq<Seq<char>>,
    hdr2: Seq<Seq<char>>,
    row2: Seq<Seq<char>>,
    perm: Seq<int>,
    inv: Seq<int>,
) -> bool {
    &&& hdr2.len() == hdr1.len()
    &&& row1.len() == hdr1.len()
    &&& row2.len() == hdr1.len()
    &&& perm.len() == hdr1.len()
    &&& inv.len() == hdr1.len()
    &&& forall|i: int| 0 <= i < perm.len() ==> 0 <= #[trigger] perm[i] < perm.len()
    &&& forall|i: int| 0 <= i < inv.len() ==> 0 <= #[trigger] inv[i] < inv.len()
    &&& forall|v: int| 0 <= v < perm.len() ==> #[trigger] perm[inv[v]] == v
    &&& forall|i: int|
        0 <= i < perm.len() ==> #[trigger] hdr2[i] == hdr1[perm[i]] && row2[i] == row1[perm[i]]
}

/// Looking a label up through a reordered header lands on the same data:
/// the mapped index moves with the columns.
pub proof fn lemma_find_label_reordered(
    hdr1: Seq<Seq<char>>,
    row1: Seq<Seq<char>>,
    hdr2: Seq<Seq<char>>,
    row2: Seq<Seq<char>>,
    perm: Seq<int>,
    inv: Seq<int>,
    label: Seq<char>,
)
    requires
        columns_permuted(hdr1, row1, hdr2, row2, perm, inv),
        forall|i: int, j: int| 0 <= i < j < hdr1.len() ==> hdr1[i] != hdr1[j],
        find_label(hdr1, label) >= 0,
    ensures
        find_label(hdr2, label) >= 0,
        row2[find_label(hdr2, label)] == row1[find_label(hdr1, label)],
{
    lemma_find_label_props(hdr1, label);
    let p1 = find_label(hdr1, label);
    let j = inv[p1];
    assert(perm[j] == p1);
    assert(hdr2[j] == label);
    lemma_find_label_props(hdr2, label);
    let p2 = find_label(hdr2, label);
    assert(p2 >= 0);
    assert(hdr2[p2] == label);
    assert(hdr1[perm[p2]] == label);
    assert(perm[p2] == p1);
    assert(row2[p2] == row1[p1]);
}

/// Reordering header and data columns together does not change the parsed
/// job: field extraction goes by the header's labels, never by physical
/// positions.
pub proof fn lemma_mapped_reorder(
    hdr1: Seq<Seq<char>>,
    row1: Seq<Seq<char>>,
    hdr2: Seq<Seq<char>>,
    row2: Seq<Seq<char>>,
    perm: Seq<int>,
    inv: Seq<int>,
    now: int,
)
    requires
        columns_permuted(hdr1, row1, hdr2, row2, perm, inv),
        forall|i: int, j: int| 0 <= i < j < hdr1.len() ==> hdr1[i] != hdr1[j],
        find_label(hdr1, "JOBID"@) >= 0,
        find_label(hdr1, "NAME"@) >= 0,
        find_label(hdr1, "USER"@) >= 0,
        find_label(hdr1, "STATE "@) >= 0,
    ensures
        find_label(hdr2, "JOBID"@) >= 0,
        find_label(hdr2, "NAME"@) >= 0,
        find_label(hdr2, "USER"@) >= 0,
        find_label(hdr2, "STATE "@) >= 0,
        mapped_cols_job(
            row2,
            find_label(hdr2, "JOBID"@),
            find_label(hdr2, "NAME"@),
            find_label(hdr2, "USER"@),
            find_label(hdr2, "STATE "@),
            now,
        ) == mapped_cols_job(
            row1,
            find_label(hdr1, "JOBID"@),
            find_label(hdr1, "NAME"@),
            find_label(hdr1, "USER"@),
            find_label(hdr1, "STATE "@),
            now,
        ),
{
    lemma_find_label_reordered(hdr1, row1, hdr2, row2, perm, inv, "JOBID"@);
    lemma_find_label_reordered(hdr1, row1, hdr2, row2, perm, inv, "NAME"@);
    lemma_find_label_reordered(hdr1, row1, hdr2, row2, perm, inv, "USER"@);
    lemma_find_label_reordered(hdr1, row1, hdr2, row2, perm, inv, "STATE "@);
    lemma_find_label_props(hdr2, "JOBID"@);
    lemma_find_label_props(hdr2, "NAME"@);
    lemma_find_label_props(hdr2, "USER"@);
    lemma_find_label_props(hdr2, "STATE "@);
}

} // verus!
