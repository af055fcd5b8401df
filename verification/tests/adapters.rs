use cluster_job_monitor::job::JobState;
use cluster_job_monitor::pbs::{parse_pbs_json, parse_pbs_json_at, parse_pbs_stat, parse_pbs_stat_at};
use cluster_job_monitor::slurm::{
    parse_slurm_stat, parse_slurm_stat_at, parse_slurm_stat_mapped, parse_slurm_stat_mapped_at,
    slurm_state_of,
};

#[test]
fn pbs_single_record() {
    let jobs = parse_pbs_stat_at("Job Id: 123.host|Job_Name=foo|Job_Owner=bob|job_state=R", 42);
    assert_eq!(jobs.len(), 1);
    assert_eq!(jobs[0].id, "123.host");
    assert_eq!(jobs[0].name, "foo");
    assert_eq!(jobs[0].owner, "bob");
    assert_eq!(jobs[0].state, JobState::Running);
    assert_eq!(jobs[0].update_time, 42);
}

#[test]
fn pbs_line_without_delimiter_skipped() {
    let raw = "plain text line\nJob Id: 1|Job_Name=a|Job_Owner=u|job_state=Q\nanother stray line";
    let jobs = parse_pbs_stat_at(raw, 7);
    assert_eq!(jobs.len(), 1);
    assert_eq!(jobs[0].id, "1");
    assert_eq!(jobs[0].state, JobState::Queuing);
}

#[test]
fn pbs_empty_input_yields_nothing() {
    assert_eq!(parse_pbs_stat_at("", 0).len(), 0);
}

#[test]
fn pbs_missing_state_defaults_unknown() {
    let jobs = parse_pbs_stat_at("Job Id: 9|Job_Name=n|Job_Owner=o", 1);
    assert_eq!(jobs.len(), 1);
    assert_eq!(jobs[0].state, JobState::Unknown);
}

#[test]
fn pbs_unrecognized_state_token_ignored() {
    let jobs = parse_pbs_stat_at("Job Id: 9|job_state=E", 1);
    assert_eq!(jobs.len(), 1);
    assert_eq!(jobs[0].state, JobState::Unknown);
}

#[test]
fn pbs_record_with_delimiter_but_no_fields() {
    let jobs = parse_pbs_stat_at("a|b", 3);
    assert_eq!(jobs.len(), 1);
    assert_eq!(jobs[0].id, "");
    assert_eq!(jobs[0].name, "");
    assert_eq!(jobs[0].owner, "");
    assert_eq!(jobs[0].state, JobState::Unknown);
}

#[test]
fn pbs_wall_clock_variant_parses_same_fields() {
    let jobs = parse_pbs_stat("Job Id: 5|Job_Name=x|Job_Owner=y|job_state=R");
    assert_eq!(jobs.len(), 1);
    assert_eq!(jobs[0].id, "5");
    assert_eq!(jobs[0].name, "x");
    assert_eq!(jobs[0].owner, "y");
    assert_eq!(jobs[0].state, JobState::Running);
}

#[test]
fn pbs_json_single_job() {
    let raw = "{\"Jobs\":{\"12.h\":{\"Job_Name\":\"sim\",\"Job_Owner\":\"ann\",\"Job_state\":\"Q\"}}}";
    let jobs = parse_pbs_json_at(raw, 11);
    assert_eq!(jobs.len(), 1);
    assert_eq!(jobs[0].id, "12.h");
    assert_eq!(jobs[0].name, "sim");
    assert_eq!(jobs[0].owner, "ann");
    assert_eq!(jobs[0].state, JobState::Queuing);
    assert_eq!(jobs[0].update_time, 11);
}

#[test]
fn pbs_json_state_letters() {
    let raw = "{\"Jobs\":{\"a\":{\"Job_state\":\"R\"},\"b\":{\"Job_state\":\"E\"}}}";
    let jobs = parse_pbs_json_at(raw, 0);
    assert_eq!(jobs.len(), 2);
    assert_eq!(jobs[0].id, "a");
    assert_eq!(jobs[0].state, JobState::Running);
    assert_eq!(jobs[0].name, "");
    assert_eq!(jobs[1].id, "b");
    assert_eq!(jobs[1].state, JobState::Unknown);
}

#[test]
fn pbs_json_malformed_yields_nothing() {
    assert_eq!(parse_pbs_json_at("{not json", 0).len(), 0);
    assert_eq!(parse_pbs_json_at("", 0).len(), 0);
    assert_eq!(parse_pbs_json_at("[1,2,3]", 0).len(), 0);
}

#[test]
fn wall_clock_variants_parse_same_fields() {
    let s = parse_slurm_stat("21 batch sim ann PENDING");
    assert_eq!(s.len(), 1);
    assert_eq!(s[0].id, "21");
    assert_eq!(s[0].state, JobState::Queuing);

    let m = parse_slurm_stat_mapped("ACCOUNT|JOBID|NAME|USER|STATE \nacct|22|n|u|COMPLETED");
    assert_eq!(m.len(), 1);
    assert_eq!(m[0].id, "22");
    assert_eq!(m[0].state, JobState::Completed);

    let j = parse_pbs_json("{\"Jobs\":{\"23\":{\"Job_state\":\"R\"}}}");
    assert_eq!(j.len(), 1);
    assert_eq!(j[0].id, "23");
    assert_eq!(j[0].state, JobState::Running);
}

#[test]
fn slurm_fixed_positions() {
    let raw = "JOBID PARTITION NAME USER STATE\n17 batch train ann RUNNING extra";
    let jobs = parse_slurm_stat_at(raw, 5);
    assert_eq!(jobs.len(), 1);
    assert_eq!(jobs[0].id, "17");
    assert_eq!(jobs[0].name, "train");
    assert_eq!(jobs[0].owner, "ann");
    assert_eq!(jobs[0].state, JobState::Running);
    assert_eq!(jobs[0].update_time, 5);
}

#[test]
fn slurm_unrecognized_state_yields_unknown() {
    let raw = "18 batch sim bob CANCELLED";
    let jobs = parse_slurm_stat_at(raw, 1);
    assert_eq!(jobs.len(), 1);
    assert_eq!(jobs[0].state, JobState::Unknown);
}

#[test]
fn slurm_repeated_spaces_skipped() {
    let raw = "19   batch    sim   bob   PENDING";
    let jobs = parse_slurm_stat_at(raw, 1);
    assert_eq!(jobs.len(), 1);
    assert_eq!(jobs[0].id, "19");
    assert_eq!(jobs[0].name, "sim");
    assert_eq!(jobs[0].owner, "bob");
    assert_eq!(jobs[0].state, JobState::Queuing);
}

#[test]
fn slurm_short_lines_skipped() {
    let raw = "has only four tokens\nno\n\n20 p n u SUSPENDED";
    let jobs = parse_slurm_stat_at(raw, 1);
    assert_eq!(jobs.len(), 1);
    assert_eq!(jobs[0].id, "20");
    assert_eq!(jobs[0].state, JobState::Suspended);
}

#[test]
fn slurm_all_states_recognized() {
    assert_eq!(slurm_state_of("PENDING"), JobState::Queuing);
    assert_eq!(slurm_state_of("RUNNING"), JobState::Running);
    assert_eq!(slurm_state_of("SUSPENDED"), JobState::Suspended);
    assert_eq!(slurm_state_of("COMPLETING"), JobState::Completing);
    assert_eq!(slurm_state_of("COMPLETED"), JobState::Completed);
    assert_eq!(slurm_state_of("FAILED"), JobState::Unknown);
}

#[test]
fn slurm_header_driven_mapping() {
    let raw = "ACCOUNT|JOBID|NAME|USER|STATE |TIME\nacct|123|myjob|bob|RUNNING|0:01";
    let jobs = parse_slurm_stat_mapped_at(raw, 9);
    assert_eq!(jobs.len(), 1);
    assert_eq!(jobs[0].id, "123");
    assert_eq!(jobs[0].name, "myjob");
    assert_eq!(jobs[0].owner, "bob");
    assert_eq!(jobs[0].state, JobState::Running);
    assert_eq!(jobs[0].update_time, 9);
}

#[test]
fn slurm_header_driven_reordered_columns_same_output() {
    let a = parse_slurm_stat_mapped_at(
        "ACCOUNT|JOBID|NAME|USER|STATE |TIME\nacct|123|myjob|bob|RUNNING|0:01",
        9,
    );
    let b = parse_slurm_stat_mapped_at(
        "ACCOUNT|USER|STATE |JOBID|NAME|TIME\nacct|bob|RUNNING|123|myjob|0:01",
        9,
    );
    assert_eq!(a.len(), 1);
    assert_eq!(b.len(), 1);
    assert_eq!(a[0].id, b[0].id);
    assert_eq!(a[0].name, b[0].name);
    assert_eq!(a[0].owner, b[0].owner);
    assert_eq!(a[0].state, b[0].state);
}

#[test]
fn slurm_header_driven_trims_padding() {
    let raw = "ACCOUNT|JOBID|NAME|USER|STATE \nacct| 7 |padded name |bob|RUNNING   ";
    let jobs = parse_slurm_stat_mapped_at(raw, 0);
    assert_eq!(jobs.len(), 1);
    assert_eq!(jobs[0].id, "7");
    assert_eq!(jobs[0].name, "padded name");
    assert_eq!(jobs[0].owner, "bob");
    assert_eq!(jobs[0].state, JobState::Running);
}

#[test]
fn slurm_header_driven_without_header_yields_nothing() {
    let jobs = parse_slurm_stat_mapped_at("acct|123|myjob|bob|RUNNING", 0);
    assert_eq!(jobs.len(), 0);
}

#[test]
fn slurm_header_driven_missing_label_yields_nothing() {
    let raw = "ACCOUNT|JOBID|NAME|USER\nacct|1|n|u";
    assert_eq!(parse_slurm_stat_mapped_at(raw, 0).len(), 0);
}

#[test]
fn slurm_header_driven_short_data_line_skipped() {
    let raw = "ACCOUNT|JOBID|NAME|USER|STATE \nacct|1\nacct|2|n|u|PENDING";
    let jobs = parse_slurm_stat_mapped_at(raw, 0);
    assert_eq!(jobs.len(), 1);
    assert_eq!(jobs[0].id, "2");
    assert_eq!(jobs[0].state, JobState::Queuing);
}
