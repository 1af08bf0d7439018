use jobtrackr::{
    add_job, age_days, contains_str, delete_job, filter_jobs, job_matches, matches_folded,
    needs_reminder, next_id, remind_jobs, update_status, Job, Timestamp, DEFAULT_REMIND_DAYS,
};

const DAY: i64 = 86_400;

fn at(secs: i64) -> Timestamp {
    Timestamp { secs, nanos: 0, offset_secs: 3600 }
}

fn job(id: usize) -> Job {
    Job {
        id,
        company: String::from("Acme"),
        role: String::from("Engineer"),
        status: String::from("applied"),
        applied_at: at(0),
    }
}

fn s(x: &str) -> String {
    String::from(x)
}

#[test]
fn next_id_empty_is_one() {
    assert_eq!(next_id(&vec![]), 1);
}

#[test]
fn next_id_is_one_past_max() {
    assert_eq!(next_id(&vec![job(3), job(7), job(2)]), 8);
}

#[test]
fn add_to_empty_store_gets_id_one() {
    let mut jobs = Vec::new();
    let id = add_job(&mut jobs, s("Acme"), s("Engineer"), s("applied"), at(1_700_000_000));
    assert_eq!(id, 1);
    assert_eq!(jobs.len(), 1);
    assert_eq!(jobs[0].id, 1);
    assert_eq!(jobs[0].company, "Acme");
    assert_eq!(jobs[0].role, "Engineer");
    assert_eq!(jobs[0].status, "applied");
    assert_eq!(jobs[0].applied_at, at(1_700_000_000));
}

#[test]
fn add_ids_are_one_past_max_and_unique() {
    let mut jobs = vec![job(5)];
    assert_eq!(add_job(&mut jobs, s("B"), s("r"), s("applied"), at(0)), 6);
    assert_eq!(add_job(&mut jobs, s("C"), s("r"), s("applied"), at(0)), 7);
    let ids: Vec<usize> = jobs.iter().map(|j| j.id).collect();
    assert_eq!(ids, vec![5, 6, 7]);
}

#[test]
fn update_second_job_keeps_date() {
    let mut jobs = Vec::new();
    add_job(&mut jobs, s("Acme"), s("Engineer"), s("applied"), at(100));
    add_job(&mut jobs, s("Globex"), s("Analyst"), s("applied"), at(200));
    assert!(update_status(&mut jobs, 2, s("interview")));
    assert_eq!(jobs[1].status, "interview");
    assert_eq!(jobs[1].applied_at, at(200));
    assert_eq!(jobs[1].company, "Globex");
    assert_eq!(jobs[0].status, "applied");
}

#[test]
fn update_missing_id_changes_nothing() {
    let mut jobs = vec![job(1), job(2)];
    assert!(!update_status(&mut jobs, 9, s("offer")));
    assert_eq!(jobs.len(), 2);
    assert_eq!(jobs[0].status, "applied");
    assert_eq!(jobs[1].status, "applied");
}

#[test]
fn delete_missing_id_keeps_size() {
    let mut jobs = vec![job(1), job(2)];
    assert!(!delete_job(&mut jobs, 5));
    assert_eq!(jobs.len(), 2);
}

#[test]
fn delete_existing_id_removes_one() {
    let mut jobs = vec![job(1), job(2), job(3)];
    assert!(delete_job(&mut jobs, 2));
    let ids: Vec<usize> = jobs.iter().map(|j| j.id).collect();
    assert_eq!(ids, vec![1, 3]);
}

#[test]
fn filter_company_is_case_insensitive_substring() {
    let mut acme = job(1);
    acme.company = s("Acme");
    let mut globex = job(2);
    globex.company = s("Globex");
    let jobs = vec![acme, globex];
    assert_eq!(filter_jobs(&jobs, &None, &Some(s("ac")), &None), vec![0]);
}

#[test]
fn filter_status_is_case_insensitive_equality() {
    let mut a = job(1);
    a.status = s("Interview");
    let mut b = job(2);
    b.status = s("interviewing");
    let jobs = vec![a, b];
    assert_eq!(filter_jobs(&jobs, &Some(s("INTERVIEW")), &None, &None), vec![0]);
}

#[test]
fn filter_criteria_are_anded() {
    let mut a = job(1);
    a.role = s("Senior Engineer");
    let mut b = job(2);
    b.role = s("Designer");
    let jobs = vec![a, b];
    assert_eq!(filter_jobs(&jobs, &None, &Some(s("ACME")), &Some(s("eng"))), vec![0]);
    assert_eq!(filter_jobs(&jobs, &None, &None, &None), vec![0, 1]);
    assert_eq!(filter_jobs(&jobs, &Some(s("offer")), &None, &None), Vec::<usize>::new());
}

#[test]
fn filter_twice_gives_same_result() {
    let jobs = vec![job(1), job(2)];
    let first = filter_jobs(&jobs, &None, &Some(s("cm")), &None);
    let second = filter_jobs(&jobs, &None, &Some(s("cm")), &None);
    assert_eq!(first, second);
}

#[test]
fn job_matches_folds_case() {
    let j = job(1);
    assert!(job_matches(&j, &Some(s("APPLIED")), &Some(s("ACM")), &Some(s("GINE"))));
    assert!(!job_matches(&j, &None, &Some(s("globex")), &None));
}

#[test]
fn matches_folded_compares_as_given() {
    assert!(matches_folded(&s("applied"), &s("acme"), &s("dev"), &Some(s("applied")), &None, &None));
    assert!(!matches_folded(&s("applied"), &s("acme"), &s("dev"), &None, &Some(s("ACME")), &None));
}

#[test]
fn contains_str_cases() {
    assert!(contains_str(&s("Acme"), &s("cm")));
    assert!(contains_str(&s("Acme"), &s("")));
    assert!(contains_str(&s("Acme"), &s("Acme")));
    assert!(!contains_str(&s("Acme"), &s("Acmes")));
    assert!(!contains_str(&s(""), &s("a")));
    assert!(!contains_str(&s("Globex"), &s("ac")));
}

#[test]
fn age_days_counts_whole_days() {
    assert_eq!(age_days(&at(10 * DAY), &at(3 * DAY)), 7);
    assert_eq!(age_days(&at(DAY - 1), &at(0)), 0);
    assert_eq!(age_days(&at(2 * DAY + 5), &at(0)), 2);
    assert_eq!(age_days(&at(0), &at(DAY + 1)), -1);
    assert_eq!(age_days(&at(0), &at(DAY - 1)), 0);
    let late = Timestamp { secs: 0, nanos: 1, offset_secs: 0 };
    let early = Timestamp { secs: DAY, nanos: 0, offset_secs: 0 };
    assert_eq!(age_days(&early, &late), 0);
}

#[test]
fn needs_reminder_uses_default_seven() {
    assert_eq!(DEFAULT_REMIND_DAYS, 7);
    assert!(needs_reminder(7, None));
    assert!(!needs_reminder(6, None));
    assert!(needs_reminder(0, Some(0)));
    assert!(!needs_reminder(2, Some(3)));
}

#[test]
fn remind_zero_days_reports_every_job() {
    let mut a = job(1);
    a.applied_at = at(0);
    let mut b = job(2);
    b.applied_at = at(9 * DAY);
    let jobs = vec![a, b];
    assert_eq!(remind_jobs(&jobs, &at(10 * DAY), Some(0)), vec![(0, 10), (1, 1)]);
    assert_eq!(remind_jobs(&jobs, &at(10 * DAY), None), vec![(0, 10)]);
}

#[test]
fn remind_with_no_jobs_reports_none() {
    assert_eq!(remind_jobs(&vec![], &at(0), Some(0)), Vec::<(usize, i64)>::new());
}
