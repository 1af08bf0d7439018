use vstd::prelude::*;
use crate::jobs::{Job, Timestamp};

verus! {

/// The threshold in days that `remind` uses when none is given.
pub const DEFAULT_REMIND_DAYS: u32 = 7;

/// What `str::to_lowercase` gives for `s`.
pub uninterp spec fn lower_of(s: Seq<char>) -> Seq<char>;

/// Relies on str::to_lowercase: the lower-case form, which depends on the
/// characters alone.
#[verifier::external_body]
pub(crate) fn to_lower(s: &String) -> (r: String)
    ensures
        r@ == lower_of(s@),
{
    s.to_lowercase()
}

/// `needle` occurs in `hay` as a contiguous run of characters.
pub open spec fn is_substring(needle: Seq<char>, hay: Seq<char>) -> bool {
    exists|i: int|
        0 <= i && i + needle.len() <= hay.len() && #[trigger] hay.subrange(i, i + needle.len())
            == needle
}

/// Whether `needle` occurs in `hay`.
pub fn contains_str(hay: &String, needle: &String) -> (r: bool)
    ensures
        r == is_substring(needle@, hay@),
{
    let h = hay.as_str();
    let n = needle.as_str();
    let hl = h.unicode_len();
    let nl = n.unicode_len();
    if nl > hl {
        return false;
    }
    let mut i: usize = 0;
    while i <= hl - nl
        invariant
            hl == hay@.len(),
            nl == needle@.len(),
            nl <= hl,
            h@ == hay@,
            n@ == needle@,
            i <= hl - nl,
            forall|k: int| 0 <= k < i ==> #[trigger] hay@.subrange(k, k + nl) != needle@,
        decreases hl - nl - i,
    {
        let mut j: usize = 0;
        let mut same = true;
        while j < nl
            invariant
                hl == hay@.len(),
                nl == needle@.len(),
                i + nl <= hl,
                h@ == hay@,
                n@ == needle@,
                j <= nl,
                same ==> forall|m: int| 0 <= m < j ==> hay@[i + m] == needle@[m],
                !same ==> hay@.subrange(i as int, i + nl) != needle@,
            decreases nl - j,
        {
            if same && h.get_char(i + j) != n.get_char(j) {
                same = false;
                proof {
                    assert(hay@.subrange(i as int, i + nl)[j as int] == hay@[i + j]);
                }
            }
            j = j + 1;
        }
        if same {
            proof {
                assert(hay@.subrange(i as int, i + nl) =~= needle@);
            }
            return true;
        }
        if i == hl - nl {
            return false;
        }
        i = i + 1;
    }
    false
}

pub open spec fn opt_view(o: Option<String>) -> Option<Seq<char>> {
    match o {
        Some(s) => Some(s@),
        None => None,
    }
}

pub open spec fn opt_lower(o: Option<String>) -> Option<Seq<char>> {
    match o {
        Some(s) => Some(lower_of(s@)),
        None => None,
    }
}

/// Every criterion given holds of already folded fields: the status equals,
/// the company and the role contain the wanted text.
pub open spec fn folded_match(
    status: Seq<char>,
    company: Seq<char>,
    role: Seq<char>,
    want_status: Option<Seq<char>>,
    want_company: Option<Seq<char>>,
    want_role: Option<Seq<char>>,
) -> bool {
    &&& match want_status {
        Some(w) => status == w,
        None => true,
    }
    &&& match want_company {
        Some(w) => is_substring(w, company),
        None => true,
    }
    &&& match want_role {
        Some(w) => is_substring(w, role),
        None => true,
    }
}

/// A job meets the criteria, each compared without regard to case.
pub open spec fn job_match_spec(
    job: Job,
    status: Option<String>,
    company: Option<String>,
    role: Option<String>,
) -> bool {
    folded_match(
        lower_of(job.status@),
        lower_of(job.company@),
        lower_of(job.role@),
        opt_lower(status),
        opt_lower(company),
        opt_lower(role),
    )
}

/// The indices of the jobs that meet the criteria, in collection order.
pub open spec fn matching_indices(
    jobs: Seq<Job>,
    status: Option<String>,
    company: Option<String>,
    role: Option<String>,
) -> Seq<usize>
    decreases jobs.len(),
{
    if jobs.len() == 0 {
        Seq::empty()
    } else {
        let rest = matching_indices(jobs.drop_last(), status, company, role);
        if job_match_spec(jobs.last(), status, company, role) {
            rest.push((jobs.len() - 1) as usize)
        } else {
            rest
        }
    }
}

/// Matches fields and criteria that are already folded to lower case.
pub fn matches_folded(
    status: &String,
    company: &String,
    role: &String,
    want_status: &Option<String>,
    want_company: &Option<String>,
    want_role: &Option<String>,
) -> (r: bool)
    ensures
        r == folded_match(
            status@,
            company@,
            role@,
            opt_view(*want_status),
            opt_view(*want_company),
            opt_view(*want_role),
        ),
{
    let s_ok = match want_status {
        Some(w) => *status == *w,
        None => true,
    };
    let c_ok = match want_company {
        Some(w) => contains_str(company, w),
        None => true,
    };
    let r_ok = match want_role {
        Some(w) => contains_str(role, w),
        None => true,
    };
    s_ok && c_ok && r_ok
}

fn lower_opt(o: &Option<String>) -> (r: Option<String>)
    ensures
        opt_view(r) == opt_lower(*o),
{
    match o {
        Some(s) => Some(to_lower(s)),
        None => None,
    }
}

/// Whether `job` meets every criterion given, each compared without regard to
/// case: the status by equality, the company and the role by containment.
pub fn job_matches(
    job: &Job,
    status: &Option<String>,
    company: &Option<String>,
    role: &Option<String>,
) -> (r: bool)
    ensures
        r == job_match_spec(*job, *status, *company, *role),
{
    let ws = lower_opt(status);
    let wc = lower_opt(company);
    let wr = lower_opt(role);
    matches_folded(
        &to_lower(&job.status),
        &to_lower(&job.company),
        &to_lower(&job.role),
        &ws,
        &wc,
        &wr,
    )
}

/// The indices of the jobs that meet the criteria, in collection order.
pub fn filter_jobs(
    jobs: &Vec<Job>,
    status: &Option<String>,
    company: &Option<String>,
    role: &Option<String>,
) -> (r: Vec<usize>)
    ensures
        r@ == matching_indices(jobs@, *status, *company, *role),
{
    let mut r: Vec<usize> = Vec::new();
    let mut i: usize = 0;
    while i < jobs.len()
        invariant
            i <= jobs@.len(),
            r@ == matching_indices(jobs@.subrange(0, i as int), *status, *company, *role),
        decreases jobs@.len() - i,
    {
        proof {
            assert(jobs@.subrange(0, i as int + 1).drop_last() =~= jobs@.subrange(0, i as int));
        }
        if job_matches(&jobs[i], status, company, role) {
            r.push(i);
        }
        i = i + 1;
    }
    proof {
        assert(jobs@.subrange(0, i as int) =~= jobs@);
    }
    r
}

/// Filtering reads the collection and the criteria alone: two runs over the
/// same collection with the same criteria give the same indices.
pub proof fn lemma_filter_repeatable(
    jobs: Seq<Job>,
    status: Option<String>,
    company: Option<String>,
    role: Option<String>,
    first: Seq<usize>,
    second: Seq<usize>,
)
    requires
        first == matching_indices(jobs, status, company, role),
        second == matching_indices(jobs, status, company, role),
    ensures
        first == second,
{
}

/// Each index that filtering gives is in range and names a job that meets the
/// criteria, and the indices rise strictly.
pub proof fn lemma_matching_indices_sound(
    jobs: Seq<Job>,
    status: Option<String>,
    company: Option<String>,
    role: Option<String>,
)
    requires
        jobs.len() <= usize::MAX,
    ensures
        forall|k: int|
            0 <= k < matching_indices(jobs, status, company, role).len() ==> {
                let i = #[trigger] matching_indices(jobs, status, company, role)[k] as int;
                0 <= i < jobs.len() && job_match_spec(jobs[i], status, company, role)
            },
        forall|a: int, b: int|
            0 <= a < b < matching_indices(jobs, status, company, role).len() ==> (
            #[trigger] matching_indices(jobs, status, company, role)[a]) < (
            #[trigger] matching_indices(jobs, status, company, role)[b]),
    decreases jobs.len(),
{
    if jobs.len() > 0 {
        let d = jobs.drop_last();
        lemma_matching_indices_sound(d, status, company, role);
        let rest = matching_indices(d, status, company, role);
        assert forall|k: int| 0 <= k < rest.len() implies (#[trigger] rest[k] as int) < d.len()
            && jobs[rest[k] as int] == d[rest[k] as int] by {}
        assert(jobs.last() == jobs[jobs.len() - 1]);
    }
}

pub open spec fn trunc_div(a: int, b: int) -> int {
    if a >= 0 {
        a / b
    } else {
        -((-a) / b)
    }
}

pub open spec fn nanos_per_day() -> int {
    86_400_000_000_000
}

/// Whole days from `then` to `now`, rounded toward zero, as chrono's
/// `signed_duration_since(..).num_days()` counts them.
pub open spec fn age_spec(now: Timestamp, then: Timestamp) -> int {
    trunc_div(
        (now.secs - then.secs) * 1_000_000_000 + (now.nanos - then.nanos),
        nanos_per_day(),
    )
}

/// The threshold that a reminder uses.
pub open spec fn threshold(days: Option<u32>) -> int {
    match days {
        Some(d) => d as int,
        None => DEFAULT_REMIND_DAYS as int,
    }
}

/// Whole days elapsed from `applied` to `now`, rounded toward zero.
pub fn age_days(now: &Timestamp, applied: &Timestamp) -> (r: i64)
    ensures
        r == age_spec(*now, *applied),
{
    let ds: i128 = now.secs as i128 - applied.secs as i128;
    let dn: i128 = now.nanos as i128 - applied.nanos as i128;
    proof {
        let c: int = 0x1_0000_0000_0000_0000int;
        let dsi = ds as int;
        assert(-c <= dsi <= c);
        assert(-c * 1_000_000_000 <= dsi * 1_000_000_000 <= c * 1_000_000_000) by (nonlinear_arith)
            requires
                -c <= dsi <= c,
        ;
    }
    let d: i128 = ds * 1_000_000_000 + dn;
    let per_day: i128 = 86_400_000_000_000;
    proof {
        let b: int = 0x1_0000_0000_0000_0000int * 1_000_000_000int + 0x1_0000_0000int;
        let di = d as int;
        assert(-b <= di <= b);
        assert(b / nanos_per_day() < 0x7fff_ffff_ffff_ffff);
        assert(di >= 0 ==> di / nanos_per_day() <= b / nanos_per_day()) by (nonlinear_arith)
            requires
                di <= b,
                nanos_per_day() > 0,
        ;
        assert(di < 0 ==> (-di) / nanos_per_day() <= b / nanos_per_day()) by (nonlinear_arith)
            requires
                -di <= b,
                nanos_per_day() > 0,
        ;
    }
    if d >= 0 {
        (d / per_day) as i64
    } else {
        -(((-d) / per_day) as i64)
    }
}

/// Whether a job of age `age` days is due for a reminder.
pub fn needs_reminder(age: i64, days: Option<u32>) -> (r: bool)
    ensures
        r == (age >= threshold(days)),
{
    let t: u32 = match days {
        Some(d) => d,
        None => DEFAULT_REMIND_DAYS,
    };
    age >= t as i64
}

/// The index and age of each job due for a reminder, in collection order.
pub open spec fn reminders(jobs: Seq<Job>, now: Timestamp, days: Option<u32>) -> Seq<(usize, i64)>
    decreases jobs.len(),
{
    if jobs.len() == 0 {
        Seq::empty()
    } else {
        let rest = reminders(jobs.drop_last(), now, days);
        let age = age_spec(now, jobs.last().applied_at);
        if age >= threshold(days) {
            rest.push(((jobs.len() - 1) as usize, age as i64))
        } else {
            rest
        }
    }
}

/// The jobs due for a reminder at `now`: each one's index and age in days.
pub fn remind_jobs(jobs: &Vec<Job>, now: &Timestamp, days: Option<u32>) -> (r: Vec<(usize, i64)>)
    ensures
        r@ == reminders(jobs@, *now, days),
{
    let mut r: Vec<(usize, i64)> = Vec::new();
    let mut i: usize = 0;
    while i < jobs.len()
        invariant
            i <= jobs@.len(),
            r@ == reminders(jobs@.subrange(0, i as int), *now, days),
        decreases jobs@.len() - i,
    {
        proof {
            assert(jobs@.subrange(0, i as int + 1).drop_last() =~= jobs@.subrange(0, i as int));
        }
        let age = age_days(now, &jobs[i].applied_at);
        if needs_reminder(age, days) {
            r.push((i, age));
        }
        i = i + 1;
    }
    proof {
        assert(jobs@.subrange(0, i as int) =~= jobs@);
    }
    r
}

/// With a threshold of zero days every job applied for no later than `now` is
/// reported, each under its own index.
pub proof fn lemma_remind_zero_reports_all(jobs: Seq<Job>, now: Timestamp)
    requires
        forall|k: int| 0 <= k < jobs.len() ==> age_spec(now, #[trigger] jobs[k].applied_at) >= 0,
        jobs.len() <= usize::MAX,
    ensures
        reminders(jobs, now, Some(0)).len() == jobs.len(),
        forall|k: int|
            0 <= k < jobs.len() ==> (#[trigger] reminders(jobs, now, Some(0))[k]).0 == k,
    decreases jobs.len(),
{
    if jobs.len() > 0 {
        let d = jobs.drop_last();
        assert forall|k: int| 0 <= k < d.len() implies age_spec(now, #[trigger] d[k].applied_at)
            >= 0 by {
            assert(d[k] == jobs[k]);
        }
        lemma_remind_zero_reports_all(d, now);
        assert(jobs.last() == jobs[jobs.len() - 1]);
    }
}

} // verus!
