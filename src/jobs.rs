use vstd::prelude::*;

verus! {

/// An instant as chrono's `DateTime<Local>` holds it: whole seconds and
/// nanoseconds since the Unix epoch (UTC), and the local offset east of UTC in
/// seconds that was in force then.
#[derive(Clone, Copy, Debug, PartialEq, Eq, Structural)]
pub struct Timestamp {
    pub secs: i64,
    pub nanos: u32,
    pub offset_secs: i32,
}

/// One tracked application.
#[derive(Clone, Debug)]
pub struct Job {
    pub id: usize,
    pub company: String,
    pub role: String,
    pub status: String,
    pub applied_at: Timestamp,
}

pub open spec fn ids_of(jobs: Seq<Job>) -> Seq<usize> {
    jobs.map_values(|j: Job| j.id)
}

/// The largest id in `ids`, or 0 when there is none.
pub open spec fn max_id(ids: Seq<usize>) -> nat
    decreases ids.len(),
{
    if ids.len() == 0 {
        0
    } else {
        let rest = max_id(ids.drop_last());
        let last = ids.last() as nat;
        if last > rest {
            last
        } else {
            rest
        }
    }
}

/// No two jobs share an id.
pub open spec fn ids_distinct(jobs: Seq<Job>) -> bool {
    forall|a: int, b: int|
        0 <= a < jobs.len() && 0 <= b < jobs.len() && a != b ==> #[trigger] jobs[a].id
            != #[trigger] jobs[b].id
}

/// The jobs whose id is not `id`, in their order.
pub open spec fn without_id(jobs: Seq<Job>, id: usize) -> Seq<Job>
    decreases jobs.len(),
{
    if jobs.len() == 0 {
        jobs
    } else {
        let rest = without_id(jobs.drop_last(), id);
        if jobs.last().id == id {
            rest
        } else {
            rest.push(jobs.last())
        }
    }
}

/// Some job carries `id`.
pub open spec fn has_id(jobs: Seq<Job>, id: usize) -> bool {
    exists|k: int| 0 <= k < jobs.len() && #[trigger] jobs[k].id == id
}

/// No id in the collection exceeds the largest one.
pub proof fn lemma_ids_bounded(jobs: Seq<Job>)
    ensures
        forall|k: int| 0 <= k < jobs.len() ==> #[trigger] jobs[k].id <= max_id(ids_of(jobs)),
    decreases jobs.len(),
{
    if jobs.len() > 0 {
        lemma_ids_bounded(jobs.drop_last());
        assert(ids_of(jobs).drop_last() =~= ids_of(jobs.drop_last()));
        assert forall|k: int| 0 <= k < jobs.len() implies #[trigger] jobs[k].id <= max_id(
            ids_of(jobs),
        ) by {
            if k < jobs.len() - 1 {
                assert(jobs.drop_last()[k] == jobs[k]);
            }
        }
    }
}

/// A job added with the id that `next_id` gives differs in id from every job
/// already there, so a collection with distinct ids keeps them distinct.
pub proof fn lemma_next_id_keeps_ids_distinct(jobs: Seq<Job>, job: Job)
    requires
        ids_distinct(jobs),
        job.id == max_id(ids_of(jobs)) + 1,
    ensures
        ids_distinct(jobs.push(job)),
        forall|k: int| 0 <= k < jobs.len() ==> #[trigger] jobs[k].id < job.id,
{
    lemma_ids_bounded(jobs);
    let s = jobs.push(job);
    assert forall|a: int, b: int|
        0 <= a < s.len() && 0 <= b < s.len() && a != b implies #[trigger] s[a].id
        != #[trigger] s[b].id by {
        if a < jobs.len() {
            assert(s[a] == jobs[a]);
        }
        if b < jobs.len() {
            assert(s[b] == jobs[b]);
        }
    }
}

/// Deleting an id that no job carries leaves the collection as it was.
pub proof fn lemma_delete_absent_unchanged(jobs: Seq<Job>, id: usize)
    requires
        !has_id(jobs, id),
    ensures
        without_id(jobs, id) == jobs,
    decreases jobs.len(),
{
    if jobs.len() > 0 {
        let d = jobs.drop_last();
        assert(!has_id(d, id)) by {
            if has_id(d, id) {
                let k = choose|k: int| 0 <= k < d.len() && #[trigger] d[k].id == id;
                assert(jobs[k] == d[k]);
            }
        }
        lemma_delete_absent_unchanged(d, id);
        assert(jobs.last() == jobs[jobs.len() - 1]);
        assert(jobs.drop_last().push(jobs.last()) =~= jobs);
    }
}

/// Where ids are distinct, deleting an id that some job carries takes exactly
/// one job away.
pub proof fn lemma_delete_present_removes_one(jobs: Seq<Job>, id: usize)
    requires
        ids_distinct(jobs),
        has_id(jobs, id),
    ensures
        without_id(jobs, id).len() == jobs.len() - 1,
    decreases jobs.len(),
{
    let d = jobs.drop_last();
    let n = jobs.len() - 1;
    assert(ids_distinct(d)) by {
        assert forall|a: int, b: int|
            0 <= a < d.len() && 0 <= b < d.len() && a != b implies #[trigger] d[a].id
            != #[trigger] d[b].id by {
            assert(d[a] == jobs[a] && d[b] == jobs[b]);
        }
    }
    if jobs[n].id == id {
        assert(!has_id(d, id)) by {
            if has_id(d, id) {
                let k = choose|k: int| 0 <= k < d.len() && #[trigger] d[k].id == id;
                assert(jobs[k] == d[k]);
            }
        }
        lemma_delete_absent_unchanged(d, id);
    } else {
        let k = choose|k: int| 0 <= k < jobs.len() && #[trigger] jobs[k].id == id;
        assert(d[k] == jobs[k]);
        assert(has_id(d, id));
        lemma_delete_present_removes_one(d, id);
    }
}

/// The id given to the next new job: one past the largest id, or 1 when empty.
pub fn next_id(jobs: &Vec<Job>) -> (r: usize)
    requires
        max_id(ids_of(jobs@)) < usize::MAX,
    ensures
        r as nat == max_id(ids_of(jobs@)) + 1,
{
    let mut m: usize = 0;
    let mut i: usize = 0;
    while i < jobs.len()
        invariant
            i <= jobs@.len(),
            m as nat == max_id(ids_of(jobs@.subrange(0, i as int))),
        decreases jobs@.len() - i,
    {
        proof {
            assert(ids_of(jobs@.subrange(0, i as int + 1)).drop_last() =~= ids_of(
                jobs@.subrange(0, i as int),
            ));
        }
        if jobs[i].id > m {
            m = jobs[i].id;
        }
        i = i + 1;
    }
    proof {
        assert(jobs@.subrange(0, i as int) =~= jobs@);
    }
    m + 1
}

/// Appends a job with the next id and returns that id.
pub fn add_job(
    jobs: &mut Vec<Job>,
    company: String,
    role: String,
    status: String,
    applied_at: Timestamp,
) -> (id: usize)
    requires
        max_id(ids_of(old(jobs)@)) < usize::MAX,
    ensures
        id as nat == max_id(ids_of(old(jobs)@)) + 1,
        final(jobs)@ == old(jobs)@.push(Job { id, company, role, status, applied_at }),
        max_id(ids_of(final(jobs)@)) == id,
        ids_distinct(old(jobs)@) ==> ids_distinct(final(jobs)@),
{
    let id = next_id(jobs);
    jobs.push(Job { id, company, role, status, applied_at });
    proof {
        assert(ids_of(jobs@).drop_last() =~= ids_of(old(jobs)@));
        if ids_distinct(old(jobs)@) {
            lemma_next_id_keeps_ids_distinct(old(jobs)@, jobs@.last());
            assert(jobs@ =~= old(jobs)@.push(jobs@.last()));
        }
    }
    id
}

/// Sets the status of the first job with `id`; returns whether there was one.
/// Nothing else changes.
pub fn update_status(jobs: &mut Vec<Job>, id: usize, status: String) -> (found: bool)
    ensures
        found == has_id(old(jobs)@, id),
        !found ==> final(jobs)@ == old(jobs)@,
        found ==> exists|i: int|
            0 <= i < old(jobs)@.len() && #[trigger] old(jobs)@[i].id == id && (forall|k: int|
                0 <= k < i ==> #[trigger] old(jobs)@[k].id != id) && final(jobs)@ == old(
                jobs,
            )@.update(i, Job { status: status, ..old(jobs)@[i] }),
{
    let mut i: usize = 0;
    while i < jobs.len()
        invariant
            i <= jobs@.len(),
            jobs@ == old(jobs)@,
            forall|k: int| 0 <= k < i ==> #[trigger] jobs@[k].id != id,
        decreases jobs@.len() - i,
    {
        if jobs[i].id == id {
            let old_job = &jobs[i];
            let updated = Job {
                id: old_job.id,
                company: old_job.company.clone(),
                role: old_job.role.clone(),
                status,
                applied_at: Timestamp {
                    secs: old_job.applied_at.secs,
                    nanos: old_job.applied_at.nanos,
                    offset_secs: old_job.applied_at.offset_secs,
                },
            };
            jobs.set(i, updated);
            proof {
                assert(jobs@ =~= old(jobs)@.update(i as int, Job { status: status, ..old(jobs)@[i as int] }));
            }
            return true;
        }
        i = i + 1;
    }
    false
}

/// Removes every job with `id`; returns whether any was removed.
pub fn delete_job(jobs: &mut Vec<Job>, id: usize) -> (removed: bool)
    ensures
        final(jobs)@ == without_id(old(jobs)@, id),
        removed == (final(jobs)@.len() < old(jobs)@.len()),
        removed == has_id(old(jobs)@, id),
        ids_distinct(old(jobs)@) && removed ==> final(jobs)@.len() == old(jobs)@.len() - 1,
{
    let mut kept: Vec<Job> = Vec::new();
    let mut i: usize = 0;
    while i < jobs.len()
        invariant
            i <= jobs@.len(),
            jobs@ == old(jobs)@,
            kept@ == without_id(jobs@.subrange(0, i as int), id),
        decreases jobs@.len() - i,
    {
        proof {
            assert(jobs@.subrange(0, i as int + 1).drop_last() =~= jobs@.subrange(0, i as int));
        }
        if jobs[i].id != id {
            kept.push(copy_job(&jobs[i]));
        }
        i = i + 1;
    }
    proof {
        assert(jobs@.subrange(0, i as int) =~= jobs@);
        lemma_without_id_len(old(jobs)@, id);
        if ids_distinct(old(jobs)@) && has_id(old(jobs)@, id) {
            lemma_delete_present_removes_one(old(jobs)@, id);
        }
    }
    let removed = kept.len() < jobs.len();
    *jobs = kept;
    removed
}

fn copy_job(j: &Job) -> (r: Job)
    ensures
        r == *j,
{
    Job {
        id: j.id,
        company: j.company.clone(),
        role: j.role.clone(),
        status: j.status.clone(),
        applied_at: Timestamp {
            secs: j.applied_at.secs,
            nanos: j.applied_at.nanos,
            offset_secs: j.applied_at.offset_secs,
        },
    }
}

/// Deleting never lengthens the collection, and keeps its length exactly when
/// no job carries the id.
pub proof fn lemma_without_id_len(jobs: Seq<Job>, id: usize)
    ensures
        without_id(jobs, id).len() <= jobs.len(),
        (without_id(jobs, id).len() == jobs.len()) == !has_id(jobs, id),
    decreases jobs.len(),
{
    if jobs.len() > 0 {
        let d = jobs.drop_last();
        lemma_without_id_len(d, id);
        if has_id(d, id) {
            let k = choose|k: int| 0 <= k < d.len() && #[trigger] d[k].id == id;
            assert(jobs[k] == d[k]);
        }
        if has_id(jobs, id) && jobs.last().id != id {
            let k = choose|k: int| 0 <= k < jobs.len() && #[trigger] jobs[k].id == id;
            assert(d[k] == jobs[k]);
        }
        if jobs.last().id == id {
            assert(jobs[jobs.len() - 1].id == id);
        }
    }
}

} // verus!
