//! The timer scheduler's bookkeeping: which timer jobs are due.
use vstd::prelude::*;

verus! {

/// The units of the jobs among `jobs` due at `now` (fire time not after it), in order.
pub open spec fn due_units(jobs: Seq<(String, u64)>, now: u64) -> Seq<Seq<char>>
    decreases jobs.len(),
{
    if jobs.len() == 0 {
        Seq::empty()
    } else {
        let r = due_units(jobs.drop_last(), now);
        if jobs.last().1 <= now { r.push(jobs.last().0@) } else { r }
    }
}

/// The jobs among `jobs` not due yet at `now`, in order.
pub open spec fn waiting_jobs(jobs: Seq<(String, u64)>, now: u64) -> Seq<(Seq<char>, u64)>
    decreases jobs.len(),
{
    if jobs.len() == 0 {
        Seq::empty()
    } else {
        let r = waiting_jobs(jobs.drop_last(), now);
        if jobs.last().1 <= now { r } else { r.push((jobs.last().0@, jobs.last().1)) }
    }
}

/// Splits timer jobs (unit, fire time) at `now`: the units due now, in order, and the
/// jobs still waiting.
pub fn split_due(jobs: Vec<(String, u64)>, now: u64) -> (r: (Vec<String>, Vec<(String, u64)>))
    ensures
        r.0@.map_values(|s: String| s@) == due_units(jobs@, now),
        r.1@.map_values(|j: (String, u64)| (j.0@, j.1)) == waiting_jobs(jobs@, now),
{
    let ghost all = jobs@;
    let total = jobs.len();
    let mut rest = jobs;
    let mut fired: Vec<String> = Vec::new();
    let mut waiting: Vec<(String, u64)> = Vec::new();
    let mut i: usize = 0;
    while rest.len() > 0
        invariant
            i <= all.len(),
            all.len() == total,
            rest@ == all.skip(i as int),
            fired@.map_values(|s: String| s@) == due_units(all.take(i as int), now),
            waiting@.map_values(|j: (String, u64)| (j.0@, j.1)) == waiting_jobs(all.take(i as int), now),
        decreases rest@.len(),
    {
        let job = rest.remove(0);
        assert(job == all[i as int]);
        assert(all.take(i + 1).drop_last() =~= all.take(i as int));
        assert(all.take(i + 1).last() == job);
        let ghost f0 = fired@;
        let ghost w0 = waiting@;
        if job.1 <= now {
            let u = job.0;
            fired.push(u);
            assert(fired@.map_values(|s: String| s@) =~= f0.map_values(|s: String| s@).push(u@));
        } else {
            waiting.push(job);
            assert(waiting@.map_values(|j: (String, u64)| (j.0@, j.1)) =~= w0.map_values(|j: (String, u64)| (j.0@, j.1)).push((job.0@, job.1)));
        }
        i = i + 1;
        assert(rest@ =~= all.skip(i as int));
    }
    assert(all.take(i as int) =~= all);
    (fired, waiting)
}

} // verus!
