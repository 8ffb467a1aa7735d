//! Jobs: the start and stop requests D-Bus clients queue, and their outcome.
use vstd::prelude::*;
use std::collections::VecDeque;
use crate::text::{concat, decimal, str_to_string, u64_to_string};

verus! {

/// How a job ended.
#[derive(Debug, Clone, Copy, PartialEq, Eq, Structural)]
pub enum JobResult {
    Done,
    Failed,
    Canceled,
    Timeout,
    Dependency,
    Skipped,
}

/// Where a job stands.
#[derive(Debug, Clone, Copy, PartialEq, Eq, Structural)]
pub enum JobState {
    Waiting,
    Running,
    Done,
}

/// One job.
#[derive(Debug)]
pub struct Job {
    pub id: u32,
    pub unit: String,
    pub mode: String,
    pub state: JobState,
    pub result: Option<JobResult>,
    pub created_ms: u128,
}

/// Jobs kept after they finish.
pub const MAX_JOB_HISTORY: usize = 256;

impl Job {
    /// A waiting job `id` for `unit`, created at `created_ms` (milliseconds since the epoch).
    pub fn new(id: u32, unit: &str, mode: &str, created_ms: u128) -> (r: Self)
        ensures
            r.id == id,
            r.unit@ == unit@,
            r.mode@ == mode@,
            r.state == JobState::Waiting,
            r.result is None,
            r.created_ms == created_ms,
    {
        Job {
            id,
            unit: str_to_string(unit),
            mode: str_to_string(mode),
            state: JobState::Waiting,
            result: None,
            created_ms,
        }
    }

    /// A copy of the job.
    pub fn duplicate(&self) -> (r: Self)
        ensures
            r == *self,
    {
        Job {
            id: self.id,
            unit: self.unit.clone(),
            mode: self.mode.clone(),
            state: self.state,
            result: self.result,
            created_ms: self.created_ms,
        }
    }

    /// The D-Bus object path of the job.
    pub fn object_path(&self) -> (r: String)
        ensures
            r@ == "/org/freedesktop/systemd1/job/"@ + decimal(self.id as nat),
    {
        let n = u64_to_string(self.id as u64);
        concat("/org/freedesktop/systemd1/job/", n.as_str())
    }

    /// Marks the job done with `result`.
    pub fn complete(&mut self, result: JobResult)
        ensures
            *final(self) == (Job { state: JobState::Done, result: Some(result), ..*old(self) }),
    {
        self.state = JobState::Done;
        self.result = Some(result);
    }
}

/// The queued jobs and the most recent finished ones.
#[derive(Debug)]
pub struct JobQueue {
    active: VecDeque<Job>,
    history: VecDeque<Job>,
    max_history: usize,
    next_id: u32,
}

/// The position of the first job with `id` among `jobs`.
pub open spec fn position_of(jobs: Seq<Job>, id: u32) -> Option<int>
    decreases jobs.len(),
{
    if jobs.len() == 0 {
        None
    } else if jobs[0].id == id {
        Some(0)
    } else {
        match position_of(jobs.drop_first(), id) {
            Some(p) => Some(p + 1),
            None => None,
        }
    }
}

/// `position_of` finds the first job with the id, and only such a job.
pub proof fn lemma_position_of(jobs: Seq<Job>, id: u32)
    ensures
        match position_of(jobs, id) {
            Some(p) => 0 <= p < jobs.len() && jobs[p].id == id && forall|j: int| 0 <= j < p ==> (#[trigger] jobs[j]).id != id,
            None => forall|j: int| 0 <= j < jobs.len() ==> (#[trigger] jobs[j]).id != id,
        },
    decreases jobs.len(),
{
    if jobs.len() > 0 && jobs[0].id != id {
        lemma_position_of(jobs.drop_first(), id);
        match position_of(jobs.drop_first(), id) {
            Some(p) => {
                assert forall|j: int| 0 <= j < p + 1 implies (#[trigger] jobs[j]).id != id by {
                    if j > 0 {
                        assert(jobs[j] == jobs.drop_first()[j - 1]);
                    }
                }
            },
            None => {
                assert forall|j: int| 0 <= j < jobs.len() implies (#[trigger] jobs[j]).id != id by {
                    if j > 0 {
                        assert(jobs[j] == jobs.drop_first()[j - 1]);
                    }
                }
            },
        }
    }
}

/// A position is the one `position_of` finds when its job has the id and none before it does.
pub proof fn lemma_position_of_unique(jobs: Seq<Job>, id: u32, i: int)
    requires
        0 <= i < jobs.len(),
        jobs[i].id == id,
        forall|j: int| 0 <= j < i ==> (#[trigger] jobs[j]).id != id,
    ensures
        position_of(jobs, id) == Some(i),
{
    lemma_position_of(jobs, id);
    match position_of(jobs, id) {
        Some(p) => {
            if p < i {
                assert(jobs[p].id != id);
            }
            if p > i {
                assert(jobs[i].id != id);
            }
        },
        None => {
            assert(jobs[i].id != id);
        },
    }
}

/// The last `max` of `s`.
pub open spec fn keep_last<T>(s: Seq<T>, max: nat) -> Seq<T> {
    if s.len() > max {
        s.skip(s.len() - max)
    } else {
        s
    }
}

impl JobQueue {
    /// The queued jobs, oldest first.
    pub closed spec fn active_view(&self) -> Seq<Job> {
        self.active@
    }

    /// The finished jobs kept, oldest first.
    pub closed spec fn history_view(&self) -> Seq<Job> {
        self.history@
    }

    /// The id the next job gets.
    pub closed spec fn next(&self) -> u32 {
        self.next_id
    }

    /// How many finished jobs are kept.
    pub closed spec fn limit(&self) -> nat {
        self.max_history as nat
    }

    /// An empty queue keeping the last `MAX_JOB_HISTORY` finished jobs; ids start at 1.
    pub fn new() -> (r: Self)
        ensures
            r.active_view().len() == 0,
            r.history_view().len() == 0,
            r.next() == 1,
            r.limit() == MAX_JOB_HISTORY,
    {
        JobQueue { active: VecDeque::new(), history: VecDeque::new(), max_history: MAX_JOB_HISTORY, next_id: 1 }
    }

    /// Queues a job for `unit`; ids count up, wrapping around.
    pub fn enqueue(&mut self, unit: &str, mode: &str, now_ms: u128) -> (r: Job)
        ensures
            r.id == old(self).next(),
            r.unit@ == unit@,
            r.mode@ == mode@,
            r.state == JobState::Waiting,
            r.result is None,
            r.created_ms == now_ms,
            final(self).active_view() == old(self).active_view().push(r),
            final(self).history_view() == old(self).history_view(),
            final(self).next() == old(self).next().wrapping_add(1),
            final(self).limit() == old(self).limit(),
    {
        let job = Job::new(self.next_id, unit, mode, now_ms);
        self.next_id = self.next_id.wrapping_add(1);
        self.active.push_back(job.duplicate());
        job
    }

    /// Finishes the first queued job with `id`: it leaves the queue, completed with
    /// `result`, and joins the history, which keeps its newest entries.
    pub fn finish(&mut self, id: u32, result: JobResult) -> (r: Option<Job>)
        ensures
            final(self).next() == old(self).next(),
            final(self).limit() == old(self).limit(),
            match position_of(old(self).active_view(), id) {
                None => r is None && final(self).active_view() == old(self).active_view()
                    && final(self).history_view() == old(self).history_view(),
                Some(p) => {
                    let done = Job { state: JobState::Done, result: Some(result), ..old(self).active_view()[p] };
                    &&& r == Some(done)
                    &&& final(self).active_view() == old(self).active_view().remove(p)
                    &&& final(self).history_view() == keep_last(old(self).history_view().push(done), old(self).limit())
                },
            },
    {
        let mut i: usize = 0;
        while i < self.active.len() && self.active[i].id != id
            invariant
                i <= self.active@.len(),
                forall|j: int| 0 <= j < i ==> (#[trigger] self.active@[j]).id != id,
            decreases self.active@.len() - i,
        {
            i = i + 1;
        }
        if i == self.active.len() {
            proof {
                lemma_position_of(self.active@, id);
                if position_of(self.active@, id) is Some {
                    let p = position_of(self.active@, id)->0;
                    assert(self.active@[p].id == id);
                }
            }
            return None;
        }
        proof {
            lemma_position_of_unique(self.active@, id, i as int);
        }
        let mut job = match self.active.remove(i) {
            Some(j) => j,
            None => {
                return None;
            },
        };
        job.complete(result);
        self.history.push_back(job.duplicate());
        let ghost h0 = self.history@;
        while self.history.len() > self.max_history
            invariant
                self.next_id == old(self).next_id,
                self.max_history == old(self).max_history,
                self.active@ == old(self).active@.remove(i as int),
                self.history@.len() >= self.max_history ==> self.history@ == h0.skip(h0.len() - self.history@.len()),
                self.history@.len() < self.max_history ==> self.history@ == h0,
                self.history@.len() <= h0.len(),
            decreases self.history@.len(),
        {
            self.history.pop_front();
        }
        Some(job)
    }

    /// The queued jobs, oldest first.
    pub fn active_jobs(&self) -> (r: Vec<Job>)
        ensures
            r@ == self.active_view(),
    {
        let mut r: Vec<Job> = Vec::new();
        let mut i: usize = 0;
        while i < self.active.len()
            invariant
                i <= self.active@.len(),
                r@ == self.active@.take(i as int),
            decreases self.active@.len() - i,
        {
            r.push(self.active[i].duplicate());
            i = i + 1;
            assert(r@ =~= self.active@.take(i as int));
        }
        assert(self.active@.take(self.active@.len() as int) =~= self.active@);
        r
    }

    /// The `n` most recently finished jobs, newest first.
    pub fn recent(&self, n: usize) -> (r: Vec<Job>)
        ensures
            r@.len() == if n < self.history_view().len() { n as nat } else { self.history_view().len() },
            forall|i: int| 0 <= i < r@.len() ==> #[trigger] r@[i] == self.history_view()[self.history_view().len() - 1 - i],
    {
        let mut r: Vec<Job> = Vec::new();
        let len = self.history.len();
        let k = if n < len { n } else { len };
        let mut i: usize = 0;
        while i < k
            invariant
                k <= len,
                k == if n < len { n } else { len },
                i <= k,
                len == self.history@.len(),
                i <= len,
                r@.len() == i,
                forall|j: int| 0 <= j < i ==> #[trigger] r@[j] == self.history@[len - 1 - j],
            decreases len - i,
        {
            r.push(self.history[len - 1 - i].duplicate());
            i = i + 1;
        }
        r
    }
}

/// The finished-job history keeps the newest: when a queue's history is the last
/// `limit` of the jobs finished so far, `finished`, a finish with `done` leaves the last
/// `limit` of `finished` followed by `done`. So the history never holds more than
/// `limit` jobs, holds every finished job while there are fewer, and its newest entry,
/// the first that `recent` lists, is the job finished last.
pub proof fn law_job_history(finished: Seq<Job>, done: Job, limit: nat)
    requires
        limit > 0,
    ensures
        keep_last(keep_last(finished, limit).push(done), limit) == keep_last(finished.push(done), limit),
        keep_last(finished.push(done), limit).len() == if finished.len() + 1 < limit { finished.len() + 1 } else { limit },
        keep_last(finished.push(done), limit).last() == done,
        forall|i: int| 0 <= i < keep_last(finished.push(done), limit).len() ==>
            #[trigger] keep_last(finished.push(done), limit)[i]
                == finished.push(done)[finished.len() + 1 - keep_last(finished.push(done), limit).len() + i],
{
    let f = finished;
    let k = keep_last(f, limit);
    let all = f.push(done);
    if f.len() > limit {
        assert(k.push(done).len() == limit + 1);
        assert(keep_last(k.push(done), limit) =~= all.skip(all.len() - limit));
    } else if f.len() == limit {
        assert(k =~= f);
        assert(keep_last(k.push(done), limit) =~= all.skip(all.len() - limit));
    } else {
        assert(k =~= f);
    }
}

/// The history of a queue that started empty, after the jobs `done` finished one after
/// another, each finish keeping the newest `limit`, as `finish` states it.
pub open spec fn history_after(done: Seq<Job>, limit: nat) -> Seq<Job>
    decreases done.len(),
{
    if done.len() == 0 {
        Seq::empty()
    } else {
        keep_last(history_after(done.drop_last(), limit).push(done.last()), limit)
    }
}

/// Over any run of finishes from an empty queue, the history is the last `limit`
/// finished jobs in the order they finished: it holds `min(h, limit)` jobs for `h`
/// finishes, the oldest dropped first, so `recent(n)` lists `min(n, h, limit)` of them,
/// newest first.
pub proof fn law_job_history_run(done: Seq<Job>, limit: nat)
    requires
        limit > 0,
    ensures
        history_after(done, limit) == keep_last(done, limit),
        history_after(done, limit).len() == if done.len() < limit { done.len() } else { limit },
    decreases done.len(),
{
    if done.len() > 0 {
        let f = done.drop_last();
        law_job_history_run(f, limit);
        law_job_history(f, done.last(), limit);
        assert(f.push(done.last()) =~= done);
    }
}

/// The ids `count` successive jobs of a queue get, starting from its next id `next`.
pub open spec fn ids_from(next: u32, count: nat) -> Seq<u32>
    decreases count,
{
    if count == 0 {
        Seq::empty()
    } else {
        seq![next] + ids_from(next.wrapping_add(1), (count - 1) as nat)
    }
}

/// Job ids count up: while the counter does not wrap, the `count` jobs a queue makes
/// from its next id `next` get `next`, `next + 1`, ..., each larger than the one before,
/// so they are all different.
pub proof fn law_job_ids_increase(next: u32, count: nat)
    requires
        next + count <= u32::MAX + 1,
    ensures
        ids_from(next, count).len() == count,
        forall|i: int| 0 <= i < count ==> #[trigger] ids_from(next, count)[i] == next + i,
        forall|i: int, j: int| 0 <= i < j < count ==> ids_from(next, count)[i] < ids_from(next, count)[j],
    decreases count,
{
    if count > 0 {
        if count > 1 {
            assert(next < u32::MAX);
            assert(next.wrapping_add(1) == next + 1);
        }
        let n1 = next.wrapping_add(1);
        if count > 1 {
            law_job_ids_increase(n1, (count - 1) as nat);
        } else {
            assert(ids_from(n1, 0) =~= Seq::<u32>::empty());
        }
        let s = ids_from(next, count);
        assert forall|i: int| 0 <= i < count implies #[trigger] s[i] == next + i by {
            if i > 0 {
                assert(s[i] == ids_from(n1, (count - 1) as nat)[i - 1]);
            }
        }
        assert forall|i: int, j: int| 0 <= i < j < count implies s[i] < s[j] by {
            assert(s[i] == next + i);
            assert(s[j] == next + j);
        }
    }
}

} // verus!
