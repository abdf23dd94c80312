use std::collections::{HashMap, VecDeque};
use vstd::prelude::*;

use crate::proto::{JobSummary, WorkerInfo};

verus! {

broadcast use vstd::std_specs::hash::group_hash_axioms;

/// Most credit drops remembered.
pub const MAX_DISPATCH_RECORDS: usize = 100;

/// Most dispatched jobs remembered.
pub const MAX_DISPATCHED_JOBS: usize = 500;

/// A drop in a worker's credits between two snapshots: that many jobs were
/// dispatched to it. `when` is in milliseconds since the Unix epoch.
pub struct DispatchRecord {
    pub when: i64,
    pub worker_endpoint: String,
    pub count: usize,
}

/// A job that left the wait queue, with the worker it was attributed to
/// (`-` when none could be).
pub struct DispatchedJob {
    pub job_id: u128,
    pub when: i64,
    pub worker: String,
}

pub open spec fn record_view(r: DispatchRecord) -> (i64, Seq<char>, usize) {
    (r.when, r.worker_endpoint@, r.count)
}

pub open spec fn job_view(j: DispatchedJob) -> (u128, i64, Seq<char>) {
    (j.job_id, j.when, j.worker@)
}

pub open spec fn ids_of(s: Seq<JobSummary>) -> Seq<u128> {
    s.map_values(|j: JobSummary| j.job_id)
}

/// The first `cap` elements of `s`.
pub open spec fn front_capped<A>(s: Seq<A>, cap: nat) -> Seq<A> {
    if s.len() > cap {
        s.subrange(0, cap as int)
    } else {
        s
    }
}

/// Last known credits per worker after seeing the workers `ws`, in order.
pub open spec fn credits_seen(prev: Map<u128, usize>, ws: Seq<WorkerInfo>) -> Map<u128, usize>
    decreases ws.len(),
{
    if ws.len() == 0 {
        prev
    } else {
        credits_seen(prev, ws.drop_last()).insert(ws.last().id, ws.last().credits)
    }
}

/// The credit drops among the workers `ws`, in order: endpoint and size. A
/// worker seen for the first time shows no drop.
pub open spec fn credit_drops(prev: Map<u128, usize>, ws: Seq<WorkerInfo>) -> Seq<(Seq<char>, usize)>
    decreases ws.len(),
{
    if ws.len() == 0 {
        Seq::empty()
    } else {
        let seen = credits_seen(prev, ws.drop_last());
        let w = ws.last();
        let before = if seen.contains_key(w.id) {
            seen[w.id]
        } else {
            w.credits
        };
        let d = credit_drops(prev, ws.drop_last());
        if w.credits < before {
            d.push((w.endpoint@, (before - w.credits) as usize))
        } else {
            d
        }
    }
}

/// The record log after the drops `drops`, each put in front at time `now`
/// and the log cut to its most recent records.
pub open spec fn logged(
    log: Seq<(i64, Seq<char>, usize)>,
    drops: Seq<(Seq<char>, usize)>,
    now: i64,
) -> Seq<(i64, Seq<char>, usize)>
    decreases drops.len(),
{
    if drops.len() == 0 {
        log
    } else {
        front_capped(
            seq![(now, drops.last().0, drops.last().1)] + logged(log, drops.drop_last(), now),
            MAX_DISPATCH_RECORDS as nat,
        )
    }
}

/// The job identifiers of `prev` missing from `next`, each once, in order.
pub open spec fn vanished(prev: Seq<u128>, next: Seq<u128>) -> Seq<u128>
    decreases prev.len(),
{
    if prev.len() == 0 {
        Seq::empty()
    } else {
        let v = vanished(prev.drop_last(), next);
        let x = prev.last();
        if next.contains(x) || v.contains(x) {
            v
        } else {
            v.push(x)
        }
    }
}

/// The worker a vanished job is attributed to, and the log after: the most
/// recent record with a count left gives its endpoint and one of its count;
/// exhausted records in front of it are dropped.
pub open spec fn attribution(log: Seq<(i64, Seq<char>, usize)>) -> (Seq<char>, Seq<
    (i64, Seq<char>, usize),
>)
    decreases log.len(),
{
    if log.len() == 0 {
        ("-"@, log)
    } else if log[0].2 > 0 {
        let r = log[0];
        (
            r.1,
            if r.2 > 1 {
                seq![(r.0, r.1, (r.2 - 1) as usize)] + log.drop_first()
            } else {
                log.drop_first()
            },
        )
    } else {
        attribution(log.drop_first())
    }
}

/// Log and job list after attributing the vanished jobs `ids`, in order, at time `now`.
pub open spec fn attributed(
    log: Seq<(i64, Seq<char>, usize)>,
    jobs: Seq<(u128, i64, Seq<char>)>,
    ids: Seq<u128>,
    now: i64,
) -> (Seq<(i64, Seq<char>, usize)>, Seq<(u128, i64, Seq<char>)>)
    decreases ids.len(),
{
    if ids.len() == 0 {
        (log, jobs)
    } else {
        let (l, j) = attributed(log, jobs, ids.drop_last(), now);
        let (w, l2) = attribution(l);
        (l2, front_capped(seq![(ids.last(), now, w)] + j, MAX_DISPATCHED_JOBS as nat))
    }
}

proof fn lemma_map_push_front<A, B>(x: A, s: Seq<A>, f: spec_fn(A) -> B)
    ensures
        (seq![x] + s).map_values(f) == seq![f(x)] + s.map_values(f),
{
    assert((seq![x] + s).map_values(f) =~= seq![f(x)] + s.map_values(f));
}

proof fn lemma_map_prefix<A, B>(s: Seq<A>, n: int, f: spec_fn(A) -> B)
    requires
        0 <= n <= s.len(),
    ensures
        s.subrange(0, n).map_values(f) == s.map_values(f).subrange(0, n),
{
    assert(s.subrange(0, n).map_values(f) =~= s.map_values(f).subrange(0, n));
}

proof fn lemma_map_rest<A, B>(s: Seq<A>, f: spec_fn(A) -> B)
    requires
        s.len() > 0,
    ensures
        s.drop_first().map_values(f) == s.map_values(f).drop_first(),
{
    assert(s.drop_first().map_values(f) =~= s.map_values(f).drop_first());
}

/// Whether `id` is among the identifiers of `s`.
fn has_job(s: &Vec<JobSummary>, id: u128) -> (r: bool)
    ensures
        r == ids_of(s@).contains(id),
{
    let mut i: usize = 0;
    while i < s.len()
        invariant
            i <= s@.len(),
            forall|k: int| 0 <= k < i ==> s@[k].job_id != id,
        decreases s@.len() - i,
    {
        if s[i].job_id == id {
            assert(ids_of(s@)[i as int] == id);
            return true;
        }
        i += 1;
    }
    assert forall|k: int| 0 <= k < ids_of(s@).len() implies ids_of(s@)[k] != id by {
        assert(ids_of(s@)[k] == s@[k].job_id);
    }
    false
}

/// Whether `x` is in `v`.
fn has_id(v: &Vec<u128>, x: u128) -> (r: bool)
    ensures
        r == v@.contains(x),
{
    let mut i: usize = 0;
    while i < v.len()
        invariant
            i <= v@.len(),
            forall|k: int| 0 <= k < i ==> v@[k] != x,
        decreases v@.len() - i,
    {
        if v[i] == x {
            return true;
        }
        i += 1;
    }
    false
}

/// The identifiers of the jobs in `prev` that `next` no longer lists.
pub fn vanished_ids(prev: &Vec<JobSummary>, next: &Vec<JobSummary>) -> (r: Vec<u128>)
    ensures
        r@ == vanished(ids_of(prev@), ids_of(next@)),
{
    let mut out: Vec<u128> = Vec::new();
    let mut i: usize = 0;
    while i < prev.len()
        invariant
            i <= prev@.len(),
            out@ == vanished(ids_of(prev@).subrange(0, i as int), ids_of(next@)),
        decreases prev@.len() - i,
    {
        let x = prev[i].job_id;
        proof {
            let p = ids_of(prev@).subrange(0, i + 1);
            assert(p.drop_last() =~= ids_of(prev@).subrange(0, i as int));
            assert(p.last() == x);
        }
        if !has_job(next, x) && !has_id(&out, x) {
            out.push(x);
        }
        i += 1;
    }
    assert(ids_of(prev@).subrange(0, prev@.len() as int) =~= ids_of(prev@));
    out
}

/// What a monitor knows between two snapshots of the orchestrator.
pub struct App {
    pub workers: Vec<WorkerInfo>,
    pub pending: Vec<JobSummary>,
    /// Credit drops, most recent first.
    pub dispatches: VecDeque<DispatchRecord>,
    /// Jobs seen leaving the queue, most recent first.
    pub dispatched_jobs: VecDeque<DispatchedJob>,
    pub prev_credits: HashMap<u128, usize>,
    pub last_error: Option<String>,
}

impl App {
    pub open spec fn log_view(&self) -> Seq<(i64, Seq<char>, usize)> {
        self.dispatches@.map_values(|r: DispatchRecord| record_view(r))
    }

    pub open spec fn jobs_view(&self) -> Seq<(u128, i64, Seq<char>)> {
        self.dispatched_jobs@.map_values(|j: DispatchedJob| job_view(j))
    }

    pub fn new() -> (r: App)
        ensures
            r.workers@.len() == 0,
            r.pending@.len() == 0,
            r.dispatches@.len() == 0,
            r.dispatched_jobs@.len() == 0,
            r.prev_credits@ == Map::<u128, usize>::empty(),
            r.last_error is None,
    {
        App {
            workers: Vec::new(),
            pending: Vec::new(),
            dispatches: VecDeque::with_capacity(MAX_DISPATCH_RECORDS),
            dispatched_jobs: VecDeque::with_capacity(MAX_DISPATCHED_JOBS),
            prev_credits: HashMap::new(),
            last_error: None,
        }
    }

    /// Records, at time `now`, each drop in a worker's credits since the
    /// last snapshot, and remembers the credits seen.
    pub fn record_credit_delta(&mut self, new_workers: &[WorkerInfo], now: i64)
        ensures
            final(self).prev_credits@ == credits_seen(old(self).prev_credits@, new_workers@),
            final(self).log_view() == logged(
                old(self).log_view(),
                credit_drops(old(self).prev_credits@, new_workers@),
                now,
            ),
            final(self).workers == old(self).workers,
            final(self).pending == old(self).pending,
            final(self).dispatched_jobs == old(self).dispatched_jobs,
            final(self).last_error == old(self).last_error,
    {
        let ghost p0 = self.prev_credits@;
        let ghost l0 = self.log_view();
        let ghost ws = new_workers@;
        let mut i: usize = 0;
        while i < new_workers.len()
            invariant
                ws == new_workers@,
                i <= ws.len(),
                self.prev_credits@ == credits_seen(p0, ws.subrange(0, i as int)),
                self.log_view() == logged(l0, credit_drops(p0, ws.subrange(0, i as int)), now),
                self.workers == old(self).workers,
                self.pending == old(self).pending,
                self.dispatched_jobs == old(self).dispatched_jobs,
                self.last_error == old(self).last_error,
            decreases ws.len() - i,
        {
            let w = &new_workers[i];
            let ghost sub = ws.subrange(0, i + 1);
            proof {
                assert(sub.drop_last() =~= ws.subrange(0, i as int));
                assert(sub.last() == *w);
            }
            let prev = match self.prev_credits.get(&w.id) {
                Some(c) => *c,
                None => w.credits,
            };
            let ghost drops = credit_drops(p0, ws.subrange(0, i as int));
            if w.credits < prev {
                let rec = DispatchRecord {
                    when: now,
                    worker_endpoint: w.endpoint.clone(),
                    count: prev - w.credits,
                };
                let ghost t = seq![record_view(rec)] + self.log_view();
                proof {
                    lemma_map_push_front(rec, self.dispatches@, |r: DispatchRecord| record_view(r));
                    let nd = drops.push((w.endpoint@, (prev - w.credits) as usize));
                    assert(nd.drop_last() =~= drops);
                }
                self.dispatches.push_front(rec);
                while self.dispatches.len() > MAX_DISPATCH_RECORDS
                    invariant
                        self.dispatches@.len() <= t.len(),
                        self.log_view() == t.subrange(0, self.dispatches@.len() as int),
                        t.len() > MAX_DISPATCH_RECORDS ==> self.dispatches@.len()
                            >= MAX_DISPATCH_RECORDS,
                        t.len() <= MAX_DISPATCH_RECORDS ==> self.dispatches@.len() == t.len(),
                        self.workers == old(self).workers,
                        self.pending == old(self).pending,
                        self.dispatched_jobs == old(self).dispatched_jobs,
                        self.last_error == old(self).last_error,
                        self.prev_credits@ == credits_seen(p0, ws.subrange(0, i as int)),
                    decreases self.dispatches@.len(),
                {
                    let ghost d = self.dispatches@;
                    self.dispatches.pop_back();
                    proof {
                        lemma_map_prefix(d, d.len() - 1, |r: DispatchRecord| record_view(r));
                    }
                }
                proof {
                    if t.len() <= MAX_DISPATCH_RECORDS {
                        assert(t.subrange(0, t.len() as int) =~= t);
                    }
                }
            }
            self.prev_credits.insert(w.id, w.credits);
            i += 1;
        }
        assert(ws.subrange(0, ws.len() as int) =~= ws);
    }

    /// Takes the worker that the next vanished job is attributed to from the
    /// credit-drop log.
    fn attribute_next(&mut self) -> (r: String)
        ensures
            (r@, final(self).log_view()) == attribution(old(self).log_view()),
            final(self).workers == old(self).workers,
            final(self).pending == old(self).pending,
            final(self).dispatched_jobs == old(self).dispatched_jobs,
            final(self).prev_credits == old(self).prev_credits,
            final(self).last_error == old(self).last_error,
    {
        let ghost start = self.log_view();
        loop
            invariant
                start == old(self).log_view(),
                attribution(self.log_view()) == attribution(start),
                self.workers == old(self).workers,
                self.pending == old(self).pending,
                self.dispatched_jobs == old(self).dispatched_jobs,
                self.prev_credits == old(self).prev_credits,
                self.last_error == old(self).last_error,
            decreases self.dispatches@.len(),
        {
            let ghost d = self.dispatches@;
            match self.dispatches.pop_front() {
                Some(dr) => {
                    proof {
                        lemma_map_rest(d, |r: DispatchRecord| record_view(r));
                        assert(self.dispatches@ =~= d.drop_first());
                    }
                    assert(record_view(dr) == d.map_values(|r: DispatchRecord| record_view(r))[0]);
                    if dr.count > 0 {
                        let worker = dr.worker_endpoint.clone();
                        let left = dr.count - 1;
                        if left > 0 {
                            let rest = DispatchRecord {
                                when: dr.when,
                                worker_endpoint: dr.worker_endpoint,
                                count: left,
                            };
                            proof {
                                lemma_map_push_front(
                                    rest,
                                    self.dispatches@,
                                    |r: DispatchRecord| record_view(r),
                                );
                            }
                            self.dispatches.push_front(rest);
                        }
                        return worker;
                    }
                },
                None => {
                    assert(self.log_view() =~= Seq::<(i64, Seq<char>, usize)>::empty());
                    return String::from_str("-");
                },
            }
        }
    }

    /// Takes in a new snapshot taken at time `now`: records the credit drops,
    /// attributes each job that left the queue to the most recent drop with a
    /// count left, and keeps the snapshot's workers and pending jobs.
    pub fn process_snapshot(
        &mut self,
        new_workers: Vec<WorkerInfo>,
        new_pending: Vec<JobSummary>,
        now: i64,
    )
        ensures
            final(self).prev_credits@ == credits_seen(old(self).prev_credits@, new_workers@),
            (final(self).log_view(), final(self).jobs_view()) == attributed(
                logged(
                    old(self).log_view(),
                    credit_drops(old(self).prev_credits@, new_workers@),
                    now,
                ),
                old(self).jobs_view(),
                vanished(ids_of(old(self).pending@), ids_of(new_pending@)),
                now,
            ),
            final(self).workers == new_workers,
            final(self).pending == new_pending,
            final(self).last_error == old(self).last_error,
    {
        self.record_credit_delta(new_workers.as_slice(), now);
        let removed = vanished_ids(&self.pending, &new_pending);
        let ghost l0 = self.log_view();
        let ghost j0 = self.jobs_view();
        let mut i: usize = 0;
        while i < removed.len()
            invariant
                i <= removed@.len(),
                (self.log_view(), self.jobs_view()) == attributed(
                    l0,
                    j0,
                    removed@.subrange(0, i as int),
                    now,
                ),
                self.workers == old(self).workers,
                self.pending == old(self).pending,
                self.prev_credits@ == credits_seen(old(self).prev_credits@, new_workers@),
                self.last_error == old(self).last_error,
            decreases removed@.len() - i,
        {
            let job_id = removed[i];
            proof {
                let sub = removed@.subrange(0, i + 1);
                assert(sub.drop_last() =~= removed@.subrange(0, i as int));
            }
            let worker = self.attribute_next();
            let ghost la = self.log_view();
            let job = DispatchedJob { job_id, when: now, worker };
            proof {
                assert(removed@.subrange(0, i + 1).last() == job_id);
            }
            let ghost t = seq![job_view(job)] + self.jobs_view();
            proof {
                lemma_map_push_front(job, self.dispatched_jobs@, |j: DispatchedJob| job_view(j));
            }
            self.dispatched_jobs.push_front(job);
            while self.dispatched_jobs.len() > MAX_DISPATCHED_JOBS
                invariant
                    self.dispatched_jobs@.len() <= t.len(),
                    self.jobs_view() == t.subrange(0, self.dispatched_jobs@.len() as int),
                    self.log_view() == la,
                    t.len() > MAX_DISPATCHED_JOBS ==> self.dispatched_jobs@.len()
                        >= MAX_DISPATCHED_JOBS,
                    t.len() <= MAX_DISPATCHED_JOBS ==> self.dispatched_jobs@.len() == t.len(),
                    self.workers == old(self).workers,
                    self.pending == old(self).pending,
                    self.prev_credits@ == credits_seen(old(self).prev_credits@, new_workers@),
                    self.last_error == old(self).last_error,
                decreases self.dispatched_jobs@.len(),
            {
                let ghost d = self.dispatched_jobs@;
                self.dispatched_jobs.pop_back();
                proof {
                    lemma_map_prefix(d, d.len() - 1, |j: DispatchedJob| job_view(j));
                }
            }
            proof {
                if t.len() <= MAX_DISPATCHED_JOBS {
                    assert(t.subrange(0, t.len() as int) =~= t);
                }
            }
            i += 1;
        }
        assert(removed@.subrange(0, removed@.len() as int) =~= removed@);
        self.workers = new_workers;
        self.pending = new_pending;
    }
}

} // verus!
