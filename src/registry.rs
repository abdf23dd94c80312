use vstd::prelude::*;

use crate::ids::fresh_id;
pub use crate::proto::WorkerInfo;

verus! {

broadcast use vstd::seq_lib::group_seq_properties;

/// The record with identifier `id` in `s`, searching from the back.
pub open spec fn lookup(s: Seq<WorkerInfo>, id: u128) -> Option<WorkerInfo>
    decreases s.len(),
{
    if s.len() == 0 {
        None
    } else if s.last().id == id {
        Some(s.last())
    } else {
        lookup(s.drop_last(), id)
    }
}

/// No two records share an identifier.
pub open spec fn ids_unique(s: Seq<WorkerInfo>) -> bool {
    forall|i: int, j: int| 0 <= i < s.len() && 0 <= j < s.len() && i != j ==> s[i].id != s[j].id
}

/// The records of `s` keyed by identifier.
pub open spec fn records_as_map(s: Seq<WorkerInfo>) -> Map<u128, WorkerInfo> {
    Map::new(|id: u128| lookup(s, id) is Some, |id: u128| lookup(s, id)->0)
}

/// `w` with its credit balance replaced.
pub open spec fn with_credits(w: WorkerInfo, credits: usize) -> WorkerInfo {
    WorkerInfo { endpoint: w.endpoint, id: w.id, credits, seq: w.seq, last_seen: w.last_seen }
}

/// `w` after an accepted heartbeat.
pub open spec fn after_heartbeat(w: WorkerInfo, seq: usize, credits: usize, now: u64) -> WorkerInfo {
    WorkerInfo { endpoint: w.endpoint, id: w.id, credits, seq, last_seen: now }
}

/// `a` ranks at least as high as `b` for dispatch: more credits, or as many
/// and an identifier no larger.
pub open spec fn ranks_over(a: WorkerInfo, b: WorkerInfo) -> bool {
    b.credits < a.credits || (b.credits == a.credits && a.id <= b.id)
}

/// `id` is the worker that dispatch chooses in `m`: among the workers with
/// credits left, the one with the most, ties going to the lowest identifier.
pub open spec fn is_pick(m: Map<u128, WorkerInfo>, id: u128) -> bool {
    &&& m.contains_key(id)
    &&& m[id].credits > 0
    &&& forall|k: u128| #[trigger]
        m.contains_key(k) ==> m[k].credits < m[id].credits || (m[k].credits == m[id].credits
            && id <= k)
}

/// Each record of `m` is filed under its own identifier.
pub open spec fn keyed_by_id(m: Map<u128, WorkerInfo>) -> bool {
    forall|k: u128| #[trigger] m.contains_key(k) ==> m[k].id == k
}

/// Some worker of `m` has a credit left.
pub open spec fn has_credit(m: Map<u128, WorkerInfo>) -> bool {
    exists|k: u128| #[trigger] m.contains_key(k) && m[k].credits > 0
}

/// No worker present in both maps has a smaller heartbeat sequence number in `after`.
pub open spec fn seqs_kept(before: Map<u128, WorkerInfo>, after: Map<u128, WorkerInfo>) -> bool {
    forall|id: u128|
        #![trigger before.contains_key(id), after.contains_key(id)]
        before.contains_key(id) && after.contains_key(id) ==> before[id].seq <= after[id].seq
}

/// Along operations that each keep sequence numbers, a worker registered
/// throughout never sees its sequence number go down.
pub proof fn lemma_seq_never_decreases(
    a: Map<u128, WorkerInfo>,
    b: Map<u128, WorkerInfo>,
    c: Map<u128, WorkerInfo>,
    id: u128,
)
    requires
        seqs_kept(a, b),
        seqs_kept(b, c),
        a.contains_key(id),
        b.contains_key(id),
        c.contains_key(id),
    ensures
        a[id].seq <= c[id].seq,
{
}

/// Sum of the credit balances of `s`.
pub open spec fn credit_sum(s: Seq<WorkerInfo>) -> int
    decreases s.len(),
{
    if s.len() == 0 {
        0
    } else {
        credit_sum(s.drop_last()) + s.last().credits
    }
}

/// `w` was last seen more than `max_age` milliseconds before `now`.
pub open spec fn is_stale(w: WorkerInfo, now: u64, max_age: u64) -> bool {
    now as int - w.last_seen as int > max_age as int
}

/// The workers of `m` that are not stale at `now`.
pub open spec fn live_workers(m: Map<u128, WorkerInfo>, now: u64, max_age: u64) -> Map<
    u128,
    WorkerInfo,
> {
    Map::new(|k: u128| m.contains_key(k) && !is_stale(m[k], now, max_age), |k: u128| m[k])
}

/// What applying a heartbeat did.
#[derive(Clone, Copy, Debug, PartialEq, Eq, Structural)]
pub enum HeartbeatOutcome {
    /// The record took the new sequence number and credits.
    Updated,
    /// No worker has this identifier.
    Unknown,
    /// The sequence number was not above the stored one; nothing changed.
    Stale,
}

proof fn lemma_lookup(s: Seq<WorkerInfo>, id: u128)
    ensures
        (lookup(s, id) is None) <==> (forall|i: int| 0 <= i < s.len() ==> s[i].id != id),
        ids_unique(s) ==> forall|i: int|
            0 <= i < s.len() && s[i].id == id ==> lookup(s, id) == Some(s[i]),
    decreases s.len(),
{
    if s.len() > 0 {
        let t = s.drop_last();
        lemma_lookup(t, id);
        assert(forall|i: int| 0 <= i < t.len() ==> t[i] == s[i]);
    }
}

proof fn lemma_view_at(s: Seq<WorkerInfo>, i: int)
    requires
        ids_unique(s),
        0 <= i < s.len(),
    ensures
        records_as_map(s).contains_key(s[i].id),
        records_as_map(s)[s[i].id] == s[i],
{
    lemma_lookup(s, s[i].id);
}

proof fn lemma_view_has(s: Seq<WorkerInfo>, id: u128)
    requires
        ids_unique(s),
        records_as_map(s).contains_key(id),
    ensures
        exists|i: int| 0 <= i < s.len() && s[i].id == id && records_as_map(s)[id] == s[i],
{
    lemma_lookup(s, id);
    let i = choose|i: int| 0 <= i < s.len() && s[i].id == id;
    assert(records_as_map(s)[id] == s[i]);
}

proof fn lemma_view_lacks(s: Seq<WorkerInfo>, id: u128)
    requires
        forall|i: int| 0 <= i < s.len() ==> s[i].id != id,
    ensures
        !records_as_map(s).contains_key(id),
{
    lemma_lookup(s, id);
}

proof fn lemma_view_push(s: Seq<WorkerInfo>, w: WorkerInfo)
    requires
        ids_unique(s),
        forall|i: int| 0 <= i < s.len() ==> s[i].id != w.id,
    ensures
        ids_unique(s.push(w)),
        records_as_map(s.push(w)) == records_as_map(s).insert(w.id, w),
{
    let t = s.push(w);
    assert(t.drop_last() =~= s);
    assert(records_as_map(t) =~= records_as_map(s).insert(w.id, w));
}

proof fn lemma_view_update(s: Seq<WorkerInfo>, i: int, w: WorkerInfo)
    requires
        ids_unique(s),
        0 <= i < s.len(),
        w.id == s[i].id,
    ensures
        ids_unique(s.update(i, w)),
        records_as_map(s.update(i, w)) == records_as_map(s).insert(w.id, w),
{
    let t = s.update(i, w);
    assert(ids_unique(t));
    assert forall|id: u128| lookup(t, id) == (if id == w.id { Some(w) } else { lookup(s, id) }) by {
        lemma_lookup(s, id);
        lemma_lookup(t, id);
        if id == w.id {
            assert(t[i] == w);
        } else if exists|j: int| 0 <= j < s.len() && s[j].id == id {
            let j = choose|j: int| 0 <= j < s.len() && s[j].id == id;
            assert(t[j] == s[j]);
        } else {
            assert(forall|j: int| 0 <= j < t.len() ==> t[j].id != id);
        }
    }
    assert(records_as_map(t) =~= records_as_map(s).insert(w.id, w));
}

proof fn lemma_view_remove(s: Seq<WorkerInfo>, i: int)
    requires
        ids_unique(s),
        0 <= i < s.len(),
    ensures
        ids_unique(s.remove(i)),
        records_as_map(s.remove(i)) == records_as_map(s).remove(s[i].id),
{
    let t = s.remove(i);
    let gone = s[i].id;
    assert forall|a: int, b: int| 0 <= a < t.len() && 0 <= b < t.len() && a != b implies t[a].id
        != t[b].id by {
        let sa = if a < i { a } else { a + 1 };
        let sb = if b < i { b } else { b + 1 };
        assert(t[a] == s[sa] && t[b] == s[sb]);
    }
    assert forall|id: u128| lookup(t, id) == (if id == gone { None } else { lookup(s, id) }) by {
        lemma_lookup(s, id);
        lemma_lookup(t, id);
        if id == gone {
            assert forall|j: int| 0 <= j < t.len() implies t[j].id != id by {
                let sj = if j < i { j } else { j + 1 };
                assert(t[j] == s[sj]);
            }
        } else if exists|j: int| 0 <= j < s.len() && s[j].id == id {
            let j = choose|j: int| 0 <= j < s.len() && s[j].id == id;
            let tj = if j < i { j } else { j - 1 };
            assert(t[tj] == s[j]);
        } else {
            assert forall|j: int| 0 <= j < t.len() implies t[j].id != id by {
                let sj = if j < i { j } else { j + 1 };
                assert(t[j] == s[sj]);
            }
        }
    }
    assert(records_as_map(t) =~= records_as_map(s).remove(gone));
}

proof fn lemma_credit_sum_update(s: Seq<WorkerInfo>, i: int, w: WorkerInfo)
    requires
        0 <= i < s.len(),
    ensures
        credit_sum(s.update(i, w)) == credit_sum(s) - s[i].credits + w.credits,
    decreases s.len(),
{
    let t = s.update(i, w);
    if i == s.len() - 1 {
        assert(t.drop_last() =~= s.drop_last());
    } else {
        assert(t.drop_last() =~= s.drop_last().update(i, w));
        lemma_credit_sum_update(s.drop_last(), i, w);
    }
}

proof fn lemma_credit_sum_remove(s: Seq<WorkerInfo>, i: int)
    requires
        0 <= i < s.len(),
    ensures
        credit_sum(s.remove(i)) == credit_sum(s) - s[i].credits,
    decreases s.len(),
{
    let t = s.remove(i);
    if i == s.len() - 1 {
        assert(t =~= s.drop_last());
    } else {
        assert(t.drop_last() =~= s.drop_last().remove(i));
        assert(t.last() == s.last());
        lemma_credit_sum_remove(s.drop_last(), i);
    }
}

/// The orchestrator's set of known workers and their credit balances.
pub struct WorkerRegistry {
    workers: Vec<WorkerInfo>,
}

impl View for WorkerRegistry {
    type V = Map<u128, WorkerInfo>;

    closed spec fn view(&self) -> Map<u128, WorkerInfo> {
        records_as_map(self.workers@)
    }
}

impl WorkerRegistry {
    /// Identifiers are unique.
    pub closed spec fn wf(&self) -> bool {
        ids_unique(self.workers@)
    }

    /// Each record is filed under its own identifier.
    pub proof fn lemma_keyed_by_id(&self)
        requires
            self.wf(),
        ensures
            keyed_by_id(self@),
    {
        assert forall|k: u128| #[trigger] self@.contains_key(k) implies self@[k].id == k by {
            lemma_view_has(self.workers@, k);
        }
    }

    /// Sum of the credit balances of all registered workers.
    pub closed spec fn total_credits(&self) -> int {
        credit_sum(self.workers@)
    }

    pub fn new() -> (r: WorkerRegistry)
        ensures
            r.wf(),
            r@ == Map::<u128, WorkerInfo>::empty(),
            r.total_credits() == 0,
    {
        let r = WorkerRegistry { workers: Vec::new() };
        assert(r@ =~= Map::<u128, WorkerInfo>::empty());
        r
    }

    /// Position of the record with identifier `id`.
    fn find(&self, id: u128) -> (r: Option<usize>)
        requires
            self.wf(),
        ensures
            match r {
                Some(i) => i < self.workers@.len() && self.workers@[i as int].id == id,
                None => forall|i: int| 0 <= i < self.workers@.len() ==> self.workers@[i].id != id,
            },
            r is Some <==> self@.contains_key(id),
    {
        let mut i: usize = 0;
        while i < self.workers.len()
            invariant
                self.wf(),
                i <= self.workers@.len(),
                forall|j: int| 0 <= j < i ==> self.workers@[j].id != id,
            decreases self.workers@.len() - i,
        {
            if self.workers[i].id == id {
                proof {
                    lemma_view_at(self.workers@, i as int);
                }
                return Some(i);
            }
            i += 1;
        }
        proof {
            lemma_view_lacks(self.workers@, id);
        }
        None
    }

    /// The identifiers of the registered workers, in order.
    fn ids(&self) -> (r: Vec<u128>)
        requires
            self.wf(),
        ensures
            forall|k: u128| r@.contains(k) <==> self@.contains_key(k),
    {
        let mut out: Vec<u128> = Vec::new();
        let mut i: usize = 0;
        while i < self.workers.len()
            invariant
                self.wf(),
                i <= self.workers@.len(),
                out@.len() == i,
                forall|j: int| 0 <= j < i ==> out@[j] == self.workers@[j].id,
            decreases self.workers@.len() - i,
        {
            out.push(self.workers[i].id);
            i += 1;
        }
        proof {
            assert forall|k: u128| out@.contains(k) <==> self@.contains_key(k) by {
                if out@.contains(k) {
                    let j = choose|j: int| 0 <= j < out@.len() && out@[j] == k;
                    lemma_view_at(self.workers@, j);
                }
                if self@.contains_key(k) {
                    lemma_view_has(self.workers@, k);
                    let j = choose|j: int|
                        0 <= j < self.workers@.len() && self.workers@[j].id == k;
                    assert(out@[j] == k);
                }
            }
        }
        out
    }

    /// An identifier that no registered worker has.
    fn unused_id(&self) -> (r: u128)
        requires
            self.wf(),
        ensures
            !self@.contains_key(r),
    {
        let taken = self.ids();
        fresh_id(&taken)
    }

    /// Registers a worker reachable at `endpoint` with `credits` starting
    /// credits, seen at time `now`. Returns the identifier assigned, which no
    /// registered worker had.
    pub fn register(&mut self, endpoint: String, credits: usize, now: u64) -> (id: u128)
        requires
            old(self).wf(),
        ensures
            final(self).wf(),
            !old(self)@.contains_key(id),
            final(self)@ == old(self)@.insert(
                id,
                WorkerInfo { endpoint, id, credits, seq: 0, last_seen: now },
            ),
            final(self).total_credits() == old(self).total_credits() + credits,
            seqs_kept(old(self)@, final(self)@),
    {
        let id = self.unused_id();
        let ghost before = self.workers@;
        let info = WorkerInfo { endpoint, id, credits, seq: 0, last_seen: now };
        proof {
            assert forall|i: int| 0 <= i < before.len() implies before[i].id != id by {
                if before[i].id == id {
                    lemma_view_at(before, i);
                }
            }
            lemma_view_push(before, info);
            assert(before.push(info).drop_last() =~= before);
        }
        self.workers.push(info);
        id
    }

    /// Removes the worker `worker_id`. Returns whether it was registered.
    pub fn unregister(&mut self, worker_id: u128) -> (r: bool)
        requires
            old(self).wf(),
        ensures
            final(self).wf(),
            r == old(self)@.contains_key(worker_id),
            final(self)@ == old(self)@.remove(worker_id),
            r ==> final(self).total_credits() == old(self).total_credits() - old(
                self,
            )@[worker_id].credits,
            !r ==> final(self).total_credits() == old(self).total_credits(),
            seqs_kept(old(self)@, final(self)@),
    {
        match self.find(worker_id) {
            Some(i) => {
                proof {
                    lemma_view_remove(self.workers@, i as int);
                    lemma_view_at(self.workers@, i as int);
                    lemma_credit_sum_remove(self.workers@, i as int);
                }
                self.workers.remove(i);
                true
            },
            None => {
                assert(self@ =~= self@.remove(worker_id));
                false
            },
        }
    }

    /// Number of registered workers.
    pub fn len(&self) -> (r: usize)
        requires
            self.wf(),
        ensures
            self@.dom().finite(),
            r == self@.dom().len(),
    {
        proof {
            let ids = self.workers@.map_values(|w: WorkerInfo| w.id);
            assert forall|k: u128| #[trigger] self@.dom().contains(k) == ids.to_set().contains(k) by {
                if self@.contains_key(k) {
                    lemma_view_has(self.workers@, k);
                    let i = choose|i: int|
                        0 <= i < self.workers@.len() && self.workers@[i].id == k;
                    assert(ids[i] == k);
                }
                if ids.to_set().contains(k) {
                    let i = choose|i: int| 0 <= i < ids.len() && ids[i] == k;
                    lemma_view_at(self.workers@, i);
                }
            }
            assert(self@.dom() =~= ids.to_set());
            assert(ids.no_duplicates());
            ids.unique_seq_to_set();
            vstd::seq_lib::seq_to_set_is_finite(ids);
        }
        self.workers.len()
    }

    /// Overwrites the credit balance of `worker_id`. Returns whether it was registered.
    pub fn update_credits(&mut self, worker_id: u128, credits: usize) -> (r: bool)
        requires
            old(self).wf(),
        ensures
            final(self).wf(),
            r == old(self)@.contains_key(worker_id),
            r ==> final(self)@ == old(self)@.insert(
                worker_id,
                with_credits(old(self)@[worker_id], credits),
            ),
            r ==> final(self).total_credits() == old(self).total_credits() - old(
                self,
            )@[worker_id].credits + credits,
            !r ==> final(self)@ == old(self)@,
            !r ==> final(self).total_credits() == old(self).total_credits(),
            seqs_kept(old(self)@, final(self)@),
    {
        match self.find(worker_id) {
            Some(i) => {
                let w = with_credits_of(&self.workers[i], credits);
                proof {
                    lemma_view_at(self.workers@, i as int);
                    lemma_view_update(self.workers@, i as int, w);
                    lemma_credit_sum_update(self.workers@, i as int, w);
                }
                self.workers.set(i, w);
                true
            },
            None => false,
        }
    }

    /// Applies a heartbeat `(worker_id, seq, credits)` received at time `now`.
    /// A heartbeat whose sequence number is not above the stored one is stale
    /// and changes nothing.
    pub fn apply_heartbeat(&mut self, worker_id: u128, seq: usize, credits: usize, now: u64) -> (r:
        HeartbeatOutcome)
        requires
            old(self).wf(),
        ensures
            final(self).wf(),
            !old(self)@.contains_key(worker_id) ==> r == HeartbeatOutcome::Unknown,
            old(self)@.contains_key(worker_id) && seq <= old(self)@[worker_id].seq ==> r
                == HeartbeatOutcome::Stale,
            old(self)@.contains_key(worker_id) && seq > old(self)@[worker_id].seq ==> r
                == HeartbeatOutcome::Updated,
            r == HeartbeatOutcome::Updated ==> final(self)@ == old(self)@.insert(
                worker_id,
                after_heartbeat(old(self)@[worker_id], seq, credits, now),
            ),
            r == HeartbeatOutcome::Updated ==> final(self).total_credits() == old(
                self,
            ).total_credits() - old(self)@[worker_id].credits + credits,
            r != HeartbeatOutcome::Updated ==> final(self)@ == old(self)@,
            r != HeartbeatOutcome::Updated ==> final(self).total_credits() == old(
                self,
            ).total_credits(),
            seqs_kept(old(self)@, final(self)@),
    {
        match self.find(worker_id) {
            None => HeartbeatOutcome::Unknown,
            Some(i) => {
                proof {
                    lemma_view_at(self.workers@, i as int);
                }
                if seq <= self.workers[i].seq {
                    return HeartbeatOutcome::Stale;
                }
                let old_w = &self.workers[i];
                let w = WorkerInfo {
                    endpoint: old_w.endpoint.clone(),
                    id: old_w.id,
                    credits,
                    seq,
                    last_seen: now,
                };
                proof {
                    lemma_view_update(self.workers@, i as int, w);
                    lemma_credit_sum_update(self.workers@, i as int, w);
                }
                self.workers.set(i, w);
                HeartbeatOutcome::Updated
            },
        }
    }

    /// The record of `worker_id`, if it is registered.
    pub fn get_worker_info(&self, worker_id: u128) -> (r: Option<WorkerInfo>)
        requires
            self.wf(),
        ensures
            r == (if self@.contains_key(worker_id) {
                Some(self@[worker_id])
            } else {
                None::<WorkerInfo>
            }),
    {
        match self.find(worker_id) {
            Some(i) => {
                proof {
                    lemma_view_at(self.workers@, i as int);
                }
                Some(self.workers[i].duplicate())
            },
            None => None,
        }
    }

    /// Chooses the worker with the most credits (ties to the lowest
    /// identifier), takes one credit from it and returns its identifier and
    /// endpoint. Returns `None`, changing nothing, when no worker has a credit.
    pub fn pick_and_decrement(&mut self) -> (r: Option<(u128, String)>)
        requires
            old(self).wf(),
        ensures
            final(self).wf(),
            match r {
                Some((id, endpoint)) => {
                    &&& is_pick(old(self)@, id)
                    &&& endpoint@ == old(self)@[id].endpoint@
                    &&& final(self)@ == old(self)@.insert(
                        id,
                        with_credits(old(self)@[id], (old(self)@[id].credits - 1) as usize),
                    )
                    &&& final(self).total_credits() == old(self).total_credits() - 1
                },
                None => {
                    &&& !has_credit(old(self)@)
                    &&& final(self)@ == old(self)@
                    &&& final(self).total_credits() == old(self).total_credits()
                },
            },
            seqs_kept(old(self)@, final(self)@),
    {
        let n = self.workers.len();
        let mut best: Option<usize> = None;
        let mut i: usize = 0;
        while i < n
            invariant
                n == self.workers@.len(),
                i <= n,
                match best {
                    None => forall|j: int| 0 <= j < i ==> self.workers@[j].credits == 0,
                    Some(b) => {
                        &&& b < i
                        &&& self.workers@[b as int].credits > 0
                        &&& forall|j: int|
                            0 <= j < i ==> ranks_over(self.workers@[b as int], self.workers@[j])
                    },
                },
            decreases n - i,
        {
            let w = &self.workers[i];
            if w.credits > 0 {
                match best {
                    None => {
                        best = Some(i);
                    },
                    Some(b) => {
                        let cur = &self.workers[b];
                        if w.credits > cur.credits || (w.credits == cur.credits && w.id < cur.id) {
                            best = Some(i);
                        }
                    },
                }
            }
            i += 1;
        }
        match best {
            None => {
                proof {
                    assert forall|k: u128| #[trigger]
                        self@.contains_key(k) implies self@[k].credits == 0 by {
                        lemma_view_has(self.workers@, k);
                    }
                }
                None
            },
            Some(b) => {
                let id = self.workers[b].id;
                let endpoint = self.workers[b].endpoint.clone();
                let w = with_credits_of(&self.workers[b], self.workers[b].credits - 1);
                proof {
                    lemma_view_at(self.workers@, b as int);
                    assert forall|k: u128| #[trigger]
                        self@.contains_key(k) implies self@[k].credits < self@[id].credits || (
                        self@[k].credits == self@[id].credits && id <= k) by {
                        lemma_view_has(self.workers@, k);
                        let j = choose|j: int|
                            0 <= j < self.workers@.len() && self.workers@[j].id == k
                                && self@[k] == self.workers@[j];
                        assert(ranks_over(self.workers@[b as int], self.workers@[j]));
                    }
                    lemma_view_update(self.workers@, b as int, w);
                    lemma_credit_sum_update(self.workers@, b as int, w);
                }
                self.workers.set(b, w);
                Some((id, endpoint))
            },
        }
    }

    /// Removes every worker not seen within `max_age` milliseconds before
    /// `now`, as if each had unregistered.
    pub fn evict_stale(&mut self, now: u64, max_age: u64)
        requires
            old(self).wf(),
        ensures
            final(self).wf(),
            final(self)@ == live_workers(old(self)@, now, max_age),
            seqs_kept(old(self)@, final(self)@),
    {
        let mut i: usize = 0;
        while i < self.workers.len()
            invariant
                self.wf(),
                i <= self.workers@.len(),
                forall|k: u128| #[trigger]
                    self@.contains_key(k) ==> old(self)@.contains_key(k) && self@[k] == old(
                        self,
                    )@[k],
                forall|k: u128| #[trigger]
                    old(self)@.contains_key(k) && !is_stale(old(self)@[k], now, max_age)
                        ==> self@.contains_key(k),
                forall|j: int| 0 <= j < i ==> !is_stale(#[trigger] self.workers@[j], now, max_age),
            decreases self.workers@.len() - i,
        {
            let w = &self.workers[i];
            if now > w.last_seen && now - w.last_seen > max_age {
                let ghost before = self@;
                let ghost gone = self.workers@[i as int].id;
                proof {
                    lemma_view_at(self.workers@, i as int);
                    lemma_view_remove(self.workers@, i as int);
                }
                self.workers.remove(i);
                proof {
                    assert(self@ == before.remove(gone));
                    assert forall|k: u128| #[trigger]
                        self@.contains_key(k) implies before.contains_key(k) && self@[k]
                        == before[k] by {}
                }
            } else {
                i += 1;
            }
        }
        proof {
            assert forall|k: u128| #[trigger]
                self@.contains_key(k) implies !is_stale(self@[k], now, max_age) by {
                lemma_view_has(self.workers@, k);
            }
            assert(self@ =~= live_workers(old(self)@, now, max_age));
        }
    }

    /// A copy of every record, one per registered worker.
    pub fn snapshot(&self) -> (r: Vec<WorkerInfo>)
        requires
            self.wf(),
        ensures
            ids_unique(r@),
            records_as_map(r@) == self@,
            credit_sum(r@) == self.total_credits(),
    {
        let mut out: Vec<WorkerInfo> = Vec::new();
        let mut i: usize = 0;
        while i < self.workers.len()
            invariant
                i <= self.workers@.len(),
                out@ == self.workers@.subrange(0, i as int),
            decreases self.workers@.len() - i,
        {
            out.push(self.workers[i].duplicate());
            i += 1;
        }
        assert(out@ =~= self.workers@);
        out
    }
}

/// A copy of `w` with `credits` as its balance.
fn with_credits_of(w: &WorkerInfo, credits: usize) -> (r: WorkerInfo)
    ensures
        r == with_credits(*w, credits),
{
    WorkerInfo {
        endpoint: w.endpoint.clone(),
        id: w.id,
        credits,
        seq: w.seq,
        last_seen: w.last_seen,
    }
}

} // verus!
