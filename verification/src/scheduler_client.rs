//! The workers that this gateway holds on lease from the scheduler, and what
//! the scheduler's replies to lease and return requests do to them.
use vstd::prelude::*;
use crate::text::{chars_of, push_str, str_eq, to_string};

verus! {

/// A worker leased from the scheduler.
#[derive(Debug, Clone, PartialEq, Eq, PartialOrd, Ord)]
pub struct LeasedWorker {
    pub tenant: String,
    pub namespace: String,
    pub funcname: String,
    pub fprevision: i64,
    pub id: String,
}

/// A leased worker as plain values: tenant, namespace, function, revision,
/// worker id.
pub type WorkerKey = (Seq<char>, Seq<char>, Seq<char>, i64, Seq<char>);

impl View for LeasedWorker {
    type V = WorkerKey;

    open spec fn view(&self) -> WorkerKey {
        (self.tenant@, self.namespace@, self.funcname@, self.fprevision, self.id@)
    }
}

impl LeasedWorker {
    /// A worker record from borrowed fields.
    pub fn new(tenant: &str, namespace: &str, funcname: &str, fprevision: i64, id: &str) -> (w: Self)
        ensures
            w@ == (tenant@, namespace@, funcname@, fprevision, id@),
    {
        LeasedWorker {
            tenant: to_string(tenant),
            namespace: to_string(namespace),
            funcname: to_string(funcname),
            fprevision,
            id: to_string(id),
        }
    }

    /// Whether `self` and `other` are the same worker.
    pub fn same(&self, other: &LeasedWorker) -> (r: bool)
        ensures
            r == (self@ == other@),
    {
        str_eq(self.tenant.as_str(), other.tenant.as_str()) && str_eq(
            self.namespace.as_str(),
            other.namespace.as_str(),
        ) && str_eq(self.funcname.as_str(), other.funcname.as_str()) && self.fprevision
            == other.fprevision && str_eq(self.id.as_str(), other.id.as_str())
    }

    /// A copy of the record.
    pub fn copy(&self) -> (w: Self)
        ensures
            w@ == self@,
    {
        LeasedWorker {
            tenant: self.tenant.clone(),
            namespace: self.namespace.clone(),
            funcname: self.funcname.clone(),
            fprevision: self.fprevision,
            id: self.id.clone(),
        }
    }
}

/// The set of workers held on lease; no worker is held twice.
pub struct LeasedWorkers {
    workers: Vec<LeasedWorker>,
}

impl View for LeasedWorkers {
    type V = Set<WorkerKey>;

    closed spec fn view(&self) -> Set<WorkerKey> {
        Set::new(|k: WorkerKey| exists|i: int| 0 <= i < self.workers@.len() && #[trigger] self.workers@[i]@ == k)
    }
}

impl LeasedWorkers {
    /// No worker is held twice.
    pub closed spec fn wf(&self) -> bool {
        forall|i: int, j: int|
            0 <= i < j < self.workers@.len() ==> #[trigger] self.workers@[i]@ != #[trigger] self.workers@[j]@
    }

    /// No worker held.
    pub fn new() -> (s: Self)
        ensures
            s.wf(),
            s@ == Set::<WorkerKey>::empty(),
    {
        let s = LeasedWorkers { workers: Vec::new() };
        assert(s@ =~= Set::<WorkerKey>::empty());
        s
    }

    /// The position of worker `w`, if held.
    fn position(&self, w: &LeasedWorker) -> (r: Option<usize>)
        ensures
            match r {
                Some(i) => i < self.workers@.len() && self.workers@[i as int]@ == w@,
                None => forall|i: int| 0 <= i < self.workers@.len() ==> self.workers@[i]@ != w@,
            },
    {
        let mut i: usize = 0;
        while i < self.workers.len()
            invariant
                i <= self.workers@.len(),
                forall|k: int| 0 <= k < i ==> self.workers@[k]@ != w@,
            decreases self.workers@.len() - i,
        {
            if self.workers[i].same(w) {
                return Some(i);
            }
            i += 1;
        }
        None
    }

    /// Whether worker `w` is held.
    pub fn contains(&self, w: &LeasedWorker) -> (b: bool)
        ensures
            b == self@.contains(w@),
    {
        match self.position(w) {
            Some(i) => {
                assert(self@.contains(w@)) by {
                    assert(self.workers@[i as int]@ == w@);
                }
                true
            },
            None => false,
        }
    }

    /// Holds worker `w` (no change where it is held already).
    pub fn insert(&mut self, w: LeasedWorker)
        requires
            old(self).wf(),
        ensures
            final(self).wf(),
            final(self)@ == old(self)@.insert(w@),
    {
        match self.position(&w) {
            Some(i) => {
                assert(self@ =~= self@.insert(w@)) by {
                    assert(self.workers@[i as int]@ == w@);
                }
            },
            None => {
                let ghost before = self.workers@;
                self.workers.push(w);
                assert(self.workers@[before.len() as int]@ == w@);
                assert forall|k: WorkerKey| self@.contains(k) == old(self)@.insert(w@).contains(k) by {
                    if old(self)@.contains(k) {
                        let i = choose|i: int| 0 <= i < before.len() && #[trigger] before[i]@ == k;
                        assert(self.workers@[i]@ == k);
                    }
                    if self@.contains(k) && k != w@ {
                        let i = choose|i: int| 0 <= i < self.workers@.len() && #[trigger] self.workers@[i]@ == k;
                        assert(i < before.len());
                        assert(before[i]@ == k);
                    }
                }
                assert(self@ =~= old(self)@.insert(w@));
            },
        }
    }

    /// Stops holding worker `w` (no change where it is not held).
    pub fn remove(&mut self, w: &LeasedWorker)
        requires
            old(self).wf(),
        ensures
            final(self).wf(),
            final(self)@ == old(self)@.remove(w@),
    {
        match self.position(w) {
            None => {
                assert forall|k: WorkerKey| self@.contains(k) implies k != w@ by {
                    let i = choose|i: int| 0 <= i < self.workers@.len() && #[trigger] self.workers@[i]@ == k;
                }
                assert(self@ =~= self@.remove(w@));
            },
            Some(j) => {
                let ghost before = self.workers@;
                self.workers.remove(j);
                assert forall|k: WorkerKey| self@.contains(k) == old(self)@.remove(w@).contains(k) by {
                    if old(self)@.contains(k) && k != w@ {
                        let i = choose|i: int| 0 <= i < before.len() && #[trigger] before[i]@ == k;
                        if i < j {
                            assert(self.workers@[i]@ == k);
                        } else {
                            assert(i != j);
                            assert(self.workers@[i - 1]@ == k);
                        }
                    }
                    if self@.contains(k) {
                        let i = choose|i: int| 0 <= i < self.workers@.len() && #[trigger] self.workers@[i]@ == k;
                        if i < j {
                            assert(before[i]@ == k);
                            assert(before[i]@ != before[j as int]@);
                        } else {
                            assert(before[i + 1]@ == k);
                            assert(before[j as int]@ != before[i + 1]@);
                        }
                    }
                }
                assert(self@ =~= old(self)@.remove(w@));
            },
        }
    }

    /// The held workers, each once (the list that a reconnect reports to a
    /// new scheduler).
    pub fn workers(&self) -> (r: Vec<LeasedWorker>)
        requires
            self.wf(),
        ensures
            r@.len() == self@.len(),
            forall|i: int| 0 <= i < r@.len() ==> self@.contains(#[trigger] r@[i]@),
            forall|k: WorkerKey| self@.contains(k) ==> exists|i: int| 0 <= i < r@.len() && #[trigger] r@[i]@ == k,
    {
        let mut r: Vec<LeasedWorker> = Vec::new();
        let mut i: usize = 0;
        while i < self.workers.len()
            invariant
                i <= self.workers@.len(),
                r@.len() == i,
                forall|k: int| 0 <= k < i ==> #[trigger] r@[k]@ == self.workers@[k]@,
            decreases self.workers@.len() - i,
        {
            r.push(self.workers[i].copy());
            i += 1;
        }
        proof {
            self.lemma_len();
            assert forall|j: int| 0 <= j < r@.len() implies self@.contains(#[trigger] r@[j]@) by {
                assert(self.workers@[j]@ == r@[j]@);
            }
            assert forall|k: WorkerKey| self@.contains(k) implies exists|j: int| 0 <= j < r@.len() && #[trigger] r@[j]@ == k by {
                let j = choose|j: int| 0 <= j < self.workers@.len() && #[trigger] self.workers@[j]@ == k;
                assert(r@[j]@ == k);
            }
        }
        r
    }

    /// The set has as many members as the list has entries.
    proof fn lemma_len(&self)
        requires
            self.wf(),
        ensures
            self@.finite(),
            self@.len() == self.workers@.len(),
    {
        let ks = self.workers@.map_values(|w: LeasedWorker| w@);
        assert(ks.no_duplicates()) by {
            assert forall|i: int, j: int| 0 <= i < ks.len() && 0 <= j < ks.len() && i != j implies ks[i] != ks[j] by {
                if i < j {
                    assert(self.workers@[i]@ != self.workers@[j]@);
                } else {
                    assert(self.workers@[j]@ != self.workers@[i]@);
                }
            }
        }
        assert(self@ =~= ks.to_set()) by {
            assert forall|k: WorkerKey| self@.contains(k) == ks.to_set().contains(k) by {
                if self@.contains(k) {
                    let i = choose|i: int| 0 <= i < self.workers@.len() && #[trigger] self.workers@[i]@ == k;
                    assert(ks[i] == k);
                    assert(ks.contains(k));
                }
                if ks.contains(k) {
                    let i = choose|i: int| 0 <= i < ks.len() && ks[i] == k;
                    assert(self.workers@[i]@ == k);
                }
            }
        }
        ks.unique_seq_to_set();
    }

    /// Applies the scheduler's reply to a lease request for `tenant`,
    /// `namespace`, `funcname` at `fprevision`: an empty `error` grants worker
    /// `id`, which is then held; any other reply is refused with its error.
    pub fn on_lease_reply(
        &mut self,
        tenant: &str,
        namespace: &str,
        funcname: &str,
        fprevision: i64,
        id: &str,
        error: &str,
    ) -> (r: Result<String, String>)
        requires
            old(self).wf(),
        ensures
            final(self).wf(),
            error@.len() == 0 ==> (r matches Ok(g) && g@ == id@ && final(self)@ == old(self)@.insert(
                (tenant@, namespace@, funcname@, fprevision, id@),
            )),
            error@.len() != 0 ==> (r matches Err(m) && m@ == error@ && final(self)@ == old(self)@),
    {
        if chars_of(error).len() == 0 {
            self.insert(LeasedWorker::new(tenant, namespace, funcname, fprevision, id));
            Ok(to_string(id))
        } else {
            Err(to_string(error))
        }
    }

    /// Applies the scheduler's reply to the return of worker `id`: the worker
    /// is no longer held whatever the reply; a non-empty `error` is reported.
    pub fn on_return_reply(
        &mut self,
        tenant: &str,
        namespace: &str,
        funcname: &str,
        fprevision: i64,
        id: &str,
        error: &str,
    ) -> (r: Result<(), String>)
        requires
            old(self).wf(),
        ensures
            final(self).wf(),
            final(self)@ == old(self)@.remove((tenant@, namespace@, funcname@, fprevision, id@)),
            error@.len() == 0 ==> r is Ok,
            error@.len() != 0 ==> (r matches Err(m) && m@ == "Return Worker fail with error "@ + error@),
    {
        let w = LeasedWorker::new(tenant, namespace, funcname, fprevision, id);
        self.remove(&w);
        if chars_of(error).len() == 0 {
            Ok(())
        } else {
            let mut m = to_string("Return Worker fail with error ");
            push_str(&mut m, error);
            Err(m)
        }
    }
}

/// The outcome of the scheduler's reply to a gateway refresh.
pub fn refresh_reply(error: &str) -> (r: Result<(), String>)
    ensures
        error@.len() == 0 ==> r is Ok,
        error@.len() != 0 ==> (r matches Err(m) && m@ == "ReturnGateway fail with error "@ + error@),
{
    if chars_of(error).len() == 0 {
        Ok(())
    } else {
        let mut m = to_string("ReturnGateway fail with error ");
        push_str(&mut m, error);
        Err(m)
    }
}

/// A leased worker is held after its grant and not after its return.
pub proof fn lemma_lease_then_return(held: Set<WorkerKey>, k: WorkerKey)
    ensures
        held.insert(k).contains(k),
        !held.insert(k).remove(k).contains(k),
        !held.contains(k) ==> held.insert(k).remove(k) == held,
{
    if !held.contains(k) {
        assert(held.insert(k).remove(k) =~= held);
    }
}

} // verus!
