//! The worker registry: an ordered list of backend addresses, a per-worker
//! connection count, and the round-robin cursor, together with the two
//! selection strategies that operate on it.

use vstd::prelude::*;

verus! {

/// A worker is identified by its base address (host:port or base URL).
pub type Worker = String;

#[derive(Debug, Clone, Default, PartialEq, Eq, Structural)]
pub enum LoadBalancerError {
    /// Construction was attempted with no workers at all.
    EmptyWorkerList,
    /// A read path named a worker the registry does not know.
    UnknownWorker,
    /// An index reached past the end of the worker list.
    IndexOutOfRange,
    /// A rewritten request target is not a valid URI.
    MalformedTarget,
    #[default]
    UnexpectedError,
}

#[derive(Debug, Clone, Default, PartialEq, Eq, Structural)]
pub enum LoadBalancerAlgorithm {
    #[default]
    RoundRobin,
    LeastConnections,
}

/// The mathematical state of a registry: the worker addresses in order,
/// their connection counts, and the round-robin cursor.
#[verifier::ext_equal]
pub struct RegistryModel {
    pub hosts: Seq<Seq<char>>,
    pub counts: Seq<int>,
    pub cursor: int,
}

/// No two workers share an address.
pub open spec fn distinct_hosts(hosts: Seq<Seq<char>>) -> bool {
    forall|i: int, j: int| 0 <= i < j < hosts.len() ==> hosts[i] != hosts[j]
}

/// Registry well-formedness: at least one worker, one count per worker,
/// the cursor inside the list, and addresses pairwise distinct.
pub open spec fn model_wf(m: RegistryModel) -> bool {
    &&& m.hosts.len() > 0
    &&& m.counts.len() == m.hosts.len()
    &&& 0 <= m.cursor < m.hosts.len()
    &&& distinct_hosts(m.hosts)
}

/// The index of the first minimum of a sequence (0 for the empty sequence).
pub open spec fn first_min_index(s: Seq<int>) -> int
    decreases s.len(),
{
    if s.len() <= 1 {
        0
    } else {
        let m = first_min_index(s.drop_last());
        if s.last() < s[m] {
            s.len() - 1
        } else {
            m
        }
    }
}

/// The index a strategy selects: round robin takes the cursor, least
/// connections the first worker with the minimum count.
pub open spec fn select_index(m: RegistryModel, lba: LoadBalancerAlgorithm) -> int {
    match lba {
        LoadBalancerAlgorithm::RoundRobin => m.cursor,
        LoadBalancerAlgorithm::LeastConnections => first_min_index(m.counts),
    }
}

/// The registry state after one selection: the chosen worker's count grows
/// by one and the cursor moves just past the chosen index.
pub open spec fn select_model(m: RegistryModel, lba: LoadBalancerAlgorithm) -> RegistryModel {
    let s = select_index(m, lba);
    RegistryModel {
        hosts: m.hosts,
        counts: m.counts.update(s, m.counts[s] + 1),
        cursor: (s + 1) % (m.hosts.len() as int),
    }
}

/// Whether the registry knows a worker with address `w`.
pub open spec fn model_has_host(m: RegistryModel, w: Seq<char>) -> bool {
    exists|i: int| 0 <= i < m.hosts.len() && m.hosts[i] == w
}

/// The index of the worker with address `w` (meaningful when
/// `model_has_host(m, w)` holds; unique under `distinct_hosts`).
pub open spec fn model_host_index(m: RegistryModel, w: Seq<char>) -> int {
    choose|i: int| 0 <= i < m.hosts.len() && m.hosts[i] == w
}

/// The registry state after adding `delta` to the count of the worker with
/// address `w`; unchanged when no worker has that address.
pub open spec fn adjust_model(m: RegistryModel, w: Seq<char>, delta: int) -> RegistryModel {
    if model_has_host(m, w) {
        let i = model_host_index(m, w);
        RegistryModel { hosts: m.hosts, counts: m.counts.update(i, m.counts[i] + delta), cursor: m.cursor }
    } else {
        m
    }
}

pub fn default_worker() -> (r: Worker)
    ensures
        r@.len() == 0,
{
    proof {
        reveal_strlit("");
    }
    "".to_owned()
}

#[derive(Debug)]
pub struct LoadBalancer {
    pub worker_hosts: Vec<Worker>,
    pub next_worker: usize,
    pub worker_conns: Vec<isize>,
}

impl LoadBalancer {
    /// The worker addresses, in list order.
    pub open spec fn hosts(&self) -> Seq<Seq<char>> {
        self.worker_hosts@.map_values(|w: Worker| w@)
    }

    /// The connection counts, one per worker, in list order.
    pub open spec fn counts(&self) -> Seq<int> {
        self.worker_conns@.map_values(|c: isize| c as int)
    }

    pub open spec fn model(&self) -> RegistryModel {
        RegistryModel { hosts: self.hosts(), counts: self.counts(), cursor: self.next_worker as int }
    }

    pub open spec fn wf(&self) -> bool {
        model_wf(self.model())
    }

    pub open spec fn has_host(&self, w: Seq<char>) -> bool {
        model_has_host(self.model(), w)
    }

    pub open spec fn host_index(&self, w: Seq<char>) -> int {
        model_host_index(self.model(), w)
    }

    /// Builds a registry over the given workers, every count starting at
    /// zero and the cursor at the first worker; an empty list is the one
    /// rejected input.
    pub fn new(wvec: Vec<Worker>) -> (r: Result<Self, LoadBalancerError>)
        requires
            distinct_hosts(wvec@.map_values(|w: Worker| w@)),
        ensures
            r is Err <==> wvec@.len() == 0,
            r is Err ==> r == Err::<Self, LoadBalancerError>(LoadBalancerError::EmptyWorkerList),
            r matches Ok(lb) ==> {
                &&& lb.wf()
                &&& lb.hosts() == wvec@.map_values(|w: Worker| w@)
                &&& lb.counts() == Seq::new(wvec@.len(), |i: int| 0int)
                &&& lb.model().cursor == 0
            },
    {
        if wvec.is_empty() {
            return Err(LoadBalancerError::EmptyWorkerList);
        }

        let mut worker_hosts: Vec<Worker> = Vec::new();
        let mut worker_conns: Vec<isize> = Vec::new();

        let mut k: usize = 0;
        while k < wvec.len()
            invariant
                k <= wvec.len(),
                worker_hosts@.len() == k,
                worker_conns@.len() == k,
                forall|j: int| 0 <= j < k ==> worker_hosts@[j]@ == wvec@[j]@,
                forall|j: int| 0 <= j < k ==> worker_conns@[j] == 0isize,
            decreases wvec.len() - k,
        {
            worker_hosts.push(wvec[k].clone());
            worker_conns.push(0);
            k += 1;
        }

        let lb = Self { worker_hosts, next_worker: 0, worker_conns };
        proof {
            assert(lb.hosts() =~= wvec@.map_values(|w: Worker| w@));
            assert(lb.counts() =~= Seq::new(wvec@.len(), |i: int| 0int));
        }
        Ok(lb)
    }

    /// Adds `uvalue` to the named worker's count; a no-op when the registry
    /// does not know the worker.
    fn update_conn(&mut self, worker: &Worker, uvalue: isize)
        requires
            old(self).wf(),
            old(self).has_host(worker@) ==> isize::MIN
                <= old(self).counts()[old(self).host_index(worker@)] + uvalue
                <= isize::MAX,
        ensures
            final(self).wf(),
            final(self).model() == adjust_model(old(self).model(), worker@, uvalue as int),
    {
        let n = self.worker_hosts.len();
        let mut i: usize = 0;
        while i < n
            invariant
                *self == *old(self),
                self.wf(),
                n == self.hosts().len(),
                i <= n,
                forall|j: int| 0 <= j < i ==> self.hosts()[j] != worker@,
                old(self).has_host(worker@) ==> isize::MIN
                    <= old(self).counts()[old(self).host_index(worker@)] + uvalue
                    <= isize::MAX,
            decreases n - i,
        {
            if self.worker_hosts[i] == *worker {
                proof {
                    lemma_host_index_unique(self.model(), worker@, i as int);
                }
                let c = self.worker_conns[i];
                self.worker_conns[i] = c + uvalue;
                proof {
                    assert(self.hosts() =~= old(self).hosts());
                    assert(self.counts() =~= old(self).counts().update(
                        i as int,
                        old(self).counts()[i as int] + uvalue,
                    ));
                    assert(self.model() =~= adjust_model(old(self).model(), worker@, uvalue as int));
                }
                return;
            }
            i += 1;
        }
        proof {
            assert(!self.has_host(worker@));
            assert(self.model() =~= adjust_model(old(self).model(), worker@, uvalue as int));
        }
    }

    /// Adds one to the named worker's count.
    fn inc_conn(&mut self, worker: &Worker)
        requires
            old(self).wf(),
            old(self).has_host(worker@) ==> old(self).counts()[old(self).host_index(worker@)] + 1
                <= isize::MAX,
        ensures
            final(self).wf(),
            final(self).model() == adjust_model(old(self).model(), worker@, 1),
    {
        self.update_conn(worker, 1);
    }

    /// Takes one off the named worker's count: the completion or discard half
    /// of the accounting protocol. The count may go negative; that state is
    /// kept, not clamped.
    pub fn dec_conn(&mut self, worker: &Worker)
        requires
            old(self).wf(),
            old(self).has_host(worker@) ==> isize::MIN
                < old(self).counts()[old(self).host_index(worker@)],
        ensures
            final(self).wf(),
            final(self).model() == adjust_model(old(self).model(), worker@, -1),
    {
        self.update_conn(worker, -1);
    }

    /// The worker at `index`, or `IndexOutOfRange` past the end of the list.
    pub fn worker(&self, index: usize) -> (r: Result<Worker, LoadBalancerError>)
        ensures
            index < self.hosts().len() ==> (r matches Ok(w) && w@ == self.hosts()[index as int]),
            index >= self.hosts().len() ==> r == Err::<Worker, LoadBalancerError>(
                LoadBalancerError::IndexOutOfRange,
            ),
    {
        if index < self.worker_hosts.len() {
            Ok(self.worker_hosts[index].clone())
        } else {
            Err(LoadBalancerError::IndexOutOfRange)
        }
    }

    /// The number of workers.
    pub fn host_len(&self) -> (r: usize)
        ensures
            r == self.hosts().len(),
    {
        self.worker_hosts.len()
    }

    /// The named worker's current count, or `UnknownWorker` when the registry
    /// does not know the worker.
    pub fn get_conn(&self, worker: &Worker) -> (r: Result<isize, LoadBalancerError>)
        requires
            self.wf(),
        ensures
            self.has_host(worker@) ==> (r matches Ok(c) && c as int == self.counts()[self.host_index(
                worker@,
            )]),
            !self.has_host(worker@) ==> r == Err::<isize, LoadBalancerError>(
                LoadBalancerError::UnknownWorker,
            ),
    {
        let n = self.worker_hosts.len();
        let mut i: usize = 0;
        while i < n
            invariant
                self.wf(),
                n == self.hosts().len(),
                i <= n,
                forall|j: int| 0 <= j < i ==> self.hosts()[j] != worker@,
            decreases n - i,
        {
            if self.worker_hosts[i] == *worker {
                proof {
                    lemma_host_index_unique(self.model(), worker@, i as int);
                }
                return Ok(self.worker_conns[i]);
            }
            i += 1;
        }
        Err(LoadBalancerError::UnknownWorker)
    }
}

/// Selection through one entry point parameterized by the algorithm: the
/// chosen worker is returned, its count grows by one, and the cursor moves
/// just past the chosen index, all in one step.
pub trait NextWorker {
    /// Well-formedness of the balancer's registry.
    spec fn nw_wf(&self) -> bool;

    /// The balancer's registry state as a model.
    spec fn nw_model(&self) -> RegistryModel;

    fn next_worker(&mut self, lba: LoadBalancerAlgorithm) -> (r: Worker)
        requires
            old(self).nw_wf(),
            old(self).nw_model().counts[select_index(old(self).nw_model(), lba)] + 1
                <= isize::MAX,
        ensures
            final(self).nw_wf(),
            final(self).nw_model() == select_model(old(self).nw_model(), lba),
            r@ == old(self).nw_model().hosts[select_index(old(self).nw_model(), lba)],
    ;
}

impl NextWorker for LoadBalancer {
    open spec fn nw_wf(&self) -> bool {
        self.wf()
    }

    open spec fn nw_model(&self) -> RegistryModel {
        self.model()
    }

    fn next_worker(&mut self, lba: LoadBalancerAlgorithm) -> (r: Worker) {
        let len = self.host_len();
        match lba {
            LoadBalancerAlgorithm::RoundRobin => next_worker_round_robin(self, len),
            LoadBalancerAlgorithm::LeastConnections => next_worker_least_connections(self, len),
        }
    }
}

/// One round-robin selection: the worker under the cursor.
fn next_worker_round_robin(lb: &mut LoadBalancer, len: usize) -> (r: Worker)
    requires
        old(lb).wf(),
        len == old(lb).hosts().len(),
        old(lb).counts()[old(lb).model().cursor] + 1 <= isize::MAX,
    ensures
        final(lb).wf(),
        final(lb).model() == select_model(old(lb).model(), LoadBalancerAlgorithm::RoundRobin),
        r@ == old(lb).hosts()[old(lb).model().cursor],
{
    let idx = lb.next_worker;
    let worker = lb.worker_hosts[idx].clone();
    update_state(lb, &worker, idx, len);
    proof {
        assert(lb.model() =~= select_model(old(lb).model(), LoadBalancerAlgorithm::RoundRobin));
    }
    worker
}

/// One least-connections selection: a left-to-right scan keeps the first
/// worker with the minimum count.
fn next_worker_least_connections(lb: &mut LoadBalancer, len: usize) -> (r: Worker)
    requires
        old(lb).wf(),
        len == old(lb).hosts().len(),
        old(lb).counts()[first_min_index(old(lb).counts())] + 1 <= isize::MAX,
    ensures
        final(lb).wf(),
        final(lb).model() == select_model(old(lb).model(), LoadBalancerAlgorithm::LeastConnections),
        r@ == old(lb).hosts()[first_min_index(old(lb).counts())],
{
    let ghost counts = old(lb).counts();
    let mut first = true;
    let mut worker = default_worker();
    let mut conn: isize = 0;
    let mut worker_index: usize = 0;
    let mut i: usize = 0;
    while i < len
        invariant
            *lb == *old(lb),
            lb.wf(),
            len == lb.hosts().len(),
            counts == lb.counts(),
            i <= len,
            i == 0 ==> first,
            i > 0 ==> {
                &&& !first
                &&& worker_index < i
                &&& worker_index as int == first_min_index(counts.take(i as int))
                &&& conn as int == counts[worker_index as int]
                &&& worker@ == lb.hosts()[worker_index as int]
            },
        decreases len - i,
    {
        let wconn = lb.worker_conns[i];
        if first || wconn < conn {
            conn = wconn;
            worker_index = i;
            worker = lb.worker_hosts[i].clone();
        }
        first = false;
        proof {
            assert(counts.take(i as int + 1).drop_last() =~= counts.take(i as int));
            assert(counts.take(i as int + 1).last() == counts[i as int]);
        }
        i += 1;
    }
    proof {
        assert(counts.take(len as int) =~= counts);
    }
    update_state(lb, &worker, worker_index, len);
    proof {
        assert(lb.model() =~= select_model(old(lb).model(), LoadBalancerAlgorithm::LeastConnections));
    }
    worker
}

/// The shared tail of both strategies: count the selection against the chosen
/// worker and move the cursor just past the chosen index.
fn update_state(lb: &mut LoadBalancer, worker: &Worker, worker_index: usize, len: usize)
    requires
        old(lb).wf(),
        len == old(lb).hosts().len(),
        worker_index < len,
        worker@ == old(lb).hosts()[worker_index as int],
        old(lb).counts()[worker_index as int] + 1 <= isize::MAX,
    ensures
        final(lb).wf(),
        final(lb).hosts() == old(lb).hosts(),
        final(lb).counts() == old(lb).counts().update(
            worker_index as int,
            old(lb).counts()[worker_index as int] + 1,
        ),
        final(lb).model().cursor == (worker_index + 1) % (len as int),
{
    proof {
        lemma_host_index_unique(lb.model(), worker@, worker_index as int);
    }
    lb.inc_conn(worker);
    lb.next_worker = (worker_index + 1) % len;
}

/// The first minimum of a non-empty sequence: its index is in range, its
/// value is no larger than any element, and every earlier element is
/// strictly larger.
pub proof fn lemma_first_min_index(s: Seq<int>)
    requires
        s.len() > 0,
    ensures
        0 <= first_min_index(s) < s.len(),
        forall|j: int| 0 <= j < s.len() ==> s[first_min_index(s)] <= #[trigger] s[j],
        forall|j: int| 0 <= j < first_min_index(s) ==> #[trigger] s[j] > s[first_min_index(s)],
    decreases s.len(),
{
    if s.len() > 1 {
        lemma_first_min_index(s.drop_last());
        assert(forall|j: int| 0 <= j < s.len() - 1 ==> s.drop_last()[j] == s[j]);
    }
}

/// Whatever the algorithm, the selected index lies inside the worker list.
pub proof fn lemma_select_index_in_range(m: RegistryModel, lba: LoadBalancerAlgorithm)
    requires
        model_wf(m),
    ensures
        0 <= select_index(m, lba) < m.hosts.len(),
{
    if lba is LeastConnections {
        lemma_first_min_index(m.counts);
    }
}

/// A found position in a registry with distinct addresses is the one position
/// `model_host_index` names.
pub proof fn lemma_host_index_unique(m: RegistryModel, w: Seq<char>, i: int)
    requires
        distinct_hosts(m.hosts),
        0 <= i < m.hosts.len(),
        m.hosts[i] == w,
    ensures
        model_has_host(m, w),
        model_host_index(m, w) == i,
{
    assert(model_has_host(m, w));
    let j = model_host_index(m, w);
    if i < j {
        assert(m.hosts[i] != m.hosts[j]);
    } else if j < i {
        assert(m.hosts[j] != m.hosts[i]);
    }
}

} // verus!
