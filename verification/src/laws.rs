//! The library-wide laws: properties of the selection strategies, stated and
//! proved over the registry model that the executable contracts speak of.

use vstd::prelude::*;

use vstd::arithmetic::div_mod::lemma_fundamental_div_mod;
use vstd::arithmetic::div_mod::lemma_fundamental_div_mod_converse;
use vstd::arithmetic::div_mod::lemma_mod_bound;

use crate::lb_service::adjust_model;
use crate::lb_service::lemma_first_min_index;
use crate::lb_service::lemma_host_index_unique;
use crate::lb_service::lemma_select_index_in_range;
use crate::lb_service::model_wf;
use crate::lb_service::select_index;
use crate::lb_service::select_model;
use crate::lb_service::LoadBalancerAlgorithm;
use crate::lb_service::RegistryModel;

verus! {

/// The registry state after `n` consecutive selections under one algorithm.
pub open spec fn select_model_n(m: RegistryModel, lba: LoadBalancerAlgorithm, n: nat) -> RegistryModel
    decreases n,
{
    if n == 0 {
        m
    } else {
        select_model(select_model_n(m, lba, (n - 1) as nat), lba)
    }
}

/// The worker returned by the (k+1)-th of consecutive selections.
pub open spec fn selected_at(m: RegistryModel, lba: LoadBalancerAlgorithm, k: nat) -> Seq<char> {
    let mk = select_model_n(m, lba, k);
    mk.hosts[select_index(mk, lba)]
}

/// How many of the first `n` consecutive selections return worker `w`.
pub open spec fn times_selected(
    m: RegistryModel,
    lba: LoadBalancerAlgorithm,
    n: nat,
    w: Seq<char>,
) -> nat
    decreases n,
{
    if n == 0 {
        0
    } else {
        times_selected(m, lba, (n - 1) as nat, w) + (if selected_at(m, lba, (n - 1) as nat) == w {
            1nat
        } else {
            0nat
        })
    }
}

/// One selection keeps the worker list and keeps the registry well-formed.
pub proof fn lemma_select_model_wf(m: RegistryModel, lba: LoadBalancerAlgorithm)
    requires
        model_wf(m),
    ensures
        model_wf(select_model(m, lba)),
        select_model(m, lba).hosts == m.hosts,
        select_model(m, lba).counts.len() == m.counts.len(),
        select_model(m, lba).cursor == (select_index(m, lba) + 1) % (m.hosts.len() as int),
{
    lemma_select_index_in_range(m, lba);
    lemma_mod_bound(select_index(m, lba) + 1, m.hosts.len() as int);
}

/// Least connections selects a worker whose count is the minimum across all
/// workers at the instant of selection; among ties, the lowest-index worker
/// is chosen: every earlier worker's count is strictly larger.
pub proof fn lemma_least_connections_minimal(m: RegistryModel)
    requires
        model_wf(m),
    ensures
        ({
            let s = select_index(m, LoadBalancerAlgorithm::LeastConnections);
            &&& 0 <= s < m.counts.len()
            &&& forall|j: int| 0 <= j < m.counts.len() ==> m.counts[s] <= #[trigger] m.counts[j]
            &&& forall|j: int| 0 <= j < s ==> #[trigger] m.counts[j] > m.counts[s]
        }),
{
    lemma_first_min_index(m.counts);
}

/// The accounting round trip: a selection raises the selected worker's count
/// by exactly one and touches no other count; the matching decrement, keyed
/// to the selected worker's identity, restores every count to its
/// pre-selection value, with the cursor still moved past the selected index.
pub proof fn lemma_selection_round_trip(m: RegistryModel, lba: LoadBalancerAlgorithm)
    requires
        model_wf(m),
    ensures
        ({
            let s = select_index(m, lba);
            let m1 = select_model(m, lba);
            let m2 = adjust_model(m1, m.hosts[s], -1);
            &&& m1.counts[s] == m.counts[s] + 1
            &&& forall|j: int| 0 <= j < m.counts.len() && j != s ==> #[trigger] m1.counts[j]
                == m.counts[j]
            &&& m2.hosts == m.hosts
            &&& m2.counts == m.counts
            &&& m2.cursor == m1.cursor
        }),
{
    let s = select_index(m, lba);
    let m1 = select_model(m, lba);
    let m2 = adjust_model(m1, m.hosts[s], -1);
    lemma_select_index_in_range(m, lba);
    lemma_host_index_unique(m1, m.hosts[s], s);
    assert(m2.counts =~= m.counts);
}

/// Stepping a value by one commutes with taking it modulo `n`.
proof fn lemma_mod_add_one(x: int, n: int)
    requires
        n > 0,
        x >= 0,
    ensures
        (x + 1) % n == (x % n + 1) % n,
{
    lemma_fundamental_div_mod(x, n);
    lemma_mod_bound(x, n);
    let q = x / n;
    let r = x % n;
    assert(n * q == q * n) by (nonlinear_arith);
    if r + 1 < n {
        lemma_fundamental_div_mod_converse(x + 1, n, q, r + 1);
        lemma_fundamental_div_mod_converse(r + 1, n, 0, r + 1);
    } else {
        assert((q + 1) * n == q * n + n) by (nonlinear_arith);
        lemma_fundamental_div_mod_converse(x + 1, n, q + 1, 0);
        lemma_fundamental_div_mod_converse(r + 1, n, 1, 0);
    }
}

/// Two values less than `n` apart have different residues modulo `n`.
proof fn lemma_mod_distinct(x: int, d: int, n: int)
    requires
        n > 0,
        x >= 0,
        0 < d < n,
    ensures
        (x + d) % n != x % n,
{
    lemma_fundamental_div_mod(x, n);
    lemma_mod_bound(x, n);
    let q = x / n;
    let r = x % n;
    assert(n * q == q * n) by (nonlinear_arith);
    if r + d < n {
        lemma_fundamental_div_mod_converse(x + d, n, q, r + d);
    } else {
        assert((q + 1) * n == q * n + n) by (nonlinear_arith);
        lemma_fundamental_div_mod_converse(x + d, n, q + 1, r + d - n);
    }
}

/// Advancing a cursor at `c` by `k` lands on `j` exactly when `k` and `j - c`
/// agree modulo `n`.
proof fn lemma_mod_shift(c: int, j: int, k: int, n: int)
    requires
        n > 0,
        0 <= c < n,
        0 <= j < n,
        k >= 0,
    ensures
        ((c + k) % n == j) <==> (k % n == (j - c) % n),
{
    lemma_fundamental_div_mod(k, n);
    lemma_mod_bound(k, n);
    let q = k / n;
    let r = k % n;
    assert(n * q == q * n) by (nonlinear_arith);
    if c + r < n {
        lemma_fundamental_div_mod_converse(c + k, n, q, c + r);
    } else {
        assert((q + 1) * n == q * n + n) by (nonlinear_arith);
        lemma_fundamental_div_mod_converse(c + k, n, q + 1, c + r - n);
    }
    if j >= c {
        lemma_fundamental_div_mod_converse(j - c, n, 0, j - c);
    } else {
        assert((-1) * n == -n) by (nonlinear_arith);
        lemma_fundamental_div_mod_converse(j - c, n, -1, j - c + n);
    }
}

/// The position formula for round robin: after `k` consecutive round-robin
/// selections the cursor stands at `cursor + k` modulo the list length, and
/// the (k+1)-th selection returns the worker there.
pub proof fn lemma_round_robin_position(m: RegistryModel, k: nat)
    requires
        model_wf(m),
    ensures
        model_wf(select_model_n(m, LoadBalancerAlgorithm::RoundRobin, k)),
        select_model_n(m, LoadBalancerAlgorithm::RoundRobin, k).hosts == m.hosts,
        select_model_n(m, LoadBalancerAlgorithm::RoundRobin, k).cursor == (m.cursor + k) % (
        m.hosts.len() as int),
        selected_at(m, LoadBalancerAlgorithm::RoundRobin, k) == m.hosts[(m.cursor + k) % (
        m.hosts.len() as int)],
    decreases k,
{
    let n = m.hosts.len() as int;
    if k == 0 {
        lemma_fundamental_div_mod_converse(m.cursor, n, 0, m.cursor);
    } else {
        lemma_round_robin_position(m, (k - 1) as nat);
        let mk1 = select_model_n(m, LoadBalancerAlgorithm::RoundRobin, (k - 1) as nat);
        lemma_select_model_wf(mk1, LoadBalancerAlgorithm::RoundRobin);
        lemma_mod_add_one(m.cursor + k - 1, n);
    }
}

/// The cycle law of round robin: within one full cycle of as many selections
/// as there are workers, no worker repeats and every worker is visited — each
/// is selected exactly once, in list order starting at the cursor — and the
/// selection right after a full cycle repeats the first.
pub proof fn lemma_round_robin_cycle(m: RegistryModel)
    requires
        model_wf(m),
    ensures
        forall|k1: nat, k2: nat| k1 < k2 < m.hosts.len() ==> #[trigger] selected_at(
            m,
            LoadBalancerAlgorithm::RoundRobin,
            k1,
        ) != #[trigger] selected_at(m, LoadBalancerAlgorithm::RoundRobin, k2),
        forall|j: int| 0 <= j < m.hosts.len() ==> exists|k: nat|
            k < m.hosts.len() && #[trigger] selected_at(m, LoadBalancerAlgorithm::RoundRobin, k)
                == #[trigger] m.hosts[j],
        selected_at(m, LoadBalancerAlgorithm::RoundRobin, m.hosts.len()) == selected_at(
            m,
            LoadBalancerAlgorithm::RoundRobin,
            0,
        ),
{
    let n = m.hosts.len() as int;
    let c = m.cursor;
    assert forall|k1: nat, k2: nat| k1 < k2 < m.hosts.len() implies #[trigger] selected_at(
        m,
        LoadBalancerAlgorithm::RoundRobin,
        k1,
    ) != #[trigger] selected_at(m, LoadBalancerAlgorithm::RoundRobin, k2) by {
        lemma_round_robin_position(m, k1);
        lemma_round_robin_position(m, k2);
        lemma_mod_bound(c + k1, n);
        lemma_mod_bound(c + k2, n);
        lemma_mod_distinct(c + k1, k2 - k1, n);
    }
    assert forall|j: int| 0 <= j < m.hosts.len() implies exists|k: nat|
        k < m.hosts.len() && #[trigger] selected_at(m, LoadBalancerAlgorithm::RoundRobin, k)
            == #[trigger] m.hosts[j] by {
        lemma_mod_bound(j - c + n, n);
        let kk = ((j - c + n) % n) as nat;
        lemma_round_robin_position(m, kk);
        if j >= c {
            lemma_fundamental_div_mod_converse(j - c + n, n, 1, j - c);
            lemma_fundamental_div_mod_converse(c + (j - c), n, 0, j);
        } else {
            lemma_fundamental_div_mod_converse(j - c + n, n, 0, j - c + n);
            lemma_fundamental_div_mod_converse(c + (j - c + n), n, 1, j);
        }
        assert(selected_at(m, LoadBalancerAlgorithm::RoundRobin, kk) == m.hosts[j]);
    }
    lemma_round_robin_position(m, 0);
    lemma_round_robin_position(m, m.hosts.len());
    lemma_fundamental_div_mod_converse(c, n, 0, c);
    lemma_fundamental_div_mod_converse(c + n, n, 1, c);
}

/// The exact tally of round robin: over `n` consecutive selections the
/// worker at index `j` is selected once for every time the cursor walk
/// passes it.
proof fn lemma_round_robin_count(m: RegistryModel, n: nat, j: int)
    requires
        model_wf(m),
        0 <= j < m.hosts.len(),
    ensures
        ({
            let len = m.hosts.len() as int;
            let d = (j - m.cursor) % len;
            times_selected(m, LoadBalancerAlgorithm::RoundRobin, n, m.hosts[j]) as int == (n + len
                - 1 - d) / len
        }),
    decreases n,
{
    let len = m.hosts.len() as int;
    let c = m.cursor;
    let d = (j - c) % len;
    lemma_mod_bound(j - c, len);
    if n == 0 {
        lemma_fundamental_div_mod_converse(len - 1 - d, len, 0, len - 1 - d);
    } else {
        lemma_round_robin_count(m, (n - 1) as nat, j);
        lemma_round_robin_position(m, (n - 1) as nat);
        let i2 = (c + (n - 1)) % len;
        lemma_mod_bound(c + (n - 1), len);
        if i2 != j {
            // distinct addresses: a different index holds a different worker
            if i2 < j {
                assert(m.hosts[i2] != m.hosts[j]);
            } else {
                assert(m.hosts[j] != m.hosts[i2]);
            }
        }
        lemma_mod_shift(c, j, n - 1, len);
        // the selection at step n-1 hits j exactly when (n-1) % len == d
        lemma_fundamental_div_mod(n - 1, len);
        let q = (n - 1) / len;
        let r = (n - 1) % len;
        assert(len * q == q * len) by (nonlinear_arith);
        assert((q + 1) * len == q * len + len) by (nonlinear_arith);
        let x = n - 1 + len - 1 - d;
        if r == d {
            lemma_fundamental_div_mod_converse(x, len, q, len - 1);
            lemma_fundamental_div_mod_converse(x + 1, len, q + 1, 0);
        } else if r > d {
            lemma_fundamental_div_mod_converse(x, len, q + 1, r - 1 - d);
            lemma_fundamental_div_mod_converse(x + 1, len, q + 1, r - d);
        } else {
            lemma_fundamental_div_mod_converse(x, len, q, r + len - 1 - d);
            lemma_fundamental_div_mod_converse(x + 1, len, q, r + len - d);
        }
    }
}

/// One full round-robin cycle — as many selections as there are workers —
/// selects every worker exactly once.
pub proof fn lemma_round_robin_exactly_once(m: RegistryModel, j: int)
    requires
        model_wf(m),
        0 <= j < m.hosts.len(),
    ensures
        times_selected(m, LoadBalancerAlgorithm::RoundRobin, m.hosts.len(), m.hosts[j]) == 1,
{
    let len = m.hosts.len() as int;
    lemma_round_robin_count(m, m.hosts.len(), j);
    let d = (j - m.cursor) % len;
    lemma_mod_bound(j - m.cursor, len);
    lemma_fundamental_div_mod_converse(len + len - 1 - d, len, 1, len - 1 - d);
}

/// The fairness bound of round robin: over any `n` consecutive selections
/// against `N` workers, each worker is selected either `n / N` (rounding
/// down) or `(n + N - 1) / N` (rounding up) times.
pub proof fn lemma_round_robin_fairness(m: RegistryModel, n: nat, j: int)
    requires
        model_wf(m),
        0 <= j < m.hosts.len(),
    ensures
        ({
            let len = m.hosts.len() as int;
            let t = times_selected(m, LoadBalancerAlgorithm::RoundRobin, n, m.hosts[j]) as int;
            t == n as int / len || t == (n as int + len - 1) / len
        }),
{
    let len = m.hosts.len() as int;
    let c = m.cursor;
    let d = (j - c) % len;
    lemma_round_robin_count(m, n, j);
    lemma_mod_bound(j - c, len);
    lemma_fundamental_div_mod(n as int, len);
    let q = n as int / len;
    let r = n as int % len;
    lemma_mod_bound(n as int, len);
    assert(len * q == q * len) by (nonlinear_arith);
    assert((q + 1) * len == q * len + len) by (nonlinear_arith);
    if d < r {
        lemma_fundamental_div_mod_converse(n + len - 1 - d, len, q + 1, r - 1 - d);
        lemma_fundamental_div_mod_converse(n + len - 1, len, q + 1, r - 1);
    } else {
        lemma_fundamental_div_mod_converse(n + len - 1 - d, len, q, r + len - 1 - d);
    }
}

} // verus!
