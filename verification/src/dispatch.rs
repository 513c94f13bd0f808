//! The compute half of request forwarding: select a worker, rewrite the
//! request target, and validate it; the transport performs the call itself.

use vstd::prelude::*;

use crate::lb_service::lemma_host_index_unique;
use crate::lb_service::lemma_select_index_in_range;
use crate::lb_service::select_index;
use crate::lb_service::select_model;
use crate::lb_service::LoadBalancer;
use crate::lb_service::LoadBalancerAlgorithm;
use crate::lb_service::LoadBalancerError;
use crate::lb_service::NextWorker;
use crate::lb_service::Worker;

verus! {

/// Whether hyper's URI parser accepts the string: a function of the
/// characters alone.
pub uninterp spec fn uri_accepted(s: Seq<char>) -> bool;

/// Relies on hyper::Uri::try_from over a &str (hyper re-exports http's Uri):
/// whether a string parses as a URI depends on its characters alone.
#[verifier::external_body]
fn target_accepted(s: &String) -> (r: bool)
    ensures
        r == uri_accepted(s@),
{
    hyper::Uri::try_from(s.as_str()).is_ok()
}

/// The outbound target: the worker's base address followed by the inbound
/// path and query, verbatim.
pub fn build_target(worker: &String, path_and_query: &String) -> (r: String)
    ensures
        r@ == worker@ + path_and_query@,
{
    let mut t = worker.clone();
    t.append(path_and_query.as_str());
    t
}

/// The selection half of one dispatch: under exclusive access to the
/// registry, pick a worker by the given algorithm (counting the selection
/// against it), rewrite the inbound path and query onto the worker's base
/// address, and validate the result. On a malformed target the selection's
/// count is given back and only the cursor move remains; the caller owes a
/// matching `dec_conn` only on `Ok`, once the outbound call completes.
pub fn prepare_request(
    lb: &mut LoadBalancer,
    lba: LoadBalancerAlgorithm,
    path_and_query: &String,
) -> (r: Result<(Worker, String), LoadBalancerError>)
    requires
        old(lb).wf(),
        old(lb).counts()[select_index(old(lb).model(), lba)] + 1 <= isize::MAX,
    ensures
        final(lb).wf(),
        ({
            let m0 = old(lb).model();
            let s = select_index(m0, lba);
            let w = m0.hosts[s];
            let t = w + path_and_query@;
            &&& (uri_accepted(t) ==> (r matches Ok(p) && p.0@ == w && p.1@ == t
                && final(lb).model() == select_model(m0, lba)))
            &&& (!uri_accepted(t) ==> {
                &&& r == Err::<(Worker, String), LoadBalancerError>(
                    LoadBalancerError::MalformedTarget,
                )
                &&& final(lb).model().hosts == m0.hosts
                &&& final(lb).model().counts == m0.counts
                &&& final(lb).model().cursor == select_model(m0, lba).cursor
            })
        }),
{
    let ghost m0 = old(lb).model();
    let ghost s = select_index(m0, lba);
    let worker = lb.next_worker(lba);
    let target = build_target(&worker, path_and_query);
    if target_accepted(&target) {
        Ok((worker, target))
    } else {
        proof {
            lemma_select_index_in_range(m0, lba);
            lemma_host_index_unique(lb.model(), worker@, s);
        }
        lb.dec_conn(&worker);
        proof {
            assert(lb.model().counts =~= m0.counts);
        }
        Err(LoadBalancerError::MalformedTarget)
    }
}

} // verus!
