use load_balancer::dispatch::build_target;
use load_balancer::dispatch::prepare_request;
use load_balancer::lb_service::LoadBalancer;
use load_balancer::lb_service::LoadBalancerAlgorithm;
use load_balancer::lb_service::LoadBalancerError;

fn two_workers() -> LoadBalancer {
    LoadBalancer::new(vec![
        "http://localhost:3000".to_string(),
        "http://localhost:3001".to_string(),
    ])
    .unwrap()
}

#[test]
fn target_is_the_verbatim_concatenation() {
    let t = build_target(
        &"http://localhost:3000".to_string(),
        &"/api/items?page=2&q=x%20y".to_string(),
    );
    assert_eq!(t, "http://localhost:3000/api/items?page=2&q=x%20y");
}

#[test]
fn prepare_request_selects_rewrites_and_counts() {
    let mut lb = two_workers();
    let r = prepare_request(
        &mut lb,
        LoadBalancerAlgorithm::RoundRobin,
        &"/hello?name=world".to_string(),
    );
    let (worker, target) = r.unwrap();
    assert_eq!(worker, "http://localhost:3000");
    assert_eq!(target, "http://localhost:3000/hello?name=world");
    assert_eq!(lb.get_conn(&worker).unwrap(), 1);
    assert_eq!(lb.next_worker, 1);
}

#[test]
fn prepare_request_alternates_workers() {
    let mut lb = two_workers();
    let pq = "/".to_string();
    let (w1, _) = prepare_request(&mut lb, LoadBalancerAlgorithm::RoundRobin, &pq).unwrap();
    let (w2, _) = prepare_request(&mut lb, LoadBalancerAlgorithm::RoundRobin, &pq).unwrap();
    let (w3, _) = prepare_request(&mut lb, LoadBalancerAlgorithm::RoundRobin, &pq).unwrap();
    assert_eq!(w1, "http://localhost:3000");
    assert_eq!(w2, "http://localhost:3001");
    assert_eq!(w3, "http://localhost:3000");
}

#[test]
fn malformed_target_gives_the_count_back() {
    // a space is not allowed in a request target
    let mut lb = LoadBalancer::new(vec!["http://bad host".to_string()]).unwrap();
    let r = prepare_request(&mut lb, LoadBalancerAlgorithm::RoundRobin, &"/x".to_string());
    assert_eq!(r.unwrap_err(), LoadBalancerError::MalformedTarget);
    // the selection's increment was given back, the cursor move remains
    assert_eq!(lb.get_conn(&"http://bad host".to_string()).unwrap(), 0);
    assert_eq!(lb.next_worker, 0);
}

#[test]
fn completion_decrement_restores_the_count() {
    let mut lb = two_workers();
    let pq = "/work".to_string();
    let (worker, _target) = prepare_request(&mut lb, LoadBalancerAlgorithm::RoundRobin, &pq)
        .unwrap();
    assert_eq!(lb.get_conn(&worker).unwrap(), 1);
    // the outbound call completed: the dispatcher decrements by the identity
    // it captured at selection time
    lb.dec_conn(&worker);
    assert_eq!(lb.get_conn(&worker).unwrap(), 0);
    assert_eq!(lb.next_worker, 1);
}

#[test]
fn least_connections_dispatch_prefers_the_idle_worker() {
    let mut lb = two_workers();
    lb.worker_conns = vec![4, 0];
    let (w, t) = prepare_request(
        &mut lb,
        LoadBalancerAlgorithm::LeastConnections,
        &"/job".to_string(),
    )
    .unwrap();
    assert_eq!(w, "http://localhost:3001");
    assert_eq!(t, "http://localhost:3001/job");
    assert_eq!(lb.get_conn(&w).unwrap(), 1);
    assert_eq!(lb.next_worker, 0);
}
