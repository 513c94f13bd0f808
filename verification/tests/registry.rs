use load_balancer::lb_service::default_worker;
use load_balancer::lb_service::LoadBalancer;
use load_balancer::lb_service::LoadBalancerAlgorithm;
use load_balancer::lb_service::LoadBalancerError;
use load_balancer::lb_service::NextWorker;

fn three_workers() -> LoadBalancer {
    LoadBalancer::new(vec![
        "http://localhost:3000".to_string(),
        "http://localhost:3001".to_string(),
        "http://localhost:3002".to_string(),
    ])
    .unwrap()
}

#[test]
fn empty_list_is_rejected() {
    let r = LoadBalancer::new(Vec::new());
    assert_eq!(r.unwrap_err(), LoadBalancerError::EmptyWorkerList);
}

#[test]
fn construction_starts_every_count_at_zero() {
    let lb = three_workers();
    assert_eq!(lb.host_len(), 3);
    assert_eq!(lb.next_worker, 0);
    for w in ["http://localhost:3000", "http://localhost:3001", "http://localhost:3002"] {
        assert_eq!(lb.get_conn(&w.to_string()).unwrap(), 0);
    }
}

#[test]
fn get_conn_unknown_worker_is_an_error() {
    let lb = three_workers();
    let r = lb.get_conn(&"http://nowhere:1".to_string());
    assert_eq!(r.unwrap_err(), LoadBalancerError::UnknownWorker);
}

#[test]
fn worker_by_index_and_out_of_range() {
    let lb = three_workers();
    assert_eq!(lb.worker(1).unwrap(), "http://localhost:3001");
    assert_eq!(lb.worker(3).unwrap_err(), LoadBalancerError::IndexOutOfRange);
}

#[test]
fn round_robin_cycles_in_list_order() {
    let mut lb = three_workers();
    let a = lb.next_worker(LoadBalancerAlgorithm::RoundRobin);
    let b = lb.next_worker(LoadBalancerAlgorithm::RoundRobin);
    let c = lb.next_worker(LoadBalancerAlgorithm::RoundRobin);
    assert_eq!(a, "http://localhost:3000");
    assert_eq!(b, "http://localhost:3001");
    assert_eq!(c, "http://localhost:3002");
    assert_eq!(lb.next_worker, 0);
    // the fourth selection repeats the first worker
    let d = lb.next_worker(LoadBalancerAlgorithm::RoundRobin);
    assert_eq!(d, a);
}

#[test]
fn round_robin_counts_each_selection() {
    let mut lb = three_workers();
    for _ in 0..4 {
        lb.next_worker(LoadBalancerAlgorithm::RoundRobin);
    }
    assert_eq!(lb.get_conn(&"http://localhost:3000".to_string()).unwrap(), 2);
    assert_eq!(lb.get_conn(&"http://localhost:3001".to_string()).unwrap(), 1);
    assert_eq!(lb.get_conn(&"http://localhost:3002".to_string()).unwrap(), 1);
}

#[test]
fn least_connections_breaks_ties_by_lowest_index() {
    let mut lb = three_workers();
    let w = lb.next_worker(LoadBalancerAlgorithm::LeastConnections);
    assert_eq!(w, "http://localhost:3000");
    assert_eq!(lb.get_conn(&w).unwrap(), 1);
}

#[test]
fn least_connections_picks_the_minimum() {
    let mut lb = three_workers();
    lb.worker_conns = vec![2, 1, 3];
    let w = lb.next_worker(LoadBalancerAlgorithm::LeastConnections);
    assert_eq!(w, "http://localhost:3001");
    assert_eq!(lb.get_conn(&w).unwrap(), 2);
    assert_eq!(lb.next_worker, 2);
}

#[test]
fn selection_and_decrement_round_trip() {
    let mut lb = three_workers();
    let w = lb.next_worker(LoadBalancerAlgorithm::LeastConnections);
    assert_eq!(lb.get_conn(&w).unwrap(), 1);
    lb.dec_conn(&w);
    assert_eq!(lb.get_conn(&w).unwrap(), 0);
    // the cursor keeps the move past the selected worker
    assert_eq!(lb.next_worker, 1);
}

#[test]
fn discard_drives_a_count_negative() {
    let mut lb = three_workers();
    let w = "http://localhost:3000".to_string();
    lb.dec_conn(&w);
    assert_eq!(lb.get_conn(&w).unwrap(), -1);
}

#[test]
fn decrement_of_unknown_worker_is_tolerated() {
    let mut lb = three_workers();
    lb.dec_conn(&"http://nowhere:1".to_string());
    for w in ["http://localhost:3000", "http://localhost:3001", "http://localhost:3002"] {
        assert_eq!(lb.get_conn(&w.to_string()).unwrap(), 0);
    }
}

#[test]
fn cursor_couples_the_two_strategies() {
    let mut lb = three_workers();
    lb.worker_conns = vec![5, 5, 0];
    let w = lb.next_worker(LoadBalancerAlgorithm::LeastConnections);
    assert_eq!(w, "http://localhost:3002");
    // least connections moved the cursor past its pick, wrapping around
    assert_eq!(lb.next_worker, 0);
    let w2 = lb.next_worker(LoadBalancerAlgorithm::RoundRobin);
    assert_eq!(w2, "http://localhost:3000");
}

#[test]
fn round_robin_fairness_over_many_requests() {
    let mut lb = three_workers();
    for _ in 0..8 {
        lb.next_worker(LoadBalancerAlgorithm::RoundRobin);
    }
    // 8 selections over 3 workers: each selected floor(8/3)=2 or ceil(8/3)=3 times
    assert_eq!(lb.get_conn(&"http://localhost:3000".to_string()).unwrap(), 3);
    assert_eq!(lb.get_conn(&"http://localhost:3001".to_string()).unwrap(), 3);
    assert_eq!(lb.get_conn(&"http://localhost:3002".to_string()).unwrap(), 2);
}

#[test]
fn default_worker_is_empty() {
    assert_eq!(default_worker(), "");
}

#[test]
fn defaults_of_the_enums() {
    assert_eq!(LoadBalancerError::default(), LoadBalancerError::UnexpectedError);
    assert_eq!(LoadBalancerAlgorithm::default(), LoadBalancerAlgorithm::RoundRobin);
}
