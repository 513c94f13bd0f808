use load_balancer::services::least_connections::LeastConnectionsLoadBalancer;
use load_balancer::services::least_connections::Server;
use load_balancer::services::round_robin::RoundRobinLoadBalancer;

#[test]
fn standalone_round_robin_cycles() {
    let mut rr = RoundRobinLoadBalancer::new(vec![
        "a".to_string(),
        "b".to_string(),
        "c".to_string(),
    ]);
    assert_eq!(rr.next_server(), "a");
    assert_eq!(rr.next_server(), "b");
    assert_eq!(rr.next_server(), "c");
    assert_eq!(rr.next_server(), "a");
}

#[test]
fn standalone_least_connections_distributes() {
    let mut lc = LeastConnectionsLoadBalancer::new(vec![
        "a".to_string(),
        "b".to_string(),
        "c".to_string(),
    ]);
    // all tallies equal: the lowest index wins each tie in turn
    assert_eq!(lc.next_server(), "a");
    assert_eq!(lc.next_server(), "b");
    assert_eq!(lc.next_server(), "c");
    // one full round later every tally is 1 again: back to the first
    assert_eq!(lc.next_server(), "a");
}

#[test]
fn server_tally_accumulates() {
    let mut s = Server::new("a".to_string());
    assert_eq!(s.connections(), 0);
    s.update(1);
    s.update(2);
    assert_eq!(s.connections(), 3);
}

#[test]
fn default_server_starts_idle() {
    let s = Server::default();
    assert_eq!(s.connections(), 0);
}

#[test]
fn single_server_is_always_chosen() {
    let mut lc = LeastConnectionsLoadBalancer::new(vec!["only".to_string()]);
    assert_eq!(lc.next_server(), "only");
    assert_eq!(lc.next_server(), "only");
}
