use std::collections::HashSet;

use expressgateway::l4::consistent_hash::ConsistentHashBalancer;
use expressgateway::l4::least_connection::LeastConnectionBalancer;
use expressgateway::l4::least_load::LeastLoadBalancer;
use expressgateway::l4::random::RandomBalancer;
use expressgateway::l4::round_robin::RoundRobinBalancer;
use expressgateway::l4::weighted_round_robin::WeightedRoundRobinBalancer;
use expressgateway::l7::consistent_hash::HttpConsistentHashBalancer;
use expressgateway::l7::least_response_time::{EwmaBalancer, COLD_THRESHOLD};
use expressgateway::l7::random::HttpRandomBalancer;
use expressgateway::l7::round_robin::HttpRoundRobinBalancer;
use expressgateway::node::{HttpRequest, L4Request, L4Response, LoadBalancer, Node, NodeState};
use expressgateway::ring::{murmur3_hash, HashRing};
use expressgateway::rotation::rotate;
use expressgateway::session::consistent_hash::ConsistentHashPersistence;

fn make_node(id: &str, port: u16) -> Node {
    Node::new(id.to_string(), format!("127.0.0.1:{}", port), 1, None)
}

fn weighted(id: &str, port: u16, weight: u32) -> Node {
    Node::new(id.to_string(), format!("127.0.0.1:{}", port), weight, None)
}

fn loaded(id: &str, port: u16, max: Option<u64>, active: u64) -> Node {
    let mut n = Node::new(id.to_string(), format!("127.0.0.1:{}", port), 1, max);
    n.active_connections = active;
    n
}

fn client(addr: &str) -> L4Request {
    L4Request { client_addr: addr.to_string() }
}

fn http() -> HttpRequest {
    HttpRequest {
        client_ip: "10.0.0.1".to_string(),
        host: Some("example.com".to_string()),
        path: "/".to_string(),
        headers: Vec::new(),
    }
}

fn pick<B: LoadBalancer<L4Request, L4Response>>(lb: &mut B, req: &L4Request) -> String {
    lb.select(req).unwrap().node.id
}

#[test]
fn consistent_hash_stable_mapping() {
    let mut lb = ConsistentHashBalancer::new();
    let mut store = ConsistentHashPersistence::new();
    for (id, port) in [("n1", 8001), ("n2", 8002), ("n3", 8003)] {
        lb.add_node(make_node(id, port));
        store.add_node(make_node(id, port));
    }
    let req = client("10.0.0.1:5000");
    let first = pick(&mut lb, &req);
    let kept = store.get("10.0.0.1").unwrap();
    for _ in 0..20 {
        assert_eq!(pick(&mut lb, &req), first);
        assert_eq!(store.get("10.0.0.1").unwrap(), kept);
    }
}

#[test]
fn different_clients_may_differ() {
    let mut lb = ConsistentHashBalancer::new();
    lb.add_node(make_node("n1", 8001));
    lb.add_node(make_node("n2", 8002));
    lb.add_node(make_node("n3", 8003));
    let mut seen = HashSet::new();
    for port in 1000..1100 {
        let req = client(&format!("10.0.0.{}:{}", port % 256, port));
        seen.insert(pick(&mut lb, &req));
    }
    assert!(seen.len() >= 2, "Expected distribution across nodes: {:?}", seen);
}

#[test]
fn fallback_on_offline_node() {
    let mut lb = ConsistentHashBalancer::new();
    lb.add_node(make_node("n1", 8001));
    lb.add_node(make_node("n2", 8002));
    let req = client("10.0.0.1:5000");
    let original = pick(&mut lb, &req);
    lb.update_node(&original, 0, NodeState::Offline);
    assert_ne!(pick(&mut lb, &req), original);
}

#[test]
fn empty_ring_returns_error() {
    let mut lb = ConsistentHashBalancer::new();
    assert!(lb.select(&client("10.0.0.1:5000")).is_err());
}

#[test]
fn consistent_hash_remove_node_from_ring() {
    let mut lb = ConsistentHashBalancer::new();
    lb.add_node(make_node("n1", 8001));
    lb.add_node(make_node("n2", 8002));
    lb.remove_node("n1");
    assert_eq!(lb.all_nodes().len(), 1);
    assert_eq!(pick(&mut lb, &client("10.0.0.1:5000")), "n2");

    let mut store = ConsistentHashPersistence::new();
    store.add_node(make_node("n1", 8001));
    store.add_node(make_node("n2", 8002));
    store.remove_node("n1");
    assert_eq!(store.len(), 1);
    assert_eq!(store.get("10.0.0.1").unwrap(), "n2");
}

#[test]
fn empty_ring_returns_none() {
    let store = ConsistentHashPersistence::new();
    assert_eq!(store.get("10.0.0.1"), None);
}

#[test]
fn fallback_when_offline() {
    let mut store = ConsistentHashPersistence::new();
    store.add_node(make_node("n1", 8001));
    store.add_node(make_node("n2", 8002));
    let original = store.get("10.0.0.1").unwrap();
    store.update_node(&original, 0, NodeState::Offline);
    assert_ne!(store.get("10.0.0.1").unwrap(), original);
}

#[test]
fn put_and_remove_are_noop() {
    let mut store = ConsistentHashPersistence::new();
    store.add_node(make_node("n1", 8001));
    store.put("10.0.0.1", "something".to_string());
    store.remove("10.0.0.1");
    assert!(store.get("10.0.0.1").is_some());
}

#[test]
fn picks_lowest_connections() {
    let mut lb = LeastConnectionBalancer::new();
    lb.add_node(loaded("n1", 8001, None, 5));
    lb.add_node(loaded("n2", 8002, None, 2));
    lb.add_node(loaded("n3", 8003, None, 0));
    assert_eq!(pick(&mut lb, &client("10.0.0.1:5000")), "n3");
}

#[test]
fn updates_after_connections_change() {
    let mut lb = LeastConnectionBalancer::new();
    lb.add_node(loaded("n1", 8001, None, 1));
    lb.add_node(loaded("n2", 8002, None, 0));
    let req = client("10.0.0.1:5000");
    assert_eq!(pick(&mut lb, &req), "n2");
    lb.update_node("n2", 2, NodeState::Online);
    lb.update_node("n1", 0, NodeState::Online);
    assert_eq!(pick(&mut lb, &req), "n1");
}

#[test]
fn no_online_nodes() {
    let mut lb = LeastConnectionBalancer::new();
    assert!(lb.select(&client("10.0.0.1:5000")).is_err());
}

#[test]
fn least_connection_takes_the_first_of_equals() {
    let mut lb = LeastConnectionBalancer::new();
    lb.add_node(loaded("n1", 8001, None, 3));
    lb.add_node(loaded("n2", 8002, None, 1));
    lb.add_node(loaded("n3", 8003, None, 1));
    assert_eq!(pick(&mut lb, &client("10.0.0.1:5000")), "n2");
}

#[test]
fn picks_lowest_load_percentage() {
    let mut lb = LeastLoadBalancer::new();
    lb.add_node(loaded("n1", 8001, Some(10), 8));
    lb.add_node(loaded("n2", 8002, Some(100), 5));
    lb.add_node(loaded("n3", 8003, Some(10), 3));
    assert_eq!(pick(&mut lb, &client("10.0.0.1:5000")), "n2");
}

#[test]
fn tiebreaker_by_connection_count() {
    let mut lb = LeastLoadBalancer::new();
    lb.add_node(loaded("n1", 8001, None, 5));
    lb.add_node(loaded("n2", 8002, None, 1));
    assert_eq!(pick(&mut lb, &client("10.0.0.1:5000")), "n2");
}

#[test]
fn unlimited_nodes_have_zero_load() {
    let mut lb = LeastLoadBalancer::new();
    lb.add_node(loaded("n1", 8001, Some(10), 5));
    lb.add_node(loaded("n2", 8002, None, 10));
    assert_eq!(pick(&mut lb, &client("10.0.0.1:5000")), "n2");
}

#[test]
fn selects_from_online_nodes() {
    let mut lb = RandomBalancer::new();
    lb.add_node(make_node("n1", 8001));
    lb.add_node(make_node("n2", 8002));
    lb.add_node(make_node("n3", 8003));
    let req = client("10.0.0.1:5000");
    let mut seen = HashSet::new();
    for _ in 0..100 {
        seen.insert(pick(&mut lb, &req));
    }
    assert_eq!(seen.len(), 3);
}

#[test]
fn single_node_always_selected() {
    let mut lb = RandomBalancer::new();
    lb.add_node(make_node("only", 8001));
    let req = client("10.0.0.1:5000");
    for _ in 0..10 {
        assert_eq!(pick(&mut lb, &req), "only");
    }
}

#[test]
fn random_empty_returns_error() {
    let mut lb = RandomBalancer::new();
    assert!(lb.select(&client("10.0.0.1:5000")).is_err());
    let mut lb = HttpRandomBalancer::new();
    assert!(lb.select(&http()).is_err());
}

#[test]
fn a_given_draw_picks_a_given_node() {
    let mut lb = RandomBalancer::new();
    lb.add_node(make_node("n1", 8001));
    lb.add_node(make_node("n2", 8002));
    lb.add_node(make_node("n3", 8003));
    lb.update_node("n2", 0, NodeState::Offline);
    assert_eq!(lb.select_at(0).unwrap().node.id, "n1");
    assert_eq!(lb.select_at(1).unwrap().node.id, "n3");
    assert!(lb.select_at(2).is_err());
}

#[test]
fn round_robin_cycles_through_nodes() {
    let mut lb = RoundRobinBalancer::new();
    lb.add_node(make_node("n1", 8001));
    lb.add_node(make_node("n2", 8002));
    lb.add_node(make_node("n3", 8003));
    let req = client("10.0.0.1:5000");
    let mut ids: Vec<String> = Vec::new();
    for _ in 0..9 {
        ids.push(pick(&mut lb, &req));
    }
    assert_eq!(ids, vec!["n1", "n2", "n3", "n1", "n2", "n3", "n1", "n2", "n3"]);

    let mut lb = HttpRoundRobinBalancer::new();
    lb.add_node(make_node("n1", 8001));
    lb.add_node(make_node("n2", 8002));
    let r1 = lb.select(&http()).unwrap();
    let r2 = lb.select(&http()).unwrap();
    let r3 = lb.select(&http()).unwrap();
    assert_eq!(r1.node.id, "n1");
    assert_eq!(r2.node.id, "n2");
    assert_eq!(r3.node.id, "n1");
}

#[test]
fn skips_offline_nodes() {
    let mut lb = RoundRobinBalancer::new();
    lb.add_node(make_node("n1", 8001));
    let mut n2 = make_node("n2", 8002);
    n2.state = NodeState::Offline;
    lb.add_node(n2);
    let req = client("10.0.0.1:5000");
    for _ in 0..5 {
        assert_eq!(pick(&mut lb, &req), "n1");
    }
}

#[test]
fn no_nodes_returns_error() {
    let mut lb = RoundRobinBalancer::new();
    assert!(lb.select(&client("10.0.0.1:5000")).is_err());
}

#[test]
fn remove_node_works() {
    let mut lb = RoundRobinBalancer::new();
    lb.add_node(make_node("n1", 8001));
    lb.add_node(make_node("n2", 8002));
    assert_eq!(lb.all_nodes().len(), 2);
    lb.remove_node("n1");
    assert_eq!(lb.all_nodes().len(), 1);
    assert_eq!(lb.all_nodes()[0].id, "n2");
}

#[test]
fn get_node_finds_by_id() {
    let mut lb = RoundRobinBalancer::new();
    lb.add_node(make_node("n1", 8001));
    assert_eq!(lb.get_node("n1").unwrap().address, "127.0.0.1:8001");
    assert!(lb.get_node("n2").is_none());
    lb.update_node("n1", 4, NodeState::Offline);
    assert_eq!(lb.online_nodes().len(), 0);
    assert_eq!(lb.get_node("n1").unwrap().active_connections, 4);
}

#[test]
fn smooth_distribution() {
    let mut lb = WeightedRoundRobinBalancer::new();
    lb.add_node(weighted("A", 8001, 5));
    lb.add_node(weighted("B", 8002, 1));
    lb.add_node(weighted("C", 8003, 1));
    let req = client("10.0.0.1:5000");
    let mut ids: Vec<String> = Vec::new();
    for _ in 0..7 {
        ids.push(pick(&mut lb, &req));
    }
    let a_count = ids.iter().filter(|id| *id == "A").count();
    let b_count = ids.iter().filter(|id| *id == "B").count();
    let c_count = ids.iter().filter(|id| *id == "C").count();
    assert_eq!(a_count, 5);
    assert_eq!(b_count, 1);
    assert_eq!(c_count, 1);
    let consecutive_a = ids.windows(5).any(|w| w.iter().all(|id| id == "A"));
    assert!(!consecutive_a, "Distribution should be smooth, not clumpy: {:?}", ids);
    assert_eq!(ids, vec!["A", "A", "B", "A", "C", "A", "A"]);
}

#[test]
fn equal_weights_round_robin() {
    let mut lb = WeightedRoundRobinBalancer::new();
    lb.add_node(weighted("A", 8001, 1));
    lb.add_node(weighted("B", 8002, 1));
    lb.add_node(weighted("C", 8003, 1));
    let req = client("10.0.0.1:5000");
    let mut ids: Vec<String> = Vec::new();
    for _ in 0..6 {
        ids.push(pick(&mut lb, &req));
    }
    assert_eq!(ids.iter().filter(|id| *id == "A").count(), 2);
    assert_eq!(ids.iter().filter(|id| *id == "B").count(), 2);
    assert_eq!(ids.iter().filter(|id| *id == "C").count(), 2);
}

#[test]
fn runtime_weight_update() {
    let mut lb = WeightedRoundRobinBalancer::new();
    lb.add_node(weighted("A", 8001, 1));
    lb.add_node(weighted("B", 8002, 1));
    lb.set_weight("A", 3);
    let req = client("10.0.0.1:5000");
    let mut a_count = 0;
    for _ in 0..4 {
        if pick(&mut lb, &req) == "A" {
            a_count += 1;
        }
    }
    assert_eq!(a_count, 3);
}

#[test]
fn weighted_cycle_repeats() {
    let mut lb = WeightedRoundRobinBalancer::new();
    lb.add_node(weighted("A", 8001, 2));
    lb.add_node(weighted("B", 8002, 1));
    let req = client("10.0.0.1:5000");
    let mut ids: Vec<String> = Vec::new();
    for _ in 0..6 {
        ids.push(pick(&mut lb, &req));
    }
    assert_eq!(ids[0..3], ids[3..6]);
    lb.update_node("A", 0, NodeState::Offline);
    assert_eq!(pick(&mut lb, &req), "B");
}

#[test]
fn any_whole_round_follows_the_weights() {
    let mut lb = WeightedRoundRobinBalancer::new();
    for (id, port, weight) in [("A", 8001, 5), ("B", 8002, 2), ("C", 8003, 1)] {
        lb.add_node(weighted(id, port, weight));
    }
    let req = client("10.0.0.1:5000");
    let ids: Vec<String> = (0..32).map(|_| pick(&mut lb, &req)).collect();
    for start in 0..24 {
        let round = &ids[start..start + 8];
        for (id, weight) in [("A", 5), ("B", 2), ("C", 1)] {
            assert_eq!(round.iter().filter(|r| *r == id).count(), weight);
        }
        assert_eq!(ids[start], ids[start + 8]);
    }
}

#[test]
fn nodes_of_one_id_share_its_weight() {
    let mut lb = WeightedRoundRobinBalancer::new();
    lb.add_node(weighted("A", 8001, 2));
    lb.add_node(weighted("A", 8002, 1));
    lb.add_node(weighted("B", 8003, 2));
    let req = client("10.0.0.1:5000");
    let addresses: Vec<(String, String)> = (0..10)
        .map(|_| {
            let node = lb.select(&req).unwrap().node;
            (node.id, node.address)
        })
        .collect();
    assert_eq!(addresses[..5].iter().filter(|a| a.0 == "A").count(), 3);
    assert_eq!(addresses[..5].iter().filter(|a| a.0 == "B").count(), 2);
    assert_eq!(addresses[..5], addresses[5..]);
}

#[test]
fn the_counter_may_run_to_its_end() {
    let nodes: Vec<Node> = (0..3).map(|i| make_node(&format!("n{}", i), 8001 + i)).collect();
    let mut index: usize = usize::MAX - 2;
    let mut seen = HashSet::new();
    for _ in 0..3 {
        seen.insert(rotate(&nodes, &mut index).unwrap().id);
    }
    assert_eq!((seen.len(), index), (3, 0));
    let pair: Vec<Node> = nodes.into_iter().take(2).collect();
    let mut index: usize = usize::MAX;
    let first = rotate(&pair, &mut index).unwrap().id;
    let second = rotate(&pair, &mut index).unwrap().id;
    assert_ne!(first, second);
}

#[test]
fn a_repeated_id_is_found_by_its_first_node() {
    let mut ring = HashRing::new();
    ring.add_node(make_node("n1", 8001));
    ring.add_node(make_node("n1", 8002));
    assert_eq!(ring.node_for("10.0.0.1").unwrap().address, "127.0.0.1:8001");
    ring.update_node("n1", 0, NodeState::Offline);
    assert!(ring.node_for("10.0.0.1").is_none());
}

#[test]
fn a_key_is_refused_only_without_an_online_node() {
    let mut lb = HttpConsistentHashBalancer::with_client_ip();
    let mut l4 = ConsistentHashBalancer::new();
    for (id, port) in [("n1", 8001), ("n2", 8002), ("n3", 8003)] {
        lb.add_node(make_node(id, port));
        l4.add_node(make_node(id, port));
    }
    for id in ["n1", "n2"] {
        lb.update_node(id, 0, NodeState::Offline);
        l4.update_node(id, 0, NodeState::Offline);
    }
    for i in 0..50 {
        let mut req = http();
        req.client_ip = format!("10.0.0.{}", i);
        assert_eq!(lb.select(&req).unwrap().node.id, "n3");
        assert_eq!(pick(&mut l4, &client(&format!("10.0.0.{}:80", i))), "n3");
    }
    lb.update_node("n3", 0, NodeState::Offline);
    l4.update_node("n3", 0, NodeState::Offline);
    assert!(lb.select(&http()).is_err());
    assert!(l4.select(&client("10.0.0.1:80")).is_err());
}

#[test]
fn stable_mapping_by_ip() {
    let mut lb = HttpConsistentHashBalancer::with_client_ip();
    lb.add_node(make_node("n1", 8001));
    lb.add_node(make_node("n2", 8002));
    let mut req = http();
    req.host = None;
    let first = lb.select(&req).unwrap().node.id;
    for _ in 0..10 {
        assert_eq!(lb.select(&req).unwrap().node.id, first);
    }
}

#[test]
fn hash_by_header() {
    let mut lb = HttpConsistentHashBalancer::with_header("X-User-Id".to_string());
    lb.add_node(make_node("n1", 8001));
    lb.add_node(make_node("n2", 8002));
    let mut req_a = http();
    req_a.headers = vec![("X-User-Id".to_string(), "user-123".to_string())];
    let mut req_b = http();
    req_b.headers = vec![("X-User-Id".to_string(), "user-456".to_string())];
    let node_a = lb.select(&req_a).unwrap().node.id;
    let node_b = lb.select(&req_b).unwrap().node.id;
    for _ in 0..10 {
        assert_eq!(lb.select(&req_a).unwrap().node.id, node_a);
        assert_eq!(lb.select(&req_b).unwrap().node.id, node_b);
    }
}

#[test]
fn header_names_match_in_any_case() {
    let mut lb = HttpConsistentHashBalancer::with_header("X-User-Id".to_string());
    for i in 0..5 {
        lb.add_node(make_node(&format!("n{}", i), 8001 + i));
    }
    let mut upper = http();
    upper.headers = vec![("X-USER-ID".to_string(), "user-123".to_string())];
    let mut lower = http();
    lower.client_ip = "172.16.5.9".to_string();
    lower.headers = vec![("x-user-id".to_string(), "user-123".to_string())];
    assert_eq!(lb.select(&upper).unwrap().node.id, lb.select(&lower).unwrap().node.id);
}

#[test]
fn falls_back_to_client_ip_when_header_absent() {
    let mut lb = HttpConsistentHashBalancer::with_header("X-Missing".to_string());
    lb.add_node(make_node("n1", 8001));
    lb.add_node(make_node("n2", 8002));
    let mut req = http();
    req.host = None;
    let resp = lb.select(&req).unwrap();
    assert!(!resp.node.id.is_empty());
    let mut by_ip = HttpConsistentHashBalancer::with_client_ip();
    by_ip.add_node(make_node("n1", 8001));
    by_ip.add_node(make_node("n2", 8002));
    assert_eq!(by_ip.select(&req).unwrap().node.id, resp.node.id);
}

/// Blends a sample into the average of a node.
fn record(lb: &mut EwmaBalancer, id: &str, ms: f64) {
    let alpha = f64::from_bits(lb.alpha());
    if let Some(state) = lb.state_of(id) {
        let next = if state.takes_sample_whole() {
            ms
        } else {
            alpha * ms + (1.0 - alpha) * f64::from_bits(state.ewma_bits)
        };
        lb.record_response_time(id, next.to_bits());
    }
}

#[test]
fn cold_start_round_robin() {
    let mut lb = EwmaBalancer::new();
    lb.add_node(make_node("n1", 8001));
    lb.add_node(make_node("n2", 8002));
    lb.add_node(make_node("n3", 8003));
    let mut ids: Vec<String> = Vec::new();
    for _ in 0..6 {
        ids.push(lb.select(&http()).unwrap().node.id);
    }
    assert_eq!(ids.iter().filter(|id| *id == "n1").count(), 2);
    assert_eq!(ids.iter().filter(|id| *id == "n2").count(), 2);
    assert_eq!(ids.iter().filter(|id| *id == "n3").count(), 2);
}

#[test]
fn warm_nodes_prefer_lowest_ewma() {
    let mut lb = EwmaBalancer::new();
    lb.add_node(make_node("fast", 8001));
    lb.add_node(make_node("slow", 8002));
    for _ in 0..COLD_THRESHOLD {
        record(&mut lb, "fast", 10.0);
        record(&mut lb, "slow", 100.0);
    }
    for _ in 0..10 {
        assert_eq!(lb.select(&http()).unwrap().node.id, "fast");
    }
}

#[test]
fn prefers_cold_nodes_when_mixed() {
    let mut lb = EwmaBalancer::new();
    lb.add_node(make_node("warm", 8001));
    lb.add_node(make_node("cold", 8002));
    for _ in 0..COLD_THRESHOLD {
        record(&mut lb, "warm", 50.0);
    }
    for _ in 0..5 {
        assert_eq!(lb.select(&http()).unwrap().node.id, "cold");
    }
}

#[test]
fn ewma_converges() {
    let mut lb = EwmaBalancer::new();
    lb.add_node(make_node("n1", 8001));
    for i in 1..=20 {
        record(&mut lb, "n1", (i * 10) as f64);
    }
    let ewma = f64::from_bits(lb.get_ewma("n1").unwrap());
    assert!(ewma > 10.0, "EWMA should be > 10ms: {}", ewma);
    assert!(ewma < 200.0, "EWMA should be < 200ms: {}", ewma);
}

#[test]
fn sample_count_tracks() {
    let mut lb = EwmaBalancer::new();
    lb.add_node(make_node("n1", 8001));
    assert_eq!(lb.get_sample_count("n1"), Some(0));
    record(&mut lb, "n1", 10.0);
    assert_eq!(lb.get_sample_count("n1"), Some(1));
    for _ in 0..9 {
        record(&mut lb, "n1", 10.0);
    }
    assert_eq!(lb.get_sample_count("n1"), Some(10));
}

#[test]
fn custom_alpha() {
    let mut lb = EwmaBalancer::with_alpha(0.9f64.to_bits());
    lb.add_node(make_node("n1", 8001));
    record(&mut lb, "n1", 100.0);
    record(&mut lb, "n1", 10.0);
    let ewma = f64::from_bits(lb.get_ewma("n1").unwrap());
    assert!(ewma < 25.0, "High alpha should weight recent values: {}", ewma);
}

#[test]
fn an_untracked_node_takes_no_sample() {
    let mut lb = EwmaBalancer::new();
    record(&mut lb, "ghost", 10.0);
    lb.record_response_time("ghost", 10.0f64.to_bits());
    assert_eq!(lb.get_ewma("ghost"), None);
    assert_eq!(lb.get_sample_count("ghost"), None);
    lb.add_node(make_node("n1", 8001));
    lb.remove_node("n1");
    assert_eq!(lb.get_sample_count("n1"), None);
    assert_eq!(f64::from_bits(lb.alpha()), 0.5);
}

#[test]
fn distributes_across_nodes() {
    let mut lb = HttpRandomBalancer::new();
    lb.add_node(make_node("n1", 8001));
    lb.add_node(make_node("n2", 8002));
    lb.add_node(make_node("n3", 8003));
    let mut seen = HashSet::new();
    for _ in 0..100 {
        seen.insert(lb.select(&http()).unwrap().node.id);
    }
    assert_eq!(seen.len(), 3);
}

#[test]
fn response_has_empty_headers() {
    let mut lb = HttpRoundRobinBalancer::new();
    lb.add_node(make_node("n1", 8001));
    let resp = lb.select(&http()).unwrap();
    assert!(resp.headers_to_add.is_empty());
}

#[test]
fn murmur3_has_its_known_values() {
    let direct = murmur3::murmur3_x64_128(&mut &b"10.0.0.1:5000"[..], 0).unwrap();
    assert_eq!(murmur3_hash(b"10.0.0.1:5000"), direct);
    assert_eq!(murmur3_hash(b""), 0);
    assert_ne!(murmur3_hash(b"a"), murmur3_hash(b"b"));
}

#[test]
fn lookup_goes_clockwise_and_wraps() {
    let mut ring = HashRing::new();
    ring.add_node(make_node("n1", 8001));
    ring.add_node(make_node("n2", 8002));
    assert_eq!(ring.len(), 2);
    let at_end = ring.lookup(u128::MAX).unwrap().id;
    let at_start = ring.lookup(0).unwrap().id;
    assert_eq!(at_end, at_start);
    ring.insert_point(u128::MAX, "n2");
    assert_eq!(ring.lookup(u128::MAX).unwrap().id, "n2");
}

#[test]
fn adding_a_node_moves_keys_only_to_it() {
    let mut before = HashRing::new();
    before.add_node(make_node("n1", 8001));
    before.add_node(make_node("n2", 8002));
    let mut after = HashRing::new();
    after.add_node(make_node("n1", 8001));
    after.add_node(make_node("n2", 8002));
    after.add_node(make_node("n3", 8003));
    for i in 0..200 {
        let key = format!("10.0.0.{}:{}", i % 256, 1000 + i);
        let old = before.node_for(&key).unwrap().id;
        let new = after.node_for(&key).unwrap().id;
        assert!(new == old || new == "n3");
    }
    after.remove_node("n3");
    for i in 0..200 {
        let key = format!("10.0.0.{}:{}", i % 256, 1000 + i);
        assert_eq!(before.node_for(&key).unwrap().id, after.node_for(&key).unwrap().id);
    }
}
