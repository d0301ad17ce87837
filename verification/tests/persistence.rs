use expressgateway::l7::round_robin::HttpRoundRobinBalancer;
use expressgateway::net::{FourTuple, IpAddr, SocketAddr};
use expressgateway::node::{HttpRequest, LoadBalancer, Node, NodeState};
use expressgateway::session::four_tuple::FourTuplePersistence;
use expressgateway::session::source_ip::{mask_ip, SourceIpPersistence};
use expressgateway::sticky::{
    build_cookie, cookie_value_of, extract_cookie, hash_node_id, StickySessionBalancer, COOKIE_NAME,
};

const MS: u128 = 1_000_000;
const HOUR: u128 = 3_600_000 * MS;

fn make_tuple(src_port: u16, dst_port: u16) -> FourTuple {
    FourTuple {
        src_addr: SocketAddr::V4 { octets: [10, 0, 0, 1], port: src_port },
        dst_addr: SocketAddr::V4 { octets: [192, 168, 1, 1], port: dst_port },
    }
}

#[test]
fn four_tuple_basic_put_get() {
    let mut store = FourTuplePersistence::new();
    let key = make_tuple(5000, 80);
    store.put(&key, "node-1".to_string(), 0);
    assert_eq!(store.get(&key, 0), Some("node-1".to_string()));
}

#[test]
fn different_tuples_independent() {
    let mut store = FourTuplePersistence::new();
    let k1 = make_tuple(5000, 80);
    let k2 = make_tuple(5001, 80);
    store.put(&k1, "node-1".to_string(), 0);
    store.put(&k2, "node-2".to_string(), 0);
    assert_eq!(store.get(&k1, 0), Some("node-1".to_string()));
    assert_eq!(store.get(&k2, 0), Some("node-2".to_string()));
}

#[test]
fn four_tuple_ttl_expiry() {
    let mut store = FourTuplePersistence::with_config(MS, 500_000);
    let key = make_tuple(5000, 80);
    store.put(&key, "node-1".to_string(), 0);
    assert_eq!(store.get(&key, 10 * MS), None);
    assert!(store.is_empty());
}

#[test]
fn four_tuple_capacity_eviction() {
    let max = 100;
    let mut store = FourTuplePersistence::with_config(HOUR, max);
    for i in 0..max as u16 {
        let key = make_tuple(5000 + i, 80);
        store.put(&key, format!("node-{}", i), 0);
    }
    assert_eq!(store.len(), max);
    let new_key = make_tuple(9999, 443);
    store.put(&new_key, "node-new".to_string(), 0);
    assert!(store.len() <= max, "Size after eviction: {}", store.len());
    assert_eq!(store.get(&new_key, 0), Some("node-new".to_string()));
}

#[test]
fn four_tuple_remove_entry() {
    let mut store = FourTuplePersistence::new();
    let key = make_tuple(5000, 80);
    store.put(&key, "node-1".to_string(), 0);
    store.remove(&key);
    assert_eq!(store.get(&key, 0), None);
    assert!(store.is_empty());
}

#[test]
fn ipv6_ends_differ_in_every_part() {
    let mut store = FourTuplePersistence::new();
    let v6 = |port: u16, scope_id: u32| FourTuple {
        src_addr: SocketAddr::V6 { groups: [1, 2, 3, 4, 5, 6, 7, 8], port, flowinfo: 0, scope_id },
        dst_addr: SocketAddr::V4 { octets: [192, 168, 1, 1], port: 80 },
    };
    store.put(&v6(1, 0), "a".to_string(), 0);
    store.put(&v6(1, 9), "b".to_string(), 0);
    assert_eq!(store.len(), 2);
    assert_eq!(store.get(&v6(1, 0), 0), Some("a".to_string()));
    assert_eq!(store.get(&v6(1, 9), 0), Some("b".to_string()));
    assert_eq!(store.get(&v6(2, 0), 0), None);
}

#[test]
fn source_ip_basic_put_get() {
    let mut store = SourceIpPersistence::new();
    let ip = IpAddr::V4([192, 168, 1, 100]);
    store.put(&ip, "node-1".to_string(), 0);
    assert_eq!(store.get(&ip, 0), Some("node-1".to_string()));
}

#[test]
fn same_subnet_maps_to_same_entry() {
    let mut store = SourceIpPersistence::new();
    store.put(&IpAddr::V4([192, 168, 1, 100]), "node-1".to_string(), 0);
    assert_eq!(store.get(&IpAddr::V4([192, 168, 1, 200]), 0), Some("node-1".to_string()));
}

#[test]
fn different_subnets_are_independent() {
    let mut store = SourceIpPersistence::new();
    let ip1 = IpAddr::V4([192, 168, 1, 100]);
    let ip2 = IpAddr::V4([192, 168, 2, 100]);
    store.put(&ip1, "node-1".to_string(), 0);
    store.put(&ip2, "node-2".to_string(), 0);
    assert_eq!(store.get(&ip1, 0), Some("node-1".to_string()));
    assert_eq!(store.get(&ip2, 0), Some("node-2".to_string()));
}

#[test]
fn ipv6_masking() {
    let masked = mask_ip(&IpAddr::V6([0x2001, 0xdb8, 0xabcd, 0x1234, 0, 0, 0, 1]));
    assert_eq!(masked, "2001:db8:abcd::/48");
    assert_eq!(mask_ip(&IpAddr::V4([10, 1, 2, 3])), "10.1.2.0/24");
}

#[test]
fn source_ip_ttl_expiry() {
    let mut store = SourceIpPersistence::with_config(MS, 100_000);
    let ip = IpAddr::V4([10, 0, 0, 1]);
    store.put(&ip, "node-1".to_string(), 0);
    assert_eq!(store.get(&ip, 10 * MS), None);
}

#[test]
fn an_entry_lives_until_its_time_is_over() {
    let mut store = SourceIpPersistence::with_config(10 * MS, 100);
    let ip = IpAddr::V4([10, 0, 0, 1]);
    store.put(&ip, "node-1".to_string(), 5 * MS);
    assert_eq!(store.get(&ip, 6 * MS), Some("node-1".to_string()));
    assert_eq!(store.get(&ip, 30 * MS), None);
}

#[test]
fn source_ip_capacity_eviction() {
    let max = 100;
    let mut store = SourceIpPersistence::with_config(HOUR, max);
    for i in 0..max {
        let ip = IpAddr::V4([10, (i / 256) as u8, (i % 256) as u8, 1]);
        store.put(&ip, format!("node-{}", i), 0);
    }
    assert_eq!(store.len(), max);
    let new_ip = IpAddr::V4([172, 16, 0, 1]);
    store.put(&new_ip, "node-new".to_string(), 0);
    assert!(store.len() <= max, "Size should be <= max after eviction: {}", store.len());
    assert_eq!(store.get(&new_ip, 0), Some("node-new".to_string()));
}

#[test]
fn eviction_takes_expired_entries_first() {
    let mut store = SourceIpPersistence::with_config(10 * MS, 20);
    for i in 0..10u8 {
        store.put(&IpAddr::V4([10, 0, i, 1]), "old".to_string(), 0);
    }
    for i in 10..20u8 {
        store.put(&IpAddr::V4([10, 0, i, 1]), "young".to_string(), 9 * MS);
    }
    store.put(&IpAddr::V4([172, 16, 0, 1]), "new".to_string(), 12 * MS);
    for i in 10..20u8 {
        assert_eq!(store.get(&IpAddr::V4([10, 0, i, 1]), 12 * MS), Some("young".to_string()));
    }
    assert_eq!(store.get(&IpAddr::V4([172, 16, 0, 1]), 12 * MS), Some("new".to_string()));
}

#[test]
fn a_tiny_table_keeps_its_capacity() {
    for max in 1..12usize {
        let mut store = SourceIpPersistence::with_config(HOUR, max);
        for i in 0..20u8 {
            let ip = IpAddr::V4([10, 0, i, 1]);
            store.put(&ip, format!("n{}", i), 0);
            assert!(store.len() <= max, "{} of {}", store.len(), max);
            assert_eq!(store.get(&ip, 0), Some(format!("n{}", i)));
        }
    }
    let mut store = SourceIpPersistence::with_config(HOUR, 5);
    for i in 0..8u8 {
        store.put(&IpAddr::V4([10, 0, i, 1]), "n".to_string(), 0);
    }
    assert!(store.len() <= 5);
}

#[test]
fn a_tiny_connection_table_keeps_its_capacity() {
    let mut store = FourTuplePersistence::with_config(HOUR, 1);
    for port in 1..6u16 {
        let t = FourTuple {
            src_addr: SocketAddr::V4 { octets: [10, 0, 0, 1], port },
            dst_addr: SocketAddr::V4 { octets: [10, 0, 0, 2], port: 80 },
        };
        store.put(&t, "n".to_string(), 0);
        assert_eq!(store.len(), 1);
        assert_eq!(store.get(&t, 0), Some("n".to_string()));
    }
}

#[test]
fn source_ip_remove_entry() {
    let mut store = SourceIpPersistence::new();
    let ip = IpAddr::V4([10, 0, 0, 1]);
    store.put(&ip, "node-1".to_string(), 0);
    assert_eq!(store.len(), 1);
    store.remove(&ip);
    assert_eq!(store.len(), 0);
    assert_eq!(store.get(&ip, 0), None);
}

#[test]
fn is_empty() {
    let mut store = SourceIpPersistence::new();
    assert!(store.is_empty());
    store.put(&IpAddr::V4([10, 0, 0, 1]), "node-1".to_string(), 0);
    assert!(!store.is_empty());
}

fn make_node(id: &str, port: u16) -> Node {
    Node::new(id.to_string(), format!("127.0.0.1:{}", port), 1, None)
}

fn make_request(host: Option<&str>, cookie: Option<&str>) -> HttpRequest {
    let mut headers = Vec::new();
    if let Some(c) = cookie {
        headers.push(("Cookie".to_string(), format!("{}={}", COOKIE_NAME, c)));
    }
    HttpRequest {
        client_ip: "10.0.0.1".to_string(),
        host: host.map(String::from),
        path: "/".to_string(),
        headers,
    }
}

#[test]
fn injects_set_cookie_on_first_request() {
    let mut lb = StickySessionBalancer::new(HttpRoundRobinBalancer::new(), false);
    lb.add_node(make_node("n1", 8001));
    let resp = lb.select(&make_request(Some("example.com"), None)).unwrap();
    assert_eq!(resp.node.id, "n1");
    assert_eq!(resp.headers_to_add.len(), 1);
    let (name, value) = &resp.headers_to_add[0];
    assert_eq!(name, "Set-Cookie");
    assert!(value.contains(COOKIE_NAME));
    assert!(value.contains("HttpOnly"));
    assert!(value.contains("SameSite=Strict"));
    assert!(value.contains("Domain=example.com"));
    assert!(!value.contains("Secure"));
}

#[test]
fn secure_flag_when_tls() {
    let mut lb = StickySessionBalancer::new(HttpRoundRobinBalancer::new(), true);
    lb.add_node(make_node("n1", 8001));
    let resp = lb.select(&make_request(Some("example.com"), None)).unwrap();
    let (_, value) = &resp.headers_to_add[0];
    assert!(value.contains("Secure"));
}

#[test]
fn sticky_routing_with_cookie() {
    let mut lb = StickySessionBalancer::new(HttpRoundRobinBalancer::new(), false);
    lb.add_node(make_node("n1", 8001));
    lb.add_node(make_node("n2", 8002));
    let resp = lb.select(&make_request(Some("example.com"), None)).unwrap();
    let first_node = resp.node.id;
    let cookie_val = hash_node_id(&first_node);
    for _ in 0..10 {
        let resp = lb.select(&make_request(Some("example.com"), Some(&cookie_val))).unwrap();
        assert_eq!(resp.node.id, first_node);
        assert!(resp.headers_to_add.is_empty());
    }
}

#[test]
fn falls_back_when_node_offline() {
    let mut lb = StickySessionBalancer::new(HttpRoundRobinBalancer::new(), false);
    lb.add_node(make_node("n1", 8001));
    lb.add_node(make_node("n2", 8002));
    let cookie_val = hash_node_id("n1");
    lb.update_node("n1", 0, NodeState::Offline);
    let resp = lb.select(&make_request(Some("example.com"), Some(&cookie_val))).unwrap();
    assert_eq!(resp.node.id, "n2");
    assert!(!resp.headers_to_add.is_empty());
}

#[test]
fn cookie_value_is_sha256_of_node_id() {
    let hash = hash_node_id("test-node-1");
    assert_eq!(hash.len(), 64);
    assert_eq!(hash, hash_node_id("test-node-1"));
    assert_ne!(hash, hash_node_id("test-node-2"));
    assert_eq!(
        hash_node_id("abc"),
        "ba7816bf8f01cfea414140de5dae2223b00361a396177a9cb410ff61f20015ad"
    );
}

#[test]
fn a_set_cookie_is_read_back() {
    let route = hash_node_id("n1");
    let cookie = build_cookie(&route, &None, true);
    assert_eq!(cookie_value_of(&cookie), Some(route));
    assert_eq!(cookie_value_of("other=1; third=2"), None);
    let mut req = make_request(None, None);
    req.headers = vec![("COOKIE".to_string(), format!("a=b; {}=xyz", COOKIE_NAME))];
    assert_eq!(extract_cookie(&req), Some("xyz".to_string()));
}

#[test]
fn a_cookie_is_found_among_others() {
    let mut lb = StickySessionBalancer::new(HttpRoundRobinBalancer::new(), false);
    lb.add_node(make_node("n1", 8001));
    lb.add_node(make_node("n2", 8002));
    let first = lb.select(&make_request(None, None)).unwrap();
    let (_, set) = &first.headers_to_add[0];
    let value = cookie_value_of(set).unwrap();
    lb.add_node(make_node("n3", 8003));
    let mut req = make_request(None, None);
    req.headers = vec![
        ("Accept".to_string(), "*/*".to_string()),
        ("cookie".to_string(), format!("theme=dark; {}={}; lang=en", COOKIE_NAME, value)),
    ];
    for _ in 0..6 {
        let again = lb.select(&req).unwrap();
        assert_eq!(again.node.id, first.node.id);
        assert!(again.headers_to_add.is_empty());
        lb.select(&make_request(None, None)).unwrap();
    }
}
