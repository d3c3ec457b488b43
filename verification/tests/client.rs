use redis_cluster_async::client::{Client, NodeAddr, DEFAULT_RETRIES};
use redis_cluster_async::error::ClusterError;

fn tcp(host: &str, port: u16) -> NodeAddr {
    NodeAddr::Tcp { host: host.to_string(), port }
}

fn names(set: &redis_cluster_async::pool::EndpointSet) -> Vec<String> {
    (0..set.len()).map(|i| set.get(i).clone()).collect()
}

#[test]
fn open_reads_the_endpoints() {
    let client = Client::open(vec![
        "redis://127.0.0.1:7000/".to_string(),
        "redis://127.0.0.1:7001/".to_string(),
        "redis://localhost".to_string(),
    ])
    .unwrap();
    assert_eq!(
        client.initial_nodes(),
        &vec![tcp("127.0.0.1", 7000), tcp("127.0.0.1", 7001), tcp("localhost", 6379)]
    );
    assert_eq!(client.retries(), Some(16));
    assert_eq!(DEFAULT_RETRIES, 16);
}

#[test]
fn open_without_endpoints() {
    let client = Client::open(Vec::new()).unwrap();
    assert!(client.initial_nodes().is_empty());
    assert_eq!(
        client.create_initial_connections(&Vec::new()).err(),
        Some(ClusterError::NoInitialConnections)
    );
}

#[test]
fn open_refuses_unix_sockets() {
    let made = Client::open(vec![
        "redis://127.0.0.1:7000/".to_string(),
        "unix:///tmp/redis.sock".to_string(),
        "redis://127.0.0.1:7001/".to_string(),
    ]);
    assert_eq!(made.err(), Some(ClusterError::UnixSocket { index: 1 }));
    let made = Client::open(vec!["redis+unix:///tmp/redis.sock".to_string()]);
    assert_eq!(made.err(), Some(ClusterError::UnixSocket { index: 0 }));
}

#[test]
fn open_refuses_what_is_no_address() {
    let made = Client::open(vec![
        "redis://127.0.0.1:7000/".to_string(),
        "http://127.0.0.1:7000/".to_string(),
    ]);
    assert_eq!(made.err(), Some(ClusterError::InvalidUrl { index: 1 }));
    let made = Client::open(vec!["not an url".to_string(), "unix:///x".to_string()]);
    assert_eq!(made.err(), Some(ClusterError::InvalidUrl { index: 0 }));
}

#[test]
fn with_nodes_reports_the_first_unusable_endpoint() {
    let made = Client::with_nodes(vec![Some(tcp("a", 1)), Some(NodeAddr::Unix), None]);
    assert_eq!(made.err(), Some(ClusterError::UnixSocket { index: 1 }));
    let made = Client::with_nodes(vec![Some(tcp("a", 1)), None, Some(NodeAddr::Unix)]);
    assert_eq!(made.err(), Some(ClusterError::InvalidUrl { index: 1 }));
    let client = Client::with_nodes(vec![
        Some(tcp("a", 1)),
        Some(NodeAddr::TcpTls { host: "b".to_string(), port: 2 }),
    ])
    .unwrap();
    assert_eq!(client.initial_nodes().len(), 2);
    assert_eq!(client.retries(), Some(16));
}

#[test]
fn retries_can_be_set() {
    let mut client = Client::open(vec!["redis://127.0.0.1:7000/".to_string()]).unwrap();
    client.set_retries(None);
    assert_eq!(client.retries(), None);
    client.set_retries(Some(3));
    assert_eq!(client.retries(), Some(3));
}

#[test]
fn endpoints_are_named() {
    assert_eq!(tcp("127.0.0.1", 7000).endpoint(), Some("redis://127.0.0.1:7000".to_string()));
    assert_eq!(
        NodeAddr::TcpTls { host: "h".to_string(), port: 1 }.endpoint(),
        Some("rediss://h:1".to_string())
    );
    assert_eq!(NodeAddr::Unix.endpoint(), None);
    assert_eq!(tcp("h", 9).duplicate(), tcp("h", 9));
}

#[test]
fn initial_pool_holds_the_nodes_that_connected() {
    let client = Client::with_nodes(vec![
        Some(tcp("a", 1)),
        Some(tcp("b", 2)),
        Some(tcp("a", 1)),
        Some(tcp("c", 3)),
    ])
    .unwrap();
    let pool = client.create_initial_connections(&vec![true, false, true, true]).unwrap();
    assert_eq!(names(&pool), vec!["redis://a:1", "redis://c:3"]);
    let pool = client.create_initial_connections(&vec![false, true]).unwrap();
    assert_eq!(names(&pool), vec!["redis://b:2"]);
    assert_eq!(
        client.create_initial_connections(&vec![false, false, false, false]).err(),
        Some(ClusterError::NoInitialConnections)
    );
    assert_eq!(
        client.create_initial_connections(&Vec::new()).err(),
        Some(ClusterError::NoInitialConnections)
    );
}

#[test]
fn a_copy_keeps_nodes_and_retries() {
    let mut client = Client::with_nodes(vec![Some(tcp("a", 1)), Some(tcp("b", 2))]).unwrap();
    client.set_retries(Some(4));
    let copy = client.duplicate();
    assert_eq!(copy.initial_nodes(), client.initial_nodes());
    assert_eq!(copy.retries(), Some(4));
}

#[test]
fn set_retries_can_be_chained() {
    let mut client = Client::with_nodes(vec![Some(tcp("a", 1))]).unwrap();
    assert_eq!(client.set_retries(None).retries(), None);
    assert_eq!(client.set_retries(Some(1)).set_retries(Some(2)).retries(), Some(2));
}
