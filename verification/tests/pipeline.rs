use redis_cluster_async::hash::slot_for_key;
use redis_cluster_async::pipeline::{ConnectionState, Dispatch, Pipeline, Rejected, Route};
use redis_cluster_async::pool::EndpointSet;
use redis_cluster_async::request::{ErrorClass, Message, Next, Outcome, RequestState, SendOp};
use redis_cluster_async::slots::{build_slot_map, Slot, SlotMap};

const A: &str = "redis://127.0.0.1:7000";
const B: &str = "redis://127.0.0.1:7001";
const C: &str = "redis://127.0.0.1:7002";

fn pool(names: &[&str]) -> EndpointSet {
    let mut set = EndpointSet::new();
    for n in names {
        set.insert(n.to_string());
    }
    set
}

fn slots() -> SlotMap {
    build_slot_map(vec![
        Slot::new(0, 5460, A.to_string(), Vec::new()),
        Slot::new(5461, 10922, B.to_string(), Vec::new()),
        Slot::new(10923, 16383, C.to_string(), Vec::new()),
    ])
    .unwrap()
}

fn engine(retries: Option<u32>) -> Pipeline {
    Pipeline::new(pool(&[A, B, C]), slots(), retries)
}

fn get(key: &str) -> Message {
    Message::one(redis::cmd("GET").arg(key).get_packed_command())
}

fn owner_of_key(key: &str) -> &'static str {
    let slot = slot_for_key(key.as_bytes());
    if slot <= 5460 {
        A
    } else if slot <= 10922 {
        B
    } else {
        C
    }
}

fn pooled(d: &Dispatch) -> String {
    match &d.route {
        Route::Pooled { addr } => addr.clone(),
        other => panic!("expected a pooled route, got {:?}", other),
    }
}

#[test]
fn state_labels() {
    assert_eq!(ConnectionState::PollComplete.label(), "PollComplete");
    assert_eq!(ConnectionState::Recover.label(), "Recover");
}

#[test]
fn new_engine_is_idle_and_empty() {
    let p = engine(Some(16));
    assert_eq!(p.state(), ConnectionState::PollComplete);
    assert!(!p.is_recovering());
    assert!(p.is_drained());
    assert_eq!(p.in_flight(), 0);
    assert_eq!(p.retries(), Some(16));
    assert_eq!(p.connections().len(), 3);
    assert_eq!(p.slots().len(), 3);
}

#[test]
fn accepted_commands_become_idle_requests() {
    let mut p = engine(Some(5));
    assert_eq!(p.start_send(get("test")), Some(0));
    assert_eq!(p.start_send(Message::many(b"*1\r\n$4\r\nPING\r\n".to_vec(), 1, 2)), Some(1));
    assert_eq!(p.in_flight(), 2);
    assert!(!p.is_drained());
    let r = p.request(0).unwrap();
    assert_eq!(r.id(), 0);
    assert_eq!(r.slot(), Some(slot_for_key(b"test")));
    assert_eq!(r.retry(), 0);
    assert_eq!(r.max_retries(), Some(5));
    assert_eq!(r.state(), RequestState::Idle);
    assert_eq!(r.op(), SendOp::One);
    assert!(r.excludes().is_empty());
    let r = p.request(1).unwrap();
    assert_eq!(r.slot(), None);
    assert_eq!(r.op(), SendOp::Many);
    assert_eq!((r.cmd().offset, r.cmd().count), (1, 2));
    assert!(p.request(2).is_none());
}

#[test]
fn requests_are_routed_to_the_owner_of_their_slot() {
    for key in ["test", "foo", "bar", "mystream", "{user1000}.following", "a", "zzz"] {
        let mut p = engine(Some(16));
        let id = p.start_send(get(key)).unwrap();
        let d = p.next_dispatch().unwrap();
        assert_eq!(d.id, id);
        assert_eq!(pooled(&d), owner_of_key(if key.starts_with('{') { "user1000" } else { key }));
        assert_eq!(p.request(id).unwrap().state(), RequestState::InFlight);
        assert!(p.next_dispatch().is_none());
    }
}

#[test]
fn requests_without_a_key_go_to_any_pooled_endpoint() {
    let mut p = engine(Some(16));
    for _ in 0..50 {
        p.start_send(Message::one(redis::cmd("PING").get_packed_command())).unwrap();
    }
    let orders = p.poll_flush();
    assert_eq!(orders.len(), 50);
    for d in &orders {
        let addr = pooled(d);
        assert!(addr == A || addr == B || addr == C);
    }
}

#[test]
fn flush_dispatches_every_idle_request_in_order() {
    let mut p = engine(Some(16));
    let a = p.start_send(get("test")).unwrap();
    let b = p.start_send(get("foo")).unwrap();
    let c = p.start_send(get("bar")).unwrap();
    assert_eq!(p.waiting(), 3);
    let first = p.next_dispatch().unwrap();
    assert_eq!(first.id, a);
    assert_eq!(p.waiting(), 2);
    let orders = p.poll_flush();
    assert_eq!(p.waiting(), 0);
    let ids: Vec<u64> = orders.iter().map(|d| d.id).collect();
    assert_eq!(ids, vec![b, c]);
    assert_eq!(pooled(&orders[0]), owner_of_key("foo"));
    assert_eq!(pooled(&orders[1]), owner_of_key("bar"));
    assert!(p.poll_flush().is_empty());
    for id in [a, b, c] {
        assert_eq!(p.request(id).unwrap().state(), RequestState::InFlight);
    }
}

#[test]
fn owner_outside_the_pool_gets_a_fresh_connection() {
    let mut p = Pipeline::new(pool(&[A, B]), slots(), Some(16));
    // Find a key that C owns.
    let key = ["test", "foo", "bar", "a", "b", "c", "d", "e", "f", "g"]
        .into_iter()
        .find(|k| owner_of_key(k) == C)
        .unwrap();
    p.start_send(get(key)).unwrap();
    let d = p.next_dispatch().unwrap();
    match d.route {
        Route::Fresh { addr, fallback } => {
            assert_eq!(addr, C);
            assert!(fallback == A || fallback == B);
        }
        other => panic!("expected a fresh connection, got {:?}", other),
    }
}

#[test]
fn empty_slot_map_routes_at_random() {
    let mut p = Pipeline::new(pool(&[A]), SlotMap::new(), Some(16));
    p.start_send(get("test")).unwrap();
    let d = p.next_dispatch().unwrap();
    assert_eq!(pooled(&d), A);
    assert_eq!(pooled(&Dispatch { id: 0, route: p.get_connection(77) }), A);
}

#[test]
fn a_draw_decides_the_random_routes() {
    let mut p = engine(Some(16));
    let id = p.start_send(Message::one(redis::cmd("PING").get_packed_command())).unwrap();
    let r = p.request(id).unwrap();
    for (draw, name) in [(0usize, A), (1, B), (2, C)] {
        match p.route_with(r, Some(draw)) {
            Some(Route::Pooled { addr }) => assert_eq!(addr, name),
            other => panic!("unexpected {:?}", other),
        }
    }
    assert!(p.route_with(r, Some(3)).is_none());
    assert!(p.route_with(r, None).is_none());
    // A request with a slot whose owner is pooled needs no draw.
    let id = p.start_send(get("test")).unwrap();
    let r = p.request(id).unwrap();
    match p.route_with(r, None) {
        Some(Route::Pooled { addr }) => assert_eq!(addr, owner_of_key("test")),
        other => panic!("unexpected {:?}", other),
    }
}

#[test]
fn success_delivers_and_removes_the_request() {
    let mut p = engine(Some(16));
    let id = p.start_send(get("test")).unwrap();
    let d = p.next_dispatch().unwrap();
    assert_eq!(p.handle_reply(id, pooled(&d), Outcome::Succeeded), Ok(Next::Done));
    assert!(p.is_drained());
    assert!(p.request(id).is_none());
    // A second answer for the same request finds nothing.
    assert_eq!(
        p.handle_reply(id, A.to_string(), Outcome::Succeeded),
        Err(Rejected::NoSuchRequest)
    );
}

#[test]
fn replies_for_requests_that_are_not_in_flight_are_rejected() {
    let mut p = engine(Some(16));
    let id = p.start_send(get("test")).unwrap();
    // Accepted but not dispatched yet.
    assert_eq!(
        p.handle_reply(id, A.to_string(), Outcome::Succeeded),
        Err(Rejected::NoSuchRequest)
    );
    assert_eq!(p.handle_reply(99, A.to_string(), Outcome::Succeeded), Err(Rejected::NoSuchRequest));
    assert_eq!(p.handle_timer(id), Err(Rejected::NoSuchRequest));
    assert_eq!(p.in_flight(), 1);
}

#[test]
fn other_errors_are_retried_elsewhere_until_the_pool_is_exhausted() {
    let mut p = engine(Some(16));
    let id = p.start_send(get("test")).unwrap();
    let mut tried = Vec::new();
    let mut attempts = 0;
    loop {
        let d = p.next_dispatch().unwrap();
        let addr = pooled(&d);
        assert!(!tried.contains(&addr), "{} was tried twice", addr);
        tried.push(addr.clone());
        attempts += 1;
        match p.handle_reply(id, addr, Outcome::Failed(ErrorClass::Other)).unwrap() {
            Next::TryNewConnection => {
                assert_eq!(p.request(id).unwrap().state(), RequestState::Idle);
            }
            Next::Done => break,
            other => panic!("unexpected {:?}", other),
        }
    }
    assert_eq!(attempts, 3);
    assert_eq!(tried[0], owner_of_key("test"));
    assert!(p.is_drained());
}

#[test]
fn a_request_ends_after_its_retries() {
    for limit in [0u32, 1, 3] {
        let mut p = engine(Some(limit));
        let id = p.start_send(get("test")).unwrap();
        let mut attempts = 0;
        loop {
            let d = p.next_dispatch().unwrap();
            attempts += 1;
            match p.handle_reply(id, pooled(&d), Outcome::Failed(ErrorClass::TryAgain)).unwrap() {
                Next::Sleep { .. } => {
                    assert_eq!(p.request(id).unwrap().state(), RequestState::Delayed);
                    assert!(p.next_dispatch().is_none());
                    assert_eq!(p.handle_timer(id), Ok(()));
                }
                Next::Done => break,
                other => panic!("unexpected {:?}", other),
            }
        }
        assert_eq!(attempts, limit + 1);
        assert!(p.is_drained());
    }
}

#[test]
fn moved_puts_the_engine_into_recovery() {
    let mut p = engine(Some(16));
    let moved = p.start_send(get("test")).unwrap();
    let other = p.start_send(get("foo")).unwrap();
    let orders = p.poll_flush();
    assert_eq!(orders.len(), 2);
    assert_eq!(
        p.handle_reply(moved, pooled(&orders[0]), Outcome::Failed(ErrorClass::Moved)),
        Ok(Next::Refresh)
    );
    assert!(p.is_recovering());
    assert_eq!(p.state(), ConnectionState::Recover);
    assert_eq!(p.request(moved).unwrap().state(), RequestState::Idle);
    assert_eq!(p.request(moved).unwrap().retry(), 1);

    // Nothing is dispatched and no answer is taken in while recovering.
    assert_eq!(p.waiting(), 0);
    assert!(p.next_dispatch().is_none());
    assert!(p.poll_flush().is_empty());
    assert_eq!(
        p.handle_reply(other, pooled(&orders[1]), Outcome::Succeeded),
        Err(Rejected::Recovering)
    );
    assert_eq!(p.handle_timer(moved), Err(Rejected::Recovering));
    assert_eq!(p.request(other).unwrap().state(), RequestState::InFlight);

    // New commands are still accepted, and wait.
    let late = p.start_send(get("bar")).unwrap();
    assert!(p.next_dispatch().is_none());
    assert_eq!(p.in_flight(), 3);

    // The new topology moves everything to one node.
    let new_slots = build_slot_map(vec![Slot::new(0, 16383, C.to_string(), Vec::new())]).unwrap();
    p.install(new_slots, pool(&[C]));
    assert!(!p.is_recovering());
    assert_eq!(p.connections().len(), 1);

    let orders = p.poll_flush();
    let ids: Vec<u64> = orders.iter().map(|d| d.id).collect();
    assert_eq!(ids, vec![moved, late]);
    for d in &orders {
        assert_eq!(pooled(d), C);
    }
    // The answer that was held back is taken in now.
    assert_eq!(p.handle_reply(other, A.to_string(), Outcome::Succeeded), Ok(Next::Done));
    assert_eq!(p.handle_reply(moved, C.to_string(), Outcome::Succeeded), Ok(Next::Done));
    assert_eq!(p.handle_reply(late, C.to_string(), Outcome::Succeeded), Ok(Next::Done));
    assert!(p.is_drained());
}

#[test]
fn ask_is_handled_like_moved() {
    let mut p = engine(Some(16));
    let id = p.start_send(get("test")).unwrap();
    let d = p.next_dispatch().unwrap();
    assert_eq!(
        p.handle_reply(id, pooled(&d), Outcome::Failed(ErrorClass::Ask)),
        Ok(Next::Refresh)
    );
    assert!(p.is_recovering());
}

#[test]
fn moved_on_the_last_retry_is_delivered() {
    let mut p = engine(Some(0));
    let id = p.start_send(get("test")).unwrap();
    let d = p.next_dispatch().unwrap();
    assert_eq!(p.handle_reply(id, pooled(&d), Outcome::Failed(ErrorClass::Moved)), Ok(Next::Done));
    assert!(!p.is_recovering());
    assert!(p.is_drained());
}

#[test]
fn every_request_gets_exactly_one_result() {
    let mut p = engine(Some(2));
    let mut results = std::collections::HashMap::new();
    let mut ids = Vec::new();
    for i in 0..40 {
        ids.push(p.start_send(get(&format!("key-{}", i))).unwrap());
    }
    let mut round = 0;
    while !p.is_drained() {
        round += 1;
        assert!(round < 100, "requests never finished");
        for d in p.poll_flush() {
            let addr = match d.route {
                Route::Pooled { addr } => addr,
                Route::Fresh { addr, .. } => addr,
            };
            let outcome = match (d.id + round) % 4 {
                0 => Outcome::Succeeded,
                1 => Outcome::Failed(ErrorClass::Other),
                2 => Outcome::Failed(ErrorClass::TryAgain),
                _ => Outcome::Failed(ErrorClass::Moved),
            };
            match p.handle_reply(d.id, addr, outcome) {
                Ok(Next::Done) => {
                    *results.entry(d.id).or_insert(0) += 1;
                }
                Ok(Next::Sleep { .. }) => {}
                Ok(Next::TryNewConnection) => {}
                Ok(Next::Refresh) => {
                    p.install(slots(), pool(&[A, B, C]));
                }
                Err(Rejected::Recovering) => panic!("recovery was not finished"),
                Err(Rejected::NoSuchRequest) => panic!("request vanished"),
            }
        }
        for id in &ids {
            let _ = p.handle_timer(*id);
        }
    }
    assert_eq!(results.len(), ids.len());
    for id in ids {
        assert_eq!(results[&id], 1);
    }
}

#[test]
fn a_route_names_its_endpoints() {
    let pooled = Route::Pooled { addr: A.to_string() };
    assert_eq!(pooled.fresh(), None);
    assert_eq!(pooled.pooled(), A);
    assert_eq!(pooled.target(true), A);
    assert_eq!(Route::Pooled { addr: A.to_string() }.target(false), A);

    let fresh = Route::Fresh { addr: C.to_string(), fallback: B.to_string() };
    assert_eq!(fresh.fresh(), Some(&C.to_string()));
    assert_eq!(fresh.pooled(), B);
    assert_eq!(fresh.target(true), C);
    assert_eq!(Route::Fresh { addr: C.to_string(), fallback: B.to_string() }.target(false), B);
}

#[test]
fn an_engine_without_connections_takes_commands_and_holds_them() {
    let mut p = Pipeline::new(EndpointSet::new(), SlotMap::new(), Some(16));
    // With nothing to send, an empty pool does no harm.
    assert!(p.next_dispatch().is_none());
    assert!(p.poll_flush().is_empty());
    let id = p.start_send(get("test")).unwrap();
    assert_eq!(p.waiting(), 1);
    let plan = p.refresh_slots();
    assert_eq!(plan.finish().err(), Some(redis_cluster_async::refresh::RefreshError::NoConnections));
    p.install(slots(), pool(&[A, B, C]));
    let d = p.next_dispatch().unwrap();
    assert_eq!(d.id, id);
}

#[test]
fn a_draw_decides_the_way_to_a_slot() {
    let p = Pipeline::new(pool(&[A, B]), slots(), Some(16));
    // The owner of slot 0 is pooled: no draw is looked at.
    for drawn in [None, Some(0), Some(1), Some(7)] {
        match p.slot_route(0, drawn) {
            Some(Route::Pooled { addr }) => assert_eq!(addr, A),
            other => panic!("unexpected {:?}", other),
        }
    }
    // The owner of the last slot is not pooled: the draw picks the fallback.
    for (drawn, fallback) in [(0usize, A), (1, B)] {
        match p.slot_route(16383, Some(drawn)) {
            Some(Route::Fresh { addr, fallback: spare }) => {
                assert_eq!(addr, C);
                assert_eq!(spare, fallback);
            }
            other => panic!("unexpected {:?}", other),
        }
    }
    assert!(p.slot_route(16383, Some(2)).is_none());
    assert!(p.slot_route(16383, None).is_none());
    // Past the last slot nobody owns anything: the draw picks the endpoint.
    match p.slot_route(16384, Some(1)) {
        Some(Route::Pooled { addr }) => assert_eq!(addr, B),
        other => panic!("unexpected {:?}", other),
    }
    for _ in 0..50 {
        match p.get_connection(16383) {
            Route::Fresh { addr, fallback } => {
                assert_eq!(addr, C);
                assert!(fallback == A || fallback == B);
            }
            other => panic!("unexpected {:?}", other),
        }
    }
}
