use redis_cluster_async::pool::EndpointSet;
use redis_cluster_async::request::{
    backoff, classify, CmdArg, ErrorClass, Message, Next, Outcome, Request, RequestState, Response,
    SendOp,
};

fn pool(names: &[&str]) -> EndpointSet {
    let mut set = EndpointSet::new();
    for n in names {
        set.insert(n.to_string());
    }
    set
}

fn abc() -> EndpointSet {
    pool(&["a", "b", "c"])
}

fn request(max_retries: Option<u32>) -> Request {
    Request::new(7, Message::one(b"cmd".to_vec()), Some(12), max_retries)
}

#[test]
fn codes_are_classified_letter_for_letter() {
    assert_eq!(classify(Some("MOVED")), ErrorClass::Moved);
    assert_eq!(classify(Some("ASK")), ErrorClass::Ask);
    assert_eq!(classify(Some("TRYAGAIN")), ErrorClass::TryAgain);
    assert_eq!(classify(Some("CLUSTERDOWN")), ErrorClass::ClusterDown);
    assert_eq!(classify(Some("ERR")), ErrorClass::Other);
    assert_eq!(classify(Some("moved")), ErrorClass::Other);
    assert_eq!(classify(Some("MOVED 3999 127.0.0.1:6381")), ErrorClass::Other);
    assert_eq!(classify(Some("")), ErrorClass::Other);
    assert_eq!(classify(None), ErrorClass::Other);
    assert!(ErrorClass::Moved.is_redirect() && ErrorClass::Ask.is_redirect());
    assert!(!ErrorClass::TryAgain.is_redirect() && !ErrorClass::Other.is_redirect());
    assert!(ErrorClass::TryAgain.is_transient() && ErrorClass::ClusterDown.is_transient());
    assert!(!ErrorClass::Moved.is_transient() && !ErrorClass::Other.is_transient());
}

#[test]
fn backoff_doubles_between_seven_and_sixteen() {
    assert_eq!(backoff(0), 1280);
    assert_eq!(backoff(1), 1280);
    assert_eq!(backoff(7), 1280);
    assert_eq!(backoff(8), 2560);
    assert_eq!(backoff(9), 5120);
    assert_eq!(backoff(10), 10240);
    assert_eq!(backoff(15), 327680);
    assert_eq!(backoff(16), 655360);
    assert_eq!(backoff(17), 655360);
    assert_eq!(backoff(u32::MAX), 655360);
}

#[test]
fn messages_carry_their_operation() {
    let m = Message::one(vec![1, 2, 3]);
    assert_eq!(m.cmd.cmd, vec![1, 2, 3]);
    assert_eq!((m.cmd.offset, m.cmd.count, m.op), (0, 0, SendOp::One));
    let m = Message::many(vec![4], 2, 5);
    assert_eq!((m.cmd.offset, m.cmd.count, m.op), (2, 5, SendOp::Many));
    let c = CmdArg::batch(vec![9], 1, 2);
    assert_eq!((c.cmd, c.offset, c.count), (vec![9], 1, 2));
    let c = CmdArg::single(vec![9]);
    assert_eq!((c.offset, c.count), (0, 0));
}

#[test]
fn responses_have_one_shape() {
    let one: Response<i32> = Response::Single(5);
    assert_eq!(one.op(), SendOp::One);
    assert_eq!(one.into_single(), Some(5));
    let one: Response<i32> = Response::Single(5);
    assert_eq!(one.into_multiple(), None);
    let many: Response<i32> = Response::Multiple(vec![1, 2]);
    assert_eq!(many.op(), SendOp::Many);
    assert_eq!(many.into_multiple(), Some(vec![1, 2]));
    let many: Response<i32> = Response::Multiple(vec![1, 2]);
    assert_eq!(many.into_single(), None);
}

#[test]
fn fresh_request() {
    let r = request(Some(3));
    assert_eq!(r.id(), 7);
    assert_eq!(r.cmd().cmd, b"cmd".to_vec());
    assert_eq!(r.op(), SendOp::One);
    assert_eq!(r.slot(), Some(12));
    assert_eq!(r.retry(), 0);
    assert_eq!(r.max_retries(), Some(3));
    assert_eq!(r.state(), RequestState::Idle);
    assert!(r.excludes().is_empty());
}

#[test]
fn success_finishes_the_request() {
    let mut r = request(Some(3));
    r.set_state(RequestState::InFlight);
    assert_eq!(r.poll_request("a".to_string(), Outcome::Succeeded, &abc()), Next::Done);
    assert_eq!(r.retry(), 0);
}

#[test]
fn redirection_calls_for_a_refresh() {
    for class in [ErrorClass::Moved, ErrorClass::Ask] {
        let mut r = request(Some(3));
        r.set_state(RequestState::InFlight);
        assert_eq!(
            r.poll_request("a".to_string(), Outcome::Failed(ErrorClass::Other), &abc()),
            Next::TryNewConnection
        );
        assert_eq!(r.excludes().len(), 1);
        r.set_state(RequestState::InFlight);
        assert_eq!(r.poll_request("b".to_string(), Outcome::Failed(class), &abc()), Next::Refresh);
        assert_eq!(r.retry(), 2);
        assert!(r.excludes().is_empty());
        assert_eq!(r.state(), RequestState::Idle);
    }
}

#[test]
fn transient_errors_call_for_a_pause() {
    for class in [ErrorClass::TryAgain, ErrorClass::ClusterDown] {
        let mut r = request(None);
        r.set_state(RequestState::InFlight);
        assert_eq!(
            r.poll_request("a".to_string(), Outcome::Failed(class), &abc()),
            Next::Sleep { millis: 1280 }
        );
        assert_eq!(r.state(), RequestState::Delayed);
        assert_eq!(r.retry(), 1);
        assert!(r.excludes().is_empty());
    }
}

#[test]
fn pauses_grow_with_the_retries() {
    let mut r = request(None);
    let mut pauses = Vec::new();
    for _ in 0..18 {
        match r.poll_request("a".to_string(), Outcome::Failed(ErrorClass::TryAgain), &abc()) {
            Next::Sleep { millis } => pauses.push(millis),
            other => panic!("unexpected {:?}", other),
        }
    }
    assert_eq!(&pauses[..7], &[1280; 7]);
    assert_eq!(
        &pauses[7..],
        &[2560, 5120, 10240, 20480, 40960, 81920, 163840, 327680, 655360, 655360, 655360]
    );
}

#[test]
fn other_errors_exclude_the_endpoint() {
    let mut r = request(Some(16));
    assert_eq!(
        r.poll_request("a".to_string(), Outcome::Failed(ErrorClass::Other), &abc()),
        Next::TryNewConnection
    );
    assert_eq!(r.state(), RequestState::Idle);
    assert!(r.excludes().contains(&"a".to_string()));
    assert_eq!(
        r.poll_request("b".to_string(), Outcome::Failed(ErrorClass::Other), &abc()),
        Next::TryNewConnection
    );
    // The third endpoint saturates the exclusions: the error is surfaced.
    assert_eq!(r.poll_request("c".to_string(), Outcome::Failed(ErrorClass::Other), &abc()), Next::Done);
    assert_eq!(r.retry(), 3);
}

#[test]
fn the_same_endpoint_is_excluded_once() {
    let mut r = request(None);
    for _ in 0..10 {
        assert_eq!(
            r.poll_request("a".to_string(), Outcome::Failed(ErrorClass::Other), &pool(&["a", "b"])),
            Next::TryNewConnection
        );
    }
    assert_eq!(r.excludes().len(), 1);
    assert_eq!(r.retry(), 10);
}

#[test]
fn single_node_pool_surfaces_the_first_error() {
    let mut r = request(Some(16));
    assert_eq!(r.poll_request("a".to_string(), Outcome::Failed(ErrorClass::Other), &pool(&["a"])), Next::Done);
}

#[test]
fn retries_run_out_after_limit_plus_one_attempts() {
    for limit in [0u32, 1, 2, 5, 16] {
        for class in [ErrorClass::TryAgain, ErrorClass::Moved, ErrorClass::Other] {
            let mut r = request(Some(limit));
            let mut attempts = 0u32;
            loop {
                attempts += 1;
                let tried = format!("node-{}", attempts);
                if r.poll_request(tried, Outcome::Failed(class), &abc()) == Next::Done {
                    break;
                }
                assert!(attempts <= limit, "request outlived its retries");
            }
            assert_eq!(attempts, limit + 1);
        }
    }
}

#[test]
fn without_a_limit_the_request_keeps_going() {
    let mut r = request(None);
    for _ in 0..1000 {
        assert_eq!(
            r.poll_request("a".to_string(), Outcome::Failed(ErrorClass::Moved), &abc()),
            Next::Refresh
        );
    }
    assert_eq!(r.retry(), 1000);
}

#[test]
fn endpoints_outside_the_pool_do_not_saturate_the_exclusions() {
    let mut r = request(None);
    // Three endpoints fail that the pool does not hold: the pool is still
    // untried, so the request goes on.
    for stranger in ["x", "y", "z", "w"] {
        assert_eq!(
            r.poll_request(stranger.to_string(), Outcome::Failed(ErrorClass::Other), &abc()),
            Next::TryNewConnection
        );
    }
    assert_eq!(r.excludes().len(), 4);
    for name in ["a", "b"] {
        assert_eq!(
            r.poll_request(name.to_string(), Outcome::Failed(ErrorClass::Other), &abc()),
            Next::TryNewConnection
        );
    }
    assert_eq!(r.poll_request("c".to_string(), Outcome::Failed(ErrorClass::Other), &abc()), Next::Done);
}

#[test]
fn an_empty_pool_is_saturated_at_once() {
    let mut r = request(None);
    assert_eq!(
        r.poll_request("x".to_string(), Outcome::Failed(ErrorClass::Other), &EndpointSet::new()),
        Next::Done
    );
}
