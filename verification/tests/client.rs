use rpc_gateway::client::endpoint::{ConnState, Dispatch, Endpoint, Frame, Outcome, PendingCall};
use rpc_gateway::client::pool::{Attempt, Pool, Rotation, Step};
use rpc_gateway::error::GatewayError;

/// A backend that answers every call with one value while it is up.
struct Server {
    up: bool,
    answer: String,
    received: Vec<String>,
}

fn server(answer: &str) -> Server {
    Server { up: true, answer: answer.to_string(), received: Vec::new() }
}

fn pool_of(n: usize) -> Pool {
    let addresses: Vec<String> = (0..n).map(|i| format!("ws://127.0.0.1:{}", 9000 + i)).collect();
    Pool::new(&addresses).unwrap()
}

/// One attempt against a server: connect, register the call, let the server
/// answer it, and hand the answer to the connection's reader.
fn attempt_on(endpoint: &mut Endpoint, server: &mut Server, method: &str, params: &str) -> Outcome {
    if !server.up {
        endpoint.fail();
        return Outcome::TransportFailure;
    }
    endpoint.begin_connect();
    endpoint.connected();
    let id = match endpoint.send_call(method.to_string(), params.to_string()) {
        Ok(id) => id,
        Err(_) => return Outcome::TransportFailure,
    };
    server.received.push(params.to_string());
    match endpoint.on_frame(Frame::Result { id, result: server.answer.clone() }) {
        Dispatch::Resolved { outcome, .. } => outcome,
        _ => Outcome::TransportFailure,
    }
}

fn request(pool: &mut Pool, servers: &mut [Server], method: &str, params: &str) -> Result<String, GatewayError> {
    let mut step = Step::Send(pool.begin());
    loop {
        match step {
            Step::Done(result) => return result,
            Step::Send(attempt) => {
                let outcome = attempt_on(
                    pool.endpoint_mut(attempt.endpoint),
                    &mut servers[attempt.endpoint],
                    method,
                    params,
                );
                step = pool.settle(attempt, outcome);
            },
        }
    }
}

#[test]
fn basic_request() {
    let mut servers = [server("[1]")];
    let mut pool = pool_of(1);

    let result = request(&mut pool, &mut servers, "mock_rpc", "[1]").unwrap();

    assert_eq!(servers[0].received, vec!["[1]".to_string()]);
    assert_eq!(result.to_string(), "[1]");
}

#[test]
fn basic_subscription() {
    let mut pool = pool_of(1);
    let attempt = pool.begin();
    {
        let endpoint = pool.endpoint_mut(attempt.endpoint);
        assert!(endpoint.begin_connect());
        assert!(endpoint.connected());
        let id = endpoint.send_call("mock_sub".to_string(), "[123]".to_string()).unwrap();
        let ack = endpoint.on_frame(Frame::Result { id, result: "\"sub-1\"".to_string() });
        assert_eq!(
            ack,
            Dispatch::Resolved {
                id,
                call: PendingCall { method: "mock_sub".to_string(), params: "[123]".to_string() },
                outcome: Outcome::Reply("\"sub-1\"".to_string()),
            }
        );
    }
    let step = pool.settle(attempt, Outcome::Reply("\"sub-1\"".to_string()));
    assert_eq!(step, Step::Done(Ok("\"sub-1\"".to_string())));
    pool.subscribed(attempt, "sub-1".to_string(), "mock_unsub".to_string(), 8).unwrap();

    let sub = "sub-1".to_string();
    let endpoint = pool.endpoint_mut(0);
    for value in ["10", "11", "12"] {
        let pushed = endpoint.on_frame(Frame::Notification {
            subscription: sub.clone(),
            payload: value.to_string(),
        });
        assert_eq!(pushed, Dispatch::Queued);
    }

    let mut result = Vec::new();
    while let Some(value) = endpoint.next_value(&sub) {
        result.push(value);
    }
    assert_eq!(result, ["10", "11", "12"]);

    assert_eq!(endpoint.unsubscribe(&sub), Some("mock_unsub".to_string()));
    assert!(!endpoint.has_subscription(&sub));
    assert_eq!(endpoint.next_value(&sub), None);
}

#[test]
fn multiple_endpoints() {
    let mut servers = [server("1"), server("2"), server("3")];
    let mut pool = pool_of(3);

    let result = request(&mut pool, &mut servers, "mock_rpc", "[11]").unwrap();
    assert_eq!(result.to_string(), "1");

    servers[0].up = false;

    let result = request(&mut pool, &mut servers, "mock_rpc", "[22]").unwrap();
    assert_eq!(result.to_string(), "2");
    assert_eq!(pool.current(), 1);

    let rotation = pool.rotate_endpoint();
    assert_eq!(rotation, Rotation { endpoint: 2, connect: true });

    let result = request(&mut pool, &mut servers, "mock_rpc", "[33]").unwrap();
    assert_eq!(result.to_string(), "3");

    servers[2].up = false;

    let result = request(&mut pool, &mut servers, "mock_rpc", "[44]").unwrap();
    assert_eq!(result.to_string(), "2");
    assert_eq!(pool.current(), 1);
}

#[test]
fn concurrent_requests() {
    let mut pool = pool_of(1);
    let endpoint = pool.endpoint_mut(0);
    endpoint.begin_connect();
    endpoint.connected();

    let id1 = endpoint.send_call("mock_rpc".to_string(), "[]".to_string()).unwrap();
    let id2 = endpoint.send_call("mock_rpc".to_string(), "[]".to_string()).unwrap();
    let id3 = endpoint.send_call("mock_rpc".to_string(), "[]".to_string()).unwrap();
    assert!(id1 != id2 && id2 != id3 && id1 != id3);
    assert_eq!(endpoint.pending_len(), 3);

    let outcome_of = |dispatch: Dispatch, expected: u64| match dispatch {
        Dispatch::Resolved { id, outcome: Outcome::Reply(value), .. } => {
            assert_eq!(id, expected);
            value
        },
        other => panic!("not resolved: {:?}", other),
    };

    let res1 = outcome_of(endpoint.on_frame(Frame::Result { id: id1, result: "1".to_string() }), id1);
    let res2 = outcome_of(endpoint.on_frame(Frame::Result { id: id2, result: "2".to_string() }), id2);
    let res3 = outcome_of(endpoint.on_frame(Frame::Result { id: id3, result: "3".to_string() }), id3);

    assert_eq!(res1.to_string(), "1");
    assert_eq!(res2.to_string(), "2");
    assert_eq!(res3.to_string(), "3");
    assert_eq!(endpoint.pending_len(), 0);
}

#[test]
fn retry_requests() {
    let mut pool = pool_of(2);
    let mut second = server("1");

    let attempt = pool.begin();
    assert_eq!(attempt, Attempt { endpoint: 0, failures: 0 });
    {
        let first = pool.endpoint_mut(0);
        first.begin_connect();
        first.connected();
        let id = first.send_call("mock_rpc".to_string(), "[]".to_string()).unwrap();
        assert!(first.is_pending(id));
        // the server goes away after it received the request
        first.fail();
        assert!(!first.is_pending(id));
        assert_eq!(first.status(), ConnState::Failed);
    }
    let step = pool.settle(attempt, Outcome::TransportFailure);
    assert_eq!(step, Step::Send(Attempt { endpoint: 1, failures: 1 }));

    let outcome = attempt_on(pool.endpoint_mut(1), &mut second, "mock_rpc", "[]");
    let res = match pool.settle(Attempt { endpoint: 1, failures: 1 }, outcome) {
        Step::Done(result) => result.unwrap(),
        other => panic!("not done: {:?}", other),
    };
    assert_eq!(res.to_string(), "1");
    assert_eq!(second.received.len(), 1);
}

#[test]
fn answers_in_any_order_reach_their_calls() {
    let mut endpoint = Endpoint::new("ws://a".to_string());
    endpoint.begin_connect();
    endpoint.connected();
    let ids: Vec<u64> = (0..4)
        .map(|i| endpoint.send_call("m".to_string(), format!("[{}]", i)).unwrap())
        .collect();
    assert_eq!(ids, vec![0, 1, 2, 3]);

    for &k in &[2usize, 0, 3, 1] {
        let dispatch = endpoint.on_frame(Frame::Result { id: ids[k], result: format!("r{}", k) });
        assert_eq!(
            dispatch,
            Dispatch::Resolved {
                id: ids[k],
                call: PendingCall { method: "m".to_string(), params: format!("[{}]", k) },
                outcome: Outcome::Reply(format!("r{}", k)),
            }
        );
        assert!(!endpoint.is_pending(ids[k]));
    }
    assert_eq!(endpoint.pending_len(), 0);
}

#[test]
fn second_answer_to_a_call_is_ignored() {
    let mut endpoint = Endpoint::new("ws://a".to_string());
    endpoint.begin_connect();
    endpoint.connected();
    let id = endpoint.send_call("m".to_string(), "[]".to_string()).unwrap();
    assert!(matches!(
        endpoint.on_frame(Frame::Result { id, result: "1".to_string() }),
        Dispatch::Resolved { .. }
    ));
    assert_eq!(endpoint.on_frame(Frame::Result { id, result: "2".to_string() }), Dispatch::Ignored);
    assert_eq!(endpoint.status(), ConnState::Connected);
}

#[test]
fn answer_after_cancel_is_ignored() {
    let mut endpoint = Endpoint::new("ws://a".to_string());
    endpoint.begin_connect();
    endpoint.connected();
    let id = endpoint.send_call("m".to_string(), "[]".to_string()).unwrap();
    assert!(endpoint.cancel(id));
    assert!(!endpoint.cancel(id));
    assert_eq!(
        endpoint.on_frame(Frame::Error { id, error: "late".to_string() }),
        Dispatch::Ignored
    );
    assert_eq!(endpoint.status(), ConnState::Connected);
}

#[test]
fn remote_error_frame_resolves_with_the_error() {
    let mut endpoint = Endpoint::new("ws://a".to_string());
    endpoint.begin_connect();
    endpoint.connected();
    let id = endpoint.send_call("m".to_string(), "[]".to_string()).unwrap();
    assert_eq!(
        endpoint.on_frame(Frame::Error { id, error: "boom".to_string() }),
        Dispatch::Resolved {
            id,
            call: PendingCall { method: "m".to_string(), params: "[]".to_string() },
            outcome: Outcome::RemoteError("boom".to_string()),
        }
    );
}

#[test]
fn unknown_frames_fail_the_connection() {
    for frame in [
        Frame::Unrecognized,
        Frame::Result { id: 7, result: "1".to_string() },
        Frame::Notification { subscription: "nobody".to_string(), payload: "1".to_string() },
    ] {
        let mut endpoint = Endpoint::new("ws://a".to_string());
        endpoint.begin_connect();
        endpoint.connected();
        let id = endpoint.send_call("m".to_string(), "[]".to_string()).unwrap();
        endpoint.open_subscription("s".to_string(), "unsub".to_string(), 2).unwrap();

        assert_eq!(endpoint.on_frame(frame), Dispatch::Failed { abandoned: vec![id] });
        assert_eq!(endpoint.status(), ConnState::Failed);
        assert!(!endpoint.is_pending(id));
        assert_eq!(endpoint.pending_len(), 0);
        assert!(!endpoint.has_subscription(&"s".to_string()));
    }
}

#[test]
fn send_on_a_connection_that_does_not_stand_is_a_transport_failure() {
    let mut endpoint = Endpoint::new("ws://a".to_string());
    assert_eq!(
        endpoint.send_call("m".to_string(), "[]".to_string()),
        Err(GatewayError::Transport)
    );
    assert!(endpoint.begin_connect());
    assert_eq!(endpoint.status(), ConnState::Connecting);
    assert!(!endpoint.begin_connect());
    assert_eq!(
        endpoint.send_call("m".to_string(), "[]".to_string()),
        Err(GatewayError::Transport)
    );
    assert!(endpoint.connected());
    assert!(!endpoint.connected());
    assert_eq!(endpoint.send_call("m".to_string(), "[]".to_string()), Ok(0));
    assert_eq!(endpoint.send_call("m".to_string(), "[]".to_string()), Ok(1));
    assert_eq!(endpoint.address_text(), "ws://a");
}

#[test]
fn full_sink_blocks_and_drops_nothing() {
    let mut endpoint = Endpoint::new("ws://a".to_string());
    endpoint.begin_connect();
    endpoint.connected();
    let sub = "s".to_string();
    endpoint.open_subscription(sub.clone(), "unsub".to_string(), 2).unwrap();
    let push = |endpoint: &mut Endpoint, value: &str| {
        endpoint.on_frame(Frame::Notification { subscription: "s".to_string(), payload: value.to_string() })
    };
    assert_eq!(push(&mut endpoint, "a"), Dispatch::Queued);
    assert_eq!(push(&mut endpoint, "b"), Dispatch::Queued);
    assert_eq!(
        push(&mut endpoint, "c"),
        Dispatch::Blocked { subscription: "s".to_string(), payload: "c".to_string() }
    );
    assert_eq!(endpoint.next_value(&sub), Some("a".to_string()));
    assert_eq!(push(&mut endpoint, "c"), Dispatch::Queued);
    assert_eq!(endpoint.next_value(&sub), Some("b".to_string()));
    assert_eq!(endpoint.next_value(&sub), Some("c".to_string()));
    assert_eq!(endpoint.next_value(&sub), None);
}

#[test]
fn subscription_ids_are_unique_per_connection() {
    let mut endpoint = Endpoint::new("ws://a".to_string());
    assert_eq!(
        endpoint.open_subscription("s".to_string(), "unsub".to_string(), 2),
        Err(GatewayError::Protocol)
    );
    endpoint.begin_connect();
    endpoint.connected();
    assert_eq!(endpoint.open_subscription("s".to_string(), "unsub".to_string(), 2), Ok(()));
    assert_eq!(
        endpoint.open_subscription("s".to_string(), "other".to_string(), 2),
        Err(GatewayError::Protocol)
    );
    assert_eq!(endpoint.open_subscription("t".to_string(), "other".to_string(), 2), Ok(()));
    assert_eq!(endpoint.unsubscribe(&"s".to_string()), Some("unsub".to_string()));
    assert_eq!(endpoint.unsubscribe(&"s".to_string()), None);
    assert_eq!(endpoint.unsubscribe(&"t".to_string()), Some("other".to_string()));
}

#[test]
fn empty_pool_is_a_configuration_error() {
    match Pool::new(&Vec::new()) {
        Err(GatewayError::Config(_)) => {},
        other => panic!("unexpected: {:?}", other),
    }
}

#[test]
fn new_pool_starts_at_the_first_endpoint() {
    let pool = pool_of(3);
    assert_eq!(pool.len(), 3);
    assert_eq!(pool.current(), 0);
    for i in 0..3 {
        assert_eq!(pool.endpoint(i).status(), ConnState::Disconnected);
        assert_eq!(pool.endpoint(i).address_text(), format!("ws://127.0.0.1:{}", 9000 + i));
        assert_eq!(pool.endpoint(i).pending_len(), 0);
    }
}

#[test]
fn rotations_add_up_modulo_the_pool() {
    for n in 1..5usize {
        for start in 0..n {
            for count in 0..11usize {
                let mut pool = pool_of(n);
                for _ in 0..start {
                    pool.rotate_endpoint();
                }
                assert_eq!(pool.current(), start);
                for _ in 0..count {
                    let rotation = pool.rotate_endpoint();
                    assert_eq!(rotation.endpoint, pool.current());
                }
                assert_eq!(pool.current(), (start + count) % n);
            }
        }
    }
}

#[test]
fn rotation_connects_only_what_is_not_connected() {
    let mut pool = pool_of(2);
    assert_eq!(pool.rotate_endpoint(), Rotation { endpoint: 1, connect: true });
    assert_eq!(pool.endpoint(1).status(), ConnState::Connecting);
    assert_eq!(pool.rotate_endpoint(), Rotation { endpoint: 0, connect: true });
    assert_eq!(pool.rotate_endpoint(), Rotation { endpoint: 1, connect: false });
    pool.endpoint_mut(1).connected();
    pool.rotate_endpoint();
    assert_eq!(pool.rotate_endpoint(), Rotation { endpoint: 1, connect: false });
    assert_eq!(pool.endpoint(1).status(), ConnState::Connected);
}

#[test]
fn compare_and_swap_moves_once_per_failure() {
    let mut pool = pool_of(3);
    // two callers saw endpoint 0 fail
    assert!(pool.advance_from(0));
    assert!(!pool.advance_from(0));
    assert_eq!(pool.current(), 1);
    assert!(pool.advance_from(1));
    assert!(pool.advance_from(2));
    assert_eq!(pool.current(), 0);
}

#[test]
fn failover_moves_the_cursor_by_the_endpoints_that_failed() {
    for n in 2..6usize {
        for failed in 0..n {
            let mut servers: Vec<Server> = (0..n).map(|i| server(&i.to_string())).collect();
            for s in servers.iter_mut().take(failed) {
                s.up = false;
            }
            let mut pool = pool_of(n);
            let result = request(&mut pool, &mut servers, "m", "[]");
            assert_eq!(result, Ok(failed.to_string()));
            assert_eq!(pool.current(), failed);
        }
    }
}

#[test]
fn all_endpoints_down_exhausts_the_retries() {
    let mut servers = [server("1"), server("2"), server("3")];
    for s in servers.iter_mut() {
        s.up = false;
    }
    let mut pool = pool_of(3);
    pool.rotate_endpoint();
    assert_eq!(request(&mut pool, &mut servers, "m", "[]"), Err(GatewayError::Exhausted));
    assert_eq!(pool.current(), 1);
}

#[test]
fn remote_error_is_terminal_and_leaves_the_cursor() {
    let mut pool = pool_of(3);
    let attempt = pool.begin();
    let step = pool.settle(attempt, Outcome::RemoteError("no such block".to_string()));
    assert_eq!(step, Step::Done(Err(GatewayError::Remote("no such block".to_string()))));
    assert_eq!(pool.current(), 0);
}

#[test]
fn subscription_on_an_unknown_endpoint_is_refused() {
    let mut pool = pool_of(1);
    assert_eq!(
        pool.subscribed(Attempt { endpoint: 5, failures: 0 }, "s".to_string(), "u".to_string(), 1),
        Err(GatewayError::Protocol)
    );
}

#[test]
fn failed_connection_names_the_calls_it_abandons() {
    let mut endpoint = Endpoint::new("ws://a".to_string());
    endpoint.begin_connect();
    endpoint.connected();
    assert_eq!(endpoint.pending_ids(), Vec::<u64>::new());
    let a = endpoint.send_call("m".to_string(), "[1]".to_string()).unwrap();
    let b = endpoint.send_call("m".to_string(), "[2]".to_string()).unwrap();
    let c = endpoint.send_call("m".to_string(), "[3]".to_string()).unwrap();
    endpoint.cancel(b);
    let mut waiting = endpoint.pending_ids();
    waiting.sort();
    assert_eq!(waiting, vec![a, c]);

    let mut abandoned = endpoint.fail();
    abandoned.sort();
    assert_eq!(abandoned, vec![a, c]);
    assert_eq!(endpoint.pending_ids(), Vec::<u64>::new());
    assert_eq!(endpoint.fail(), Vec::<u64>::new());
    assert_eq!(endpoint.status(), ConnState::Failed);

    // the failed connection can be made again, and ids are not reused
    assert!(endpoint.begin_connect());
    assert!(endpoint.connected());
    assert_eq!(endpoint.send_call("m".to_string(), "[4]".to_string()), Ok(3));
}
