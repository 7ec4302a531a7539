use rpc_gateway::client::subscription::Subscription;
use rpc_gateway::error::{GatewayError, Rejection};
use rpc_gateway::extensions::ExtensionRegistry;
use rpc_gateway::gateway::{Accepted, Gateway, Route};
use rpc_gateway::middlewares::call::CallRequest;
use rpc_gateway::middlewares::chain::Descent;
use rpc_gateway::middlewares::stage::{MethodConfig, ParamBounds, ResponseConfig};

fn method(name: &str, cache: Option<usize>) -> MethodConfig {
    MethodConfig {
        method: name.to_string(),
        params: Some(ParamBounds { min: 0, max: 1 }),
        defaults: None,
        block_tag: None,
        cache,
        delay: None,
        response: Some(ResponseConfig { replace: "null".to_string(), with: "0".to_string() }),
    }
}

fn call(method: &str, params: &[&str]) -> CallRequest {
    CallRequest::new(method.to_string(), params.iter().map(|p| p.to_string()).collect())
}

/// One call through the gateway, with `answer` as what the pool returns.
fn serve(gateway: &mut Gateway, request: CallRequest, answer: &str, reached: &mut u32) -> Option<Result<String, GatewayError>> {
    let Accepted { route, descent, context } = gateway.accept(request.clone(), Vec::new())?;
    Some(match descent {
        Descent::Forward { request, entered, .. } => {
            *reached += 1;
            gateway.complete(route, entered, &request, &context, Ok(answer.to_string()))
        },
        Descent::Final { result, entered, .. } => gateway.complete(route, entered, &request, &context, result),
    })
}

#[test]
fn gateway_routes_by_method() {
    let configs = vec![method("a", None), method("b", Some(2)), method("a", Some(2))];
    let gateway = Gateway::build(&configs, &ExtensionRegistry::new());
    assert_eq!(gateway.len(), 3);
    assert_eq!(gateway.find(&"a".to_string()), Some(0));
    assert_eq!(gateway.find(&"b".to_string()), Some(1));
    assert_eq!(gateway.find(&"c".to_string()), None);
    assert_eq!(Gateway::build(&Vec::new(), &ExtensionRegistry::new()).find(&"a".to_string()), None);
}

#[test]
fn unknown_method_is_not_taken() {
    let mut gateway = Gateway::build(&vec![method("a", None)], &ExtensionRegistry::new());
    let mut reached = 0;
    assert_eq!(serve(&mut gateway, call("zzz", &[]), "1", &mut reached), None);
    assert_eq!(reached, 0);
}

#[test]
fn each_call_gets_a_fresh_context_with_the_headers() {
    let gateway = Gateway::build(&vec![method("a", None)], &ExtensionRegistry::new());
    let headers = vec![("x-user".to_string(), "u1".to_string())];
    let taken = gateway.accept(call("a", &["1"]), headers).unwrap();
    assert_eq!(taken.route, 0);
    assert_eq!(
        taken.descent,
        Descent::Forward { request: call("a", &["1"]), entered: 3, pause_millis: 0 }
    );
    assert_eq!(taken.context.header(&"x-user".to_string()), Some("u1".to_string()));
    assert_eq!(taken.context.trace_span(), Some("logging".to_string()));
    assert!(!taken.context.bypass_cache());

    let again = gateway.accept(call("a", &["1"]), Vec::new()).unwrap();
    assert_eq!(again.context.header(&"x-user".to_string()), None);
}

#[test]
fn cached_call_reaches_the_upstream_once() {
    let mut gateway = Gateway::build(&vec![method("m", Some(4))], &ExtensionRegistry::new());
    let mut reached = 0;
    let first = serve(&mut gateway, call("m", &["7"]), "\"x\"", &mut reached).unwrap();
    let second = serve(&mut gateway, call("m", &["7"]), "\"y\"", &mut reached).unwrap();
    assert_eq!(first, Ok("\"x\"".to_string()));
    assert_eq!(second, first);
    assert_eq!(reached, 1);
}

#[test]
fn caches_are_per_method() {
    let configs = vec![method("a", Some(4)), method("b", Some(4)), method("c", None)];
    let mut gateway = Gateway::build(&configs, &ExtensionRegistry::new());
    let mut reached = 0;
    assert_eq!(serve(&mut gateway, call("a", &["7"]), "1", &mut reached), Some(Ok("1".to_string())));
    assert_eq!(serve(&mut gateway, call("b", &["7"]), "2", &mut reached), Some(Ok("2".to_string())));
    assert_eq!(serve(&mut gateway, call("a", &["7"]), "3", &mut reached), Some(Ok("1".to_string())));
    assert_eq!(serve(&mut gateway, call("b", &["7"]), "4", &mut reached), Some(Ok("2".to_string())));
    assert_eq!(serve(&mut gateway, call("c", &["7"]), "5", &mut reached), Some(Ok("5".to_string())));
    assert_eq!(serve(&mut gateway, call("c", &["7"]), "6", &mut reached), Some(Ok("6".to_string())));
    assert_eq!(reached, 4);
}

#[test]
fn rejected_call_never_reaches_the_upstream() {
    let mut gateway = Gateway::build(&vec![method("m", Some(4))], &ExtensionRegistry::new());
    let mut reached = 0;
    assert_eq!(
        serve(&mut gateway, call("m", &["1", "2"]), "1", &mut reached),
        Some(Err(GatewayError::Validation(Rejection::TooManyParams)))
    );
    assert_eq!(reached, 0);
}

#[test]
fn result_is_shaped_on_the_way_out() {
    let mut gateway = Gateway::build(&vec![method("m", None)], &ExtensionRegistry::new());
    let mut reached = 0;
    assert_eq!(serve(&mut gateway, call("m", &[]), "null", &mut reached), Some(Ok("0".to_string())));
    assert_eq!(reached, 1);
}

#[test]
fn complete_on_no_route_leaves_the_result() {
    let mut gateway = Gateway::build(&vec![method("m", None)], &ExtensionRegistry::new());
    let taken = gateway.accept(call("m", &[]), Vec::new()).unwrap();
    assert_eq!(
        gateway.complete(9, 3, &call("m", &[]), &taken.context, Ok("null".to_string())),
        Ok("null".to_string())
    );
}

#[test]
fn route_is_built_from_its_config() {
    let route = Route::build(&method("m", Some(2)), &ExtensionRegistry::new());
    assert!(format!("{:?}", route).contains("Validate"));
}

#[test]
fn sink_is_first_in_first_out() {
    let mut sink = Subscription::new("s".to_string(), "unsub".to_string(), 3);
    assert!(sink.has_id(&"s".to_string()));
    assert!(!sink.has_id(&"t".to_string()));
    assert_eq!(sink.unsubscribe_with(), "unsub");
    assert_eq!(sink.take(), None);
    assert_eq!(sink.offer("1".to_string()), None);
    assert_eq!(sink.offer("2".to_string()), None);
    assert_eq!(sink.take(), Some("1".to_string()));
    assert_eq!(sink.offer("3".to_string()), None);
    assert_eq!(sink.offer("4".to_string()), None);
    assert!(!sink.has_room());
    assert_eq!(sink.len(), 3);
    assert_eq!(sink.offer("5".to_string()), Some("5".to_string()));
    assert_eq!(sink.take(), Some("2".to_string()));
    assert!(sink.has_room());
    assert_eq!(sink.offer("5".to_string()), None);
    let mut rest = Vec::new();
    while let Some(value) = sink.take() {
        rest.push(value);
    }
    assert_eq!(rest, ["3", "4", "5"]);
}

#[test]
fn sink_yields_every_accepted_value_once_in_order() {
    // every interleaving of four pushes and four pulls, two slots
    for pattern in 0..256u32 {
        let mut sink = Subscription::new("s".to_string(), "u".to_string(), 2);
        let mut accepted = Vec::new();
        let mut yielded = Vec::new();
        let mut next = 0;
        for step in 0..8 {
            if pattern >> step & 1 == 1 {
                let value = next.to_string();
                next += 1;
                if sink.offer(value.clone()).is_none() {
                    accepted.push(value);
                }
            } else if let Some(value) = sink.take() {
                yielded.push(value);
            }
            assert!(sink.len() <= 2);
        }
        while let Some(value) = sink.take() {
            yielded.push(value);
        }
        assert_eq!(yielded, accepted);
    }
}

#[test]
fn sink_without_room_takes_nothing() {
    let mut sink = Subscription::new("s".to_string(), "u".to_string(), 0);
    assert_eq!(sink.offer("1".to_string()), Some("1".to_string()));
    assert_eq!(sink.len(), 0);
}
