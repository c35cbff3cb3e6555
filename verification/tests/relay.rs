use bees::forward::relay::{middleware_after_lookup, middleware_step, ForwardHeaders, MiddlewareAction, MiddlewareStage};
use bees::common::config::Point;
use bees::forward::path_map::PathMap;
use bees::forward::relay::{
    current_host_is_end, destination_to_lookup, extend_forward_path, forward_back_value, forward_failure,
    forward_failure_info, forward_path_is_exist, get_destination_service, get_forward_next_uri,
    get_forward_path, get_next_host, initial_forward_path, lookup_failure, route_next_host, ServiceEndpoint,
};

fn s(x: &str) -> Option<String> {
    Some(x.to_string())
}

#[test]
fn next_host_follows_the_path() {
    assert_eq!(get_next_host("a,b,c", "a"), s("b"));
    assert_eq!(get_next_host("a,b,c", "b"), s("c"));
    assert_eq!(get_next_host("a,b,c", "c"), None);
    assert_eq!(get_next_host("a,b,c", "z"), None);
    assert_eq!(get_next_host("", "a"), None);
    assert_eq!(get_next_host("a,,c", ""), s("c"));
    assert_eq!(get_next_host("a,b,a,d", "a"), s("b"));
}

#[test]
fn end_of_path() {
    assert!(current_host_is_end("a,b,c", "c"));
    assert!(!current_host_is_end("a,b,c", "b"));
    assert!(current_host_is_end("", ""));
    assert!(current_host_is_end("a,", ""));
}

#[test]
fn next_uri_keeps_path_and_query() {
    assert_eq!(get_forward_next_uri("10.0.0.2:80", "/forward/local?x=1"), "http://10.0.0.2:80/forward/local?x=1");
    assert_eq!(get_forward_next_uri("10.0.0.2:80", "/"), "http://10.0.0.2:80");
}

#[test]
fn header_readers() {
    assert!(forward_path_is_exist(&s("a")));
    assert!(!forward_path_is_exist(&s("")));
    assert!(!forward_path_is_exist(&None));
    assert_eq!(get_forward_path(&s("a,b")), "a,b");
    assert_eq!(get_forward_path(&None), "");
    assert_eq!(get_destination_service(&s("svc")), s("svc"));
    assert_eq!(get_destination_service(&s("")), None);
    assert_eq!(get_destination_service(&None), None);
}

fn table() -> PathMap {
    let mut m = PathMap::new();
    m.insert(
        "h2".to_string(),
        vec![Point::new("one".to_string(), "h1".to_string()), Point::new("two".to_string(), "h2".to_string())],
    );
    m
}

#[test]
fn initial_path_for_destination_requests() {
    let m = table();
    assert_eq!(initial_forward_path(&m, "h2", &None, &s("svc")), s("h1,h2"));
    assert_eq!(initial_forward_path(&m, "h2", &s("x"), &s("svc")), None);
    assert_eq!(initial_forward_path(&m, "h2", &s(""), &s("svc")), s("h1,h2"));
    assert_eq!(initial_forward_path(&m, "h2", &None, &None), None);
    assert_eq!(initial_forward_path(&m, "h9", &None, &s("svc")), None);
}

#[test]
fn lookup_only_at_the_end_of_the_path() {
    assert_eq!(destination_to_lookup(&s("h1,h2"), &s("svc"), "h2"), s("svc"));
    assert_eq!(destination_to_lookup(&s("h1,h2"), &s("svc"), "h1"), None);
    assert_eq!(destination_to_lookup(&None, &s("svc"), ""), s("svc"));
    assert_eq!(destination_to_lookup(&s("h1,h2"), &s(""), "h2"), None);
}

fn ep(ip: &str, port: i32, enabled: bool, healthy: bool) -> ServiceEndpoint {
    ServiceEndpoint { ip: ip.to_string(), port, enabled, healthy }
}

#[test]
fn destination_instance_is_appended() {
    let es = vec![ep("1.1.1.1", 80, false, true), ep("h", 2, true, true), ep("2.2.2.2", 8080, true, true)];
    assert_eq!(extend_forward_path("h1,h", &es, "h:2"), s("h1,h,2.2.2.2:8080"));
    assert_eq!(extend_forward_path("h1", &es, "x"), s("h1,h:2"));
    assert_eq!(extend_forward_path("h1", &vec![ep("a", -3, true, true)], "x"), s("h1,a:-3"));
    assert_eq!(extend_forward_path("h1", &vec![ep("a", 1, true, false)], "x"), None);
    assert_eq!(extend_forward_path("h1", &vec![], "x"), None);
}

#[test]
fn lookup_failure_answer() {
    let r = lookup_failure("svc", "timeout");
    assert_eq!(r.code, 1);
    assert!(!r.status);
    assert_eq!(r.msg, "目标服务地址获取失败svc，timeout");
    assert!(r.body.is_none());
}

#[test]
fn route_decision() {
    assert_eq!(route_next_host(&s("h1,h2,h3"), "h2"), s("h3"));
    assert_eq!(route_next_host(&s("h1,h2,h3"), "h3"), None);
    assert_eq!(route_next_host(&None, "h3"), None);
}

#[test]
fn forward_back_trail() {
    assert_eq!(forward_back_value(&None, "h3"), "h3:ok");
    assert_eq!(forward_back_value(&s("h3:ok"), "h2"), "h3:ok,h2:ok");
    assert_eq!(forward_back_value(&s(""), "h2"), ",h2:ok");
}

#[test]
fn forward_failure_answer() {
    let r = forward_failure("h2");
    assert_eq!(r.code, 1);
    assert_eq!(r.msg, "h2访问失败");
    assert_eq!(forward_failure_info("h2"), "h2:err");
}

#[test]
fn middleware_steps_in_order() {
    let m = table();
    let h = |fp: Option<String>, d: Option<String>| ForwardHeaders { forward_path: fp, destination: d };
    // a request for a service with no path gets this platform's path first
    match middleware_step(&m, "h2", MiddlewareStage::Seed, &h(None, s("svc"))) {
        MiddlewareAction::SetForwardPath(p, st) => {
            assert_eq!(p, "h1,h2");
            assert_eq!(st, MiddlewareStage::Lookup);
        }
        _ => panic!("expected the path to be set"),
    }
    // at the end of the path the destination is looked up
    match middleware_step(&m, "h2", MiddlewareStage::Lookup, &h(s("h1,h2"), s("svc"))) {
        MiddlewareAction::Lookup(svc, fp) => {
            assert_eq!(svc, "svc");
            assert_eq!(fp, "h1,h2");
        }
        _ => panic!("expected a lookup"),
    }
    // in the middle of the path the request goes on
    match middleware_step(&m, "h1", MiddlewareStage::Seed, &h(s("h1,h2"), s("svc"))) {
        MiddlewareAction::Forward(n) => assert_eq!(n, "h2"),
        _ => panic!("expected forwarding"),
    }
    assert!(matches!(middleware_step(&m, "h2", MiddlewareStage::Route, &h(s("h1,h2"), None)), MiddlewareAction::PassOn));
    let found = Ok(vec![ep("9.9.9.9", 81, true, true)]);
    match middleware_after_lookup("h2", "svc", "h1,h2", &h(s("h1,h2"), s("svc")), &found) {
        MiddlewareAction::SetForwardPath(p, st) => {
            assert_eq!(p, "h1,h2,9.9.9.9:81");
            assert_eq!(st, MiddlewareStage::Route);
        }
        _ => panic!("expected the path to be extended"),
    }
    match middleware_after_lookup("h2", "svc", "h1,h2", &h(s("h1,h2"), s("svc")), &Err("down".to_string())) {
        MiddlewareAction::Respond(a) => assert_eq!(a.msg, "目标服务地址获取失败svc，down"),
        _ => panic!("expected a failed answer"),
    }
    assert!(matches!(
        middleware_after_lookup("h2", "svc", "h1,h2", &h(s("h1,h2"), s("svc")), &Ok(vec![])),
        MiddlewareAction::PassOn
    ));
}
