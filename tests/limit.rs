use pingap::limit::{admission, Error, LimitTag, Limiter};
use pingap::plugin::{
    HandleOutcome, ProxyPlugin, ProxyPluginCategory, ProxyPluginStep, RequestView, State,
};

fn pair(k: &str, v: &str) -> (String, String) {
    (k.to_string(), v.to_string())
}

fn new_session() -> RequestView {
    RequestView {
        path: "/vicanso/pingap".to_string(),
        query: "key=1".to_string(),
        headers: vec![
            pair("host", "github.com"),
            pair("referer", "https://github.com/"),
            pair("user-agent", "pingap/0.1.1"),
            pair("cookie", "deviceId=abc"),
            pair("accept", "application/json"),
            pair("x-uuid", "138q71"),
            pair("x-forwarded-for", "1.1.1.1, 192.168.1.2"),
        ],
        client_ip: "1.1.1.1".to_string(),
    }
}

fn ip_request(ip: &str) -> RequestView {
    RequestView {
        path: "/vicanso/pingap".to_string(),
        query: "size=1".to_string(),
        headers: vec![pair("x-forwarded-for", ip)],
        client_ip: ip.to_string(),
    }
}

#[test]
fn test_new_cookie_limiter() {
    let limiter = Limiter::new("~deviceId 10", ProxyPluginStep::RequestFilter).unwrap();
    assert_eq!(LimitTag::Cookie, limiter.tag);
    let mut ctx = State::new();
    let session = new_session();

    limiter.incr(&session, &mut ctx).unwrap();
    assert_eq!(true, ctx.guard.is_some());
}

#[test]
fn test_new_req_header_limiter() {
    let limiter = Limiter::new(">X-Uuid 10", ProxyPluginStep::RequestFilter).unwrap();
    assert_eq!(LimitTag::RequestHeader, limiter.tag);
    let mut ctx = State::new();
    let session = new_session();

    limiter.incr(&session, &mut ctx).unwrap();
    assert_eq!(true, ctx.guard.is_some());
}

#[test]
fn test_new_query_limiter() {
    let limiter = Limiter::new("?key 10", ProxyPluginStep::RequestFilter).unwrap();
    assert_eq!(LimitTag::Query, limiter.tag);
    let mut ctx = State::new();
    let session = new_session();

    limiter.incr(&session, &mut ctx).unwrap();
    assert_eq!(true, ctx.guard.is_some());
}

#[test]
fn test_new_ip_limiter() {
    let limiter = Limiter::new("ip 10", ProxyPluginStep::RequestFilter).unwrap();
    assert_eq!(LimitTag::Ip, limiter.tag);
    let mut ctx = State::new();
    let session = new_session();

    limiter.incr(&session, &mut ctx).unwrap();
    assert_eq!(true, ctx.guard.is_some());
}

#[test]
fn test_limit() {
    let limiter = Limiter::new("ip 0", ProxyPluginStep::RequestFilter).unwrap();
    let session = ip_request("1.1.1.1");
    let result = limiter.handle(&session, &mut State::new());
    match result {
        HandleOutcome::Respond(resp) => assert_eq!(429, resp.status),
        _ => panic!("expected a response"),
    }

    let limiter = Limiter::new("ip 1", ProxyPluginStep::RequestFilter).unwrap();
    let result = limiter.handle(&session, &mut State::new());
    assert!(matches!(result, HandleOutcome::Continue));
}

#[test]
fn selector_of_each_prefix() {
    let cases = [
        ("~sid 3", LimitTag::Cookie, "sid"),
        (">X-Id 3", LimitTag::RequestHeader, "X-Id"),
        ("?token 3", LimitTag::Query, "token"),
        ("ip 3", LimitTag::Ip, "p"),
    ];
    for (config, tag, value) in cases {
        let limiter = Limiter::new(config, ProxyPluginStep::RequestFilter).unwrap();
        assert_eq!(tag, limiter.tag);
        assert_eq!(value, limiter.value);
        assert_eq!(3, limiter.max);
        assert_eq!(ProxyPluginStep::RequestFilter, limiter.step());
        assert_eq!(ProxyPluginCategory::Limit, limiter.category());
    }
    let limiter = Limiter::new("ip 3", ProxyPluginStep::ProxyUpstreamFilter).unwrap();
    assert_eq!(ProxyPluginStep::ProxyUpstreamFilter, limiter.step());
}

#[test]
fn malformed_limiter_configs() {
    assert_eq!(
        Some(Error::Invalid { message: "~deviceId".to_string() }),
        Limiter::new("~deviceId", ProxyPluginStep::RequestFilter).err()
    );
    assert_eq!(
        Some(Error::ParseInt { message: "ten".to_string() }),
        Limiter::new("~deviceId ten", ProxyPluginStep::RequestFilter).err()
    );
    assert_eq!(
        Some(Error::ParseInt { message: "-1".to_string() }),
        Limiter::new("ip -1", ProxyPluginStep::RequestFilter).err()
    );
    assert_eq!(
        Some(Error::Invalid { message: "~".to_string() }),
        Limiter::new("~ 10", ProxyPluginStep::RequestFilter).err()
    );
    let limiter = Limiter::new("ip 4294967295", ProxyPluginStep::RequestFilter).unwrap();
    assert_eq!(4294967295, limiter.max);
    assert!(Limiter::new("ip 4294967296", ProxyPluginStep::RequestFilter).is_err());
}

#[test]
fn admissions_up_to_max_then_release() {
    let limiter = Limiter::new("ip 2", ProxyPluginStep::RequestFilter).unwrap();
    let req = ip_request("2.2.2.2");
    let mut first = State::new();
    let mut second = State::new();
    let mut third = State::new();
    assert!(limiter.incr(&req, &mut first).is_ok());
    assert!(limiter.incr(&req, &mut second).is_ok());
    assert_eq!(
        Err(Error::Exceed { max: 2, value: 3 }),
        limiter.incr(&req, &mut third)
    );
    assert!(third.guard.is_none());
    assert_eq!(Some("2.2.2.2".to_string()), third.client_ip);
    // the refused attempt left no count behind
    assert_eq!(
        Err(Error::Exceed { max: 2, value: 3 }),
        limiter.incr(&req, &mut third)
    );
    drop(first);
    assert!(limiter.incr(&req, &mut third).is_ok());
    let mut fourth = State::new();
    assert!(limiter.incr(&req, &mut fourth).is_err());
}

#[test]
fn guard_released_once_on_every_path() {
    let limiter = Limiter::new("ip 1", ProxyPluginStep::RequestFilter).unwrap();
    let req = ip_request("3.3.3.3");
    for _ in 0..5 {
        let mut ctx = State::new();
        assert!(matches!(limiter.handle(&req, &mut ctx), HandleOutcome::Continue));
        let mut other = State::new();
        assert!(matches!(
            limiter.handle(&req, &mut other),
            HandleOutcome::Respond(_)
        ));
        drop(other);
        drop(ctx);
    }
    let mut ctx = State::new();
    assert!(limiter.incr(&req, &mut ctx).is_ok());
}

#[test]
fn ip_scenario_admit_reject_admit() {
    let limiter = Limiter::new("ip 1", ProxyPluginStep::RequestFilter).unwrap();
    let req = ip_request("1.1.1.1");
    let mut first = State::new();
    assert!(matches!(limiter.handle(&req, &mut first), HandleOutcome::Continue));
    let mut second = State::new();
    match limiter.handle(&req, &mut second) {
        HandleOutcome::Respond(resp) => {
            assert_eq!(429, resp.status);
            assert_eq!(b"Exceed limit, max: 1, value: 2".to_vec(), resp.body);
        }
        _ => panic!("expected a rejection"),
    }
    drop(first);
    let mut third = State::new();
    assert!(matches!(limiter.handle(&req, &mut third), HandleOutcome::Continue));
}

#[test]
fn missing_key_bypasses_limit() {
    let limiter = Limiter::new(">X-Missing 0", ProxyPluginStep::RequestFilter).unwrap();
    let mut ctx = State::new();
    assert!(limiter.incr(&new_session(), &mut ctx).is_ok());
    assert!(ctx.guard.is_none());
    assert_eq!(Some("1.1.1.1".to_string()), ctx.client_ip);
}

#[test]
fn key_lookup_per_selector() {
    let req = new_session();
    let header = Limiter::new(">X-UUID 1", ProxyPluginStep::RequestFilter).unwrap();
    assert_eq!("138q71", header.key(&req));
    let cookie = Limiter::new("~deviceId 1", ProxyPluginStep::RequestFilter).unwrap();
    assert_eq!("abc", cookie.key(&req));
    let query = Limiter::new("?key 1", ProxyPluginStep::RequestFilter).unwrap();
    assert_eq!("1", query.key(&req));
    let ip = Limiter::new("ip 1", ProxyPluginStep::RequestFilter).unwrap();
    assert_eq!("1.1.1.1", ip.key(&req));
}

#[test]
fn cookie_header_is_read() {
    let mut req = ip_request("4.4.4.4");
    req.headers.push(pair("cookie", "a=1; deviceId = xyz ;flag; b=2=3"));
    let limiter = Limiter::new("~deviceId 1", ProxyPluginStep::RequestFilter).unwrap();
    assert_eq!("xyz", limiter.key(&req));
    let limiter = Limiter::new("~b 1", ProxyPluginStep::RequestFilter).unwrap();
    assert_eq!("2=3", limiter.key(&req));
    let limiter = Limiter::new("~flag 1", ProxyPluginStep::RequestFilter).unwrap();
    assert_eq!("", limiter.key(&req));
}

#[test]
fn admission_decision() {
    assert_eq!(Ok(()), admission(1, 1));
    assert_eq!(Err(Error::Exceed { max: 1, value: 2 }), admission(1, 2));
    assert_eq!(Ok(()), admission(0, 0));
}

#[test]
fn error_messages() {
    assert_eq!(
        "Exceed limit, max: 0, value: 1",
        Error::Exceed { max: 0, value: 1 }.message()
    );
    assert_eq!("Invalid: ~", Error::Invalid { message: "~".to_string() }.message());
    assert_eq!(
        "Invalid number: x",
        Error::ParseInt { message: "x".to_string() }.message()
    );
}
