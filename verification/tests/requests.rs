use lua_proxy::config::{PluginsConfig, UpstreamConfig};
use lua_proxy::handler::{
    find_client_ip, make_final_reply, run_request_hooks, run_response_hooks, Action, Event,
    Exchange, Incoming, Stage,
};
use lua_proxy::http::{RawHeader, Reply};
use lua_proxy::lua::engine::{LuaEngine, PluginSources};
use lua_proxy::strmap::StrMap;
use lua_proxy::upstream::pool::UpstreamPool;

fn some(s: &str) -> Option<String> {
    Some(s.to_string())
}

fn map(pairs: &[(&str, &str)]) -> StrMap {
    let mut m = StrMap::new();
    for (k, v) in pairs {
        m.insert(k.to_string(), v.to_string());
    }
    m
}

fn incoming(method: &str, headers: &[(&str, &str)], body: &[u8]) -> Incoming {
    Incoming {
        method: method.to_string(),
        path: "/users/7".to_string(),
        headers: headers
            .iter()
            .map(|(k, v)| RawHeader { name: k.to_string(), value: v.as_bytes().to_vec() })
            .collect(),
        body: body.to_vec(),
        peer_ip: "10.1.2.3".to_string(),
    }
}

fn text(reply: &Reply) -> String {
    String::from_utf8(reply.body.clone()).unwrap()
}

/// An exchange that waits for a target.
fn selecting(headers: StrMap) -> Exchange {
    let (x, _) = Exchange::open(incoming("POST", &[], b"data"));
    let (x, _) = x.step(Event::Admitted { rejected: None });
    let (x, _) = x.step(Event::Routed { rejected: None, upstream: some("api") });
    x.step(Event::Transformed { rejected: None, headers }).0
}

/// An exchange that waits for its upstream.
fn forwarding() -> Exchange {
    selecting(map(&[])).step(Event::Selected { url: some("http://127.0.0.1:3000") }).0
}

#[test]
fn who_the_client_is() {
    let both = map(&[("x-real-ip", "1.1.1.1"), ("x-forwarded-for", "2.2.2.2, 3.3.3.3")]);
    assert_eq!(find_client_ip(&both, "9.9.9.9"), "1.1.1.1");
    let one = map(&[("x-forwarded-for", "2.2.2.2, 3.3.3.3")]);
    assert_eq!(find_client_ip(&one, "9.9.9.9"), "2.2.2.2, 3.3.3.3");
    assert_eq!(find_client_ip(&map(&[]), "9.9.9.9"), "9.9.9.9");
}

#[test]
fn a_request_is_taken_in() {
    let (x, ctx) = Exchange::open(incoming("PUT", &[("Host", "h"), ("X-Real-IP", "8.8.8.8")], b"a\xffb"));
    assert_eq!(x.stage, Stage::Admitting);
    assert_eq!(x.method, "PUT");
    assert_eq!(x.path, "/users/7");
    assert_eq!(x.ip, "8.8.8.8");
    assert_eq!(x.body, b"a\xffb");
    assert_eq!(x.upstream, "default");
    assert_eq!(ctx.req_method, "PUT");
    assert_eq!(ctx.client_ip, "8.8.8.8");
    assert_eq!(ctx.req_body, "a\u{fffd}b");
    assert_eq!(ctx.get_req_header("Host"), some("h"));
    assert_eq!(ctx.req_headers.get("x-real-ip"), some("8.8.8.8"));
}

#[test]
fn a_refused_request_is_answered() {
    let (x, _) = Exchange::open(incoming("GET", &[], b""));
    let (x, action) = x.step(Event::Admitted { rejected: Some((429, "Too Many Requests".to_string())) });
    assert_eq!(x.stage, Stage::Done);
    match action {
        Action::Refuse(reply) => {
            assert_eq!(reply.status, 429);
            assert_eq!(text(&reply), "{\"error\":\"Too Many Requests\",\"status\":429}");
            assert_eq!(reply.headers.get("content-type"), some("application/json"));
        }
        _ => panic!("it is refused"),
    }
}

#[test]
fn a_number_that_is_no_status_is_given_up_on() {
    for status in [0, 99, 1000] {
        let (x, _) = Exchange::open(incoming("GET", &[], b""));
        let (x, action) = x.step(Event::Admitted { rejected: Some((status, "x".to_string())) });
        assert_eq!(x.stage, Stage::Done);
        assert!(matches!(action, Action::Abort(s) if s == status));
    }
    for status in [100, 999] {
        let (x, _) = Exchange::open(incoming("GET", &[], b""));
        let (_, action) = x.step(Event::Admitted { rejected: Some((status, "x".to_string())) });
        assert!(matches!(action, Action::Refuse(r) if r.status == status));
    }
}

#[test]
fn the_whole_way_of_a_request() {
    let (x, _) = Exchange::open(incoming("POST", &[], b"\x00\xff"));
    let (x, action) = x.step(Event::Admitted { rejected: None });
    assert!(matches!(action, Action::RunOnRoute));
    let (x, action) = x.step(Event::Routed { rejected: None, upstream: some("api") });
    assert!(matches!(action, Action::RunOnTransform));
    let (x, action) = x.step(Event::Transformed {
        rejected: None,
        headers: map(&[("x-a", "1"), ("x-forwarded-for", "faked"), ("x-proxy", "faked")]),
    });
    assert!(matches!(action, Action::SelectTarget { upstream, key } if upstream == "api" && key == "10.1.2.3"));
    let (x, action) = x.step(Event::Selected { url: some("http://127.0.0.1:3000//") });
    assert_eq!(x.stage, Stage::Forwarding);
    match action {
        Action::SendForward(f) => {
            assert_eq!(f.method, "POST");
            assert_eq!(f.url, "http://127.0.0.1:3000/users/7");
            assert_eq!(f.body, b"\x00\xff");
            assert_eq!(f.headers.len(), 3);
            assert_eq!(f.headers.get("x-a"), some("1"));
            assert_eq!(f.headers.get("x-forwarded-for"), some("10.1.2.3"));
            assert_eq!(f.headers.get("x-proxy"), some("rust-lua-proxy/0.1"));
        }
        _ => panic!("it is forwarded"),
    }
    let (x, action) = x.step(Event::Answered {
        status: 201,
        headers: map(&[("etag", "e")]),
        body: b"made".to_vec(),
    });
    assert_eq!(x.stage, Stage::Answering);
    match action {
        Action::RunOnResponse { status, headers, body } => {
            assert_eq!(status, 201);
            assert_eq!(headers.get("etag"), some("e"));
            assert_eq!(body, b"made");
        }
        _ => panic!("on_response is due"),
    }
    let (x, action) = x.step(Event::Finished {
        rejected: None,
        status: 202,
        headers: map(&[("etag", "f")]),
        text: "changed".to_string(),
    });
    assert_eq!(x.stage, Stage::Done);
    assert_eq!(x.method, "POST");
    assert_eq!(x.body, b"\x00\xff");
    match action {
        Action::Respond(reply) => {
            assert_eq!(reply.status, 202);
            assert_eq!(reply.headers.get("etag"), some("f"));
            assert_eq!(text(&reply), "changed");
        }
        _ => panic!("it is answered"),
    }
}

#[test]
fn an_unrouted_request_goes_to_the_default() {
    let (x, _) = Exchange::open(incoming("GET", &[], b""));
    let (x, _) = x.step(Event::Admitted { rejected: None });
    let (x, _) = x.step(Event::Routed { rejected: None, upstream: None });
    let (_, action) = x.step(Event::Transformed { rejected: None, headers: map(&[]) });
    assert!(matches!(action, Action::SelectTarget { upstream, .. } if upstream == "default"));
}

#[test]
fn nobody_to_ask_is_service_unavailable() {
    let (x, action) = selecting(map(&[])).step(Event::Selected { url: None });
    assert_eq!(x.stage, Stage::Done);
    assert!(matches!(action, Action::Respond(r)
        if r.status == 503 && text(&r) == "{\"error\":\"Service Unavailable\",\"status\":503}"));
}

#[test]
fn what_cannot_be_sent_is_a_bad_gateway() {
    let (_, action) = selecting(map(&[])).step(Event::Selected { url: some("http://bad host") });
    assert!(matches!(action, Action::Respond(r) if r.status == 502));
    let (_, action) =
        selecting(map(&[("x-a", "new\nline")])).step(Event::Selected { url: some("http://h") });
    assert!(matches!(action, Action::Respond(r) if r.status == 502));
    let (x, action) = forwarding().step(Event::Unreachable);
    assert_eq!(x.stage, Stage::Done);
    assert!(matches!(action, Action::Respond(r)
        if r.status == 502 && text(&r) == "{\"error\":\"Bad Gateway\",\"status\":502}"));
}

#[test]
fn the_last_response() {
    let reply = make_final_reply(200, map(&[("a", "b")]), "", b"\xff\x00".to_vec());
    assert_eq!(reply.status, 200);
    assert_eq!(reply.body, b"\xff\x00");
    assert_eq!(reply.headers.get("a"), some("b"));
    let reply = make_final_reply(404, map(&[]), "h\u{e9}", b"x".to_vec());
    assert_eq!(reply.body, "h\u{e9}".as_bytes());
    // The text is that of the bytes, so the bytes are sent as they are.
    let reply = make_final_reply(200, map(&[]), "a\u{fffd}b", b"a\xffb".to_vec());
    assert_eq!(reply.body, b"a\xffb");
    for reply in [
        make_final_reply(42, map(&[]), "", vec![]),
        make_final_reply(200, map(&[("bad name", "x")]), "", vec![]),
        make_final_reply(200, map(&[("a", "\u{1}")]), "", vec![]),
    ] {
        assert_eq!(reply.status, 500);
        assert_eq!(text(&reply), "{\"error\":\"Internal Server Error\",\"status\":500}");
    }
    // A header value may hold text beyond ASCII.
    assert_eq!(make_final_reply(200, map(&[("a", "\u{e9}")]), "", vec![]).status, 200);
}

fn plugins(scripts: &[&str]) -> PluginSources {
    let pipeline: Vec<String> = (0..scripts.len()).map(|i| format!("p{}.lua", i)).collect();
    let files = scripts.iter().map(|p| some(p)).collect();
    PluginSources::load(&PluginsConfig { dir: "plugins".to_string(), pipeline }, &files)
}

const GUARD: &str = "
function on_request(ctx)
    if not ctx:get_req_header('X-API-Key') then
        ctx:reject(400, 'Missing x-api-key')
        return
    end
    ctx:set_var('key', ctx:get_req_header('x-api-key'))
end
";

const ROUTER: &str = "
function on_request(ctx) end
function on_route(ctx) return 'api' end
function on_transform(ctx) ctx:set_req_header('X-Key', ctx:get_var('key')) end
function on_response(ctx)
    ctx:set_res_status(203)
    ctx:set_res_header('X-Processed', 'true')
end
";

#[test]
fn plugins_turn_a_request_down() {
    let mut engine = LuaEngine::new(&vec![]).unwrap();
    let srcs = plugins(&[GUARD, ROUTER]);
    let (x, ctx) = Exchange::open(incoming("GET", &[], b""));
    let ctx = engine.share(ctx).unwrap();
    let a = run_request_hooks(&mut engine, &srcs, &ctx, x).ok().unwrap();
    assert!(a.on_route.is_none() && a.on_transform.is_none());
    assert_eq!(a.on_request.trace.len(), 1);
    assert_eq!(a.exchange.stage, Stage::Done);
    assert!(matches!(a.action, Action::Refuse(r)
        if r.status == 400 && text(&r) == "{\"error\":\"Missing x-api-key\",\"status\":400}"));
}

#[test]
fn every_hook_can_turn_a_request_down() {
    for hook in ["on_request", "on_route", "on_transform"] {
        let mut engine = LuaEngine::new(&vec![]).unwrap();
        let script = format!("function {}(ctx) ctx:reject(403, 'no') return 'api' end", hook);
        let srcs = plugins(&[&script]);
        let (x, ctx) = Exchange::open(incoming("GET", &[], b""));
        let ctx = engine.share(ctx).unwrap();
        let a = run_request_hooks(&mut engine, &srcs, &ctx, x).ok().unwrap();
        assert_eq!(a.exchange.stage, Stage::Done);
        assert_eq!(a.on_route.is_some(), hook != "on_request");
        assert_eq!(a.on_transform.is_some(), hook == "on_transform");
        assert!(matches!(a.action, Action::Refuse(r)
            if r.status == 403 && text(&r) == "{\"error\":\"no\",\"status\":403}"));
    }
    let mut engine = LuaEngine::new(&vec![]).unwrap();
    let srcs = plugins(&["function on_response(ctx) ctx:reject(451, 'gone') end"]);
    let (_, ctx) = Exchange::open(incoming("GET", &[], b""));
    let ctx = engine.share(ctx).unwrap();
    let (x, _) = forwarding().step(Event::Answered {
        status: 200,
        headers: map(&[]),
        body: b"fine".to_vec(),
    });
    let answer = run_response_hooks(&mut engine, &srcs, &ctx, x, 200, map(&[])).ok().unwrap();
    assert!(matches!(answer.action, Action::Refuse(r) if r.status == 451));
}

#[test]
fn a_body_passes_byte_for_byte() {
    let mut engine = LuaEngine::new(&vec![]).unwrap();
    let srcs = plugins(&["function on_response(ctx) ctx:set_res_header('x-a', 'b') end"]);
    let (_, ctx) = Exchange::open(incoming("GET", &[], b""));
    let ctx = engine.share(ctx).unwrap();
    let (x, _) = forwarding().step(Event::Answered {
        status: 200,
        headers: map(&[]),
        body: vec![0x89, b'P', b'N', b'G', 0xff, 0x00],
    });
    let answer = run_response_hooks(&mut engine, &srcs, &ctx, x, 200, map(&[])).ok().unwrap();
    assert!(matches!(answer.action, Action::Respond(r)
        if r.body == [0x89, b'P', b'N', b'G', 0xff, 0x00] && r.headers.get("x-a") == some("b")));
}

#[test]
fn plugins_see_a_request_through() {
    let mut engine = LuaEngine::new(&vec![]).unwrap();
    let srcs = plugins(&[GUARD, ROUTER]);
    let mut pool = UpstreamPool::new();
    pool.init(&vec![UpstreamConfig {
        name: "api".to_string(),
        targets: vec!["http://127.0.0.1:4000/".to_string()],
        lb: "least_conn".to_string(),
        health_check_path: "/health".to_string(),
        health_check_interval: 5,
    }]);
    let (x, ctx) = Exchange::open(incoming("GET", &[("X-Api-Key", "k1")], b""));
    let ctx = engine.share(ctx).unwrap();
    let a = run_request_hooks(&mut engine, &srcs, &ctx, x).ok().unwrap();
    assert!(a.on_route.is_some() && a.on_transform.is_some());
    let url = match a.action {
        Action::SelectTarget { upstream, key } => pool.next_url(&upstream, Some(&key)),
        _ => panic!("a target is due"),
    };
    let (x, action) = a.exchange.step(Event::Selected { url });
    match action {
        Action::SendForward(f) => {
            assert_eq!(f.url, "http://127.0.0.1:4000/users/7");
            assert_eq!(f.headers.get("x-key"), some("k1"));
            assert_eq!(f.headers.get("x-api-key"), some("k1"));
        }
        _ => panic!("it is forwarded"),
    }
    let (x, action) = x.step(Event::Answered {
        status: 200,
        headers: map(&[("server", "s")]),
        body: b"fine".to_vec(),
    });
    let (status, headers) = match action {
        Action::RunOnResponse { status, headers, .. } => (status, headers),
        _ => panic!("on_response is due"),
    };
    let answer = run_response_hooks(&mut engine, &srcs, &ctx, x, status, headers).ok().unwrap();
    assert_eq!(answer.on_response.trace.len(), 2);
    match answer.action {
        Action::Respond(reply) => {
            assert_eq!(reply.status, 203);
            assert_eq!(reply.headers.get("x-processed"), some("true"));
            assert_eq!(reply.headers.get("server"), some("s"));
            assert_eq!(text(&reply), "fine");
        }
        _ => panic!("it is answered"),
    }
}

#[test]
fn without_plugins_a_request_passes_unchanged() {
    let mut engine = LuaEngine::new(&vec![]).unwrap();
    let srcs = PluginSources::default();
    let (x, ctx) = Exchange::open(incoming("GET", &[("X-A", "1")], b""));
    let ctx = engine.share(ctx).unwrap();
    let a = run_request_hooks(&mut engine, &srcs, &ctx, x).ok().unwrap();
    assert!(matches!(&a.action, Action::SelectTarget { upstream, .. } if upstream == "default"));
    assert_eq!(a.exchange.headers.get("x-a"), some("1"));
    let (x, _) = a.exchange.step(Event::Selected { url: some("http://127.0.0.1:3000") });
    let (x, _) = x.step(Event::Answered {
        status: 204,
        headers: map(&[("etag", "e")]),
        body: b"".to_vec(),
    });
    let headers = map(&[("etag", "e")]);
    let answer = run_response_hooks(&mut engine, &srcs, &ctx, x, 204, headers).ok().unwrap();
    assert!(matches!(answer.action, Action::Respond(r)
        if r.status == 204 && r.headers.get("etag") == some("e") && r.body.is_empty()));
}
