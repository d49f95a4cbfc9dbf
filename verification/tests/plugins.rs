use lua_proxy::config::PluginsConfig;
use lua_proxy::lua::context::{Field, RequestCtx, UPSTREAM_VAR};
use lua_proxy::lua::engine::{
    builtin_tables, Hook, HookAnswer, HookCall, HookOutcome, LuaEngine, PluginSources,
};
use lua_proxy::lua::vm::LogLevel;
use lua_proxy::strmap::StrMap;

fn some(s: &str) -> Option<String> {
    Some(s.to_string())
}

fn engine() -> LuaEngine {
    LuaEngine::new(&vec![("JWT_SECRET".to_string(), "s3cret".to_string())]).unwrap()
}

fn sources(plugins: &[&str]) -> PluginSources {
    let pipeline: Vec<String> = (0..plugins.len()).map(|i| format!("p{}.lua", i)).collect();
    let files = plugins.iter().map(|p| some(p)).collect();
    PluginSources::load(&PluginsConfig { dir: "plugins".to_string(), pipeline }, &files)
}

fn ctx() -> RequestCtx {
    let mut headers = StrMap::new();
    headers.insert("host".to_string(), "example.org".to_string());
    headers.insert("X-Mixed".to_string(), "m".to_string());
    RequestCtx::new("GET", "/api", headers, "a body".to_string(), "10.0.0.9".to_string())
}

fn outcomes(trace: &[HookOutcome]) -> Vec<&'static str> {
    trace
        .iter()
        .map(|o| match o {
            HookOutcome::NoSource => "no source",
            HookOutcome::LoadFailed(_) => "load failed",
            HookOutcome::NoHook => "no hook",
            HookOutcome::Called(HookCall { error: Some(_), .. }) => "failed",
            HookOutcome::Called(HookCall { rejected: true, .. }) => "rejected",
            HookOutcome::Called(HookCall { choice: Some(_), .. }) => "chose",
            HookOutcome::Called(_) => "called",
        })
        .collect()
}

#[test]
fn a_fresh_context() {
    let c = ctx();
    assert_eq!(c.req_method, "GET");
    assert_eq!(c.req_path, "/api");
    assert_eq!(c.req_body, "a body");
    assert_eq!(c.client_ip, "10.0.0.9");
    assert_eq!(c.res_status, 200);
    assert_eq!(c.res_headers.len(), 0);
    assert_eq!(c.res_body, "");
    assert_eq!(c.vars.len(), 0);
    assert!(!c.is_rejected());
}

#[test]
fn a_rejection_stays_and_the_last_one_counts() {
    let mut c = ctx();
    c.reject(403, "no".to_string());
    c.set_var("a".to_string(), "b".to_string());
    c.set_res_status(200);
    assert!(c.is_rejected());
    assert_eq!(c.rejected, Some((403, "no".to_string())));
    c.reject(429, "slow down".to_string());
    assert_eq!(c.clone().rejected, Some((429, "slow down".to_string())));
}

#[test]
fn headers_and_variables_are_read_back() {
    let mut c = ctx();
    c.set_req_header("X-Request-ID", "1".to_string());
    assert_eq!(c.get_req_header("x-request-id"), some("1"));
    assert_eq!(c.get_req_header("X-REQUEST-ID"), some("1"));
    assert_eq!(c.req_headers.get("x-request-id"), some("1"));
    assert_eq!(c.req_headers.get("X-Request-ID"), None);
    assert_eq!(c.get_req_header("host"), some("example.org"));
    assert_eq!(c.get_req_header("nothing"), None);
    c.set_res_header("Server", "x".to_string());
    assert_eq!(c.res_headers.get("server"), some("x"));
    c.set_var("User".to_string(), "ada".to_string());
    assert_eq!(c.get_var("User"), some("ada"));
    assert_eq!(c.get_var("user"), None);
    c.select_upstream("api".to_string());
    assert_eq!(c.get_var(UPSTREAM_VAR), some("api"));
    assert_eq!(c.get_var("__upstream__"), some("api"));
    assert_eq!(c.req_method, "GET");
    assert_eq!(c.req_path, "/api");
}

#[test]
fn names_are_lowered_beyond_ascii() {
    let mut c = ctx();
    c.set_req_header("\u{c9}T\u{c9}", "x".to_string());
    assert_eq!(c.req_headers.get("\u{e9}t\u{e9}"), some("x"));
}

#[test]
fn a_response_is_recorded_as_text() {
    let mut c = ctx();
    let mut headers = StrMap::new();
    headers.insert("a".to_string(), "b".to_string());
    c.record_response(418, headers, b"ok\xff!");
    assert_eq!(c.res_status, 418);
    assert_eq!(c.res_headers.get("a"), some("b"));
    assert_eq!(c.res_body, "ok\u{fffd}!");
}

#[test]
fn the_tables_of_a_context() {
    let mut c = ctx();
    let req = c.req_fields();
    let names: Vec<_> = req.iter().map(|f| f.0).collect();
    assert_eq!(names, ["method", "path", "body", "ip", "headers"]);
    assert!(matches!(&req[3].1, Field::Text(s) if s == "10.0.0.9"));
    match &req[4].1 {
        Field::Pairs(pairs) => {
            let mut pairs = pairs.clone();
            pairs.sort();
            assert_eq!(
                pairs,
                vec![
                    ("host".to_string(), "example.org".to_string()),
                    ("x-mixed".to_string(), "m".to_string()),
                ]
            );
        }
        _ => panic!("headers are pairs"),
    }
    c.set_res_status(204);
    let res = c.res_fields();
    let names: Vec<_> = res.iter().map(|f| f.0).collect();
    assert_eq!(names, ["status", "body", "headers"]);
    assert!(matches!(res[0].1, Field::Number(204)));
}

#[test]
fn hooks_have_names() {
    assert_eq!(Hook::OnRequest.function_name(), "on_request");
    assert_eq!(Hook::OnRoute.function_name(), "on_route");
    assert_eq!(Hook::OnTransform.function_name(), "on_transform");
    assert_eq!(Hook::OnResponse.function_name(), "on_response");
}

#[test]
fn what_comes_of_an_answer() {
    assert!(matches!(Hook::OnRequest.judge(HookAnswer::Missing, true), HookOutcome::NoHook));
    match Hook::OnRequest.judge(HookAnswer::Failed("e".to_string()), true) {
        HookOutcome::Called(call) => {
            assert_eq!(call.error, some("e"));
            assert_eq!(call.choice, None);
            assert!(call.rejected);
        }
        _ => panic!("it was called"),
    }
    match Hook::OnRoute.judge(HookAnswer::Returned(some("api")), true) {
        HookOutcome::Called(call) => {
            assert_eq!(call.error, None);
            assert_eq!(call.choice, some("api"));
            assert!(call.rejected);
        }
        _ => panic!("it was called"),
    }
    let outcome = Hook::OnTransform.judge(HookAnswer::Returned(some("api")), false);
    assert!(matches!(&outcome, HookOutcome::Called(HookCall { choice: None, .. })));
    assert!(!Hook::OnTransform.stops_after(&outcome));
    assert!(Hook::OnResponse.stops_after(&Hook::OnResponse.judge(HookAnswer::Returned(None), true)));
    assert!(Hook::OnRequest.stops_after(&Hook::OnRequest.judge(HookAnswer::Returned(None), true)));
    assert!(!Hook::OnRequest.stops_after(&Hook::OnRequest.judge(HookAnswer::Returned(None), false)));
    assert!(Hook::OnRoute.stops_after(&Hook::OnRoute.judge(HookAnswer::Returned(some("")), false)));
    assert!(!Hook::OnRoute.stops_after(&HookOutcome::NoHook));
}

#[test]
fn functions_lent_to_plugins() {
    let names: Vec<_> = builtin_tables()
        .iter()
        .map(|t| (t.name, t.functions.iter().map(|f| f.0).collect::<Vec<_>>()))
        .collect();
    assert_eq!(
        names,
        vec![
            ("json", vec!["encode"]),
            ("base64", vec!["encode", "decode"]),
            ("hmac", vec!["sha256"]),
            ("uuid", vec!["v4"]),
        ]
    );
}

#[test]
fn a_rejection_stops_the_pipeline() {
    let mut e = engine();
    let srcs = sources(&[
        "function on_request(ctx) ctx:set_var('first', 'yes') end",
        "function on_request(ctx) ctx:reject(401, 'who are you') end",
        "function on_request(ctx) ctx:set_var('third', 'yes') end",
    ]);
    let c = e.share(ctx()).unwrap();
    let run = e.run_on_request(&srcs, &c).unwrap();
    assert_eq!(outcomes(&run.trace), ["called", "rejected"]);
    assert_eq!(run.rejection(), Some((401, "who are you".to_string())));
    assert_eq!(run.ctx.get_var("first"), some("yes"));
    assert_eq!(run.ctx.get_var("third"), None);
}

#[test]
fn a_failing_hook_that_rejected_stops_the_pipeline() {
    let mut e = engine();
    let srcs = sources(&[
        "function on_request(ctx) ctx:reject(400, 'bad'); error('and more') end",
        "function on_request(ctx) ctx:set_var('second', 'yes') end",
    ]);
    let c = e.share(ctx()).unwrap();
    let run = e.run_on_request(&srcs, &c).unwrap();
    assert_eq!(run.trace.len(), 1);
    assert_eq!(run.rejection(), Some((400, "bad".to_string())));
}

#[test]
fn trouble_does_not_stop_the_pipeline() {
    let mut e = engine();
    let pipeline: Vec<String> =
        ["a.lua", "missing.lua", "b.lua", "c.lua", "d.lua"].iter().map(|s| s.to_string()).collect();
    let files = vec![
        some("x = 1"),
        None,
        some("this is not Lua"),
        some("function on_request(ctx) error('oops') end"),
        some("function on_request(ctx) ctx:set_var('last', 'yes') end"),
    ];
    let srcs = PluginSources::load(&PluginsConfig { dir: String::new(), pipeline }, &files);
    let c = e.share(ctx()).unwrap();
    let run = e.run_on_request(&srcs, &c).unwrap();
    assert_eq!(outcomes(&run.trace), ["no hook", "no source", "load failed", "failed", "called"]);
    assert_eq!(run.rejection(), None);
    assert_eq!(run.ctx.get_var("last"), some("yes"));
}

#[test]
fn a_hook_is_the_plugins_own() {
    let append = "function on_request(ctx) ctx:set_var('n', (ctx:get_var('n') or '') .. 'x') end";
    let pipeline = vec!["a.lua".to_string(), "b.lua".to_string()];
    let cfg = PluginsConfig { dir: "plugins".to_string(), pipeline };
    let mut e = engine();
    let srcs = PluginSources::load(&cfg, &vec![some(append), some("")]);
    for _ in 0..2 {
        let c = e.share(ctx()).unwrap();
        let run = e.run_on_request(&srcs, &c).unwrap();
        assert_eq!(outcomes(&run.trace), ["called", "no hook"]);
        assert_eq!(run.ctx.get_var("n"), some("x"));
    }

    // What a plugin keeps in other globals stays.
    let srcs = sources(&[
        "seen = (seen or 0) + 1; function on_transform(ctx) end",
        "function on_transform(ctx) ctx:set_var('seen', tostring(seen)) end",
    ]);
    let c = e.share(ctx()).unwrap();
    e.run_on_transform(&srcs, &c).unwrap();
    let run = e.run_on_transform(&srcs, &c).unwrap();
    assert_eq!(outcomes(&run.trace), ["called", "called"]);
    assert_eq!(run.ctx.get_var("seen"), some("2"));

    let lends_on = "local f = function(ctx) ctx:set_var('n', 'lent') end
        setmetatable(_G, { __index = function(t, k) if k == 'on_response' then return f end end })
        function on_response(ctx) end";
    let srcs = sources(&[lends_on, ""]);
    let c = e.share(ctx()).unwrap();
    let run = e.run_on_response(&srcs, &c).unwrap();
    assert_eq!(outcomes(&run.trace), ["called", "no hook"]);
    assert_eq!(run.ctx.get_var("n"), None);
}

#[test]
fn the_first_choice_settles_the_upstream() {
    let mut e = engine();
    let srcs = sources(&[
        "function on_route(ctx) ctx:upstream('kept'); return nil end",
        "function on_route(ctx) return 'api_v2' end",
        "function on_route(ctx) return 'late' end",
    ]);
    let c = e.share(ctx()).unwrap();
    let run = e.run_on_route(&srcs, &c).unwrap();
    assert_eq!(outcomes(&run.trace), ["called", "chose"]);
    assert_eq!(run.upstream(), some("api_v2"));

    let srcs = sources(&["function on_route(ctx) ctx:upstream('kept') end"]);
    let run = e.run_on_route(&srcs, &c).unwrap();
    assert_eq!(run.upstream(), some("kept"));

    let c = e.share(ctx()).unwrap();
    let srcs = sources(&["function on_route(ctx) error('no idea') end"]);
    let run = e.run_on_route(&srcs, &c).unwrap();
    assert_eq!(outcomes(&run.trace), ["failed"]);
    assert_eq!(run.upstream(), None);
}

#[test]
fn later_hooks_run_to_the_end() {
    let mut e = engine();
    let srcs = sources(&[
        "function on_transform(ctx) ctx:set_req_header('X-Trace', ctx.req.ip) end
         function on_response(ctx) ctx:set_res_header('X-One', ctx.res.headers['a']) end",
        "function on_transform(ctx) ctx:set_req_header('X-Two', ctx:get_req_header('X-TRACE')) end
         function on_response(ctx) ctx:set_res_status(ctx.res.status + 1) end",
    ]);
    let c = e.share(ctx()).unwrap();
    let run = e.run_on_transform(&srcs, &c).unwrap();
    assert_eq!(outcomes(&run.trace), ["called", "called"]);
    assert_eq!(run.ctx.req_headers.get("x-trace"), some("10.0.0.9"));
    assert_eq!(run.ctx.req_headers.get("x-two"), some("10.0.0.9"));

    let mut held = c.read(&e).unwrap();
    let mut headers = StrMap::new();
    headers.insert("a".to_string(), "b".to_string());
    held.record_response(200, headers, b"hello");
    c.write(&mut e, held).unwrap();
    let run = e.run_on_response(&srcs, &c).unwrap();
    assert_eq!(run.trace.len(), 2);
    assert_eq!(run.ctx.res_status, 201);
    assert_eq!(run.ctx.res_headers.get("x-one"), some("b"));
    assert_eq!(run.ctx.res_body, "hello");
}

#[test]
fn a_rejection_stops_every_hook() {
    for hook in ["on_request", "on_route", "on_transform", "on_response"] {
        let mut e = engine();
        let first = format!("function {}(ctx) ctx:reject(403, 'no') return 'api' end", hook);
        let second = format!("function {}(ctx) ctx:set_var('late', 'yes') end", hook);
        let srcs = sources(&[&first, &second]);
        let c = e.share(ctx()).unwrap();
        let run = match hook {
            "on_request" => e.run_on_request(&srcs, &c),
            "on_route" => e.run_on_route(&srcs, &c),
            "on_transform" => e.run_on_transform(&srcs, &c),
            _ => e.run_on_response(&srcs, &c),
        }
        .unwrap();
        assert_eq!(outcomes(&run.trace), ["rejected"]);
        assert_eq!(run.rejection(), Some((403, "no".to_string())));
        assert_eq!(run.ctx.get_var("late"), None);
    }
}

#[test]
fn each_hook_is_called_once_in_order() {
    let mut e = engine();
    let step = |name: &str| {
        format!(
            "function on_request(ctx) ctx:set_var('order', (ctx:get_var('order') or '') .. '{}') end",
            name
        )
    };
    let (a, b, c) = (step("a"), step("b"), step("c"));
    let srcs = sources(&[&a, &b, &c]);
    let shared = e.share(ctx()).unwrap();
    let run = e.run_on_request(&srcs, &shared).unwrap();
    assert_eq!(run.ctx.get_var("order"), some("abc"));
    assert_eq!(run.trace.len(), 3);
}

#[test]
fn plugins_see_the_request() {
    let mut e = engine();
    let srcs = sources(&["function on_request(ctx)
            local r = ctx.req
            ctx:set_var('all', r.method .. '|' .. r.path .. '|' .. r.body .. '|' .. r.ip
                .. '|' .. r.headers.host .. '|' .. r.headers['x-mixed'])
            ctx:set_var('again', ctx.vars.all)
            ctx:set_var('none', tostring(ctx:get_var('unset')))
            ctx:set_var('status', tostring(ctx.res.status))
        end"]);
    let c = e.share(ctx()).unwrap();
    let run = e.run_on_request(&srcs, &c).unwrap();
    assert_eq!(run.ctx.get_var("all"), some("GET|/api|a body|10.0.0.9|example.org|m"));
    assert_eq!(run.ctx.get_var("again"), run.ctx.get_var("all"));
    assert_eq!(run.ctx.get_var("none"), some("nil"));
    assert_eq!(run.ctx.get_var("status"), some("200"));
}

#[test]
fn plugins_use_what_they_are_lent() {
    let mut e = engine();
    let srcs = sources(&["function on_request(ctx)
            ctx:set_var('secret', ENV['JWT_SECRET'])
            ctx:set_var('b64', base64.encode('foobar!'))
            ctx:set_var('text', base64.decode('Zm9v'))
            ctx:set_var('junk', base64.decode('!!!!'))
            ctx:set_var('json', json.encode({ 1, 'a\"b', true, { k = 1.5 } }))
            ctx:set_var('empty', json.encode({}))
            ctx:set_var('odd', json.encode(print))
            ctx:set_var('bytes', json.encode('\\xff'))
            local mac = hmac.sha256('input message', 'my secret and secure key')
            ctx:set_var('mac_length', tostring(#mac))
            ctx:set_var('mac_text', base64.encode(mac))
            ctx:set_var('id', uuid.v4())
        end"]);
    let c = e.share(ctx()).unwrap();
    let run = e.run_on_request(&srcs, &c).unwrap();
    assert_eq!(outcomes(&run.trace), ["called"]);
    assert_eq!(run.ctx.get_var("secret"), some("s3cret"));
    assert_eq!(run.ctx.get_var("b64"), some("Zm9vYmFyIQ=="));
    assert_eq!(run.ctx.get_var("text"), some("foo"));
    assert_eq!(run.ctx.get_var("junk"), some(""));
    assert_eq!(run.ctx.get_var("json"), some("[1,\"a\\\"b\",true,{\"k\":1.5}]"));
    assert_eq!(run.ctx.get_var("mac_length"), some("32"));
    assert_eq!(run.ctx.get_var("mac_text"), some("l9KlaQWbvNjq1ERP+ZBx9MAdAFvO/g01Z+G+Yo5f3Nk="));
    assert_eq!(run.ctx.get_var("empty"), some("{}"));
    assert_eq!(run.ctx.get_var("odd"), some("null"));
    assert_eq!(run.ctx.get_var("bytes"), some("\"\""));
    assert!(run.ctx.get_var("id").unwrap().contains("-4"));
}

#[test]
fn plugins_log() {
    let seen = std::rc::Rc::new(std::cell::RefCell::new(Vec::new()));
    let lines = seen.clone();
    let mut e = engine();
    e.lend_log(move |level, text| lines.borrow_mut().push((level, text))).unwrap();
    let srcs = sources(&["function on_request(ctx) log.warn('w') log.info('i') end"]);
    let c = e.share(ctx()).unwrap();
    let run = e.run_on_request(&srcs, &c).unwrap();
    assert_eq!(outcomes(&run.trace), ["called"]);
    let expected = [(LogLevel::Warn, "w".to_string()), (LogLevel::Info, "i".to_string())];
    assert_eq!(*seen.borrow(), expected);
}

#[test]
fn plugins_see_what_the_context_is() {
    let mut e = engine();
    let srcs = sources(&["function on_request(ctx) ctx:set_var('type', tostring(ctx)) end"]);
    let c = e.share(ctx()).unwrap();
    let run = e.run_on_request(&srcs, &c).unwrap();
    assert!(run.ctx.get_var("type").unwrap().starts_with("LuaCtx: "));
}

#[test]
fn a_context_is_read_back() {
    let mut e = engine();
    let first = e.share(ctx()).unwrap();
    let mut other = ctx();
    other.set_var("who".to_string(), "second".to_string());
    let second = e.share(other).unwrap();
    assert_eq!(first.read(&e).unwrap().get_var("who"), None);
    assert_eq!(second.read(&e).unwrap().get_var("who"), some("second"));
    let mut held = first.read(&e).unwrap();
    held.reject(403, "no".to_string());
    first.write(&mut e, held).unwrap();
    assert!(first.read(&e).unwrap().is_rejected());
    assert!(!second.read(&e).unwrap().is_rejected());
    // What the hook did is what is read afterwards.
    let srcs = sources(&["function on_transform(ctx) ctx:set_var('who', 'hook') end"]);
    let run = e.run_on_transform(&srcs, &second).unwrap();
    assert_eq!(run.ctx.get_var("who"), some("hook"));
    assert_eq!(second.read(&e).unwrap().get_var("who"), some("hook"));
}

#[test]
fn values_are_written_by_what_they_are() {
    let mut e = engine();
    let srcs = sources(&["function on_request(ctx)
            local values = { 'a', 7, 1.5, true, false, print }
            for i, v in ipairs(values) do ctx:set_var(tostring(i), json.encode(v)) end
            ctx:set_var('nil', json.encode(nil))
            ctx:set_var('deep', json.encode({ { { 1 } } }))
            ctx:set_var('meta', json.encode(setmetatable({ 1 }, { __index = error })))
            ctx:set_var('mixed', json.encode({ 1, 'x\"y', { true, {} }, 1.5 }))
            ctx:set_var('slash', json.encode('a\\\\b'))
            ctx:set_var('keyed', json.encode({ [true] = 'yes' }))
            ctx:set_var('huge', json.encode(math.huge))
            local filled = setmetatable({ 1, nil, 3 }, { __index = function(t, i) return i * 10 end })
            ctx:set_var('filled', json.encode(filled))
            local many = {}
            for i = 1, 2000 do many['k' .. i] = 'v' end
            ctx:set_var('many', tostring(#json.encode(many)))
        end"]);
    let c = e.share(ctx()).unwrap();
    let run = e.run_on_request(&srcs, &c).unwrap();
    assert_eq!(outcomes(&run.trace), ["called"]);
    let expected = ["\"a\"", "7", "1.5", "true", "false", "null"];
    for (i, text) in expected.iter().enumerate() {
        assert_eq!(run.ctx.get_var(&format!("{}", i + 1)), some(text));
    }
    assert_eq!(run.ctx.get_var("nil"), some("null"));
    assert_eq!(run.ctx.get_var("deep"), some("[[[1]]]"));
    assert_eq!(run.ctx.get_var("meta"), some("[1]"));
    assert_eq!(run.ctx.get_var("mixed"), some("[1,\"x\\\"y\",[true,{}],1.5]"));
    assert_eq!(run.ctx.get_var("slash"), some("\"a\\\\b\""));
    assert_eq!(run.ctx.get_var("keyed"), some("{\"true\":\"yes\"}"));
    assert_eq!(run.ctx.get_var("huge"), some("null"));
    assert_eq!(run.ctx.get_var("filled"), some("[1,20,3]"));
    let keys: usize = (1..=2000).map(|i| format!("\"k{}\":\"v\",", i).len()).sum();
    assert_eq!(run.ctx.get_var("many"), some(&format!("{}", keys + 1)));
}

#[test]
fn a_table_is_walked_before_it_is_read() {
    let mut e = engine();
    let srcs = sources(&["function on_request(ctx)
            local outer = {}
            outer.a = setmetatable({ 1, nil, 3 }, { __index = function()
                outer.a = nil
                for i = 1, 100 do outer['k' .. i] = i end
                return 0
            end })
            ctx:set_var('changed', json.encode(outer))
            local _, failure = pcall(base64.encode)
            ctx:set_var('failure', json.encode({ [failure] = 1 }))
            ctx:set_var('failed', json.encode({ why = failure }))
            ctx:set_var('table key', json.encode({ [{ 1, { a = {} } }] = { { b = 2 } } }))
        end"]);
    let c = e.share(ctx()).unwrap();
    let run = e.run_on_request(&srcs, &c).unwrap();
    assert_eq!(outcomes(&run.trace), ["called"]);
    assert_eq!(run.ctx.get_var("changed"), some("{\"a\":[1,0,3]}"));
    assert_eq!(run.ctx.get_var("failure"), some("{\"null\":1}"));
    assert_eq!(run.ctx.get_var("failed"), some("{\"why\":null}"));
    let keyed = "{\"[1,{\\\"a\\\":{}}]\":[{\"b\":2}]}";
    assert_eq!(run.ctx.get_var("table key"), some(keyed));
}

#[test]
fn a_table_of_many_tables_is_written() {
    let mut e = engine();
    let srcs = sources(&["function on_request(ctx)
            local many = {}
            for i = 1, 1010000 do many[-i] = {} end
            ctx:set_var('many', tostring(#json.encode(many)))
        end"]);
    let c = e.share(ctx()).unwrap();
    let run = e.run_on_request(&srcs, &c).unwrap();
    assert_eq!(outcomes(&run.trace), ["called"]);
    let pairs: usize = (1..=1010000).map(|i| format!("\"-{}\":{{}},", i).len()).sum();
    assert_eq!(run.ctx.get_var("many"), some(&format!("{}", pairs + 1)));
}

#[test]
fn a_code_is_made_of_texts() {
    let mut e = engine();
    let srcs = sources(&["function on_request(ctx)
            ctx:set_var('message', tostring(pcall(hmac.sha256, '\\xff', 'k')))
            ctx:set_var('secret', tostring(pcall(hmac.sha256, 'm', '\\xff')))
            ctx:set_var('texts', tostring(pcall(hmac.sha256, 'm', 'k')))
            ctx:set_var('bytes', base64.encode('\\xff'))
        end"]);
    let c = e.share(ctx()).unwrap();
    let run = e.run_on_request(&srcs, &c).unwrap();
    assert_eq!(outcomes(&run.trace), ["called"]);
    assert_eq!(run.ctx.get_var("message"), some("false"));
    assert_eq!(run.ctx.get_var("secret"), some("false"));
    assert_eq!(run.ctx.get_var("texts"), some("true"));
    assert_eq!(run.ctx.get_var("bytes"), some("/w=="));
}

#[test]
fn an_empty_pipeline_changes_nothing() {
    let mut e = engine();
    let c = e.share(ctx()).unwrap();
    let run = e.run_on_request(&PluginSources::default(), &c).unwrap();
    assert!(run.trace.is_empty());
    assert_eq!(run.rejection(), None);
    assert_eq!(run.upstream(), None);
    assert_eq!(run.ctx.req_path, "/api");
}
