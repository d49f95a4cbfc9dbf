use lua_proxy::config::UpstreamConfig;
use lua_proxy::upstream::balancer::{
    make_balancer, Balancer, ConsistentHash, LeastConn, RoundRobin, Target,
};
use lua_proxy::upstream::pool::{can_probe, health_verdict, UpstreamPool, HEALTH_CHECK_SECONDS};

fn targets(names: &[&str]) -> Vec<Target> {
    names.iter().map(|n| Target::new(n.to_string())).collect()
}

fn some(s: &str) -> Option<String> {
    Some(s.to_string())
}

fn upstream(name: &str, targets: &[&str], lb: &str) -> UpstreamConfig {
    UpstreamConfig {
        name: name.to_string(),
        targets: targets.iter().map(|t| t.to_string()).collect(),
        lb: lb.to_string(),
        health_check_path: "/health".to_string(),
        health_check_interval: 5,
    }
}

#[test]
fn a_new_target_is_alive_and_idle() {
    let t = Target::new("http://127.0.0.1:3000".to_string());
    assert_eq!(t.url, "http://127.0.0.1:3000");
    assert!(t.is_alive());
    assert_eq!(t.active, 0);
}

#[test]
fn round_robin_takes_turns() {
    let mut rr = RoundRobin::new(targets(&["a", "b", "c"]));
    let picks: Vec<_> = (0..7).map(|_| rr.next(None).unwrap()).collect();
    assert_eq!(picks, ["a", "b", "c", "a", "b", "c", "a"]);
}

#[test]
fn round_robin_skips_dead_targets() {
    let mut rr = RoundRobin::new(targets(&["a", "b", "c"]));
    rr.set_alive(1, false);
    let picks: Vec<_> = (0..4).map(|_| rr.next(Some("k")).unwrap()).collect();
    assert_eq!(picks, ["a", "c", "a", "c"]);
    rr.set_alive(1, true);
    // Four picks were made, so the turn is at 4 modulo 3.
    assert_eq!(rr.next(None), some("b"));
}

#[test]
fn an_unanswered_call_is_no_turn() {
    let mut rr = RoundRobin::new(targets(&["a", "b"]));
    assert_eq!(rr.next(None), some("a"));
    rr.set_alive(0, false);
    rr.set_alive(1, false);
    assert_eq!(rr.next(None), None);
    assert_eq!(rr.next(None), None);
    rr.set_alive(0, true);
    rr.set_alive(1, true);
    assert_eq!(rr.next(None), some("b"));
}

fn counts(b: &dyn Balancer) -> Vec<usize> {
    b.targets().iter().map(|t| t.active).collect()
}

#[test]
fn least_conn_picks_the_first_of_the_idlest() {
    let mut t = targets(&["a", "b", "c", "d"]);
    t[0].active = 4;
    t[1].active = 2;
    t[2].active = 2;
    t[3].active = 0;
    t[3].alive = false;
    let mut lc = LeastConn::new(t);
    assert_eq!(lc.next(None), some("b"));
    assert_eq!(lc.next(None), some("c"));
    assert_eq!(lc.next(Some("k")), some("b"));
    assert_eq!(counts(&lc), [4, 4, 3, 0]);
    lc.set_alive(3, true);
    assert_eq!(lc.next(None), some("d"));
    assert_eq!(counts(&lc), [4, 4, 3, 1]);
}

#[test]
fn open_connections_are_counted_and_taken_off() {
    let mut lc = LeastConn::new(targets(&["a", "b"]));
    assert_eq!(lc.next(None), some("a"));
    assert_eq!(lc.next(None), some("b"));
    assert_eq!(lc.next(None), some("a"));
    assert_eq!(counts(&lc), [2, 1]);
    lc.release("a");
    lc.release("a");
    assert_eq!(counts(&lc), [0, 1]);
    assert_eq!(lc.next(None), some("a"));
    lc.release("a");
    lc.release("a");
    lc.release("nowhere");
    assert_eq!(counts(&lc), [0, 1]);
    lc.set_alive(0, false);
    lc.set_alive(1, false);
    assert_eq!(lc.next(None), None);
    assert_eq!(counts(&lc), [0, 1]);
}

#[test]
fn the_count_stops_at_its_limit() {
    let mut t = targets(&["a"]);
    t[0].active = usize::MAX;
    let mut lc = LeastConn::new(t);
    assert_eq!(lc.next(None), some("a"));
    assert_eq!(counts(&lc), [usize::MAX]);
}

#[test]
fn the_others_do_not_count() {
    let mut rr = RoundRobin::new(targets(&["a", "b"]));
    rr.next(None);
    rr.release("a");
    assert_eq!(counts(&rr), [0, 0]);
    let mut ch = ConsistentHash::new(targets(&["a", "b"]));
    ch.next(Some("k"));
    ch.release("a");
    assert_eq!(counts(&ch), [0, 0]);
}

#[test]
fn nobody_answers_for_an_empty_upstream() {
    assert_eq!(RoundRobin::new(vec![]).next(None), None);
    assert_eq!(LeastConn::new(vec![]).next(None), None);
    assert_eq!(ConsistentHash::new(vec![]).next(Some("k")), None);
}

#[test]
fn a_key_keeps_its_target() {
    let names = ["a", "b", "c", "d", "e"];
    let mut ch = ConsistentHash::new(targets(&names));
    for key in ["10.0.0.1", "10.0.0.2", "192.168.7.9"] {
        let slot = ConsistentHash::slot(ConsistentHash::hash_key(key), 5);
        let first = ch.next(Some(key));
        assert_eq!(first, some(names[slot]));
        ch.next(Some("someone else"));
        ch.next(None);
        assert_eq!(ch.next(Some(key)), first);
    }
}

#[test]
fn no_key_means_the_key_default() {
    let mut ch = ConsistentHash::new(targets(&["a", "b", "c"]));
    assert_eq!(ch.next(None), ch.next(Some("default")));
}

#[test]
fn hashes_tell_keys_apart() {
    assert_eq!(ConsistentHash::hash_key("x"), ConsistentHash::hash_key("x"));
    assert_ne!(ConsistentHash::hash_key("x"), ConsistentHash::hash_key("y"));
    assert_ne!(ConsistentHash::hash_key(""), ConsistentHash::hash_key("x"));
}

#[test]
fn a_slot_is_the_remainder_of_the_hash() {
    assert_eq!(ConsistentHash::slot(17, 5), 2);
    assert_eq!(ConsistentHash::slot(0, 1), 0);
}

#[test]
fn the_setting_names_the_balancer() {
    let mut t = targets(&["a", "b"]);
    t[0].active = 1;
    let mut lc = make_balancer("least_conn", t);
    assert_eq!(lc.inner.next(None), some("b"));
    assert_eq!(lc.inner.next(None), some("a"));

    let mut ch = make_balancer("consistent_hash", targets(&["a", "b"]));
    assert_eq!(ch.inner.next(Some("k")), ch.inner.next(Some("k")));

    let mut rr = make_balancer("round_robin", targets(&["a", "b"]));
    assert_eq!(rr.inner.next(None), some("a"));
    assert_eq!(rr.inner.next(None), some("b"));

    let mut other = make_balancer("no such thing", targets(&["a", "b"]));
    assert_eq!(other.inner.next(None), some("a"));
    assert_eq!(other.inner.next(None), some("b"));
    assert_eq!(other.inner.targets().len(), 2);
}

#[test]
fn an_unknown_upstream_is_served_by_the_default() {
    let mut pool = UpstreamPool::new();
    assert_eq!(pool.next_url("api", None), None);
    pool.init(&vec![
        upstream("default", &["http://d1", "http://d2"], "round_robin"),
        upstream("api", &["http://a1"], "least_conn"),
    ]);
    assert_eq!(pool.next_url("api", Some("k")), some("http://a1"));
    assert_eq!(pool.next_url("missing", None), some("http://d1"));
    assert_eq!(pool.next_url("default", None), some("http://d2"));
    assert_eq!(pool.next_url("missing", None), some("http://d1"));
}

#[test]
fn a_request_counts_until_it_is_over() {
    let mut pool = UpstreamPool::new();
    pool.init(&vec![upstream("default", &["http://d1", "http://d2"], "least_conn")]);
    assert_eq!(pool.next_url("default", None), some("http://d1"));
    assert_eq!(pool.next_url("missing", None), some("http://d2"));
    pool.release("missing", "http://d2");
    assert_eq!(pool.next_url("default", None), some("http://d2"));
    pool.release("default", "http://d1");
    assert_eq!(pool.next_url("default", None), some("http://d1"));
    pool.release("nowhere", "http://d9");
}

#[test]
fn open_requests_are_counted_through_any_course() {
    let mut pool = UpstreamPool::new();
    pool.init(&vec![upstream("api", &["http://a", "http://b"], "least_conn")]);
    assert_eq!(pool.next_url("api", None), some("http://a"));
    assert_eq!(pool.next_url("api", None), some("http://b"));
    pool.record_health("api", 1, false);
    assert_eq!(pool.next_url("api", None), some("http://a"));
    assert_eq!(pool.next_url("api", None), some("http://a"));
    pool.release("api", "http://b");
    pool.release("api", "http://b");
    pool.record_health("api", 1, true);
    // Three requests are open to the first address, and none to the second.
    for _ in 0..3 {
        assert_eq!(pool.next_url("api", None), some("http://b"));
    }
    assert_eq!(pool.next_url("api", None), some("http://a"));
    assert_eq!(pool.next_url("api", None), some("http://b"));
}

#[test]
fn without_a_default_an_unknown_upstream_is_not_served() {
    let mut pool = UpstreamPool::new();
    pool.init(&vec![upstream("api", &["http://a1"], "round_robin")]);
    assert_eq!(pool.next_url("missing", None), None);
    assert_eq!(pool.next_url("api", None), some("http://a1"));
}

#[test]
fn the_last_setting_of_a_name_counts() {
    let mut pool = UpstreamPool::new();
    pool.init(&vec![
        upstream("default", &["http://old"], "round_robin"),
        upstream("default", &["http://new"], "round_robin"),
    ]);
    assert_eq!(pool.next_url("default", None), some("http://new"));
}

#[test]
fn probes_cover_every_target() {
    let mut pool = UpstreamPool::new();
    let configs = vec![
        upstream("default", &["http://d1", "http://d2"], "round_robin"),
        upstream("api", &["http://a1"], "least_conn"),
    ];
    pool.init(&configs);
    let mut asked = configs.clone();
    asked[1].health_check_path = "/up".to_string();
    asked.push(upstream("unknown", &["http://x"], "round_robin"));
    let probes: Vec<_> = pool
        .health_probes(&asked)
        .into_iter()
        .map(|p| (p.upstream, p.index, p.url))
        .collect();
    assert_eq!(
        probes,
        vec![
            ("default".to_string(), 0, "http://d1/health".to_string()),
            ("default".to_string(), 1, "http://d2/health".to_string()),
            ("api".to_string(), 0, "http://a1/up".to_string()),
        ]
    );
}

#[test]
fn a_failed_probe_takes_a_target_out() {
    let mut pool = UpstreamPool::new();
    pool.init(&vec![upstream("default", &["http://d1", "http://d2"], "round_robin")]);
    pool.record_health("default", 0, false);
    assert_eq!(pool.next_url("default", None), some("http://d2"));
    assert_eq!(pool.next_url("default", None), some("http://d2"));
    pool.record_health("default", 1, false);
    assert_eq!(pool.next_url("default", None), None);
    pool.record_health("default", 0, true);
    assert_eq!(pool.next_url("default", None), some("http://d1"));
    // Neither of these is there.
    pool.record_health("default", 7, false);
    pool.record_health("missing", 0, false);
    assert_eq!(pool.next_url("default", None), some("http://d1"));
}

#[test]
fn a_probe_is_judged_by_its_status() {
    let url = "http://127.0.0.1:3000/health";
    assert!(can_probe(url));
    for ok in [200, 204, 299, 404] {
        assert!(health_verdict(url, Some(ok)));
    }
    for bad in [199, 301, 400, 403, 500, 503] {
        assert!(!health_verdict(url, Some(bad)));
    }
    assert!(!health_verdict(url, None));
    assert!(!can_probe("http://bad url/"));
    assert!(!health_verdict("http://bad url/", Some(200)));
    assert_eq!(HEALTH_CHECK_SECONDS, 5);
}
