//! The administration API: which request asks for what, and how it is answered.

use vstd::prelude::*;
use vstd::string::*;

use crate::http::{content_type, json_reply, typed_reply, Reply};
use crate::text::str_eq;

verus! {

/// What a request to the administration server asks for.
#[derive(Clone, Copy, PartialEq, Eq, Structural, Debug)]
pub enum AdminRoute {
    /// Read the plugins again.
    ReloadPlugins,
    /// Read the certificate again.
    ReloadTls,
    /// The metrics.
    Metrics,
    /// Whether the server is up.
    Health,
    /// The plugins that run.
    Plugins,
    /// Nothing that there is.
    NotFound,
}

/// What a method and a path ask for.
pub open spec fn route_of(method: Seq<char>, path: Seq<char>) -> AdminRoute {
    if method == "POST"@ && path == "/reload"@ {
        AdminRoute::ReloadPlugins
    } else if method == "POST"@ && path == "/reload/tls"@ {
        AdminRoute::ReloadTls
    } else if method == "GET"@ && path == "/metrics"@ {
        AdminRoute::Metrics
    } else if method == "GET"@ && path == "/health"@ {
        AdminRoute::Health
    } else if method == "GET"@ && path == "/plugins"@ {
        AdminRoute::Plugins
    } else {
        AdminRoute::NotFound
    }
}

/// Finds out what a request asks for.
pub fn admin_route(method: &str, path: &str) -> (r: AdminRoute)
    ensures
        r == route_of(method@, path@),
{
    let post = str_eq(method, "POST");
    let get = str_eq(method, "GET");
    if post && str_eq(path, "/reload") {
        AdminRoute::ReloadPlugins
    } else if post && str_eq(path, "/reload/tls") {
        AdminRoute::ReloadTls
    } else if get && str_eq(path, "/metrics") {
        AdminRoute::Metrics
    } else if get && str_eq(path, "/health") {
        AdminRoute::Health
    } else if get && str_eq(path, "/plugins") {
        AdminRoute::Plugins
    } else {
        AdminRoute::NotFound
    }
}

/// What came of a request to the administration server.
pub enum AdminOutcome {
    /// The plugins were read again, or why not.
    PluginsReloaded(Result<(), String>),
    /// The certificate was read again, or why not.
    TlsReloaded(Result<(), String>),
    /// There is no certificate to read.
    TlsDisabled,
    /// The metrics, written out.
    Metrics(String),
    /// The server is up.
    Healthy,
    /// The plugins that run, in their order.
    Plugins(Vec<String>),
    /// There was nothing to do.
    NotFound,
}

/// The names of plugins, quoted, with commas between them.
pub open spec fn quoted_names(names: Seq<String>) -> Seq<char>
    decreases names.len(),
{
    if names.len() == 0 {
        seq![]
    } else if names.len() == 1 {
        "\""@ + names[0]@ + "\""@
    } else {
        quoted_names(names.drop_last()) + ","@ + "\""@ + names.last()@ + "\""@
    }
}

/// The body that tells of a failure.
pub open spec fn failure_body(msg: Seq<char>) -> Seq<char> {
    "{\"status\":\"error\",\"message\":\""@ + msg + "\"}"@
}

/// The body of the answer.
pub open spec fn outcome_body(outcome: AdminOutcome) -> Seq<char> {
    match outcome {
        AdminOutcome::PluginsReloaded(Ok(_)) => "{\"status\":\"ok\",\"message\":\"plugins reloaded\"}"@,
        AdminOutcome::PluginsReloaded(Err(e)) => failure_body(e@),
        AdminOutcome::TlsReloaded(Ok(_)) => "{\"status\":\"ok\",\"message\":\"TLS reloaded\"}"@,
        AdminOutcome::TlsReloaded(Err(e)) => failure_body(e@),
        AdminOutcome::TlsDisabled => "{\"status\":\"error\",\"message\":\"TLS not enabled\"}"@,
        AdminOutcome::Metrics(text) => text@,
        AdminOutcome::Healthy => "{\"status\":\"ok\"}"@,
        AdminOutcome::Plugins(names) => "{\"plugins\":["@ + quoted_names(names@) + "]}"@,
        AdminOutcome::NotFound => "{\"error\":\"not found\"}"@,
    }
}

/// The status of the answer: everything but an unknown request counts as done.
pub open spec fn outcome_status(outcome: AdminOutcome) -> u16 {
    if outcome is NotFound {
        404
    } else {
        200
    }
}

/// The content type of the answer.
pub open spec fn outcome_type(outcome: AdminOutcome) -> Seq<char> {
    if outcome is Metrics {
        "text/plain; version=0.0.4"@
    } else {
        "application/json"@
    }
}

fn failure_text(msg: &str) -> (r: String)
    ensures
        r@ == failure_body(msg@),
{
    "{\"status\":\"error\",\"message\":\"".to_owned().concat(msg).concat("\"}")
}

fn names_text(names: &Vec<String>) -> (r: String)
    ensures
        r@ == "{\"plugins\":["@ + quoted_names(names@) + "]}"@,
{
    let mut list = String::new();
    let mut i: usize = 0;
    while i < names.len()
        invariant
            i <= names.len(),
            list@ == quoted_names(names@.take(i as int)),
        decreases names.len() - i,
    {
        assert(names@.take(i + 1).drop_last() =~= names@.take(i as int));
        if i > 0 {
            list.append(",");
        }
        list.append("\"");
        list.append(names[i].as_str());
        list.append("\"");
        assert(list@ =~= quoted_names(names@.take(i + 1)));
        i += 1;
    }
    assert(names@.take(i as int) =~= names@);
    "{\"plugins\":[".to_owned().concat(list.as_str()).concat("]}")
}

/// A JSON answer to a request that was served.
pub fn ok_json(body: &str) -> (r: Reply)
    ensures
        r.is(200, content_type("application/json"@), body@),
{
    json_reply(200, body)
}

/// Answers a request.
pub fn admin_reply(outcome: &AdminOutcome) -> (r: Reply)
    ensures
        r.is(
            outcome_status(*outcome),
            content_type(outcome_type(*outcome)),
            outcome_body(*outcome),
        ),
{
    match outcome {
        AdminOutcome::PluginsReloaded(Ok(_)) => ok_json(
            "{\"status\":\"ok\",\"message\":\"plugins reloaded\"}",
        ),
        AdminOutcome::PluginsReloaded(Err(e)) => ok_json(failure_text(e.as_str()).as_str()),
        AdminOutcome::TlsReloaded(Ok(_)) => ok_json(
            "{\"status\":\"ok\",\"message\":\"TLS reloaded\"}",
        ),
        AdminOutcome::TlsReloaded(Err(e)) => ok_json(failure_text(e.as_str()).as_str()),
        AdminOutcome::TlsDisabled => ok_json(
            "{\"status\":\"error\",\"message\":\"TLS not enabled\"}",
        ),
        AdminOutcome::Metrics(text) => typed_reply(
            200,
            "text/plain; version=0.0.4",
            text.as_str(),
        ),
        AdminOutcome::Healthy => ok_json("{\"status\":\"ok\"}"),
        AdminOutcome::Plugins(names) => ok_json(names_text(names).as_str()),
        AdminOutcome::NotFound => json_reply(404, "{\"error\":\"not found\"}"),
    }
}

/// Every route but the last is one method and one path.
pub proof fn law_routes_are_exact(method: Seq<char>, path: Seq<char>)
    ensures
        route_of(method, path) == AdminRoute::ReloadPlugins <==> method == "POST"@ && path
            == "/reload"@,
        route_of(method, path) == AdminRoute::ReloadTls <==> method == "POST"@ && path
            == "/reload/tls"@,
        route_of(method, path) == AdminRoute::Metrics <==> method == "GET"@ && path
            == "/metrics"@,
        route_of(method, path) == AdminRoute::Health <==> method == "GET"@ && path == "/health"@,
        route_of(method, path) == AdminRoute::Plugins <==> method == "GET"@ && path
            == "/plugins"@,
{
    reveal_strlit("POST");
    reveal_strlit("GET");
    reveal_strlit("/reload");
    reveal_strlit("/reload/tls");
    reveal_strlit("/metrics");
    reveal_strlit("/health");
    reveal_strlit("/plugins");
    assert("POST"@.len() != "GET"@.len());
    assert("/reload"@.len() != "/reload/tls"@.len());
    assert("/metrics"@[1] != "/health"@[1]);
    assert("/metrics"@[1] != "/plugins"@[1]);
    assert("/health"@[1] != "/plugins"@[1]);
}

/// A request that asks for nothing that there is gets 404, and every other gets
/// 200, also where what it asked for failed.
pub proof fn law_outcome_status(outcome: AdminOutcome)
    ensures
        outcome is NotFound ==> outcome_status(outcome) == 404,
        !(outcome is NotFound) ==> outcome_status(outcome) == 200,
{
}

/// The metrics are plain text in the version that Prometheus reads, and are passed
/// on as they are; everything else is JSON.
pub proof fn law_outcome_type(outcome: AdminOutcome)
    ensures
        outcome is Metrics ==> outcome_type(outcome) == "text/plain; version=0.0.4"@,
        outcome matches AdminOutcome::Metrics(text) ==> outcome_body(outcome) == text@,
        !(outcome is Metrics) ==> outcome_type(outcome) == "application/json"@,
{
}

/// What went well is told as `ok`, and what failed as `error` with the reason, for
/// plugins and certificates alike.
pub proof fn law_outcome_is_told(outcome: AdminOutcome)
    ensures
        outcome matches AdminOutcome::PluginsReloaded(Ok(_)) ==> outcome_body(outcome)
            == "{\"status\":\"ok\",\"message\":\"plugins reloaded\"}"@,
        outcome matches AdminOutcome::TlsReloaded(Ok(_)) ==> outcome_body(outcome)
            == "{\"status\":\"ok\",\"message\":\"TLS reloaded\"}"@,
        outcome is TlsDisabled ==> outcome_body(outcome)
            == "{\"status\":\"error\",\"message\":\"TLS not enabled\"}"@,
        outcome matches AdminOutcome::PluginsReloaded(Err(e)) ==> outcome_body(outcome)
            == "{\"status\":\"error\",\"message\":\""@ + e@ + "\"}"@,
        outcome matches AdminOutcome::TlsReloaded(Err(e)) ==> outcome_body(outcome)
            == "{\"status\":\"error\",\"message\":\""@ + e@ + "\"}"@,
        outcome is Healthy ==> outcome_body(outcome) == "{\"status\":\"ok\"}"@,
        outcome is NotFound ==> outcome_body(outcome) == "{\"error\":\"not found\"}"@,
{
}

/// The list of plugins holds each name, quoted, in its order: one more plugin adds
/// its name at the end, behind a comma if it is not the first.
pub proof fn law_plugins_are_listed(outcome: AdminOutcome, names: Seq<String>, name: String)
    ensures
        quoted_names(seq![]) == Seq::<char>::empty(),
        quoted_names(seq![name]) == "\""@ + name@ + "\""@,
        names.len() > 0 ==> quoted_names(names.push(name)) == quoted_names(names) + ","@ + "\""@
            + name@ + "\""@,
        outcome matches AdminOutcome::Plugins(all) ==> outcome_body(outcome) == "{\"plugins\":["@
            + quoted_names(all@) + "]}"@,
{
    assert(names.push(name).drop_last() =~= names);
}

} // verus!
