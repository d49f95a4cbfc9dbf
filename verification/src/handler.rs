//! The course of one request through the proxy.

use vstd::prelude::*;
use vstd::string::*;
use vstd::utf8::*;

use crate::http::{
    collect_headers, collected, content_type, error_body, error_response, headers_ok, request_ok,
    status_ok, valid_headers, valid_method, valid_status, valid_uri, RawHeader, Reply,
};
use crate::lua::context::{
    fresh_ctx, law_evolution_keeps, rejection_view, text_view, RequestCtx,
};
use crate::lua::engine::{
    ran, settled_upstream, trace_view, Hook, HookRun, LuaCtx, LuaEngine, PluginSources,
};
use crate::lua::vm::{carried_on, is_described, lemma_carried_on};
use crate::strmap::StrMap;
use crate::text::{
    decimal, law_trim_end, str_eq, string_from_utf8_lossy, trim_end, trim_end_char, utf8_lossy,
};
use crate::upstream::pool::DEFAULT_UPSTREAM;

verus! {

/// What the proxy calls itself towards upstreams.
pub const PROXY_NAME: &'static str = "rust-lua-proxy/0.1";

/// A request as it came in.
pub struct Incoming {
    pub method: String,
    pub path: String,
    pub headers: Vec<RawHeader>,
    pub body: Vec<u8>,
    /// The address of the other end of the connection.
    pub peer_ip: String,
}

/// Who the client is: `x-real-ip` if it is there, else `x-forwarded-for`, else
/// the other end of the connection.
pub open spec fn client_ip(headers: Map<Seq<char>, Seq<char>>, peer: Seq<char>) -> Seq<char> {
    if headers.contains_key("x-real-ip"@) {
        headers["x-real-ip"@]
    } else if headers.contains_key("x-forwarded-for"@) {
        headers["x-forwarded-for"@]
    } else {
        peer
    }
}

/// Finds out who the client is.
pub fn find_client_ip(headers: &StrMap, peer: &str) -> (r: String)
    ensures
        r@ == client_ip(headers@, peer@),
{
    match headers.get("x-real-ip") {
        Some(ip) => ip,
        None => match headers.get("x-forwarded-for") {
            Some(ip) => ip,
            None => peer.to_owned(),
        },
    }
}

/// The headers that go to the upstream: those of the context, with the client
/// and the proxy named.
pub open spec fn outgoing_headers(
    headers: Map<Seq<char>, Seq<char>>,
    ip: Seq<char>,
) -> Map<Seq<char>, Seq<char>> {
    headers.insert("x-forwarded-for"@, ip).insert("x-proxy"@, PROXY_NAME@)
}

/// The address of a path at a target.
pub open spec fn target_url(target: Seq<char>, path: Seq<char>) -> Seq<char> {
    trim_end(target, '/') + path
}

/// How far a request has come.
#[derive(Clone, Copy, PartialEq, Eq, Structural, Debug)]
pub enum Stage {
    /// `on_request` is due.
    Admitting,
    /// `on_route` is due.
    Routing,
    /// `on_transform` is due.
    Transforming,
    /// A target is to be picked.
    Selecting,
    /// The request is to be forwarded.
    Forwarding,
    /// `on_response` is due.
    Answering,
    /// It is answered.
    Done,
}

/// A request on its way through the proxy.
pub struct Exchange {
    pub stage: Stage,
    pub method: String,
    pub path: String,
    pub ip: String,
    pub body: Vec<u8>,
    /// The upstream that it goes to, once that is settled.
    pub upstream: String,
    /// The headers it is forwarded with, once they are settled.
    pub headers: StrMap,
    /// The body that the upstream answered with.
    pub answer: Vec<u8>,
}

/// The model of an [`Exchange`].
#[verifier::ext_equal]
pub struct ExchangeView {
    pub stage: Stage,
    pub method: Seq<char>,
    pub path: Seq<char>,
    pub ip: Seq<char>,
    pub body: Seq<u8>,
    pub upstream: Seq<char>,
    pub headers: Map<Seq<char>, Seq<char>>,
    pub answer: Seq<u8>,
}

impl View for Exchange {
    type V = ExchangeView;

    open spec fn view(&self) -> ExchangeView {
        ExchangeView {
            stage: self.stage,
            method: self.method@,
            path: self.path@,
            ip: self.ip@,
            body: self.body@,
            upstream: self.upstream@,
            headers: self.headers@,
            answer: self.answer@,
        }
    }
}

/// What has happened to a request.
pub enum Event {
    /// `on_request` ran.
    Admitted { rejected: Option<(u16, String)> },
    /// `on_route` ran.
    Routed { rejected: Option<(u16, String)>, upstream: Option<String> },
    /// `on_transform` ran; these are the headers of the context.
    Transformed { rejected: Option<(u16, String)>, headers: StrMap },
    /// A target was asked for.
    Selected { url: Option<String> },
    /// The upstream answered.
    Answered { status: u16, headers: StrMap, body: Vec<u8> },
    /// The upstream did not answer.
    Unreachable,
    /// `on_response` ran; this is the response of the context.
    Finished {
        rejected: Option<(u16, String)>,
        status: u16,
        headers: StrMap,
        text: String,
    },
}

/// The model of an [`Event`].
pub enum EventView {
    Admitted { rejected: Option<(u16, Seq<char>)> },
    Routed { rejected: Option<(u16, Seq<char>)>, upstream: Option<Seq<char>> },
    Transformed { rejected: Option<(u16, Seq<char>)>, headers: Map<Seq<char>, Seq<char>> },
    Selected { url: Option<Seq<char>> },
    Answered { status: u16, headers: Map<Seq<char>, Seq<char>>, body: Seq<u8> },
    Unreachable,
    Finished {
        rejected: Option<(u16, Seq<char>)>,
        status: u16,
        headers: Map<Seq<char>, Seq<char>>,
        text: Seq<char>,
    },
}

impl View for Event {
    type V = EventView;

    open spec fn view(&self) -> EventView {
        match self {
            Event::Admitted { rejected } => EventView::Admitted {
                rejected: rejection_view(*rejected),
            },
            Event::Routed { rejected, upstream } => EventView::Routed {
                rejected: rejection_view(*rejected),
                upstream: text_view(*upstream),
            },
            Event::Transformed { rejected, headers } => EventView::Transformed {
                rejected: rejection_view(*rejected),
                headers: headers@,
            },
            Event::Selected { url } => EventView::Selected { url: text_view(*url) },
            Event::Answered { status, headers, body } => EventView::Answered {
                status: *status,
                headers: headers@,
                body: body@,
            },
            Event::Unreachable => EventView::Unreachable,
            Event::Finished { rejected, status, headers, text } => EventView::Finished {
                rejected: rejection_view(*rejected),
                status: *status,
                headers: headers@,
                text: text@,
            },
        }
    }
}

/// A request to an upstream.
pub struct Forward {
    pub method: String,
    pub url: String,
    pub headers: StrMap,
    pub body: Vec<u8>,
}

/// What is to be done next for a request.
pub enum Action {
    /// Run `on_route`.
    RunOnRoute,
    /// Run `on_transform`.
    RunOnTransform,
    /// Pick a target of the upstream for the key.
    SelectTarget { upstream: String, key: String },
    /// Send the request on.
    SendForward(Forward),
    /// Put the answer into the context and run `on_response`.
    RunOnResponse { status: u16, headers: StrMap, body: Vec<u8> },
    /// Answer: a plugin turned the request down.
    Refuse(Reply),
    /// Answer.
    Respond(Reply),
    /// Give up without an answer: a plugin turned the request down with a number
    /// that is no status.
    Abort(u16),
}

/// The model of a [`Reply`].
#[verifier::ext_equal]
pub struct ReplyView {
    pub status: u16,
    pub headers: Map<Seq<char>, Seq<char>>,
    pub body: Seq<u8>,
}

impl View for Reply {
    type V = ReplyView;

    open spec fn view(&self) -> ReplyView {
        ReplyView { status: self.status, headers: self.headers@, body: self.body@ }
    }
}

/// The model of an [`Action`].
pub enum ActionView {
    RunOnRoute,
    RunOnTransform,
    SelectTarget { upstream: Seq<char>, key: Seq<char> },
    SendForward {
        method: Seq<char>,
        url: Seq<char>,
        headers: Map<Seq<char>, Seq<char>>,
        body: Seq<u8>,
    },
    RunOnResponse { status: u16, headers: Map<Seq<char>, Seq<char>>, body: Seq<u8> },
    Refuse(ReplyView),
    Respond(ReplyView),
    Abort(u16),
}

impl View for Action {
    type V = ActionView;

    open spec fn view(&self) -> ActionView {
        match self {
            Action::RunOnRoute => ActionView::RunOnRoute,
            Action::RunOnTransform => ActionView::RunOnTransform,
            Action::SelectTarget { upstream, key } => ActionView::SelectTarget {
                upstream: upstream@,
                key: key@,
            },
            Action::SendForward(f) => ActionView::SendForward {
                method: f.method@,
                url: f.url@,
                headers: f.headers@,
                body: f.body@,
            },
            Action::RunOnResponse { status, headers, body } => ActionView::RunOnResponse {
                status: *status,
                headers: headers@,
                body: body@,
            },
            Action::Refuse(reply) => ActionView::Refuse(reply@),
            Action::Respond(reply) => ActionView::Respond(reply@),
            Action::Abort(status) => ActionView::Abort(*status),
        }
    }
}

/// The response that tells of an error.
pub open spec fn error_reply(status: u16, msg: Seq<char>) -> ReplyView {
    ReplyView {
        status,
        headers: content_type("application/json"@),
        body: encode_utf8(error_body(status, msg)),
    }
}

/// The body that a request is answered with: what the context then has for it
/// where that was changed to something, and else the upstream's bytes.
pub open spec fn final_body(text: Seq<char>, answer: Seq<u8>) -> Seq<u8> {
    if text.len() == 0 || text == utf8_lossy(answer) {
        answer
    } else {
        encode_utf8(text)
    }
}

/// The response that a request ends with: the one of the context. Where it
/// cannot be sent, the response tells of an internal error instead.
pub open spec fn final_reply(
    status: u16,
    headers: Map<Seq<char>, Seq<char>>,
    text: Seq<char>,
    answer: Seq<u8>,
) -> ReplyView {
    if valid_status(status) && valid_headers(headers) {
        ReplyView { status, headers, body: final_body(text, answer) }
    } else {
        error_reply(500, "Internal Server Error"@)
    }
}

impl ExchangeView {
    /// The event is one that this stage waits for.
    pub open spec fn expects(self, event: EventView) -> bool {
        match event {
            EventView::Admitted { .. } => self.stage == Stage::Admitting,
            EventView::Routed { .. } => self.stage == Stage::Routing,
            EventView::Transformed { .. } => self.stage == Stage::Transforming,
            EventView::Selected { .. } => self.stage == Stage::Selecting,
            EventView::Answered { .. } => self.stage == Stage::Forwarding,
            EventView::Unreachable => self.stage == Stage::Forwarding,
            EventView::Finished { .. } => self.stage == Stage::Answering,
        }
    }

    /// The request is answered.
    pub open spec fn done(self) -> ExchangeView {
        ExchangeView { stage: Stage::Done, ..self }
    }

    /// The request was turned down: it is answered with that, unless the number
    /// is no status.
    pub open spec fn refused(self, status: u16, msg: Seq<char>) -> (ExchangeView, ActionView) {
        if valid_status(status) {
            (self.done(), ActionView::Refuse(error_reply(status, msg)))
        } else {
            (self.done(), ActionView::Abort(status))
        }
    }

    /// What becomes of the request, and what is to be done next. Whichever hook
    /// ran, a request that was turned down goes no further.
    pub open spec fn next(self, event: EventView) -> (ExchangeView, ActionView) {
        match event {
            EventView::Admitted { rejected } => match rejected {
                Some((status, msg)) => self.refused(status, msg),
                None => (
                    ExchangeView { stage: Stage::Routing, ..self },
                    ActionView::RunOnRoute,
                ),
            },
            EventView::Routed { rejected, upstream } => match rejected {
                Some((status, msg)) => self.refused(status, msg),
                None => (
                    ExchangeView {
                        stage: Stage::Transforming,
                        upstream: match upstream {
                            Some(name) => name,
                            None => DEFAULT_UPSTREAM@,
                        },
                        ..self
                    },
                    ActionView::RunOnTransform,
                ),
            },
            EventView::Transformed { rejected, headers } => match rejected {
                Some((status, msg)) => self.refused(status, msg),
                None => (
                    ExchangeView { stage: Stage::Selecting, headers, ..self },
                    ActionView::SelectTarget { upstream: self.upstream, key: self.ip },
                ),
            },
            EventView::Selected { url } => match url {
                Some(target) => {
                    let url = target_url(target, self.path);
                    let headers = outgoing_headers(self.headers, self.ip);
                    if valid_method(self.method) && valid_uri(url) && valid_headers(headers) {
                        (
                            ExchangeView { stage: Stage::Forwarding, headers, ..self },
                            ActionView::SendForward {
                                method: self.method,
                                url,
                                headers,
                                body: self.body,
                            },
                        )
                    } else {
                        (self.done(), ActionView::Respond(error_reply(502, "Bad Gateway"@)))
                    }
                },
                None => (
                    self.done(),
                    ActionView::Respond(error_reply(503, "Service Unavailable"@)),
                ),
            },
            EventView::Answered { status, headers, body } => (
                ExchangeView { stage: Stage::Answering, answer: body, ..self },
                ActionView::RunOnResponse { status, headers, body },
            ),
            EventView::Unreachable => (
                self.done(),
                ActionView::Respond(error_reply(502, "Bad Gateway"@)),
            ),
            EventView::Finished { rejected, status, headers, text } => match rejected {
                Some((code, msg)) => self.refused(code, msg),
                None => (
                    self.done(),
                    ActionView::Respond(final_reply(status, headers, text, self.answer)),
                ),
            },
        }
    }
}

/// The state in which a request starts.
pub open spec fn opened(
    method: Seq<char>,
    path: Seq<char>,
    ip: Seq<char>,
    body: Seq<u8>,
) -> ExchangeView {
    ExchangeView {
        stage: Stage::Admitting,
        method,
        path,
        ip,
        body,
        upstream: DEFAULT_UPSTREAM@,
        headers: Map::empty(),
        answer: seq![],
    }
}

fn copy_bytes(bytes: &Vec<u8>) -> (r: Vec<u8>)
    ensures
        r@ == bytes@,
{
    let mut out: Vec<u8> = Vec::new();
    let mut i: usize = 0;
    while i < bytes.len()
        invariant
            i <= bytes.len(),
            out@ == bytes@.take(i as int),
        decreases bytes.len() - i,
    {
        out.push(bytes[i]);
        assert(bytes@.take(i + 1) =~= bytes@.take(i as int).push(bytes@[i as int]));
        i += 1;
    }
    assert(bytes@.take(i as int) =~= bytes@);
    out
}

fn error(status: u16, msg: &str) -> (r: Reply)
    requires
        valid_status(status),
    ensures
        r@ == error_reply(status, msg@),
{
    error_response(status, msg)
}

/// Puts the last response together.
pub fn make_final_reply(status: u16, headers: StrMap, text: &str, answer: Vec<u8>) -> (r: Reply)
    ensures
        r@ == final_reply(status, headers@, text@, answer@),
{
    if status_ok(status) && headers_ok(&headers) {
        let seen = string_from_utf8_lossy(answer.as_slice());
        let body = if text.is_empty() || str_eq(text, seen.as_str()) {
            answer
        } else {
            text.as_bytes_vec()
        };
        Reply { status, headers, body }
    } else {
        error(500, "Internal Server Error")
    }
}

impl Exchange {
    /// Takes a request in: the exchange, and the context for its plugins.
    pub fn open(request: Incoming) -> (r: (Exchange, RequestCtx))
        ensures
            r.0@ == opened(
                request.method@,
                request.path@,
                client_ip(collected(request.headers@), request.peer_ip@),
                request.body@,
            ),
            r.1@ == fresh_ctx(
                request.method@,
                request.path@,
                collected(request.headers@),
                utf8_lossy(request.body@),
                client_ip(collected(request.headers@), request.peer_ip@),
            ),
    {
        let headers = collect_headers(&request.headers);
        let ip = find_client_ip(&headers, request.peer_ip.as_str());
        let text = string_from_utf8_lossy(request.body.as_slice());
        let ctx = RequestCtx::new(
            request.method.as_str(),
            request.path.as_str(),
            headers,
            text,
            ip.clone(),
        );
        let exchange = Exchange {
            stage: Stage::Admitting,
            method: request.method,
            path: request.path,
            ip,
            body: request.body,
            upstream: DEFAULT_UPSTREAM.to_owned(),
            headers: StrMap::new(),
            answer: Vec::new(),
        };
        assert(exchange@.answer =~= seq![]);
        (exchange, ctx)
    }

    /// Answers a request that was turned down.
    fn refuse(self, status: u16, msg: &str) -> (r: (Exchange, Action))
        ensures
            (r.0@, r.1@) == self@.refused(status, msg@),
    {
        let mut next = self;
        next.stage = Stage::Done;
        if status_ok(status) {
            (next, Action::Refuse(error(status, msg)))
        } else {
            (next, Action::Abort(status))
        }
    }

    /// Moves on after something happened.
    pub fn step(self, event: Event) -> (r: (Exchange, Action))
        requires
            self@.expects(event@),
        ensures
            (r.0@, r.1@) == self@.next(event@),
    {
        let mut next = self;
        match event {
            Event::Admitted { rejected } => match rejected {
                Some((status, msg)) => next.refuse(status, msg.as_str()),
                None => {
                    next.stage = Stage::Routing;
                    (next, Action::RunOnRoute)
                },
            },
            Event::Routed { rejected, upstream } => match rejected {
                Some((status, msg)) => next.refuse(status, msg.as_str()),
                None => {
                    next.stage = Stage::Transforming;
                    next.upstream = match upstream {
                        Some(name) => name,
                        None => DEFAULT_UPSTREAM.to_owned(),
                    };
                    (next, Action::RunOnTransform)
                },
            },
            Event::Transformed { rejected, headers } => match rejected {
                Some((status, msg)) => next.refuse(status, msg.as_str()),
                None => {
                    next.stage = Stage::Selecting;
                    next.headers = headers;
                    let action = Action::SelectTarget {
                        upstream: next.upstream.clone(),
                        key: next.ip.clone(),
                    };
                    (next, action)
                },
            },
            Event::Selected { url } => match url {
                Some(target) => {
                    let url = trim_end_char(target.as_str(), '/').concat(next.path.as_str());
                    let mut headers = next.headers.clone();
                    headers.insert("x-forwarded-for".to_owned(), next.ip.clone());
                    headers.insert("x-proxy".to_owned(), PROXY_NAME.to_owned());
                    if request_ok(next.method.as_str(), url.as_str(), &headers) {
                        next.stage = Stage::Forwarding;
                        next.headers = headers.clone();
                        let forward = Forward {
                            method: next.method.clone(),
                            url,
                            headers,
                            body: copy_bytes(&next.body),
                        };
                        (next, Action::SendForward(forward))
                    } else {
                        next.stage = Stage::Done;
                        (next, Action::Respond(error(502, "Bad Gateway")))
                    }
                },
                None => {
                    next.stage = Stage::Done;
                    (next, Action::Respond(error(503, "Service Unavailable")))
                },
            },
            Event::Answered { status, headers, body } => {
                next.stage = Stage::Answering;
                next.answer = copy_bytes(&body);
                (next, Action::RunOnResponse { status, headers, body })
            },
            Event::Unreachable => {
                next.stage = Stage::Done;
                (next, Action::Respond(error(502, "Bad Gateway")))
            },
            Event::Finished { rejected, status, headers, text } => match rejected {
                Some((code, msg)) => next.refuse(code, msg.as_str()),
                None => {
                    next.stage = Stage::Done;
                    let answer = copy_bytes(&next.answer);
                    (
                        next,
                        Action::Respond(make_final_reply(status, headers, text.as_str(), answer)),
                    )
                },
            },
        }
    }
}

/// A request that went through the plugins on its way in.
pub struct Admission {
    pub exchange: Exchange,
    pub action: Action,
    /// What came of `on_request`.
    pub on_request: HookRun,
    /// What came of `on_route`, where the request came to it.
    pub on_route: Option<HookRun>,
    /// What came of `on_transform`, where the request came to it.
    pub on_transform: Option<HookRun>,
}

/// The exchange moved on after an event.
pub open spec fn moved(
    from: ExchangeView,
    event: EventView,
    exchange: ExchangeView,
    action: ActionView,
) -> bool {
    (exchange, action) == from.next(event)
}

/// A request went through `on_request`, `on_route` and `on_transform`, one after
/// the other and no further than to the first that turned it down, and moved on
/// as that or the last of them left it.
pub open spec fn went_in(
    srcs: PluginSources,
    ctx: LuaCtx,
    from: ExchangeView,
    before: LuaEngine,
    a: Admission,
    after: LuaEngine,
) -> bool {
    let first = EventView::Admitted { rejected: a.on_request.ctx@.rejected };
    exists|one: LuaEngine| #[trigger]
        ran(Hook::OnRequest, srcs, ctx, before, a.on_request, one) && if a.on_request.ctx@.rejected
            is Some {
            &&& a.on_route is None
            &&& a.on_transform is None
            &&& after == one
            &&& moved(from, first, a.exchange@, a.action@)
        } else {
            a.on_route matches Some(routed) && went_on(
                srcs,
                ctx,
                from.next(first).0,
                one,
                routed,
                a,
                after,
            )
        }
}

/// A request that `on_request` let pass went through `on_route` and
/// `on_transform`.
pub open spec fn went_on(
    srcs: PluginSources,
    ctx: LuaCtx,
    from: ExchangeView,
    before: LuaEngine,
    routed: HookRun,
    a: Admission,
    after: LuaEngine,
) -> bool {
    let second = EventView::Routed {
        rejected: routed.ctx@.rejected,
        upstream: settled_upstream(trace_view(routed.trace@), routed.ctx@),
    };
    exists|two: LuaEngine| #[trigger]
        ran(Hook::OnRoute, srcs, ctx, before, routed, two) && if routed.ctx@.rejected is Some {
            &&& a.on_transform is None
            &&& after == two
            &&& moved(from, second, a.exchange@, a.action@)
        } else {
            a.on_transform matches Some(transformed) && {
                &&& ran(Hook::OnTransform, srcs, ctx, two, transformed, after)
                &&& moved(
                    from.next(second).0,
                    EventView::Transformed {
                        rejected: transformed.ctx@.rejected,
                        headers: transformed.ctx@.req_headers,
                    },
                    a.exchange@,
                    a.action@,
                )
            }
        }
}

/// Takes a request through `on_request`, `on_route` and `on_transform`. Whatever
/// the plugins do, a request that they turned down goes no further, and any
/// other goes on as they settled it.
pub fn run_request_hooks(
    engine: &mut LuaEngine,
    srcs: &PluginSources,
    ctx: &LuaCtx,
    exchange: Exchange,
) -> (r: Result<Admission, mlua::Error>)
    requires
        exchange.stage == Stage::Admitting,
        old(engine).holds(*ctx),
    ensures
        carried_on(old(engine).lua(), final(engine).lua()),
        r matches Ok(a) && went_in(*srcs, *ctx, exchange@, *old(engine), a, *final(engine)),
{
    let on_request = engine.run_on_request(srcs, ctx)?;
    let ghost one = *engine;
    let (exchange, action) = exchange.step(Event::Admitted { rejected: on_request.rejection() });
    if on_request.ctx.is_rejected() {
        assert(ran(Hook::OnRequest, *srcs, *ctx, *old(engine), on_request, one));
        return Ok(
            Admission { exchange, action, on_request, on_route: None, on_transform: None },
        );
    }
    let routed = engine.run_on_route(srcs, ctx)?;
    let ghost two = *engine;
    proof {
        lemma_carried_on(old(engine).lua(), one.lua(), two.lua());
    }
    let event = Event::Routed { rejected: routed.rejection(), upstream: routed.upstream() };
    let (exchange, action) = exchange.step(event);
    if routed.ctx.is_rejected() {
        assert(ran(Hook::OnRequest, *srcs, *ctx, *old(engine), on_request, one));
        assert(ran(Hook::OnRoute, *srcs, *ctx, one, routed, two));
        return Ok(
            Admission {
                exchange,
                action,
                on_request,
                on_route: Some(routed),
                on_transform: None,
            },
        );
    }
    let transformed = engine.run_on_transform(srcs, ctx)?;
    proof {
        lemma_carried_on(old(engine).lua(), two.lua(), engine.lua());
    }
    let event = Event::Transformed {
        rejected: transformed.rejection(),
        headers: transformed.ctx.req_headers.clone(),
    };
    let (exchange, action) = exchange.step(event);
    assert(ran(Hook::OnRequest, *srcs, *ctx, *old(engine), on_request, one));
    assert(ran(Hook::OnRoute, *srcs, *ctx, one, routed, two));
    Ok(
        Admission {
            exchange,
            action,
            on_request,
            on_route: Some(routed),
            on_transform: Some(transformed),
        },
    )
}

/// A request that went through the plugins on its way out.
pub struct Answer {
    pub exchange: Exchange,
    pub action: Action,
    /// What came of `on_response`.
    pub on_response: HookRun,
}

/// The upstream's answer was put into the context, and the request went through
/// `on_response` and moved on as that left it.
pub open spec fn went_out(
    srcs: PluginSources,
    ctx: LuaCtx,
    from: ExchangeView,
    status: u16,
    headers: Map<Seq<char>, Seq<char>>,
    before: LuaEngine,
    a: Answer,
    after: LuaEngine,
) -> bool {
    let left = a.on_response.ctx@;
    exists|filled: LuaEngine| #[trigger]
        ran(Hook::OnResponse, srcs, ctx, filled, a.on_response, after) && filled.contexts()
            == before.contexts().insert(
            ctx.0,
            before.contexts()[ctx.0].with_response(status, headers, from.answer),
        ) && moved(
            from,
            EventView::Finished {
                rejected: left.rejected,
                status: left.res_status,
                headers: left.res_headers,
                text: left.res_body,
            },
            a.exchange@,
            a.action@,
        )
}

/// Puts what the upstream answered into the context, runs `on_response`, and
/// answers with what the context then holds. Unless the request is turned down
/// or the response cannot be sent, the body is the upstream's, byte for byte.
pub fn run_response_hooks(
    engine: &mut LuaEngine,
    srcs: &PluginSources,
    ctx: &LuaCtx,
    exchange: Exchange,
    status: u16,
    headers: StrMap,
) -> (r: Result<Answer, mlua::Error>)
    requires
        exchange.stage == Stage::Answering,
        old(engine).holds(*ctx),
    ensures
        r matches Ok(a) && {
            let left = a.on_response.ctx@;
            &&& went_out(
                *srcs,
                *ctx,
                exchange@,
                status,
                headers@,
                *old(engine),
                a,
                *final(engine),
            )
            &&& is_described(old(engine).lua()) && left.rejected is None && valid_status(
                left.res_status,
            ) && valid_headers(left.res_headers) ==> a.action@ == ActionView::Respond(
                ReplyView {
                    status: left.res_status,
                    headers: left.res_headers,
                    body: exchange.answer@,
                },
            )
        },
{
    let ghost from = exchange@;
    let mut held = ctx.read(engine)?;
    held.record_response(status, headers, exchange.answer.as_slice());
    ctx.write(engine, held)?;
    let ghost filled = *engine;
    let on_response = engine.run_on_response(srcs, ctx)?;
    let event = Event::Finished {
        rejected: on_response.rejection(),
        status: on_response.ctx.res_status,
        headers: on_response.ctx.res_headers.clone(),
        text: on_response.ctx.res_body.clone(),
    };
    proof {
        assert(ran(Hook::OnResponse, *srcs, *ctx, filled, on_response, *engine));
        if is_described(old(engine).lua()) {
            assert(filled.contexts().contains_key(ctx.0));
            law_evolution_keeps(filled.contexts()[ctx.0], engine.contexts()[ctx.0]);
        }
    }
    let (exchange, action) = exchange.step(event);
    Ok(Answer { exchange, action, on_response })
}

impl ExchangeView {
    /// The state after events, one after the other.
    pub open spec fn after_events(self, events: Seq<EventView>) -> ExchangeView
        decreases events.len(),
    {
        if events.len() == 0 {
            self
        } else {
            self.after_events(events.drop_last()).next(events.last()).0
        }
    }

    /// Each event comes when it is waited for.
    pub open spec fn follows(self, events: Seq<EventView>) -> bool {
        forall|i: int|
            0 <= i < events.len() ==> self.after_events(events.take(i)).expects(
                #[trigger] events[i],
            )
    }
}

proof fn lemma_follows_prefix(exchange: ExchangeView, events: Seq<EventView>)
    requires
        exchange.follows(events),
        events.len() > 0,
    ensures
        exchange.follows(events.drop_last()),
        exchange.after_events(events.drop_last()).expects(events.last()),
{
    let rest = events.drop_last();
    assert forall|i: int| 0 <= i < rest.len() implies exchange.after_events(rest.take(i)).expects(
        #[trigger] rest[i],
    ) by {
        assert(rest.take(i) =~= events.take(i));
        assert(exchange.after_events(events.take(i)).expects(events[i]));
    }
    assert(events.take(events.len() - 1) =~= rest);
    assert(exchange.after_events(events.take(events.len() - 1)).expects(
        events[events.len() - 1],
    ));
}

impl EventView {
    /// What the event says the request was turned down with.
    pub open spec fn rejection(self) -> Option<(u16, Seq<char>)> {
        match self {
            EventView::Admitted { rejected } => rejected,
            EventView::Routed { rejected, upstream } => rejected,
            EventView::Transformed { rejected, headers } => rejected,
            EventView::Finished { rejected, status, headers, text } => rejected,
            _ => None,
        }
    }
}

/// Whichever hook a plugin turned the request down in, it is answered with the
/// plugin's status and message, and with nothing else.
pub proof fn law_refused_request_is_answered(
    exchange: ExchangeView,
    event: EventView,
    status: u16,
    msg: Seq<char>,
)
    requires
        event.rejection() == Some((status, msg)),
        valid_status(status),
    ensures
        exchange.next(event) == (
            exchange.done(),
            ActionView::Refuse(
                ReplyView {
                    status,
                    headers: content_type("application/json"@),
                    body: encode_utf8(error_body(status, msg)),
                },
            ),
        ),
{
}

/// A response that the plugins left alone is the upstream's: its status, its
/// headers, and its body byte for byte.
pub proof fn law_answer_passes_unchanged(
    exchange: ExchangeView,
    status: u16,
    headers: Map<Seq<char>, Seq<char>>,
)
    requires
        valid_status(status),
        valid_headers(headers),
    ensures
        exchange.next(
            EventView::Finished { rejected: None, status, headers, text: utf8_lossy(exchange.answer) },
        ).1 == ActionView::Respond(ReplyView { status, headers, body: exchange.answer }),
{
}

/// Nothing follows an answer.
pub proof fn law_answer_is_final(exchange: ExchangeView, event: EventView)
    requires
        exchange.stage == Stage::Done,
    ensures
        !exchange.expects(event),
{
}

proof fn lemma_rejection_ends(exchange: ExchangeView, event: EventView)
    ensures
        event.rejection() is Some ==> exchange.next(event).0.stage == Stage::Done,
{
}

/// A request that is still on its way was turned down by no plugin: whatever is
/// forwarded passed every hook before it.
#[verifier::spinoff_prover]
pub proof fn law_forwarded_only_if_admitted(exchange: ExchangeView, events: Seq<EventView>, i: int)
    requires
        exchange.follows(events),
        exchange.after_events(events).stage != Stage::Done,
        0 <= i < events.len(),
    ensures
        events[i].rejection() is None,
    decreases events.len(),
{
    lemma_follows_prefix(exchange, events);
    lemma_last_event_let_pass(exchange, events);
    if i < events.len() - 1 {
        law_forwarded_only_if_admitted(exchange, events.drop_last(), i);
    }
}

proof fn lemma_last_event_let_pass(exchange: ExchangeView, events: Seq<EventView>)
    requires
        events.len() > 0,
        exchange.after_events(events.drop_last()).expects(events.last()),
        exchange.after_events(events).stage != Stage::Done,
    ensures
        exchange.after_events(events.drop_last()).stage != Stage::Done,
        events.last().rejection() is None,
{
    let before = exchange.after_events(events.drop_last());
    if before.stage == Stage::Done {
        law_answer_is_final(before, events.last());
    }
    lemma_rejection_ends(before, events.last());
}

/// From its start to its end a request keeps its method, its path, its client
/// and its body.
pub proof fn law_request_is_kept(exchange: ExchangeView, events: Seq<EventView>)
    ensures
        exchange.after_events(events).method == exchange.method,
        exchange.after_events(events).path == exchange.path,
        exchange.after_events(events).ip == exchange.ip,
        exchange.after_events(events).body == exchange.body,
    decreases events.len(),
{
    if events.len() > 0 {
        law_request_is_kept(exchange, events.drop_last());
    }
}

/// Every request ends: no more than six events follow its start.
pub proof fn law_request_ends(exchange: ExchangeView, events: Seq<EventView>)
    requires
        exchange.stage == Stage::Admitting,
        exchange.follows(events),
    ensures
        events.len() <= 6,
{
    lemma_progress(exchange, events);
}

spec fn rank(stage: Stage) -> int {
    match stage {
        Stage::Admitting => 0,
        Stage::Routing => 1,
        Stage::Transforming => 2,
        Stage::Selecting => 3,
        Stage::Forwarding => 4,
        Stage::Answering => 5,
        Stage::Done => 6,
    }
}

#[verifier::spinoff_prover]
proof fn lemma_progress(exchange: ExchangeView, events: Seq<EventView>)
    requires
        exchange.stage == Stage::Admitting,
        exchange.follows(events),
    ensures
        rank(exchange.after_events(events).stage) >= events.len(),
    decreases events.len(),
{
    if events.len() > 0 {
        lemma_follows_prefix(exchange, events);
        lemma_progress(exchange, events.drop_last());
        lemma_event_moves_on(exchange.after_events(events.drop_last()), events.last());
    }
}

/// Every event that is waited for takes the request further.
proof fn lemma_event_moves_on(exchange: ExchangeView, event: EventView)
    requires
        exchange.expects(event),
    ensures
        rank(exchange.next(event).0.stage) > rank(exchange.stage),
{
}

/// What is forwarded names the client and the proxy, and carries every other
/// header as the plugins left it.
pub proof fn law_forwarded_headers(
    headers: Map<Seq<char>, Seq<char>>,
    ip: Seq<char>,
    name: Seq<char>,
)
    ensures
        outgoing_headers(headers, ip)["x-proxy"@] == PROXY_NAME@,
        outgoing_headers(headers, ip)["x-forwarded-for"@] == ip,
        name != "x-proxy"@ && name != "x-forwarded-for"@ ==> {
            &&& outgoing_headers(headers, ip).contains_key(name) == headers.contains_key(name)
            &&& headers.contains_key(name) ==> outgoing_headers(headers, ip)[name]
                == headers[name]
        },
{
    reveal_strlit("x-proxy");
    reveal_strlit("x-forwarded-for");
    assert("x-proxy"@.len() != "x-forwarded-for"@.len());
}

/// The client is the one that `x-real-ip` names, else the one that
/// `x-forwarded-for` names, else the other end of the connection, whatever other
/// headers there are.
pub proof fn law_client_is_found(
    headers: Map<Seq<char>, Seq<char>>,
    peer: Seq<char>,
    other: Seq<char>,
    value: Seq<char>,
)
    ensures
        headers.contains_key("x-real-ip"@) ==> client_ip(headers, peer) == headers["x-real-ip"@],
        !headers.contains_key("x-real-ip"@) && headers.contains_key("x-forwarded-for"@)
            ==> client_ip(headers, peer) == headers["x-forwarded-for"@],
        !headers.contains_key("x-real-ip"@) && !headers.contains_key("x-forwarded-for"@)
            ==> client_ip(headers, peer) == peer,
        other != "x-real-ip"@ && other != "x-forwarded-for"@ ==> client_ip(
            headers.insert(other, value),
            peer,
        ) == client_ip(headers, peer),
{
}

/// A request starts with what the client sent, whole: its method, its path and
/// its body byte for byte. Until plugins say otherwise it goes to the default
/// upstream.
pub proof fn law_request_starts_whole(
    method: Seq<char>,
    path: Seq<char>,
    ip: Seq<char>,
    body: Seq<u8>,
)
    ensures
        opened(method, path, ip, body).stage == Stage::Admitting,
        opened(method, path, ip, body).method == method,
        opened(method, path, ip, body).path == path,
        opened(method, path, ip, body).ip == ip,
        opened(method, path, ip, body).body == body,
        opened(method, path, ip, body).upstream == "default"@,
        opened(method, path, ip, body).answer.len() == 0,
        forall|name: Seq<char>| !(#[trigger] opened(method, path, ip, body).headers.contains_key(name)),
{
}

/// The address of a path at a target is the target without the slashes at its
/// end, followed by the path. Gives how much of the target is left.
pub proof fn law_target_url(target: Seq<char>, path: Seq<char>) -> (k: int)
    ensures
        0 <= k <= target.len(),
        target_url(target, path) == target.take(k) + path,
        forall|i: int| k <= i < target.len() ==> #[trigger] target[i] == '/',
        k > 0 ==> target[k - 1] != '/',
{
    law_trim_end(target, '/')
}

/// Each event comes at one stage: the hooks in their order, then the choice of a
/// target, then the upstream's answer or the lack of it, then `on_response`.
pub proof fn law_each_event_has_its_stage(exchange: ExchangeView, event: EventView)
    ensures
        event is Admitted ==> (exchange.expects(event) <==> exchange.stage == Stage::Admitting),
        event is Routed ==> (exchange.expects(event) <==> exchange.stage == Stage::Routing),
        event is Transformed ==> (exchange.expects(event) <==> exchange.stage
            == Stage::Transforming),
        event is Selected ==> (exchange.expects(event) <==> exchange.stage == Stage::Selecting),
        event is Answered || event is Unreachable ==> (exchange.expects(event) <==> exchange.stage
            == Stage::Forwarding),
        event is Finished ==> (exchange.expects(event) <==> exchange.stage == Stage::Answering),
{
}

/// A request that a hook let pass goes on to the next: after `on_request` to
/// `on_route`, after that to `on_transform`, after that to a target. It goes to
/// the upstream that `on_route` settled on, else to the default one, with the
/// headers that `on_transform` left; the target is picked for its client.
pub proof fn law_admitted_request_goes_on(
    exchange: ExchangeView,
    upstream: Option<Seq<char>>,
    headers: Map<Seq<char>, Seq<char>>,
)
    ensures
        exchange.next(EventView::Admitted { rejected: None }).0.stage == Stage::Routing,
        exchange.next(EventView::Admitted { rejected: None }).1 is RunOnRoute,
        exchange.next(EventView::Routed { rejected: None, upstream }).0.stage
            == Stage::Transforming,
        exchange.next(EventView::Routed { rejected: None, upstream }).1 is RunOnTransform,
        upstream matches Some(name) ==> exchange.next(
            EventView::Routed { rejected: None, upstream },
        ).0.upstream == name,
        upstream is None ==> exchange.next(
            EventView::Routed { rejected: None, upstream },
        ).0.upstream == "default"@,
        exchange.next(EventView::Transformed { rejected: None, headers }).0.stage
            == Stage::Selecting,
        exchange.next(EventView::Transformed { rejected: None, headers }).0.headers == headers,
        exchange.next(EventView::Transformed { rejected: None, headers }).0.upstream
            == exchange.upstream,
        exchange.next(EventView::Transformed { rejected: None, headers }).1 == (
        ActionView::SelectTarget { upstream: exchange.upstream, key: exchange.ip }),
{
}

/// What is sent to a target is what the client sent: its method, its path at the
/// target, and its body byte for byte. Every header that the plugins left is sent
/// as they left it, but for the two that name the client and the proxy.
pub proof fn law_request_is_forwarded_whole(
    exchange: ExchangeView,
    target: Seq<char>,
    name: Seq<char>,
)
    ensures
        ({
            let (next, action) = exchange.next(EventView::Selected { url: Some(target) });
            &&& action is SendForward || action is Respond
            &&& action matches ActionView::SendForward { method, url, headers, body } ==> {
                &&& next.stage == Stage::Forwarding
                &&& method == exchange.method
                &&& url == target_url(target, exchange.path)
                &&& body == exchange.body
                &&& headers.contains_key("x-forwarded-for"@)
                &&& headers["x-forwarded-for"@] == exchange.ip
                &&& headers.contains_key("x-proxy"@)
                &&& headers["x-proxy"@] == "rust-lua-proxy/0.1"@
                &&& name != "x-forwarded-for"@ && name != "x-proxy"@ ==> {
                    &&& headers.contains_key(name) <==> exchange.headers.contains_key(name)
                    &&& headers.contains_key(name) ==> headers[name] == exchange.headers[name]
                }
                &&& valid_method(method)
                &&& valid_uri(url)
                &&& valid_headers(headers)
            }
            &&& action is SendForward <==> valid_method(exchange.method) && valid_uri(
                target_url(target, exchange.path),
            ) && valid_headers(
                exchange.headers.insert("x-forwarded-for"@, exchange.ip).insert(
                    "x-proxy"@,
                    "rust-lua-proxy/0.1"@,
                ),
            )
        }),
{
    law_forwarded_headers(exchange.headers, exchange.ip, name);
}

/// Where there is no target the client is told so, and where the target cannot be
/// asked or does not answer it is told that; the request is then over.
pub proof fn law_failures_are_told(exchange: ExchangeView, target: Seq<char>)
    ensures
        ({
            let (next, action) = exchange.next(EventView::Selected { url: None });
            &&& next.stage == Stage::Done
            &&& action matches ActionView::Respond(reply) && {
                &&& reply.status == 503
                &&& reply == error_reply(503, "Service Unavailable"@)
            }
        }),
        ({
            let (next, action) = exchange.next(EventView::Unreachable);
            &&& next.stage == Stage::Done
            &&& action matches ActionView::Respond(reply) && {
                &&& reply.status == 502
                &&& reply == error_reply(502, "Bad Gateway"@)
            }
        }),
        ({
            let (next, action) = exchange.next(EventView::Selected { url: Some(target) });
            !(action is SendForward) ==> {
                &&& next.stage == Stage::Done
                &&& action matches ActionView::Respond(reply) && {
                    &&& reply.status == 502
                    &&& reply == error_reply(502, "Bad Gateway"@)
                }
            }
        }),
{
}

/// Every error is told in the same form: with its own status, as JSON, with its
/// message and its status in it and with no header but the content type.
pub proof fn law_error_is_json(status: u16, msg: Seq<char>)
    ensures
        error_reply(status, msg).status == status,
        error_reply(status, msg).body == encode_utf8(
            "{\"error\":\""@ + msg + "\",\"status\":"@ + decimal(status as nat) + "}"@,
        ),
        error_reply(status, msg).headers.contains_key("content-type"@),
        error_reply(status, msg).headers["content-type"@] == "application/json"@,
        forall|name: Seq<char>| #[trigger]
            error_reply(status, msg).headers.contains_key(name) ==> name == "content-type"@,
{
}

/// A request is turned down with the status and the message that the plugin gave,
/// and is then over; where the number is no status it is given up.
pub proof fn law_rejection_is_told(
    exchange: ExchangeView,
    event: EventView,
    status: u16,
    msg: Seq<char>,
)
    requires
        event.rejection() == Some((status, msg)),
    ensures
        exchange.next(event).0.stage == Stage::Done,
        100 <= status <= 999 ==> (exchange.next(event).1 matches ActionView::Refuse(reply)
            && reply == error_reply(status, msg)),
        !(100 <= status <= 999) ==> exchange.next(event).1 == ActionView::Abort(status),
{
}

/// A hook that turned the request down says so in its event, and with the same
/// status and message.
pub proof fn law_event_tells_rejection(
    rejected: Option<(u16, Seq<char>)>,
    upstream: Option<Seq<char>>,
    status: u16,
    headers: Map<Seq<char>, Seq<char>>,
    text: Seq<char>,
)
    ensures
        (EventView::Admitted { rejected }).rejection() == rejected,
        (EventView::Routed { rejected, upstream }).rejection() == rejected,
        (EventView::Transformed { rejected, headers }).rejection() == rejected,
        (EventView::Finished { rejected, status, headers, text }).rejection() == rejected,
{
}

/// When the upstream answers, its answer is kept whole, and `on_response` gets the
/// status, the headers and the body that came.
pub proof fn law_answer_is_kept_whole(
    exchange: ExchangeView,
    status: u16,
    headers: Map<Seq<char>, Seq<char>>,
    body: Seq<u8>,
)
    ensures
        ({
            let (next, action) = exchange.next(EventView::Answered { status, headers, body });
            &&& next.stage == Stage::Answering
            &&& next.answer == body
            &&& action == ActionView::RunOnResponse { status, headers, body }
        }),
{
}

/// What the upstream answers with reaches the client: the reply that follows an
/// answer, once `on_response` left it alone, has the status, the headers and
/// exactly the bytes that came with it.
pub proof fn law_answer_reaches_client(
    exchange: ExchangeView,
    status: u16,
    headers: Map<Seq<char>, Seq<char>>,
    body: Seq<u8>,
)
    requires
        valid_status(status),
        valid_headers(headers),
    ensures
        exchange.next(EventView::Answered { status, headers, body }).0.next(
            EventView::Finished { rejected: None, status, headers, text: utf8_lossy(body) },
        ).1 == ActionView::Respond(ReplyView { status, headers, body }),
{
}

/// The client gets the status and the headers as `on_response` left them. It gets
/// the text that a plugin put in place of the body, and where there is none the
/// bytes of the upstream. A response that cannot be sent gives way to an error.
pub proof fn law_reply_is_what_was_left(
    exchange: ExchangeView,
    status: u16,
    headers: Map<Seq<char>, Seq<char>>,
    text: Seq<char>,
)
    ensures
        ({
            let (next, action) = exchange.next(
                EventView::Finished { rejected: None, status, headers, text },
            );
            &&& next.stage == Stage::Done
            &&& action matches ActionView::Respond(reply) && {
                &&& 100 <= status <= 999 && valid_headers(headers) ==> {
                    &&& reply.status == status
                    &&& reply.headers == headers
                    &&& text.len() == 0 ==> reply.body == exchange.answer
                    &&& text == utf8_lossy(exchange.answer) ==> reply.body == exchange.answer
                    &&& text.len() > 0 && text != utf8_lossy(exchange.answer) ==> reply.body
                        == encode_utf8(text)
                }
                &&& !(100 <= status <= 999 && valid_headers(headers)) ==> {
                    &&& reply.status == 500
                    &&& reply == error_reply(500, "Internal Server Error"@)
                }
            }
        }),
{
}

/// Nothing but the upstream's answer changes the answer that is kept, nothing but
/// `on_route` the upstream.
pub proof fn law_events_keep_the_rest(exchange: ExchangeView, event: EventView)
    ensures
        !(event is Answered) ==> exchange.next(event).0.answer == exchange.answer,
        !(event is Routed) ==> exchange.next(event).0.upstream == exchange.upstream,
        !(event is Transformed) && !(event is Selected) ==> exchange.next(event).0.headers
            == exchange.headers,
        exchange.next(event).0.method == exchange.method,
        exchange.next(event).0.path == exchange.path,
        exchange.next(event).0.ip == exchange.ip,
        exchange.next(event).0.body == exchange.body,
{
}

/// A request that no plugin turns down and whose target answers goes the whole
/// way: it is picked a target by its client at the upstream that was settled on,
/// is sent there as the client sent it, and is answered with what came back.
pub proof fn law_whole_course(
    method: Seq<char>,
    path: Seq<char>,
    ip: Seq<char>,
    body: Seq<u8>,
    upstream: Option<Seq<char>>,
    left: Map<Seq<char>, Seq<char>>,
    target: Seq<char>,
    status: u16,
    headers: Map<Seq<char>, Seq<char>>,
    answer: Seq<u8>,
)
    requires
        valid_status(status),
        valid_headers(headers),
    ensures
        ({
            let a = opened(method, path, ip, body);
            let b = a.next(EventView::Admitted { rejected: None });
            let c = b.0.next(EventView::Routed { rejected: None, upstream });
            let d = c.0.next(EventView::Transformed { rejected: None, headers: left });
            let e = d.0.next(EventView::Selected { url: Some(target) });
            let f = e.0.next(EventView::Answered { status, headers, body: answer });
            let g = f.0.next(
                EventView::Finished { rejected: None, status, headers, text: utf8_lossy(answer) },
            );
            &&& b.1 is RunOnRoute
            &&& c.1 is RunOnTransform
            &&& d.1 == (ActionView::SelectTarget {
                upstream: match upstream {
                    Some(name) => name,
                    None => "default"@,
                },
                key: ip,
            })
            &&& e.1 matches ActionView::SendForward {
                method: m,
                url: u,
                headers: h,
                body: sent,
            } ==> {
                &&& m == method
                &&& u == target_url(target, path)
                &&& sent == body
                &&& h == left.insert("x-forwarded-for"@, ip).insert(
                    "x-proxy"@,
                    "rust-lua-proxy/0.1"@,
                )
                &&& f.1 == (ActionView::RunOnResponse { status, headers, body: answer })
                &&& g.1 == ActionView::Respond(ReplyView { status, headers, body: answer })
            }
        }),
{
}

/// Going in, a request that no hook turned down went through all three of them,
/// and goes on to a target at the upstream that `on_route` settled on, with the
/// headers that `on_transform` left.
pub proof fn law_hooks_settle_the_request(
    srcs: PluginSources,
    ctx: LuaCtx,
    from: ExchangeView,
    before: LuaEngine,
    a: Admission,
    after: LuaEngine,
)
    requires
        went_in(srcs, ctx, from, before, a, after),
    ensures
        a.on_request.ctx@.rejected is None <==> a.on_route is Some,
        a.on_transform is Some <==> (a.on_route matches Some(routed)
            && routed.ctx@.rejected is None),
        a.action@ is SelectTarget <==> (a.on_transform matches Some(transformed)
            && transformed.ctx@.rejected is None),
        a.exchange@.method == from.method,
        a.exchange@.path == from.path,
        a.exchange@.ip == from.ip,
        a.exchange@.body == from.body,
        a.action@ matches ActionView::SelectTarget { upstream, key } ==> {
            let routed = a.on_route->0;
            let settled = settled_upstream(trace_view(routed.trace@), routed.ctx@);
            &&& key == from.ip
            &&& settled matches Some(name) ==> upstream == name
            &&& settled is None ==> upstream == "default"@
            &&& a.exchange@.headers == a.on_transform->0.ctx@.req_headers
        },
        a.on_request.ctx@.rejected matches Some((status, msg)) ==> moved(
            from,
            EventView::Admitted { rejected: Some((status, msg)) },
            a.exchange@,
            a.action@,
        ),
{
}

/// The model of an exchange has everything that the exchange has, whole.
pub proof fn law_exchange_is_seen_whole(exchange: Exchange)
    ensures
        exchange@.stage == exchange.stage,
        exchange@.method == exchange.method@,
        exchange@.path == exchange.path@,
        exchange@.ip == exchange.ip@,
        exchange@.body == exchange.body@,
        exchange@.upstream == exchange.upstream@,
        exchange@.headers == exchange.headers@,
        exchange@.answer == exchange.answer@,
{
}

/// The model of an event has everything that the event brings, whole.
pub proof fn law_event_is_seen_whole(event: Event)
    ensures
        event matches Event::Admitted { rejected } ==> event@ == (EventView::Admitted {
            rejected: rejection_view(rejected),
        }),
        event matches Event::Routed { rejected, upstream } ==> event@ == (EventView::Routed {
            rejected: rejection_view(rejected),
            upstream: text_view(upstream),
        }),
        event matches Event::Transformed { rejected, headers } ==> event@ == (
        EventView::Transformed { rejected: rejection_view(rejected), headers: headers@ }),
        event matches Event::Selected { url } ==> event@ == (EventView::Selected {
            url: text_view(url),
        }),
        event matches Event::Answered { status, headers, body } ==> event@ == (
        EventView::Answered { status, headers: headers@, body: body@ }),
        event is Unreachable <==> event@ is Unreachable,
        event matches Event::Finished { rejected, status, headers, text } ==> event@ == (
        EventView::Finished {
            rejected: rejection_view(rejected),
            status,
            headers: headers@,
            text: text@,
        }),
{
}

/// The model of an action has everything that is to be done, whole.
pub proof fn law_action_is_seen_whole(action: Action)
    ensures
        action is RunOnRoute <==> action@ is RunOnRoute,
        action is RunOnTransform <==> action@ is RunOnTransform,
        action matches Action::SelectTarget { upstream, key } ==> action@ == (
        ActionView::SelectTarget { upstream: upstream@, key: key@ }),
        action matches Action::SendForward(f) ==> action@ == (ActionView::SendForward {
            method: f.method@,
            url: f.url@,
            headers: f.headers@,
            body: f.body@,
        }),
        action matches Action::RunOnResponse { status, headers, body } ==> action@ == (
        ActionView::RunOnResponse { status, headers: headers@, body: body@ }),
        action matches Action::Refuse(reply) ==> (action@ matches ActionView::Refuse(r) && r.status
            == reply.status && r.headers == reply.headers@ && r.body == reply.body@),
        action matches Action::Respond(reply) ==> (action@ matches ActionView::Respond(r)
            && r.status == reply.status && r.headers == reply.headers@ && r.body == reply.body@),
        action matches Action::Abort(status) ==> action@ == ActionView::Abort(status),
{
}

/// Going in, the hooks are run one after the other: each that is run gets the
/// machine as the one before it left it, and the last leaves it as it then is.
pub proof fn law_hooks_run_in_order(
    srcs: PluginSources,
    ctx: LuaCtx,
    from: ExchangeView,
    before: LuaEngine,
    a: Admission,
    after: LuaEngine,
) -> (r: (LuaEngine, LuaEngine))
    requires
        went_in(srcs, ctx, from, before, a, after),
    ensures
        ran(Hook::OnRequest, srcs, ctx, before, a.on_request, r.0),
        a.on_route is None ==> r.0 == after,
        a.on_route matches Some(routed) ==> ran(Hook::OnRoute, srcs, ctx, r.0, routed, r.1),
        a.on_route is Some && a.on_transform is None ==> r.1 == after,
        a.on_transform matches Some(transformed) ==> ran(
            Hook::OnTransform,
            srcs,
            ctx,
            r.1,
            transformed,
            after,
        ),
{
    let first = EventView::Admitted { rejected: a.on_request.ctx@.rejected };
    let one = choose|one: LuaEngine| #[trigger]
        ran(Hook::OnRequest, srcs, ctx, before, a.on_request, one) && if a.on_request.ctx@.rejected
            is Some {
            &&& a.on_route is None
            &&& a.on_transform is None
            &&& after == one
            &&& moved(from, first, a.exchange@, a.action@)
        } else {
            a.on_route matches Some(routed) && went_on(
                srcs,
                ctx,
                from.next(first).0,
                one,
                routed,
                a,
                after,
            )
        };
    if let Some(routed) = a.on_route {
        let two = choose|two: LuaEngine| #[trigger]
            ran(Hook::OnRoute, srcs, ctx, one, routed, two) && if routed.ctx@.rejected is Some {
                &&& a.on_transform is None
                &&& after == two
            } else {
                a.on_transform matches Some(transformed) && ran(
                    Hook::OnTransform,
                    srcs,
                    ctx,
                    two,
                    transformed,
                    after,
                )
            };
        (one, two)
    } else {
        (one, after)
    }
}

/// Going out, `on_response` finds in the context what the upstream answered, and
/// all else as it was. The client gets the status and the headers as `on_response`
/// left them, unless it turned the request down. Gives the machine as `on_response`
/// found it.
pub proof fn law_answer_is_shown_to_plugins(
    srcs: PluginSources,
    ctx: LuaCtx,
    from: ExchangeView,
    status: u16,
    headers: Map<Seq<char>, Seq<char>>,
    before: LuaEngine,
    a: Answer,
    after: LuaEngine,
) -> (filled: LuaEngine)
    requires
        went_out(srcs, ctx, from, status, headers, before, a, after),
    ensures
        ran(Hook::OnResponse, srcs, ctx, filled, a.on_response, after),
        filled.holds(ctx),
        filled.contexts()[ctx.0].res_status == status,
        filled.contexts()[ctx.0].res_headers == headers,
        filled.contexts()[ctx.0].res_body == utf8_lossy(from.answer),
        filled.contexts()[ctx.0].rejected == before.contexts()[ctx.0].rejected,
        filled.contexts()[ctx.0].vars == before.contexts()[ctx.0].vars,
        filled.contexts()[ctx.0].req_headers == before.contexts()[ctx.0].req_headers,
        forall|other: mlua::AnyUserData|
            other != ctx.0 && #[trigger] before.contexts().contains_key(other)
                ==> filled.contexts()[other] == before.contexts()[other],
        a.exchange@.stage == Stage::Done,
        a.on_response.ctx@.rejected matches Some((code, msg)) ==> (if 100 <= code <= 999 {
            a.action@ == ActionView::Refuse(error_reply(code, msg))
        } else {
            a.action@ == ActionView::Abort(code)
        }),
        a.on_response.ctx@.rejected is None ==> (a.action@ matches ActionView::Respond(reply) && (
        valid_status(a.on_response.ctx@.res_status) && valid_headers(a.on_response.ctx@.res_headers)
            ==> reply.status == a.on_response.ctx@.res_status && reply.headers
            == a.on_response.ctx@.res_headers)),
{
    choose|filled: LuaEngine| #[trigger]
        ran(Hook::OnResponse, srcs, ctx, filled, a.on_response, after) && filled.contexts()
            == before.contexts().insert(
            ctx.0,
            before.contexts()[ctx.0].with_response(status, headers, from.answer),
        )
}

/// Without plugins a request passes: it goes to the default upstream with its own
/// headers, and the upstream's answer goes to the client as it is.
pub proof fn law_without_plugins_all_passes(
    srcs: PluginSources,
    ctx: LuaCtx,
    from: ExchangeView,
    before: LuaEngine,
    a: Admission,
    between: LuaEngine,
    answering: ExchangeView,
    status: u16,
    headers: Map<Seq<char>, Seq<char>>,
    b: Answer,
    after: LuaEngine,
)
    requires
        srcs.pipeline@.len() == 0,
        before.holds(ctx),
        before.contexts()[ctx.0].rejected is None,
        !before.contexts()[ctx.0].vars.contains_key("__upstream__"@),
        went_in(srcs, ctx, from, before, a, between),
        went_out(srcs, ctx, answering, status, headers, between, b, after),
        valid_status(status),
        valid_headers(headers),
    ensures
        a.action@ == (ActionView::SelectTarget { upstream: "default"@, key: from.ip }),
        a.exchange@.headers == before.contexts()[ctx.0].req_headers,
        b.action@ == ActionView::Respond(ReplyView { status, headers, body: answering.answer }),
{
    let (one, two) = law_hooks_run_in_order(srcs, ctx, from, before, a, between);
    law_hooks_settle_the_request(srcs, ctx, from, before, a, between);
    assert(a.on_request.ctx@ == before.contexts()[ctx.0]);
    let routed = a.on_route->0;
    assert(routed.ctx@ == before.contexts()[ctx.0]);
    assert(trace_view(routed.trace@).len() == 0);
    let filled = law_answer_is_shown_to_plugins(
        srcs,
        ctx,
        answering,
        status,
        headers,
        between,
        b,
        after,
    );
    assert(b.on_response.ctx@ == filled.contexts()[ctx.0]);
}

} // verus!
