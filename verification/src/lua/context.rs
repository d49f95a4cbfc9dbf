//! The state of one request, as plugins see it and change it.

use vstd::prelude::*;
use vstd::utf8::*;

use crate::strmap::{pair_views, StrMap};
use crate::text::{
    lowercase, string_from_utf8_lossy, to_lowercase, utf8_lossy,
};

verus! {

/// The variable in which a plugin's choice of an upstream is kept.
pub const UPSTREAM_VAR: &'static str = "__upstream__";

/// What passes between the proxy and its plugins for one request.
#[derive(Debug)]
pub struct RequestCtx {
    pub req_method: String,
    pub req_path: String,
    pub req_headers: StrMap,
    pub req_body: String,
    pub client_ip: String,
    /// Filled in once the upstream has answered.
    pub res_status: u16,
    pub res_headers: StrMap,
    pub res_body: String,
    /// What plugins leave for each other.
    pub vars: StrMap,
    /// Status and message, once a plugin has turned the request down.
    pub rejected: Option<(u16, String)>,
}

/// The model of a [`RequestCtx`].
#[verifier::ext_equal]
pub struct CtxView {
    pub method: Seq<char>,
    pub path: Seq<char>,
    pub req_headers: Map<Seq<char>, Seq<char>>,
    pub body: Seq<char>,
    pub ip: Seq<char>,
    pub res_status: u16,
    pub res_headers: Map<Seq<char>, Seq<char>>,
    pub res_body: Seq<char>,
    pub vars: Map<Seq<char>, Seq<char>>,
    pub rejected: Option<(u16, Seq<char>)>,
}

/// The view of a rejection.
pub open spec fn rejection_view(r: Option<(u16, String)>) -> Option<(u16, Seq<char>)> {
    match r {
        Some((status, msg)) => Some((status, msg@)),
        None => None,
    }
}

impl View for RequestCtx {
    type V = CtxView;

    open spec fn view(&self) -> CtxView {
        CtxView {
            method: self.req_method@,
            path: self.req_path@,
            req_headers: self.req_headers@,
            body: self.req_body@,
            ip: self.client_ip@,
            res_status: self.res_status,
            res_headers: self.res_headers@,
            res_body: self.res_body@,
            vars: self.vars@,
            rejected: rejection_view(self.rejected),
        }
    }
}

/// A fresh context: a response of status 200 with nothing in it, no variables,
/// not rejected.
pub open spec fn fresh_ctx(
    method: Seq<char>,
    path: Seq<char>,
    headers: Map<Seq<char>, Seq<char>>,
    body: Seq<char>,
    ip: Seq<char>,
) -> CtxView {
    CtxView {
        method,
        path,
        req_headers: headers,
        body,
        ip,
        res_status: 200,
        res_headers: Map::empty(),
        res_body: seq![],
        vars: Map::empty(),
        rejected: None,
    }
}

/// What a plugin can do to the context.
pub enum CtxOp {
    Reject { status: u16, msg: Seq<char> },
    SetVar { key: Seq<char>, value: Seq<char> },
    SetReqHeader { key: Seq<char>, value: Seq<char> },
    SetResHeader { key: Seq<char>, value: Seq<char> },
    SetResStatus { status: u16 },
    SelectUpstream { name: Seq<char> },
}

impl CtxView {
    /// The context after a plugin did something to it.
    pub open spec fn apply(self, op: CtxOp) -> CtxView {
        match op {
            CtxOp::Reject { status, msg } => CtxView { rejected: Some((status, msg)), ..self },
            CtxOp::SetVar { key, value } => CtxView { vars: self.vars.insert(key, value), ..self },
            CtxOp::SetReqHeader { key, value } => CtxView {
                req_headers: self.req_headers.insert(lowercase(key), value),
                ..self
            },
            CtxOp::SetResHeader { key, value } => CtxView {
                res_headers: self.res_headers.insert(lowercase(key), value),
                ..self
            },
            CtxOp::SetResStatus { status } => CtxView { res_status: status, ..self },
            CtxOp::SelectUpstream { name } => CtxView {
                vars: self.vars.insert(UPSTREAM_VAR@, name),
                ..self
            },
        }
    }

    /// The context after a plugin did one thing after another to it.
    pub open spec fn apply_all(self, ops: Seq<CtxOp>) -> CtxView
        decreases ops.len(),
    {
        if ops.len() == 0 {
            self
        } else {
            self.apply_all(ops.drop_last()).apply(ops.last())
        }
    }

    /// A request header, by its name in any case.
    pub open spec fn req_header(self, key: Seq<char>) -> Option<Seq<char>> {
        if self.req_headers.contains_key(lowercase(key)) {
            Some(self.req_headers[lowercase(key)])
        } else {
            None
        }
    }

    /// A variable.
    pub open spec fn var(self, key: Seq<char>) -> Option<Seq<char>> {
        if self.vars.contains_key(key) {
            Some(self.vars[key])
        } else {
            None
        }
    }

    /// The context once the upstream has answered.
    pub open spec fn with_response(
        self,
        status: u16,
        headers: Map<Seq<char>, Seq<char>>,
        body: Seq<u8>,
    ) -> CtxView {
        CtxView {
            res_status: status,
            res_headers: headers,
            res_body: utf8_lossy(body),
            ..self
        }
    }
}

/// A context came from another by what plugins can do to it.
pub open spec fn evolved(before: CtxView, after: CtxView) -> bool {
    exists|ops: Seq<CtxOp>| after == #[trigger] before.apply_all(ops)
}

/// The view of an optional string.
pub open spec fn text_view(s: Option<String>) -> Option<Seq<char>> {
    match s {
        Some(t) => Some(t@),
        None => None,
    }
}

/// A field of a table that a plugin can read from the context.
pub enum Field {
    Text(String),
    Number(u16),
    Pairs(Vec<(String, String)>),
}

/// The model of a [`Field`].
#[verifier::ext_equal]
pub enum FieldView {
    Text(Seq<char>),
    Number(u16),
    Pairs(Seq<(Seq<char>, Seq<char>)>),
}

impl View for Field {
    type V = FieldView;

    open spec fn view(&self) -> FieldView {
        match self {
            Field::Text(s) => FieldView::Text(s@),
            Field::Number(n) => FieldView::Number(*n),
            Field::Pairs(p) => FieldView::Pairs(pair_views(p@)),
        }
    }
}

/// The views of the fields of a table.
pub open spec fn field_views(fields: Seq<(&'static str, Field)>) -> Seq<(Seq<char>, FieldView)> {
    fields.map_values(|f: (&'static str, Field)| (f.0@, f.1@))
}

/// Headers as they are shown to plugins: each name in lower case.
pub open spec fn shown_headers(entries: Seq<(Seq<char>, Seq<char>)>) -> Seq<
    (Seq<char>, Seq<char>),
> {
    entries.map_values(|e: (Seq<char>, Seq<char>)| (lowercase(e.0), e.1))
}

fn show_headers(headers: &StrMap) -> (r: Vec<(String, String)>)
    ensures
        pair_views(r@) == shown_headers(headers.entries()),
{
    let n = headers.len();
    let mut out: Vec<(String, String)> = Vec::new();
    let mut i: usize = 0;
    let ghost all = shown_headers(headers.entries());
    while i < n
        invariant
            i <= n,
            n == headers.entries().len(),
            all == shown_headers(headers.entries()),
            pair_views(out@) == all.take(i as int),
        decreases n - i,
    {
        let (name, value) = headers.entry(i);
        let ghost before = out@;
        out.push((to_lowercase(name), value.to_owned()));
        assert(pair_views(out@) =~= pair_views(before).push(
            all[i as int],
        ));
        assert(all.take(i + 1) =~= all.take(i as int).push(all[i as int]));
        i += 1;
    }
    assert(all.take(i as int) =~= all);
    out
}

impl RequestCtx {
    /// The context of a request that has just come in.
    pub fn new(
        method: &str,
        path: &str,
        headers: StrMap,
        body: String,
        client_ip: String,
    ) -> (r: RequestCtx)
        ensures
            r@ == fresh_ctx(method@, path@, headers@, body@, client_ip@),
    {
        RequestCtx {
            req_method: method.to_owned(),
            req_path: path.to_owned(),
            req_headers: headers,
            req_body: body,
            client_ip,
            res_status: 200,
            res_headers: StrMap::new(),
            res_body: String::new(),
            vars: StrMap::new(),
            rejected: None,
        }
    }

    /// Whether a plugin has turned the request down.
    pub fn is_rejected(&self) -> (r: bool)
        ensures
            r == (self@.rejected is Some),
    {
        self.rejected.is_some()
    }

    /// Turns the request down.
    pub fn reject(&mut self, status: u16, msg: String)
        ensures
            final(self)@ == old(self)@.apply(CtxOp::Reject { status, msg: msg@ }),
    {
        self.rejected = Some((status, msg));
    }

    /// Sets a variable.
    pub fn set_var(&mut self, key: String, value: String)
        ensures
            final(self)@ == old(self)@.apply(CtxOp::SetVar { key: key@, value: value@ }),
    {
        self.vars.insert(key, value);
    }

    /// Reads a variable.
    pub fn get_var(&self, key: &str) -> (r: Option<String>)
        ensures
            text_view(r) == self@.var(key@),
    {
        self.vars.get(key)
    }

    /// Sets a request header.
    pub fn set_req_header(&mut self, key: &str, value: String)
        ensures
            final(self)@ == old(self)@.apply(CtxOp::SetReqHeader { key: key@, value: value@ }),
    {
        self.req_headers.insert(to_lowercase(key), value);
    }

    /// Reads a request header.
    pub fn get_req_header(&self, key: &str) -> (r: Option<String>)
        ensures
            text_view(r) == self@.req_header(key@),
    {
        self.req_headers.get(to_lowercase(key).as_str())
    }

    /// Sets a response header.
    pub fn set_res_header(&mut self, key: &str, value: String)
        ensures
            final(self)@ == old(self)@.apply(CtxOp::SetResHeader { key: key@, value: value@ }),
    {
        self.res_headers.insert(to_lowercase(key), value);
    }

    /// Sets the status of the response.
    pub fn set_res_status(&mut self, status: u16)
        ensures
            final(self)@ == old(self)@.apply(CtxOp::SetResStatus { status }),
    {
        self.res_status = status;
    }

    /// Chooses an upstream by name.
    pub fn select_upstream(&mut self, name: String)
        ensures
            final(self)@ == old(self)@.apply(CtxOp::SelectUpstream { name: name@ }),
    {
        self.vars.insert(UPSTREAM_VAR.to_owned(), name);
    }

    /// Fills in what the upstream has answered.
    pub fn record_response(&mut self, status: u16, headers: StrMap, body: &[u8])
        ensures
            final(self)@ == old(self)@.with_response(status, headers@, body@),
    {
        self.res_status = status;
        self.res_headers = headers;
        self.res_body = string_from_utf8_lossy(body);
    }

    /// The table `ctx.req`.
    pub fn req_fields(&self) -> (r: Vec<(&'static str, Field)>)
        ensures
            field_views(r@) == seq![
                ("method"@, FieldView::Text(self@.method)),
                ("path"@, FieldView::Text(self@.path)),
                ("body"@, FieldView::Text(self@.body)),
                ("ip"@, FieldView::Text(self@.ip)),
                ("headers"@, FieldView::Pairs(shown_headers(self.req_headers.entries()))),
            ],
    {
        let mut r: Vec<(&'static str, Field)> = Vec::new();
        r.push(("method", Field::Text(self.req_method.clone())));
        r.push(("path", Field::Text(self.req_path.clone())));
        r.push(("body", Field::Text(self.req_body.clone())));
        r.push(("ip", Field::Text(self.client_ip.clone())));
        r.push(("headers", Field::Pairs(show_headers(&self.req_headers))));
        assert(field_views(r@) =~= seq![
            ("method"@, FieldView::Text(self@.method)),
            ("path"@, FieldView::Text(self@.path)),
            ("body"@, FieldView::Text(self@.body)),
            ("ip"@, FieldView::Text(self@.ip)),
            ("headers"@, FieldView::Pairs(shown_headers(self.req_headers.entries()))),
        ]);
        r
    }

    /// The table `ctx.res`.
    pub fn res_fields(&self) -> (r: Vec<(&'static str, Field)>)
        ensures
            field_views(r@) == seq![
                ("status"@, FieldView::Number(self@.res_status)),
                ("body"@, FieldView::Text(self@.res_body)),
                ("headers"@, FieldView::Pairs(shown_headers(self.res_headers.entries()))),
            ],
    {
        let mut r: Vec<(&'static str, Field)> = Vec::new();
        r.push(("status", Field::Number(self.res_status)));
        r.push(("body", Field::Text(self.res_body.clone())));
        r.push(("headers", Field::Pairs(show_headers(&self.res_headers))));
        assert(field_views(r@) =~= seq![
            ("status"@, FieldView::Number(self@.res_status)),
            ("body"@, FieldView::Text(self@.res_body)),
            ("headers"@, FieldView::Pairs(shown_headers(self.res_headers.entries()))),
        ]);
        r
    }
}

impl Clone for RequestCtx {
    fn clone(&self) -> (r: RequestCtx)
        ensures
            r@ == self@,
    {
        RequestCtx {
            req_method: self.req_method.clone(),
            req_path: self.req_path.clone(),
            req_headers: self.req_headers.clone(),
            req_body: self.req_body.clone(),
            client_ip: self.client_ip.clone(),
            res_status: self.res_status,
            res_headers: self.res_headers.clone(),
            res_body: self.res_body.clone(),
            vars: self.vars.clone(),
            rejected: match &self.rejected {
                Some((status, msg)) => Some((*status, msg.clone())),
                None => None,
            },
        }
    }
}

/// Once a request is turned down it stays so, whatever plugins do afterwards.
pub proof fn law_rejection_is_final(ctx: CtxView, ops: Seq<CtxOp>)
    requires
        ctx.rejected is Some,
    ensures
        ctx.apply_all(ops).rejected is Some,
    decreases ops.len(),
{
    if ops.len() > 0 {
        law_rejection_is_final(ctx, ops.drop_last());
    }
}

/// A request is turned down only by a plugin that says so, and the last one to
/// say so decides on the status and the message.
pub proof fn law_last_rejection_counts(ctx: CtxView, ops: Seq<CtxOp>)
    ensures
        ctx.apply_all(ops).rejected == ctx.rejected || exists|i: int|
            #![trigger ops[i]]
            0 <= i < ops.len() && (ops[i] matches CtxOp::Reject { status, msg } && ctx.apply_all(
                ops,
            ).rejected == Some((status, msg)) && forall|j: int|
                i < j < ops.len() ==> !(#[trigger] ops[j] is Reject)),
    decreases ops.len(),
{
    if ops.len() > 0 {
        let rest = ops.drop_last();
        law_last_rejection_counts(ctx, rest);
        if ops.last() is Reject {
            assert(ops[ops.len() - 1] is Reject);
        } else if ctx.apply_all(rest).rejected != ctx.rejected {
            let i = choose|i: int|
                #![trigger rest[i]]
                0 <= i < rest.len() && (rest[i] matches CtxOp::Reject { status, msg }
                    && ctx.apply_all(rest).rejected == Some((status, msg)) && forall|j: int|
                    i < j < rest.len() ==> !(#[trigger] rest[j] is Reject));
            assert(ops[i] == rest[i]);
            assert forall|j: int| i < j < ops.len() implies !(#[trigger] ops[j] is Reject) by {
                if j < rest.len() {
                    assert(ops[j] == rest[j]);
                }
            }
        }
    }
}

/// Plugins cannot change what the client asked for, who the client is, or the
/// body of the response.
pub proof fn law_request_line_is_fixed(ctx: CtxView, ops: Seq<CtxOp>)
    ensures
        ctx.apply_all(ops).method == ctx.method,
        ctx.apply_all(ops).path == ctx.path,
        ctx.apply_all(ops).body == ctx.body,
        ctx.apply_all(ops).ip == ctx.ip,
        ctx.apply_all(ops).res_body == ctx.res_body,
    decreases ops.len(),
{
    if ops.len() > 0 {
        law_request_line_is_fixed(ctx, ops.drop_last());
    }
}

/// A header that was set is read back under every name that is the same in
/// lower case, and every other header stays as it was.
pub proof fn law_header_read_back(
    ctx: CtxView,
    key: Seq<char>,
    value: Seq<char>,
    other: Seq<char>,
)
    ensures
        ctx.apply(CtxOp::SetReqHeader { key, value }).req_header(other) == (if lowercase(other)
            == lowercase(key) {
            Some(value)
        } else {
            ctx.req_header(other)
        }),
{
}

/// A variable that was set is read back, and every other variable stays as it
/// was.
pub proof fn law_var_read_back(ctx: CtxView, key: Seq<char>, value: Seq<char>, other: Seq<char>)
    ensures
        ctx.apply(CtxOp::SetVar { key, value }).var(other) == (if other == key {
            Some(value)
        } else {
            ctx.var(other)
        }),
{
}

/// Choosing an upstream is setting a variable.
pub proof fn law_upstream_is_a_var(ctx: CtxView, name: Seq<char>)
    ensures
        ctx.apply(CtxOp::SelectUpstream { name }) == ctx.apply(
            CtxOp::SetVar { key: UPSTREAM_VAR@, value: name },
        ),
        ctx.apply(CtxOp::SelectUpstream { name }).var(UPSTREAM_VAR@) == Some(name),
{
}

/// What plugins did first and what they did next is something they did.
pub proof fn law_evolution_goes_on(a: CtxView, b: CtxView, c: CtxView)
    requires
        evolved(a, b),
        evolved(b, c),
    ensures
        evolved(a, c),
{
    let first = choose|ops: Seq<CtxOp>| b == #[trigger] a.apply_all(ops);
    let next = choose|ops: Seq<CtxOp>| c == #[trigger] b.apply_all(ops);
    lemma_apply_in_two_goes(a, first, next);
    assert(c == a.apply_all(first + next));
}

proof fn lemma_apply_in_two_goes(ctx: CtxView, first: Seq<CtxOp>, next: Seq<CtxOp>)
    ensures
        ctx.apply_all(first).apply_all(next) == ctx.apply_all(first + next),
    decreases next.len(),
{
    if next.len() == 0 {
        assert(first + next =~= first);
    } else {
        lemma_apply_in_two_goes(ctx, first, next.drop_last());
        assert((first + next).drop_last() =~= first + next.drop_last());
    }
}

/// Whatever plugins do, the request line, the bodies and the client stay, and a
/// rejection stays a rejection.
pub proof fn law_evolution_keeps(before: CtxView, after: CtxView)
    requires
        evolved(before, after),
    ensures
        after.method == before.method,
        after.path == before.path,
        after.body == before.body,
        after.ip == before.ip,
        after.res_body == before.res_body,
        before.rejected is Some ==> after.rejected is Some,
{
    let ops = choose|ops: Seq<CtxOp>| after == #[trigger] before.apply_all(ops);
    law_request_line_is_fixed(before, ops);
    if before.rejected is Some {
        law_rejection_is_final(before, ops);
    }
}

/// A response header that was set holds the value, whatever was there before, and
/// every other response header stays as it was.
pub proof fn law_res_header_read_back(
    ctx: CtxView,
    key: Seq<char>,
    value: Seq<char>,
    other: Seq<char>,
)
    ensures
        ({
            let after = ctx.apply(CtxOp::SetResHeader { key, value }).res_headers;
            &&& after.contains_key(lowercase(key))
            &&& after[lowercase(key)] == value
            &&& other != lowercase(key) ==> {
                &&& after.contains_key(other) <==> ctx.res_headers.contains_key(other)
                &&& after.contains_key(other) ==> after[other] == ctx.res_headers[other]
            }
        }),
{
}

/// A request header that was set holds the value, whatever was there before, and
/// every other request header stays as it was.
pub proof fn law_req_header_is_set(
    ctx: CtxView,
    key: Seq<char>,
    value: Seq<char>,
    other: Seq<char>,
)
    ensures
        ({
            let after = ctx.apply(CtxOp::SetReqHeader { key, value }).req_headers;
            &&& after.contains_key(lowercase(key))
            &&& after[lowercase(key)] == value
            &&& other != lowercase(key) ==> {
                &&& after.contains_key(other) <==> ctx.req_headers.contains_key(other)
                &&& after.contains_key(other) ==> after[other] == ctx.req_headers[other]
            }
        }),
{
}

/// A request header is found under the lower case of the name that is asked for,
/// and only there.
pub proof fn law_req_header_is_found(ctx: CtxView, key: Seq<char>)
    ensures
        ctx.req_header(key) is Some <==> ctx.req_headers.contains_key(lowercase(key)),
        ctx.req_header(key) matches Some(value) ==> value == ctx.req_headers[lowercase(key)],
{
}

/// A variable that was set holds the value, and every other variable stays as it
/// was; a variable is found under its own name, and only there.
pub proof fn law_var_is_set(ctx: CtxView, key: Seq<char>, value: Seq<char>, other: Seq<char>)
    ensures
        ({
            let after = ctx.apply(CtxOp::SetVar { key, value }).vars;
            &&& after.contains_key(key)
            &&& after[key] == value
            &&& other != key ==> {
                &&& after.contains_key(other) <==> ctx.vars.contains_key(other)
                &&& after.contains_key(other) ==> after[other] == ctx.vars[other]
            }
        }),
        ctx.var(key) is Some <==> ctx.vars.contains_key(key),
        ctx.var(key) matches Some(v) ==> v == ctx.vars[key],
{
}

/// A rejection holds the status and the message that were given, also in place of
/// an earlier one.
pub proof fn law_rejection_is_noted(ctx: CtxView, status: u16, msg: Seq<char>)
    ensures
        ctx.apply(CtxOp::Reject { status, msg }).rejected == Some((status, msg)),
{
}

/// A status that was set is the status of the response.
pub proof fn law_res_status_is_set(ctx: CtxView, status: u16)
    ensures
        ctx.apply(CtxOp::SetResStatus { status }).res_status == status,
{
}

/// An upstream that was chosen is kept in the variable of that name, in place of
/// one that was chosen before.
pub proof fn law_upstream_is_chosen(ctx: CtxView, name: Seq<char>)
    ensures
        ctx.apply(CtxOp::SelectUpstream { name }).vars == ctx.vars.insert("__upstream__"@, name),
{
}

/// Whatever a plugin does changes one thing and leaves the others.
pub proof fn law_one_thing_changes(ctx: CtxView, op: CtxOp)
    ensures
        ctx.apply(op).method == ctx.method,
        ctx.apply(op).path == ctx.path,
        ctx.apply(op).body == ctx.body,
        ctx.apply(op).ip == ctx.ip,
        ctx.apply(op).res_body == ctx.res_body,
        !(op is Reject) ==> ctx.apply(op).rejected == ctx.rejected,
        !(op is SetVar) && !(op is SelectUpstream) ==> ctx.apply(op).vars == ctx.vars,
        !(op is SetReqHeader) ==> ctx.apply(op).req_headers == ctx.req_headers,
        !(op is SetResHeader) ==> ctx.apply(op).res_headers == ctx.res_headers,
        !(op is SetResStatus) ==> ctx.apply(op).res_status == ctx.res_status,
{
}

/// What plugins do one after the other is done in that order.
pub proof fn law_ops_in_order(ctx: CtxView, ops: Seq<CtxOp>, op: CtxOp)
    ensures
        ctx.apply_all(seq![]) == ctx,
        ctx.apply_all(ops.push(op)) == ctx.apply_all(ops).apply(op),
{
    assert(ops.push(op).drop_last() =~= ops);
}

/// A context starts with the request as it came in, not turned down, without
/// variables, and with an empty response of status 200.
pub proof fn law_context_starts_fresh(
    method: Seq<char>,
    path: Seq<char>,
    headers: Map<Seq<char>, Seq<char>>,
    body: Seq<char>,
    ip: Seq<char>,
)
    ensures
        ({
            let ctx = fresh_ctx(method, path, headers, body, ip);
            &&& ctx.method == method
            &&& ctx.path == path
            &&& ctx.req_headers == headers
            &&& ctx.body == body
            &&& ctx.ip == ip
            &&& ctx.res_status == 200
            &&& forall|name: Seq<char>| !(#[trigger] ctx.res_headers.contains_key(name))
            &&& ctx.res_body.len() == 0
            &&& forall|name: Seq<char>| !(#[trigger] ctx.vars.contains_key(name))
            &&& ctx.rejected is None
        }),
{
}

/// What the upstream answered is in the context, whole, and nothing else of the
/// context changes.
pub proof fn law_response_is_recorded(
    ctx: CtxView,
    status: u16,
    headers: Map<Seq<char>, Seq<char>>,
    body: Seq<u8>,
)
    ensures
        ({
            let after = ctx.with_response(status, headers, body);
            &&& after.res_status == status
            &&& after.res_headers == headers
            &&& after.res_body == utf8_lossy(body)
            &&& after.method == ctx.method
            &&& after.path == ctx.path
            &&& after.req_headers == ctx.req_headers
            &&& after.body == ctx.body
            &&& after.ip == ctx.ip
            &&& after.vars == ctx.vars
            &&& after.rejected == ctx.rejected
        }),
{
}

/// Plugins are shown every header, in its order, with its value as it is and its
/// name in lower case.
pub proof fn law_headers_are_shown(entries: Seq<(Seq<char>, Seq<char>)>)
    ensures
        shown_headers(entries).len() == entries.len(),
        forall|i: int|
            0 <= i < entries.len() ==> (#[trigger] shown_headers(entries)[i]).1 == entries[i].1,
        forall|i: int|
            0 <= i < entries.len() ==> (#[trigger] shown_headers(entries)[i]).0 == lowercase(
                entries[i].0,
            ),
{
}

/// The model of a context has everything that the context has, whole.
pub proof fn law_context_is_seen_whole(ctx: RequestCtx)
    ensures
        ctx@.method == ctx.req_method@,
        ctx@.path == ctx.req_path@,
        ctx@.req_headers == ctx.req_headers@,
        ctx@.body == ctx.req_body@,
        ctx@.ip == ctx.client_ip@,
        ctx@.res_status == ctx.res_status,
        ctx@.res_headers == ctx.res_headers@,
        ctx@.res_body == ctx.res_body@,
        ctx@.vars == ctx.vars@,
        ctx.rejected matches Some((status, msg)) ==> ctx@.rejected == Some((status, msg@)),
        ctx.rejected is None ==> ctx@.rejected is None,
{
}

/// An optional text and a rejection are seen as what they are.
pub proof fn law_options_are_seen_whole(text: Option<String>, rejected: Option<(u16, String)>)
    ensures
        text matches Some(s) ==> text_view(text) == Some(s@),
        text is None ==> text_view(text) is None,
        rejected matches Some((status, msg)) ==> rejection_view(rejected) == Some((status, msg@)),
        rejected is None ==> rejection_view(rejected) is None,
{
}

/// A field of a table is seen as what it is.
pub proof fn law_field_is_seen_whole(field: Field)
    ensures
        field matches Field::Text(s) ==> field@ == FieldView::Text(s@),
        field matches Field::Number(n) ==> field@ == FieldView::Number(n),
        field matches Field::Pairs(p) ==> (field@ matches FieldView::Pairs(v) && v.len() == p@.len()
            && forall|i: int| 0 <= i < v.len() ==> #[trigger] v[i] == (p@[i].0@, p@[i].1@)),
{
}

/// A context comes by what plugins do to it, and also by nothing.
pub proof fn law_each_thing_is_a_change(ctx: CtxView, op: CtxOp)
    ensures
        evolved(ctx, ctx),
        evolved(ctx, ctx.apply(op)),
{
    assert(ctx == ctx.apply_all(seq![]));
    assert(seq![op].drop_last() =~= seq![]);
    assert(ctx.apply(op) == ctx.apply_all(seq![op]));
}

} // verus!
