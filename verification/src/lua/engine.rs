//! The plugins' sources, and the machine that runs their hooks.

use std::rc::Rc;

use vstd::prelude::*;

use super::context::{rejection_view, text_view, CtxView, RequestCtx, UPSTREAM_VAR};
use super::vm::{
    builtin_function, call_hook, call_route_hook, carried_on, chunk_ran, drop_global, error_text,
    failure_of, function_called, function_found, global_dropped, global_function, idle,
    is_described, is_ours, is_untouched, lemma_carried_on, lemma_stays, machine_contexts,
    machine_globals, new_machine, new_table, no_contexts, pairs_table, read_ctx, register_ctx,
    run_chunk, set_global, set_listener, share_ctx, table_slots, text_slots, write_ctx, AnswerView,
    Builtin, LogLevel, Slot,
};
use crate::config::PluginsConfig;
use crate::strmap::{pair_views, pairs_map, StrMap};
use crate::text::clone_strings;

verus! {

/// The plugins that run, in their order, and the sources that could be read.
#[derive(Debug)]
pub struct PluginSources {
    pub pipeline: Vec<String>,
    pub sources: StrMap,
}

/// The sources of a pipeline, of which each plugin's file was read or not.
pub open spec fn loaded_sources(names: Seq<String>, files: Seq<Option<String>>) -> Map<
    Seq<char>,
    Seq<char>,
>
    decreases names.len(),
{
    if names.len() == 0 {
        Map::empty()
    } else {
        let rest = loaded_sources(names.drop_last(), files.drop_last());
        match files.last() {
            Some(src) => rest.insert(names.last()@, src@),
            None => rest,
        }
    }
}

impl PluginSources {
    /// Takes in the files of a pipeline, one for each of its plugins, `None`
    /// where a file could not be read. Such a plugin stays in the pipeline but
    /// has no source.
    pub fn load(cfg: &PluginsConfig, files: &Vec<Option<String>>) -> (r: PluginSources)
        requires
            files.len() == cfg.pipeline.len(),
        ensures
            r.pipeline@ == cfg.pipeline@,
            r.sources@ == loaded_sources(cfg.pipeline@, files@),
    {
        let mut sources = StrMap::new();
        let mut i: usize = 0;
        while i < files.len()
            invariant
                i <= files.len(),
                files.len() == cfg.pipeline.len(),
                sources@ == loaded_sources(cfg.pipeline@.take(i as int), files@.take(i as int)),
            decreases files.len() - i,
        {
            assert(cfg.pipeline@.take(i + 1).drop_last() =~= cfg.pipeline@.take(i as int));
            assert(files@.take(i + 1).drop_last() =~= files@.take(i as int));
            match &files[i] {
                Some(src) => sources.insert(cfg.pipeline[i].clone(), src.clone()),
                None => {},
            }
            i += 1;
        }
        assert(cfg.pipeline@.take(i as int) =~= cfg.pipeline@);
        assert(files@.take(i as int) =~= files@);
        PluginSources { pipeline: clone_strings(&cfg.pipeline), sources }
    }
}

/// The plugins of a pipeline that have a source, in their order.
pub open spec fn loaded_names(
    pipeline: Seq<String>,
    sources: Map<Seq<char>, Seq<char>>,
) -> Seq<String>
    decreases pipeline.len(),
{
    if pipeline.len() == 0 {
        seq![]
    } else if sources.contains_key(pipeline.last()@) {
        loaded_names(pipeline.drop_last(), sources).push(pipeline.last())
    } else {
        loaded_names(pipeline.drop_last(), sources)
    }
}

/// Lists the plugins that are loaded: those of the pipeline that have a source,
/// in their order.
pub fn loaded_plugins(srcs: &PluginSources) -> (r: Vec<String>)
    ensures
        r@ == loaded_names(srcs.pipeline@, srcs.sources@),
{
    let mut out: Vec<String> = Vec::new();
    let mut i: usize = 0;
    while i < srcs.pipeline.len()
        invariant
            i <= srcs.pipeline.len(),
            out@ == loaded_names(srcs.pipeline@.take(i as int), srcs.sources@),
        decreases srcs.pipeline.len() - i,
    {
        assert(srcs.pipeline@.take(i + 1).drop_last() =~= srcs.pipeline@.take(i as int));
        if srcs.sources.get(srcs.pipeline[i].as_str()).is_some() {
            out.push(srcs.pipeline[i].clone());
        }
        i += 1;
    }
    assert(srcs.pipeline@.take(i as int) =~= srcs.pipeline@);
    out
}

impl Default for PluginSources {
    fn default() -> (r: PluginSources)
        ensures
            r.pipeline@ == Seq::<String>::empty(),
            r.sources@ == Map::<Seq<char>, Seq<char>>::empty(),
    {
        PluginSources { pipeline: Vec::new(), sources: StrMap::new() }
    }
}

impl Clone for PluginSources {
    fn clone(&self) -> (r: PluginSources)
        ensures
            r.pipeline@ == self.pipeline@,
            r.sources@ == self.sources@,
    {
        PluginSources { pipeline: clone_strings(&self.pipeline), sources: self.sources.clone() }
    }
}

/// A point at which plugins are called.
#[derive(Clone, Copy, PartialEq, Eq, Structural, Debug)]
pub enum Hook {
    OnRequest,
    OnRoute,
    OnTransform,
    OnResponse,
}

impl Hook {
    /// The name of the function that a plugin defines for it.
    pub open spec fn name(self) -> Seq<char> {
        match self {
            Hook::OnRequest => "on_request"@,
            Hook::OnRoute => "on_route"@,
            Hook::OnTransform => "on_transform"@,
            Hook::OnResponse => "on_response"@,
        }
    }

    /// Whether its function is asked for a name.
    pub open spec fn asks(self) -> bool {
        self == Hook::OnRoute
    }

    /// The name of the function that a plugin defines for it.
    pub fn function_name(self) -> (r: &'static str)
        ensures
            r@ == self.name(),
    {
        match self {
            Hook::OnRequest => "on_request",
            Hook::OnRoute => "on_route",
            Hook::OnTransform => "on_transform",
            Hook::OnResponse => "on_response",
        }
    }
}

/// How a call of a hook went.
pub struct HookCall {
    /// What the function failed with.
    pub error: Option<String>,
    /// The upstream that it named, where it was asked for one.
    pub choice: Option<String>,
    /// Whether the request stood rejected afterwards.
    pub rejected: bool,
}

/// What came of one plugin.
pub enum HookOutcome {
    /// Its file could not be read.
    NoSource,
    /// Its script failed.
    LoadFailed(String),
    /// Its script left no function for the hook.
    NoHook,
    /// The function for the hook was called.
    Called(HookCall),
}

/// The model of a [`HookOutcome`].
pub enum OutcomeView {
    NoSource,
    LoadFailed(Seq<char>),
    NoHook,
    Called { error: Option<Seq<char>>, choice: Option<Seq<char>>, rejected: bool },
}

impl View for HookOutcome {
    type V = OutcomeView;

    open spec fn view(&self) -> OutcomeView {
        match self {
            HookOutcome::NoSource => OutcomeView::NoSource,
            HookOutcome::LoadFailed(e) => OutcomeView::LoadFailed(e@),
            HookOutcome::NoHook => OutcomeView::NoHook,
            HookOutcome::Called(call) => OutcomeView::Called {
                error: text_view(call.error),
                choice: text_view(call.choice),
                rejected: call.rejected,
            },
        }
    }
}

/// The views of what came of plugins.
pub open spec fn trace_view(trace: Seq<HookOutcome>) -> Seq<OutcomeView> {
    trace.map_values(|outcome: HookOutcome| outcome@)
}

/// What came back from the function of a hook.
pub enum HookAnswer {
    /// There is no such function.
    Missing,
    /// The function failed.
    Failed(String),
    /// The function returned, with a name where `on_route` gave one.
    Returned(Option<String>),
}

impl View for HookAnswer {
    type V = AnswerView;

    open spec fn view(&self) -> AnswerView {
        match self {
            HookAnswer::Missing => AnswerView::Missing,
            HookAnswer::Failed(e) => AnswerView::Failed(e@),
            HookAnswer::Returned(choice) => AnswerView::Returned(text_view(*choice)),
        }
    }
}

/// What comes of a plugin by what came back from the function and by whether the
/// request then stands rejected. Only `on_route` names an upstream.
pub open spec fn outcome_of(hook: Hook, answer: AnswerView, rejected: bool) -> OutcomeView {
    match answer {
        AnswerView::Missing => OutcomeView::NoHook,
        AnswerView::Failed(e) => OutcomeView::Called { error: Some(e), choice: None, rejected },
        AnswerView::Returned(choice) => OutcomeView::Called {
            error: None,
            choice: if hook == Hook::OnRoute {
                choice
            } else {
                None
            },
            rejected,
        },
    }
}

/// Whether no plugin comes after this one: a hook stops at the first call after
/// which the request stands rejected, and `on_route` also at the first that
/// names an upstream.
pub open spec fn stops(hook: Hook, outcome: OutcomeView) -> bool {
    match outcome {
        OutcomeView::Called { error, choice, rejected } => rejected || (hook == Hook::OnRoute
            && choice is Some),
        _ => false,
    }
}

impl Hook {
    /// Tells what comes of a plugin.
    pub fn judge(self, answer: HookAnswer, rejected: bool) -> (r: HookOutcome)
        ensures
            r@ == outcome_of(self, answer@, rejected),
    {
        match answer {
            HookAnswer::Missing => HookOutcome::NoHook,
            HookAnswer::Failed(e) => HookOutcome::Called(
                HookCall { error: Some(e), choice: None, rejected },
            ),
            HookAnswer::Returned(choice) => HookOutcome::Called(
                HookCall {
                    error: None,
                    choice: if self == Hook::OnRoute {
                        choice
                    } else {
                        None
                    },
                    rejected,
                },
            ),
        }
    }

    /// Tells whether no plugin comes after this one.
    pub fn stops_after(self, outcome: &HookOutcome) -> (r: bool)
        ensures
            r == stops(self, outcome@),
    {
        match outcome {
            HookOutcome::Called(call) => call.rejected || (self == Hook::OnRoute
                && call.choice.is_some()),
            _ => false,
        }
    }
}

/// An outcome is one that calls of this hook can have.
pub open spec fn fits(hook: Hook, outcome: OutcomeView) -> bool {
    match outcome {
        OutcomeView::Called { error, choice, rejected } => choice is Some ==> hook == Hook::OnRoute
            && error is None,
        _ => true,
    }
}

/// A list of what came of the plugins, one after the other, is how a hook runs:
/// in the order of the pipeline, each plugin whose source is known, up to the
/// one that stops it or else to the end.
pub open spec fn runs(
    hook: Hook,
    pipeline: Seq<String>,
    sources: Map<Seq<char>, Seq<char>>,
    trace: Seq<OutcomeView>,
) -> bool {
    &&& trace.len() <= pipeline.len()
    &&& forall|i: int|
        0 <= i < trace.len() ==> (#[trigger] trace[i] is NoSource <==> !sources.contains_key(
            pipeline[i]@,
        ))
    &&& forall|i: int| 0 <= i < trace.len() ==> fits(hook, #[trigger] trace[i])
    &&& forall|i: int| 0 <= i < trace.len() - 1 ==> !stops(hook, #[trigger] trace[i])
    &&& trace.len() < pipeline.len() ==> trace.len() > 0 && stops(hook, trace.last())
}

/// The machine was asked for the function of a hook, and if the globals held one
/// called it once, with the context, and this came of it.
pub open spec fn hook_ran(
    hook: Hook,
    ctx: mlua::AnyUserData,
    before: mlua::Lua,
    outcome: OutcomeView,
    after: mlua::Lua,
) -> bool {
    exists|found: Option<mlua::Function>, asked: mlua::Lua|
        #![trigger function_found(before, hook.name(), found, asked)]
        function_found(before, hook.name(), found, asked) && match found {
            Some(f) => machine_globals(asked).contains_key(hook.name()) && exists|
                answer: AnswerView,
            |
                #![trigger function_called(asked, f, ctx, hook.asks(), answer, after)]
                function_called(asked, f, ctx, hook.asks(), answer, after) && !(answer is Missing)
                    && outcome == outcome_of(hook, answer, machine_contexts(after)[ctx].rejected is Some),
            None => outcome == outcome_of(hook, AnswerView::Missing, false) && after == asked,
        }
}

/// A script was run under its name, once, and if that worked out, the hook.
pub open spec fn script_ran(
    hook: Hook,
    name: Seq<char>,
    src: Seq<char>,
    ctx: mlua::AnyUserData,
    before: mlua::Lua,
    outcome: OutcomeView,
    after: mlua::Lua,
) -> bool {
    exists|failure: Option<Seq<char>>, loaded: mlua::Lua|
        #![trigger chunk_ran(before, name, src, failure, loaded)]
        chunk_ran(before, name, src, failure, loaded) && match failure {
            Some(e) => outcome == OutcomeView::LoadFailed(e) && after == loaded,
            None => hook_ran(hook, ctx, loaded, outcome, after),
        }
}

/// One plugin ran for a hook: what the globals held for the hook was dropped, and
/// then its script was run, and the hook with what the script left for it. A
/// plugin without a source leaves the machine alone.
pub open spec fn plugin_ran(
    hook: Hook,
    name: Seq<char>,
    sources: Map<Seq<char>, Seq<char>>,
    ctx: mlua::AnyUserData,
    before: mlua::Lua,
    outcome: OutcomeView,
    after: mlua::Lua,
) -> bool {
    if sources.contains_key(name) {
        exists|failure: Option<Seq<char>>, fresh: mlua::Lua|
            #![trigger global_dropped(before, hook.name(), failure, fresh)]
            global_dropped(before, hook.name(), failure, fresh) && match failure {
                Some(e) => outcome == OutcomeView::LoadFailed(e) && after == fresh,
                None => !machine_globals(fresh).contains_key(hook.name()) && script_ran(
                    hook,
                    name,
                    sources[name],
                    ctx,
                    fresh,
                    outcome,
                    after,
                ),
            }
    } else {
        outcome == OutcomeView::NoSource && after == before
    }
}

/// The plugins ran for a hook, one after the other, each once, and these are
/// what came of them.
pub open spec fn plugins_ran(
    hook: Hook,
    pipeline: Seq<String>,
    sources: Map<Seq<char>, Seq<char>>,
    ctx: mlua::AnyUserData,
    before: mlua::Lua,
    trace: Seq<OutcomeView>,
    after: mlua::Lua,
) -> bool
    decreases trace.len(),
{
    if trace.len() == 0 {
        after == before
    } else {
        exists|mid: mlua::Lua|
            plugins_ran(hook, pipeline, sources, ctx, before, trace.drop_last(), mid)
                && #[trigger] plugin_ran(
                hook,
                pipeline[trace.len() - 1]@,
                sources,
                ctx,
                mid,
                trace.last(),
                after,
            )
    }
}

/// What came of a hook: plugin by plugin, and the context afterwards.
pub struct HookRun {
    pub trace: Vec<HookOutcome>,
    pub ctx: RequestCtx,
}

/// The upstream that `on_route` settled on: the one that the last plugin named,
/// or else the one that is kept in the variables.
pub open spec fn settled_upstream(trace: Seq<OutcomeView>, ctx: CtxView) -> Option<Seq<char>> {
    if trace.len() > 0 && trace.last() is Called && trace.last()->choice is Some {
        trace.last()->choice
    } else {
        ctx.var(UPSTREAM_VAR@)
    }
}

impl HookRun {
    /// The status and the message that the request was turned down with.
    pub fn rejection(&self) -> (r: Option<(u16, String)>)
        ensures
            rejection_view(r) == self.ctx@.rejected,
    {
        match &self.ctx.rejected {
            Some((status, msg)) => Some((*status, msg.clone())),
            None => None,
        }
    }

    /// The upstream that was settled on.
    pub fn upstream(&self) -> (r: Option<String>)
        ensures
            text_view(r) == settled_upstream(trace_view(self.trace@), self.ctx@),
    {
        let n = self.trace.len();
        if n > 0 {
            assert(trace_view(self.trace@).last() == self.trace@[n - 1]@);
            if let HookOutcome::Called(call) = &self.trace[n - 1] {
                if let Some(name) = &call.choice {
                    return Some(name.clone());
                }
            }
        }
        self.ctx.get_var(UPSTREAM_VAR)
    }
}

/// A context that plugins hold on to.
pub struct LuaCtx(pub mlua::AnyUserData);

impl LuaCtx {
    /// What the context holds now.
    pub fn read(&self, engine: &LuaEngine) -> (r: Result<RequestCtx, mlua::Error>)
        requires
            engine.holds(*self),
        ensures
            r matches Ok(ctx) && ctx@ == engine.contexts()[self.0],
    {
        read_ctx(&engine.lua, &self.0)
    }

    /// Puts a new value in place.
    pub fn write(&self, engine: &mut LuaEngine, ctx: RequestCtx) -> (r: Result<(), mlua::Error>)
        requires
            old(engine).holds(*self),
        ensures
            r is Ok,
            final(engine).contexts() == old(engine).contexts().insert(self.0, ctx@),
            is_described(old(engine).lua()) ==> is_described(final(engine).lua()),
    {
        write_ctx(&mut engine.lua, &self.0, ctx)
    }
}

/// Functions that plugins find under one global name.
pub struct BuiltinTable {
    pub name: &'static str,
    pub functions: Vec<(&'static str, Builtin)>,
}

/// The functions that the library lends to plugins, by their names.
pub fn builtin_tables() -> (r: Vec<BuiltinTable>)
    ensures
        r.len() == 4,
        r@[0].name@ == "json"@,
        r@[0].functions@ == seq![("encode", Builtin::JsonEncode)],
        r@[1].name@ == "base64"@,
        r@[1].functions@ == seq![
            ("encode", Builtin::Base64Encode),
            ("decode", Builtin::Base64Decode),
        ],
        r@[2].name@ == "hmac"@,
        r@[2].functions@ == seq![("sha256", Builtin::HmacSha256)],
        r@[3].name@ == "uuid"@,
        r@[3].functions@ == seq![("v4", Builtin::UuidV4)],
{
    let mut json: Vec<(&'static str, Builtin)> = Vec::new();
    json.push(("encode", Builtin::JsonEncode));
    let mut base64: Vec<(&'static str, Builtin)> = Vec::new();
    base64.push(("encode", Builtin::Base64Encode));
    base64.push(("decode", Builtin::Base64Decode));
    let mut hmac: Vec<(&'static str, Builtin)> = Vec::new();
    hmac.push(("sha256", Builtin::HmacSha256));
    let mut uuid: Vec<(&'static str, Builtin)> = Vec::new();
    uuid.push(("v4", Builtin::UuidV4));
    let mut r: Vec<BuiltinTable> = Vec::new();
    r.push(BuiltinTable { name: "json", functions: json });
    r.push(BuiltinTable { name: "base64", functions: base64 });
    r.push(BuiltinTable { name: "hmac", functions: hmac });
    r.push(BuiltinTable { name: "uuid", functions: uuid });
    r
}

/// What a table of functions holds.
pub open spec fn function_slots(functions: Seq<(&'static str, Builtin)>) -> Map<Seq<char>, Slot>
    decreases functions.len(),
{
    if functions.len() == 0 {
        Map::empty()
    } else {
        function_slots(functions.drop_last()).insert(
            functions.last().0@,
            Slot::Function(functions.last().1),
        )
    }
}

/// The globals once tables of functions are put into them.
pub open spec fn with_tables(
    globals: Map<Seq<char>, Slot>,
    tables: Seq<BuiltinTable>,
) -> Map<Seq<char>, Slot>
    decreases tables.len(),
{
    if tables.len() == 0 {
        globals
    } else {
        with_tables(globals, tables.drop_last()).insert(
            tables.last().name@,
            Slot::Table(function_slots(tables.last().functions@)),
        )
    }
}

/// The globals once they are set up for plugins: the functions that the library
/// lends, and the table `ENV`.
pub open spec fn with_lent(
    globals: Map<Seq<char>, Slot>,
    env: Seq<(Seq<char>, Seq<char>)>,
) -> Map<Seq<char>, Slot> {
    globals.insert(
        "json"@,
        Slot::Table(Map::empty().insert("encode"@, Slot::Function(Builtin::JsonEncode))),
    ).insert(
        "base64"@,
        Slot::Table(
            Map::empty().insert("encode"@, Slot::Function(Builtin::Base64Encode)).insert(
                "decode"@,
                Slot::Function(Builtin::Base64Decode),
            ),
        ),
    ).insert(
        "hmac"@,
        Slot::Table(Map::empty().insert("sha256"@, Slot::Function(Builtin::HmacSha256))),
    ).insert(
        "uuid"@,
        Slot::Table(Map::empty().insert("v4"@, Slot::Function(Builtin::UuidV4))),
    ).insert("ENV"@, Slot::Table(text_slots(pairs_map(env))))
}

/// A Lua machine that is set up to run plugins.
pub struct LuaEngine {
    lua: mlua::Lua,
}

impl LuaEngine {
    /// The machine itself.
    pub closed spec fn lua(self) -> mlua::Lua {
        self.lua
    }

    /// What the contexts that it was handed hold.
    pub open spec fn contexts(self) -> Map<mlua::AnyUserData, CtxView> {
        machine_contexts(self.lua())
    }

    /// It was handed this context.
    pub open spec fn holds(self, ctx: LuaCtx) -> bool {
        self.contexts().contains_key(ctx.0)
    }

    /// A machine with the library's functions in its globals, with `env` as the
    /// table `ENV`, and with the context described, on which no script has run.
    pub fn new(env: &Vec<(String, String)>) -> (r: Result<LuaEngine, mlua::Error>)
        ensures
            r matches Ok(engine) ==> {
                &&& is_untouched(engine.lua())
                &&& is_described(engine.lua())
                &&& exists|globals: Map<Seq<char>, Slot>|
                    machine_globals(engine.lua()) == #[trigger] with_lent(
                        globals,
                        pair_views(env@),
                    )
            },
    {
        let mut engine = LuaEngine { lua: new_machine() };
        engine.setup_globals(env)?;
        Ok(engine)
    }

    /// Puts the functions `log.info` and `log.warn` into the globals, which hand
    /// their argument to the listener, each at its own level.
    pub fn lend_log<F: Fn(LogLevel, String) + 'static>(&mut self, listener: F) -> (r: Result<
        (),
        mlua::Error,
    >)
        requires
            forall|level: LogLevel, text: String| #[trigger] listener.requires((level, text)),
        ensures
            is_described(old(self).lua()) ==> is_described(final(self).lua()),
            is_untouched(old(self).lua()) && r is Ok ==> {
                &&& is_untouched(final(self).lua())
                &&& machine_globals(final(self).lua()) == machine_globals(old(self).lua()).insert(
                    "log"@,
                    Slot::Table(
                        Map::empty().insert("info"@, Slot::Listener(LogLevel::Info)).insert(
                            "warn"@,
                            Slot::Listener(LogLevel::Warn),
                        ),
                    ),
                )
            },
    {
        let mut table = new_table(&mut self.lua)?;
        let info = Rc::new(listener);
        let warn = info.clone();
        set_listener(&mut self.lua, &mut table, "info", LogLevel::Info, info)?;
        set_listener(&mut self.lua, &mut table, "warn", LogLevel::Warn, warn)?;
        set_global(&mut self.lua, "log", table)
    }

    fn setup_globals(&mut self, env: &Vec<(String, String)>) -> (r: Result<(), mlua::Error>)
        requires
            is_untouched(old(self).lua()),
            old(self).contexts() == no_contexts(),
        ensures
            r is Ok ==> {
                &&& is_described(final(self).lua())
                &&& is_untouched(final(self).lua())
                &&& machine_globals(final(self).lua()) == with_lent(
                    machine_globals(old(self).lua()),
                    pair_views(env@),
                )
            },
    {
        register_ctx(&mut self.lua)?;
        let tables = builtin_tables();
        let ghost start = machine_globals(self.lua);
        let mut i: usize = 0;
        while i < tables.len()
            invariant
                i <= tables.len(),
                is_untouched(self.lua),
                is_described(self.lua),
                machine_globals(self.lua) == with_tables(start, tables@.take(i as int)),
            decreases tables.len() - i,
        {
            let functions = &tables[i].functions;
            let ghost before = self.lua;
            let mut table = new_table(&mut self.lua)?;
            let mut j: usize = 0;
            while j < functions.len()
                invariant
                    j <= functions.len(),
                    idle(before, self.lua),
                    is_ours(self.lua, table),
                    table_slots(table) == function_slots(functions@.take(j as int)),
                decreases functions.len() - j,
            {
                builtin_function(&mut self.lua, &mut table, functions[j].0, &functions[j].1)?;
                assert(functions@.take(j + 1).drop_last() =~= functions@.take(j as int));
                j += 1;
            }
            assert(functions@.take(j as int) =~= functions@);
            set_global(&mut self.lua, tables[i].name, table)?;
            assert(tables@.take(i + 1).drop_last() =~= tables@.take(i as int));
            i += 1;
        }
        proof {
            assert(tables@.take(i as int) =~= tables@);
            lemma_builtin_globals(start, tables@);
        }
        let env_table = pairs_table(&mut self.lua, env)?;
        set_global(&mut self.lua, "ENV", env_table)
    }

    /// Runs a plugin's script. What comes of it is the script's affair.
    fn load_plugin(&mut self, name: &str, src: &str) -> (r: Result<(), mlua::Error>)
        ensures
            carried_on(old(self).lua(), final(self).lua()),
            chunk_ran(old(self).lua(), name@, src@, failure_of(r), final(self).lua()),
    {
        run_chunk(&mut self.lua, name, src)
    }

    /// Runs a plugin: its script, and the function that it leaves for the hook.
    /// What an earlier script left for the hook is dropped before.
    fn run_plugin(&mut self, hook: Hook, name: &str, src: &str, ctx: &LuaCtx) -> (r: Result<
        (HookOutcome, Option<RequestCtx>),
        mlua::Error,
    >)
        requires
            old(self).holds(*ctx),
        ensures
            carried_on(old(self).lua(), final(self).lua()),
            r matches Ok((outcome, seen)) && {
                &&& forall|sources: Map<Seq<char>, Seq<char>>|
                    sources.contains_key(name@) && #[trigger] sources[name@] == src@ ==> plugin_ran(
                        hook,
                        name@,
                        sources,
                        ctx.0,
                        old(self).lua(),
                        outcome@,
                        final(self).lua(),
                    )
                &&& !(outcome is NoSource)
                &&& fits(hook, outcome@)
                &&& outcome is Called ==> seen is Some
                &&& seen matches Some(now) ==> now@ == final(self).contexts()[ctx.0]
                &&& outcome matches HookOutcome::Called(call) ==> call.rejected == (
                final(self).contexts()[ctx.0].rejected is Some)
            },
    {
        let ghost start = self.lua();
        let dropped = drop_global(&mut self.lua, hook.function_name());
        let ghost fresh = self.lua();
        assert(global_dropped(start, hook.name(), failure_of(dropped), fresh));
        if let Err(e) = dropped {
            return Ok((HookOutcome::LoadFailed(error_text(&e)), None));
        }
        let done = self.load_plugin(name, src);
        let ghost loaded = self.lua();
        assert(chunk_ran(fresh, name@, src@, failure_of(done), loaded));
        proof {
            lemma_carried_on(start, fresh, loaded);
        }
        match done {
            Ok(_) => {
                let (outcome, seen) = self.call(hook, ctx)?;
                proof {
                    lemma_carried_on(start, loaded, self.lua());
                    assert(script_ran(hook, name@, src@, ctx.0, fresh, outcome@, self.lua()));
                }
                Ok((outcome, seen))
            },
            Err(e) => {
                let outcome = HookOutcome::LoadFailed(error_text(&e));
                assert(script_ran(hook, name@, src@, ctx.0, fresh, outcome@, self.lua()));
                Ok((outcome, None))
            },
        }
    }

    /// Hands a context to the machine.
    pub fn share(&mut self, ctx: RequestCtx) -> (r: Result<LuaCtx, mlua::Error>)
        ensures
            carried_on(old(self).lua(), final(self).lua()),
            r matches Ok(shared) ==> final(self).holds(shared) && final(self).contexts()[shared.0]
                == ctx@,
    {
        match share_ctx(&mut self.lua, ctx) {
            Ok(object) => Ok(LuaCtx(object)),
            Err(e) => Err(e),
        }
    }

    /// Calls the function that the globals now have for a hook, which the last
    /// script left there. The context is looked at afterwards, and comes back with
    /// what was found.
    fn call(&mut self, hook: Hook, ctx: &LuaCtx) -> (r: Result<
        (HookOutcome, Option<RequestCtx>),
        mlua::Error,
    >)
        requires
            old(self).holds(*ctx),
        ensures
            carried_on(old(self).lua(), final(self).lua()),
            r matches Ok((outcome, seen)) && {
                &&& hook_ran(hook, ctx.0, old(self).lua(), outcome@, final(self).lua())
                &&& outcome is NoHook || outcome is Called
                &&& fits(hook, outcome@)
                &&& outcome is Called ==> seen is Some
                &&& seen matches Some(now) ==> now@ == final(self).contexts()[ctx.0]
                &&& outcome matches HookOutcome::Called(call) ==> call.rejected == (
                final(self).contexts()[ctx.0].rejected is Some)
            },
    {
        let ghost start = self.lua;
        let found = global_function(&mut self.lua, hook.function_name());
        let ghost asked = self.lua;
        let function = match found {
            Some(function) => function,
            None => {
                assert(function_found(start, hook.name(), found, asked));
                return Ok((hook.judge(HookAnswer::Missing, false), None));
            },
        };
        assert(function_found(start, hook.name(), Some(function), asked));
        let answer = if hook == Hook::OnRoute {
            match call_route_hook(&mut self.lua, &function, &ctx.0) {
                Ok(choice) => HookAnswer::Returned(choice),
                Err(e) => HookAnswer::Failed(error_text(&e)),
            }
        } else {
            match call_hook(&mut self.lua, &function, &ctx.0) {
                Ok(_) => HookAnswer::Returned(None),
                Err(e) => HookAnswer::Failed(error_text(&e)),
            }
        };
        proof {
            lemma_carried_on(start, asked, self.lua);
            assert(function_called(
                asked,
                function,
                ctx.0,
                hook.asks(),
                answer@,
                self.lua,
            ));
        }
        let now = ctx.read(self)?;
        Ok((hook.judge(answer, now.is_rejected()), Some(now)))
    }

    /// Runs a hook through the pipeline. Whatever the plugins do, it runs as
    /// [`ran`] says.
    fn run(&mut self, hook: Hook, srcs: &PluginSources, ctx: &LuaCtx) -> (r: Result<
        HookRun,
        mlua::Error,
    >)
        requires
            old(self).holds(*ctx),
        ensures
            r matches Ok(run) && ran(hook, *srcs, *ctx, *old(self), run, *final(self)),
    {
        let mut trace: Vec<HookOutcome> = Vec::new();
        let mut i: usize = 0;
        proof {
            lemma_stays(self.lua());
            assert(trace_view(trace@) =~= seq![]);
        }
        while i < srcs.pipeline.len()
            invariant
                i <= srcs.pipeline.len(),
                trace.len() == i,
                old(self).holds(*ctx),
                carried_on(old(self).lua(), self.lua()),
                no_sources(*srcs) ==> self.lua() == old(self).lua(),
                plugins_ran(
                    hook,
                    srcs.pipeline@,
                    srcs.sources@,
                    ctx.0,
                    old(self).lua(),
                    trace_view(trace@),
                    self.lua(),
                ),
                forall|j: int|
                    0 <= j < trace.len() ==> (#[trigger] trace_view(trace@)[j] is NoSource
                        <==> !srcs.sources@.contains_key(srcs.pipeline@[j]@)),
                forall|j: int| 0 <= j < trace.len() ==> fits(hook, #[trigger] trace_view(trace@)[j]),
                forall|j: int|
                    0 <= j < trace.len() ==> !stops(hook, #[trigger] trace_view(trace@)[j]),
            decreases srcs.pipeline.len() - i,
        {
            let name = srcs.pipeline[i].as_str();
            let ghost start = self.lua();
            let ghost before = trace_view(trace@);
            assert(no_sources(*srcs) ==> !srcs.sources@.contains_key(srcs.pipeline@[i as int]@));
            let (outcome, seen) = match srcs.sources.get(name) {
                Some(src) => self.run_plugin(hook, name, src.as_str(), ctx)?,
                None => {
                    proof {
                        lemma_stays(start);
                    }
                    (HookOutcome::NoSource, None)
                },
            };
            let ghost view = outcome@;
            let stop = hook.stops_after(&outcome);
            trace.push(outcome);
            proof {
                lemma_carried_on(old(self).lua(), start, self.lua());
                let now = trace_view(trace@);
                assert(now =~= before.push(view));
                assert(now.drop_last() =~= before);
                assert(plugin_ran(
                    hook,
                    srcs.pipeline@[now.len() - 1]@,
                    srcs.sources@,
                    ctx.0,
                    start,
                    now.last(),
                    self.lua(),
                ));
            }
            if stop {
                let now = match seen {
                    Some(now) => now,
                    None => ctx.read(self)?,
                };
                return Ok(HookRun { trace, ctx: now });
            }
            i += 1;
        }
        let now = ctx.read(self)?;
        Ok(HookRun { trace, ctx: now })
    }

    /// Runs `on_request`: the plugins may turn the request down, which
    /// [`HookRun::rejection`] then tells. No plugin runs after one that did.
    pub fn run_on_request(&mut self, srcs: &PluginSources, ctx: &LuaCtx) -> (r: Result<
        HookRun,
        mlua::Error,
    >)
        requires
            old(self).holds(*ctx),
        ensures
            r matches Ok(run) && ran(Hook::OnRequest, *srcs, *ctx, *old(self), run, *final(self)),
    {
        self.run(Hook::OnRequest, srcs, ctx)
    }

    /// Runs `on_route`: the plugins may settle on an upstream, which
    /// [`HookRun::upstream`] then tells, or turn the request down.
    pub fn run_on_route(&mut self, srcs: &PluginSources, ctx: &LuaCtx) -> (r: Result<
        HookRun,
        mlua::Error,
    >)
        requires
            old(self).holds(*ctx),
        ensures
            r matches Ok(run) && ran(Hook::OnRoute, *srcs, *ctx, *old(self), run, *final(self)),
    {
        self.run(Hook::OnRoute, srcs, ctx)
    }

    /// Runs `on_transform`.
    pub fn run_on_transform(&mut self, srcs: &PluginSources, ctx: &LuaCtx) -> (r: Result<
        HookRun,
        mlua::Error,
    >)
        requires
            old(self).holds(*ctx),
        ensures
            r matches Ok(run) && ran(
                Hook::OnTransform,
                *srcs,
                *ctx,
                *old(self),
                run,
                *final(self),
            ),
    {
        self.run(Hook::OnTransform, srcs, ctx)
    }

    /// Runs `on_response`.
    pub fn run_on_response(&mut self, srcs: &PluginSources, ctx: &LuaCtx) -> (r: Result<
        HookRun,
        mlua::Error,
    >)
        requires
            old(self).holds(*ctx),
        ensures
            r matches Ok(run) && ran(Hook::OnResponse, *srcs, *ctx, *old(self), run, *final(self)),
    {
        self.run(Hook::OnResponse, srcs, ctx)
    }
}

/// No plugin of the pipeline has a source.
pub open spec fn no_sources(srcs: PluginSources) -> bool {
    forall|i: int|
        0 <= i < srcs.pipeline@.len() ==> !srcs.sources@.contains_key(
            (#[trigger] srcs.pipeline@[i])@,
        )
}

/// How a run of a hook on a context comes out, whatever the plugins do. Their
/// scripts are run and the functions for the hook are called as [`plugins_ran`]
/// says, from the first plugin to the one at which [`runs`] has the run end. The
/// run gives the context as the plugins left it; the last call tells whether it
/// stands rejected. Where there is no source to run, nothing changes.
pub open spec fn ran(
    hook: Hook,
    srcs: PluginSources,
    ctx: LuaCtx,
    before: LuaEngine,
    run: HookRun,
    after: LuaEngine,
) -> bool {
    let trace = trace_view(run.trace@);
    &&& carried_on(before.lua(), after.lua())
    &&& no_sources(srcs) ==> after.lua() == before.lua()
    &&& runs(hook, srcs.pipeline@, srcs.sources@, trace)
    &&& plugins_ran(
        hook,
        srcs.pipeline@,
        srcs.sources@,
        ctx.0,
        before.lua(),
        trace,
        after.lua(),
    )
    &&& run.ctx@ == after.contexts()[ctx.0]
    &&& trace.len() > 0 && trace.last() is Called ==> trace.last()->rejected == (
    run.ctx@.rejected is Some)
}

proof fn lemma_builtin_globals(start: Map<Seq<char>, Slot>, tables: Seq<BuiltinTable>)
    requires
        tables.len() == 4,
        tables[0].name@ == "json"@,
        tables[0].functions@ == seq![("encode", Builtin::JsonEncode)],
        tables[1].name@ == "base64"@,
        tables[1].functions@ == seq![
            ("encode", Builtin::Base64Encode),
            ("decode", Builtin::Base64Decode),
        ],
        tables[2].name@ == "hmac"@,
        tables[2].functions@ == seq![("sha256", Builtin::HmacSha256)],
        tables[3].name@ == "uuid"@,
        tables[3].functions@ == seq![("v4", Builtin::UuidV4)],
    ensures
        forall|env: Seq<(Seq<char>, Seq<char>)>|
            with_tables(start, tables).insert(
                "ENV"@,
                Slot::Table(text_slots(pairs_map(env))),
            ) == #[trigger] with_lent(start, env),
{
    reveal_with_fuel(with_tables, 5);
    reveal_with_fuel(function_slots, 3);
    assert(tables[0].functions@.drop_last() =~= seq![]);
    assert(tables[1].functions@.drop_last().drop_last() =~= seq![]);
    assert(tables[2].functions@.drop_last() =~= seq![]);
    assert(tables[3].functions@.drop_last() =~= seq![]);
}

/// No plugin runs after one that turned the request down, in any hook.
pub proof fn law_rejection_stops_pipeline(
    hook: Hook,
    pipeline: Seq<String>,
    sources: Map<Seq<char>, Seq<char>>,
    trace: Seq<OutcomeView>,
    i: int,
)
    requires
        runs(hook, pipeline, sources, trace),
        0 <= i < trace.len(),
        trace[i] is Called && trace[i]->rejected,
    ensures
        i == trace.len() - 1,
{
    assert(stops(hook, trace[i]));
}

/// A hook that is not cut short goes through the whole pipeline.
pub proof fn law_hook_reaches_all_plugins(
    hook: Hook,
    pipeline: Seq<String>,
    sources: Map<Seq<char>, Seq<char>>,
    trace: Seq<OutcomeView>,
)
    requires
        runs(hook, pipeline, sources, trace),
        forall|i: int| 0 <= i < trace.len() ==> !stops(hook, #[trigger] trace[i]),
    ensures
        trace.len() == pipeline.len(),
{
    if trace.len() < pipeline.len() {
        assert(!stops(hook, trace[trace.len() - 1]));
    }
}

/// Nothing but a rejection cuts `on_request`, `on_transform` and `on_response`
/// short.
pub proof fn law_only_rejection_cuts_short(
    hook: Hook,
    pipeline: Seq<String>,
    sources: Map<Seq<char>, Seq<char>>,
    trace: Seq<OutcomeView>,
)
    requires
        hook != Hook::OnRoute,
        runs(hook, pipeline, sources, trace),
        trace.len() < pipeline.len(),
    ensures
        trace.len() > 0 && trace.last() is Called && trace.last()->rejected,
{
}

/// The first plugin that names an upstream settles it.
pub proof fn law_first_choice_settles(
    pipeline: Seq<String>,
    sources: Map<Seq<char>, Seq<char>>,
    trace: Seq<OutcomeView>,
    ctx: CtxView,
    i: int,
)
    requires
        runs(Hook::OnRoute, pipeline, sources, trace),
        0 <= i < trace.len(),
        trace[i] is Called && trace[i]->choice is Some,
    ensures
        settled_upstream(trace, ctx) == trace[i]->choice,
{
    assert(stops(Hook::OnRoute, trace[i]));
}

/// Each plugin that came to run did so once, in its place: there are states of
/// the machine, one before and one after each of them, and what came of a plugin
/// is what came of running it between its two.
pub proof fn law_each_plugin_ran_in_its_place(
    hook: Hook,
    pipeline: Seq<String>,
    sources: Map<Seq<char>, Seq<char>>,
    ctx: mlua::AnyUserData,
    before: mlua::Lua,
    trace: Seq<OutcomeView>,
    after: mlua::Lua,
) -> (states: Seq<mlua::Lua>)
    requires
        plugins_ran(hook, pipeline, sources, ctx, before, trace, after),
    ensures
        states.len() == trace.len() + 1,
        states.first() == before,
        states.last() == after,
        forall|i: int|
            0 <= i < trace.len() ==> #[trigger] plugin_ran(
                hook,
                pipeline[i]@,
                sources,
                ctx,
                states[i],
                trace[i],
                states[i + 1],
            ),
    decreases trace.len(),
{
    if trace.len() == 0 {
        seq![before]
    } else {
        let n = trace.len() - 1;
        let mid = choose|mid: mlua::Lua|
            plugins_ran(hook, pipeline, sources, ctx, before, trace.drop_last(), mid)
                && #[trigger] plugin_ran(
                hook,
                pipeline[n]@,
                sources,
                ctx,
                mid,
                trace.last(),
                after,
            );
        let some = law_each_plugin_ran_in_its_place(
            hook,
            pipeline,
            sources,
            ctx,
            before,
            trace.drop_last(),
            mid,
        );
        let states = some.push(after);
        assert forall|i: int| 0 <= i < trace.len() implies #[trigger] plugin_ran(
            hook,
            pipeline[i]@,
            sources,
            ctx,
            states[i],
            trace[i],
            states[i + 1],
        ) by {
            if i < n {
                assert(plugin_ran(
                    hook,
                    pipeline[i]@,
                    sources,
                    ctx,
                    some[i],
                    trace.drop_last()[i],
                    some[i + 1],
                ));
            } else {
                assert(states[i] == mid);
                assert(states[i + 1] == after);
            }
        }
        states
    }
}

/// A plugin answers to a hook only with what its own script left for it: before
/// the script was run the globals held nothing for the hook, and afterwards they
/// held what was called. Gives the states of the machine before and after the
/// script, the function, the state in which it was called, and its answer.
pub proof fn law_hook_is_the_plugins_own(
    hook: Hook,
    name: Seq<char>,
    sources: Map<Seq<char>, Seq<char>>,
    ctx: mlua::AnyUserData,
    before: mlua::Lua,
    outcome: OutcomeView,
    after: mlua::Lua,
) -> (r: (mlua::Lua, mlua::Lua, mlua::Function, mlua::Lua, AnswerView))
    requires
        plugin_ran(hook, name, sources, ctx, before, outcome, after),
        outcome is Called,
    ensures
        !machine_globals(r.0).contains_key(hook.name()),
        chunk_ran(r.0, name, sources[name], None, r.1),
        function_found(r.1, hook.name(), Some(r.2), r.3),
        machine_globals(r.3).contains_key(hook.name()),
        function_called(r.3, r.2, ctx, hook.asks(), r.4, after),
{
    let (failure, fresh) = choose|failure: Option<Seq<char>>, fresh: mlua::Lua|
        #![trigger global_dropped(before, hook.name(), failure, fresh)]
        global_dropped(before, hook.name(), failure, fresh) && match failure {
            Some(e) => outcome == OutcomeView::LoadFailed(e) && after == fresh,
            None => !machine_globals(fresh).contains_key(hook.name()) && script_ran(
                hook,
                name,
                sources[name],
                ctx,
                fresh,
                outcome,
                after,
            ),
        };
    let (failed, loaded) = choose|failed: Option<Seq<char>>, loaded: mlua::Lua|
        #![trigger chunk_ran(fresh, name, sources[name], failed, loaded)]
        chunk_ran(fresh, name, sources[name], failed, loaded) && match failed {
            Some(e) => outcome == OutcomeView::LoadFailed(e) && after == loaded,
            None => hook_ran(hook, ctx, loaded, outcome, after),
        };
    let (found, asked) = choose|found: Option<mlua::Function>, asked: mlua::Lua|
        #![trigger function_found(loaded, hook.name(), found, asked)]
        function_found(loaded, hook.name(), found, asked) && match found {
            Some(f) => machine_globals(asked).contains_key(hook.name()) && exists|
                answer: AnswerView,
            |
                #![trigger function_called(asked, f, ctx, hook.asks(), answer, after)]
                function_called(asked, f, ctx, hook.asks(), answer, after) && !(answer is Missing)
                    && outcome == outcome_of(hook, answer, machine_contexts(after)[ctx].rejected is Some),
            None => outcome == outcome_of(hook, AnswerView::Missing, false) && after == asked,
        };
    let f = found->Some_0;
    let answer = choose|answer: AnswerView|
        #![trigger function_called(asked, f, ctx, hook.asks(), answer, after)]
        function_called(asked, f, ctx, hook.asks(), answer, after);
    (fresh, loaded, f, asked, answer)
}

/// A plugin has a source exactly if one of its files could be read.
pub proof fn law_sources_are_what_was_read(
    names: Seq<String>,
    files: Seq<Option<String>>,
    name: Seq<char>,
)
    requires
        names.len() == files.len(),
    ensures
        loaded_sources(names, files).contains_key(name) <==> exists|i: int|
            0 <= i < names.len() && (#[trigger] names[i])@ == name && files[i] is Some,
    decreases names.len(),
{
    if names.len() > 0 {
        let n = names.len() - 1;
        let some_names = names.drop_last();
        let some_files = files.drop_last();
        law_sources_are_what_was_read(some_names, some_files, name);
        if loaded_sources(some_names, some_files).contains_key(name) {
            let i = choose|i: int|
                0 <= i < n && (#[trigger] some_names[i])@ == name && some_files[i] is Some;
            assert(names[i]@ == name && files[i] is Some);
        }
        if names[n]@ == name && files[n] is Some {
            assert(loaded_sources(names, files).contains_key(name));
        }
        if exists|i: int|
            0 <= i < names.len() && (#[trigger] names[i])@ == name && files[i] is Some {
            let i = choose|i: int|
                0 <= i < names.len() && (#[trigger] names[i])@ == name && files[i] is Some;
            if i < n {
                assert(some_names[i]@ == name && some_files[i] is Some);
            }
        }
    }
}

/// A plugin's source is the text of the last file of its name that could be read.
pub proof fn law_source_is_what_was_read(
    names: Seq<String>,
    files: Seq<Option<String>>,
    i: int,
    src: String,
)
    requires
        names.len() == files.len(),
        0 <= i < names.len(),
        files[i] == Some(src),
        forall|j: int|
            i < j < names.len() && (#[trigger] files[j]) is Some ==> names[j]@ != names[i]@,
    ensures
        loaded_sources(names, files).contains_key(names[i]@),
        loaded_sources(names, files)[names[i]@] == src@,
    decreases names.len(),
{
    let n = names.len() - 1;
    if i < n {
        let some_names = names.drop_last();
        let some_files = files.drop_last();
        assert forall|j: int| i < j < some_names.len() && (#[trigger] some_files[j]) is Some implies
            some_names[j]@ != some_names[i]@ by {
            assert(files[j] is Some);
        }
        law_source_is_what_was_read(some_names, some_files, i, src);
        assert(files[n] is Some ==> names[n]@ != names[i]@);
    }
}

/// The plugins that are loaded are those of the pipeline that have a source, all
/// of them and in their order.
pub proof fn law_loaded_plugins(pipeline: Seq<String>, sources: Map<Seq<char>, Seq<char>>)
    ensures
        loaded_names(pipeline, sources) == pipeline.filter(
            |name: String| sources.contains_key(name@),
        ),
    decreases pipeline.len(),
{
    reveal(Seq::filter);
    if pipeline.len() > 0 {
        law_loaded_plugins(pipeline.drop_last(), sources);
    }
}

/// The functions that plugins define for the hooks go by the hooks' own names, and
/// only the one for `on_route` is asked for an upstream.
pub proof fn law_hooks_by_name(hook: Hook)
    ensures
        hook == Hook::OnRequest ==> hook.name() == "on_request"@,
        hook == Hook::OnRoute ==> hook.name() == "on_route"@,
        hook == Hook::OnTransform ==> hook.name() == "on_transform"@,
        hook == Hook::OnResponse ==> hook.name() == "on_response"@,
        hook.asks() <==> hook == Hook::OnRoute,
{
}

/// What came back from a function is what is noted of the plugin: what it failed
/// with, the upstream that `on_route` named, and whether the request stands
/// rejected.
pub proof fn law_answer_is_noted(
    hook: Hook,
    e: Seq<char>,
    choice: Option<Seq<char>>,
    rejected: bool,
)
    ensures
        outcome_of(hook, AnswerView::Missing, rejected) is NoHook,
        outcome_of(hook, AnswerView::Failed(e), rejected) == (OutcomeView::Called {
            error: Some(e),
            choice: None,
            rejected,
        }),
        hook == Hook::OnRoute ==> outcome_of(hook, AnswerView::Returned(choice), rejected) == (
        OutcomeView::Called { error: None, choice, rejected }),
        hook != Hook::OnRoute ==> outcome_of(hook, AnswerView::Returned(choice), rejected) == (
        OutcomeView::Called { error: None, choice: None, rejected }),
{
}

/// A run of a hook ends at a plugin exactly if the request then stands rejected,
/// or in `on_route` if the plugin named an upstream. A plugin that is missing,
/// fails or has nothing for the hook does not end it.
pub proof fn law_what_ends_a_run(
    hook: Hook,
    e: Seq<char>,
    error: Option<Seq<char>>,
    choice: Option<Seq<char>>,
    rejected: bool,
)
    ensures
        !stops(hook, OutcomeView::NoSource),
        !stops(hook, OutcomeView::LoadFailed(e)),
        !stops(hook, OutcomeView::NoHook),
        stops(hook, OutcomeView::Called { error, choice, rejected }) <==> rejected || (hook
            == Hook::OnRoute && choice is Some),
{
}

/// A run of a hook goes through the pipeline in its order: it ends only at the end
/// or at a plugin at which it stops, and passes over a plugin exactly if there is
/// no source for it.
pub proof fn law_run_follows_pipeline(
    hook: Hook,
    pipeline: Seq<String>,
    sources: Map<Seq<char>, Seq<char>>,
    trace: Seq<OutcomeView>,
    i: int,
)
    requires
        runs(hook, pipeline, sources, trace),
        0 <= i < trace.len(),
    ensures
        trace.len() <= pipeline.len(),
        trace[i] is NoSource <==> !sources.contains_key(pipeline[i]@),
        stops(hook, trace[i]) ==> i == trace.len() - 1,
        i == trace.len() - 1 && !stops(hook, trace[i]) ==> trace.len() == pipeline.len(),
        trace[i] matches OutcomeView::Called { error, choice, rejected } ==> (choice is Some
            ==> hook == Hook::OnRoute && error is None),
{
}

/// A pipeline with a plugin in it is not passed over: where there is a first
/// plugin, something came of it.
pub proof fn law_run_starts(
    hook: Hook,
    pipeline: Seq<String>,
    sources: Map<Seq<char>, Seq<char>>,
    trace: Seq<OutcomeView>,
)
    requires
        runs(hook, pipeline, sources, trace),
        pipeline.len() > 0,
    ensures
        trace.len() > 0,
{
}

/// A plugin without a source leaves the machine as it was. Of one with a source
/// the script that is run is that source, under the plugin's name; where it fails
/// the plugin comes to no more, and what it failed with is noted.
pub proof fn law_plugin_runs_its_source(
    hook: Hook,
    name: Seq<char>,
    sources: Map<Seq<char>, Seq<char>>,
    ctx: mlua::AnyUserData,
    before: mlua::Lua,
    outcome: OutcomeView,
    after: mlua::Lua,
)
    requires
        plugin_ran(hook, name, sources, ctx, before, outcome, after),
    ensures
        !sources.contains_key(name) ==> after == before && outcome is NoSource,
        sources.contains_key(name) ==> {
            ||| exists|failure: Option<Seq<char>>, fresh: mlua::Lua, loaded: mlua::Lua|
                !machine_globals(fresh).contains_key(hook.name()) && #[trigger] global_dropped(
                    before,
                    hook.name(),
                    None,
                    fresh,
                ) && #[trigger] chunk_ran(fresh, name, sources[name], failure, loaded) && (
                failure matches Some(e) ==> outcome == OutcomeView::LoadFailed(e) && after
                    == loaded) && (failure is None ==> outcome is NoHook || outcome is Called)
            ||| exists|e: Seq<char>| #[trigger]
                global_dropped(before, hook.name(), Some(e), after) && outcome
                    == OutcomeView::LoadFailed(e)
        },
{
    if sources.contains_key(name) {
        let (dropped, fresh) = choose|failure: Option<Seq<char>>, fresh: mlua::Lua|
            #![trigger global_dropped(before, hook.name(), failure, fresh)]
            global_dropped(before, hook.name(), failure, fresh) && match failure {
                Some(e) => outcome == OutcomeView::LoadFailed(e) && after == fresh,
                None => !machine_globals(fresh).contains_key(hook.name()) && script_ran(
                    hook,
                    name,
                    sources[name],
                    ctx,
                    fresh,
                    outcome,
                    after,
                ),
            };
        if let Some(e) = dropped {
            assert(global_dropped(before, hook.name(), Some(e), after));
        } else {
            let (failure, loaded) = choose|failure: Option<Seq<char>>, loaded: mlua::Lua|
                #![trigger chunk_ran(fresh, name, sources[name], failure, loaded)]
                chunk_ran(fresh, name, sources[name], failure, loaded) && match failure {
                    Some(e) => outcome == OutcomeView::LoadFailed(e) && after == loaded,
                    None => hook_ran(hook, ctx, loaded, outcome, after),
                };
            assert(global_dropped(before, hook.name(), None, fresh));
            assert(chunk_ran(fresh, name, sources[name], failure, loaded));
        }
    }
}

/// The upstream that was settled on is the one that the last plugin named; where
/// it named none, the one that a plugin kept in the variable `__upstream__`, and
/// where there is none there either, none.
pub proof fn law_upstream_is_settled(trace: Seq<OutcomeView>, ctx: CtxView, name: Seq<char>)
    ensures
        (trace.len() > 0 && (trace.last() matches OutcomeView::Called { error, choice, rejected }
            && choice == Some(name))) ==> settled_upstream(trace, ctx) == Some(name),
        !(trace.len() > 0 && (trace.last() matches OutcomeView::Called { error, choice, rejected }
            && choice is Some)) ==> {
            &&& settled_upstream(trace, ctx) is Some <==> ctx.vars.contains_key("__upstream__"@)
            &&& settled_upstream(trace, ctx) matches Some(n) ==> n == ctx.vars["__upstream__"@]
        },
{
}

/// A run gives the context as the plugins left it, and tells of the last call
/// whether it stands rejected. Without a source to run it leaves the machine as
/// it was.
pub proof fn law_run_gives_the_context(
    hook: Hook,
    srcs: PluginSources,
    ctx: LuaCtx,
    before: LuaEngine,
    run: HookRun,
    after: LuaEngine,
)
    requires
        ran(hook, srcs, ctx, before, run, after),
    ensures
        run.ctx@ == machine_contexts(after.lua())[ctx.0],
        runs(hook, srcs.pipeline@, srcs.sources@, trace_view(run.trace@)),
        carried_on(before.lua(), after.lua()),
        run.trace@.len() > 0 ==> (run.trace@.last()@ matches OutcomeView::Called {
            error,
            choice,
            rejected,
        } ==> rejected == (run.ctx@.rejected is Some)),
        (forall|i: int|
            0 <= i < srcs.pipeline@.len() ==> !srcs.sources@.contains_key(
                (#[trigger] srcs.pipeline@[i])@,
            )) ==> after.lua() == before.lua(),
{
    if run.trace@.len() > 0 {
        assert(trace_view(run.trace@).last() == run.trace@.last()@);
    }
}

/// Plugins find each function that the library lends under its name, and the
/// environment under `ENV`; every other global is as it was.
pub proof fn law_lent_globals(
    globals: Map<Seq<char>, Slot>,
    env: Seq<(Seq<char>, Seq<char>)>,
    other: Seq<char>,
)
    ensures
        with_lent(globals, env)["json"@] == Slot::Table(
            Map::empty().insert("encode"@, Slot::Function(Builtin::JsonEncode)),
        ),
        with_lent(globals, env)["base64"@] == Slot::Table(
            Map::empty().insert("encode"@, Slot::Function(Builtin::Base64Encode)).insert(
                "decode"@,
                Slot::Function(Builtin::Base64Decode),
            ),
        ),
        with_lent(globals, env)["hmac"@] == Slot::Table(
            Map::empty().insert("sha256"@, Slot::Function(Builtin::HmacSha256)),
        ),
        with_lent(globals, env)["uuid"@] == Slot::Table(
            Map::empty().insert("v4"@, Slot::Function(Builtin::UuidV4)),
        ),
        with_lent(globals, env)["ENV"@] matches Slot::Table(held) && forall|key: Seq<char>|
            {
                &&& #[trigger] held.contains_key(key) <==> pairs_map(env).contains_key(key)
                &&& held.contains_key(key) ==> held[key] == Slot::Text(pairs_map(env)[key])
            },
        other != "json"@ && other != "base64"@ && other != "hmac"@ && other != "uuid"@ && other
            != "ENV"@ ==> {
            &&& with_lent(globals, env).contains_key(other) <==> globals.contains_key(other)
            &&& globals.contains_key(other) ==> with_lent(globals, env)[other] == globals[other]
        },
{
    reveal_strlit("json");
    reveal_strlit("base64");
    reveal_strlit("hmac");
    reveal_strlit("uuid");
    reveal_strlit("ENV");
    assert("json"@[0] != "hmac"@[0]);
    assert("json"@[0] != "uuid"@[0]);
    assert("hmac"@[0] != "uuid"@[0]);
    assert("base64"@.len() == 6 && "ENV"@.len() == 3 && "json"@.len() == 4 && "hmac"@.len() == 4
        && "uuid"@.len() == 4);
}

/// A call of a hook is noted as it went: what came back from the function, and
/// whether the context then stands rejected. Where no function was found the
/// plugin has nothing for the hook.
pub proof fn law_call_is_noted(
    hook: Hook,
    ctx: mlua::AnyUserData,
    before: mlua::Lua,
    outcome: OutcomeView,
    after: mlua::Lua,
)
    requires
        hook_ran(hook, ctx, before, outcome, after),
    ensures
        outcome is NoHook || outcome is Called,
        outcome is NoHook ==> function_found(before, hook.name(), None, after),
        outcome matches OutcomeView::Called { error, choice, rejected } ==> {
            &&& rejected == (machine_contexts(after)[ctx].rejected is Some)
            &&& exists|f: mlua::Function, asked: mlua::Lua, answer: AnswerView|
                #![trigger function_called(asked, f, ctx, hook.asks(), answer, after)]
                function_found(before, hook.name(), Some(f), asked) && function_called(
                    asked,
                    f,
                    ctx,
                    hook.asks(),
                    answer,
                    after,
                ) && match answer {
                    AnswerView::Missing => false,
                    AnswerView::Failed(e) => error == Some(e) && choice is None,
                    AnswerView::Returned(named) => error is None && choice == (if hook
                        == Hook::OnRoute {
                        named
                    } else {
                        None
                    }),
                }
        },
{
    let (found, asked) = choose|found: Option<mlua::Function>, asked: mlua::Lua|
        #![trigger function_found(before, hook.name(), found, asked)]
        function_found(before, hook.name(), found, asked) && match found {
            Some(f) => machine_globals(asked).contains_key(hook.name()) && exists|
                answer: AnswerView,
            |
                #![trigger function_called(asked, f, ctx, hook.asks(), answer, after)]
                function_called(asked, f, ctx, hook.asks(), answer, after) && !(answer is Missing)
                    && outcome == outcome_of(hook, answer, machine_contexts(after)[ctx].rejected is Some),
            None => outcome == outcome_of(hook, AnswerView::Missing, false) && after == asked,
        };
    if let Some(f) = found {
        let answer = choose|answer: AnswerView|
            #![trigger function_called(asked, f, ctx, hook.asks(), answer, after)]
            function_called(asked, f, ctx, hook.asks(), answer, after) && !(answer is Missing)
                && outcome == outcome_of(
                hook,
                answer,
                machine_contexts(after)[ctx].rejected is Some,
            );
        assert(function_called(asked, f, ctx, hook.asks(), answer, after));
    }
}

/// What came of a plugin, and what a function answered, are seen as what they are.
pub proof fn law_outcome_is_seen_whole(outcome: HookOutcome, answer: HookAnswer)
    ensures
        outcome is NoSource <==> outcome@ is NoSource,
        outcome matches HookOutcome::LoadFailed(e) ==> outcome@ == OutcomeView::LoadFailed(e@),
        outcome is NoHook <==> outcome@ is NoHook,
        outcome matches HookOutcome::Called(call) ==> outcome@ == (OutcomeView::Called {
            error: text_view(call.error),
            choice: text_view(call.choice),
            rejected: call.rejected,
        }),
        answer is Missing <==> answer@ is Missing,
        answer matches HookAnswer::Failed(e) ==> answer@ == AnswerView::Failed(e@),
        answer matches HookAnswer::Returned(choice) ==> answer@ == AnswerView::Returned(
            text_view(choice),
        ),
{
}

/// What came of the plugins is seen plugin by plugin.
pub proof fn law_trace_is_seen_whole(trace: Seq<HookOutcome>, i: int)
    requires
        0 <= i < trace.len(),
    ensures
        trace_view(trace).len() == trace.len(),
        trace_view(trace)[i] == trace[i]@,
{
}

} // verus!
