//! The calls into the Lua machine. What a script does is its own affair. What is
//! handed to the machine and what it answers with is kept account of, and what
//! the machine holds is stated as far as no script can change it. A call that may
//! run a script, if only one that is left for the garbage collector to run, takes
//! the machine as `&mut`.

use std::rc::Rc;

use mlua::{UserDataFields, UserDataMethods};
use vstd::prelude::*;
use vstd::string::*;
use vstd::utf8::*;

use super::context::{
    evolved, field_views, law_evolution_goes_on, shown_headers, CtxView, Field, FieldView,
    RequestCtx,
};
use crate::base64::{base64_decode_or_empty, base64_encode};
use crate::digest::hmac_sha256_raw;
use crate::json::{json, json_string, json_text, law_json_words, string_data, LuaData};
use crate::strmap::{pair_views, pairs_map};
use crate::text::{lowercase, signed_decimal};
use crate::uuid::uuid_v4;

verus! {

#[verifier::external_type_specification]
#[verifier::external_body]
pub struct ExLua(mlua::Lua);

#[verifier::external_type_specification]
#[verifier::external_body]
pub struct ExLuaError(mlua::Error);

#[verifier::external_type_specification]
#[verifier::external_body]
pub struct ExLuaTable(mlua::Table);

#[verifier::external_type_specification]
#[verifier::external_body]
pub struct ExLuaFunction(mlua::Function);

#[verifier::external_type_specification]
#[verifier::external_body]
pub struct ExLuaValue(mlua::Value);

#[verifier::external_type_specification]
#[verifier::external_body]
pub struct ExLuaUserData(mlua::AnyUserData);

#[verifier::external_type_specification]
#[verifier::external_body]
#[verifier::reject_recursive_types(T)]
pub struct ExLuaUserDataRegistry<T>(mlua::UserDataRegistry<T>);

#[verifier::external_type_specification]
#[verifier::external_body]
#[verifier::reject_recursive_types(K)]
#[verifier::reject_recursive_types(V)]
pub struct ExLuaTablePairs<'a, K, V>(mlua::TablePairs<'a, K, V>);

/// A function that the library lends to plugins.
pub enum Builtin {
    /// Gives [`lua_value_to_json`] of its argument.
    JsonEncode,
    /// Gives [`base64_encode`] of the bytes of its argument.
    Base64Encode,
    /// Gives [`base64_decode_or_empty`] of its argument.
    Base64Decode,
    /// Gives the bytes of [`hmac_sha256_raw`] of its two arguments.
    HmacSha256,
    /// Gives [`uuid_v4`].
    UuidV4,
}

/// How a plugin means what it logs.
#[derive(Clone, Copy, Debug, PartialEq, Eq)]
pub enum LogLevel {
    Info,
    Warn,
}

/// What a table holds under a name.
pub enum Slot {
    /// A string that is this text in UTF-8.
    Text(Seq<char>),
    Number(u16),
    /// A function that the library lends.
    Function(Builtin),
    /// A function that hands a text to the listener outside, at this level.
    Listener(LogLevel),
    /// A table, and what it holds.
    Table(Map<Seq<char>, Slot>),
    /// Anything else.
    Other,
}

/// What a table holds, by name.
pub uninterp spec fn table_slots(table: mlua::Table) -> Map<Seq<char>, Slot>;

/// Whether no script has come by a table, so that it has no metatable and only
/// its holder changes it.
pub uninterp spec fn is_unseen(table: mlua::Table) -> bool;

/// What the machine holds in its globals, by name.
pub uninterp spec fn machine_globals(lua: mlua::Lua) -> Map<Seq<char>, Slot>;

/// Whether no script has run on the machine yet.
pub uninterp spec fn is_untouched(lua: mlua::Lua) -> bool;

/// What the contexts that were handed to the machine hold.
pub uninterp spec fn machine_contexts(lua: mlua::Lua) -> Map<mlua::AnyUserData, CtxView>;

/// The tables that contexts show to plugins on the machine, in their order.
pub uninterp spec fn described_tables(lua: mlua::Lua) -> Seq<(Seq<char>, CtxTable)>;

/// The methods that contexts offer to plugins on the machine, in their order.
pub uninterp spec fn described_methods(lua: mlua::Lua) -> Seq<(Seq<char>, CtxMethod)>;

/// Which machine a handle is to.
pub uninterp spec fn machine_id(lua: mlua::Lua) -> int;

/// Whether a table is one of that machine.
pub uninterp spec fn table_in(table: mlua::Table, machine: int) -> bool;

/// Whether a function is one of that machine.
pub uninterp spec fn function_in(f: mlua::Function, machine: int) -> bool;

/// Whether a value is one of that machine, or of none.
pub uninterp spec fn value_in(v: mlua::Value, machine: int) -> bool;

/// A table that plugins can read from the context.
pub enum CtxTable {
    Req,
    Res,
    Vars,
}

/// Something that plugins can call on the context.
pub enum CtxMethod {
    Reject,
    SetVar,
    Upstream,
    SetReqHeader,
    SetResHeader,
    SetResStatus,
    GetVar,
    GetReqHeader,
}

/// The tables that plugins can read from the context.
pub open spec fn ctx_table_list() -> Seq<(Seq<char>, CtxTable)> {
    seq![("req"@, CtxTable::Req), ("res"@, CtxTable::Res), ("vars"@, CtxTable::Vars)]
}

/// What plugins can call on the context.
pub open spec fn ctx_method_list() -> Seq<(Seq<char>, CtxMethod)> {
    seq![
        ("reject"@, CtxMethod::Reject),
        ("set_var"@, CtxMethod::SetVar),
        ("upstream"@, CtxMethod::Upstream),
        ("set_req_header"@, CtxMethod::SetReqHeader),
        ("set_res_header"@, CtxMethod::SetResHeader),
        ("set_res_status"@, CtxMethod::SetResStatus),
        ("get_var"@, CtxMethod::GetVar),
        ("get_req_header"@, CtxMethod::GetReqHeader),
    ]
}

/// Plugins on the machine have the whole context, and no more than it.
pub open spec fn is_described(lua: mlua::Lua) -> bool {
    described_tables(lua) == ctx_table_list() && described_methods(lua) == ctx_method_list()
}

/// The machine went from one state to the other, whatever scripts ran in
/// between. It is the same machine with the same description of the context. It
/// still holds every context that it held; where the context is described,
/// each of them was changed in no way but those that plugins have.
pub open spec fn carried_on(before: mlua::Lua, after: mlua::Lua) -> bool {
    &&& machine_id(after) == machine_id(before)
    &&& described_tables(after) == described_tables(before)
    &&& described_methods(after) == described_methods(before)
    &&& machine_contexts(before).dom().subset_of(machine_contexts(after).dom())
    &&& is_described(before) ==> forall|object: mlua::AnyUserData| #[trigger]
        machine_contexts(before).contains_key(object) ==> evolved(
            machine_contexts(before)[object],
            machine_contexts(after)[object],
        )
}

/// The machine went from one state to the other without its globals being
/// changed, unless by a script.
pub open spec fn idle(before: mlua::Lua, after: mlua::Lua) -> bool {
    &&& machine_id(after) == machine_id(before)
    &&& described_tables(after) == described_tables(before)
    &&& described_methods(after) == described_methods(before)
    &&& is_untouched(before) ==> {
        &&& is_untouched(after)
        &&& machine_globals(after) == machine_globals(before)
        &&& machine_contexts(after) == machine_contexts(before)
    }
}

/// A machine that stays as it is carries on.
pub proof fn lemma_stays(lua: mlua::Lua)
    ensures
        carried_on(lua, lua),
{
    assert forall|object: mlua::AnyUserData| #[trigger]
        machine_contexts(lua).contains_key(object) implies evolved(
        machine_contexts(lua)[object],
        machine_contexts(lua)[object],
    ) by {
        let ctx = machine_contexts(lua)[object];
        assert(ctx == ctx.apply_all(seq![]));
    }
}

/// What a machine did first and what it did next is one course.
pub proof fn lemma_carried_on(a: mlua::Lua, b: mlua::Lua, c: mlua::Lua)
    requires
        carried_on(a, b),
        carried_on(b, c),
    ensures
        carried_on(a, c),
{
    assert forall|object: mlua::AnyUserData| #[trigger] machine_contexts(a).contains_key(object)
        && is_described(a) implies evolved(
        machine_contexts(a)[object],
        machine_contexts(c)[object],
    ) by {
        assert(machine_contexts(b).contains_key(object));
        law_evolution_goes_on(
            machine_contexts(a)[object],
            machine_contexts(b)[object],
            machine_contexts(c)[object],
        );
    }
}

/// A table of the machine that no script has come by.
pub open spec fn is_ours(lua: mlua::Lua, table: mlua::Table) -> bool {
    is_unseen(table) && table_in(table, machine_id(lua))
}

/// What the contexts of a machine hold that was handed none.
pub open spec fn no_contexts() -> Map<mlua::AnyUserData, CtxView> {
    Map::empty()
}

/// Calls `mlua::Lua::new`: a machine with the safe part of Lua's library, on
/// which no script has run and to which no context was handed.
#[verifier::external_body]
pub(crate) fn new_machine() -> (r: mlua::Lua)
    ensures
        is_untouched(r),
        machine_contexts(r) == no_contexts(),
{
    mlua::Lua::new()
}

/// What a table holds that has nothing in it.
pub open spec fn no_slots() -> Map<Seq<char>, Slot> {
    Map::empty()
}

/// The tables that a table of ours holds in sequence.
pub uninterp spec fn kept_tables(table: mlua::Table) -> Seq<mlua::Table>;

/// Whether the machine, as it stands, has run out of room for a call.
pub uninterp spec fn ran_out(lua: mlua::Lua) -> bool;

/// The machine made a table, or had no room for it, which took it from one state
/// to the other.
pub uninterp spec fn table_made(before: mlua::Lua, after: mlua::Lua) -> bool;

/// Calls `mlua::Lua::create_table`: a new table with nothing in it, or an error
/// where there is no room for it.
#[verifier::external_body]
pub(crate) fn new_table(lua: &mut mlua::Lua) -> (r: Result<mlua::Table, mlua::Error>)
    ensures
        idle(*old(lua), *final(lua)),
        table_made(*old(lua), *final(lua)),
        r is Err ==> ran_out(*final(lua)),
        r matches Ok(t) ==> kept_tables(t).len() == 0,
        r matches Ok(t) ==> is_unseen(t) && table_in(t, machine_id(*final(lua))),
        r matches Ok(t) ==> table_slots(t) == no_slots(),
{
    lua.create_table()
}

/// Calls `mlua::Table::set` with a string: a table without a metatable then
/// holds it under the key, in place of what was there. It fails where there is
/// no memory for it.
#[verifier::external_body]
pub(crate) fn set_text(
    lua: &mut mlua::Lua,
    table: &mut mlua::Table,
    key: &str,
    value: &str,
) -> (r: Result<(), mlua::Error>)
    requires
        is_ours(*old(lua), *old(table)),
    ensures
        idle(*old(lua), *final(lua)),
        is_ours(*final(lua), *final(table)),
        r is Ok ==> table_slots(*final(table)) == table_slots(*old(table)).insert(
            key@,
            Slot::Text(value@),
        ),
{
    table.set(key, value)
}

/// Calls `mlua::Table::set` with a number, to the same effect.
#[verifier::external_body]
pub(crate) fn set_number(
    lua: &mut mlua::Lua,
    table: &mut mlua::Table,
    key: &str,
    value: u16,
) -> (r: Result<(), mlua::Error>)
    requires
        is_ours(*old(lua), *old(table)),
    ensures
        idle(*old(lua), *final(lua)),
        is_ours(*final(lua), *final(table)),
        r is Ok ==> table_slots(*final(table)) == table_slots(*old(table)).insert(
            key@,
            Slot::Number(value),
        ),
{
    table.set(key, value)
}

/// Calls `mlua::Table::set` with a table, to the same effect.
#[verifier::external_body]
pub(crate) fn set_table(
    lua: &mut mlua::Lua,
    table: &mut mlua::Table,
    key: &str,
    value: mlua::Table,
) -> (r: Result<(), mlua::Error>)
    requires
        is_ours(*old(lua), *old(table)),
        is_ours(*old(lua), value),
    ensures
        idle(*old(lua), *final(lua)),
        is_ours(*final(lua), *final(table)),
        r is Ok ==> table_slots(*final(table)) == table_slots(*old(table)).insert(
            key@,
            Slot::Table(table_slots(value)),
        ),
{
    table.set(key, value)
}

/// Calls `mlua::Lua::globals`, and `mlua::Table::set` on what it gives. The
/// globals of a machine on which no script has run have no metatable, and then
/// hold the table under the name, in place of what was there.
#[verifier::external_body]
pub(crate) fn set_global(lua: &mut mlua::Lua, name: &str, value: mlua::Table) -> (r: Result<
    (),
    mlua::Error,
>)
    requires
        is_ours(*old(lua), value),
    ensures
        machine_id(*final(lua)) == machine_id(*old(lua)),
        described_tables(*final(lua)) == described_tables(*old(lua)),
        described_methods(*final(lua)) == described_methods(*old(lua)),
        is_untouched(*old(lua)) ==> is_untouched(*final(lua)) && machine_contexts(*final(lua))
            == machine_contexts(*old(lua)),
        is_untouched(*old(lua)) && r is Ok ==> machine_globals(*final(lua)) == machine_globals(
            *old(lua),
        ).insert(name@, Slot::Table(table_slots(value))),
{
    lua.globals().set(name, value)
}

/// The table holds the function under the key, in place of what was there.
pub open spec fn lends(
    before: mlua::Table,
    after: mlua::Table,
    key: Seq<char>,
    which: Builtin,
) -> bool {
    table_slots(after) == table_slots(before).insert(key, Slot::Function(which))
}

/// Calls `mlua::Lua::create_function` for `json.encode`, and `mlua::Table::set`.
#[verifier::external_body]
fn set_json_encode(lua: &mut mlua::Lua, table: &mut mlua::Table, key: &str) -> (r: Result<
    (),
    mlua::Error,
>)
    requires
        is_ours(*old(lua), *old(table)),
    ensures
        idle(*old(lua), *final(lua)),
        is_ours(*final(lua), *final(table)),
        r is Ok ==> lends(*old(table), *final(table), key@, Builtin::JsonEncode),
{
    let f = lua.create_function(
        |lua, v: mlua::Value| lua_value_to_json(&mut lua.clone(), &v),
    )?;
    table.set(key, f)
}

/// Calls `mlua::Lua::create_function` for `base64.encode`, and
/// `mlua::Table::set`.
#[verifier::external_body]
fn set_base64_encode(lua: &mut mlua::Lua, table: &mut mlua::Table, key: &str) -> (r: Result<
    (),
    mlua::Error,
>)
    requires
        is_ours(*old(lua), *old(table)),
    ensures
        idle(*old(lua), *final(lua)),
        is_ours(*final(lua), *final(table)),
        r is Ok ==> lends(*old(table), *final(table), key@, Builtin::Base64Encode),
{
    let f = lua.create_function(|_, s: mlua::String| Ok(base64_encode(&s.as_bytes())))?;
    table.set(key, f)
}

/// Calls `mlua::Lua::create_function` for `base64.decode`, and
/// `mlua::Table::set`.
#[verifier::external_body]
fn set_base64_decode(lua: &mut mlua::Lua, table: &mut mlua::Table, key: &str) -> (r: Result<
    (),
    mlua::Error,
>)
    requires
        is_ours(*old(lua), *old(table)),
    ensures
        idle(*old(lua), *final(lua)),
        is_ours(*final(lua), *final(table)),
        r is Ok ==> lends(*old(table), *final(table), key@, Builtin::Base64Decode),
{
    let f = lua.create_function(|_, s: String| Ok(base64_decode_or_empty(s.as_str())))?;
    table.set(key, f)
}

/// Calls `mlua::Lua::create_function` for `hmac.sha256`, and `mlua::Table::set`.
/// The arguments are texts: one that is not UTF-8 is refused with an error.
#[verifier::external_body]
fn set_hmac(lua: &mut mlua::Lua, table: &mut mlua::Table, key: &str) -> (r: Result<
    (),
    mlua::Error,
>)
    requires
        is_ours(*old(lua), *old(table)),
    ensures
        idle(*old(lua), *final(lua)),
        is_ours(*final(lua), *final(table)),
        r is Ok ==> lends(*old(table), *final(table), key@, Builtin::HmacSha256),
{
    let f = lua.create_function(|lua, (msg, secret): (String, String)| {
        lua.create_string(hmac_sha256_raw(msg.as_bytes(), secret.as_bytes()))
    })?;
    table.set(key, f)
}

/// Calls `mlua::Lua::create_function` for `uuid.v4`, and `mlua::Table::set`.
#[verifier::external_body]
fn set_uuid(lua: &mut mlua::Lua, table: &mut mlua::Table, key: &str) -> (r: Result<
    (),
    mlua::Error,
>)
    requires
        is_ours(*old(lua), *old(table)),
    ensures
        idle(*old(lua), *final(lua)),
        is_ours(*final(lua), *final(table)),
        r is Ok ==> lends(*old(table), *final(table), key@, Builtin::UuidV4),
{
    let f = lua.create_function(|_, ()| Ok(uuid_v4()))?;
    table.set(key, f)
}

/// Calls `mlua::Lua::create_function` for a function that hands the level and its
/// argument to the listener, and `mlua::Table::set`.
#[verifier::external_body]
pub(crate) fn set_listener<F: Fn(LogLevel, String) + 'static>(
    lua: &mut mlua::Lua,
    table: &mut mlua::Table,
    key: &str,
    level: LogLevel,
    listener: Rc<F>,
) -> (r: Result<(), mlua::Error>)
    requires
        is_ours(*old(lua), *old(table)),
        forall|text: String| #[trigger] (*listener).requires((level, text)),
    ensures
        idle(*old(lua), *final(lua)),
        is_ours(*final(lua), *final(table)),
        r is Ok ==> table_slots(*final(table)) == table_slots(*old(table)).insert(
            key@,
            Slot::Listener(level),
        ),
{
    let f = lua.create_function(move |_, text: String| Ok(listener(level, text)))?;
    table.set(key, f)
}

/// Makes one of the functions that the library lends to plugins, and puts it
/// into a table.
pub(crate) fn builtin_function(
    lua: &mut mlua::Lua,
    table: &mut mlua::Table,
    key: &str,
    which: &Builtin,
) -> (r: Result<(), mlua::Error>)
    requires
        is_ours(*old(lua), *old(table)),
    ensures
        idle(*old(lua), *final(lua)),
        is_ours(*final(lua), *final(table)),
        r is Ok ==> lends(*old(table), *final(table), key@, *which),
{
    match which {
        Builtin::JsonEncode => set_json_encode(lua, table, key),
        Builtin::Base64Encode => set_base64_encode(lua, table, key),
        Builtin::Base64Decode => set_base64_decode(lua, table, key),
        Builtin::HmacSha256 => set_hmac(lua, table, key),
        Builtin::UuidV4 => set_uuid(lua, table, key),
    }
}

/// What an error says.
pub uninterp spec fn error_words(e: mlua::Error) -> Seq<char>;

/// Writes a `mlua::Error` out with its `Display`: a function of the error alone.
#[verifier::external_body]
pub(crate) fn error_text(e: &mlua::Error) -> (r: String)
    ensures
        r@ == error_words(*e),
{
    e.to_string()
}

/// What a script failed with.
pub open spec fn failure_of(r: Result<(), mlua::Error>) -> Option<Seq<char>> {
    match r {
        Ok(_) => None,
        Err(e) => Some(error_words(e)),
    }
}

/// The machine was asked to drop the global of a name, which took it from one
/// state to the other and failed with this or did not.
pub uninterp spec fn global_dropped(
    before: mlua::Lua,
    name: Seq<char>,
    failure: Option<Seq<char>>,
    after: mlua::Lua,
) -> bool;

/// Calls `mlua::Table::raw_set` on the globals with `nil`: they then hold nothing
/// under the name. It runs no metamethod, and fails where the machine has no room
/// left.
#[verifier::external_body]
pub(crate) fn drop_global(lua: &mut mlua::Lua, name: &str) -> (r: Result<(), mlua::Error>)
    ensures
        carried_on(*old(lua), *final(lua)),
        global_dropped(*old(lua), name@, failure_of(r), *final(lua)),
        r is Ok ==> !machine_globals(*final(lua)).contains_key(name@),
{
    lua.globals().raw_set(name, mlua::Value::Nil)
}

/// The machine was given a script under a name, which took it from one state to
/// the other and failed with this or did not.
pub uninterp spec fn chunk_ran(
    before: mlua::Lua,
    name: Seq<char>,
    src: Seq<char>,
    failure: Option<Seq<char>>,
    after: mlua::Lua,
) -> bool;

/// Calls `mlua::Lua::load`, `mlua::Chunk::set_name` and `mlua::Chunk::exec`:
/// compiles a script and runs it. A script changes contexts through their
/// methods and in no other way, and cannot take them from the machine: their
/// metatable is protected. What comes of the script is its own affair.
#[verifier::external_body]
pub(crate) fn run_chunk(lua: &mut mlua::Lua, name: &str, src: &str) -> (r: Result<
    (),
    mlua::Error,
>)
    ensures
        carried_on(*old(lua), *final(lua)),
        chunk_ran(*old(lua), name@, src@, failure_of(r), *final(lua)),
{
    lua.load(src).set_name(name).exec()
}

/// The machine was asked for the global function of a name, which took it from
/// one state to the other, and gave this.
pub uninterp spec fn function_found(
    before: mlua::Lua,
    name: Seq<char>,
    found: Option<mlua::Function>,
    after: mlua::Lua,
) -> bool;

/// Calls `mlua::Table::raw_get` on the globals: the function that they hold under
/// the name, unless they hold none there. It runs no metamethod. Which function
/// it is, is up to the scripts that have run.
#[verifier::external_body]
pub(crate) fn global_function(lua: &mut mlua::Lua, name: &str) -> (r: Option<mlua::Function>)
    ensures
        carried_on(*old(lua), *final(lua)),
        function_found(*old(lua), name@, r, *final(lua)),
        r matches Some(f) ==> function_in(f, machine_id(*final(lua))),
        r is Some ==> machine_globals(*final(lua)).contains_key(name@),
{
    lua.globals().raw_get::<mlua::Function>(name).ok()
}

/// What came back from the function of a hook.
pub enum AnswerView {
    /// There is no such function.
    Missing,
    /// The function failed.
    Failed(Seq<char>),
    /// The function returned, with a name where it was asked for one and gave it.
    Returned(Option<Seq<char>>),
}

/// The machine called a function with a context, and with nothing else, which
/// took it from one state to the other. It was asked for a name or not, and this
/// came back.
pub uninterp spec fn function_called(
    before: mlua::Lua,
    f: mlua::Function,
    ctx: mlua::AnyUserData,
    asked: bool,
    answer: AnswerView,
    after: mlua::Lua,
) -> bool;

/// The answer of a function that is asked for nothing.
pub open spec fn plain_answer(r: Result<(), mlua::Error>) -> AnswerView {
    match r {
        Ok(_) => AnswerView::Returned(None),
        Err(e) => AnswerView::Failed(error_words(e)),
    }
}

/// The answer of a function that is asked for a name.
pub open spec fn name_answer(r: Result<Option<String>, mlua::Error>) -> AnswerView {
    match r {
        Ok(Some(name)) => AnswerView::Returned(Some(name@)),
        Ok(None) => AnswerView::Returned(None),
        Err(e) => AnswerView::Failed(error_words(e)),
    }
}

/// Calls `mlua::Function::call` for a hook that returns nothing. The function
/// and the context have to be of the machine. What comes of the call is the
/// script's affair.
#[verifier::external_body]
pub(crate) fn call_hook(
    lua: &mut mlua::Lua,
    f: &mlua::Function,
    ctx: &mlua::AnyUserData,
) -> (r: Result<(), mlua::Error>)
    requires
        function_in(*f, machine_id(*old(lua))),
        machine_contexts(*old(lua)).contains_key(*ctx),
    ensures
        carried_on(*old(lua), *final(lua)),
        function_called(*old(lua), *f, *ctx, false, plain_answer(r), *final(lua)),
{
    f.call::<()>(ctx)
}

/// Calls `mlua::Function::call` for a hook that may return a name. The function
/// and the context have to be of the machine. What comes of the call is the
/// script's affair.
#[verifier::external_body]
pub(crate) fn call_route_hook(
    lua: &mut mlua::Lua,
    f: &mlua::Function,
    ctx: &mlua::AnyUserData,
) -> (r: Result<Option<String>, mlua::Error>)
    requires
        function_in(*f, machine_id(*old(lua))),
        machine_contexts(*old(lua)).contains_key(*ctx),
    ensures
        carried_on(*old(lua), *final(lua)),
        function_called(*old(lua), *f, *ctx, true, name_answer(r), *final(lua)),
{
    f.call::<Option<String>>(ctx)
}

/// Calls `mlua::Lua::create_any_userdata`: an object that scripts can hold, with
/// the context in it, or an error where there is no memory for it.
#[verifier::external_body]
pub(crate) fn share_ctx(lua: &mut mlua::Lua, ctx: RequestCtx) -> (r: Result<
    mlua::AnyUserData,
    mlua::Error,
>)
    ensures
        carried_on(*old(lua), *final(lua)),
        r matches Ok(object) ==> {
            &&& machine_contexts(*final(lua)).contains_key(object)
            &&& machine_contexts(*final(lua))[object] == ctx@
        },
{
    lua.create_any_userdata(ctx)
}

/// Calls `mlua::AnyUserData::borrow`: a copy of what the object holds. Of a
/// context of the machine, which no script is at, it does not fail.
#[verifier::external_body]
pub(crate) fn read_ctx(lua: &mlua::Lua, object: &mlua::AnyUserData) -> (r: Result<
    RequestCtx,
    mlua::Error,
>)
    requires
        machine_contexts(*lua).contains_key(*object),
    ensures
        r is Ok,
        r->Ok_0@ == machine_contexts(*lua)[*object],
{
    object.borrow::<RequestCtx>().map(|ctx| ctx.clone())
}

/// Calls `mlua::AnyUserData::borrow_mut`: puts a new value into the object. With
/// a context of the machine, which no script is at, it does not fail.
#[verifier::external_body]
pub(crate) fn write_ctx(
    lua: &mut mlua::Lua,
    object: &mlua::AnyUserData,
    ctx: RequestCtx,
) -> (r: Result<(), mlua::Error>)
    requires
        machine_contexts(*old(lua)).contains_key(*object),
    ensures
        r is Ok,
        machine_contexts(*final(lua)) == machine_contexts(*old(lua)).insert(*object, ctx@),
        machine_id(*final(lua)) == machine_id(*old(lua)),
        described_tables(*final(lua)) == described_tables(*old(lua)),
        described_methods(*final(lua)) == described_methods(*old(lua)),
{
    *object.borrow_mut::<RequestCtx>()? = ctx;
    Ok(())
}

/// What a Lua value is.
pub enum Shape {
    Bytes(Seq<u8>),
    Integer(i64),
    /// A floating-point number, written out.
    Number(Seq<char>),
    Boolean(bool),
    Nil,
    Table(mlua::Table),
    /// An error that a function outside of Lua failed with.
    Failure,
    Other,
}

/// What a Lua value is.
pub uninterp spec fn value_shape(v: mlua::Value) -> Shape;

/// A Lua value, one level deep.
pub(crate) enum LuaNode {
    Bytes(Vec<u8>),
    Integer(i64),
    Number(String),
    Boolean(bool),
    Nil,
    Table(mlua::Table),
    Failure,
    Other,
}

spec fn node_shape(node: LuaNode) -> Shape {
    match node {
        LuaNode::Bytes(bytes) => Shape::Bytes(bytes@),
        LuaNode::Integer(i) => Shape::Integer(i),
        LuaNode::Number(s) => Shape::Number(s@),
        LuaNode::Boolean(b) => Shape::Boolean(b),
        LuaNode::Nil => Shape::Nil,
        LuaNode::Table(t) => Shape::Table(t),
        LuaNode::Failure => Shape::Failure,
        LuaNode::Other => Shape::Other,
    }
}

/// Tells the variants of `mlua::Value` apart. A floating-point number is
/// written out. Which variant a value is, and what it holds, is a function of
/// the value alone; a table is the table that it is, whatever that holds. The
/// value has to be of the machine, which is there.
#[verifier::external_body]
fn node_of(lua: &mlua::Lua, v: &mlua::Value) -> (r: LuaNode)
    requires
        value_in(*v, machine_id(*lua)),
    ensures
        node_shape(r) == value_shape(*v),
        r matches LuaNode::Table(t) ==> table_in(t, machine_id(*lua)),
{
    match v {
        mlua::Value::String(s) => LuaNode::Bytes(s.as_bytes().to_vec()),
        mlua::Value::Integer(i) => LuaNode::Integer(*i),
        mlua::Value::Number(n) => LuaNode::Number(n.to_string()),
        mlua::Value::Boolean(b) => LuaNode::Boolean(*b),
        mlua::Value::Nil => LuaNode::Nil,
        mlua::Value::Table(t) => LuaNode::Table(t.clone()),
        mlua::Value::Error(_) => LuaNode::Failure,
        _ => LuaNode::Other,
    }
}

/// The border of a table as the machine stands: the length of its sequence.
pub uninterp spec fn table_border(lua: mlua::Lua, t: mlua::Table) -> nat;

/// Calls `mlua::Table::raw_len`: the border of the table. It runs no script.
#[verifier::external_body]
fn table_len(lua: &mlua::Lua, t: &mlua::Table) -> (r: usize)
    requires
        table_in(*t, machine_id(*lua)),
    ensures
        r == table_border(*lua, *t),
{
    t.raw_len()
}

/// What a table holds at a position as the machine stands, `nil` where it holds
/// nothing there.
pub uninterp spec fn table_item(lua: mlua::Lua, t: mlua::Table, i: int) -> mlua::Value;

/// The table was asked for a position, which took the machine from one state to
/// the other, and answered with this, or failed.
pub uninterp spec fn item_asked(
    before: mlua::Lua,
    t: mlua::Table,
    i: int,
    got: Option<mlua::Value>,
    after: mlua::Lua,
) -> bool;

/// What a table answered with.
pub open spec fn got_item(r: Result<mlua::Value, mlua::Error>) -> Option<mlua::Value> {
    match r {
        Ok(v) => Some(v),
        Err(_) => None,
    }
}

/// Calls `mlua::Table::get` with a position: what the table holds there. Where
/// it holds nothing, a metamethod may answer in its place. It fails where the
/// metamethod does, or where the machine has no room left.
#[verifier::external_body]
fn table_at(lua: &mut mlua::Lua, t: &mlua::Table, i: usize) -> (r: Result<
    mlua::Value,
    mlua::Error,
>)
    requires
        table_in(*t, machine_id(*old(lua))),
    ensures
        machine_id(*final(lua)) == machine_id(*old(lua)),
        item_asked(*old(lua), *t, i as int, got_item(r), *final(lua)),
        r matches Ok(v) ==> value_in(v, machine_id(*final(lua))),
        r matches Ok(v) ==> {
            value_shape(table_item(*old(lua), *t, i as int)) is Nil || v == table_item(
                *old(lua),
                *t,
                i as int,
            )
        },
{
    t.get::<mlua::Value>(i)
}

/// The keys and values of a table as the machine stands, in the order in which
/// they are walked.
pub uninterp spec fn table_walk(lua: mlua::Lua, t: mlua::Table) -> Seq<(mlua::Value, mlua::Value)>;

/// The machine as it stood when a walk began.
pub uninterp spec fn walk_start(walk: mlua::TablePairs<mlua::Value, mlua::Value>) -> mlua::Lua;

/// What is still to come of a walk, as long as the machine stays as it was.
pub uninterp spec fn walk_rest(walk: mlua::TablePairs<mlua::Value, mlua::Value>) -> Seq<
    (mlua::Value, mlua::Value),
>;

/// The key that a walk gave last, where it gave one.
pub uninterp spec fn walk_key(walk: mlua::TablePairs<mlua::Value, mlua::Value>) -> Option<
    mlua::Value,
>;

/// A walk can go on: the machine stands as it stood when the walk began, and the
/// last key is none that the machine hands out as a copy.
pub open spec fn can_go_on(
    lua: mlua::Lua,
    walk: mlua::TablePairs<mlua::Value, mlua::Value>,
) -> bool {
    &&& walk_start(walk) == lua
    &&& walk_key(walk) matches Some(key) ==> !(value_shape(key) is Failure)
}

/// Calls `mlua::Table::pairs`: a walk over the table, which runs no script.
#[verifier::external_body]
fn start_walk<'a>(lua: &mlua::Lua, t: &'a mlua::Table) -> (r: mlua::TablePairs<
    'a,
    mlua::Value,
    mlua::Value,
>)
    requires
        table_in(*t, machine_id(*lua)),
    ensures
        walk_start(r) == *lua,
        walk_rest(r) == table_walk(*lua, *t),
        walk_key(r) is None,
{
    t.pairs::<mlua::Value, mlua::Value>()
}

/// Calls the `next` of the `mlua::TablePairs`: the next pair. It asks the table
/// for what follows the last key, and does so unprotected, so the table has to
/// be as it was, and the key has to be the one that is in it: of an error
/// `mlua` hands out a copy. It runs no script. It fails where the machine has no
/// room left.
#[verifier::external_body]
fn next_pair(
    lua: &mlua::Lua,
    walk: &mut mlua::TablePairs<mlua::Value, mlua::Value>,
) -> (r: Option<Result<(mlua::Value, mlua::Value), mlua::Error>>)
    requires
        can_go_on(*lua, *old(walk)),
    ensures
        walk_start(*final(walk)) == *lua,
        r is None ==> walk_rest(*old(walk)).len() == 0,
        r matches Some(Err(_)) ==> ran_out(*lua),
        r matches Some(Ok(pair)) ==> {
            &&& walk_rest(*old(walk)).len() > 0
            &&& pair == walk_rest(*old(walk))[0]
            &&& walk_rest(*final(walk)) == walk_rest(*old(walk)).skip(1)
            &&& walk_key(*final(walk)) == Some(pair.0)
            &&& value_in(pair.0, machine_id(*lua))
            &&& value_in(pair.1, machine_id(*lua))
        },
{
    walk.next()
}

/// The most tables that a table of ours is made to hold: fewer than Lua has
/// positions for.
pub const MOST_KEPT: usize = 0x4000_0000;

/// A table of ours that holds the most tables.
pub open spec fn is_full(kept: mlua::Table) -> bool {
    kept_tables(kept).len() >= MOST_KEPT
}

/// Calls `mlua::Table::raw_push`: puts a table behind those that a table of ours
/// holds. It makes nothing new in the machine, and so runs no script. It fails
/// where the machine has no room left.
#[verifier::external_body]
fn keep_table(lua: &mlua::Lua, kept: &mut mlua::Table, t: mlua::Table) -> (r: Result<
    (),
    mlua::Error,
>)
    requires
        is_ours(*lua, *old(kept)),
        table_in(t, machine_id(*lua)),
        !is_full(*old(kept)),
    ensures
        is_ours(*lua, *final(kept)),
        r is Ok ==> kept_tables(*final(kept)) == kept_tables(*old(kept)).push(t),
        r is Err ==> kept_tables(*final(kept)) == kept_tables(*old(kept)) && ran_out(*lua),
{
    kept.raw_push(t)
}

/// Calls `mlua::Table::raw_get` with a position: one of the tables that a table
/// of ours holds. It runs no script. It fails where the machine has no room left.
#[verifier::external_body]
fn kept_table(lua: &mlua::Lua, kept: &mlua::Table, i: usize) -> (r: Result<
    mlua::Table,
    mlua::Error,
>)
    requires
        is_ours(*lua, *kept),
        1 <= i <= kept_tables(*kept).len(),
    ensures
        r matches Ok(t) ==> t == kept_tables(*kept)[i - 1] && table_in(t, machine_id(*lua)),
        r is Err ==> ran_out(*lua),
{
    kept.raw_get::<mlua::Table>(i)
}

/// The tables that a description of the context names, in their order.
pub uninterp spec fn ctx_tables(reg: mlua::UserDataRegistry<RequestCtx>) -> Seq<
    (Seq<char>, CtxTable),
>;

/// The methods that a description of the context names, in their order.
pub uninterp spec fn ctx_methods(reg: mlua::UserDataRegistry<RequestCtx>) -> Seq<
    (Seq<char>, CtxMethod),
>;

/// Calls `mlua::UserDataMethods::add_method_mut` for what steers a request: each
/// call adds one method to the list.
#[verifier::external_body]
fn add_actions(reg: &mut mlua::UserDataRegistry<RequestCtx>)
    ensures
        ctx_tables(*final(reg)) == ctx_tables(*old(reg)),
        ctx_methods(*final(reg)) == ctx_methods(*old(reg)) + seq![
            ("reject"@, CtxMethod::Reject),
            ("set_var"@, CtxMethod::SetVar),
            ("upstream"@, CtxMethod::Upstream),
        ],
{
    reg.add_method_mut("reject", |_, c, (s, m): (u16, String)| Ok(c.reject(s, m)));
    reg.add_method_mut("set_var", |_, c, (k, v): (String, String)| Ok(c.set_var(k, v)));
    reg.add_method_mut("upstream", |_, c, name: String| Ok(c.select_upstream(name)));
}

/// Calls `mlua::UserDataMethods::add_method_mut` for what changes a message:
/// each call adds one method to the list.
#[verifier::external_body]
fn add_setters(reg: &mut mlua::UserDataRegistry<RequestCtx>)
    ensures
        ctx_tables(*final(reg)) == ctx_tables(*old(reg)),
        ctx_methods(*final(reg)) == ctx_methods(*old(reg)) + seq![
            ("set_req_header"@, CtxMethod::SetReqHeader),
            ("set_res_header"@, CtxMethod::SetResHeader),
            ("set_res_status"@, CtxMethod::SetResStatus),
        ],
{
    reg.add_method_mut("set_req_header", |_, c, (k, v): (String, String)| {
        Ok(c.set_req_header(k.as_str(), v))
    });
    reg.add_method_mut("set_res_header", |_, c, (k, v): (String, String)| {
        Ok(c.set_res_header(k.as_str(), v))
    });
    reg.add_method_mut("set_res_status", |_, c, s: u16| Ok(c.set_res_status(s)));
}

/// Calls `mlua::UserDataMethods::add_method` for each thing that a plugin can
/// look up in the context: each call adds one method to the list.
#[verifier::external_body]
fn add_lookups(reg: &mut mlua::UserDataRegistry<RequestCtx>)
    ensures
        ctx_tables(*final(reg)) == ctx_tables(*old(reg)),
        ctx_methods(*final(reg)) == ctx_methods(*old(reg)) + seq![
            ("get_var"@, CtxMethod::GetVar),
            ("get_req_header"@, CtxMethod::GetReqHeader),
        ],
{
    reg.add_method("get_var", |_, c, k: String| Ok(c.get_var(k.as_str())));
    reg.add_method("get_req_header", |_, c, k: String| Ok(c.get_req_header(k.as_str())));
}

/// Calls `mlua::UserDataFields::add_field_method_get` for each table that a
/// plugin can read from the context: each call adds one table to the list.
#[verifier::external_body]
fn add_tables(reg: &mut mlua::UserDataRegistry<RequestCtx>)
    ensures
        ctx_methods(*final(reg)) == ctx_methods(*old(reg)),
        ctx_tables(*final(reg)) == ctx_tables(*old(reg)) + seq![
            ("req"@, CtxTable::Req),
            ("res"@, CtxTable::Res),
            ("vars"@, CtxTable::Vars),
        ],
{
    reg.add_field_method_get("req", |lua, c| req_table(&mut lua.clone(), c));
    reg.add_field_method_get("res", |lua, c| res_table(&mut lua.clone(), c));
    reg.add_field_method_get("vars", |lua, c| vars_table(&mut lua.clone(), c));
}

/// Calls `mlua::UserDataFields::add_meta_field` for the name that plugins see of
/// the type. Nothing is promised of the name.
#[verifier::external_body]
fn name_type(reg: &mut mlua::UserDataRegistry<RequestCtx>)
    ensures
        ctx_tables(*final(reg)) == ctx_tables(*old(reg)),
        ctx_methods(*final(reg)) == ctx_methods(*old(reg)),
{
    reg.add_meta_field(mlua::MetaMethod::Type, "LuaCtx")
}

/// Describes the context to the machine.
fn describe_ctx(reg: &mut mlua::UserDataRegistry<RequestCtx>)
    ensures
        ctx_tables(*final(reg)) == ctx_tables(*old(reg)) + ctx_table_list(),
        ctx_methods(*final(reg)) == ctx_methods(*old(reg)) + ctx_method_list(),
{
    name_type(reg);
    add_tables(reg);
    add_actions(reg);
    add_setters(reg);
    add_lookups(reg);
}

/// Calls `mlua::Lua::register_userdata_type` for the context: it hands
/// [`describe_ctx`] an empty description, and every context that is handed to the
/// machine from then on is as that describes it. A context that was handed to it
/// before would stay as it was, so there has to be none. It does not fail, and
/// on a machine on which no script has run there is none that it could run.
#[verifier::external_body]
pub(crate) fn register_ctx(lua: &mut mlua::Lua) -> (r: Result<(), mlua::Error>)
    requires
        is_untouched(*old(lua)),
        machine_contexts(*old(lua)) == no_contexts(),
    ensures
        r is Ok,
        is_described(*final(lua)),
        machine_id(*final(lua)) == machine_id(*old(lua)),
        is_untouched(*final(lua)),
        machine_contexts(*final(lua)) == no_contexts(),
        machine_globals(*final(lua)) == machine_globals(*old(lua)),
{
    lua.register_userdata_type::<RequestCtx>(|reg| describe_ctx(reg))
}

/// What a table holds that has these texts.
pub open spec fn text_slots(texts: Map<Seq<char>, Seq<char>>) -> Map<Seq<char>, Slot> {
    texts.map_values(|text: Seq<char>| Slot::Text(text))
}

/// Makes a table of texts: a later pair replaces an earlier one with the same
/// key.
pub(crate) fn pairs_table(lua: &mut mlua::Lua, pairs: &Vec<(String, String)>) -> (r: Result<
    mlua::Table,
    mlua::Error,
>)
    ensures
        idle(*old(lua), *final(lua)),
        r matches Ok(t) ==> is_ours(*final(lua), t) && table_slots(t) == text_slots(
            pairs_map(pair_views(pairs@)),
        ),
{
    let mut table = new_table(lua)?;
    let ghost all = pair_views(pairs@);
    let mut i: usize = 0;
    assert(table_slots(table) =~= text_slots(pairs_map(all.take(0))));
    while i < pairs.len()
        invariant
            i <= pairs.len(),
            all == pair_views(pairs@),
            idle(*old(lua), *lua),
            is_ours(*lua, table),
            table_slots(table) == text_slots(pairs_map(all.take(i as int))),
        decreases pairs.len() - i,
    {
        set_text(lua, &mut table, pairs[i].0.as_str(), pairs[i].1.as_str())?;
        assert(all.take(i + 1).drop_last() =~= all.take(i as int));
        assert(table_slots(table) =~= text_slots(pairs_map(all.take(i + 1))));
        i += 1;
    }
    assert(all.take(i as int) =~= all);
    Ok(table)
}

/// What a table holds for a field.
pub open spec fn field_slot(field: FieldView) -> Slot {
    match field {
        FieldView::Text(text) => Slot::Text(text),
        FieldView::Number(n) => Slot::Number(n),
        FieldView::Pairs(pairs) => Slot::Table(text_slots(pairs_map(pairs))),
    }
}

/// What a table holds that has these fields.
pub open spec fn field_slots(fields: Seq<(Seq<char>, FieldView)>) -> Map<Seq<char>, Slot>
    decreases fields.len(),
{
    if fields.len() == 0 {
        Map::empty()
    } else {
        field_slots(fields.drop_last()).insert(fields.last().0, field_slot(fields.last().1))
    }
}

fn fields_table(lua: &mut mlua::Lua, fields: &Vec<(&'static str, Field)>) -> (r: Result<
    mlua::Table,
    mlua::Error,
>)
    ensures
        idle(*old(lua), *final(lua)),
        r matches Ok(t) ==> is_ours(*final(lua), t) && table_slots(t) == field_slots(field_views(fields@)),
{
    let mut table = new_table(lua)?;
    let ghost all = field_views(fields@);
    let mut i: usize = 0;
    while i < fields.len()
        invariant
            i <= fields.len(),
            all == field_views(fields@),
            idle(*old(lua), *lua),
            is_ours(*lua, table),
            table_slots(table) == field_slots(all.take(i as int)),
        decreases fields.len() - i,
    {
        let name = fields[i].0;
        match &fields[i].1 {
            Field::Text(text) => set_text(lua, &mut table, name, text.as_str())?,
            Field::Number(n) => set_number(lua, &mut table, name, *n)?,
            Field::Pairs(pairs) => {
                let inner = pairs_table(lua, pairs)?;
                set_table(lua, &mut table, name, inner)?
            },
        }
        assert(all[i as int] == (fields@[i as int].0@, fields@[i as int].1@));
        assert(all.take(i + 1).drop_last() =~= all.take(i as int));
        i += 1;
    }
    assert(all.take(i as int) =~= all);
    Ok(table)
}

/// What `ctx.req` holds.
pub open spec fn req_slots(ctx: RequestCtx) -> Map<Seq<char>, Slot> {
    Map::empty().insert("method"@, Slot::Text(ctx@.method)).insert(
        "path"@,
        Slot::Text(ctx@.path),
    ).insert("body"@, Slot::Text(ctx@.body)).insert("ip"@, Slot::Text(ctx@.ip)).insert(
        "headers"@,
        Slot::Table(text_slots(pairs_map(shown_headers(ctx.req_headers.entries())))),
    )
}

/// Builds `ctx.req`.
fn req_table(lua: &mut mlua::Lua, ctx: &RequestCtx) -> (r: Result<mlua::Table, mlua::Error>)
    ensures
        idle(*old(lua), *final(lua)),
        r matches Ok(t) ==> is_ours(*final(lua), t) && table_slots(t) == req_slots(*ctx),
{
    let fields = ctx.req_fields();
    proof {
        reveal_with_fuel(field_slots, 6);
        let views = field_views(fields@);
        assert(views.drop_last().drop_last().drop_last().drop_last().drop_last() =~= seq![]);
        assert(field_slots(views) =~= req_slots(*ctx));
    }
    fields_table(lua, &fields)
}

/// What `ctx.res` holds.
pub open spec fn res_slots(ctx: RequestCtx) -> Map<Seq<char>, Slot> {
    Map::empty().insert("status"@, Slot::Number(ctx@.res_status)).insert(
        "body"@,
        Slot::Text(ctx@.res_body),
    ).insert(
        "headers"@,
        Slot::Table(text_slots(pairs_map(shown_headers(ctx.res_headers.entries())))),
    )
}

/// Builds `ctx.res`.
fn res_table(lua: &mut mlua::Lua, ctx: &RequestCtx) -> (r: Result<mlua::Table, mlua::Error>)
    ensures
        idle(*old(lua), *final(lua)),
        r matches Ok(t) ==> is_ours(*final(lua), t) && table_slots(t) == res_slots(*ctx),
{
    let fields = ctx.res_fields();
    proof {
        reveal_with_fuel(field_slots, 4);
        let views = field_views(fields@);
        assert(views.drop_last().drop_last().drop_last() =~= seq![]);
        assert(field_slots(views) =~= res_slots(*ctx));
    }
    fields_table(lua, &fields)
}

/// Builds `ctx.vars`.
fn vars_table(lua: &mut mlua::Lua, ctx: &RequestCtx) -> (r: Result<mlua::Table, mlua::Error>)
    ensures
        idle(*old(lua), *final(lua)),
        r matches Ok(t) ==> is_ours(*final(lua), t) && table_slots(t) == text_slots(ctx@.vars),
{
    let mut table = new_table(lua)?;
    let n = ctx.vars.len();
    let ghost all = ctx.vars.entries();
    let mut i: usize = 0;
    assert(table_slots(table) =~= text_slots(pairs_map(all.take(0))));
    while i < n
        invariant
            i <= n,
            n == ctx.vars.entries().len(),
            all == ctx.vars.entries(),
            idle(*old(lua), *lua),
            is_ours(*lua, table),
            table_slots(table) == text_slots(pairs_map(all.take(i as int))),
        decreases n - i,
    {
        let (key, value) = ctx.vars.entry(i);
        set_text(lua, &mut table, key, value)?;
        assert(all.take(i + 1).drop_last() =~= all.take(i as int));
        assert(table_slots(table) =~= text_slots(pairs_map(all.take(i + 1))));
        i += 1;
    }
    assert(all.take(i as int) =~= all);
    Ok(table)
}

/// A step of reading an array: the table was asked for the position, and where
/// it holds something there, answered with that or failed.
pub open spec fn item_step(
    before: mlua::Lua,
    t: mlua::Table,
    i: int,
    got: Option<mlua::Value>,
    after: mlua::Lua,
) -> bool {
    &&& item_asked(before, t, i, got, after)
    &&& got matches Some(v) ==> value_shape(table_item(before, t, i)) is Nil || v == table_item(
        before,
        t,
        i,
    )
}

/// This is the picture of a value that is no table.
pub open spec fn shows(shape: Shape, d: LuaData) -> bool {
    match shape {
        Shape::Bytes(bytes) => if valid_utf8(bytes) {
            d matches LuaData::Text(s) && s@ == decode_utf8(bytes)
        } else {
            d is Binary
        },
        Shape::Integer(i) => d == LuaData::Integer(i),
        Shape::Number(text) => d matches LuaData::Number(s) && s@ == text,
        Shape::Boolean(b) => d == LuaData::Boolean(b),
        Shape::Nil => d is Nil,
        Shape::Table(_) => false,
        Shape::Failure => d is Other,
        Shape::Other => d is Other,
    }
}

/// Reading a value took the machine from one state to the other and gave this
/// picture of it, down to `depth` levels of tables. A table with a border above
/// zero is pictured by its items, and any other by its pairs.
pub open spec fn pictures(
    before: mlua::Lua,
    shape: Shape,
    depth: nat,
    d: LuaData,
    after: mlua::Lua,
) -> bool
    decreases depth, 0nat,
{
    match shape {
        Shape::Table(t) => if depth == 0 {
            after == before && d is Other
        } else if table_border(before, t) > 0 {
            d matches LuaData::Array(items) && items_read(
                before,
                t,
                table_border(before, t),
                (depth - 1) as nat,
                items@,
                after,
            )
        } else {
            d matches LuaData::Table(pairs) && walk_read(
                before,
                t,
                (depth - 1) as nat,
                pairs@,
                after,
            )
        },
        _ => after == before && shows(shape, d),
    }
}

/// The first `n` positions of a table were read one after the other, and these
/// are the pictures of what it answered with. A position that it failed at is
/// left out.
pub open spec fn items_read(
    before: mlua::Lua,
    t: mlua::Table,
    n: nat,
    depth: nat,
    items: Seq<LuaData>,
    after: mlua::Lua,
) -> bool
    decreases depth, n + 1,
{
    if n == 0 {
        after == before && items.len() == 0
    } else {
        exists|mid: mlua::Lua, got: Option<mlua::Value>, asked: mlua::Lua|
            #![trigger item_step(mid, t, n as int, got, asked)]
            item_step(mid, t, n as int, got, asked) && match got {
                Some(v) => items.len() > 0 && items_read(
                    before,
                    t,
                    (n - 1) as nat,
                    depth,
                    items.drop_last(),
                    mid,
                ) && pictures(asked, value_shape(v), depth, items.last(), after),
                None => items_read(before, t, (n - 1) as nat, depth, items, mid) && after == asked,
            }
    }
}

proof fn lemma_items_len(
    before: mlua::Lua,
    t: mlua::Table,
    n: nat,
    depth: nat,
    items: Seq<LuaData>,
    after: mlua::Lua,
)
    requires
        items_read(before, t, n, depth, items, after),
    ensures
        items.len() <= n,
    decreases n,
{
    if n > 0 {
        let (mid, got, asked) = choose|
            mid: mlua::Lua,
            got: Option<mlua::Value>,
            asked: mlua::Lua,
        |
            #![trigger item_step(mid, t, n as int, got, asked)]
            item_step(mid, t, n as int, got, asked) && match got {
                Some(v) => items.len() > 0 && items_read(
                    before,
                    t,
                    (n - 1) as nat,
                    depth,
                    items.drop_last(),
                    mid,
                ) && pictures(asked, value_shape(v), depth, items.last(), after),
                None => items_read(before, t, (n - 1) as nat, depth, items, mid) && after == asked,
            };
        match got {
            Some(v) => lemma_items_len(before, t, (n - 1) as nat, depth, items.drop_last(), mid),
            None => lemma_items_len(before, t, (n - 1) as nat, depth, items, mid),
        }
    }
}

/// Where the table failed at no position, each item is the picture of what it
/// answered with at the item's own position.
pub proof fn law_items_in_order(
    before: mlua::Lua,
    t: mlua::Table,
    n: nat,
    depth: nat,
    items: Seq<LuaData>,
    after: mlua::Lua,
    at: int,
)
    requires
        items_read(before, t, n, depth, items, after),
        items.len() == n,
        1 <= at <= n,
    ensures
        exists|mid: mlua::Lua, v: mlua::Value, asked: mlua::Lua, read: mlua::Lua|
            #![trigger item_step(mid, t, at, Some(v), asked), passed(asked, read)]
            item_step(mid, t, at, Some(v), asked) && passed(asked, read) && pictures(
                asked,
                value_shape(v),
                depth,
                items[at - 1],
                read,
            ),
    decreases n,
{
    let (mid, got, asked) = choose|mid: mlua::Lua, got: Option<mlua::Value>, asked: mlua::Lua|
        #![trigger item_step(mid, t, n as int, got, asked)]
        item_step(mid, t, n as int, got, asked) && match got {
            Some(v) => items.len() > 0 && items_read(
                before,
                t,
                (n - 1) as nat,
                depth,
                items.drop_last(),
                mid,
            ) && pictures(asked, value_shape(v), depth, items.last(), after),
            None => items_read(before, t, (n - 1) as nat, depth, items, mid) && after == asked,
        };
    match got {
        Some(v) => {
            if at == n {
                assert(passed(asked, after));
            } else {
                law_items_in_order(before, t, (n - 1) as nat, depth, items.drop_last(), mid, at);
            }
        },
        None => lemma_items_len(before, t, (n - 1) as nat, depth, items, mid),
    }
}

/// Keys and values were read one after the other, each key before its value, and
/// these are their pictures.
pub open spec fn pairs_read(
    before: mlua::Lua,
    found: Seq<(mlua::Value, mlua::Value)>,
    depth: nat,
    pairs: Seq<(LuaData, LuaData)>,
    after: mlua::Lua,
) -> bool
    decreases depth, found.len() + 1,
{
    if found.len() == 0 {
        after == before && pairs.len() == 0
    } else {
        exists|mid: mlua::Lua, named: mlua::Lua| #[trigger]
            passed(mid, named) && pairs.len() > 0 && pairs_read(
                before,
                found.drop_last(),
                depth,
                pairs.drop_last(),
                mid,
            ) && pictures(mid, value_shape(found.last().0), depth, pairs.last().0, named)
                && pictures(named, value_shape(found.last().1), depth, pairs.last().1, after)
    }
}

/// The machine came through these states, which can be any.
pub open spec fn passed(first: mlua::Lua, next: mlua::Lua) -> bool {
    true
}

/// There was no room on that machine, or among the tables that are kept.
pub open spec fn cut_short(machine: int) -> bool {
    ||| exists|lua: mlua::Lua| machine_id(lua) == machine && #[trigger] ran_out(lua)
    ||| exists|kept: mlua::Table| table_in(kept, machine) && #[trigger] is_full(kept)
}

/// A walk over a table found these pairs: all that the table has, in their order.
/// It ends early only behind a key that is an error, or where there was no room.
pub open spec fn walk_found(
    lua: mlua::Lua,
    t: mlua::Table,
    found: Seq<(mlua::Value, mlua::Value)>,
) -> bool {
    &&& found.len() <= table_walk(lua, t).len()
    &&& found == table_walk(lua, t).take(found.len() as int)
    &&& found.len() == table_walk(lua, t).len() || (found.len() > 0 && value_shape(
        found.last().0,
    ) is Failure) || cut_short(machine_id(lua))
}

/// A table was walked while the machine stood still, and then what was found was
/// read: these are the pictures of its keys and values.
pub open spec fn walk_read(
    before: mlua::Lua,
    t: mlua::Table,
    depth: nat,
    pairs: Seq<(LuaData, LuaData)>,
    after: mlua::Lua,
) -> bool
    decreases depth, table_walk(before, t).len() + 2,
{
    exists|found: Seq<(mlua::Value, mlua::Value)>| #[trigger]
        walk_found(before, t, found) && pairs_read(before, found, depth, pairs, after)
}

/// What a walk found of a key or a value.
enum Part {
    /// The picture of what is no table.
    Plain(LuaData),
    /// A table, by its position among those that are kept.
    Kept(usize),
}

/// A part stands for a value.
spec fn stands_for(part: Part, kept: Seq<mlua::Table>, shape: Shape) -> bool {
    match part {
        Part::Plain(d) => shows(shape, d),
        Part::Kept(i) => 1 <= i <= kept.len() && shape == Shape::Table(kept[i - 1]),
    }
}

/// Parts stand for keys and values.
spec fn stand_for(
    parts: Seq<(Part, Part)>,
    kept: Seq<mlua::Table>,
    found: Seq<(mlua::Value, mlua::Value)>,
) -> bool {
    &&& parts.len() == found.len()
    &&& forall|i: int|
        0 <= i < parts.len() ==> stands_for(
            (#[trigger] parts[i]).0,
            kept,
            value_shape(found[i].0),
        ) && stands_for(parts[i].1, kept, value_shape(found[i].1))
}

/// Those that were kept before are still kept, in their places.
pub open spec fn keeps_on(before: Seq<mlua::Table>, after: Seq<mlua::Table>) -> bool {
    before.len() <= after.len() && before =~= after.take(before.len() as int)
}

proof fn lemma_read(
    before: mlua::Lua,
    shape: Shape,
    data: Result<LuaData, mlua::Table>,
    depth: nat,
    r: LuaData,
    after: mlua::Lua,
)
    requires
        match data {
            Ok(d) => shows(shape, d) && r == d && after == before,
            Err(t) => shape == Shape::Table(t) && pictures(before, shape, depth, r, after),
        },
    ensures
        pictures(before, shape, depth, r, after),
{
}

proof fn lemma_keeps_on(a: Seq<mlua::Table>, b: Seq<mlua::Table>, c: Seq<mlua::Table>)
    requires
        keeps_on(a, b),
        keeps_on(b, c),
    ensures
        keeps_on(a, c),
{
    assert(c.take(a.len() as int) =~= c.take(b.len() as int).take(a.len() as int));
}

proof fn lemma_stands_for(
    part: Part,
    before: Seq<mlua::Table>,
    after: Seq<mlua::Table>,
    shape: Shape,
)
    requires
        keeps_on(before, after),
        stands_for(part, before, shape),
    ensures
        stands_for(part, after, shape),
{
    if let Part::Kept(i) = part {
        assert(before[i - 1] == after.take(before.len() as int)[i - 1]);
    }
}

proof fn lemma_stand_for(
    parts: Seq<(Part, Part)>,
    before: Seq<mlua::Table>,
    after: Seq<mlua::Table>,
    found: Seq<(mlua::Value, mlua::Value)>,
)
    requires
        keeps_on(before, after),
        stand_for(parts, before, found),
    ensures
        stand_for(parts, after, found),
{
    assert forall|i: int| 0 <= i < parts.len() implies stands_for(
        (#[trigger] parts[i]).0,
        after,
        value_shape(found[i].0),
    ) && stands_for(parts[i].1, after, value_shape(found[i].1)) by {
        lemma_stands_for(parts[i].0, before, after, value_shape(found[i].0));
        lemma_stands_for(parts[i].1, before, after, value_shape(found[i].1));
    }
}

/// Tells whether a value is an error.
fn is_failure(lua: &mlua::Lua, v: &mlua::Value) -> (r: bool)
    requires
        value_in(*v, machine_id(*lua)),
    ensures
        r == (value_shape(*v) is Failure),
{
    match node_of(lua, v) {
        LuaNode::Failure => true,
        _ => false,
    }
}

/// The picture of a value that is no table, or the table.
fn plain_data(node: LuaNode) -> (r: Result<LuaData, mlua::Table>)
    ensures
        match r {
            Ok(d) => shows(node_shape(node), d),
            Err(t) => node_shape(node) == Shape::Table(t),
        },
{
    match node {
        LuaNode::Bytes(bytes) => Ok(string_data(bytes)),
        LuaNode::Integer(i) => Ok(LuaData::Integer(i)),
        LuaNode::Number(s) => Ok(LuaData::Number(s)),
        LuaNode::Boolean(b) => Ok(LuaData::Boolean(b)),
        LuaNode::Nil => Ok(LuaData::Nil),
        LuaNode::Table(t) => Err(t),
        LuaNode::Failure => Ok(LuaData::Other),
        LuaNode::Other => Ok(LuaData::Other),
    }
}

/// Takes down what a walk found, while the machine stands still.
fn take_down(lua: &mlua::Lua, v: &mlua::Value, kept: &mut mlua::Table, n: &mut usize) -> (r:
    Option<Part>)
    requires
        value_in(*v, machine_id(*lua)),
        is_ours(*lua, *old(kept)),
        *old(n) == kept_tables(*old(kept)).len(),
    ensures
        is_ours(*lua, *final(kept)),
        *final(n) == kept_tables(*final(kept)).len(),
        keeps_on(kept_tables(*old(kept)), kept_tables(*final(kept))),
        match r {
            Some(part) => stands_for(part, kept_tables(*final(kept)), value_shape(*v)),
            None => cut_short(machine_id(*lua)),
        },
{
    match plain_data(node_of(lua, v)) {
        Ok(d) => Some(Part::Plain(d)),
        Err(t) => {
            if *n >= MOST_KEPT {
                assert(is_full(*kept));
                return None;
            }
            match keep_table(lua, kept, t) {
                Ok(_) => {
                    *n += 1;
                    Some(Part::Kept(*n))
                },
                Err(_) => None,
            }
        },
    }
}

/// A part for reading: its picture, or the table that is kept.
fn take_up(lua: &mlua::Lua, part: Part, kept: &mlua::Table) -> (r: Option<
    Result<LuaData, mlua::Table>,
>)
    requires
        is_ours(*lua, *kept),
        part matches Part::Kept(i) ==> 1 <= i <= kept_tables(*kept).len(),
    ensures
        match r {
            Some(Ok(d)) => part == Part::Plain(d),
            Some(Err(t)) => (part matches Part::Kept(i) && t == kept_tables(*kept)[i - 1])
                && table_in(t, machine_id(*lua)),
            None => cut_short(machine_id(*lua)),
        },
{
    match part {
        Part::Plain(d) => Some(Ok(d)),
        Part::Kept(i) => match kept_table(lua, kept, i) {
            Ok(t) => Some(Err(t)),
            Err(_) => None,
        },
    }
}

/// Reads a Lua value of the machine, which is a picture already or a table, and
/// the tables inside it, at most `depth` levels down.
fn read_data(
    lua: &mut mlua::Lua,
    data: Result<LuaData, mlua::Table>,
    depth: u64,
    kept: &mut mlua::Table,
    n: &mut usize,
) -> (r: LuaData)
    requires
        data matches Err(t) ==> table_in(t, machine_id(*old(lua))),
        is_ours(*old(lua), *old(kept)),
        *old(n) == kept_tables(*old(kept)).len(),
    ensures
        machine_id(*final(lua)) == machine_id(*old(lua)),
        is_ours(*final(lua), *final(kept)),
        *final(n) == kept_tables(*final(kept)).len(),
        keeps_on(kept_tables(*old(kept)), kept_tables(*final(kept))),
        match data {
            Ok(d) => r == d && *final(lua) == *old(lua),
            Err(t) => pictures(*old(lua), Shape::Table(t), depth as nat, r, *final(lua)),
        },
    decreases depth, 0nat,
{
    match data {
        Ok(d) => d,
        Err(t) => {
            if depth == 0 {
                return LuaData::Other;
            }
            let border = table_len(lua, &t);
            if border > 0 {
                LuaData::Array(read_items(lua, &t, border, depth - 1, kept, n))
            } else {
                LuaData::Table(read_pairs(lua, &t, depth - 1, kept, n))
            }
        },
    }
}

fn read_items(
    lua: &mut mlua::Lua,
    t: &mlua::Table,
    border: usize,
    depth: u64,
    kept: &mut mlua::Table,
    n: &mut usize,
) -> (r: Vec<LuaData>)
    requires
        table_in(*t, machine_id(*old(lua))),
        is_ours(*old(lua), *old(kept)),
        *old(n) == kept_tables(*old(kept)).len(),
    ensures
        machine_id(*final(lua)) == machine_id(*old(lua)),
        is_ours(*final(lua), *final(kept)),
        *final(n) == kept_tables(*final(kept)).len(),
        keeps_on(kept_tables(*old(kept)), kept_tables(*final(kept))),
        items_read(*old(lua), *t, border as nat, depth as nat, r@, *final(lua)),
    decreases depth, 1nat,
{
    let mut items: Vec<LuaData> = Vec::new();
    let mut i: usize = 0;
    while i < border
        invariant
            i <= border,
            machine_id(*lua) == machine_id(*old(lua)),
            table_in(*t, machine_id(*old(lua))),
            is_ours(*lua, *kept),
            *n == kept_tables(*kept).len(),
            keeps_on(kept_tables(*old(kept)), kept_tables(*kept)),
            items_read(*old(lua), *t, i as nat, depth as nat, items@, *lua),
        decreases border - i,
    {
        i += 1;
        let ghost mid = *lua;
        let ghost before = items@;
        let ghost so_far = kept_tables(*kept);
        let answer = table_at(lua, t, i);
        let ghost asked = *lua;
        let ghost got = got_item(answer);
        assert(item_step(mid, *t, i as int, got, asked));
        if let Ok(item) = answer {
            let data = plain_data(node_of(lua, &item));
            items.push(read_data(lua, data, depth, kept, n));
            assert(items@.drop_last() =~= before);
            proof {
                lemma_keeps_on(kept_tables(*old(kept)), so_far, kept_tables(*kept));
                lemma_read(asked, value_shape(item), data, depth as nat, items@.last(), *lua);
            }
        }
    }
    items
}

/// Walks a table while the machine stands still: what is found of its keys and
/// values.
fn walk_pairs(lua: &mlua::Lua, t: &mlua::Table, kept: &mut mlua::Table, n: &mut usize) -> (r: (
    Vec<(Part, Part)>,
    Ghost<Seq<(mlua::Value, mlua::Value)>>,
))
    requires
        table_in(*t, machine_id(*lua)),
        is_ours(*lua, *old(kept)),
        *old(n) == kept_tables(*old(kept)).len(),
    ensures
        is_ours(*lua, *final(kept)),
        *final(n) == kept_tables(*final(kept)).len(),
        keeps_on(kept_tables(*old(kept)), kept_tables(*final(kept))),
        walk_found(*lua, *t, r.1@),
        r.0@.len() == r.1@.len(),
        stand_for(r.0@, kept_tables(*final(kept)), r.1@),
{
    let mut parts: Vec<(Part, Part)> = Vec::new();
    let mut walk = start_walk(lua, t);
    let ghost all = table_walk(*lua, *t);
    let ghost first = kept_tables(*kept);
    assert(all.skip(0) =~= all);
    loop
        invariant
            first == kept_tables(*old(kept)),
            all == table_walk(*lua, *t),
            is_ours(*lua, *kept),
            *n == kept_tables(*kept).len(),
            keeps_on(first, kept_tables(*kept)),
            parts.len() <= all.len(),
            can_go_on(*lua, walk),
            walk_rest(walk) == all.skip(parts.len() as int),
            stand_for(parts@, kept_tables(*kept), all.take(parts.len() as int)),
        decreases walk_rest(walk).len(),
    {
        let ghost found = all.take(parts.len() as int);
        let (key, value) = match next_pair(lua, &mut walk) {
            Some(Ok(pair)) => pair,
            Some(Err(_)) => {
                assert(ran_out(*lua));
                return (parts, Ghost(found));
            },
            None => {
                return (parts, Ghost(found));
            },
        };
        let ghost so_far = kept_tables(*kept);
        let name = take_down(lua, &key, kept, n);
        let ghost named = kept_tables(*kept);
        let data = take_down(lua, &value, kept, n);
        let ghost now = kept_tables(*kept);
        proof {
            lemma_keeps_on(first, so_far, named);
            lemma_keeps_on(first, named, now);
            lemma_keeps_on(so_far, named, now);
            lemma_stand_for(parts@, so_far, now, found);
        }
        match (name, data) {
            (Some(name), Some(data)) => {
                let ghost k = parts.len() as int;
                parts.push((name, data));
                let last = is_failure(lua, &key);
                proof {
                    lemma_stands_for(name, named, now, value_shape(key));
                    assert(all.skip(k)[0] == all[k]);
                    assert(all.skip(k).skip(1) =~= all.skip(k + 1));
                    assert(all.take(k + 1) =~= found.push((key, value)));
                }
                if last {
                    return (parts, Ghost(all.take(k + 1)));
                }
            },
            _ => {
                return (parts, Ghost(found));
            },
        }
    }
}

fn read_pairs(
    lua: &mut mlua::Lua,
    t: &mlua::Table,
    depth: u64,
    kept: &mut mlua::Table,
    n: &mut usize,
) -> (r: Vec<(LuaData, LuaData)>)
    requires
        table_in(*t, machine_id(*old(lua))),
        is_ours(*old(lua), *old(kept)),
        *old(n) == kept_tables(*old(kept)).len(),
    ensures
        machine_id(*final(lua)) == machine_id(*old(lua)),
        is_ours(*final(lua), *final(kept)),
        *final(n) == kept_tables(*final(kept)).len(),
        keeps_on(kept_tables(*old(kept)), kept_tables(*final(kept))),
        walk_read(*old(lua), *t, depth as nat, r@, *final(lua)),
    decreases depth, 1nat,
{
    let mut pairs: Vec<(LuaData, LuaData)> = Vec::new();
    let (parts, Ghost(found)) = walk_pairs(lua, t, kept, n);
    let ghost all = parts@;
    proof {
        assert(found.take(0) =~= seq![]);
    }
    for part in it: parts.into_iter()
        invariant
            it.seq() == all,
            all.len() == found.len(),
            pairs.len() == it.index(),
            machine_id(*lua) == machine_id(*old(lua)),
            is_ours(*lua, *kept),
            *n == kept_tables(*kept).len(),
            keeps_on(kept_tables(*old(kept)), kept_tables(*kept)),
            stand_for(all, kept_tables(*kept), found),
            walk_found(*old(lua), *t, found),
            pairs_read(
                *old(lua),
                found.take(pairs.len() as int),
                depth as nat,
                pairs@,
                *lua,
            ),
    {
        let ghost k = pairs.len() as int;
        let ghost mid = *lua;
        let ghost before = pairs@;
        let ghost first = kept_tables(*kept);
        assert(part == all[k]);
        let (key, value) = part;
        let name = take_up(lua, key, kept);
        let data = take_up(lua, value, kept);
        let ghost left = name->Some_0;
        let ghost right = data->Some_0;
        match (name, data) {
            (Some(name), Some(data)) => {
                let name = read_data(lua, name, depth, kept, n);
                let ghost named = *lua;
                let ghost second = kept_tables(*kept);
                let data = read_data(lua, data, depth, kept, n);
                pairs.push((name, data));
                proof {
                    let third = kept_tables(*kept);
                    lemma_keeps_on(kept_tables(*old(kept)), first, second);
                    lemma_keeps_on(kept_tables(*old(kept)), second, third);
                    lemma_keeps_on(first, second, third);
                    lemma_stand_for(all, first, third, found);
                    let (k_shape, v_shape) = (value_shape(found[k].0), value_shape(found[k].1));
                    lemma_read(mid, k_shape, left, depth as nat, pairs@.last().0, named);
                    lemma_read(named, v_shape, right, depth as nat, pairs@.last().1, *lua);
                    assert(found.take(k + 1).drop_last() =~= found.take(k));
                    assert(pairs@.drop_last() =~= before);
                    assert(passed(mid, named));
                }
            },
            _ => {
                assert(found.take(k) =~= table_walk(*old(lua), *t).take(k));
                assert(walk_found(*old(lua), *t, found.take(k)));
                return pairs;
            },
        }
    }
    assert(found.take(pairs.len() as int) =~= found);
    pairs
}

/// Writes a Lua value of the machine as JSON: the text of the picture that
/// reading it gives. The depth is one that no call stack reaches. It fails where
/// there is no room for the tables that are kept while it is read.
pub(crate) fn lua_value_to_json(lua: &mut mlua::Lua, v: &mlua::Value) -> (r: Result<
    String,
    mlua::Error,
>)
    requires
        value_in(*v, machine_id(*old(lua))),
    ensures
        r is Err ==> ran_out(*final(lua)),
        r matches Ok(text) ==> exists|made: mlua::Lua, d: LuaData|
            #![trigger table_made(*old(lua), made), json(d)]
            table_made(*old(lua), made) && pictures(
                made,
                value_shape(*v),
                u64::MAX as nat,
                d,
                *final(lua),
            ) && text@ == json(d),
{
    let mut kept = new_table(lua)?;
    let ghost made = *lua;
    let data = plain_data(node_of(lua, v));
    let mut n: usize = 0;
    let picture = read_data(lua, data, u64::MAX, &mut kept, &mut n);
    let text = json_text(&picture);
    assert(table_made(*old(lua), made));
    Ok(text)
}

/// What came of a script or a function is passed on as it is: what it failed with
/// in the words of the error, and the name that it returned.
pub proof fn law_answers_are_passed_on(
    done: Result<(), mlua::Error>,
    named: Result<Option<String>, mlua::Error>,
    item: Result<mlua::Value, mlua::Error>,
)
    ensures
        done is Ok ==> failure_of(done) is None && plain_answer(done) == AnswerView::Returned(None),
        done matches Err(e) ==> failure_of(done) == Some(error_words(e)) && plain_answer(done)
            == AnswerView::Failed(error_words(e)),
        named matches Ok(Some(name)) ==> name_answer(named) == AnswerView::Returned(Some(name@)),
        named matches Ok(None) ==> name_answer(named) == AnswerView::Returned(None),
        named matches Err(e) ==> name_answer(named) == AnswerView::Failed(error_words(e)),
        item matches Ok(v) ==> got_item(item) == Some(v),
        item is Err ==> got_item(item) is None,
{
}

/// A table of texts holds each of them under its key, and nothing else.
pub proof fn law_text_slots(texts: Map<Seq<char>, Seq<char>>, key: Seq<char>)
    ensures
        text_slots(texts).contains_key(key) <==> texts.contains_key(key),
        texts.contains_key(key) ==> text_slots(texts)[key] == Slot::Text(texts[key]),
{
}

/// The table of a list of headers holds each value under its name in lower case,
/// where no later name is the same in lower case.
pub proof fn law_header_slots(entries: Seq<(Seq<char>, Seq<char>)>, i: int)
    requires
        0 <= i < entries.len(),
        forall|j: int|
            i < j < entries.len() ==> lowercase((#[trigger] entries[j]).0) != lowercase(
                entries[i].0,
            ),
    ensures
        text_slots(pairs_map(shown_headers(entries))).contains_key(lowercase(entries[i].0)),
        text_slots(pairs_map(shown_headers(entries)))[lowercase(entries[i].0)] == Slot::Text(
            entries[i].1,
        ),
    decreases entries.len(),
{
    let n = entries.len() - 1;
    let rest = entries.drop_last();
    assert(shown_headers(entries).drop_last() =~= shown_headers(rest));
    assert(shown_headers(entries).last() == (lowercase(entries[n].0), entries[n].1));
    if i < n {
        assert forall|j: int| i < j < rest.len() implies lowercase((#[trigger] rest[j]).0)
            != lowercase(rest[i].0) by {
            assert(entries[j] == rest[j]);
        }
        law_header_slots(rest, i);
    }
}

/// `ctx.req` shows the request as it stands in the context, and `ctx.res` the
/// response, each under the names that plugins know.
pub proof fn law_context_is_shown(ctx: RequestCtx)
    ensures
        req_slots(ctx)["method"@] == Slot::Text(ctx.req_method@),
        req_slots(ctx)["path"@] == Slot::Text(ctx.req_path@),
        req_slots(ctx)["body"@] == Slot::Text(ctx.req_body@),
        req_slots(ctx)["ip"@] == Slot::Text(ctx.client_ip@),
        req_slots(ctx)["headers"@] == Slot::Table(
            text_slots(pairs_map(shown_headers(ctx.req_headers.entries()))),
        ),
        res_slots(ctx)["status"@] == Slot::Number(ctx.res_status),
        res_slots(ctx)["body"@] == Slot::Text(ctx.res_body@),
        res_slots(ctx)["headers"@] == Slot::Table(
            text_slots(pairs_map(shown_headers(ctx.res_headers.entries()))),
        ),
        forall|name: Seq<char>| #[trigger]
            req_slots(ctx).contains_key(name) ==> name == "method"@ || name == "path"@ || name
                == "body"@ || name == "ip"@ || name == "headers"@,
        forall|name: Seq<char>| #[trigger]
            res_slots(ctx).contains_key(name) ==> name == "status"@ || name == "body"@ || name
                == "headers"@,
{
    reveal_strlit("method");
    reveal_strlit("path");
    reveal_strlit("body");
    reveal_strlit("ip");
    reveal_strlit("headers");
    reveal_strlit("status");
    assert("path"@[0] != "body"@[0]);
    assert("method"@.len() == 6 && "path"@.len() == 4 && "body"@.len() == 4 && "ip"@.len() == 2
        && "headers"@.len() == 7 && "status"@.len() == 6);
}

/// What plugins have of the context: three tables and eight methods, each under
/// its own name.
pub proof fn law_context_offers(lua: mlua::Lua)
    requires
        is_described(lua),
    ensures
        described_tables(lua) == seq![
            ("req"@, CtxTable::Req),
            ("res"@, CtxTable::Res),
            ("vars"@, CtxTable::Vars),
        ],
        described_methods(lua) == seq![
            ("reject"@, CtxMethod::Reject),
            ("set_var"@, CtxMethod::SetVar),
            ("upstream"@, CtxMethod::Upstream),
            ("set_req_header"@, CtxMethod::SetReqHeader),
            ("set_res_header"@, CtxMethod::SetResHeader),
            ("set_res_status"@, CtxMethod::SetResStatus),
            ("get_var"@, CtxMethod::GetVar),
            ("get_req_header"@, CtxMethod::GetReqHeader),
        ],
{
}

/// While scripts run, the machine keeps every context, and what becomes of one is
/// what plugins can do to it.
pub proof fn law_contexts_are_kept(before: mlua::Lua, after: mlua::Lua, ctx: mlua::AnyUserData)
    requires
        carried_on(before, after),
        machine_contexts(before).contains_key(ctx),
    ensures
        machine_contexts(after).contains_key(ctx),
        is_described(before) ==> is_described(after) && evolved(
            machine_contexts(before)[ctx],
            machine_contexts(after)[ctx],
        ),
{
}

/// A value that is no table is written as JSON has it: text as a string of itself,
/// a number in decimal, and what JSON has no word for as `null`.
pub proof fn law_plain_values_are_written(shape: Shape, d: LuaData)
    requires
        shows(shape, d),
    ensures
        shape matches Shape::Bytes(bytes) ==> (if valid_utf8(bytes) {
            json(d) == json_string(decode_utf8(bytes))
        } else {
            json(d) == "\"\""@
        }),
        shape matches Shape::Integer(i) ==> json(d) == signed_decimal(i as int),
        shape matches Shape::Number(text) ==> json(d) == (if text == "inf"@ || text == "-inf"@
            || text == "NaN"@ {
            "null"@
        } else {
            text
        }),
        shape == Shape::Boolean(true) ==> json(d) == "true"@,
        shape == Shape::Boolean(false) ==> json(d) == "false"@,
        shape is Nil || shape is Failure || shape is Other ==> json(d) == "null"@,
        !(shape is Table),
{
    law_json_words();
}

/// A table is pictured as an array exactly if its border is above zero, and else
/// by its keys and values.
pub proof fn law_tables_are_told_apart(
    before: mlua::Lua,
    t: mlua::Table,
    depth: nat,
    d: LuaData,
    after: mlua::Lua,
)
    requires
        depth > 0,
        pictures(before, Shape::Table(t), depth, d, after),
    ensures
        table_border(before, t) > 0 <==> d is Array,
        table_border(before, t) == 0 <==> d is Table,
        d matches LuaData::Array(items) ==> items_read(
            before,
            t,
            table_border(before, t),
            (depth - 1) as nat,
            items@,
            after,
        ),
        d matches LuaData::Table(pairs) ==> walk_read(
            before,
            t,
            (depth - 1) as nat,
            pairs@,
            after,
        ),
{
}

/// A value that is no table is read without a change to the machine.
pub proof fn law_plain_values_are_read(
    before: mlua::Lua,
    shape: Shape,
    depth: nat,
    d: LuaData,
    after: mlua::Lua,
)
    requires
        pictures(before, shape, depth, d, after),
        !(shape is Table),
    ensures
        after == before,
        shows(shape, d),
{
}

/// The table was asked for the position and gave this.
pub open spec fn was_asked(t: mlua::Table, i: int, got: Option<mlua::Value>) -> bool {
    exists|mid: mlua::Lua, asked: mlua::Lua| #[trigger] item_step(mid, t, i, got, asked)
}

/// Every position of an array is asked for, from the first to the border, and
/// there is one item for each that the table answered. Gives what the table gave,
/// position by position.
pub proof fn law_every_position_is_asked(
    before: mlua::Lua,
    t: mlua::Table,
    n: nat,
    depth: nat,
    items: Seq<LuaData>,
    after: mlua::Lua,
) -> (gots: Seq<Option<mlua::Value>>)
    requires
        items_read(before, t, n, depth, items, after),
    ensures
        gots.len() == n,
        forall|i: int|
            0 <= i < n ==> was_asked(t, i + 1, #[trigger] gots[i]),
        items.len() == gots.filter(|got: Option<mlua::Value>| got is Some).len(),
    decreases n,
{
    reveal(Seq::filter);
    let is_there = |got: Option<mlua::Value>| got is Some;
    if n == 0 {
        seq![]
    } else {
        let (mid, got, asked) = choose|
            mid: mlua::Lua,
            got: Option<mlua::Value>,
            asked: mlua::Lua,
        |
            #![trigger item_step(mid, t, n as int, got, asked)]
            item_step(mid, t, n as int, got, asked) && match got {
                Some(v) => items.len() > 0 && items_read(
                    before,
                    t,
                    (n - 1) as nat,
                    depth,
                    items.drop_last(),
                    mid,
                ) && pictures(asked, value_shape(v), depth, items.last(), after),
                None => items_read(before, t, (n - 1) as nat, depth, items, mid) && after == asked,
            };
        let some = match got {
            Some(v) => law_every_position_is_asked(
                before,
                t,
                (n - 1) as nat,
                depth,
                items.drop_last(),
                mid,
            ),
            None => law_every_position_is_asked(before, t, (n - 1) as nat, depth, items, mid),
        };
        let gots = some.push(got);
        assert(gots.drop_last() =~= some);
        assert(was_asked(t, n as int, got));
        assert forall|i: int| 0 <= i < n implies was_asked(t, i + 1, #[trigger] gots[i]) by {
            if i < n - 1 {
                assert(gots[i] == some[i]);
            }
        }
        gots
    }
}

proof fn lemma_pairs_len(
    before: mlua::Lua,
    found: Seq<(mlua::Value, mlua::Value)>,
    depth: nat,
    pairs: Seq<(LuaData, LuaData)>,
    after: mlua::Lua,
    at: int,
)
    requires
        pairs_read(before, found, depth, pairs, after),
    ensures
        pairs.len() == found.len(),
        0 <= at < found.len() ==> exists|mid: mlua::Lua, named: mlua::Lua, read: mlua::Lua|
            #![trigger passed(mid, named), passed(named, read)]
            passed(mid, named) && passed(named, read) && pictures(
                mid,
                value_shape(found[at].0),
                depth,
                pairs[at].0,
                named,
            ) && pictures(named, value_shape(found[at].1), depth, pairs[at].1, read),
    decreases found.len(),
{
    if found.len() > 0 {
        let (mid, named) = choose|mid: mlua::Lua, named: mlua::Lua| #[trigger]
            passed(mid, named) && pairs.len() > 0 && pairs_read(
                before,
                found.drop_last(),
                depth,
                pairs.drop_last(),
                mid,
            ) && pictures(mid, value_shape(found.last().0), depth, pairs.last().0, named)
                && pictures(named, value_shape(found.last().1), depth, pairs.last().1, after);
        lemma_pairs_len(before, found.drop_last(), depth, pairs.drop_last(), mid, at);
        if at == found.len() - 1 {
            assert(passed(mid, named) && passed(named, after));
        } else if 0 <= at < found.len() {
            assert(found.drop_last()[at] == found[at]);
            assert(pairs.drop_last()[at] == pairs[at]);
        }
    }
}

/// Every pair of a table that is no array is read, in the order of the walk, and
/// each picture is that of the key or the value in its place. Pairs are left out
/// only where there was no room, or behind a key that is an error.
pub proof fn law_every_pair_is_read(
    before: mlua::Lua,
    t: mlua::Table,
    depth: nat,
    pairs: Seq<(LuaData, LuaData)>,
    after: mlua::Lua,
    at: int,
)
    requires
        walk_read(before, t, depth, pairs, after),
    ensures
        pairs.len() <= table_walk(before, t).len(),
        pairs.len() < table_walk(before, t).len() ==> {
            ||| pairs.len() > 0 && value_shape(
                table_walk(before, t)[pairs.len() - 1].0,
            ) is Failure
            ||| exists|lua: mlua::Lua| machine_id(lua) == machine_id(before) && #[trigger] ran_out(lua)
            ||| exists|kept: mlua::Table|
                table_in(kept, machine_id(before)) && (#[trigger] kept_tables(kept)).len()
                    >= 0x4000_0000
        },
        0 <= at < pairs.len() ==> exists|mid: mlua::Lua, named: mlua::Lua, read: mlua::Lua|
            #![trigger passed(mid, named), passed(named, read)]
            passed(mid, named) && passed(named, read) && pictures(
                mid,
                value_shape(table_walk(before, t)[at].0),
                depth,
                pairs[at].0,
                named,
            ) && pictures(
                named,
                value_shape(table_walk(before, t)[at].1),
                depth,
                pairs[at].1,
                read,
            ),
{
    let found = choose|found: Seq<(mlua::Value, mlua::Value)>| #[trigger]
        walk_found(before, t, found) && pairs_read(before, found, depth, pairs, after);
    lemma_pairs_len(before, found, depth, pairs, after, at);
    let all = table_walk(before, t);
    if 0 <= at < found.len() {
        assert(found[at] == all.take(found.len() as int)[at]);
    }
    if found.len() > 0 {
        assert(found.last() == all.take(found.len() as int)[found.len() - 1]);
    }
    if cut_short(machine_id(before)) && !(exists|lua: mlua::Lua|
        machine_id(lua) == machine_id(before) && #[trigger] ran_out(lua)) {
        let kept = choose|kept: mlua::Table|
            table_in(kept, machine_id(before)) && #[trigger] is_full(kept);
        assert(kept_tables(kept).len() >= 0x4000_0000);
    }
}

} // verus!
