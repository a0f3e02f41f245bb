//! The scripts of items: what they are told, what they may ask for, and the interpreter that
//! runs them.
//!
//! What the interpreter returns depends on all the scripts that ran before. So contracts say
//! which calls are made with which arguments, and what becomes of any result that they may have:
//! `call_ensures` of a call holds of what it may return.

use vstd::prelude::*;
use vstd::string::StringExecFns;

use crate::text::chars_of;
use crate::text::string_from;
use crate::Position;

verus! {

/// What a script is told about the item that was used.
#[derive(Debug, Clone, Copy, PartialEq, Eq, Structural)]
pub struct LuaArgs {
    pub player_id: u32,
    pub item_id: u16,
    pub pos_x: u16,
    pub pos_y: u16,
    pub pos_z: u8,
    pub stackpos: u8,
}

/// The fields of the table that a script is given.
pub open spec fn fields_of(args: LuaArgs) -> Seq<(Seq<char>, u32)> {
    seq![
        ("player_id"@, args.player_id),
        ("item_id"@, args.item_id as u32),
        ("pos_x"@, args.pos_x as u32),
        ("pos_y"@, args.pos_y as u32),
        ("pos_z"@, args.pos_z as u32),
        ("stackpos"@, args.stackpos as u32),
    ]
}

impl LuaArgs {
    /// The fields of the table that a script is given.
    pub fn fields(&self) -> (r: Vec<(&'static str, u32)>)
        ensures
            r@.map_values(|f: (&'static str, u32)| (f.0@, f.1)) == fields_of(*self),
    {
        let mut r: Vec<(&'static str, u32)> = Vec::new();
        r.push(("player_id", self.player_id));
        r.push(("item_id", self.item_id as u32));
        r.push(("pos_x", self.pos_x as u32));
        r.push(("pos_y", self.pos_y as u32));
        r.push(("pos_z", self.pos_z as u32));
        r.push(("stackpos", self.stackpos as u32));
        assert(r@.map_values(|f: (&'static str, u32)| (f.0@, f.1)) =~= fields_of(*self));
        r
    }
}

/// What a script may ask of the game.
#[derive(Debug)]
pub enum GameAction {
    Teleport { player_id: u32, landing: Position },
    Feed {
        player_id: u32,
        health_gain: i32,
        interval_ms: u64,
        duration_ms: u64,
        total_heal_cap: i32,
    },
    TextMessage { player_id: u32, message_type: u8, text: String },
}

/// What came of calling a script.
#[derive(Debug, Clone, Copy, PartialEq, Eq, Structural)]
pub enum ScriptResult {
    /// There is no such function.
    Missing,
    Nil,
    Boolean { value: bool },
    Other,
}

impl ScriptResult {
    /// Whether the script says that it took care of the matter.
    pub fn is_handled(self) -> (r: bool)
        ensures
            r == (self is Other || self == (ScriptResult::Boolean { value: true })),
    {
        match self {
            ScriptResult::Missing | ScriptResult::Nil => false,
            ScriptResult::Boolean { value } => value,
            ScriptResult::Other => true,
        }
    }
}

/// The table and the function that a script's name stands for: what is before its first dot and
/// behind it. `None` where there is no dot, so that the function stands by itself.
pub fn split_script_name(name: &str) -> (r: Option<(String, String)>)
    ensures
        match r {
            Some((table, function)) => {
                &&& name@ == table@ + seq!['.'] + function@
                &&& !table@.contains('.')
            },
            None => !name@.contains('.'),
        },
{
    let chars = chars_of(name);
    let mut i: usize = 0;
    while i < chars.len()
        invariant
            i <= chars@.len(),
            chars@ == name@,
            forall|k: int| 0 <= k < i ==> name@[k] != '.',
        decreases chars@.len() - i,
    {
        if chars[i] == '.' {
            let table = string_from(&chars, 0, i);
            let function = string_from(&chars, i + 1, chars.len());
            assert(name@ =~= table@ + seq!['.'] + function@);
            return Some((table, function));
        }
        i = i + 1;
    }
    None
}

/// What went wrong in a script.
#[derive(Debug)]
pub enum LuaError {
    Runtime { message: String },
}

impl LuaError {
    /// What went wrong, in words.
    pub fn text(&self) -> (r: String)
        ensures
            r@ == "Lua runtime error: "@ + self->message@,
    {
        match self {
            LuaError::Runtime { message } => "Lua runtime error: ".to_string().concat(
                message.as_str(),
            ),
        }
    }
}

/// `mlua::Lua`: the state of an interpreter.
#[verifier::external_type_specification]
#[verifier::external_body]
pub struct ExLua(mlua::Lua);

/// `mlua::Value`: a value of a script.
#[verifier::external_type_specification]
#[verifier::external_body]
pub struct ExLuaValue(mlua::Value);

/// `mlua::Table`: a table of a script.
#[verifier::external_type_specification]
#[verifier::external_body]
pub struct ExLuaTable(mlua::Table);

/// `mlua::Function`: a function of a script.
#[verifier::external_type_specification]
#[verifier::external_body]
pub struct ExLuaFunction(mlua::Function);

/// `mlua::Error`: what went wrong in the interpreter.
#[verifier::external_type_specification]
#[verifier::external_body]
pub struct ExLuaFault(mlua::Error);

/// A value of a script, as far as it matters here.
enum LuaThing {
    Function { f: mlua::Function },
    Table { t: mlua::Table },
    Nil,
    Boolean { value: bool },
    Other,
}

/// Tells the variants of `mlua::Value` apart. Nothing is claimed of a value: what scripts
/// compute depends on all that ran before.
#[verifier::external_body]
fn thing_of(v: mlua::Value) -> (r: LuaThing)
{
    match v {
        mlua::Value::Function(f) => LuaThing::Function { f },
        mlua::Value::Table(t) => LuaThing::Table { t },
        mlua::Value::Nil => LuaThing::Nil,
        mlua::Value::Boolean(value) => LuaThing::Boolean { value },
        _ => LuaThing::Other,
    }
}

/// `mlua::Lua::new`: an interpreter with the safe standard libraries. Nothing is claimed of it.
/// It panics where there is no memory for one.
#[verifier::external_body]
fn new_state() -> (r: mlua::Lua)
{
    mlua::Lua::new()
}

/// `mlua::Chunk::exec`, for the chunk that `mlua::Lua::load` makes of a text: runs it. Nothing
/// is claimed of what it does; a script that does not end keeps the call from returning.
#[verifier::external_body]
fn run_code(lua: &mlua::Lua, code: &str) -> (r: Result<(), mlua::Error>)
{
    lua.load(code).exec()
}

/// `mlua::Lua::globals`: the table of the global values. Nothing is claimed of it: scripts
/// change their globals.
#[verifier::external_body]
fn globals(lua: &mlua::Lua) -> (r: mlua::Table)
{
    lua.globals()
}

/// `mlua::Table::get`: a value of a table, nil where there is none. Nothing is claimed of it:
/// scripts change their tables.
#[verifier::external_body]
fn get_field(t: &mlua::Table, name: &str) -> (r: Result<mlua::Value, mlua::Error>)
{
    t.get(name)
}

/// `mlua::Table::get`, for an integer: an error where the value is none. Nothing is claimed of
/// it: scripts change their tables.
#[verifier::external_body]
fn get_integer(t: &mlua::Table, name: &str) -> (r: Result<i64, mlua::Error>)
{
    t.get(name)
}

/// `mlua::Lua::create_table`: a new table. Nothing is claimed of it.
#[verifier::external_body]
fn new_table(lua: &mlua::Lua) -> (r: Result<mlua::Table, mlua::Error>)
{
    lua.create_table()
}

/// `mlua::Table::set`: puts a number into a table. Nothing is claimed of it.
#[verifier::external_body]
fn set_number(t: &mlua::Table, name: &str, value: u32) -> (r: Result<(), mlua::Error>)
{
    t.set(name, value)
}

/// `mlua::Table::set`: puts a function into a table. Nothing is claimed of it.
#[verifier::external_body]
fn set_function(t: &mlua::Table, name: &str, f: mlua::Function) -> (r: Result<(), mlua::Error>)
{
    t.set(name, f)
}

/// `mlua::Function::call` with one table. Nothing is claimed of what it does or returns; a
/// script that does not end keeps the call from returning.
#[verifier::external_body]
fn call_function(f: &mlua::Function, args: mlua::Table) -> (r: Result<mlua::Value, mlua::Error>)
{
    f.call(args)
}

/// `mlua::Error`'s `to_string`: the error in words. Nothing is claimed of them.
#[verifier::external_body]
fn fault_text(e: &mlua::Error) -> (r: String)
{
    e.to_string()
}

/// `mlua::Lua::set_app_data`: an empty list of requests takes the place of the one that the
/// interpreter held, which is the result, empty where it held none. What is in the list depends
/// on the scripts that ran: nothing is claimed of it.
#[verifier::external_body]
fn take_requests(lua: &mlua::Lua) -> (r: Vec<GameAction>)
{
    lua.set_app_data(Vec::<GameAction>::new()).unwrap_or_default()
}

/// `mlua::Lua::app_data_mut`: one more request in the list that the interpreter holds. Nothing
/// is claimed of it.
#[verifier::external_body]
fn add_request(lua: &mlua::Lua, action: GameAction)
{
    if let Some(mut list) = lua.app_data_mut::<Vec<GameAction>>() {
        list.push(action);
    }
}

/// Note that a script asks for a teleport.
fn ask_teleport(lua: &mlua::Lua, player_id: u32, x: u16, y: u16, z: u8)
    ensures
        call_ensures(
            add_request,
            (lua, (GameAction::Teleport { player_id, landing: (Position { x, y, z }) })),
            (),
        ),
{
    add_request(lua, GameAction::Teleport { player_id, landing: Position::new(x, y, z) });
}

/// Note that a script asks for a meal.
fn ask_feed(
    lua: &mlua::Lua,
    player_id: u32,
    health_gain: i32,
    interval_ms: u64,
    duration_ms: u64,
    total_heal_cap: i32,
)
    ensures
        call_ensures(
            add_request,
            (
                lua,
                (GameAction::Feed {
                    player_id,
                    health_gain,
                    interval_ms,
                    duration_ms,
                    total_heal_cap,
                }),
            ),
            (),
        ),
{
    add_request(
        lua,
        GameAction::Feed { player_id, health_gain, interval_ms, duration_ms, total_heal_cap },
    );
}

/// Note that a script asks for a message.
fn ask_text_message(lua: &mlua::Lua, player_id: u32, message_type: u8, text: String)
    ensures
        call_ensures(
            add_request,
            (lua, (GameAction::TextMessage { player_id, message_type, text })),
            (),
        ),
{
    add_request(lua, GameAction::TextMessage { player_id, message_type, text });
}

/// `mlua::Lua::create_function`: a function that asks for a teleport. Nothing is claimed of it.
#[verifier::external_body]
fn teleport_function(lua: &mlua::Lua) -> (r: Result<mlua::Function, mlua::Error>)
{
    lua.create_function(|lua, (id, x, y, z): (u32, u16, u16, u8)| {
        Ok(ask_teleport(lua, id, x, y, z))
    })
}

/// `mlua::Lua::create_function`: a function that asks for a meal. Nothing is claimed of it.
#[verifier::external_body]
fn feed_function(lua: &mlua::Lua) -> (r: Result<mlua::Function, mlua::Error>)
{
    lua.create_function(|lua, (id, gain, interval, duration, cap): (u32, i32, u64, u64, i32)| {
        Ok(ask_feed(lua, id, gain, interval, duration, cap))
    })
}

/// `mlua::Lua::create_function`: a function that asks for a message. Nothing is claimed of it.
#[verifier::external_body]
fn text_message_function(lua: &mlua::Lua) -> (r: Result<mlua::Function, mlua::Error>)
{
    lua.create_function(|lua, (id, message_type, text): (u32, u8, String)| {
        Ok(ask_text_message(lua, id, message_type, text))
    })
}

/// `f` holds the words for `e`.
spec fn worded(e: mlua::Error, f: LuaError) -> bool {
    call_ensures(fault_text, (&e,), f->message)
}

/// `s` is `r`, with an error put into words.
spec fn reported<T>(r: Result<T, mlua::Error>, s: Result<T, LuaError>) -> bool {
    match r {
        Ok(t) => s == Ok::<T, LuaError>(t),
        Err(e) => s is Err && worded(e, s->Err_0),
    }
}

/// A look for field `name` of `t` may come to `s`.
spec fn field_found(t: mlua::Table, name: Seq<char>, s: Result<mlua::Value, LuaError>) -> bool {
    exists|n: &str, r: Result<mlua::Value, mlua::Error>|
        n@ == name && #[trigger] call_ensures(get_field, (&t, n), r) && reported(r, s)
}

/// A look for the global `name` may come to `s`.
spec fn global_found(lua: mlua::Lua, name: Seq<char>, s: Result<mlua::Value, LuaError>) -> bool {
    exists|t: mlua::Table| #[trigger]
        call_ensures(globals, (&lua,), t) && field_found(t, name, s)
}

/// Making a table may come to `s`.
spec fn table_made(lua: mlua::Lua, s: Result<mlua::Table, LuaError>) -> bool {
    exists|r: Result<mlua::Table, mlua::Error>| #[trigger]
        call_ensures(new_table, (&lua,), r) && reported(r, s)
}

/// Putting a number into field `name` of `t` may come to `s`.
spec fn number_set(t: mlua::Table, name: Seq<char>, value: u32, s: Result<(), LuaError>) -> bool {
    exists|n: &str, r: Result<(), mlua::Error>|
        n@ == name && #[trigger] call_ensures(set_number, (&t, n, value), r) && reported(r, s)
}

/// The first `n` of `fields` were put into `t`.
spec fn numbers_set(t: mlua::Table, fields: Seq<(Seq<char>, u32)>, n: int) -> bool {
    &&& 0 <= n <= fields.len()
    &&& forall|k: int|
        0 <= k < n ==> #[trigger] number_set(t, fields[k].0, fields[k].1, Ok::<(), LuaError>(()))
}

/// Putting `fields` into `t`, up to the first that fails, may come to `s`.
spec fn table_filled(
    t: mlua::Table,
    fields: Seq<(Seq<char>, u32)>,
    s: Result<mlua::Table, LuaError>,
) -> bool {
    exists|n: int| #[trigger]
        numbers_set(t, fields, n) && match s {
            Ok(u) => n == fields.len() && u == t,
            Err(f) => n < fields.len() && number_set(
                t,
                fields[n].0,
                fields[n].1,
                Err::<(), LuaError>(f),
            ),
        }
}

/// Making a table of `fields` may come to `s`.
spec fn table_built(
    lua: mlua::Lua,
    fields: Seq<(Seq<char>, u32)>,
    s: Result<mlua::Table, LuaError>,
) -> bool {
    exists|made: Result<mlua::Table, LuaError>| #[trigger]
        table_made(lua, made) && match made {
            Ok(t) => table_filled(t, fields, s),
            Err(_) => s == made,
        }
}

/// What a script says by what it returns.
spec fn answer_of(x: LuaThing) -> ScriptResult {
    match x {
        LuaThing::Boolean { value } => ScriptResult::Boolean { value },
        LuaThing::Nil => ScriptResult::Nil,
        _ => ScriptResult::Other,
    }
}

/// A call of `f` with `t` may come to `s`.
spec fn function_called(
    f: mlua::Function,
    t: mlua::Table,
    s: Result<ScriptResult, LuaError>,
) -> bool {
    exists|r: Result<mlua::Value, mlua::Error>| #[trigger]
        call_ensures(call_function, (&f, t), r) && match r {
            Ok(v) => exists|x: LuaThing| #[trigger]
                call_ensures(thing_of, (v,), x) && s == Ok::<ScriptResult, LuaError>(answer_of(x)),
            Err(e) => s is Err && worded(e, s->Err_0),
        }
}

/// A call of `v`, if it is a function, with a table of what is in `args` may come to `s`.
spec fn value_called(
    lua: mlua::Lua,
    v: mlua::Value,
    args: LuaArgs,
    s: Result<ScriptResult, LuaError>,
) -> bool {
    exists|x: LuaThing| #[trigger]
        call_ensures(thing_of, (v,), x) && match x {
            LuaThing::Function { f } => exists|built: Result<mlua::Table, LuaError>| #[trigger]
                table_built(lua, fields_of(args), built) && match built {
                    Ok(t) => function_called(f, t, s),
                    Err(fault) => s == Err::<ScriptResult, LuaError>(fault),
                },
            _ => s == Ok::<ScriptResult, LuaError>(ScriptResult::Missing),
        }
}

/// A call of what was found may come to `s`.
spec fn found_called(
    lua: mlua::Lua,
    found: Result<mlua::Value, LuaError>,
    args: LuaArgs,
    s: Result<ScriptResult, LuaError>,
) -> bool {
    match found {
        Ok(v) => value_called(lua, v, args, s),
        Err(fault) => s == Err::<ScriptResult, LuaError>(fault),
    }
}

/// Making the function that was `made` field `name` of `t` may come to `s`.
spec fn function_bound(
    t: mlua::Table,
    name: Seq<char>,
    made: Result<mlua::Function, mlua::Error>,
    s: Result<(), LuaError>,
) -> bool {
    match made {
        Ok(f) => exists|n: &str, r: Result<(), mlua::Error>|
            n@ == name && #[trigger] call_ensures(set_function, (&t, n, f), r) && reported(r, s),
        Err(e) => s is Err && worded(e, s->Err_0),
    }
}

spec fn teleport_bound(lua: mlua::Lua, t: mlua::Table, s: Result<(), LuaError>) -> bool {
    exists|made: Result<mlua::Function, mlua::Error>| #[trigger]
        call_ensures(teleport_function, (&lua,), made) && function_bound(
            t,
            "do_teleport"@,
            made,
            s,
        )
}

spec fn feed_bound(lua: mlua::Lua, t: mlua::Table, s: Result<(), LuaError>) -> bool {
    exists|made: Result<mlua::Function, mlua::Error>| #[trigger]
        call_ensures(feed_function, (&lua,), made) && function_bound(t, "do_feed"@, made, s)
}

spec fn text_message_bound(lua: mlua::Lua, t: mlua::Table, s: Result<(), LuaError>) -> bool {
    exists|made: Result<mlua::Function, mlua::Error>| #[trigger]
        call_ensures(text_message_function, (&lua,), made) && function_bound(
            t,
            "do_send_text_message"@,
            made,
            s,
        )
}

/// Giving `lua` the functions by which scripts ask for something, up to the first that fails,
/// may come to `s`.
spec fn builtins_bound(lua: mlua::Lua, s: Result<(), LuaError>) -> bool {
    exists|t: mlua::Table, teleport: Result<(), LuaError>| #[trigger]
        call_ensures(globals, (&lua,), t) && #[trigger] teleport_bound(lua, t, teleport)
            && match teleport {
            Ok(_) => exists|feed: Result<(), LuaError>| #[trigger]
                feed_bound(lua, t, feed) && match feed {
                    Ok(_) => text_message_bound(lua, t, s),
                    Err(_) => s == feed,
                },
            Err(_) => s == teleport,
        }
}

/// Running a script may come to `s`.
spec fn code_run(lua: mlua::Lua, code: Seq<char>, s: Result<(), LuaError>) -> bool {
    exists|c: &str, r: Result<(), mlua::Error>|
        c@ == code && #[trigger] call_ensures(run_code, (&lua, c), r) && reported(r, s)
}

/// Whether a script took care of the matter, by what came of calling it.
pub open spec fn handled(answer: Result<ScriptResult, LuaError>) -> Result<bool, LuaError> {
    match answer {
        Ok(a) => Ok(a is Other || a == (ScriptResult::Boolean { value: true })),
        Err(fault) => Err(fault),
    }
}

fn wrapped<T>(r: Result<T, mlua::Error>) -> (s: Result<T, LuaError>)
    ensures
        reported(r, s),
{
    match r {
        Ok(t) => Ok(t),
        Err(e) => Err(LuaError::Runtime { message: fault_text(&e) }),
    }
}

/// Make the function that was `made` field `name` of a table.
fn bind(t: &mlua::Table, name: &str, made: Result<mlua::Function, mlua::Error>) -> (s: Result<
    (),
    LuaError,
>)
    ensures
        function_bound(*t, name@, made, s),
{
    match wrapped(made) {
        Ok(f) => wrapped(set_function(t, name, f)),
        Err(fault) => Err(fault),
    }
}

/// An interpreter with the functions by which scripts ask for something: `do_teleport`,
/// `do_feed` and `do_send_text_message`.
pub struct LuaRuntime {
    lua: mlua::Lua,
    /// What was done with the interpreter, in order.
    log: Ghost<Seq<LuaCall>>,
}

/// Something done with an interpreter.
pub ghost enum LuaCall {
    /// A script was called.
    Called { name: Seq<char>, args: LuaArgs, answer: Result<ScriptResult, LuaError> },
    /// The list of requests was taken and emptied.
    Drained { asked: Seq<GameAction> },
}

impl LuaRuntime {
    /// What was done with the interpreter, in order.
    pub closed spec fn log(self) -> Seq<LuaCall> {
        self.log@
    }

    /// The interpreter once one more thing was done with it.
    pub closed spec fn noted(self, c: LuaCall) -> LuaRuntime {
        LuaRuntime { log: Ghost(self.log@.push(c)), ..self }
    }

    /// Starting an interpreter may come to `r`: one that holds no requests and has the functions
    /// by which scripts ask for something, or what went wrong in giving it these.
    pub closed spec fn may_start(r: Result<LuaRuntime, LuaError>) -> bool {
        exists|lua: mlua::Lua, before: Vec<GameAction>, bound: Result<(), LuaError>| #[trigger]
            call_ensures(new_state, (), lua) && #[trigger] call_ensures(
                take_requests,
                (&lua,),
                before,
            ) && #[trigger] builtins_bound(lua, bound) && match bound {
                Ok(_) => r == Ok::<LuaRuntime, LuaError>(
                    LuaRuntime { lua, log: Ghost(Seq::empty()) },
                ),
                Err(fault) => r == Err::<LuaRuntime, LuaError>(fault),
            }
    }

    /// Running `scripts` in turn may come to `faults`, one for each script that fails.
    pub closed spec fn may_load(self, scripts: Seq<String>, faults: Seq<LuaError>) -> bool
        decreases scripts.len(),
    {
        if scripts.len() == 0 {
            faults.len() == 0
        } else {
            exists|s: Result<(), LuaError>| #[trigger]
                code_run(self.lua, scripts.last()@, s) && match s {
                    Ok(_) => self.may_load(scripts.drop_last(), faults),
                    Err(fault) => faults.len() > 0 && faults.last() == fault && self.may_load(
                        scripts.drop_last(),
                        faults.drop_last(),
                    ),
                }
        }
    }

    /// Starting over with `scripts` may lead from `self` to `after`, with `faults` on the way.
    pub open spec fn may_reload(
        self,
        after: LuaRuntime,
        scripts: Seq<String>,
        faults: Seq<LuaError>,
    ) -> bool {
        exists|r: Result<LuaRuntime, LuaError>| #[trigger]
            LuaRuntime::may_start(r) && match r {
                Ok(fresh) => after == fresh && fresh.may_load(scripts, faults),
                Err(fault) => after == self && faults == seq![fault],
            }
    }

    /// A call of the global function `name` with `args` may come to `s`.
    pub closed spec fn global_may_answer(
        self,
        name: Seq<char>,
        args: LuaArgs,
        s: Result<ScriptResult, LuaError>,
    ) -> bool {
        exists|found: Result<mlua::Value, LuaError>| #[trigger]
            global_found(self.lua, name, found) && found_called(self.lua, found, args, s)
    }

    /// A call of `function` of the global table `table` with `args` may come to `s`.
    pub closed spec fn method_may_answer(
        self,
        table: Seq<char>,
        function: Seq<char>,
        args: LuaArgs,
        s: Result<ScriptResult, LuaError>,
    ) -> bool {
        exists|holder: Result<mlua::Value, LuaError>| #[trigger]
            global_found(self.lua, table, holder) && match holder {
                Ok(v) => exists|x: LuaThing| #[trigger]
                    call_ensures(thing_of, (v,), x) && match x {
                        LuaThing::Table { t } => exists|found: Result<mlua::Value, LuaError>|
                            #[trigger] field_found(t, function, found) && found_called(
                                self.lua,
                                found,
                                args,
                                s,
                            ),
                        _ => s == Ok::<ScriptResult, LuaError>(ScriptResult::Missing),
                    },
                Err(fault) => s == Err::<ScriptResult, LuaError>(fault),
            }
    }

    /// A call of the script `name` with `args` may come to `s`: of a global function or, where
    /// there is a dot in the name, of a function of a global table.
    pub open spec fn script_may_answer(
        self,
        name: Seq<char>,
        args: LuaArgs,
        s: Result<ScriptResult, LuaError>,
    ) -> bool {
        if name.contains('.') {
            exists|table: Seq<char>, function: Seq<char>|
                name == table + seq!['.'] + function && !table.contains('.')
                    && #[trigger] self.method_may_answer(table, function, args, s)
        } else {
            self.global_may_answer(name, args, s)
        }
    }

    /// A call of the script of an item may come to `s`: of the one called `name` or, where there
    /// is none, of the global function `onUse`.
    pub open spec fn item_may_answer(
        self,
        name: Seq<char>,
        args: LuaArgs,
        s: Result<ScriptResult, LuaError>,
    ) -> bool {
        exists|first: Result<ScriptResult, LuaError>| #[trigger]
            self.script_may_answer(name, args, first) && if first == Ok::<ScriptResult, LuaError>(
                ScriptResult::Missing,
            ) {
                self.global_may_answer("onUse"@, args, s)
            } else {
                s == first
            }
    }

    /// Emptying the list of requests may bring up `asked`.
    pub closed spec fn may_have_asked(self, asked: Vec<GameAction>) -> bool {
        call_ensures(take_requests, (&self.lua,), asked)
    }

    /// A look for the global integer `name` may come to `r`.
    pub closed spec fn integer_may_be(self, name: Seq<char>, r: Option<i64>) -> bool {
        exists|t: mlua::Table, n: &str, found: Result<i64, mlua::Error>| #[trigger]
            call_ensures(globals, (&self.lua,), t) && n@ == name && #[trigger] call_ensures(
                get_integer,
                (&t, n),
                found,
            ) && r == match found {
                Ok(value) => Some(value),
                Err(_) => None,
            }
    }

    /// An interpreter without any scripts yet.
    pub fn new() -> (r: Result<LuaRuntime, LuaError>)
        ensures
            LuaRuntime::may_start(r),
    {
        let lua = new_state();
        let _before = take_requests(&lua);
        match LuaRuntime::bind_builtins(&lua) {
            Ok(_) => Ok(LuaRuntime { lua, log: Ghost(Seq::empty()) }),
            Err(e) => Err(e),
        }
    }

    fn bind_builtins(lua: &mlua::Lua) -> (r: Result<(), LuaError>)
        ensures
            builtins_bound(*lua, r),
    {
        let table = globals(lua);
        let teleport = bind(&table, "do_teleport", teleport_function(lua));
        assert(teleport_bound(*lua, table, teleport));
        if teleport.is_err() {
            return teleport;
        }
        let feed = bind(&table, "do_feed", feed_function(lua));
        assert(feed_bound(*lua, table, feed));
        if feed.is_err() {
            return feed;
        }
        bind(&table, "do_send_text_message", text_message_function(lua))
    }

    /// Load scripts. Those in which something goes wrong do not keep the others from loading;
    /// the result is what went wrong.
    pub fn load_scripts(&self, scripts: &Vec<String>) -> (faults: Vec<LuaError>)
        ensures
            self.may_load(scripts@, faults@),
            faults@.len() <= scripts@.len(),
    {
        let mut faults: Vec<LuaError> = Vec::new();
        let mut i: usize = 0;
        while i < scripts.len()
            invariant
                i <= scripts@.len(),
                self.may_load(scripts@.take(i as int), faults@),
                faults@.len() <= i,
            decreases scripts@.len() - i,
        {
            assert(scripts@.take(i + 1).drop_last() =~= scripts@.take(i as int));
            let ghost before = faults@;
            let s = wrapped(run_code(&self.lua, scripts[i].as_str()));
            assert(code_run(self.lua, scripts@.take(i + 1).last()@, s));
            match s {
                Ok(_) => {},
                Err(e) => {
                    faults.push(e);
                    assert(faults@.drop_last() =~= before);
                },
            }
            i = i + 1;
        }
        assert(scripts@.take(scripts@.len() as int) =~= scripts@);
        faults
    }

    /// Start over with `scripts`; what was asked for and not yet done is dropped. The result is
    /// what went wrong. Without a new interpreter the old one stays.
    pub fn reload(&mut self, scripts: &Vec<String>) -> (faults: Vec<LuaError>)
        ensures
            old(self).may_reload(*final(self), scripts@, faults@),
    {
        match LuaRuntime::new() {
            Ok(fresh) => {
                *self = fresh;
                self.load_scripts(scripts)
            },
            Err(e) => {
                let mut faults: Vec<LuaError> = Vec::new();
                faults.push(e);
                assert(faults@ =~= seq![e]);
                faults
            },
        }
    }

    fn build_args_table(&self, args: &LuaArgs) -> (r: Result<mlua::Table, LuaError>)
        ensures
            table_built(self.lua, fields_of(*args), r),
    {
        let made = wrapped(new_table(&self.lua));
        assert(table_made(self.lua, made));
        let table = match made {
            Ok(table) => table,
            Err(fault) => return Err(fault),
        };
        let ghost told = fields_of(*args);
        let fields = args.fields();
        let mut i: usize = 0;
        while i < fields.len()
            invariant
                i <= fields@.len(),
                fields@.map_values(|f: (&'static str, u32)| (f.0@, f.1)) == told,
                told == fields_of(*args),
                table_made(self.lua, Ok::<mlua::Table, LuaError>(table)),
                numbers_set(table, told, i as int),
            decreases fields@.len() - i,
        {
            assert(told[i as int] == (fields@[i as int].0@, fields@[i as int].1));
            let s = wrapped(set_number(&table, fields[i].0, fields[i].1));
            assert(number_set(table, told[i as int].0, told[i as int].1, s));
            match s {
                Ok(_) => {},
                Err(fault) => return Err(fault),
            }
            i = i + 1;
        }
        Ok(table)
    }

    /// Call a value with `args`, if it is a function.
    fn call(&self, v: mlua::Value, args: &LuaArgs) -> (r: Result<ScriptResult, LuaError>)
        ensures
            value_called(self.lua, v, *args, r),
    {
        match thing_of(v) {
            LuaThing::Function { f } => {
                let table = match self.build_args_table(args) {
                    Ok(table) => table,
                    Err(fault) => return Err(fault),
                };
                let answer = match wrapped(call_function(&f, table)) {
                    Ok(answer) => answer,
                    Err(fault) => return Err(fault),
                };
                Ok(
                    match thing_of(answer) {
                        LuaThing::Boolean { value } => ScriptResult::Boolean { value },
                        LuaThing::Nil => ScriptResult::Nil,
                        _ => ScriptResult::Other,
                    },
                )
            },
            _ => Ok(ScriptResult::Missing),
        }
    }

    /// Call what was found with `args`.
    fn call_found(&self, found: Result<mlua::Value, LuaError>, args: &LuaArgs) -> (r: Result<
        ScriptResult,
        LuaError,
    >)
        ensures
            found_called(self.lua, found, *args, r),
    {
        match found {
            Ok(v) => self.call(v, args),
            Err(fault) => Err(fault),
        }
    }

    fn find_global(&self, name: &str) -> (r: Result<mlua::Value, LuaError>)
        ensures
            global_found(self.lua, name@, r),
    {
        let table = globals(&self.lua);
        let found = wrapped(get_field(&table, name));
        assert(field_found(table, name@, found));
        found
    }

    /// Call a global function.
    fn run_global(&self, name: &str, args: &LuaArgs) -> (r: Result<ScriptResult, LuaError>)
        ensures
            self.global_may_answer(name@, *args, r),
    {
        self.call_found(self.find_global(name), args)
    }

    /// Call a script by its name: a global function, or where there is a dot in the name, a
    /// function of a global table.
    fn run(&self, script_name: &str, args: &LuaArgs) -> (r: Result<ScriptResult, LuaError>)
        ensures
            self.script_may_answer(script_name@, *args, r),
    {
        match split_script_name(script_name) {
            None => self.run_global(script_name, args),
            Some((table, function)) => {
                assert(script_name@[table@.len() as int] == '.');
                let r = self.run_method(table.as_str(), function.as_str(), args);
                assert(self.method_may_answer(table@, function@, *args, r));
                r
            },
        }
    }

    /// Call a function of a global table.
    fn run_method(&self, table: &str, function: &str, args: &LuaArgs) -> (r: Result<
        ScriptResult,
        LuaError,
    >)
        ensures
            self.method_may_answer(table@, function@, *args, r),
    {
        let v = match self.find_global(table) {
            Ok(v) => v,
            Err(fault) => return Err(fault),
        };
        match thing_of(v) {
            LuaThing::Table { t } => {
                let found = wrapped(get_field(&t, function));
                assert(field_found(t, function@, found));
                self.call_found(found, args)
            },
            _ => Ok(ScriptResult::Missing),
        }
    }

    /// Note that a script was called.
    fn note_call(&mut self, name: &str, args: &LuaArgs, answer: &Result<ScriptResult, LuaError>)
        ensures
            *final(self) == old(self).noted(
                LuaCall::Called { name: name@, args: *args, answer: *answer },
            ),
    {
        self.log = Ghost(
            self.log@.push(LuaCall::Called { name: name@, args: *args, answer: *answer }),
        );
    }

    /// Call a global function. `false` where there is none, or where it returns false or nil.
    pub fn dispatch(&mut self, fn_name: &str, args: &LuaArgs) -> (r: Result<bool, LuaError>)
        ensures
            exists|answer: Result<ScriptResult, LuaError>| #[trigger]
                old(self).global_may_answer(fn_name@, *args, answer) && r == handled(answer)
                    && *final(self) == old(self).noted(
                    LuaCall::Called { name: fn_name@, args: *args, answer },
                ),
    {
        let answer = self.run_global(fn_name, args);
        self.note_call(fn_name, args, &answer);
        match answer {
            Ok(answer) => Ok(answer.is_handled()),
            Err(fault) => Err(fault),
        }
    }

    /// Call a script by its name: a global function, or where there is a dot in the name, a
    /// function of a global table. `false` where there is none, or where it returns false or
    /// nil.
    pub fn dispatch_namespaced(&mut self, script_name: &str, args: &LuaArgs) -> (r: Result<
        bool,
        LuaError,
    >)
        ensures
            exists|answer: Result<ScriptResult, LuaError>| #[trigger]
                old(self).script_may_answer(script_name@, *args, answer) && r == handled(answer)
                    && *final(self) == old(self).noted(
                    LuaCall::Called { name: script_name@, args: *args, answer },
                ),
    {
        let answer = self.run(script_name, args);
        self.note_call(script_name, args, &answer);
        match answer {
            Ok(answer) => Ok(answer.is_handled()),
            Err(fault) => Err(fault),
        }
    }

    /// Call the script of an item by its name or, where there is none of that name, the global
    /// function `onUse`.
    pub fn dispatch_item(&mut self, script_name: &str, args: &LuaArgs) -> (r: Result<bool, LuaError>)
        ensures
            exists|answer: Result<ScriptResult, LuaError>| #[trigger]
                old(self).item_may_answer(script_name@, *args, answer) && r == handled(answer)
                    && *final(self) == old(self).noted(
                    LuaCall::Called { name: script_name@, args: *args, answer },
                ),
    {
        let answer = match self.run(script_name, args) {
            Ok(ScriptResult::Missing) => self.run_global("onUse", args),
            first => first,
        };
        assert(self.item_may_answer(script_name@, *args, answer));
        self.note_call(script_name, args, &answer);
        match answer {
            Ok(answer) => Ok(answer.is_handled()),
            Err(fault) => Err(fault),
        }
    }

    /// What scripts asked for since the last call.
    pub fn drain_actions(&mut self) -> (r: Vec<GameAction>)
        ensures
            old(self).may_have_asked(r),
            *final(self) == old(self).noted(LuaCall::Drained { asked: r@ }),
    {
        let asked = take_requests(&self.lua);
        self.log = Ghost(self.log@.push(LuaCall::Drained { asked: asked@ }));
        asked
    }

    /// A global integer; `None` where there is none.
    pub fn get_global_i64(&self, name: &str) -> (r: Option<i64>)
        ensures
            self.integer_may_be(name@, r),
    {
        match get_integer(&globals(&self.lua), name) {
            Ok(value) => Some(value),
            Err(_) => None,
        }
    }
}

/// Whatever is done with an interpreter comes last in its log, behind all that was done before.
pub proof fn law_log_keeps_order(rt: LuaRuntime, c: LuaCall)
    ensures
        rt.noted(c).log() == rt.log().push(c),
{
}

} // verus!
