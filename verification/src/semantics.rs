//! The meaning of expressions, statements and programs.
//!
//! Every function here is total. `fuel` bounds how deep evaluations may be nested; a run that
//! exhausts it fails with an error of its own.

use crate::annotations::{annotation_of, checked, infer, substituted};
use crate::ast::{BinaryOp, CallArgM, ExprM, LiteralM, ParamM, StmtM, UnaryOp};
use crate::builtins::MAX_LOOP_ITERATIONS;
use crate::classes::{class_key, constructor_delegates, field_access, field_prefix, method_access,
    method_key, parent, text_in};
use crate::host::{entered_workspace, invalid_reply};
use crate::layout::{block, block_end, entered, line_limit_error, MAX_SOURCE_LINES};
use crate::lines::{bare, class_defined, definition_of, function_defined, stripped};
use crate::modules::{attached, import_cycle, import_path, imported_funcs, imported_vars};
use crate::numbers::{operated, overflow_error};
use crate::outside::base64_text;
use crate::paths::parent_path;
use crate::program::{annotated, names_file, parsed_program};
use crate::registry::{class_registered, function_registered, own_init_key, FunctionM};
use crate::runtime::{builtin, joined};
use crate::syntax::parsed_expression;
use crate::system::external_builtin;
use crate::table::{get, put, without, Rows};
use crate::text::{cut, decimal, has_prefix, has_suffix, includes, join, trim, Str};
use crate::value::{cost, kind_name, shallow_cost, show, truthy, Fun, Val};
use crate::web::{error_response, request_id, request_told, request_value, result_response, routed,
    Target};
use crate::webcheck::{leads, routes_checked};
use crate::world::{ask, assign, assign_all, assign_keys, base_of, cache_module, checkpoint,
    enter_level, extend_fields, fields_of, hold_scope, hold_values, insert_local,
    keys_of, leave_level, let_go, names_of, new_frame, new_object, pending_error, remove_local,
    reserve_bytes, rolled_back, row_values, say, schedule_task, set_field, snapshot, start_loading,
    stop_loading, ModuleM, World};
use vstd::prelude::*;

verus! {

/// How deep evaluations may be nested in one run: as deep as a depth can be counted. The memory for
/// a run ends long before.
pub const MAX_NESTING: usize = usize::MAX;

/// How a sequence of statements ends.
pub enum FlowM {
    Continue,
    Break,
    LoopContinue,
    Return(Val),
    Raise(Val),
}

/// An expression at the place of a statement gives a value, or leaves the function with one.
pub enum OutcomeM {
    Value(Val),
    Propagate(Val),
}

/// An argument of a call, evaluated.
pub struct ArgM {
    pub name: Option<Str>,
    pub value: Val,
}

/// A value or an error, and the context after it.
pub type Out = (Result<Val, Str>, World);

/// What a run of statements leaves behind.
pub struct Ran {
    pub flow: Result<FlowM, Str>,
    pub vars: Rows<Val>,
    pub funcs: Rows<Fun>,
    pub world: World,
}

pub open spec fn fuel_error() -> Str {
    "evaluation nesting limit exceeded"@
}

// ---------------------------------------------------------------------------
// Charging
// ---------------------------------------------------------------------------

/// A value, once its own cost has been taken from the budget.
pub open spec fn charged(value: Val, w: World) -> Out {
    let (r, after) = reserve_bytes(w, shallow_cost(value));
    match r {
        Ok(_) => (Ok(value), after),
        Err(error) => (Err(error), after),
    }
}

/// A value, once its cost with all that it holds has been taken from the budget.
pub open spec fn charged_whole(value: Val, w: World) -> Out {
    let (r, after) = reserve_bytes(w, cost(value));
    match r {
        Ok(_) => (Ok(value), after),
        Err(error) => (Err(error), after),
    }
}

pub open spec fn charged_result(r: Result<Val, Str>, w: World) -> Out {
    match r {
        Ok(value) => charged(value, w),
        Err(error) => (Err(error), w),
    }
}

pub open spec fn charged_whole_result(r: Result<Val, Str>, w: World) -> Out {
    match r {
        Ok(value) => charged_whole(value, w),
        Err(error) => (Err(error), w),
    }
}

// ---------------------------------------------------------------------------
// Steps of expressions that evaluate nothing themselves
// ---------------------------------------------------------------------------

pub open spec fn literal(l: LiteralM) -> Val {
    match l {
        LiteralM::Nil => Val::Nil,
        LiteralM::Bool(b) => Val::Bool(b),
        LiteralM::Number(n) => Val::Number(n),
        LiteralM::Text(s) => Val::Text(s),
    }
}

/// A name stands for a variable, or else for a function.
pub open spec fn named(name: Str, vars: Rows<Val>, funcs: Rows<Fun>) -> Result<Val, Str> {
    match get(vars, name) {
        Some(value) => Ok(value),
        None => match get(funcs, name) {
            Some(function) => Ok(Val::Callable(function)),
            None => Err("undefined variable: "@ + name),
        },
    }
}

pub open spec fn unary_result(op: UnaryOp, value: Val) -> Result<Val, Str> {
    match op {
        UnaryOp::Not => Ok(Val::Bool(!truthy(value))),
        UnaryOp::Negate => match value {
            Val::Number(n) => if n == i64::MIN {
                Err(overflow_error())
            } else {
                Ok(Val::Number((-n) as i64))
            },
            _ => Err("unary '-' expects a number"@),
        },
    }
}

pub open spec fn awaited(value: Val, w: World) -> Out {
    match value {
        Val::Future(inner) => (Ok(*inner), w),
        Val::ScheduledFuture(id) => joined(w, id, None),
        _ => (Err("await expects a future value"@), w),
    }
}

pub open spec fn member_of(
    value: Val,
    member: Str,
    vars: Rows<Val>,
    funcs: Rows<Fun>,
    w: World,
) -> Result<Val, Str> {
    match value {
        Val::Object { class_name, id } => match field_access(
            class_name,
            member,
            vars,
            funcs,
            w.frames,
        ) {
            Err(error) => Err(error),
            Ok(_) => match fields_of(w, id) {
                Err(error) => Err(error),
                Ok(fields) => match get(fields, member) {
                    Some(found) => Ok(found),
                    None => Err("property not found: "@ + member),
                },
            },
        },
        Val::Dict(rows) => match get(rows, member) {
            Some(found) => Ok(found),
            None => Err("key not found: "@ + member),
        },
        _ => Err("property access expects an object or map"@),
    }
}

pub open spec fn item_of(target: Val, index: Val) -> Result<Val, Str> {
    match (target, index) {
        (Val::List(items), Val::Number(n)) => if n < 0 {
            Err("invalid index operation"@)
        } else if n < items.len() {
            Ok(items[n as int])
        } else {
            Err("index out of range"@)
        },
        (Val::Dict(rows), Val::Text(key)) => match get(rows, key) {
            Some(found) => Ok(found),
            None => Err("key not found"@),
        },
        _ => Err("invalid index operation"@),
    }
}

/// What a value at the place of a statement, with a question mark behind it, leads to.
pub open spec fn outcome(value: Val) -> Result<OutcomeM, Str> {
    match value {
        Val::ResultOk(inner) => Ok(OutcomeM::Value(*inner)),
        Val::OptionSome(inner) => Ok(OutcomeM::Value(*inner)),
        Val::ResultErr(_) => Ok(OutcomeM::Propagate(value)),
        Val::OptionNone => Ok(OutcomeM::Propagate(value)),
        _ => Err("? expects a Result or Option value"@),
    }
}

pub open spec fn outcome_in(out: Out, asked: bool) -> (Result<OutcomeM, Str>, World) {
    match out.0 {
        Err(error) => (Err(error), out.1),
        Ok(value) => if asked {
            (outcome(value), out.1)
        } else {
            (Ok(OutcomeM::Value(value)), out.1)
        },
    }
}

// ---------------------------------------------------------------------------
// Arguments
// ---------------------------------------------------------------------------

pub open spec fn positional(values: Seq<Val>) -> Seq<ArgM> {
    values.map_values(|value: Val| ArgM { name: None, value })
}

pub open spec fn argument_values(args: Seq<ArgM>) -> Seq<Val> {
    args.map_values(|arg: ArgM| arg.value)
}

pub open spec fn any_named(args: Seq<ArgM>) -> bool {
    exists|i: int| 0 <= i < args.len() && (#[trigger] args[i]).name is Some
}

/// The number of parameters without a default, from number `i` on.
pub open spec fn required(params: Seq<ParamM>, i: nat) -> nat
    decreases params.len() - i,
{
    if i >= params.len() {
        0
    } else {
        (if params[i as int].default is None {
            1nat
        } else {
            0nat
        }) + required(params, i + 1)
    }
}

/// Arranges arguments, from number `i` on, by the names of the parameters they stand for.
pub open spec fn arranged(
    args: Seq<ArgM>,
    params: Seq<ParamM>,
    i: nat,
    next: nat,
    done: Rows<Val>,
    saw_named: bool,
    limit: Str,
) -> Result<Rows<Val>, Str>
    decreases args.len() - i,
{
    if i >= args.len() {
        Ok(done)
    } else {
        let arg = args[i as int];
        match arg.name {
            Some(name) => if get(done, name) is Some {
                Err("duplicate named argument: "@ + name)
            } else {
                arranged(args, params, i + 1, next, put(done, name, arg.value), true, limit)
            },
            None => if saw_named {
                Err("positional argument cannot follow a named argument"@)
            } else if next >= params.len() {
                Err(limit)
            } else {
                arranged(
                    args,
                    params,
                    i + 1,
                    next + 1,
                    put(done, params[next as int].name, arg.value),
                    saw_named,
                    limit,
                )
            },
        }
    }
}

pub open spec fn is_parameter(params: Seq<ParamM>, name: Str) -> bool {
    exists|i: int| 0 <= i < params.len() && (#[trigger] params[i]).name == name
}

/// The first name, from number `i` on, that no parameter has.
pub open spec fn unknown_argument(given: Rows<Val>, params: Seq<ParamM>, i: nat) -> Option<Str>
    decreases given.len() - i,
{
    if i >= given.len() {
        None
    } else if !is_parameter(params, given[i as int].0) {
        Some(given[i as int].0)
    } else {
        unknown_argument(given, params, i + 1)
    }
}

/// Arguments by name, if all of them fit.
pub open spec fn fitting(args: Seq<ArgM>, params: Seq<ParamM>, limit: Str) -> Result<Rows<Val>, Str> {
    match arranged(args, params, 0, 0, Seq::empty(), false, limit) {
        Err(error) => Err(error),
        Ok(given) => match unknown_argument(given, params, 0) {
            Some(name) => Err("unknown named argument: "@ + name),
            None => Ok(given),
        },
    }
}

pub open spec fn generic_names(type_params: Seq<Str>) -> Str {
    join(type_params, ", "@)
}

/// Tests an argument against the annotation of its parameter; the type parameters that it
/// settles are bound.
pub open spec fn argument_checked(
    param: ParamM,
    value: Val,
    type_params: Seq<Str>,
    bindings: Rows<Str>,
) -> Result<Rows<Str>, Str> {
    match param.annotation {
        None => Ok(bindings),
        Some(annotation) => if type_params.len() == 0 {
            match checked(param.name, annotation, value) {
                Ok(_) => Ok(bindings),
                Err(error) => Err(error),
            }
        } else {
            let (consistent, more) = infer(
                annotation,
                annotation_of(value, 0),
                type_params,
                bindings,
                0,
            );
            if !consistent {
                Err("generic argument substitution for '"@ + generic_names(type_params)
                    + "' is inconsistent"@)
            } else {
                match substituted(annotation, more, 0) {
                    None => Err("generic argument substitution for '"@ + generic_names(type_params)
                        + "' exceeds the recursion limit"@),
                    Some(concrete) => match checked(param.name, concrete, value) {
                        Ok(_) => Ok(more),
                        Err(error) => Err(error),
                    },
                }
            }
        },
    }
}

/// Whether every type parameter is bound.
pub open spec fn all_bound(type_params: Seq<Str>, bindings: Rows<Str>) -> bool {
    forall|i: int| 0 <= i < type_params.len() ==> get(bindings, #[trigger] type_params[i]) is Some
}

/// What a call returns when its body has ended.
pub open spec fn returned(flow: FlowM) -> Result<Val, Str> {
    match flow {
        FlowM::Return(value) => Ok(value),
        FlowM::Continue => Ok(Val::Nil),
        FlowM::Break => Err("break/continue cannot be used outside a loop"@),
        FlowM::LoopContinue => Err("break/continue cannot be used outside a loop"@),
        FlowM::Raise(value) => Err("raised error: "@ + show(value)),
    }
}

pub open spec fn result_checked(
    annotation: Option<Str>,
    type_params: Seq<Str>,
    bindings: Rows<Str>,
    value: Val,
) -> Result<(), Str> {
    match annotation {
        None => Ok(()),
        Some(text) => if type_params.len() == 0 {
            checked("return"@, text, value)
        } else {
            match substituted(text, bindings, 0) {
                None => Err("generic return substitution for '"@ + generic_names(type_params)
                    + "' exceeds the recursion limit"@),
                Some(concrete) => checked("return"@, concrete, value),
            }
        },
    }
}

/// Hands the result of a call over: an asynchronous call schedules it.
pub open spec fn handed_over(value: Val, is_async: bool, w: World) -> Out {
    if is_async {
        let (r, after) = schedule_task(w, value);
        match r {
            Ok(id) => (Ok(Val::ScheduledFuture(id)), after),
            Err(error) => (Err(error), after),
        }
    } else {
        (Ok(value), w)
    }
}

pub open spec fn function_arity(params: Seq<ParamM>, got: int) -> Str {
    "function expects "@ + decimal(required(params, 0) as int) + " to "@ + decimal(
        params.len() as int,
    ) + " arguments, got "@ + decimal(got)
}

pub open spec fn method_arity(params: Seq<ParamM>, got: int) -> Str {
    "method expects "@ + decimal(required(params, 0) as int) + " to "@ + decimal(
        params.len() as int,
    ) + " arguments after self, got "@ + decimal(got)
}

pub open spec fn function_limit(params: Seq<ParamM>) -> Str {
    "function expects at most "@ + decimal(params.len() as int) + " arguments"@
}

pub open spec fn method_limit(params: Seq<ParamM>) -> Str {
    "method expects at most "@ + decimal(params.len() as int) + " arguments after self"@
}

/// The parameters of a method that a caller fills.
pub open spec fn caller_params(params: Seq<ParamM>) -> Seq<ParamM> {
    if params.len() > 0 {
        params.skip(1)
    } else {
        params
    }
}

/// The frame of a call: a function with a parsed body runs in a frame of its own.
pub open spec fn call_frame(f: Fun, w: World) -> (Option<usize>, World) {
    match f.ast_body {
        Some(_) => {
            let (id, after) = new_frame(w, Seq::empty(), Some(f.closure), None);
            (Some(id), after)
        },
        None => (None, w),
    }
}

/// The variables that a call begins with.
pub open spec fn call_names(f: Fun, frame: Option<usize>, w: World) -> Rows<Val> {
    match frame {
        Some(id) => snapshot(w.frames, id as int),
        None => snapshot(w.frames, f.closure as int),
    }
}

/// Binds a name in the frame of a call, if it has one.
pub open spec fn bound_local(w: World, frame: Option<usize>, name: Str, value: Val) -> World {
    match frame {
        Some(id) => insert_local(w, id as int, name, value),
        None => w,
    }
}

/// The class above the one that owns a method.
pub open spec fn super_class(local: Rows<Val>, funcs: Rows<Fun>) -> Option<Str> {
    match text_in(get(local, "__zap_owner_class"@)) {
        Some(owner) => parent(owner, funcs),
        None => None,
    }
}

/// Takes the changes of captured variables back into the closure of a function made of lines.
pub open spec fn synchronized(f: Fun, keys: Seq<Str>, ran: Ran) -> World {
    match f.ast_body {
        Some(_) => ran.world,
        None => assign_keys(ran.world, f.closure as int, keys, ran.vars, 0),
    }
}

pub open spec fn without_self(keys: Seq<Str>, n: nat) -> Seq<Str>
    decreases n,
{
    if n == 0 || n > keys.len() {
        Seq::empty()
    } else {
        let rest = without_self(keys, (n - 1) as nat);
        if keys[n - 1] == "self"@ {
            rest
        } else {
            rest.push(keys[n - 1])
        }
    }
}

// ---------------------------------------------------------------------------
// Objects
// ---------------------------------------------------------------------------

/// Divides the arguments of a construction, from number `i` on: maps in front give fields, the
/// rest goes to the constructor.
pub open spec fn construction(args: Seq<Val>, i: nat, fields: Rows<Val>, rest: Seq<Val>) -> (
    Rows<Val>,
    Seq<Val>,
)
    decreases args.len() - i,
{
    if i >= args.len() {
        (fields, rest)
    } else {
        match args[i as int] {
            Val::Dict(rows) => if rest.len() == 0 {
                construction(args, i + 1, rows, rest)
            } else {
                construction(args, i + 1, fields, rest.push(args[i as int]))
            },
            _ => construction(args, i + 1, fields, rest.push(args[i as int])),
        }
    }
}

/// The expression that gives a field its first value.
pub open spec fn field_value(f: Fun) -> Option<ExprM> {
    match f.ast_body {
        None => None,
        Some(body) => if body.len() > 0 {
            match body[0] {
                StmtM::Return(Some(value)) => Some(value),
                _ => None,
            }
        } else {
            None
        },
    }
}

/// The constructor of the parent that runs before a class's own one.
pub open spec fn parent_init(class_name: Str, funcs: Rows<Fun>) -> Option<(Str, Fun)> {
    match get(funcs, method_key(class_name, "init"@)) {
        None => None,
        Some(init) => if constructor_delegates(init) || get(funcs, own_init_key(class_name)) is None {
            None
        } else {
            match parent(class_name, funcs) {
                None => None,
                Some(parent_name) => match get(funcs, method_key(parent_name, "init"@)) {
                    None => None,
                    Some(function) => Some((parent_name, function)),
                },
            }
        },
    }
}

// ---------------------------------------------------------------------------
// Expressions
// ---------------------------------------------------------------------------

/// The value of an expression. A failure gives back what the evaluation took from the budget.
pub open spec fn eval(e: ExprM, vars: Rows<Val>, funcs: Rows<Fun>, w: World, fuel: nat) -> Out
    decreases fuel, 0nat, 0nat,
{
    if fuel == 0 {
        (Err(fuel_error()), w)
    } else {
        let (r, after) = eval_inner(e, vars, funcs, w, (fuel - 1) as nat);
        match r {
            Ok(value) => (Ok(value), after),
            Err(error) => (Err(error), rolled_back(after, checkpoint(w))),
        }
    }
}

pub open spec fn eval_inner(e: ExprM, vars: Rows<Val>, funcs: Rows<Fun>, w: World, fuel: nat) -> Out
    decreases fuel, 9nat, 0nat,
{
    match e {
        ExprM::Literal(l) => charged(literal(l), w),
        ExprM::Name(name) => (named(name, vars, funcs), w),
        ExprM::List(items) => {
            let (r, after) = eval_items(items, 0, Seq::empty(), vars, funcs, w, fuel);
            match r {
                Err(error) => (Err(error), after),
                Ok(values) => charged(Val::List(values), after),
            }
        },
        ExprM::Dict(pairs) => {
            let (r, after) = eval_pairs(pairs, 0, Seq::empty(), vars, funcs, w, fuel);
            match r {
                Err(error) => (Err(error), after),
                Ok(rows) => charged(Val::Dict(rows), after),
            }
        },
        ExprM::Unary { op, value } => {
            let (r, after) = eval(*value, vars, funcs, w, fuel);
            match r {
                Err(error) => (Err(error), after),
                Ok(v) => charged_result(unary_result(op, v), after),
            }
        },
        ExprM::Binary { left, op, right } => eval_binary(*left, op, *right, vars, funcs, w, fuel),
        ExprM::Conditional { condition, then_branch, else_branch } => {
            let (r, after) = eval(*condition, vars, funcs, w, fuel);
            match r {
                Err(error) => (Err(error), after),
                Ok(v) => if truthy(v) {
                    eval(*then_branch, vars, funcs, after, fuel)
                } else {
                    eval(*else_branch, vars, funcs, after, fuel)
                },
            }
        },
        ExprM::Await(value) => {
            let (r, after) = eval(*value, vars, funcs, w, fuel);
            match r {
                Err(error) => (Err(error), after),
                Ok(v) => awaited(v, after),
            }
        },
        ExprM::Propagate(_) => (
            Err("? propagation must be used as a complete statement expression"@),
            w,
        ),
        ExprM::Call { callee, args } => eval_call(*callee, args, vars, funcs, w, fuel),
        ExprM::Member { target, member } => {
            let (r, after) = eval(*target, vars, funcs, w, fuel);
            match r {
                Err(error) => (Err(error), after),
                Ok(v) => charged_whole_result(member_of(v, member, vars, funcs, after), after),
            }
        },
        ExprM::Index { target, index } => {
            let (r, w1) = eval(*target, vars, funcs, w, fuel);
            match r {
                Err(error) => (Err(error), w1),
                Ok(t) => {
                    let (s, inner) = eval(*index, vars, funcs, hold_values(w1, seq![t]), fuel);
                    let w2 = let_go(inner);
                    match s {
                        Err(error) => (Err(error), w2),
                        Ok(i) => charged_whole_result(item_of(t, i), w2),
                    }
                },
            }
        },
    }
}

/// A binary operation; `and` and `or` of a truth value leave the right side out where the left
/// one decides.
pub open spec fn eval_binary(
    left: ExprM,
    op: BinaryOp,
    right: ExprM,
    vars: Rows<Val>,
    funcs: Rows<Fun>,
    w: World,
    fuel: nat,
) -> Out
    decreases fuel, 1nat, 0nat,
{
    let (r, w1) = eval(left, vars, funcs, w, fuel);
    match r {
        Err(error) => (Err(error), w1),
        Ok(a) => if (op == BinaryOp::And && a == Val::Bool(false)) || (op == BinaryOp::Or && a
            == Val::Bool(true)) {
            charged(a, w1)
        } else {
            let (s, inner) = eval(right, vars, funcs, hold_values(w1, seq![a]), fuel);
            let w2 = let_go(inner);
            match s {
                Err(error) => (Err(error), w2),
                Ok(b) => charged_result(operated(a, op, b), w2),
            }
        },
    }
}

/// The values of expressions, from number `i` on, behind `done`.
pub open spec fn eval_items(
    items: Seq<ExprM>,
    i: nat,
    done: Seq<Val>,
    vars: Rows<Val>,
    funcs: Rows<Fun>,
    w: World,
    fuel: nat,
) -> (Result<Seq<Val>, Str>, World)
    decreases fuel, 1nat, items.len() - i,
{
    if i >= items.len() {
        (Ok(done), w)
    } else {
        let (r, inner) = eval(items[i as int], vars, funcs, hold_values(w, done), fuel);
        let after = let_go(inner);
        match r {
            Err(error) => (Err(error), after),
            Ok(value) => eval_items(items, i + 1, done.push(value), vars, funcs, after, fuel),
        }
    }
}

/// The entries of a map, from number `i` on, put into `done`.
pub open spec fn eval_pairs(
    pairs: Seq<(ExprM, ExprM)>,
    i: nat,
    done: Rows<Val>,
    vars: Rows<Val>,
    funcs: Rows<Fun>,
    w: World,
    fuel: nat,
) -> (Result<Rows<Val>, Str>, World)
    decreases fuel, 1nat, pairs.len() - i,
{
    if i >= pairs.len() {
        (Ok(done), w)
    } else {
        let (k, inner) = eval(
            pairs[i as int].0,
            vars,
            funcs,
            hold_values(w, row_values(done)),
            fuel,
        );
        let w1 = let_go(inner);
        match k {
            Err(error) => (Err(error), w1),
            Ok(Val::Text(key)) => {
                let (r, inner) = eval(
                    pairs[i as int].1,
                    vars,
                    funcs,
                    hold_values(w1, row_values(done)),
                    fuel,
                );
                let w2 = let_go(inner);
                match r {
                    Err(error) => (Err(error), w2),
                    Ok(value) => eval_pairs(
                        pairs,
                        i + 1,
                        put(done, key, value),
                        vars,
                        funcs,
                        w2,
                        fuel,
                    ),
                }
            },
            Ok(_) => (Err("map keys must be text"@), w1),
        }
    }
}

/// The arguments of a call, from number `i` on, behind `done`.
pub open spec fn eval_args(
    args: Seq<CallArgM>,
    i: nat,
    done: Seq<ArgM>,
    vars: Rows<Val>,
    funcs: Rows<Fun>,
    w: World,
    fuel: nat,
) -> (Result<Seq<ArgM>, Str>, World)
    decreases fuel, 1nat, args.len() - i,
{
    if i >= args.len() {
        (Ok(done), w)
    } else {
        let (r, inner) = eval(
            args[i as int].value,
            vars,
            funcs,
            hold_values(w, argument_values(done)),
            fuel,
        );
        let after = let_go(inner);
        match r {
            Err(error) => (Err(error), after),
            Ok(value) => eval_args(
                args,
                i + 1,
                done.push(ArgM { name: args[i as int].name, value }),
                vars,
                funcs,
                after,
                fuel,
            ),
        }
    }
}

/// A call: the arguments first, then by what is called. The caller keeps its variables and
/// functions in hand meanwhile.
pub open spec fn eval_call(
    callee: ExprM,
    args: Seq<CallArgM>,
    vars: Rows<Val>,
    funcs: Rows<Fun>,
    w: World,
    fuel: nat,
) -> Out
    decreases fuel, 8nat, 1nat,
{
    let (r, w1) = eval_args(args, 0, Seq::empty(), vars, funcs, w, fuel);
    match r {
        Err(error) => (Err(error), w1),
        Ok(values) => {
            let (s, inner) = dispatched(
                callee,
                values,
                vars,
                funcs,
                hold_scope(w1, vars, funcs),
                fuel,
            );
            (s, let_go(inner))
        },
    }
}

/// A call with its arguments.
pub open spec fn dispatched(
    callee: ExprM,
    values: Seq<ArgM>,
    vars: Rows<Val>,
    funcs: Rows<Fun>,
    w: World,
    fuel: nat,
) -> Out
    decreases fuel, 8nat, 0nat,
{
    match callee {
        ExprM::Name(name) => call_named(name, values, vars, funcs, w, fuel),
        ExprM::Member { target, member } => call_member(
            *target,
            member,
            values,
            vars,
            funcs,
            w,
            fuel,
        ),
        _ => {
            let (c, inner) = eval(
                callee,
                vars,
                funcs,
                hold_values(w, argument_values(values)),
                fuel,
            );
            let w1 = let_go(inner);
            match c {
                Err(error) => (Err(error), w1),
                Ok(Val::Callable(function)) => {
                    let (s, last) = call_function(
                        function,
                        values,
                        funcs,
                        hold_values(w1, seq![Val::Callable(function)]),
                        fuel,
                    );
                    (s, let_go(last))
                },
                Ok(other) => (
                    Err("value of type "@ + kind_name(other) + " is not callable"@),
                    w1,
                ),
            }
        },
    }
}

pub open spec fn no_named_arguments(name: Str) -> Str {
    "named arguments are not supported for built-in function: "@ + name
}

/// The builtin function with a name: the ones of the language first, then those of the host.
pub open spec fn called_builtin(name: Str, args: Seq<Val>, w: World) -> Out {
    let (a, w1) = builtin(name, args, w);
    match a {
        Err(error) => (Err(error), w1),
        Ok(Some(value)) => (Ok(value), w1),
        Ok(None) => {
            let (b, w2) = external_builtin(name, args, w1);
            match b {
                Err(error) => (Err(error), w2),
                Ok(Some(value)) => charged_whole(value, w2),
                Ok(None) => (Err("undefined function: "@ + name), w2),
            }
        },
    }
}

/// A call by name: a construction, a function, a variable that holds one, a builtin function.
pub open spec fn call_named(
    name: Str,
    values: Seq<ArgM>,
    vars: Rows<Val>,
    funcs: Rows<Fun>,
    w: World,
    fuel: nat,
) -> Out
    decreases fuel, 7nat, 0nat,
{
    if name == "new"@ {
        if any_named(values) {
            (Err(no_named_arguments("new"@)), w)
        } else {
            let given = argument_values(values);
            let (r, inner) = construct(given, vars, funcs, hold_values(w, given), fuel);
            (r, let_go(inner))
        }
    } else {
        match get(funcs, name) {
            Some(function) => call_function(function, values, funcs, w, fuel),
            None => match get(vars, name) {
                Some(Val::Callable(function)) => call_function(function, values, funcs, w, fuel),
                _ => if any_named(values) {
                    (Err(no_named_arguments(name)), w)
                } else if name == "web_serve"@ {
                    let given = argument_values(values);
                    let (r, inner) = web_serve(given, funcs, hold_values(w, given), fuel);
                    (r, let_go(inner))
                } else {
                    called_builtin(name, argument_values(values), w)
                },
            },
        }
    }
}

/// The class whose method is called and the receiver of the call.
pub open spec fn receiver(
    target: ExprM,
    vars: Rows<Val>,
    funcs: Rows<Fun>,
    w: World,
    fuel: nat,
) -> (Result<(Str, Val), Str>, World)
    decreases fuel, 1nat, 0nat,
{
    if target == ExprM::Name("super"@) {
        (
            match get(vars, "super"@) {
                Some(Val::Text(class_name)) => match get(vars, "self"@) {
                    Some(value) => Ok((class_name, value)),
                    None => Err("super requires self"@),
                },
                _ => Err("super is only available inside a method"@),
            },
            w,
        )
    } else {
        let (r, after) = eval(target, vars, funcs, w, fuel);
        (
            match r {
                Err(error) => Err(error),
                Ok(value) => match value {
                    Val::Object { class_name, .. } => Ok((class_name, value)),
                    _ => Err("methods can only be called on objects"@),
                },
            },
            after,
        )
    }
}

pub open spec fn call_member(
    target: ExprM,
    member: Str,
    values: Seq<ArgM>,
    vars: Rows<Val>,
    funcs: Rows<Fun>,
    w: World,
    fuel: nat,
) -> Out
    decreases fuel, 7nat, 0nat,
{
    let (r, inner) = receiver(
        target,
        vars,
        funcs,
        hold_values(w, argument_values(values)),
        fuel,
    );
    let w1 = let_go(inner);
    match r {
        Err(error) => (Err(error), w1),
        Ok((class_name, value)) => match get(funcs, method_key(class_name, member)) {
            None => (Err("undefined method: "@ + method_key(class_name, member)), w1),
            Some(function) => match method_access(function, class_name, vars, funcs) {
                Err(error) => (Err(error), w1),
                Ok(_) => call_method(function, values, value, funcs, w1, fuel),
            },
        },
    }
}

/// The value of an expression in source text.
pub open spec fn evaluated(source: Str, vars: Rows<Val>, funcs: Rows<Fun>, w: World, fuel: nat) -> Out
    decreases fuel, 1nat, 0nat,
{
    match parsed_expression(source) {
        Err(error) => (Err(error), w),
        Ok(e) => eval(e, vars, funcs, w, fuel),
    }
}

// ---------------------------------------------------------------------------
// Calls
// ---------------------------------------------------------------------------

/// Gives the parameters, from number `i` on, their values.
pub open spec fn bind(
    params: Seq<ParamM>,
    i: nat,
    given: Rows<Val>,
    local: Rows<Val>,
    bindings: Rows<Str>,
    type_params: Seq<Str>,
    frame: Option<usize>,
    funcs: Rows<Fun>,
    w: World,
    fuel: nat,
) -> (Result<(Rows<Val>, Rows<Str>), Str>, World)
    decreases fuel, 2nat, params.len() - i,
{
    if i >= params.len() {
        (Ok((local, bindings)), w)
    } else {
        let param = params[i as int];
        let (r, w1) = match get(given, param.name) {
            Some(value) => (Ok(value), w),
            None => match param.default {
                Some(source) => {
                    let (s, inner) = evaluated(
                        source,
                        local,
                        funcs,
                        hold_values(w, row_values(given)),
                        fuel,
                    );
                    (s, let_go(inner))
                },
                None => (Err("missing required argument: "@ + param.name), w),
            },
        };
        match r {
            Err(error) => (Err(error), w1),
            Ok(value) => match argument_checked(param, value, type_params, bindings) {
                Err(error) => (Err(error), w1),
                Ok(more) => bind(
                    params,
                    i + 1,
                    without(given, param.name),
                    put(local, param.name, value),
                    more,
                    type_params,
                    frame,
                    funcs,
                    bound_local(w1, frame, param.name, value),
                    fuel,
                ),
            },
        }
    }
}

/// The base path that a frame sees.
pub open spec fn frame_base(w: World, frame: usize) -> Str {
    match base_of(w.frames, frame as int) {
        Some(base) => base,
        None => "."@,
    }
}

/// Runs the body of a function in the frame of a call, or line by line.
pub open spec fn run_body(
    f: Fun,
    local: Rows<Val>,
    funcs: Rows<Fun>,
    w: World,
    frame: Option<usize>,
    fuel: nat,
) -> Ran
    decreases fuel, 1nat, 0nat,
{
    match (f.ast_body, frame) {
        (Some(body), Some(id)) => run(
            body,
            local,
            funcs,
            w,
            frame_base(w, id),
            id,
            fuel,
        ),
        _ => run_lines(f.body, local, funcs, w, "."@, fuel),
    }
}

/// The call of a function.
pub open spec fn call_function(f: Fun, args: Seq<ArgM>, funcs: Rows<Fun>, w: World, fuel: nat) -> Out
    decreases fuel, 3nat, 0nat,
{
    if args.len() < required(f.params, 0) || args.len() > f.params.len() {
        (Err(function_arity(f.params, args.len() as int)), w)
    } else {
        let (frame, w1) = call_frame(f, w);
        let local = call_names(f, frame, w1);
        let keys = keys_of(snapshot(w1.frames, f.closure as int));
        match fitting(args, f.params, function_limit(f.params)) {
            Err(error) => (Err(error), w1),
            Ok(given) => {
                let (r, w2) = bind(
                    f.params,
                    0,
                    given,
                    local,
                    Seq::empty(),
                    f.type_params,
                    frame,
                    funcs,
                    w1,
                    fuel,
                );
                match r {
                    Err(error) => (Err(error), w2),
                    Ok((names, bindings)) => if !all_bound(f.type_params, bindings) {
                        (
                            Err("generic argument substitution for '"@ + generic_names(
                                f.type_params,
                            ) + "' is incomplete"@),
                            w2,
                        )
                    } else {
                        let ran = run_body(f, names, funcs, w2, frame, fuel);
                        match ran.flow {
                            Err(error) => (Err(error), ran.world),
                            Ok(flow) => match returned(flow) {
                                Err(error) => (Err(error), ran.world),
                                Ok(value) => {
                                    let w3 = synchronized(f, keys, ran);
                                    match result_checked(
                                        f.return_annotation,
                                        f.type_params,
                                        bindings,
                                        value,
                                    ) {
                                        Err(error) => (Err(error), w3),
                                        Ok(_) => handed_over(value, f.is_async, w3),
                                    }
                                },
                            },
                        }
                    },
                }
            },
        }
    }
}

/// The call of a method on a receiver.
pub open spec fn call_method(
    f: Fun,
    args: Seq<ArgM>,
    self_value: Val,
    funcs: Rows<Fun>,
    w: World,
    fuel: nat,
) -> Out
    decreases fuel, 3nat, 0nat,
{
    let params = caller_params(f.params);
    if args.len() < required(params, 0) || args.len() > params.len() {
        (Err(method_arity(params, args.len() as int)), w)
    } else {
        let (frame, w1) = call_frame(f, w);
        let keys = keys_of(snapshot(w1.frames, f.closure as int));
        let names = put(call_names(f, frame, w1), "self"@, self_value);
        let w2 = bound_local(w1, frame, "self"@, self_value);
        let above = super_class(names, funcs);
        let local = match above {
            Some(class_name) => put(names, "super"@, Val::Text(class_name)),
            None => names,
        };
        let w3 = match above {
            Some(class_name) => bound_local(w2, frame, "super"@, Val::Text(class_name)),
            None => w2,
        };
        match fitting(args, params, method_limit(params)) {
            Err(error) => (Err(error), w3),
            Ok(given) => {
                let (r, w4) = bind(
                    params,
                    0,
                    given,
                    local,
                    Seq::empty(),
                    Seq::empty(),
                    frame,
                    funcs,
                    w3,
                    fuel,
                );
                match r {
                    Err(error) => (Err(error), w4),
                    Ok((filled, _)) => {
                        let ran = run_body(f, filled, funcs, w4, frame, fuel);
                        match ran.flow {
                            Err(error) => (Err(error), ran.world),
                            Ok(flow) => match returned(flow) {
                                Err(error) => (Err(error), ran.world),
                                Ok(value) => {
                                    let w5 = synchronized(f, without_self(keys, keys.len()), ran);
                                    match result_checked(
                                        f.return_annotation,
                                        Seq::empty(),
                                        Seq::empty(),
                                        value,
                                    ) {
                                        Err(error) => (Err(error), w5),
                                        Ok(_) => handed_over(value, f.is_async, w5),
                                    }
                                },
                            },
                        }
                    },
                }
            },
        }
    }
}

// ---------------------------------------------------------------------------
// Construction
// ---------------------------------------------------------------------------

/// Gives an object the fields that the records from number `i` on declare for a class.
pub open spec fn own_fields(
    class_name: Str,
    object: Val,
    i: nat,
    vars: Rows<Val>,
    funcs: Rows<Fun>,
    w: World,
    fuel: nat,
) -> (Result<(), Str>, World)
    decreases fuel, 3nat, funcs.len() - i,
{
    if i >= funcs.len() {
        (Ok(()), w)
    } else {
        let key = funcs[i as int].0;
        match (if has_prefix(key, field_prefix(class_name)) {
            field_value(funcs[i as int].1)
        } else {
            None
        }) {
            None => own_fields(class_name, object, i + 1, vars, funcs, w, fuel),
            Some(value) => {
                let local = put(
                    put(vars, "self"@, object),
                    "__zap_owner_class"@,
                    Val::Text(class_name),
                );
                let (r, w1) = eval(value, local, funcs, w, fuel);
                match r {
                    Err(error) => (Err(error), w1),
                    Ok(v) => match object {
                        Val::Object { id, .. } => {
                            let (s, w2) = set_field(
                                w1,
                                id,
                                key.skip(field_prefix(class_name).len() as int),
                                v,
                            );
                            match s {
                                Err(error) => (Err(error), w2),
                                Ok(_) => own_fields(
                                    class_name,
                                    object,
                                    i + 1,
                                    vars,
                                    funcs,
                                    w2,
                                    fuel,
                                ),
                            }
                        },
                        _ => (Err("field initialization expects an object"@), w1),
                    },
                }
            },
        }
    }
}

/// Gives an object the fields of its class, those of the ancestors first. `steps` bounds the
/// line of ancestors.
pub open spec fn init_fields(
    class_name: Str,
    object: Val,
    steps: nat,
    vars: Rows<Val>,
    funcs: Rows<Fun>,
    w: World,
    fuel: nat,
) -> (Result<(), Str>, World)
    decreases fuel, 4nat, steps,
{
    let (r, w1) = match parent(class_name, funcs) {
        None => (Ok(()), w),
        Some(parent_name) => if steps == 0 {
            (Err("class hierarchy is cyclic: "@ + class_name), w)
        } else {
            init_fields(parent_name, object, (steps - 1) as nat, vars, funcs, w, fuel)
        },
    };
    match r {
        Err(error) => (Err(error), w1),
        Ok(_) => if object is Object {
            own_fields(class_name, object, 0, vars, funcs, w1, fuel)
        } else {
            (Err("field initialization expects an object"@), w1)
        },
    }
}

/// Constructs an object. A failure gives back what the construction took from the budget.
pub open spec fn construct(args: Seq<Val>, vars: Rows<Val>, funcs: Rows<Fun>, w: World, fuel: nat) -> Out
    decreases fuel, 6nat, 0nat,
{
    let (r, after) = construct_inner(args, vars, funcs, w, fuel);
    match r {
        Ok(value) => (Ok(value), after),
        Err(error) => (Err(error), rolled_back(after, checkpoint(w))),
    }
}

pub open spec fn construct_inner(
    args: Seq<Val>,
    vars: Rows<Val>,
    funcs: Rows<Fun>,
    w: World,
    fuel: nat,
) -> Out
    decreases fuel, 5nat, 0nat,
{
    if args.len() == 0 {
        (Err("new expects a text class name"@), w)
    } else {
        match args[0] {
            Val::Text(class_name) => if get(funcs, class_key(class_name)) is None {
                (Err("unknown class: "@ + class_name), w)
            } else {
                let (fields, rest) = construction(args, 1, Seq::empty(), Seq::empty());
                let (object, w1) = new_object(w, class_name);
                let (a, w2) = init_fields(class_name, object, funcs.len(), vars, funcs, w1, fuel);
                match a {
                    Err(error) => (Err(error), w2),
                    Ok(_) => {
                        let (b, w3) = extend_fields(w2, object->id, fields);
                        match b {
                            Err(error) => (Err(error), w3),
                            Ok(_) => construct_parent(
                                class_name,
                                object,
                                rest,
                                vars,
                                funcs,
                                w3,
                                fuel,
                            ),
                        }
                    },
                }
            },
            _ => (Err("new expects a text class name"@), w),
        }
    }
}

/// Runs the constructor of the parent, where the class's own one leaves that to the language.
pub open spec fn construct_parent(
    class_name: Str,
    object: Val,
    rest: Seq<Val>,
    vars: Rows<Val>,
    funcs: Rows<Fun>,
    w: World,
    fuel: nat,
) -> Out
    decreases fuel, 4nat, 1nat,
{
    match parent_init(class_name, funcs) {
        None => construct_own(class_name, object, rest, vars, funcs, w, fuel),
        Some((parent_name, function)) => match method_access(function, parent_name, vars, funcs) {
            Err(error) => (Err(error), w),
            Ok(_) => {
                let (r, w1) = call_method(function, positional(rest), object, funcs, w, fuel);
                match r {
                    Err(error) => (Err(error), w1),
                    Ok(_) => construct_own(class_name, object, rest, vars, funcs, w1, fuel),
                }
            },
        },
    }
}

/// Runs the constructor of the class and takes the object's cost from the budget.
pub open spec fn construct_own(
    class_name: Str,
    object: Val,
    rest: Seq<Val>,
    vars: Rows<Val>,
    funcs: Rows<Fun>,
    w: World,
    fuel: nat,
) -> Out
    decreases fuel, 4nat, 0nat,
{
    match get(funcs, method_key(class_name, "init"@)) {
        None => charged(object, w),
        Some(function) => match method_access(function, class_name, vars, funcs) {
            Err(error) => (Err(error), w),
            Ok(_) => {
                let (r, w1) = call_method(function, positional(rest), object, funcs, w, fuel);
                match r {
                    Err(error) => (Err(error), w1),
                    Ok(_) => charged(object, w1),
                }
            },
        },
    }
}

// ---------------------------------------------------------------------------
// Serving requests
// ---------------------------------------------------------------------------

pub open spec fn served_record(address: Str, served: usize) -> Val {
    let t = put(Seq::empty(), "address"@, Val::Text(address));
    let t = put(t, "served"@, Val::Number(served as i64));
    Val::Dict(t)
}

/// Hands a response to the host. That it could not be written does not matter; a call that has
/// no reply yet does.
pub open spec fn response_sent(response: Seq<u8>, w: World) -> (Result<(), Str>, World) {
    let (r, after) = ask(w, "web_respond"@, seq![Val::Text(base64_text(response))]);
    match r {
        Err(error) => if after.pending is Some {
            (Err(error), after)
        } else {
            (Ok(()), after)
        },
        Ok(_) => (Ok(()), after),
    }
}

/// The response to a request: the handler's, or one that reports what went wrong.
pub open spec fn answered(
    request: Result<crate::web::RequestM, Str>,
    routes: Seq<Val>,
    funcs: Rows<Fun>,
    w: World,
    fuel: nat,
) -> (Result<Seq<u8>, Str>, World)
    decreases fuel, 4nat, 1nat,
{
    match request {
        Err(_) => {
            let (r, w1) = request_id(Seq::empty(), w);
            match r {
                Err(error) => (Err(error), w1),
                Ok(id) => (Ok(error_response(400, "bad_request"@, id)), w1),
            }
        },
        Ok(found) => {
            let (r, w1) = request_id(found.headers, w);
            match r {
                Err(error) => (Err(error), w1),
                Ok(id) => answered_as(found, id, routes, funcs, w1, fuel),
            }
        },
    }
}

/// The response to a request with an identifier.
pub open spec fn answered_as(
    found: crate::web::RequestM,
    id: Str,
    routes: Seq<Val>,
    funcs: Rows<Fun>,
    w1: World,
    fuel: nat,
) -> (Result<Seq<u8>, Str>, World)
    decreases fuel, 4nat, 0nat,
{
    match routed(routes, funcs, found, 0, false) {
        Err(error) => (Err(error), w1),
        Ok(Target::NotAllowed) => (
            Ok(error_response(405, "method_not_allowed"@, id)),
            w1,
        ),
        Ok(Target::NotFound) => (Ok(error_response(404, "not_found"@, id)), w1),
        Ok(Target::Handler(function, params)) => {
            let (r, w2) = call_function(
                function,
                positional(seq![request_value(found, id, params)]),
                funcs,
                w1,
                fuel,
            );
            if w2.pending is Some {
                (Err(pending_error()), w2)
            } else {
                (
                    Ok(
                        match r {
                            Err(_) => error_response(500, "handler_error"@, id),
                            Ok(value) => match result_response(value, id, w2) {
                                Ok(response) => response,
                                Err(_) => error_response(500, "handler_error"@, id),
                            },
                        },
                    ),
                    w2,
                )
            }
        },
    }
}

/// Serves requests until the limit is reached. Each round uses at least one reply of the host, so
/// `rounds` is never used up before the replies are.
pub open spec fn serve(
    routes: Seq<Val>,
    funcs: Rows<Fun>,
    address: Str,
    served: usize,
    limit: Option<usize>,
    rounds: nat,
    w: World,
    fuel: nat,
) -> Out
    decreases fuel, 5nat, rounds,
{
    if (limit matches Some(n) && served >= n) || served == usize::MAX {
        (Ok(served_record(address, served)), w)
    } else if rounds == 0 {
        (Err(pending_error()), w)
    } else {
        let (reply, w1) = ask(w, "web_accept"@, Seq::empty());
        match reply {
            Err(error) => (Err(error), w1),
            Ok(value) => {
                let (a, w2) = answered(request_told(value), routes, funcs, w1, fuel);
                match a {
                    Err(error) => (Err(error), w2),
                    Ok(response) => {
                        let (s, w3) = response_sent(response, w2);
                        match s {
                            Err(error) => (Err(error), w3),
                            Ok(_) => serve(
                                routes,
                                funcs,
                                address,
                                (served + 1) as usize,
                                limit,
                                (rounds - 1) as nat,
                                w3,
                                fuel,
                            ),
                        }
                    },
                }
            },
        }
    }
}

/// The number of replies that are left, and one.
pub open spec fn rounds_left(w: World) -> nat {
    if w.cursor <= w.replies.len() {
        (w.replies.len() - w.cursor + 1) as nat
    } else {
        1
    }
}

/// The number of requests after which a server ends, if there is one.
pub open spec fn request_limit(args: Seq<Val>) -> Result<Option<usize>, Str> {
    if args.len() < 3 {
        Ok(None)
    } else {
        match args[2] {
            Val::Number(n) => if n > 0 {
                Ok(Some(n as usize))
            } else if n == 0 {
                Ok(None)
            } else {
                Err("web_serve max_requests must be a non-negative number"@)
            },
            _ => Err("web_serve max_requests must be a non-negative number"@),
        }
    }
}

/// Serves requests on a listener that is bound to an address.
pub open spec fn served_on(
    address: Str,
    routes: Seq<Val>,
    limit: Option<usize>,
    funcs: Rows<Fun>,
    w: World,
    fuel: nat,
) -> Out
    decreases fuel, 5nat, rounds_left(w) + 1,
{
    match routes_checked(routes, funcs) {
        Err(error) => (Err(error), w),
        Ok(_) => serve(routes, funcs, address, 0, limit, rounds_left(w), w, fuel),
    }
}

/// Serves requests on a listener that the host binds.
pub open spec fn serve_bound(
    routes: Seq<Val>,
    port: i64,
    limit: Option<usize>,
    funcs: Rows<Fun>,
    w: World,
    fuel: nat,
) -> Out
    decreases fuel, 6nat, 0nat,
{
    let (reply, w1) = ask(w, "web_bind"@, seq![Val::Number(port)]);
    match reply {
        Err(error) => (Err(error), w1),
        Ok(Val::Text(address)) => served_on(address, routes, limit, funcs, w1, fuel),
        Ok(_) => (Err(invalid_reply("web_serve"@)), w1),
    }
}

pub open spec fn web_serve(args: Seq<Val>, funcs: Rows<Fun>, w: World, fuel: nat) -> Out
    decreases fuel, 6nat, 1nat,
{
    if args.len() != 2 && args.len() != 3 {
        (Err("web_serve expects routes, port, and optional max_requests"@), w)
    } else {
        match args[0] {
            Val::List(routes) => if routes.len() == 0 || routes.len() > 1024 {
                (Err("web_serve expects between 1 and 1024 routes"@), w)
            } else {
                match args[1] {
                    Val::Number(port) => if 0 <= port <= 65535 {
                        match request_limit(args) {
                            Err(error) => (Err(error), w),
                            Ok(limit) => serve_bound(routes, port, limit, funcs, w, fuel),
                        }
                    } else {
                        (Err("web_serve expects a numeric port from 0 to 65535"@), w)
                    },
                    _ => (Err("web_serve expects a numeric port from 0 to 65535"@), w),
                }
            },
            _ => (Err("web_serve expects a list of route maps"@), w),
        }
    }
}

// ---------------------------------------------------------------------------
// Statements
// ---------------------------------------------------------------------------

pub open spec fn loop_limit_error() -> Str {
    "loop limit exceeded: maximum is "@ + decimal(MAX_LOOP_ITERATIONS as int)
}

pub open spec fn failed(error: Str, vars: Rows<Val>, funcs: Rows<Fun>, w: World) -> Ran {
    Ran { flow: Err(error), vars, funcs, world: w }
}

pub open spec fn went_on(vars: Rows<Val>, funcs: Rows<Fun>, w: World) -> Ran {
    Ran { flow: Ok(FlowM::Continue), vars, funcs, world: w }
}

/// Runs statements in a frame, one level deeper. A run without a workspace first enters its base.
pub open spec fn run(
    program: Seq<StmtM>,
    vars: Rows<Val>,
    funcs: Rows<Fun>,
    w: World,
    base: Str,
    frame: usize,
    fuel: nat,
) -> Ran
    decreases fuel, 0nat, 0nat,
{
    if fuel == 0 {
        failed(fuel_error(), vars, funcs, w)
    } else {
        let (entered, w1) = entered_workspace(w, base);
        if let Err(error) = entered {
            failed(error, vars, funcs, w1)
        } else if program.len() > MAX_SOURCE_LINES {
            failed(line_limit_error(), vars, funcs, w1)
        } else {
            let (r, w2) = enter_level(w1);
            match r {
                Err(error) => failed(error, vars, funcs, w2),
                Ok(_) => {
                    let ran = run_from(
                        program,
                        0,
                        vars,
                        funcs,
                        w2,
                        base,
                        frame,
                        (fuel - 1) as nat,
                    );
                    Ran { world: leave_level(ran.world), ..ran }
                },
            }
        }
    }
}

/// Runs the statements from number `i` on. Each sees the variables of the frame as they are when
/// it begins.
pub open spec fn run_from(
    program: Seq<StmtM>,
    i: nat,
    vars: Rows<Val>,
    funcs: Rows<Fun>,
    w: World,
    base: Str,
    frame: usize,
    fuel: nat,
) -> Ran
    decreases fuel, 12nat, program.len() - i,
{
    if i >= program.len() {
        went_on(vars, funcs, w)
    } else {
        let seen = snapshot(w.frames, frame as int);
        let ran = statement(program[i as int], seen, funcs, w, base, frame, fuel);
        match ran.flow {
            Ok(FlowM::Continue) => run_from(
                program,
                i + 1,
                ran.vars,
                ran.funcs,
                ran.world,
                base,
                frame,
                fuel,
            ),
            _ => ran,
        }
    }
}

/// The value of an expression at the place of a statement.
pub open spec fn propagated(e: ExprM, vars: Rows<Val>, funcs: Rows<Fun>, w: World, fuel: nat) -> (
    Result<OutcomeM, Str>,
    World,
)
    decreases fuel, 1nat, 0nat,
{
    match e {
        ExprM::Propagate(value) => outcome_in(eval(*value, vars, funcs, w, fuel), true),
        _ => outcome_in(eval(e, vars, funcs, w, fuel), false),
    }
}

/// Sets a field of the object that a variable holds.
pub open spec fn field_assigned(
    object_name: Str,
    field: Str,
    value: Val,
    vars: Rows<Val>,
    funcs: Rows<Fun>,
    w: World,
) -> (Result<(), Str>, World) {
    match get(vars, object_name) {
        None => (Err("undefined variable: "@ + object_name), w),
        Some(Val::Object { class_name, id }) => match field_access(
            class_name,
            field,
            vars,
            funcs,
            w.frames,
        ) {
            Err(error) => (Err(error), w),
            Ok(_) => set_field(w, id, field, value),
        },
        Some(_) => (Err("property assignment expects an object"@), w),
    }
}

/// Assigns a value to a variable, or to a field of an object.
pub open spec fn assigned(
    name: Str,
    value: Val,
    vars: Rows<Val>,
    funcs: Rows<Fun>,
    w: World,
    frame: usize,
) -> Ran {
    match cut(name, "."@) {
        Some(pair) => {
            let (r, after) = field_assigned(pair.0, pair.1, value, vars, funcs, w);
            match r {
                Err(error) => failed(error, vars, funcs, after),
                Ok(_) => went_on(vars, funcs, after),
            }
        },
        None => went_on(vars, funcs, assign(w, frame as int, name, value)),
    }
}

/// Declares a variable of a frame.
pub open spec fn declared(
    name: Str,
    annotation: Option<Str>,
    value: Val,
    exported: bool,
    vars: Rows<Val>,
    funcs: Rows<Fun>,
    w: World,
    frame: usize,
) -> Ran {
    match (match annotation {
        Some(text) => checked(name, text, value),
        None => Ok(()),
    }) {
        Err(error) => failed(error, vars, funcs, w),
        Ok(_) => {
            let w1 = insert_local(w, frame as int, name, value);
            went_on(
                vars,
                funcs,
                if exported {
                    insert_local(w1, frame as int, "__zap_export_var__:"@ + name, Val::Nil)
                } else {
                    w1
                },
            )
        },
    }
}

/// Runs one statement.
pub open spec fn statement(
    s: StmtM,
    vars: Rows<Val>,
    funcs: Rows<Fun>,
    w: World,
    base: Str,
    frame: usize,
    fuel: nat,
) -> Ran
    decreases fuel, 11nat, 0nat,
{
    match s {
        StmtM::Expression(e) => {
            let (r, after) = eval(e, vars, funcs, w, fuel);
            match r {
                Err(error) => failed(error, vars, funcs, after),
                Ok(_) => went_on(vars, funcs, after),
            }
        },
        StmtM::Field { .. } => failed(
            "field declarations are only allowed inside a class"@,
            vars,
            funcs,
            w,
        ),
        StmtM::Assignment { name, value } => {
            let (r, after) = propagated(value, vars, funcs, w, fuel);
            match r {
                Err(error) => failed(error, vars, funcs, after),
                Ok(OutcomeM::Propagate(v)) => Ran {
                    flow: Ok(FlowM::Return(v)),
                    vars,
                    funcs,
                    world: after,
                },
                Ok(OutcomeM::Value(v)) => assigned(name, v, vars, funcs, after, frame),
            }
        },
        StmtM::Declaration { name, annotation, value, exported } => {
            let (r, after) = propagated(value, vars, funcs, w, fuel);
            match r {
                Err(error) => failed(error, vars, funcs, after),
                Ok(OutcomeM::Propagate(v)) => Ran {
                    flow: Ok(FlowM::Return(v)),
                    vars,
                    funcs,
                    world: after,
                },
                Ok(OutcomeM::Value(v)) => declared(
                    name,
                    annotation,
                    v,
                    exported,
                    vars,
                    funcs,
                    after,
                    frame,
                ),
            }
        },
        StmtM::Say(e) => {
            let (r, after) = eval(e, vars, funcs, w, fuel);
            match r {
                Err(error) => failed(error, vars, funcs, after),
                Ok(v) => went_on(vars, funcs, say(after, show(v))),
            }
        },
        StmtM::Raise(e) => {
            let (r, after) = eval(e, vars, funcs, w, fuel);
            match r {
                Err(error) => failed(error, vars, funcs, after),
                Ok(v) => Ran { flow: Ok(FlowM::Raise(v)), vars, funcs, world: after },
            }
        },
        StmtM::TryCatch { body, binding, catch_body } => run_try(
            body,
            binding,
            catch_body,
            vars,
            funcs,
            w,
            base,
            frame,
            fuel,
        ),
        StmtM::Return(None) => Ran { flow: Ok(FlowM::Return(Val::Nil)), vars, funcs, world: w },
        StmtM::Return(Some(e)) => {
            let (r, after) = propagated(e, vars, funcs, w, fuel);
            match r {
                Err(error) => failed(error, vars, funcs, after),
                Ok(OutcomeM::Propagate(v)) => Ran {
                    flow: Ok(FlowM::Return(v)),
                    vars,
                    funcs,
                    world: after,
                },
                Ok(OutcomeM::Value(v)) => Ran {
                    flow: Ok(FlowM::Return(v)),
                    vars,
                    funcs,
                    world: after,
                },
            }
        },
        StmtM::Break => Ran { flow: Ok(FlowM::Break), vars, funcs, world: w },
        StmtM::Continue => Ran { flow: Ok(FlowM::LoopContinue), vars, funcs, world: w },
        StmtM::If { condition, then_branch, else_branch } => {
            let (r, after) = eval(condition, vars, funcs, w, fuel);
            match r {
                Err(error) => failed(error, vars, funcs, after),
                Ok(v) => if truthy(v) {
                    run(then_branch, vars, funcs, after, base, frame, fuel)
                } else {
                    match else_branch {
                        Some(branch) => run(branch, vars, funcs, after, base, frame, fuel),
                        None => went_on(vars, funcs, after),
                    }
                },
            }
        },
        StmtM::While { condition, body } => run_while(
            condition,
            body,
            0,
            vars,
            funcs,
            w,
            base,
            frame,
            fuel,
        ),
        StmtM::For { binding, iterable, body } => {
            let (r, after) = eval(iterable, vars, funcs, w, fuel);
            match r {
                Err(error) => failed(error, vars, funcs, after),
                Ok(Val::List(items)) => if items.len() > MAX_LOOP_ITERATIONS {
                    failed(loop_limit_error(), vars, funcs, after)
                } else {
                    run_for(binding, items, 0, body, vars, funcs, after, base, frame, fuel)
                },
                Ok(_) => failed("for expects a list"@, vars, funcs, after),
            }
        },
        StmtM::Function {
            name,
            type_params,
            params,
            return_type,
            body,
            visibility,
            is_async,
            exported,
        } => {
            let done = function_registered(
                FunctionM {
                    name,
                    type_params,
                    params,
                    visibility,
                    return_type,
                    body,
                    is_async,
                    exported,
                },
                frame,
                funcs,
                w,
            );
            match done.result {
                Err(error) => failed(error, vars, done.funcs, done.world),
                Ok(_) => went_on(vars, done.funcs, done.world),
            }
        },
        StmtM::Class { name, base: above, body } => {
            let done = class_registered(name, above, body, frame, funcs, w);
            match done.result {
                Err(error) => failed(error, vars, done.funcs, done.world),
                Ok(_) => went_on(vars, done.funcs, done.world),
            }
        },
        StmtM::Module { .. } => went_on(vars, funcs, w),
        StmtM::Import { path, explicit } => {
            let ran = load_module(path, vars, funcs, w, base, explicit, fuel);
            match ran.flow {
                Err(_) => ran,
                Ok(_) => Ran {
                    world: assign_all(ran.world, frame as int, ran.vars, 0),
                    ..ran
                },
            }
        },
    }
}

pub open spec fn option_values(value: Option<Val>) -> Seq<Val> {
    match value {
        Some(v) => seq![v],
        None => Seq::empty(),
    }
}

/// Puts back what a name was bound to in a frame before, or unbinds it.
pub open spec fn restored(w: World, frame: usize, name: Str, previous: Option<Val>) -> World {
    match previous {
        Some(value) => insert_local(w, frame as int, name, value),
        None => remove_local(w, frame as int, name),
    }
}

/// Runs statements; an error that they raise is bound to a name for the other statements.
pub open spec fn run_try(
    body: Seq<StmtM>,
    binding: Str,
    catch_body: Seq<StmtM>,
    vars: Rows<Val>,
    funcs: Rows<Fun>,
    w: World,
    base: Str,
    frame: usize,
    fuel: nat,
) -> Ran
    decreases fuel, 1nat, 0nat,
{
    let tried = run(body, vars, funcs, w, base, frame, fuel);
    match tried.flow {
        Ok(FlowM::Raise(error)) => {
            let previous = get(names_of(tried.world, frame as int), binding);
            let caught = run(
                catch_body,
                tried.vars,
                tried.funcs,
                hold_values(
                    insert_local(tried.world, frame as int, binding, error),
                    option_values(previous),
                ),
                base,
                frame,
                fuel,
            );
            Ran { world: restored(let_go(caught.world), frame, binding, previous), ..caught }
        },
        _ => tried,
    }
}

/// Runs a loop whose body has been run `count` times.
pub open spec fn run_while(
    condition: ExprM,
    body: Seq<StmtM>,
    count: nat,
    vars: Rows<Val>,
    funcs: Rows<Fun>,
    w: World,
    base: Str,
    frame: usize,
    fuel: nat,
) -> Ran
    decreases fuel, 10nat, MAX_LOOP_ITERATIONS - count,
{
    let (r, w1) = eval(condition, vars, funcs, w, fuel);
    match r {
        Err(error) => failed(error, vars, funcs, w1),
        Ok(v) => if !truthy(v) {
            went_on(vars, funcs, w1)
        } else {
            let ran = run(body, vars, funcs, w1, base, frame, fuel);
            match ran.flow {
                Err(_) => ran,
                Ok(FlowM::Break) => went_on(ran.vars, ran.funcs, ran.world),
                Ok(FlowM::Return(_)) => ran,
                Ok(FlowM::Raise(_)) => ran,
                Ok(_) => if count + 1 >= MAX_LOOP_ITERATIONS {
                    failed(loop_limit_error(), ran.vars, ran.funcs, ran.world)
                } else {
                    run_while(
                        condition,
                        body,
                        count + 1,
                        ran.vars,
                        ran.funcs,
                        ran.world,
                        base,
                        frame,
                        fuel,
                    )
                },
            }
        },
    }
}

/// What a run leaves behind, with what it was given in hand let go.
pub open spec fn released(ran: Ran) -> Ran {
    Ran { world: let_go(ran.world), ..ran }
}

/// Runs a body once for each item from number `i` on; the items that are left are in hand.
pub open spec fn run_for(
    binding: Str,
    items: Seq<Val>,
    i: nat,
    body: Seq<StmtM>,
    vars: Rows<Val>,
    funcs: Rows<Fun>,
    w: World,
    base: Str,
    frame: usize,
    fuel: nat,
) -> Ran
    decreases fuel, 10nat, items.len() - i,
{
    if i >= items.len() {
        went_on(vars, funcs, w)
    } else {
        let ran = released(
            run(
                body,
                vars,
                funcs,
                hold_values(assign(w, frame as int, binding, items[i as int]), items.skip(i as int + 1)),
                base,
                frame,
                fuel,
            ),
        );
        match ran.flow {
            Err(_) => ran,
            Ok(FlowM::Break) => went_on(ran.vars, ran.funcs, ran.world),
            Ok(FlowM::Return(_)) => ran,
            Ok(FlowM::Raise(_)) => ran,
            Ok(_) => run_for(
                binding,
                items,
                i + 1,
                body,
                ran.vars,
                ran.funcs,
                ran.world,
                base,
                frame,
                fuel,
            ),
        }
    }
}

/// Runs a program in a new frame that holds the given variables.
pub open spec fn run_program(
    program: Seq<StmtM>,
    vars: Rows<Val>,
    funcs: Rows<Fun>,
    w: World,
    base: Str,
    fuel: nat,
) -> Ran
    decreases fuel, 1nat, 0nat,
{
    let (frame, w1) = new_frame(w, vars, None, Some(base));
    let ran = run(program, vars, funcs, w1, base, frame, fuel);
    match ran.flow {
        Err(_) => ran,
        Ok(_) => Ran { vars: snapshot(ran.world.frames, frame as int), ..ran },
    }
}

// ---------------------------------------------------------------------------
// Modules
// ---------------------------------------------------------------------------

/// Takes the names of a module over, in the import that ran it or in a later one.
pub open spec fn took_over(
    module: ModuleM,
    explicit: bool,
    first: bool,
    vars: Rows<Val>,
    funcs: Rows<Fun>,
    w: World,
) -> Ran {
    went_on(
        imported_vars(module, explicit, first, vars),
        imported_funcs(module, explicit, funcs),
        w,
    )
}

/// The file that a module path leads to, as the host finds it.
pub open spec fn module_file(path: Str, base: Str, w: World) -> (Result<Str, Str>, World) {
    let (reply, after) = ask(w, "resolve_module"@, seq![Val::Text(base), Val::Text(path)]);
    (
        match reply {
            Err(error) => Err(error),
            Ok(Val::Text(file)) => Ok(file),
            Ok(Val::Nil) => Err("module not found: "@ + path),
            Ok(_) => Err(invalid_reply("module import"@)),
        },
        after,
    )
}

/// The program in a module's file.
pub open spec fn module_source(file: Str, w: World) -> (Result<Seq<StmtM>, Str>, World) {
    let (reply, after) = ask(w, "read_text"@, seq![Val::Text(file), Val::Text("module import"@)]);
    (
        match reply {
            Err(error) => Err(error),
            Ok(Val::Text(source)) => match parsed_program(source) {
                Ok(program) => Ok(program),
                Err(error) => Err("cannot parse module "@ + file + ": "@ + error),
            },
            Ok(_) => Err(invalid_reply("module import"@)),
        },
        after,
    )
}

/// Runs the program of a module and takes its names over.
pub open spec fn module_run(
    file: Str,
    program: Seq<StmtM>,
    vars: Rows<Val>,
    funcs: Rows<Fun>,
    w: World,
    base: Str,
    explicit: bool,
    fuel: nat,
) -> Ran
    decreases fuel, 2nat, 0nat,
{
    let ran = released(
        run_program(
            program,
            put(Seq::empty(), "__zap_module"@, Val::Text(file)),
            Seq::empty(),
            hold_scope(w, vars, funcs),
            match parent_path(file, w.separator) {
                Some(directory) => directory,
                None => base,
            },
            fuel,
        ),
    );
    let w1 = stop_loading(ran.world);
    match ran.flow {
        Err(error) => failed(error, vars, funcs, w1),
        Ok(FlowM::Continue) => {
            let module = ModuleM { vars: ran.vars, funcs: ran.funcs };
            took_over(
                module,
                explicit,
                true,
                vars,
                funcs,
                cache_module(attached(w1, ran.funcs, 0), file, module),
            )
        },
        Ok(flow) => Ran { flow: Ok(flow), vars, funcs, world: w1 },
    }
}

/// Imports a module: from the cache, or by running its program.
pub open spec fn load_module(
    raw: Str,
    vars: Rows<Val>,
    funcs: Rows<Fun>,
    w: World,
    base: Str,
    explicit: bool,
    fuel: nat,
) -> Ran
    decreases fuel, 3nat, 0nat,
{
    match import_path(raw, w.separator) {
        Err(error) => failed(error, vars, funcs, w),
        Ok(path) => {
            let (found, w1) = module_file(path, base, w);
            match found {
                Err(error) => failed(error, vars, funcs, w1),
                Ok(file) => match get(w1.modules, file) {
                    Some(module) => took_over(module, explicit, false, vars, funcs, w1),
                    None => match import_cycle(w1.loading, file) {
                        Some(error) => failed(error, vars, funcs, w1),
                        None => {
                            let (source, w2) = module_source(file, start_loading(w1, file));
                            match source {
                                Err(error) => failed(error, vars, funcs, stop_loading(w2)),
                                Ok(program) => module_run(
                                    file,
                                    program,
                                    vars,
                                    funcs,
                                    w2,
                                    base,
                                    explicit,
                                    fuel,
                                ),
                            }
                        },
                    },
                },
            }
        },
    }
}

// ---------------------------------------------------------------------------
// Lines
// ---------------------------------------------------------------------------

/// What one line leaves behind: with the flow to go on, the run continues at `next`.
pub struct Stepped {
    pub ran: Ran,
    pub next: int,
}

/// The value of an expression in source text, with a question mark behind it or not.
pub open spec fn propagated_text(
    raw: Str,
    vars: Rows<Val>,
    funcs: Rows<Fun>,
    w: World,
    fuel: nat,
) -> (Result<OutcomeM, Str>, World)
    decreases fuel, 2nat, 0nat,
{
    let text = trim(raw);
    if has_suffix(text, "?"@) {
        outcome_in(
            evaluated(trim(text.take(text.len() - 1)), vars, funcs, w, fuel),
            true,
        )
    } else {
        outcome_in(evaluated(text, vars, funcs, w, fuel), false)
    }
}

/// Runs lines, one level deeper.
pub open spec fn run_lines(
    lines: Seq<Str>,
    vars: Rows<Val>,
    funcs: Rows<Fun>,
    w: World,
    base: Str,
    fuel: nat,
) -> Ran
    decreases fuel, 0nat, 0nat,
{
    if fuel == 0 {
        failed(fuel_error(), vars, funcs, w)
    } else {
        let (r, w1) = entered(lines, w);
        match r {
            Err(error) => failed(error, vars, funcs, w1),
            Ok(_) => {
                let ran = lines_from(lines, 0, vars, funcs, w1, base, (fuel - 1) as nat);
                Ran { world: leave_level(ran.world), ..ran }
            },
        }
    }
}

/// Runs the lines from number `i` on.
pub open spec fn lines_from(
    lines: Seq<Str>,
    i: int,
    vars: Rows<Val>,
    funcs: Rows<Fun>,
    w: World,
    base: Str,
    fuel: nat,
) -> Ran
    decreases fuel, 12nat, lines.len() - i,
{
    if i < 0 || i >= lines.len() {
        went_on(vars, funcs, w)
    } else {
        let step = line(lines, i, vars, funcs, w, base, fuel);
        match step.ran.flow {
            Ok(FlowM::Continue) => if step.next <= i || step.next > lines.len() {
                step.ran
            } else {
                lines_from(
                    lines,
                    step.next,
                    step.ran.vars,
                    step.ran.funcs,
                    step.ran.world,
                    base,
                    fuel,
                )
            },
            _ => step.ran,
        }
    }
}

/// The text of a line and whether it is marked for export.
pub open spec fn line_text(s: Str) -> (bool, Str) {
    let raw = trim(s);
    match stripped(raw, "export "@) {
        Some(rest) => (true, trim(rest)),
        None => (false, raw),
    }
}

/// Runs one line, with the block behind it where it has one.
pub open spec fn line(
    lines: Seq<Str>,
    i: int,
    vars: Rows<Val>,
    funcs: Rows<Fun>,
    w: World,
    base: Str,
    fuel: nat,
) -> Stepped
    decreases fuel, 11nat, 0nat,
{
    let (is_export, text) = line_text(lines[i]);
    let body = block(lines, i + 1);
    let end = block_end(lines, i + 1);
    if text.len() == 0 || leads(text, '#') {
        Stepped { ran: went_on(vars, funcs, w), next: i + 1 }
    } else {
        match stripped(text, "class "@) {
            Some(rest) => {
                let done = class_defined(rest, body, vars, funcs, w);
                Stepped {
                    ran: match done.result {
                        Err(error) => failed(error, vars, done.funcs, done.world),
                        Ok(_) => went_on(vars, done.funcs, done.world),
                    },
                    next: end,
                }
            },
            None => match definition_of(text) {
                Some(rest) => {
                    let done = function_defined(rest, body, is_export, vars, funcs, w);
                    Stepped {
                        ran: match done.result {
                            Err(error) => failed(error, vars, done.funcs, done.world),
                            Ok(_) => went_on(vars, done.funcs, done.world),
                        },
                        next: end,
                    }
                },
                None => match stripped(text, "return"@) {
                    Some(rest) => Stepped {
                        ran: return_line(rest, vars, funcs, w, fuel),
                        next: i + 1,
                    },
                    None => if text == "break"@ {
                        Stepped {
                            ran: Ran { flow: Ok(FlowM::Break), vars, funcs, world: w },
                            next: i + 1,
                        }
                    } else if text == "continue"@ {
                        Stepped {
                            ran: Ran { flow: Ok(FlowM::LoopContinue), vars, funcs, world: w },
                            next: i + 1,
                        }
                    } else {
                        block_line(lines, i, text, is_export, vars, funcs, w, base, fuel)
                    },
                },
            },
        }
    }
}

pub open spec fn return_line(rest: Str, vars: Rows<Val>, funcs: Rows<Fun>, w: World, fuel: nat) -> Ran
    decreases fuel, 3nat, 0nat,
{
    if trim(rest).len() == 0 {
        Ran { flow: Ok(FlowM::Return(Val::Nil)), vars, funcs, world: w }
    } else {
        let (r, after) = propagated_text(trim(rest), vars, funcs, w, fuel);
        Ran {
            flow: match r {
                Err(error) => Err(error),
                Ok(OutcomeM::Value(v)) => Ok(FlowM::Return(v)),
                Ok(OutcomeM::Propagate(v)) => Ok(FlowM::Return(v)),
            },
            vars,
            funcs,
            world: after,
        }
    }
}

/// A line that rules a block, or a plain line.
pub open spec fn block_line(
    lines: Seq<Str>,
    i: int,
    text: Str,
    is_export: bool,
    vars: Rows<Val>,
    funcs: Rows<Fun>,
    w: World,
    base: Str,
    fuel: nat,
) -> Stepped
    decreases fuel, 10nat, 1nat,
{
    let body = block(lines, i + 1);
    let end = block_end(lines, i + 1);
    match stripped(text, "while "@) {
        Some(rest) => Stepped {
            ran: while_lines(trim(bare(rest)), body, 0, vars, funcs, w, base, fuel),
            next: end,
        },
        None => match stripped(text, "for "@) {
            Some(rest) => Stepped {
                ran: for_line(rest, body, vars, funcs, w, base, fuel),
                next: end,
            },
            None => match stripped(text, "if "@) {
                Some(rest) => if_line(rest, lines, i, vars, funcs, w, base, fuel),
                None => Stepped {
                    ran: plain_line(text, i, is_export, vars, funcs, w, base, fuel),
                    next: i + 1,
                },
            },
        },
    }
}

/// Runs lines as long as a condition holds; they have been run `count` times.
pub open spec fn while_lines(
    condition: Str,
    body: Seq<Str>,
    count: nat,
    vars: Rows<Val>,
    funcs: Rows<Fun>,
    w: World,
    base: Str,
    fuel: nat,
) -> Ran
    decreases fuel, 9nat, MAX_LOOP_ITERATIONS - count,
{
    let (r, w1) = evaluated(condition, vars, funcs, w, fuel);
    match r {
        Err(error) => failed(error, vars, funcs, w1),
        Ok(v) => if !truthy(v) {
            went_on(vars, funcs, w1)
        } else {
            let ran = run_lines(body, vars, funcs, w1, base, fuel);
            match ran.flow {
                Err(_) => ran,
                Ok(FlowM::Break) => went_on(ran.vars, ran.funcs, ran.world),
                Ok(FlowM::Return(_)) => ran,
                Ok(FlowM::Raise(_)) => ran,
                Ok(_) => if count + 1 >= MAX_LOOP_ITERATIONS {
                    failed(loop_limit_error(), ran.vars, ran.funcs, ran.world)
                } else {
                    while_lines(
                        condition,
                        body,
                        count + 1,
                        ran.vars,
                        ran.funcs,
                        ran.world,
                        base,
                        fuel,
                    )
                },
            }
        },
    }
}

/// Runs lines once for each item from number `i` on; the items that are left are in hand.
pub open spec fn for_lines(
    name: Str,
    items: Seq<Val>,
    i: nat,
    body: Seq<Str>,
    vars: Rows<Val>,
    funcs: Rows<Fun>,
    w: World,
    base: Str,
    fuel: nat,
) -> Ran
    decreases fuel, 8nat, items.len() - i,
{
    if i >= items.len() {
        went_on(vars, funcs, w)
    } else {
        let ran = released(
            run_lines(
                body,
                put(vars, name, items[i as int]),
                funcs,
                hold_values(w, items.skip(i as int + 1)),
                base,
                fuel,
            ),
        );
        match ran.flow {
            Err(_) => ran,
            Ok(FlowM::Break) => went_on(ran.vars, ran.funcs, ran.world),
            Ok(FlowM::Return(_)) => ran,
            Ok(FlowM::Raise(_)) => ran,
            Ok(_) => for_lines(
                name,
                items,
                i + 1,
                body,
                ran.vars,
                ran.funcs,
                ran.world,
                base,
                fuel,
            ),
        }
    }
}

pub open spec fn for_line(
    rest: Str,
    body: Seq<Str>,
    vars: Rows<Val>,
    funcs: Rows<Fun>,
    w: World,
    base: Str,
    fuel: nat,
) -> Ran
    decreases fuel, 9nat, 0nat,
{
    match cut(bare(rest), " in "@) {
        None => failed("for syntax: for item in list:"@, vars, funcs, w),
        Some(pair) => {
            let (r, after) = evaluated(trim(pair.1), vars, funcs, w, fuel);
            match r {
                Err(error) => failed(error, vars, funcs, after),
                Ok(Val::List(items)) => if items.len() > MAX_LOOP_ITERATIONS {
                    failed(loop_limit_error(), vars, funcs, after)
                } else {
                    for_lines(trim(pair.0), items, 0, body, vars, funcs, after, base, fuel)
                },
                Ok(_) => failed("for expects a list"@, vars, funcs, after),
            }
        },
    }
}

/// Whether an `else` line stands at a place.
pub open spec fn else_at(lines: Seq<Str>, i: int) -> bool {
    0 <= i < lines.len() && trim(lines[i]) == "else:"@
}

pub open spec fn if_line(
    rest: Str,
    lines: Seq<Str>,
    i: int,
    vars: Rows<Val>,
    funcs: Rows<Fun>,
    w: World,
    base: Str,
    fuel: nat,
) -> Stepped
    decreases fuel, 9nat, 0nat,
{
    let end = block_end(lines, i + 1);
    let (r, w1) = evaluated(trim(bare(rest)), vars, funcs, w, fuel);
    match r {
        Err(error) => Stepped { ran: failed(error, vars, funcs, w1), next: end },
        Ok(v) => {
            let taken = if truthy(v) {
                run_lines(block(lines, i + 1), vars, funcs, w1, base, fuel)
            } else if else_at(lines, end) {
                run_lines(block(lines, end + 1), vars, funcs, w1, base, fuel)
            } else {
                went_on(vars, funcs, w1)
            };
            Stepped {
                ran: taken,
                next: if else_at(lines, end) {
                    block_end(lines, end + 1)
                } else {
                    end
                },
            }
        },
    }
}

/// Whether a module run by a line may end as it did: it may not return.
pub open spec fn module_ended(ran: Ran) -> Ran {
    match ran.flow {
        Ok(FlowM::Return(_)) => Ran {
            flow: Err("return is not allowed at module top level"@),
            ..ran
        },
        _ => ran,
    }
}

/// Whether a line holds one of the signs of comparison that end in an equals sign.
pub open spec fn compares(text: Str) -> bool {
    includes(text, "=="@) || includes(text, "!="@) || includes(text, "<="@) || includes(text, ">="@)
}

/// A line without a block.
pub open spec fn plain_line(
    text: Str,
    i: int,
    is_export: bool,
    vars: Rows<Val>,
    funcs: Rows<Fun>,
    w: World,
    base: Str,
    fuel: nat,
) -> Ran
    decreases fuel, 9nat, 0nat,
{
    match stripped(text, "say "@) {
        Some(rest) => {
            let (r, after) = evaluated(rest, vars, funcs, w, fuel);
            match r {
                Err(error) => failed(error, vars, funcs, after),
                Ok(v) => went_on(vars, funcs, say(after, show(v))),
            }
        },
        None => match stripped(text, "import "@) {
            Some(rest) => module_ended(load_module(rest, vars, funcs, w, base, true, fuel)),
            None => match stripped(text, "use "@) {
                Some(rest) => if names_file(trim(rest)) {
                    module_ended(load_module(trim(rest), vars, funcs, w, base, false, fuel))
                } else {
                    went_on(
                        vars,
                        funcs,
                        say(w, "[Zap native] module declared: "@ + trim(rest)),
                    )
                },
                None => match stripped(text, "let "@) {
                    Some(rest) => let_line(rest, i, is_export, vars, funcs, w, fuel),
                    None => match (if compares(text) {
                        None
                    } else {
                        cut(text, "="@)
                    }) {
                        Some(pair) => assign_line(trim(pair.0), pair.1, vars, funcs, w, fuel),
                        None => {
                            let (r, after) = evaluated(text, vars, funcs, w, fuel);
                            match r {
                                Err(error) => failed(error, vars, funcs, after),
                                Ok(_) => went_on(vars, funcs, after),
                            }
                        },
                    },
                },
            },
        },
    }
}

pub open spec fn line_prefix(i: int) -> Str {
    "line "@ + decimal(i + 1) + ": "@
}

/// A variable with its value and, if it is marked for export, the mark.
pub open spec fn line_declared(vars: Rows<Val>, name: Str, value: Val, is_export: bool) -> Rows<Val> {
    let known = put(vars, name, value);
    if is_export {
        put(known, "__zap_export_var__:"@ + name, Val::Nil)
    } else {
        known
    }
}

pub open spec fn let_line(
    rest: Str,
    i: int,
    is_export: bool,
    vars: Rows<Val>,
    funcs: Rows<Fun>,
    w: World,
    fuel: nat,
) -> Ran
    decreases fuel, 3nat, 0nat,
{
    match cut(rest, "="@) {
        None => failed(line_prefix(i) + "expected ="@, vars, funcs, w),
        Some(pair) => {
            let (name, annotation) = annotated(trim(pair.0));
            let (r, after) = propagated_text(pair.1, vars, funcs, w, fuel);
            match r {
                Err(error) => failed(error, vars, funcs, after),
                Ok(OutcomeM::Propagate(v)) => Ran {
                    flow: Ok(FlowM::Return(v)),
                    vars,
                    funcs,
                    world: after,
                },
                Ok(OutcomeM::Value(v)) => match (match annotation {
                    Some(text) => checked(name, text, v),
                    None => Ok(()),
                }) {
                    Err(error) => failed(line_prefix(i) + error, vars, funcs, after),
                    Ok(_) => went_on(line_declared(vars, name, v, is_export), funcs, after),
                },
            }
        },
    }
}

/// Sets a field of the object that a variable holds, or a variable.
pub open spec fn line_assigned(target: Str, value: Val, vars: Rows<Val>, funcs: Rows<Fun>, w: World) -> Ran {
    match cut(target, "."@) {
        None => went_on(put(vars, target, value), funcs, w),
        Some(pair) => match get(vars, pair.0) {
            None => failed("undefined variable: "@ + pair.0, vars, funcs, w),
            Some(Val::Object { id, .. }) => {
                let (r, after) = set_field(w, id, trim(pair.1), value);
                match r {
                    Err(error) => failed(error, vars, funcs, after),
                    Ok(_) => went_on(vars, funcs, after),
                }
            },
            Some(_) => failed("property assignment expects an object"@, vars, funcs, w),
        },
    }
}

pub open spec fn assign_line(
    target: Str,
    source: Str,
    vars: Rows<Val>,
    funcs: Rows<Fun>,
    w: World,
    fuel: nat,
) -> Ran
    decreases fuel, 3nat, 0nat,
{
    let (r, after) = propagated_text(source, vars, funcs, w, fuel);
    match r {
        Err(error) => failed(error, vars, funcs, after),
        Ok(OutcomeM::Propagate(v)) => Ran {
            flow: Ok(FlowM::Return(v)),
            vars,
            funcs,
            world: after,
        },
        Ok(OutcomeM::Value(v)) => line_assigned(target, v, vars, funcs, after),
    }
}

} // verus!
