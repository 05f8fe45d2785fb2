//! The evaluator: expressions, calls, construction of objects, statements, modules and lines.

use crate::annotations::{check_annotation, infer_runtime_substitution, runtime_annotation,
    substitute_runtime_annotation};
use crate::ast::{lemma_expr_call, lemma_expr_dict, lemma_expr_list, lemma_program, opt_text,
    pair_views, views, BinaryOp, CallArg, Expr, Literal, Param, Program, Stmt, UnaryOp};
use crate::builtins::{list, MAX_LOOP_ITERATIONS};
use crate::classes::{check_field_visibility, check_method_visibility, class_parent,
    constructor_delegates_to_parent};
use crate::host::{enter_workspace, no_arguments, one_text, two_texts};
use crate::layout::{enter_execution, indented, lemma_block_end, MAX_SOURCE_LINES};
use crate::lines::{define_class, define_function, strip_definition, strip_prefix, without_colons};
use crate::modules::{attach_module_function_scope, find_import_cycle, import_funcs, import_vars,
    read_import_path};
use crate::numbers::{operate, told_values};
use crate::outside::encode_base64;
use crate::paths::{path_parent};
use crate::program::{annotated, file_is_named, parse_program, told_program};
use crate::records::{dict, text_value, with};
use crate::registry::{register_ast_class, register_ast_function, AstFunctionSpec};
use crate::runtime::{direct_builtin_with_context, join_scheduled};
use crate::semantics::{all_bound, any_named, argument_checked, argument_values, arranged, assigned,
    assign_line, answered, awaited, bind, bound_local, call_frame, call_function, call_member,
    call_method, call_named, call_names, called_builtin, caller_params, charged, charged_result,
    charged_whole, charged_whole_result, construct, construct_inner, construct_own,
    construct_parent, construction, declared, dispatched, else_at, eval, eval_args, eval_binary,
    eval_call, eval_inner, eval_items, eval_pairs, evaluated, field_assigned, field_value, fitting,
    for_line, for_lines, frame_base, generic_names, handed_over, if_line, init_fields, is_parameter,
    item_of, let_line, line, line_assigned, line_text, lines_from, literal, load_module, member_of,
    module_ended, module_file, module_run, module_source, named, option_values, outcome, outcome_in,
    own_fields, parent_init, plain_line, positional, propagated, propagated_text, receiver,
    request_limit, required, response_sent, result_checked, return_line, returned, rounds_left, run,
    run_body, run_for, run_from, run_lines, run_program, run_try, run_while, serve, serve_bound,
    served_on, served_record, statement, super_class, unary_result, unknown_argument, web_serve,
    while_lines, without_self, ArgM, FlowM, OutcomeM, Ran, Stepped, MAX_NESTING};
use crate::syntax::parse_expression;
use crate::system::direct_external_builtin;
use crate::table::{get, Rows, Table};
use crate::text::{after, chars_of, contains, ends_with, is_blank_text, join2, join3, join4, join6,
    join_texts, length_text, same, split_once, starts_with, texts, trimmed, before, Str};
use crate::value::{copy_functions, copy_table, copy_values, fail, lemma_value_view, told,
    told_unit, value_type_name, Fun, Function, Functions, Val, ZapValue};
use crate::web::{find_route, handler_request, read_request, told_request, web_error_response,
    web_request_id, web_result_response, Destination, WebRequest};
use crate::webcheck::web_validate_routes;
use crate::world::{hosted, reply_views, snapshot, ExecutionContext, Module, World};
use std::rc::Rc;
use vstd::prelude::*;

verus! {

/// How a sequence of statements ends.
#[derive(Debug)]
pub enum Flow {
    Continue,
    Break,
    LoopContinue,
    Return(ZapValue),
    Raise(ZapValue),
}

/// What an expression at the place of a statement gives.
#[derive(Debug)]
pub enum EvalOutcome {
    Value(ZapValue),
    Propagate(ZapValue),
}

/// An argument of a call, evaluated.
#[derive(Debug)]
pub struct CallArgument {
    pub name: Option<String>,
    pub value: ZapValue,
}

impl View for Flow {
    type V = FlowM;

    open spec fn view(&self) -> FlowM {
        match *self {
            Flow::Continue => FlowM::Continue,
            Flow::Break => FlowM::Break,
            Flow::LoopContinue => FlowM::LoopContinue,
            Flow::Return(value) => FlowM::Return(value@),
            Flow::Raise(value) => FlowM::Raise(value@),
        }
    }
}

impl View for EvalOutcome {
    type V = OutcomeM;

    open spec fn view(&self) -> OutcomeM {
        match *self {
            EvalOutcome::Value(value) => OutcomeM::Value(value@),
            EvalOutcome::Propagate(value) => OutcomeM::Propagate(value@),
        }
    }
}

impl View for CallArgument {
    type V = ArgM;

    open spec fn view(&self) -> ArgM {
        ArgM { name: opt_text(self.name), value: self.value@ }
    }
}

pub open spec fn ran_view(r: Result<Flow, String>, vars: Rows<Val>, funcs: Rows<Fun>, w: World) -> Ran {
    Ran { flow: told(r), vars, funcs, world: w }
}

// ---------------------------------------------------------------------------
// Charging
// ---------------------------------------------------------------------------

pub fn charge_ast_value(value: ZapValue, context: &mut ExecutionContext) -> (r: Result<
    ZapValue,
    String,
>)
    ensures
        (told(r), final(context)@) == charged(value@, old(context)@),
{
    match context.reserve_shallow_value(&value) {
        Err(error) => Err(error),
        Ok(_) => Ok(value),
    }
}

pub fn charge_ast_cloned_value(value: ZapValue, context: &mut ExecutionContext) -> (r: Result<
    ZapValue,
    String,
>)
    ensures
        (told(r), final(context)@) == charged_whole(value@, old(context)@),
{
    match context.reserve_value(&value) {
        Err(error) => Err(error),
        Ok(_) => Ok(value),
    }
}

fn charge_result(r: Result<ZapValue, String>, context: &mut ExecutionContext) -> (s: Result<
    ZapValue,
    String,
>)
    ensures
        (told(s), final(context)@) == charged_result(told(r), old(context)@),
{
    match r {
        Err(error) => Err(error),
        Ok(value) => charge_ast_value(value, context),
    }
}

fn charge_whole_result(r: Result<ZapValue, String>, context: &mut ExecutionContext) -> (s: Result<
    ZapValue,
    String,
>)
    ensures
        (told(s), final(context)@) == charged_whole_result(told(r), old(context)@),
{
    match r {
        Err(error) => Err(error),
        Ok(value) => charge_ast_cloned_value(value, context),
    }
}

// ---------------------------------------------------------------------------
// Steps of expressions
// ---------------------------------------------------------------------------

fn literal_value(l: &Literal) -> (r: ZapValue)
    ensures
        r@ == literal(l@),
{
    match l {
        Literal::Nil => ZapValue::Nil,
        Literal::Bool(b) => ZapValue::Bool(*b),
        Literal::Number(n) => ZapValue::Number(*n),
        Literal::Text(s) => ZapValue::Text(s.clone()),
    }
}

fn look_up(name: &str, vars: &Table<ZapValue>, funcs: &Functions) -> (r: Result<ZapValue, String>)
    ensures
        told(r) == named(name@, vars@, funcs@),
{
    match vars.find(name) {
        Some(value) => Ok(value.copy()),
        None => match funcs.find(name) {
            Some(function) => Ok(ZapValue::Callable(Rc::clone(function))),
            None => Err(join2("undefined variable: ", name)),
        },
    }
}

fn apply_unary(op: UnaryOp, value: &ZapValue) -> (r: Result<ZapValue, String>)
    ensures
        told(r) == unary_result(op, value@),
{
    match op {
        UnaryOp::Not => Ok(ZapValue::Bool(!value.truthy())),
        UnaryOp::Negate => match value {
            ZapValue::Number(n) => if *n == i64::MIN {
                fail("integer overflow")
            } else {
                Ok(ZapValue::Number(-*n))
            },
            _ => fail("unary '-' expects a number"),
        },
    }
}

fn wait_for(value: ZapValue, context: &mut ExecutionContext) -> (r: Result<ZapValue, String>)
    ensures
        (told(r), final(context)@) == awaited(value@, old(context)@),
{
    match value {
        ZapValue::Future(inner) => Ok(*inner),
        ZapValue::ScheduledFuture(id) => join_scheduled(context, id, None),
        _ => fail("await expects a future value"),
    }
}

fn find_member(
    value: &ZapValue,
    member: &str,
    vars: &Table<ZapValue>,
    funcs: &Functions,
    context: &ExecutionContext,
) -> (r: Result<ZapValue, String>)
    ensures
        told(r) == member_of(value@, member@, vars@, funcs@, context@),
{
    broadcast use lemma_value_view;

    match value {
        ZapValue::Object { class_name, id } => {
            match check_field_visibility(class_name.as_str(), member, vars, funcs, context) {
                Err(error) => {
                    return Err(error);
                },
                Ok(_) => {},
            }
            match context.fields_of(*id) {
                Err(error) => Err(error),
                Ok(fields) => match fields.find(member) {
                    Some(found) => Ok(found.copy()),
                    None => Err(join2("property not found: ", member)),
                },
            }
        },
        ZapValue::Dict(rows) => match rows.find(member) {
            Some(found) => Ok(found.copy()),
            None => Err(join2("key not found: ", member)),
        },
        _ => fail("property access expects an object or map"),
    }
}

fn find_item(target: &ZapValue, index: &ZapValue) -> (r: Result<ZapValue, String>)
    ensures
        told(r) == item_of(target@, index@),
{
    broadcast use lemma_value_view;

    match (target, index) {
        (ZapValue::List(items), ZapValue::Number(n)) => {
            if *n < 0 {
                return fail("invalid index operation");
            }
            if (*n as u64) < items.len() as u64 {
                Ok(items[*n as usize].copy())
            } else {
                fail("index out of range")
            }
        },
        (ZapValue::Dict(rows), ZapValue::Text(key)) => match rows.find(key.as_str()) {
            Some(found) => Ok(found.copy()),
            None => fail("key not found"),
        },
        _ => fail("invalid index operation"),
    }
}

fn read_outcome(value: ZapValue) -> (r: Result<EvalOutcome, String>)
    ensures
        told(r) == outcome(value@),
{
    match value {
        ZapValue::ResultOk(inner) => Ok(EvalOutcome::Value(*inner)),
        ZapValue::OptionSome(inner) => Ok(EvalOutcome::Value(*inner)),
        ZapValue::ResultErr(_) => Ok(EvalOutcome::Propagate(value)),
        ZapValue::OptionNone => Ok(EvalOutcome::Propagate(value)),
        _ => fail("? expects a Result or Option value"),
    }
}

fn settle_outcome(r: Result<ZapValue, String>, asked: bool) -> (s: Result<EvalOutcome, String>)
    ensures
        forall|w: World| #[trigger] outcome_in((told(r), w), asked) == (told(s), w),
{
    match r {
        Err(error) => Err(error),
        Ok(value) => if asked {
            read_outcome(value)
        } else {
            Ok(EvalOutcome::Value(value))
        },
    }
}

// ---------------------------------------------------------------------------
// Arguments
// ---------------------------------------------------------------------------

fn by_position(values: Vec<ZapValue>) -> (r: Vec<CallArgument>)
    ensures
        views(r@) == positional(views(values@)),
{
    let mut out: Vec<CallArgument> = Vec::new();
    let mut i: usize = 0;
    while i < values.len()
        invariant
            i <= values@.len(),
            out@.len() == i,
            forall|k: int|
                0 <= k < i ==> (#[trigger] out@[k])@ == (ArgM { name: None, value: values@[k]@ }),
        decreases values.len() - i,
    {
        out.push(CallArgument { name: None, value: values[i].copy() });
        i += 1;
    }
    assert(views(out@) =~= positional(views(values@)));
    out
}

fn values_of(args: &Vec<CallArgument>) -> (r: Vec<ZapValue>)
    ensures
        views(r@) == argument_values(views(args@)),
{
    let mut out: Vec<ZapValue> = Vec::new();
    let mut i: usize = 0;
    while i < args.len()
        invariant
            i <= args@.len(),
            out@.len() == i,
            forall|k: int| 0 <= k < i ==> (#[trigger] out@[k])@ == args@[k].value@,
        decreases args.len() - i,
    {
        out.push(args[i].value.copy());
        i += 1;
    }
    assert(views(out@) =~= argument_values(views(args@)));
    out
}

fn some_named(args: &Vec<CallArgument>) -> (r: bool)
    ensures
        r == any_named(views(args@)),
{
    let mut i: usize = 0;
    while i < args.len()
        invariant
            i <= args@.len(),
            forall|k: int| 0 <= k < i ==> (#[trigger] views(args@)[k]).name is None,
        decreases args.len() - i,
    {
        assert(views(args@)[i as int] == args@[i as int]@);
        if args[i].name.is_some() {
            return true;
        }
        i += 1;
    }
    false
}

fn count_required(params: &Vec<Param>) -> (r: usize)
    ensures
        r == required(views(params@), 0),
{
    let mut count: usize = 0;
    let mut i: usize = params.len();
    while i > 0
        invariant
            i <= params@.len(),
            count == required(views(params@), i as nat),
            count <= params.len() - i,
        decreases i,
    {
        i -= 1;
        assert(views(params@)[i as int] == params@[i as int]@);
        if params[i].default.is_none() {
            count += 1;
        }
    }
    count
}

fn arrange(args: &Vec<CallArgument>, params: &Vec<Param>, limit: String) -> (r: Result<
    Table<ZapValue>,
    String,
>)
    ensures
        told(r) == arranged(views(args@), views(params@), 0, 0, Seq::empty(), false, limit@),
{
    let mut done: Table<ZapValue> = Table::new();
    let mut saw_named: bool = false;
    let mut next: usize = 0;
    let mut i: usize = 0;
    while i < args.len()
        invariant
            i <= args@.len(),
            next <= params@.len(),
            arranged(views(args@), views(params@), 0, 0, Seq::empty(), false, limit@) == arranged(
                views(args@),
                views(params@),
                i as nat,
                next as nat,
                done@,
                saw_named,
                limit@,
            ),
        decreases args.len() - i,
    {
        assert(views(args@)[i as int] == args@[i as int]@);
        match &args[i].name {
            Some(name) => {
                saw_named = true;
                if done.holds(name.as_str()) {
                    return Err(join2("duplicate named argument: ", name.as_str()));
                }
                done.insert(name.clone(), args[i].value.copy());
            },
            None => {
                if saw_named {
                    return fail("positional argument cannot follow a named argument");
                }
                if next >= params.len() {
                    return Err(limit);
                }
                assert(views(params@)[next as int] == params@[next as int]@);
                done.insert(params[next].name.clone(), args[i].value.copy());
                next += 1;
            },
        }
        i += 1;
    }
    Ok(done)
}

fn parameter_known(params: &Vec<Param>, name: &str) -> (r: bool)
    ensures
        r == is_parameter(views(params@), name@),
{
    let mut i: usize = 0;
    while i < params.len()
        invariant
            i <= params@.len(),
            forall|k: int| 0 <= k < i ==> (#[trigger] views(params@)[k]).name != name@,
        decreases params.len() - i,
    {
        assert(views(params@)[i as int] == params@[i as int]@);
        if same(params[i].name.as_str(), name) {
            return true;
        }
        i += 1;
    }
    false
}

fn fit_arguments(args: &Vec<CallArgument>, params: &Vec<Param>, limit: String) -> (r: Result<
    Table<ZapValue>,
    String,
>)
    ensures
        told(r) == fitting(views(args@), views(params@), limit@),
{
    let given = match arrange(args, params, limit) {
        Err(error) => {
            return Err(error);
        },
        Ok(given) => given,
    };
    let mut i: usize = 0;
    while i < given.entries.len()
        invariant
            i <= given.entries@.len(),
            unknown_argument(given@, views(params@), 0) == unknown_argument(
                given@,
                views(params@),
                i as nat,
            ),
            fitting(views(args@), views(params@), limit@) == (match unknown_argument(
                given@,
                views(params@),
                0,
            ) {
                Some(name) => Err("unknown named argument: "@ + name),
                None => Ok(given@),
            }),
        decreases given.entries.len() - i,
    {
        let name = given.entries[i].0.as_str();
        assert(given@[i as int].0 == name@);
        if !parameter_known(params, name) {
            return Err(join2("unknown named argument: ", name));
        }
        i += 1;
    }
    Ok(given)
}

fn type_names(type_params: &Vec<String>) -> (r: String)
    ensures
        r@ == generic_names(texts(type_params@)),
{
    join_texts(type_params, ", ")
}

fn check_argument(
    param: &Param,
    value: &ZapValue,
    type_params: &Vec<String>,
    bindings: &mut Table<String>,
) -> (r: Result<(), String>)
    ensures
        match argument_checked(param@, value@, texts(type_params@), old(bindings)@) {
            Ok(more) => r is Ok && final(bindings)@ == more,
            Err(error) => r matches Err(e) && e@ == error,
        },
{
    let annotation = match &param.annotation {
        None => {
            return Ok(());
        },
        Some(annotation) => annotation,
    };
    if type_params.len() == 0 {
        return check_annotation(param.name.as_str(), annotation.as_str(), value);
    }
    let actual = runtime_annotation(value, 0);
    if !infer_runtime_substitution(
        annotation.as_str(),
        actual.as_str(),
        type_params,
        bindings,
        0,
    ) {
        return Err(
            join3(
                "generic argument substitution for '",
                type_names(type_params).as_str(),
                "' is inconsistent",
            ),
        );
    }
    match substitute_runtime_annotation(annotation.as_str(), bindings, 0) {
        None => Err(
            join3(
                "generic argument substitution for '",
                type_names(type_params).as_str(),
                "' exceeds the recursion limit",
            ),
        ),
        Some(concrete) => check_annotation(param.name.as_str(), concrete.as_str(), value),
    }
}

fn types_are_bound(type_params: &Vec<String>, bindings: &Table<String>) -> (r: bool)
    ensures
        r == all_bound(texts(type_params@), bindings@),
{
    let mut i: usize = 0;
    while i < type_params.len()
        invariant
            i <= type_params@.len(),
            forall|k: int|
                0 <= k < i ==> get(bindings@, #[trigger] texts(type_params@)[k]) is Some,
        decreases type_params.len() - i,
    {
        assert(texts(type_params@)[i as int] == type_params@[i as int]@);
        if !bindings.holds(type_params[i].as_str()) {
            assert(get(bindings@, texts(type_params@)[i as int]) is None);
            return false;
        }
        i += 1;
    }
    true
}

fn read_returned(flow: Flow) -> (r: Result<ZapValue, String>)
    ensures
        told(r) == returned(flow@),
{
    match flow {
        Flow::Return(value) => Ok(value),
        Flow::Continue => Ok(ZapValue::Nil),
        Flow::Break => fail("break/continue cannot be used outside a loop"),
        Flow::LoopContinue => fail("break/continue cannot be used outside a loop"),
        Flow::Raise(value) => Err(join2("raised error: ", value.show().as_str())),
    }
}

fn check_result(
    annotation: &Option<String>,
    type_params: &Vec<String>,
    bindings: &Table<String>,
    value: &ZapValue,
) -> (r: Result<(), String>)
    ensures
        told_unit(r) == result_checked(
            opt_text(*annotation),
            texts(type_params@),
            bindings@,
            value@,
        ),
{
    let text = match annotation {
        None => {
            return Ok(());
        },
        Some(text) => text,
    };
    if type_params.len() == 0 {
        return check_annotation("return", text.as_str(), value);
    }
    match substitute_runtime_annotation(text.as_str(), bindings, 0) {
        None => Err(
            join3(
                "generic return substitution for '",
                type_names(type_params).as_str(),
                "' exceeds the recursion limit",
            ),
        ),
        Some(concrete) => check_annotation("return", concrete.as_str(), value),
    }
}

fn hand_over(value: ZapValue, is_async: bool, context: &mut ExecutionContext) -> (r: Result<
    ZapValue,
    String,
>)
    ensures
        (told(r), final(context)@) == handed_over(value@, is_async, old(context)@),
{
    if is_async {
        match context.schedule_language_task(value) {
            Ok(id) => Ok(ZapValue::ScheduledFuture(id)),
            Err(error) => Err(error),
        }
    } else {
        Ok(value)
    }
}

fn open_call_frame(f: &Function, context: &mut ExecutionContext) -> (r: Option<usize>)
    ensures
        (r, final(context)@) == call_frame(f@, old(context)@),
{
    match &f.ast_body {
        Some(_) => Some(context.child_frame(f.closure)),
        None => None,
    }
}

fn names_for_call(f: &Function, frame: Option<usize>, context: &ExecutionContext) -> (r: Table<
    ZapValue,
>)
    ensures
        r@ == call_names(f@, frame, context@),
{
    match frame {
        Some(id) => context.snapshot(id),
        None => context.snapshot(f.closure),
    }
}

fn bind_local(frame: Option<usize>, name: &str, value: ZapValue, context: &mut ExecutionContext)
    ensures
        final(context)@ == bound_local(old(context)@, frame, name@, value@),
{
    if let Some(id) = frame {
        context.insert_local(id, name, value);
    }
}

fn find_super_class(local: &Table<ZapValue>, funcs: &Functions) -> (r: Option<String>)
    ensures
        opt_text(r) == super_class(local@, funcs@),
{
    match local.find("__zap_owner_class") {
        Some(ZapValue::Text(owner)) => class_parent(owner.as_str(), funcs),
        _ => None,
    }
}

fn drop_self(keys: &Vec<String>) -> (r: Vec<String>)
    ensures
        texts(r@) == without_self(texts(keys@), keys@.len()),
{
    let mut out: Vec<String> = Vec::new();
    let mut i: usize = 0;
    assert(texts(out@) =~= Seq::<Str>::empty());
    while i < keys.len()
        invariant
            i <= keys@.len(),
            texts(out@) == without_self(texts(keys@), i as nat),
        decreases keys.len() - i,
    {
        assert(texts(keys@)[i as int] == keys@[i as int]@);
        if !same(keys[i].as_str(), "self") {
            let ghost before = texts(out@);
            out.push(keys[i].clone());
            assert(texts(out@) =~= before.push(keys@[i as int]@));
        }
        i += 1;
    }
    out
}

fn filled_params(params: &Vec<Param>) -> (r: Vec<Param>)
    ensures
        views(r@) == caller_params(views(params@)),
{
    let mut out: Vec<Param> = Vec::new();
    let mut i: usize = 1;
    if params.len() == 0 {
        assert(views(out@) =~= views(params@));
        return out;
    }
    while i < params.len()
        invariant
            1 <= i <= params@.len(),
            out@.len() == i - 1,
            forall|k: int| 0 <= k < i - 1 ==> (#[trigger] out@[k])@ == params@[k + 1]@,
        decreases params.len() - i,
    {
        out.push(params[i].copy());
        i += 1;
    }
    assert(views(out@) =~= views(params@).skip(1));
    out
}

fn arity_text(front: &str, params: &Vec<Param>, tail: &str, got: usize) -> (r: String)
    ensures
        r@ == front@ + crate::text::decimal(required(views(params@), 0) as int) + " to "@
            + crate::text::decimal(params@.len() as int) + tail@ + crate::text::decimal(got as int),
{
    join6(
        front,
        length_text(count_required(params)).as_str(),
        " to ",
        length_text(params.len()).as_str(),
        tail,
        length_text(got).as_str(),
    )
}

// ---------------------------------------------------------------------------
// Expressions
// ---------------------------------------------------------------------------

fn evaluate(
    node: &Expr,
    vars: &Table<ZapValue>,
    funcs: &Functions,
    context: &mut ExecutionContext,
    fuel: usize,
) -> (r: Result<ZapValue, String>)
    ensures
        (told(r), final(context)@) == eval(node@, vars@, funcs@, old(context)@, fuel as nat),
    decreases fuel, 0int, 0int,
{
    if fuel == 0 {
        return fail("evaluation nesting limit exceeded");
    }
    let mark = context.memory_checkpoint();
    let result = ast_expression_with_context_inner(node, vars, funcs, context, fuel - 1);
    if result.is_err() {
        context.rollback_memory(mark);
    }
    result
}

fn ast_expression_with_context_inner(
    node: &Expr,
    vars: &Table<ZapValue>,
    funcs: &Functions,
    context: &mut ExecutionContext,
    fuel: usize,
) -> (r: Result<ZapValue, String>)
    ensures
        (told(r), final(context)@) == eval_inner(
            node@,
            vars@,
            funcs@,
            old(context)@,
            fuel as nat,
        ),
    decreases fuel, 9int, 0int,
{
    match node {
        Expr::Literal(l) => charge_ast_value(literal_value(l), context),
        Expr::Name(name) => look_up(name.as_str(), vars, funcs),
        Expr::List(items) => {
            proof {
                lemma_expr_list(node);
            }
            match evaluate_items(items, vars, funcs, context, fuel) {
                Err(error) => Err(error),
                Ok(values) => charge_ast_value(list(values), context),
            }
        },
        Expr::Dict(pairs) => {
            proof {
                lemma_expr_dict(node);
            }
            match evaluate_pairs(pairs, vars, funcs, context, fuel) {
                Err(error) => Err(error),
                Ok(rows) => charge_ast_value(dict(rows), context),
            }
        },
        Expr::Unary { op, value } => match evaluate(value, vars, funcs, context, fuel) {
            Err(error) => Err(error),
            Ok(v) => charge_result(apply_unary(*op, &v), context),
        },
        Expr::Binary { left, op, right } => evaluate_binary(
            left,
            *op,
            right,
            vars,
            funcs,
            context,
            fuel,
        ),
        Expr::Conditional { condition, then_branch, else_branch } => match evaluate(
            condition,
            vars,
            funcs,
            context,
            fuel,
        ) {
            Err(error) => Err(error),
            Ok(v) => if v.truthy() {
                evaluate(then_branch, vars, funcs, context, fuel)
            } else {
                evaluate(else_branch, vars, funcs, context, fuel)
            },
        },
        Expr::Await(value) => match evaluate(value, vars, funcs, context, fuel) {
            Err(error) => Err(error),
            Ok(v) => wait_for(v, context),
        },
        Expr::Propagate(_) => fail(
            "? propagation must be used as a complete statement expression",
        ),
        Expr::Call { callee, args } => {
            proof {
                lemma_expr_call(node);
            }
            evaluate_call(callee, args, vars, funcs, context, fuel)
        },
        Expr::Member { target, member } => match evaluate(target, vars, funcs, context, fuel) {
            Err(error) => Err(error),
            Ok(v) => {
                let found = find_member(&v, member.as_str(), vars, funcs, context);
                charge_whole_result(found, context)
            },
        },
        Expr::Index { target, index } => {
            let t = match evaluate(target, vars, funcs, context, fuel) {
                Err(error) => {
                    return Err(error);
                },
                Ok(t) => t,
            };
            context.hold_value(&t);
            let found = evaluate(index, vars, funcs, context, fuel);
            context.let_go();
            let i = match found {
                Err(error) => {
                    return Err(error);
                },
                Ok(i) => i,
            };
            charge_whole_result(find_item(&t, &i), context)
        },
    }
}

fn evaluate_binary(
    left: &Expr,
    op: BinaryOp,
    right: &Expr,
    vars: &Table<ZapValue>,
    funcs: &Functions,
    context: &mut ExecutionContext,
    fuel: usize,
) -> (r: Result<ZapValue, String>)
    ensures
        (told(r), final(context)@) == eval_binary(
            left@,
            op,
            right@,
            vars@,
            funcs@,
            old(context)@,
            fuel as nat,
        ),
    decreases fuel, 1int, 0int,
{
    let a = match evaluate(left, vars, funcs, context, fuel) {
        Err(error) => {
            return Err(error);
        },
        Ok(a) => a,
    };
    let decided = match &a {
        ZapValue::Bool(b) => (op == BinaryOp::And && !*b) || (op == BinaryOp::Or && *b),
        _ => false,
    };
    if decided {
        return charge_ast_value(a, context);
    }
    context.hold_value(&a);
    let other = evaluate(right, vars, funcs, context, fuel);
    context.let_go();
    match other {
        Err(error) => Err(error),
        Ok(b) => charge_result(operate(&a, op, &b), context),
    }
}

fn copy_list(items: &Vec<ZapValue>) -> (r: Vec<ZapValue>)
    ensures
        views(r@) == views(items@),
{
    let mut out: Vec<ZapValue> = Vec::new();
    let mut i: usize = 0;
    while i < items.len()
        invariant
            i <= items@.len(),
            out@.len() == i,
            forall|j: int| 0 <= j < i ==> (#[trigger] out@[j])@ == items@[j]@,
        decreases items.len() - i,
    {
        out.push(items[i].copy());
        i += 1;
    }
    assert(views(out@) =~= views(items@));
    out
}

fn evaluate_items(
    items: &Vec<Expr>,
    vars: &Table<ZapValue>,
    funcs: &Functions,
    context: &mut ExecutionContext,
    fuel: usize,
) -> (r: Result<Vec<ZapValue>, String>)
    ensures
        (told_values(r), final(context)@) == eval_items(
            views(items@),
            0,
            Seq::empty(),
            vars@,
            funcs@,
            old(context)@,
            fuel as nat,
        ),
    decreases fuel, 1int, 0int,
{
    let mut done: Vec<ZapValue> = Vec::new();
    let mut i: usize = 0;
    assert(views(done@) =~= Seq::<Val>::empty());
    while i < items.len()
        invariant
            i <= items@.len(),
            eval_items(
                views(items@),
                0,
                Seq::empty(),
                vars@,
                funcs@,
                old(context)@,
                fuel as nat,
            ) == eval_items(
                views(items@),
                i as nat,
                views(done@),
                vars@,
                funcs@,
                context@,
                fuel as nat,
            ),
        decreases items.len() - i,
    {
        assert(views(items@)[i as int] == items@[i as int]@);
        context.hold_values(copy_list(&done));
        let found = evaluate(&items[i], vars, funcs, context, fuel);
        context.let_go();
        match found {
            Err(error) => {
                return Err(error);
            },
            Ok(value) => {
                let ghost before = views(done@);
                done.push(value);
                assert(views(done@) =~= before.push(value@));
            },
        }
        i += 1;
    }
    Ok(done)
}

fn evaluate_pairs(
    pairs: &Vec<(Expr, Expr)>,
    vars: &Table<ZapValue>,
    funcs: &Functions,
    context: &mut ExecutionContext,
    fuel: usize,
) -> (r: Result<Table<ZapValue>, String>)
    ensures
        (told(r), final(context)@) == eval_pairs(
            pair_views(pairs@),
            0,
            Seq::empty(),
            vars@,
            funcs@,
            old(context)@,
            fuel as nat,
        ),
    decreases fuel, 1int, 0int,
{
    let mut done: Table<ZapValue> = Table::new();
    let mut i: usize = 0;
    while i < pairs.len()
        invariant
            i <= pairs@.len(),
            eval_pairs(
                pair_views(pairs@),
                0,
                Seq::empty(),
                vars@,
                funcs@,
                old(context)@,
                fuel as nat,
            ) == eval_pairs(
                pair_views(pairs@),
                i as nat,
                done@,
                vars@,
                funcs@,
                context@,
                fuel as nat,
            ),
        decreases pairs.len() - i,
    {
        assert(pair_views(pairs@)[i as int] == (pairs@[i as int].0@, pairs@[i as int].1@));
        context.hold_table(&done);
        let found = evaluate(&pairs[i].0, vars, funcs, context, fuel);
        context.let_go();
        let key = match found {
            Err(error) => {
                return Err(error);
            },
            Ok(ZapValue::Text(key)) => key,
            Ok(_) => {
                return fail("map keys must be text");
            },
        };
        context.hold_table(&done);
        let found = evaluate(&pairs[i].1, vars, funcs, context, fuel);
        context.let_go();
        match found {
            Err(error) => {
                return Err(error);
            },
            Ok(value) => done.insert(key, value),
        }
        i += 1;
    }
    Ok(done)
}

spec fn told_arguments(r: Result<Vec<CallArgument>, String>) -> Result<Seq<ArgM>, Str> {
    match r {
        Ok(args) => Ok(views(args@)),
        Err(error) => Err(error@),
    }
}

fn evaluate_args(
    args: &Vec<CallArg>,
    vars: &Table<ZapValue>,
    funcs: &Functions,
    context: &mut ExecutionContext,
    fuel: usize,
) -> (r: Result<Vec<CallArgument>, String>)
    ensures
        (told_arguments(r), final(context)@) == eval_args(
            views(args@),
            0,
            Seq::empty(),
            vars@,
            funcs@,
            old(context)@,
            fuel as nat,
        ),
    decreases fuel, 1int, 0int,
{
    let mut done: Vec<CallArgument> = Vec::new();
    let mut i: usize = 0;
    assert(views(done@) =~= Seq::<ArgM>::empty());
    while i < args.len()
        invariant
            i <= args@.len(),
            eval_args(
                views(args@),
                0,
                Seq::empty(),
                vars@,
                funcs@,
                old(context)@,
                fuel as nat,
            ) == eval_args(
                views(args@),
                i as nat,
                views(done@),
                vars@,
                funcs@,
                context@,
                fuel as nat,
            ),
        decreases args.len() - i,
    {
        assert(views(args@)[i as int] == args@[i as int]@);
        context.hold_values(values_of(&done));
        let found = evaluate(&args[i].value, vars, funcs, context, fuel);
        context.let_go();
        match found {
            Err(error) => {
                return Err(error);
            },
            Ok(value) => {
                let ghost before = views(done@);
                let arg = CallArgument { name: crate::ast::copy_opt(&args[i].name), value };
                done.push(arg);
                assert(views(done@) =~= before.push(arg@));
            },
        }
        i += 1;
    }
    Ok(done)
}

fn evaluate_call(
    callee: &Expr,
    args: &Vec<CallArg>,
    vars: &Table<ZapValue>,
    funcs: &Functions,
    context: &mut ExecutionContext,
    fuel: usize,
) -> (r: Result<ZapValue, String>)
    ensures
        (told(r), final(context)@) == eval_call(
            callee@,
            views(args@),
            vars@,
            funcs@,
            old(context)@,
            fuel as nat,
        ),
    decreases fuel, 8int, 1int,
{
    let values = match evaluate_args(args, vars, funcs, context, fuel) {
        Err(error) => {
            return Err(error);
        },
        Ok(values) => values,
    };
    context.hold_scope(vars, funcs);
    let result = call_callee(callee, values, vars, funcs, context, fuel);
    context.let_go();
    result
}

fn call_callee(
    callee: &Expr,
    values: Vec<CallArgument>,
    vars: &Table<ZapValue>,
    funcs: &Functions,
    context: &mut ExecutionContext,
    fuel: usize,
) -> (r: Result<ZapValue, String>)
    ensures
        (told(r), final(context)@) == dispatched(
            callee@,
            views(values@),
            vars@,
            funcs@,
            old(context)@,
            fuel as nat,
        ),
    decreases fuel, 8int, 0int,
{
    broadcast use lemma_value_view;

    match callee {
        Expr::Name(name) => call_by_name(name.as_str(), values, vars, funcs, context, fuel),
        Expr::Member { target, member } => call_on_member(
            target,
            member.as_str(),
            values,
            vars,
            funcs,
            context,
            fuel,
        ),
        _ => {
            context.hold_values(values_of(&values));
            let found = evaluate(callee, vars, funcs, context, fuel);
            context.let_go();
            match found {
                Err(error) => Err(error),
                Ok(ZapValue::Callable(function)) => {
                    context.hold_value(&ZapValue::Callable(Rc::clone(&function)));
                    let result = call(&function, values, funcs, context, fuel);
                    context.let_go();
                    result
                },
                Ok(other) => Err(
                    join3("value of type ", value_type_name(&other), " is not callable"),
                ),
            }
        },
    }
}

fn call_builtin(name: &str, args: &Vec<ZapValue>, context: &mut ExecutionContext) -> (r: Result<
    ZapValue,
    String,
>)
    ensures
        (told(r), final(context)@) == called_builtin(name@, views(args@), old(context)@),
{
    match direct_builtin_with_context(name, args, context) {
        Err(error) => {
            return Err(error);
        },
        Ok(Some(value)) => {
            return Ok(value);
        },
        Ok(None) => {},
    }
    match direct_external_builtin(name, args, context) {
        Err(error) => Err(error),
        Ok(Some(value)) => charge_ast_cloned_value(value, context),
        Ok(None) => Err(join2("undefined function: ", name)),
    }
}

fn call_by_name(
    name: &str,
    values: Vec<CallArgument>,
    vars: &Table<ZapValue>,
    funcs: &Functions,
    context: &mut ExecutionContext,
    fuel: usize,
) -> (r: Result<ZapValue, String>)
    ensures
        (told(r), final(context)@) == call_named(
            name@,
            views(values@),
            vars@,
            funcs@,
            old(context)@,
            fuel as nat,
        ),
    decreases fuel, 7int, 0int,
{
    if same(name, "new") {
        if some_named(&values) {
            return Err(join2("named arguments are not supported for built-in function: ", "new"));
        }
        let given = values_of(&values);
        context.hold_values(copy_list(&given));
        let result = construct_object(&given, vars, funcs, context, fuel);
        context.let_go();
        return result;
    }
    if let Some(function) = funcs.find(name) {
        return call(function, values, funcs, context, fuel);
    }
    if let Some(ZapValue::Callable(function)) = vars.find(name) {
        return call(function, values, funcs, context, fuel);
    }
    if some_named(&values) {
        return Err(join2("named arguments are not supported for built-in function: ", name));
    }
    let plain = values_of(&values);
    if same(name, "web_serve") {
        context.hold_values(copy_list(&plain));
        let result = serve_web(&plain, funcs, context, fuel);
        context.let_go();
        return result;
    }
    call_builtin(name, &plain, context)
}

spec fn told_receiver(r: Result<(String, ZapValue), String>) -> Result<(Str, Val), Str> {
    match r {
        Ok(pair) => Ok((pair.0@, pair.1@)),
        Err(error) => Err(error@),
    }
}

fn find_receiver(
    target: &Expr,
    vars: &Table<ZapValue>,
    funcs: &Functions,
    context: &mut ExecutionContext,
    fuel: usize,
) -> (r: Result<(String, ZapValue), String>)
    ensures
        (told_receiver(r), final(context)@) == receiver(
            target@,
            vars@,
            funcs@,
            old(context)@,
            fuel as nat,
        ),
    decreases fuel, 1int, 0int,
{
    let is_super = match target {
        Expr::Name(name) => same(name.as_str(), "super"),
        _ => false,
    };
    if is_super {
        return match vars.find("super") {
            Some(ZapValue::Text(class_name)) => match vars.find("self") {
                Some(value) => Ok((class_name.clone(), value.copy())),
                None => fail("super requires self"),
            },
            _ => fail("super is only available inside a method"),
        };
    }
    match evaluate(target, vars, funcs, context, fuel) {
        Err(error) => Err(error),
        Ok(value) => {
            let class_name = match &value {
                ZapValue::Object { class_name, .. } => class_name.clone(),
                _ => {
                    return fail("methods can only be called on objects");
                },
            };
            Ok((class_name, value))
        },
    }
}

fn call_on_member(
    target: &Expr,
    member: &str,
    values: Vec<CallArgument>,
    vars: &Table<ZapValue>,
    funcs: &Functions,
    context: &mut ExecutionContext,
    fuel: usize,
) -> (r: Result<ZapValue, String>)
    ensures
        (told(r), final(context)@) == call_member(
            target@,
            member@,
            views(values@),
            vars@,
            funcs@,
            old(context)@,
            fuel as nat,
        ),
    decreases fuel, 7int, 0int,
{
    context.hold_values(values_of(&values));
    let found = find_receiver(target, vars, funcs, context, fuel);
    context.let_go();
    let (class_name, value) = match found {
        Err(error) => {
            return Err(error);
        },
        Ok(pair) => pair,
    };
    let key = join3(class_name.as_str(), ".", member);
    match funcs.find(key.as_str()) {
        None => Err(join2("undefined method: ", key.as_str())),
        Some(function) => {
            match check_method_visibility(function, class_name.as_str(), vars, funcs) {
                Err(error) => {
                    return Err(error);
                },
                Ok(_) => {},
            }
            call_on(function, values, value, funcs, context, fuel)
        },
    }
}

fn evaluate_source(
    source: &str,
    vars: &Table<ZapValue>,
    funcs: &Functions,
    context: &mut ExecutionContext,
    fuel: usize,
) -> (r: Result<ZapValue, String>)
    ensures
        (told(r), final(context)@) == evaluated(
            source@,
            vars@,
            funcs@,
            old(context)@,
            fuel as nat,
        ),
    decreases fuel, 1int, 0int,
{
    match parse_expression(source) {
        Err(error) => Err(error),
        Ok(e) => evaluate(&e, vars, funcs, context, fuel),
    }
}

// ---------------------------------------------------------------------------
// Calls
// ---------------------------------------------------------------------------

fn bind_params(
    params: &Vec<Param>,
    given: Table<ZapValue>,
    local: &mut Table<ZapValue>,
    bindings: &mut Table<String>,
    type_params: &Vec<String>,
    frame: Option<usize>,
    funcs: &Functions,
    context: &mut ExecutionContext,
    fuel: usize,
) -> (r: Result<(), String>)
    ensures
        ({
            let (b, w) = bind(
                views(params@),
                0,
                given@,
                old(local)@,
                old(bindings)@,
                texts(type_params@),
                frame,
                funcs@,
                old(context)@,
                fuel as nat,
            );
            final(context)@ == w && match b {
                Ok(pair) => r is Ok && pair == (final(local)@, final(bindings)@),
                Err(error) => r matches Err(e) && e@ == error,
            }
        }),
    decreases fuel, 2int, 0int,
{
    let mut left: Table<ZapValue> = given;
    let mut i: usize = 0;
    let ghost goal = bind(
        views(params@),
        0,
        given@,
        local@,
        bindings@,
        texts(type_params@),
        frame,
        funcs@,
        context@,
        fuel as nat,
    );
    while i < params.len()
        invariant
            i <= params@.len(),
            goal == bind(
                views(params@),
                0,
                given@,
                old(local)@,
                old(bindings)@,
                texts(type_params@),
                frame,
                funcs@,
                old(context)@,
                fuel as nat,
            ),
            goal == bind(
                views(params@),
                i as nat,
                left@,
                local@,
                bindings@,
                texts(type_params@),
                frame,
                funcs@,
                context@,
                fuel as nat,
            ),
        decreases params.len() - i,
    {
        assert(views(params@)[i as int] == params@[i as int]@);
        let param = &params[i];
        let value = match left.find(param.name.as_str()) {
            Some(value) => value.copy(),
            None => match &param.default {
                Some(source) => {
                    context.hold_table(&left);
                    let found = evaluate_source(source.as_str(), local, funcs, context, fuel);
                    context.let_go();
                    match found {
                        Err(error) => {
                            return Err(error);
                        },
                        Ok(value) => value,
                    }
                },
                None => {
                    return Err(join2("missing required argument: ", param.name.as_str()));
                },
            },
        };
        match check_argument(param, &value, type_params, bindings) {
            Err(error) => {
                return Err(error);
            },
            Ok(_) => {},
        }
        left.remove(param.name.as_str());
        bind_local(frame, param.name.as_str(), value.copy(), context);
        local.insert(param.name.clone(), value);
        i += 1;
    }
    Ok(())
}

fn execute_body(
    f: &Function,
    local: &mut Table<ZapValue>,
    funcs: &mut Functions,
    context: &mut ExecutionContext,
    frame: Option<usize>,
    fuel: usize,
) -> (r: Result<Flow, String>)
    ensures
        ran_view(r, final(local)@, final(funcs)@, final(context)@) == run_body(
            f@,
            old(local)@,
            old(funcs)@,
            old(context)@,
            frame,
            fuel as nat,
        ),
    decreases fuel, 1int, 0int,
{
    match (&f.ast_body, frame) {
        (Some(body), Some(id)) => {
            let base = match context.base_path(id) {
                Some(base) => base,
                None => ".".to_owned(),
            };
            execute(body, local, funcs, context, base.as_str(), id, fuel)
        },
        _ => execute_source_lines(&f.body, local, funcs, context, ".", fuel),
    }
}

fn call(
    f: &Function,
    args: Vec<CallArgument>,
    funcs: &Functions,
    context: &mut ExecutionContext,
    fuel: usize,
) -> (r: Result<ZapValue, String>)
    ensures
        (told(r), final(context)@) == call_function(
            f@,
            views(args@),
            funcs@,
            old(context)@,
            fuel as nat,
        ),
    decreases fuel, 3int, 0int,
{
    if args.len() < count_required(&f.params) || args.len() > f.params.len() {
        return Err(arity_text("function expects ", &f.params, " arguments, got ", args.len()));
    }
    let frame = open_call_frame(f, context);
    let mut local = names_for_call(f, frame, context);
    let keys = context.capture_keys(f.closure);
    let limit = join3(
        "function expects at most ",
        length_text(f.params.len()).as_str(),
        " arguments",
    );
    let given = match fit_arguments(&args, &f.params, limit) {
        Err(error) => {
            return Err(error);
        },
        Ok(given) => given,
    };
    let mut bindings: Table<String> = Table::new();
    match bind_params(
        &f.params,
        given,
        &mut local,
        &mut bindings,
        &f.type_params,
        frame,
        funcs,
        context,
        fuel,
    ) {
        Err(error) => {
            return Err(error);
        },
        Ok(_) => {},
    }
    if !types_are_bound(&f.type_params, &bindings) {
        return Err(
            join3(
                "generic argument substitution for '",
                type_names(&f.type_params).as_str(),
                "' is incomplete",
            ),
        );
    }
    let mut local_funcs = copy_functions(funcs);
    let flow = match execute_body(f, &mut local, &mut local_funcs, context, frame, fuel) {
        Err(error) => {
            return Err(error);
        },
        Ok(flow) => flow,
    };
    let value = match read_returned(flow) {
        Err(error) => {
            return Err(error);
        },
        Ok(value) => value,
    };
    if f.ast_body.is_none() {
        context.sync_captured(f.closure, &keys, &local);
    }
    match check_result(&f.return_annotation, &f.type_params, &bindings, &value) {
        Err(error) => {
            return Err(error);
        },
        Ok(_) => {},
    }
    hand_over(value, f.is_async, context)
}

fn call_on(
    f: &Function,
    args: Vec<CallArgument>,
    self_value: ZapValue,
    funcs: &Functions,
    context: &mut ExecutionContext,
    fuel: usize,
) -> (r: Result<ZapValue, String>)
    ensures
        (told(r), final(context)@) == call_method(
            f@,
            views(args@),
            self_value@,
            funcs@,
            old(context)@,
            fuel as nat,
        ),
    decreases fuel, 3int, 0int,
{
    let params = filled_params(&f.params);
    if args.len() < count_required(&params) || args.len() > params.len() {
        return Err(arity_text("method expects ", &params, " arguments after self, got ", args.len()));
    }
    let frame = open_call_frame(f, context);
    let mut local = names_for_call(f, frame, context);
    let keys = context.capture_keys(f.closure);
    local.insert("self".to_owned(), self_value.copy());
    bind_local(frame, "self", self_value, context);
    if let Some(class_name) = find_super_class(&local, funcs) {
        local.insert("super".to_owned(), ZapValue::Text(class_name.clone()));
        bind_local(frame, "super", ZapValue::Text(class_name), context);
    }
    let limit = join3(
        "method expects at most ",
        length_text(params.len()).as_str(),
        " arguments after self",
    );
    let given = match fit_arguments(&args, &params, limit) {
        Err(error) => {
            return Err(error);
        },
        Ok(given) => given,
    };
    let mut bindings: Table<String> = Table::new();
    let no_types: Vec<String> = Vec::new();
    assert(texts(no_types@) =~= Seq::<Str>::empty());
    match bind_params(
        &params,
        given,
        &mut local,
        &mut bindings,
        &no_types,
        frame,
        funcs,
        context,
        fuel,
    ) {
        Err(error) => {
            return Err(error);
        },
        Ok(_) => {},
    }
    let mut local_funcs = copy_functions(funcs);
    let flow = match execute_body(f, &mut local, &mut local_funcs, context, frame, fuel) {
        Err(error) => {
            return Err(error);
        },
        Ok(flow) => flow,
    };
    let value = match read_returned(flow) {
        Err(error) => {
            return Err(error);
        },
        Ok(value) => value,
    };
    if f.ast_body.is_none() {
        context.sync_captured(f.closure, &drop_self(&keys), &local);
    }
    match check_result(&f.return_annotation, &no_types, &Table::new(), &value) {
        Err(error) => {
            return Err(error);
        },
        Ok(_) => {},
    }
    hand_over(value, f.is_async, context)
}

// ---------------------------------------------------------------------------
// Construction
// ---------------------------------------------------------------------------

fn find_field_value(f: &Function) -> (r: Option<&Expr>)
    ensures
        match r {
            Some(e) => field_value(f@) == Some(e@),
            None => field_value(f@) is None,
        },
{
    match &f.ast_body {
        None => None,
        Some(body) => {
            proof {
                lemma_program(body);
            }
            if body.statements.len() == 0 {
                return None;
            }
            assert(body@[0] == body.statements@[0]@);
            match &body.statements[0] {
                Stmt::Return(Some(value)) => Some(value),
                _ => None,
            }
        },
    }
}

fn set_own_fields(
    class_name: &str,
    object: &ZapValue,
    id: usize,
    vars: &Table<ZapValue>,
    funcs: &Functions,
    context: &mut ExecutionContext,
    fuel: usize,
) -> (r: Result<(), String>)
    requires
        object@ is Object,
        object@->id == id,
    ensures
        (told_unit(r), final(context)@) == own_fields(
            class_name@,
            object@,
            0,
            vars@,
            funcs@,
            old(context)@,
            fuel as nat,
        ),
    decreases fuel, 3int, 0int,
{
    let prefix = join2(class_name, ".__field__.");
    let n = chars_of(prefix.as_str()).len();
    let mut i: usize = 0;
    while i < funcs.entries.len()
        invariant
            i <= funcs.entries@.len(),
            prefix@ == crate::classes::field_prefix(class_name@),
            n == prefix@.len(),
            object@ is Object,
            object@->id == id,
            own_fields(class_name@, object@, 0, vars@, funcs@, old(context)@, fuel as nat)
                == own_fields(
                class_name@,
                object@,
                i as nat,
                vars@,
                funcs@,
                context@,
                fuel as nat,
            ),
        decreases funcs.entries.len() - i,
    {
        let key = funcs.entries[i].0.as_str();
        assert(funcs@[i as int] == (key@, funcs.entries@[i as int].1@));
        if starts_with(key, prefix.as_str()) {
            if let Some(value) = find_field_value(&funcs.entries[i].1) {
                let mut local = copy_table(vars);
                local.insert("self".to_owned(), object.copy());
                local.insert(
                    "__zap_owner_class".to_owned(),
                    ZapValue::Text(class_name.to_owned()),
                );
                let v = match evaluate(value, &local, funcs, context, fuel) {
                    Err(error) => {
                        return Err(error);
                    },
                    Ok(v) => v,
                };
                match context.set_field(id, after(key, n).as_str(), v) {
                    Err(error) => {
                        return Err(error);
                    },
                    Ok(_) => {},
                }
            }
        }
        i += 1;
    }
    Ok(())
}

fn set_fields_of(
    class_name: &str,
    object: &ZapValue,
    steps: usize,
    vars: &Table<ZapValue>,
    funcs: &Functions,
    context: &mut ExecutionContext,
    fuel: usize,
) -> (r: Result<(), String>)
    ensures
        (told_unit(r), final(context)@) == init_fields(
            class_name@,
            object@,
            steps as nat,
            vars@,
            funcs@,
            old(context)@,
            fuel as nat,
        ),
    decreases fuel, 4int, steps,
{
    if let Some(parent_name) = class_parent(class_name, funcs) {
        if steps == 0 {
            return Err(join2("class hierarchy is cyclic: ", class_name));
        }
        match set_fields_of(parent_name.as_str(), object, steps - 1, vars, funcs, context, fuel) {
            Err(error) => {
                return Err(error);
            },
            Ok(_) => {},
        }
    }
    match object {
        ZapValue::Object { id, .. } => set_own_fields(
            class_name,
            object,
            *id,
            vars,
            funcs,
            context,
            fuel,
        ),
        _ => fail("field initialization expects an object"),
    }
}

fn divide_arguments(args: &Vec<ZapValue>) -> (r: (Table<ZapValue>, Vec<ZapValue>))
    ensures
        (r.0@, views(r.1@)) == construction(views(args@), 1, Seq::empty(), Seq::empty()),
{
    let mut fields: Table<ZapValue> = Table::new();
    let mut rest: Vec<ZapValue> = Vec::new();
    let mut i: usize = 1;
    assert(views(rest@) =~= Seq::<Val>::empty());
    while i < args.len()
        invariant
            1 <= i,
            construction(views(args@), 1, Seq::empty(), Seq::empty()) == construction(
                views(args@),
                i as nat,
                fields@,
                views(rest@),
            ),
        decreases args.len() - i,
    {
        proof {
            lemma_value_view(&args@[i as int]);
            assert(views(args@)[i as int] == args@[i as int]@);
        }
        let mut taken: bool = false;
        if rest.len() == 0 {
            if let ZapValue::Dict(rows) = &args[i] {
                fields = copy_table(rows);
                taken = true;
            }
        }
        if !taken {
            let ghost before = views(rest@);
            let value = args[i].copy();
            rest.push(value);
            assert(views(rest@) =~= before.push(value@));
        }
        i += 1;
    }
    (fields, rest)
}

fn construct_object(
    args: &Vec<ZapValue>,
    vars: &Table<ZapValue>,
    funcs: &Functions,
    context: &mut ExecutionContext,
    fuel: usize,
) -> (r: Result<ZapValue, String>)
    ensures
        (told(r), final(context)@) == construct(
            views(args@),
            vars@,
            funcs@,
            old(context)@,
            fuel as nat,
        ),
    decreases fuel, 6int, 0int,
{
    let mark = context.memory_checkpoint();
    let result = construct_object_inner(args, vars, funcs, context, fuel);
    if result.is_err() {
        context.rollback_memory(mark);
    }
    result
}

fn construct_object_inner(
    args: &Vec<ZapValue>,
    vars: &Table<ZapValue>,
    funcs: &Functions,
    context: &mut ExecutionContext,
    fuel: usize,
) -> (r: Result<ZapValue, String>)
    ensures
        (told(r), final(context)@) == construct_inner(
            views(args@),
            vars@,
            funcs@,
            old(context)@,
            fuel as nat,
        ),
    decreases fuel, 5int, 0int,
{
    if args.len() == 0 {
        return fail("new expects a text class name");
    }
    let class_name = match &args[0] {
        ZapValue::Text(class_name) => class_name,
        _ => {
            return fail("new expects a text class name");
        },
    };
    if !funcs.holds(join2(class_name.as_str(), ".__class__").as_str()) {
        return Err(join2("unknown class: ", class_name.as_str()));
    }
    let (fields, rest) = divide_arguments(args);
    let object = context.new_object(class_name.as_str());
    match set_fields_of(class_name.as_str(), &object, funcs.len(), vars, funcs, context, fuel) {
        Err(error) => {
            return Err(error);
        },
        Ok(_) => {},
    }
    let id: usize = match &object {
        ZapValue::Object { id, .. } => *id,
        _ => 0,
    };
    match context.extend_fields(id, &fields) {
        Err(error) => {
            return Err(error);
        },
        Ok(_) => {},
    }
    construct_from_parent(class_name.as_str(), object, rest, vars, funcs, context, fuel)
}

spec fn told_init(r: Option<(String, Rc<Function>)>) -> Option<(Str, Fun)> {
    match r {
        Some(pair) => Some((pair.0@, pair.1@)),
        None => None,
    }
}

fn find_parent_init(class_name: &str, funcs: &Functions) -> (r: Option<(String, Rc<Function>)>)
    ensures
        told_init(r) == parent_init(class_name@, funcs@),
{
    match funcs.find(join3(class_name, ".", "init").as_str()) {
        None => None,
        Some(init) => {
            if constructor_delegates_to_parent(init) || !funcs.holds(
                join2(class_name, ".__own_init__").as_str(),
            ) {
                return None;
            }
            match class_parent(class_name, funcs) {
                None => None,
                Some(parent_name) => match funcs.find(
                    join3(parent_name.as_str(), ".", "init").as_str(),
                ) {
                    None => None,
                    Some(function) => Some((parent_name, Rc::clone(function))),
                },
            }
        },
    }
}

fn construct_from_parent(
    class_name: &str,
    object: ZapValue,
    rest: Vec<ZapValue>,
    vars: &Table<ZapValue>,
    funcs: &Functions,
    context: &mut ExecutionContext,
    fuel: usize,
) -> (r: Result<ZapValue, String>)
    ensures
        (told(r), final(context)@) == construct_parent(
            class_name@,
            object@,
            views(rest@),
            vars@,
            funcs@,
            old(context)@,
            fuel as nat,
        ),
    decreases fuel, 4int, 1int,
{
    if let Some((parent_name, function)) = find_parent_init(class_name, funcs) {
        match check_method_visibility(&function, parent_name.as_str(), vars, funcs) {
            Err(error) => {
                return Err(error);
            },
            Ok(_) => {},
        }
        match call_on(
            &function,
            by_position(copy_values(&rest)),
            object.copy(),
            funcs,
            context,
            fuel,
        ) {
            Err(error) => {
                return Err(error);
            },
            Ok(_) => {},
        }
    }
    construct_own_part(class_name, object, rest, vars, funcs, context, fuel)
}

fn construct_own_part(
    class_name: &str,
    object: ZapValue,
    rest: Vec<ZapValue>,
    vars: &Table<ZapValue>,
    funcs: &Functions,
    context: &mut ExecutionContext,
    fuel: usize,
) -> (r: Result<ZapValue, String>)
    ensures
        (told(r), final(context)@) == construct_own(
            class_name@,
            object@,
            views(rest@),
            vars@,
            funcs@,
            old(context)@,
            fuel as nat,
        ),
    decreases fuel, 4int, 0int,
{
    if let Some(function) = funcs.find(join3(class_name, ".", "init").as_str()) {
        match check_method_visibility(function, class_name, vars, funcs) {
            Err(error) => {
                return Err(error);
            },
            Ok(_) => {},
        }
        match call_on(function, by_position(rest), object.copy(), funcs, context, fuel) {
            Err(error) => {
                return Err(error);
            },
            Ok(_) => {},
        }
    }
    charge_ast_value(object, context)
}

// ---------------------------------------------------------------------------
// Serving requests
// ---------------------------------------------------------------------------

fn make_served_record(address: &str, served: usize) -> (r: ZapValue)
    ensures
        r@ == served_record(address@, served),
{
    let t = with(Table::new(), "address", text_value(address));
    let t = with(t, "served", ZapValue::Number(served as i64));
    dict(t)
}

fn send_response(response: &Vec<u8>, context: &mut ExecutionContext) -> (r: Result<(), String>)
    ensures
        (told_unit(r), final(context)@) == response_sent(response@, old(context)@),
{
    match context.ask("web_respond", one_text(encode_base64(response).as_str())) {
        Err(error) => if context.is_pending() {
            Err(error)
        } else {
            Ok(())
        },
        Ok(_) => Ok(()),
    }
}

fn answer(
    request: Result<WebRequest, String>,
    routes: &Vec<ZapValue>,
    funcs: &Functions,
    context: &mut ExecutionContext,
    fuel: usize,
) -> (r: Result<Vec<u8>, String>)
    ensures
        (crate::web::told_bytes(r), final(context)@) == answered(
            told_request(request),
            views(routes@),
            funcs@,
            old(context)@,
            fuel as nat,
        ),
    decreases fuel, 4int, 0int,
{
    let found = match request {
        Err(_) => {
            let none: Table<String> = Table::new();
            return match web_request_id(&none, context) {
                Err(error) => Err(error),
                Ok(id) => Ok(web_error_response(400, "bad_request", id.as_str())),
            };
        },
        Ok(found) => found,
    };
    let id = match web_request_id(&found.headers, context) {
        Err(error) => {
            return Err(error);
        },
        Ok(id) => id,
    };
    match find_route(routes, funcs, &found) {
        Err(error) => Err(error),
        Ok(Destination::NotAllowed) => Ok(
            web_error_response(405, "method_not_allowed", id.as_str()),
        ),
        Ok(Destination::NotFound) => Ok(web_error_response(404, "not_found", id.as_str())),
        Ok(Destination::Handler(function, params)) => {
            let mut values: Vec<ZapValue> = Vec::new();
            values.push(handler_request(&found, id.as_str(), params));
            assert(views(values@) =~= seq![
                crate::web::request_value(found@, id@, params@),
            ]);
            let result = call(&function, by_position(values), funcs, context, fuel);
            if context.is_pending() {
                return fail("host call pending");
            }
            match result {
                Err(_) => Ok(web_error_response(500, "handler_error", id.as_str())),
                Ok(value) => match web_result_response(&value, id.as_str(), context) {
                    Ok(response) => Ok(response),
                    Err(_) => Ok(web_error_response(500, "handler_error", id.as_str())),
                },
            }
        },
    }
}

fn serve_requests(
    routes: &Vec<ZapValue>,
    funcs: &Functions,
    address: &str,
    limit: Option<usize>,
    context: &mut ExecutionContext,
    fuel: usize,
) -> (r: Result<ZapValue, String>)
    ensures
        (told(r), final(context)@) == serve(
            views(routes@),
            funcs@,
            address@,
            0,
            limit,
            rounds_left(old(context)@),
            old(context)@,
            fuel as nat,
        ),
    decreases fuel, 5int, 0int,
{
    let mut served: usize = 0;
    let mut rounds: u128 = if context.cursor <= context.replies.len() {
        (context.replies.len() - context.cursor) as u128 + 1
    } else {
        1
    };
    loop
        invariant
            serve(
                views(routes@),
                funcs@,
                address@,
                0,
                limit,
                rounds_left(old(context)@),
                old(context)@,
                fuel as nat,
            ) == serve(
                views(routes@),
                funcs@,
                address@,
                served,
                limit,
                rounds as nat,
                context@,
                fuel as nat,
            ),
        decreases rounds,
    {
        let reached = match limit {
            Some(n) => served >= n,
            None => false,
        };
        if reached || served == usize::MAX {
            return Ok(make_served_record(address, served));
        }
        if rounds == 0 {
            return fail("host call pending");
        }
        let reply = match context.ask("web_accept", no_arguments()) {
            Err(error) => {
                return Err(error);
            },
            Ok(reply) => reply,
        };
        let request = read_request(&reply);
        let response = match answer(request, routes, funcs, context, fuel) {
            Err(error) => {
                return Err(error);
            },
            Ok(response) => response,
        };
        match send_response(&response, context) {
            Err(error) => {
                return Err(error);
            },
            Ok(_) => {},
        }
        served += 1;
        rounds -= 1;
    }
}

spec fn told_limit(r: Result<Option<usize>, String>) -> Result<Option<usize>, Str> {
    match r {
        Ok(limit) => Ok(limit),
        Err(error) => Err(error@),
    }
}

fn read_request_limit(args: &Vec<ZapValue>) -> (r: Result<Option<usize>, String>)
    ensures
        told_limit(r) == request_limit(views(args@)),
{
    if args.len() < 3 {
        return Ok(None);
    }
    match &args[2] {
        ZapValue::Number(n) => if *n > 0 {
            Ok(Some(*n as usize))
        } else if *n == 0 {
            Ok(None)
        } else {
            fail("web_serve max_requests must be a non-negative number")
        },
        _ => fail("web_serve max_requests must be a non-negative number"),
    }
}

fn serve_on_address(
    address: &str,
    routes: &Vec<ZapValue>,
    limit: Option<usize>,
    funcs: &Functions,
    context: &mut ExecutionContext,
    fuel: usize,
) -> (r: Result<ZapValue, String>)
    ensures
        (told(r), final(context)@) == served_on(
            address@,
            views(routes@),
            limit,
            funcs@,
            old(context)@,
            fuel as nat,
        ),
    decreases fuel, 5int, 1int,
{
    match web_validate_routes(routes, funcs) {
        Err(error) => Err(error),
        Ok(_) => serve_requests(routes, funcs, address, limit, context, fuel),
    }
}

fn serve_on_port(
    routes: &Vec<ZapValue>,
    port: i64,
    limit: Option<usize>,
    funcs: &Functions,
    context: &mut ExecutionContext,
    fuel: usize,
) -> (r: Result<ZapValue, String>)
    ensures
        (told(r), final(context)@) == serve_bound(
            views(routes@),
            port,
            limit,
            funcs@,
            old(context)@,
            fuel as nat,
        ),
    decreases fuel, 6int, 0int,
{
    let mut arguments: Vec<ZapValue> = Vec::new();
    arguments.push(ZapValue::Number(port));
    assert(views(arguments@) =~= seq![Val::Number(port)]);
    match context.ask("web_bind", arguments) {
        Err(error) => Err(error),
        Ok(ZapValue::Text(address)) => {
            serve_on_address(address.as_str(), routes, limit, funcs, context, fuel)
        },
        Ok(_) => Err(join2("web_serve", " failed: invalid host reply")),
    }
}

fn serve_web(
    args: &Vec<ZapValue>,
    funcs: &Functions,
    context: &mut ExecutionContext,
    fuel: usize,
) -> (r: Result<ZapValue, String>)
    ensures
        (told(r), final(context)@) == web_serve(
            views(args@),
            funcs@,
            old(context)@,
            fuel as nat,
        ),
    decreases fuel, 6int, 1int,
{
    broadcast use lemma_value_view;

    if args.len() != 2 && args.len() != 3 {
        return fail("web_serve expects routes, port, and optional max_requests");
    }
    let routes = match &args[0] {
        ZapValue::List(routes) => routes,
        _ => {
            return fail("web_serve expects a list of route maps");
        },
    };
    if routes.len() == 0 || routes.len() > 1024 {
        return fail("web_serve expects between 1 and 1024 routes");
    }
    let port: i64 = match &args[1] {
        ZapValue::Number(port) => *port,
        _ => -1,
    };
    if port < 0 || port > 65535 {
        return fail("web_serve expects a numeric port from 0 to 65535");
    }
    match read_request_limit(args) {
        Err(error) => Err(error),
        Ok(limit) => serve_on_port(routes, port, limit, funcs, context, fuel),
    }
}


// ---------------------------------------------------------------------------
// Statements
// ---------------------------------------------------------------------------

/// Puts the variables that a frame sees in place of those in a table.
pub fn sync_vars_from_frame(frame: usize, vars: &mut Table<ZapValue>, context: &ExecutionContext)
    ensures
        final(vars)@ == snapshot(context@.frames, frame as int),
{
    *vars = context.snapshot(frame);
}

fn execute(
    program: &Program,
    vars: &mut Table<ZapValue>,
    funcs: &mut Functions,
    context: &mut ExecutionContext,
    base: &str,
    frame: usize,
    fuel: usize,
) -> (r: Result<Flow, String>)
    ensures
        ran_view(r, final(vars)@, final(funcs)@, final(context)@) == run(
            program@,
            old(vars)@,
            old(funcs)@,
            old(context)@,
            base@,
            frame,
            fuel as nat,
        ),
    decreases fuel, 0int, 0int,
{
    if fuel == 0 {
        return fail("evaluation nesting limit exceeded");
    }
    proof {
        lemma_program(program);
    }
    match enter_workspace(context, base) {
        Err(error) => {
            return Err(error);
        },
        Ok(_) => {},
    }
    if program.statements.len() > MAX_SOURCE_LINES {
        return Err(
            join2("source line limit exceeded: maximum is ", length_text(MAX_SOURCE_LINES).as_str()),
        );
    }
    match context.enter_level() {
        Err(error) => {
            return Err(error);
        },
        Ok(_) => {},
    }
    let result = execute_statements(program, vars, funcs, context, base, frame, fuel - 1);
    context.leave_level();
    result
}

fn execute_statements(
    program: &Program,
    vars: &mut Table<ZapValue>,
    funcs: &mut Functions,
    context: &mut ExecutionContext,
    base: &str,
    frame: usize,
    fuel: usize,
) -> (r: Result<Flow, String>)
    ensures
        ran_view(r, final(vars)@, final(funcs)@, final(context)@) == run_from(
            program@,
            0,
            old(vars)@,
            old(funcs)@,
            old(context)@,
            base@,
            frame,
            fuel as nat,
        ),
    decreases fuel, 12int, 0int,
{
    let mut i: usize = 0;
    proof {
        lemma_program(program);
    }
    while i < program.statements.len()
        invariant
            i <= program.statements@.len(),
            program@ == views(program.statements@),
            run_from(
                program@,
                0,
                old(vars)@,
                old(funcs)@,
                old(context)@,
                base@,
                frame,
                fuel as nat,
            ) == run_from(
                program@,
                i as nat,
                vars@,
                funcs@,
                context@,
                base@,
                frame,
                fuel as nat,
            ),
        decreases program.statements.len() - i,
    {
        assert(program@[i as int] == program.statements@[i as int]@);
        sync_vars_from_frame(frame, vars, context);
        match execute_statement(
            &program.statements[i],
            vars,
            funcs,
            context,
            base,
            frame,
            fuel,
        ) {
            Err(error) => {
                return Err(error);
            },
            Ok(Flow::Continue) => {},
            Ok(flow) => {
                return Ok(flow);
            },
        }
        i += 1;
    }
    Ok(Flow::Continue)
}

fn evaluate_propagated(
    node: &Expr,
    vars: &Table<ZapValue>,
    funcs: &Functions,
    context: &mut ExecutionContext,
    fuel: usize,
) -> (r: Result<EvalOutcome, String>)
    ensures
        (told(r), final(context)@) == propagated(
            node@,
            vars@,
            funcs@,
            old(context)@,
            fuel as nat,
        ),
    decreases fuel, 1int, 0int,
{
    match node {
        Expr::Propagate(value) => {
            let result = evaluate(value, vars, funcs, context, fuel);
            settle_outcome(result, true)
        },
        _ => {
            let result = evaluate(node, vars, funcs, context, fuel);
            settle_outcome(result, false)
        },
    }
}

fn assign_field(
    object_name: &str,
    field: &str,
    value: ZapValue,
    vars: &Table<ZapValue>,
    funcs: &Functions,
    context: &mut ExecutionContext,
) -> (r: Result<(), String>)
    ensures
        (told_unit(r), final(context)@) == field_assigned(
            object_name@,
            field@,
            value@,
            vars@,
            funcs@,
            old(context)@,
        ),
{
    match vars.find(object_name) {
        None => Err(join2("undefined variable: ", object_name)),
        Some(ZapValue::Object { class_name, id }) => {
            match check_field_visibility(class_name.as_str(), field, vars, funcs, context) {
                Err(error) => {
                    return Err(error);
                },
                Ok(_) => {},
            }
            context.set_field(*id, field, value)
        },
        Some(_) => fail("property assignment expects an object"),
    }
}

fn assign_value(
    name: &str,
    value: ZapValue,
    vars: &Table<ZapValue>,
    funcs: &Functions,
    context: &mut ExecutionContext,
    frame: usize,
) -> (r: Result<Flow, String>)
    ensures
        ran_view(r, vars@, funcs@, final(context)@) == assigned(
            name@,
            value@,
            vars@,
            funcs@,
            old(context)@,
            frame,
        ),
{
    match split_once(name, ".") {
        Some(pair) => match assign_field(
            pair.0.as_str(),
            pair.1.as_str(),
            value,
            vars,
            funcs,
            context,
        ) {
            Err(error) => Err(error),
            Ok(_) => Ok(Flow::Continue),
        },
        None => {
            context.assign(frame, name, value);
            Ok(Flow::Continue)
        },
    }
}

fn declare_value(
    name: &str,
    annotation: &Option<String>,
    value: ZapValue,
    exported: bool,
    vars: &Table<ZapValue>,
    funcs: &Functions,
    context: &mut ExecutionContext,
    frame: usize,
) -> (r: Result<Flow, String>)
    ensures
        ran_view(r, vars@, funcs@, final(context)@) == declared(
            name@,
            opt_text(*annotation),
            value@,
            exported,
            vars@,
            funcs@,
            old(context)@,
            frame,
        ),
{
    if let Some(text) = annotation {
        match check_annotation(name, text.as_str(), &value) {
            Err(error) => {
                return Err(error);
            },
            Ok(_) => {},
        }
    }
    context.insert_local(frame, name, value);
    if exported {
        context.insert_local(frame, join2("__zap_export_var__:", name).as_str(), ZapValue::Nil);
    }
    Ok(Flow::Continue)
}

fn loop_limit_text() -> (r: String)
    ensures
        r@ == crate::semantics::loop_limit_error(),
{
    join2("loop limit exceeded: maximum is ", length_text(MAX_LOOP_ITERATIONS).as_str())
}

fn execute_statement(
    s: &Stmt,
    vars: &mut Table<ZapValue>,
    funcs: &mut Functions,
    context: &mut ExecutionContext,
    base: &str,
    frame: usize,
    fuel: usize,
) -> (r: Result<Flow, String>)
    ensures
        ran_view(r, final(vars)@, final(funcs)@, final(context)@) == statement(
            s@,
            old(vars)@,
            old(funcs)@,
            old(context)@,
            base@,
            frame,
            fuel as nat,
        ),
    decreases fuel, 11int, 0int,
{
    broadcast use lemma_value_view;

    match s {
        Stmt::Expression(e) => match evaluate(e, vars, funcs, context, fuel) {
            Err(error) => Err(error),
            Ok(_) => Ok(Flow::Continue),
        },
        Stmt::Field { .. } => fail("field declarations are only allowed inside a class"),
        Stmt::Assignment { name, value } => match evaluate_propagated(
            value,
            vars,
            funcs,
            context,
            fuel,
        ) {
            Err(error) => Err(error),
            Ok(EvalOutcome::Propagate(v)) => Ok(Flow::Return(v)),
            Ok(EvalOutcome::Value(v)) => assign_value(
                name.as_str(),
                v,
                vars,
                funcs,
                context,
                frame,
            ),
        },
        Stmt::Declaration { name, annotation, value, exported } => match evaluate_propagated(
            value,
            vars,
            funcs,
            context,
            fuel,
        ) {
            Err(error) => Err(error),
            Ok(EvalOutcome::Propagate(v)) => Ok(Flow::Return(v)),
            Ok(EvalOutcome::Value(v)) => declare_value(
                name.as_str(),
                annotation,
                v,
                *exported,
                vars,
                funcs,
                context,
                frame,
            ),
        },
        Stmt::Say(e) => match evaluate(e, vars, funcs, context, fuel) {
            Err(error) => Err(error),
            Ok(v) => {
                context.say(v.show());
                Ok(Flow::Continue)
            },
        },
        Stmt::Raise(e) => match evaluate(e, vars, funcs, context, fuel) {
            Err(error) => Err(error),
            Ok(v) => Ok(Flow::Raise(v)),
        },
        Stmt::TryCatch { body, binding, catch_body } => execute_try(
            body,
            binding.as_str(),
            catch_body,
            vars,
            funcs,
            context,
            base,
            frame,
            fuel,
        ),
        Stmt::Return(None) => Ok(Flow::Return(ZapValue::Nil)),
        Stmt::Return(Some(e)) => match evaluate_propagated(e, vars, funcs, context, fuel) {
            Err(error) => Err(error),
            Ok(EvalOutcome::Propagate(v)) => Ok(Flow::Return(v)),
            Ok(EvalOutcome::Value(v)) => Ok(Flow::Return(v)),
        },
        Stmt::Break => Ok(Flow::Break),
        Stmt::Continue => Ok(Flow::LoopContinue),
        Stmt::If { condition, then_branch, else_branch } => match evaluate(
            condition,
            vars,
            funcs,
            context,
            fuel,
        ) {
            Err(error) => Err(error),
            Ok(v) => if v.truthy() {
                execute(then_branch, vars, funcs, context, base, frame, fuel)
            } else {
                match else_branch {
                    Some(branch) => execute(branch, vars, funcs, context, base, frame, fuel),
                    None => Ok(Flow::Continue),
                }
            },
        },
        Stmt::While { condition, body } => execute_while(
            condition,
            body,
            vars,
            funcs,
            context,
            base,
            frame,
            fuel,
        ),
        Stmt::For { binding, iterable, body } => match evaluate(
            iterable,
            vars,
            funcs,
            context,
            fuel,
        ) {
            Err(error) => Err(error),
            Ok(ZapValue::List(items)) => {
                if items.len() > MAX_LOOP_ITERATIONS {
                    return Err(loop_limit_text());
                }
                execute_for(
                    binding.as_str(),
                    Rc::new(items),
                    body,
                    vars,
                    funcs,
                    context,
                    base,
                    frame,
                    fuel,
                )
            },
            Ok(_) => fail("for expects a list"),
        },
        Stmt::Function {
            name,
            type_params,
            params,
            return_type,
            body,
            visibility,
            is_async,
            exported,
        } => {
            let definition = AstFunctionSpec {
                name: name.as_str(),
                type_params,
                params,
                visibility: visibility.as_str(),
                return_type,
                body,
                is_async: *is_async,
                exported: *exported,
            };
            match register_ast_function(definition, frame, funcs, context) {
                Err(error) => Err(error),
                Ok(_) => Ok(Flow::Continue),
            }
        },
        Stmt::Class { name, base: above, body } => match register_ast_class(
            name.as_str(),
            above,
            body,
            frame,
            funcs,
            context,
        ) {
            Err(error) => Err(error),
            Ok(_) => Ok(Flow::Continue),
        },
        Stmt::Module { .. } => Ok(Flow::Continue),
        Stmt::Import { path, explicit } => match import_module(
            path.as_str(),
            vars,
            funcs,
            context,
            base,
            *explicit,
            fuel,
        ) {
            Err(error) => Err(error),
            Ok(flow) => {
                context.sync_from_snapshot(frame, vars);
                Ok(flow)
            },
        },
    }
}

spec fn opt_value(value: Option<ZapValue>) -> Option<Val> {
    match value {
        Some(v) => Some(v@),
        None => None,
    }
}

fn option_list(value: &Option<ZapValue>) -> (r: Vec<ZapValue>)
    ensures
        views(r@) == option_values(opt_value(*value)),
{
    let mut out: Vec<ZapValue> = Vec::new();
    if let Some(v) = value {
        out.push(v.copy());
    }
    assert(views(out@) =~= option_values(opt_value(*value)));
    out
}

fn execute_try(
    body: &Program,
    binding: &str,
    catch_body: &Program,
    vars: &mut Table<ZapValue>,
    funcs: &mut Functions,
    context: &mut ExecutionContext,
    base: &str,
    frame: usize,
    fuel: usize,
) -> (r: Result<Flow, String>)
    ensures
        ran_view(r, final(vars)@, final(funcs)@, final(context)@) == run_try(
            body@,
            binding@,
            catch_body@,
            old(vars)@,
            old(funcs)@,
            old(context)@,
            base@,
            frame,
            fuel as nat,
        ),
    decreases fuel, 1int, 0int,
{
    match execute(body, vars, funcs, context, base, frame, fuel) {
        Ok(Flow::Raise(error)) => {
            let previous = context.get_local(frame, binding);
            context.insert_local(frame, binding, error);
            context.hold_values(option_list(&previous));
            let caught = execute(catch_body, vars, funcs, context, base, frame, fuel);
            context.let_go();
            match previous {
                Some(value) => context.insert_local(frame, binding, value),
                None => context.remove_local(frame, binding),
            }
            caught
        },
        other => other,
    }
}

fn execute_while(
    condition: &Expr,
    body: &Program,
    vars: &mut Table<ZapValue>,
    funcs: &mut Functions,
    context: &mut ExecutionContext,
    base: &str,
    frame: usize,
    fuel: usize,
) -> (r: Result<Flow, String>)
    ensures
        ran_view(r, final(vars)@, final(funcs)@, final(context)@) == run_while(
            condition@,
            body@,
            0,
            old(vars)@,
            old(funcs)@,
            old(context)@,
            base@,
            frame,
            fuel as nat,
        ),
    decreases fuel, 10int, 0int,
{
    let mut count: usize = 0;
    loop
        invariant
            count < MAX_LOOP_ITERATIONS,
            run_while(
                condition@,
                body@,
                0,
                old(vars)@,
                old(funcs)@,
                old(context)@,
                base@,
                frame,
                fuel as nat,
            ) == run_while(
                condition@,
                body@,
                count as nat,
                vars@,
                funcs@,
                context@,
                base@,
                frame,
                fuel as nat,
            ),
        decreases MAX_LOOP_ITERATIONS - count,
    {
        match evaluate(condition, vars, funcs, context, fuel) {
            Err(error) => {
                return Err(error);
            },
            Ok(v) => {
                if !v.truthy() {
                    return Ok(Flow::Continue);
                }
            },
        }
        match execute(body, vars, funcs, context, base, frame, fuel) {
            Err(error) => {
                return Err(error);
            },
            Ok(Flow::Break) => {
                return Ok(Flow::Continue);
            },
            Ok(Flow::Return(v)) => {
                return Ok(Flow::Return(v));
            },
            Ok(Flow::Raise(v)) => {
                return Ok(Flow::Raise(v));
            },
            Ok(_) => {},
        }
        count += 1;
        if count >= MAX_LOOP_ITERATIONS {
            return Err(loop_limit_text());
        }
    }
}

fn no_frames() -> (r: Vec<usize>)
    ensures
        r@ == Seq::<usize>::empty(),
{
    Vec::new()
}

fn execute_for(
    binding: &str,
    items: Rc<Vec<ZapValue>>,
    body: &Program,
    vars: &mut Table<ZapValue>,
    funcs: &mut Functions,
    context: &mut ExecutionContext,
    base: &str,
    frame: usize,
    fuel: usize,
) -> (r: Result<Flow, String>)
    ensures
        ran_view(r, final(vars)@, final(funcs)@, final(context)@) == run_for(
            binding@,
            views(items@),
            0,
            body@,
            old(vars)@,
            old(funcs)@,
            old(context)@,
            base@,
            frame,
            fuel as nat,
        ),
    decreases fuel, 10int, 0int,
{
    let mut i: usize = 0;
    while i < items.len()
        invariant
            i <= items@.len(),
            run_for(
                binding@,
                views(items@),
                0,
                body@,
                old(vars)@,
                old(funcs)@,
                old(context)@,
                base@,
                frame,
                fuel as nat,
            ) == run_for(
                binding@,
                views(items@),
                i as nat,
                body@,
                vars@,
                funcs@,
                context@,
                base@,
                frame,
                fuel as nat,
            ),
        decreases items.len() - i,
    {
        assert(views(items@)[i as int] == items@[i as int]@);
        context.assign(frame, binding, items[i].copy());
        context.hold(Rc::clone(&items), i + 1, no_frames());
        let ran = execute(body, vars, funcs, context, base, frame, fuel);
        context.let_go();
        match ran {
            Err(error) => {
                return Err(error);
            },
            Ok(Flow::Break) => {
                return Ok(Flow::Continue);
            },
            Ok(Flow::Return(v)) => {
                return Ok(Flow::Return(v));
            },
            Ok(Flow::Raise(v)) => {
                return Ok(Flow::Raise(v));
            },
            Ok(_) => {},
        }
        i += 1;
    }
    Ok(Flow::Continue)
}

fn execute_program(
    program: &Program,
    vars: &mut Table<ZapValue>,
    funcs: &mut Functions,
    context: &mut ExecutionContext,
    base: &str,
    fuel: usize,
) -> (r: Result<Flow, String>)
    ensures
        ran_view(r, final(vars)@, final(funcs)@, final(context)@) == run_program(
            program@,
            old(vars)@,
            old(funcs)@,
            old(context)@,
            base@,
            fuel as nat,
        ),
    decreases fuel, 1int, 0int,
{
    let frame = context.new_frame(copy_table(vars), None, Some(base.to_owned()));
    match execute(program, vars, funcs, context, base, frame, fuel) {
        Err(error) => Err(error),
        Ok(flow) => {
            sync_vars_from_frame(frame, vars, context);
            Ok(flow)
        },
    }
}

// ---------------------------------------------------------------------------
// Modules
// ---------------------------------------------------------------------------

fn find_module_file(path: &str, base: &str, context: &mut ExecutionContext) -> (r: Result<
    String,
    String,
>)
    ensures
        (told(r), final(context)@) == module_file(path@, base@, old(context)@),
{
    match context.ask("resolve_module", two_texts(base, path)) {
        Err(error) => Err(error),
        Ok(ZapValue::Text(file)) => Ok(file),
        Ok(ZapValue::Nil) => Err(join2("module not found: ", path)),
        Ok(_) => Err(join2("module import", " failed: invalid host reply")),
    }
}

fn read_module(file: &str, context: &mut ExecutionContext) -> (r: Result<Program, String>)
    ensures
        (told_program(r), final(context)@) == module_source(file@, old(context)@),
{
    match context.ask("read_text", two_texts(file, "module import")) {
        Err(error) => Err(error),
        Ok(ZapValue::Text(source)) => match parse_program(source.as_str()) {
            Ok(program) => Ok(program),
            Err(error) => Err(join4("cannot parse module ", file, ": ", error.as_str())),
        },
        Ok(_) => Err(join2("module import", " failed: invalid host reply")),
    }
}

fn run_module(
    file: &str,
    program: &Program,
    vars: &mut Table<ZapValue>,
    funcs: &mut Functions,
    context: &mut ExecutionContext,
    base: &str,
    explicit: bool,
    fuel: usize,
) -> (r: Result<Flow, String>)
    ensures
        ran_view(r, final(vars)@, final(funcs)@, final(context)@) == module_run(
            file@,
            program@,
            old(vars)@,
            old(funcs)@,
            old(context)@,
            base@,
            explicit,
            fuel as nat,
        ),
    decreases fuel, 2int, 0int,
{
    let mut module_vars: Table<ZapValue> = Table::new();
    module_vars.insert("__zap_module".to_owned(), ZapValue::Text(file.to_owned()));
    let mut module_funcs: Functions = Table::new();
    let directory = match path_parent(file, context.separator) {
        Some(directory) => directory,
        None => base.to_owned(),
    };
    context.hold_scope(vars, funcs);
    let result = execute_program(
        program,
        &mut module_vars,
        &mut module_funcs,
        context,
        directory.as_str(),
        fuel,
    );
    context.let_go();
    context.stop_loading();
    match result {
        Err(error) => Err(error),
        Ok(Flow::Continue) => {
            attach_module_function_scope(&module_funcs, context);
            context.cache_module(
                file,
                Module {
                    vars: copy_table(&module_vars),
                    funcs: copy_functions(&module_funcs),
                },
            );
            import_vars(&module_vars, explicit, true, vars);
            import_funcs(&module_funcs, explicit, funcs);
            Ok(Flow::Continue)
        },
        Ok(flow) => Ok(flow),
    }
}

fn import_module(
    raw: &str,
    vars: &mut Table<ZapValue>,
    funcs: &mut Functions,
    context: &mut ExecutionContext,
    base: &str,
    explicit: bool,
    fuel: usize,
) -> (r: Result<Flow, String>)
    ensures
        ran_view(r, final(vars)@, final(funcs)@, final(context)@) == load_module(
            raw@,
            old(vars)@,
            old(funcs)@,
            old(context)@,
            base@,
            explicit,
            fuel as nat,
        ),
    decreases fuel, 3int, 0int,
{
    let path = match read_import_path(raw, context.separator) {
        Err(error) => {
            return Err(error);
        },
        Ok(path) => path,
    };
    let file = match find_module_file(path.as_str(), base, context) {
        Err(error) => {
            return Err(error);
        },
        Ok(file) => file,
    };
    if let Some(module) = context.cached_module(file.as_str()) {
        import_vars(&module.vars, explicit, false, vars);
        import_funcs(&module.funcs, explicit, funcs);
        return Ok(Flow::Continue);
    }
    if let Some(error) = find_import_cycle(&context.loading, file.as_str()) {
        return Err(error);
    }
    context.start_loading(file.as_str());
    match read_module(file.as_str(), context) {
        Err(error) => {
            context.stop_loading();
            Err(error)
        },
        Ok(program) => run_module(
            file.as_str(),
            &program,
            vars,
            funcs,
            context,
            base,
            explicit,
            fuel,
        ),
    }
}

// ---------------------------------------------------------------------------
// Lines
// ---------------------------------------------------------------------------

fn evaluate_propagated_text(
    raw: &str,
    vars: &Table<ZapValue>,
    funcs: &Functions,
    context: &mut ExecutionContext,
    fuel: usize,
) -> (r: Result<EvalOutcome, String>)
    ensures
        (told(r), final(context)@) == propagated_text(
            raw@,
            vars@,
            funcs@,
            old(context)@,
            fuel as nat,
        ),
    decreases fuel, 2int, 0int,
{
    let text = trimmed(raw);
    proof {
        reveal_strlit("?");
    }
    if ends_with(text.as_str(), "?") {
        let n = chars_of(text.as_str()).len();
        let inner = trimmed(before(text.as_str(), n - 1).as_str());
        let result = evaluate_source(inner.as_str(), vars, funcs, context, fuel);
        settle_outcome(result, true)
    } else {
        let result = evaluate_source(text.as_str(), vars, funcs, context, fuel);
        settle_outcome(result, false)
    }
}

fn execute_source_lines(
    lines: &Vec<String>,
    vars: &mut Table<ZapValue>,
    funcs: &mut Functions,
    context: &mut ExecutionContext,
    base: &str,
    fuel: usize,
) -> (r: Result<Flow, String>)
    ensures
        ran_view(r, final(vars)@, final(funcs)@, final(context)@) == run_lines(
            texts(lines@),
            old(vars)@,
            old(funcs)@,
            old(context)@,
            base@,
            fuel as nat,
        ),
    decreases fuel, 0int, 0int,
{
    if fuel == 0 {
        return fail("evaluation nesting limit exceeded");
    }
    match enter_execution(lines, context) {
        Err(error) => {
            return Err(error);
        },
        Ok(_) => {},
    }
    let result = execute_lines_from(lines, vars, funcs, context, base, fuel - 1);
    context.leave_level();
    result
}

fn execute_lines_from(
    lines: &Vec<String>,
    vars: &mut Table<ZapValue>,
    funcs: &mut Functions,
    context: &mut ExecutionContext,
    base: &str,
    fuel: usize,
) -> (r: Result<Flow, String>)
    ensures
        ran_view(r, final(vars)@, final(funcs)@, final(context)@) == lines_from(
            texts(lines@),
            0,
            old(vars)@,
            old(funcs)@,
            old(context)@,
            base@,
            fuel as nat,
        ),
    decreases fuel, 12int, 0int,
{
    let mut i: usize = 0;
    while i < lines.len()
        invariant
            i <= lines@.len(),
            lines_from(
                texts(lines@),
                0,
                old(vars)@,
                old(funcs)@,
                old(context)@,
                base@,
                fuel as nat,
            ) == lines_from(
                texts(lines@),
                i as int,
                vars@,
                funcs@,
                context@,
                base@,
                fuel as nat,
            ),
        decreases lines.len() - i,
    {
        let (result, next) = execute_line(lines, i, vars, funcs, context, base, fuel);
        match result {
            Err(error) => {
                return Err(error);
            },
            Ok(Flow::Continue) => {},
            Ok(flow) => {
                return Ok(flow);
            },
        }
        i = next;
    }
    Ok(Flow::Continue)
}

fn read_line_text(s: &str) -> (r: (bool, String))
    ensures
        (r.0, r.1@) == line_text(s@),
{
    let raw = trimmed(s);
    match strip_prefix(raw.as_str(), "export ") {
        Some(rest) => (true, trimmed(rest.as_str())),
        None => (false, raw),
    }
}

fn begins_with(s: &str, c: char) -> (r: bool)
    ensures
        r == crate::webcheck::leads(s@, c),
{
    let v = chars_of(s);
    v.len() > 0 && v[0] == c
}

pub open spec fn stepped_view(r: (Result<Flow, String>, usize), vars: Rows<Val>, funcs: Rows<Fun>, w: World) -> Stepped {
    Stepped { ran: ran_view(r.0, vars, funcs, w), next: r.1 as int }
}

fn execute_line(
    lines: &Vec<String>,
    i: usize,
    vars: &mut Table<ZapValue>,
    funcs: &mut Functions,
    context: &mut ExecutionContext,
    base: &str,
    fuel: usize,
) -> (r: (Result<Flow, String>, usize))
    requires
        i < lines.len(),
    ensures
        stepped_view(r, final(vars)@, final(funcs)@, final(context)@) == line(
            texts(lines@),
            i as int,
            old(vars)@,
            old(funcs)@,
            old(context)@,
            base@,
            fuel as nat,
        ),
        i < r.1 <= lines@.len(),
    decreases fuel, 11int, 0int,
{
    assert(texts(lines@)[i as int] == lines@[i as int]@);
    let (is_export, text) = read_line_text(lines[i].as_str());
    if is_blank_text(text.as_str()) || begins_with(text.as_str(), '#') {
        return (Ok(Flow::Continue), i + 1);
    }
    proof {
        lemma_block_end(texts(lines@), i + 1);
    }
    if let Some(rest) = strip_prefix(text.as_str(), "class ") {
        let (body, end) = indented(lines, i + 1);
        return match define_class(rest.as_str(), &body, vars, funcs, context) {
            Err(error) => (Err(error), end),
            Ok(_) => (Ok(Flow::Continue), end),
        };
    }
    if let Some(rest) = strip_definition(text.as_str()) {
        let (body, end) = indented(lines, i + 1);
        return match define_function(rest.as_str(), body, is_export, vars, funcs, context) {
            Err(error) => (Err(error), end),
            Ok(_) => (Ok(Flow::Continue), end),
        };
    }
    if let Some(rest) = strip_prefix(text.as_str(), "return") {
        return (execute_return_line(rest.as_str(), vars, funcs, context, fuel), i + 1);
    }
    if same(text.as_str(), "break") {
        return (Ok(Flow::Break), i + 1);
    }
    if same(text.as_str(), "continue") {
        return (Ok(Flow::LoopContinue), i + 1);
    }
    execute_block_line(lines, i, text.as_str(), is_export, vars, funcs, context, base, fuel)
}

fn execute_return_line(
    rest: &str,
    vars: &Table<ZapValue>,
    funcs: &Functions,
    context: &mut ExecutionContext,
    fuel: usize,
) -> (r: Result<Flow, String>)
    ensures
        ran_view(r, vars@, funcs@, final(context)@) == return_line(
            rest@,
            vars@,
            funcs@,
            old(context)@,
            fuel as nat,
        ),
    decreases fuel, 3int, 0int,
{
    let source = trimmed(rest);
    if is_blank_text(source.as_str()) {
        return Ok(Flow::Return(ZapValue::Nil));
    }
    match evaluate_propagated_text(source.as_str(), vars, funcs, context, fuel) {
        Err(error) => Err(error),
        Ok(EvalOutcome::Value(v)) => Ok(Flow::Return(v)),
        Ok(EvalOutcome::Propagate(v)) => Ok(Flow::Return(v)),
    }
}

fn execute_block_line(
    lines: &Vec<String>,
    i: usize,
    text: &str,
    is_export: bool,
    vars: &mut Table<ZapValue>,
    funcs: &mut Functions,
    context: &mut ExecutionContext,
    base: &str,
    fuel: usize,
) -> (r: (Result<Flow, String>, usize))
    requires
        i < lines.len(),
    ensures
        stepped_view(r, final(vars)@, final(funcs)@, final(context)@)
            == crate::semantics::block_line(
            texts(lines@),
            i as int,
            text@,
            is_export,
            old(vars)@,
            old(funcs)@,
            old(context)@,
            base@,
            fuel as nat,
        ),
        i < r.1 <= lines@.len(),
    decreases fuel, 10int, 1int,
{
    proof {
        lemma_block_end(texts(lines@), i + 1);
    }
    if let Some(rest) = strip_prefix(text, "while ") {
        let (body, end) = indented(lines, i + 1);
        let condition = trimmed(without_colons(rest.as_str()).as_str());
        let result = execute_while_lines(
            condition.as_str(),
            &body,
            vars,
            funcs,
            context,
            base,
            fuel,
        );
        return (result, end);
    }
    if let Some(rest) = strip_prefix(text, "for ") {
        let (body, end) = indented(lines, i + 1);
        let result = execute_for_line(rest.as_str(), &body, vars, funcs, context, base, fuel);
        return (result, end);
    }
    if let Some(rest) = strip_prefix(text, "if ") {
        return execute_if_line(rest.as_str(), lines, i, vars, funcs, context, base, fuel);
    }
    let result = execute_plain_line(text, i, is_export, vars, funcs, context, base, fuel);
    (result, i + 1)
}

fn execute_while_lines(
    condition: &str,
    body: &Vec<String>,
    vars: &mut Table<ZapValue>,
    funcs: &mut Functions,
    context: &mut ExecutionContext,
    base: &str,
    fuel: usize,
) -> (r: Result<Flow, String>)
    ensures
        ran_view(r, final(vars)@, final(funcs)@, final(context)@) == while_lines(
            condition@,
            texts(body@),
            0,
            old(vars)@,
            old(funcs)@,
            old(context)@,
            base@,
            fuel as nat,
        ),
    decreases fuel, 9int, 0int,
{
    let mut count: usize = 0;
    loop
        invariant
            count < MAX_LOOP_ITERATIONS,
            while_lines(
                condition@,
                texts(body@),
                0,
                old(vars)@,
                old(funcs)@,
                old(context)@,
                base@,
                fuel as nat,
            ) == while_lines(
                condition@,
                texts(body@),
                count as nat,
                vars@,
                funcs@,
                context@,
                base@,
                fuel as nat,
            ),
        decreases MAX_LOOP_ITERATIONS - count,
    {
        match evaluate_source(condition, vars, funcs, context, fuel) {
            Err(error) => {
                return Err(error);
            },
            Ok(v) => {
                if !v.truthy() {
                    return Ok(Flow::Continue);
                }
            },
        }
        match execute_source_lines(body, vars, funcs, context, base, fuel) {
            Err(error) => {
                return Err(error);
            },
            Ok(Flow::Break) => {
                return Ok(Flow::Continue);
            },
            Ok(Flow::Return(v)) => {
                return Ok(Flow::Return(v));
            },
            Ok(Flow::Raise(v)) => {
                return Ok(Flow::Raise(v));
            },
            Ok(_) => {},
        }
        count += 1;
        if count >= MAX_LOOP_ITERATIONS {
            return Err(loop_limit_text());
        }
    }
}

fn execute_for_lines(
    name: &str,
    items: Rc<Vec<ZapValue>>,
    body: &Vec<String>,
    vars: &mut Table<ZapValue>,
    funcs: &mut Functions,
    context: &mut ExecutionContext,
    base: &str,
    fuel: usize,
) -> (r: Result<Flow, String>)
    ensures
        ran_view(r, final(vars)@, final(funcs)@, final(context)@) == for_lines(
            name@,
            views(items@),
            0,
            texts(body@),
            old(vars)@,
            old(funcs)@,
            old(context)@,
            base@,
            fuel as nat,
        ),
    decreases fuel, 8int, 0int,
{
    let mut i: usize = 0;
    while i < items.len()
        invariant
            i <= items@.len(),
            for_lines(
                name@,
                views(items@),
                0,
                texts(body@),
                old(vars)@,
                old(funcs)@,
                old(context)@,
                base@,
                fuel as nat,
            ) == for_lines(
                name@,
                views(items@),
                i as nat,
                texts(body@),
                vars@,
                funcs@,
                context@,
                base@,
                fuel as nat,
            ),
        decreases items.len() - i,
    {
        assert(views(items@)[i as int] == items@[i as int]@);
        vars.insert(name.to_owned(), items[i].copy());
        context.hold(Rc::clone(&items), i + 1, no_frames());
        let ran = execute_source_lines(body, vars, funcs, context, base, fuel);
        context.let_go();
        match ran {
            Err(error) => {
                return Err(error);
            },
            Ok(Flow::Break) => {
                return Ok(Flow::Continue);
            },
            Ok(Flow::Return(v)) => {
                return Ok(Flow::Return(v));
            },
            Ok(Flow::Raise(v)) => {
                return Ok(Flow::Raise(v));
            },
            Ok(_) => {},
        }
        i += 1;
    }
    Ok(Flow::Continue)
}

fn execute_for_line(
    rest: &str,
    body: &Vec<String>,
    vars: &mut Table<ZapValue>,
    funcs: &mut Functions,
    context: &mut ExecutionContext,
    base: &str,
    fuel: usize,
) -> (r: Result<Flow, String>)
    ensures
        ran_view(r, final(vars)@, final(funcs)@, final(context)@) == for_line(
            rest@,
            texts(body@),
            old(vars)@,
            old(funcs)@,
            old(context)@,
            base@,
            fuel as nat,
        ),
    decreases fuel, 9int, 0int,
{
    broadcast use lemma_value_view;

    let pair = match split_once(without_colons(rest).as_str(), " in ") {
        None => {
            return fail("for syntax: for item in list:");
        },
        Some(pair) => pair,
    };
    match evaluate_source(trimmed(pair.1.as_str()).as_str(), vars, funcs, context, fuel) {
        Err(error) => Err(error),
        Ok(ZapValue::List(items)) => {
            if items.len() > MAX_LOOP_ITERATIONS {
                return Err(loop_limit_text());
            }
            execute_for_lines(
                trimmed(pair.0.as_str()).as_str(),
                Rc::new(items),
                body,
                vars,
                funcs,
                context,
                base,
                fuel,
            )
        },
        Ok(_) => fail("for expects a list"),
    }
}

fn is_else(lines: &Vec<String>, i: usize) -> (r: bool)
    ensures
        r == else_at(texts(lines@), i as int),
        r ==> i < lines.len(),
{
    i < lines.len() && same(trimmed(lines[i].as_str()).as_str(), "else:")
}

fn execute_if_line(
    rest: &str,
    lines: &Vec<String>,
    i: usize,
    vars: &mut Table<ZapValue>,
    funcs: &mut Functions,
    context: &mut ExecutionContext,
    base: &str,
    fuel: usize,
) -> (r: (Result<Flow, String>, usize))
    requires
        i < lines.len(),
    ensures
        stepped_view(r, final(vars)@, final(funcs)@, final(context)@) == if_line(
            rest@,
            texts(lines@),
            i as int,
            old(vars)@,
            old(funcs)@,
            old(context)@,
            base@,
            fuel as nat,
        ),
        i < r.1 <= lines@.len(),
    decreases fuel, 9int, 0int,
{
    let (body, end) = indented(lines, i + 1);
    proof {
        lemma_block_end(texts(lines@), i + 1);
    }
    let condition = trimmed(without_colons(rest).as_str());
    let take = match evaluate_source(condition.as_str(), vars, funcs, context, fuel) {
        Err(error) => {
            return (Err(error), end);
        },
        Ok(v) => v.truthy(),
    };
    if is_else(lines, end) {
        proof {
            lemma_block_end(texts(lines@), end + 1);
        }
        let (other, next) = indented(lines, end + 1);
        let result = if take {
            execute_source_lines(&body, vars, funcs, context, base, fuel)
        } else {
            execute_source_lines(&other, vars, funcs, context, base, fuel)
        };
        (result, next)
    } else if take {
        (execute_source_lines(&body, vars, funcs, context, base, fuel), end)
    } else {
        (Ok(Flow::Continue), end)
    }
}

fn end_module(r: Result<Flow, String>) -> (s: Result<Flow, String>)
    ensures
        forall|vars: Rows<Val>, funcs: Rows<Fun>, w: World| #[trigger]
            module_ended(ran_view(r, vars, funcs, w)) == ran_view(s, vars, funcs, w),
{
    match r {
        Ok(Flow::Return(_)) => fail("return is not allowed at module top level"),
        other => other,
    }
}

fn execute_plain_line(
    text: &str,
    i: usize,
    is_export: bool,
    vars: &mut Table<ZapValue>,
    funcs: &mut Functions,
    context: &mut ExecutionContext,
    base: &str,
    fuel: usize,
) -> (r: Result<Flow, String>)
    requires
        i < usize::MAX,
    ensures
        ran_view(r, final(vars)@, final(funcs)@, final(context)@) == plain_line(
            text@,
            i as int,
            is_export,
            old(vars)@,
            old(funcs)@,
            old(context)@,
            base@,
            fuel as nat,
        ),
    decreases fuel, 9int, 0int,
{
    if let Some(rest) = strip_prefix(text, "say ") {
        return match evaluate_source(rest.as_str(), vars, funcs, context, fuel) {
            Err(error) => Err(error),
            Ok(v) => {
                context.say(v.show());
                Ok(Flow::Continue)
            },
        };
    }
    if let Some(rest) = strip_prefix(text, "import ") {
        let result = import_module(rest.as_str(), vars, funcs, context, base, true, fuel);
        return end_module(result);
    }
    if let Some(rest) = strip_prefix(text, "use ") {
        let target = trimmed(rest.as_str());
        if file_is_named(target.as_str()) {
            let result = import_module(target.as_str(), vars, funcs, context, base, false, fuel);
            return end_module(result);
        }
        context.say(join2("[Zap native] module declared: ", target.as_str()));
        return Ok(Flow::Continue);
    }
    if let Some(rest) = strip_prefix(text, "let ") {
        return execute_let_line(rest.as_str(), i, is_export, vars, funcs, context, fuel);
    }
    if !contains(text, "==") && !contains(text, "!=") && !contains(text, "<=") && !contains(
        text,
        ">=",
    ) {
        if let Some(pair) = split_once(text, "=") {
            return execute_assign_line(
                trimmed(pair.0.as_str()).as_str(),
                pair.1.as_str(),
                vars,
                funcs,
                context,
                fuel,
            );
        }
    }
    match evaluate_source(text, vars, funcs, context, fuel) {
        Err(error) => Err(error),
        Ok(_) => Ok(Flow::Continue),
    }
}

fn line_place(i: usize) -> (r: String)
    requires
        i < usize::MAX,
    ensures
        r@ == crate::semantics::line_prefix(i as int),
{
    join3("line ", length_text(i + 1).as_str(), ": ")
}

fn split_annotation(s: &str) -> (r: (String, Option<String>))
    ensures
        (r.0@, opt_text(r.1)) == annotated(s@),
{
    match split_once(s, ":") {
        Some(pair) => (trimmed(pair.0.as_str()), Some(trimmed(pair.1.as_str()))),
        None => (trimmed(s), None),
    }
}

fn execute_let_line(
    rest: &str,
    i: usize,
    is_export: bool,
    vars: &mut Table<ZapValue>,
    funcs: &Functions,
    context: &mut ExecutionContext,
    fuel: usize,
) -> (r: Result<Flow, String>)
    requires
        i < usize::MAX,
    ensures
        ran_view(r, final(vars)@, funcs@, final(context)@) == let_line(
            rest@,
            i as int,
            is_export,
            old(vars)@,
            funcs@,
            old(context)@,
            fuel as nat,
        ),
    decreases fuel, 3int, 0int,
{
    let pair = match split_once(rest, "=") {
        None => {
            return Err(join2(line_place(i).as_str(), "expected ="));
        },
        Some(pair) => pair,
    };
    let (name, annotation) = split_annotation(trimmed(pair.0.as_str()).as_str());
    let value = match evaluate_propagated_text(pair.1.as_str(), vars, funcs, context, fuel) {
        Err(error) => {
            return Err(error);
        },
        Ok(EvalOutcome::Propagate(v)) => {
            return Ok(Flow::Return(v));
        },
        Ok(EvalOutcome::Value(v)) => v,
    };
    if let Some(text) = &annotation {
        match check_annotation(name.as_str(), text.as_str(), &value) {
            Err(error) => {
                return Err(join2(line_place(i).as_str(), error.as_str()));
            },
            Ok(_) => {},
        }
    }
    vars.insert(name.clone(), value);
    if is_export {
        vars.insert(join2("__zap_export_var__:", name.as_str()), ZapValue::Nil);
    }
    Ok(Flow::Continue)
}

fn assign_in_lines(
    target: &str,
    value: ZapValue,
    vars: &mut Table<ZapValue>,
    funcs: &Functions,
    context: &mut ExecutionContext,
) -> (r: Result<Flow, String>)
    ensures
        ran_view(r, final(vars)@, funcs@, final(context)@) == line_assigned(
            target@,
            value@,
            old(vars)@,
            funcs@,
            old(context)@,
        ),
{
    match split_once(target, ".") {
        None => {
            vars.insert(target.to_owned(), value);
            Ok(Flow::Continue)
        },
        Some(pair) => match vars.find(pair.0.as_str()) {
            None => Err(join2("undefined variable: ", pair.0.as_str())),
            Some(ZapValue::Object { id, .. }) => match context.set_field(
                *id,
                trimmed(pair.1.as_str()).as_str(),
                value,
            ) {
                Err(error) => Err(error),
                Ok(_) => Ok(Flow::Continue),
            },
            Some(_) => fail("property assignment expects an object"),
        },
    }
}

fn execute_assign_line(
    target: &str,
    source: &str,
    vars: &mut Table<ZapValue>,
    funcs: &Functions,
    context: &mut ExecutionContext,
    fuel: usize,
) -> (r: Result<Flow, String>)
    ensures
        ran_view(r, final(vars)@, funcs@, final(context)@) == assign_line(
            target@,
            source@,
            old(vars)@,
            funcs@,
            old(context)@,
            fuel as nat,
        ),
    decreases fuel, 3int, 0int,
{
    match evaluate_propagated_text(source, vars, funcs, context, fuel) {
        Err(error) => Err(error),
        Ok(EvalOutcome::Propagate(v)) => Ok(Flow::Return(v)),
        Ok(EvalOutcome::Value(v)) => assign_in_lines(target, v, vars, funcs, context),
    }
}

// ---------------------------------------------------------------------------
// Entry points
// ---------------------------------------------------------------------------

/// Evaluates an expression. What a failed evaluation took from the budget is given back.
pub fn ast_expression_with_context(
    node: &Expr,
    vars: &Table<ZapValue>,
    funcs: &Functions,
    context: &mut ExecutionContext,
) -> (r: Result<ZapValue, String>)
    ensures
        (told(r), final(context)@) == eval(
            node@,
            vars@,
            funcs@,
            old(context)@,
            MAX_NESTING as nat,
        ),
{
    evaluate(node, vars, funcs, context, MAX_NESTING)
}

/// Evaluates an expression at the place of a statement.
pub fn ast_expression_with_propagation_context(
    node: &Expr,
    vars: &Table<ZapValue>,
    funcs: &Functions,
    context: &mut ExecutionContext,
) -> (r: Result<EvalOutcome, String>)
    ensures
        (told(r), final(context)@) == propagated(
            node@,
            vars@,
            funcs@,
            old(context)@,
            MAX_NESTING as nat,
        ),
{
    evaluate_propagated(node, vars, funcs, context, MAX_NESTING)
}

/// Evaluates the default value of a parameter.
pub fn ast_default_with_context(
    source: &str,
    vars: &Table<ZapValue>,
    funcs: &Functions,
    context: &mut ExecutionContext,
) -> (r: Result<ZapValue, String>)
    ensures
        (told(r), final(context)@) == evaluated(
            source@,
            vars@,
            funcs@,
            old(context)@,
            MAX_NESTING as nat,
        ),
{
    evaluate_source(source, vars, funcs, context, MAX_NESTING)
}

/// Evaluates an expression in source text.
pub fn expression_with_context(
    raw: &str,
    vars: &Table<ZapValue>,
    funcs: &Functions,
    context: &mut ExecutionContext,
) -> (r: Result<ZapValue, String>)
    ensures
        (told(r), final(context)@) == evaluated(
            raw@,
            vars@,
            funcs@,
            old(context)@,
            MAX_NESTING as nat,
        ),
{
    evaluate_source(raw, vars, funcs, context, MAX_NESTING)
}

/// Evaluates source text at the place of a statement.
pub fn evaluate_with_propagation_with_context(
    raw: &str,
    vars: &Table<ZapValue>,
    funcs: &Functions,
    context: &mut ExecutionContext,
) -> (r: Result<EvalOutcome, String>)
    ensures
        (told(r), final(context)@) == propagated_text(
            raw@,
            vars@,
            funcs@,
            old(context)@,
            MAX_NESTING as nat,
        ),
{
    evaluate_propagated_text(raw, vars, funcs, context, MAX_NESTING)
}

/// Calls a function with arguments by position or by name.
pub fn call_function_with_arguments(
    f: &Function,
    args: Vec<CallArgument>,
    funcs: &Functions,
    context: &mut ExecutionContext,
) -> (r: Result<ZapValue, String>)
    ensures
        (told(r), final(context)@) == call_function(
            f@,
            views(args@),
            funcs@,
            old(context)@,
            MAX_NESTING as nat,
        ),
{
    call(f, args, funcs, context, MAX_NESTING)
}

/// Calls a function with arguments by position.
pub fn call_function_with_context(
    f: &Function,
    args: Vec<ZapValue>,
    funcs: &Functions,
    context: &mut ExecutionContext,
) -> (r: Result<ZapValue, String>)
    ensures
        (told(r), final(context)@) == call_function(
            f@,
            positional(views(args@)),
            funcs@,
            old(context)@,
            MAX_NESTING as nat,
        ),
{
    call(f, by_position(args), funcs, context, MAX_NESTING)
}

/// Calls a method on a receiver with arguments by position or by name.
pub fn call_method_with_arguments(
    f: &Function,
    args: Vec<CallArgument>,
    self_value: ZapValue,
    funcs: &Functions,
    context: &mut ExecutionContext,
) -> (r: Result<ZapValue, String>)
    ensures
        (told(r), final(context)@) == call_method(
            f@,
            views(args@),
            self_value@,
            funcs@,
            old(context)@,
            MAX_NESTING as nat,
        ),
{
    call_on(f, args, self_value, funcs, context, MAX_NESTING)
}

/// Calls a method on a receiver with arguments by position.
pub fn call_method_with_context(
    f: &Function,
    args: Vec<ZapValue>,
    self_value: ZapValue,
    funcs: &Functions,
    context: &mut ExecutionContext,
) -> (r: Result<ZapValue, String>)
    ensures
        (told(r), final(context)@) == call_method(
            f@,
            positional(views(args@)),
            self_value@,
            funcs@,
            old(context)@,
            MAX_NESTING as nat,
        ),
{
    call_on(f, by_position(args), self_value, funcs, context, MAX_NESTING)
}

/// Gives an object the fields that its class and the ancestors of its class declare.
pub fn initialize_object_fields(
    class_name: &str,
    object: &ZapValue,
    caller_vars: &Table<ZapValue>,
    funcs: &Functions,
    context: &mut ExecutionContext,
) -> (r: Result<(), String>)
    ensures
        (told_unit(r), final(context)@) == init_fields(
            class_name@,
            object@,
            funcs@.len(),
            caller_vars@,
            funcs@,
            old(context)@,
            MAX_NESTING as nat,
        ),
{
    set_fields_of(class_name, object, funcs.len(), caller_vars, funcs, context, MAX_NESTING)
}

/// Constructs an object. What a failed construction took from the budget is given back.
pub fn construct_object_with_context(
    args: &Vec<ZapValue>,
    vars: &Table<ZapValue>,
    funcs: &Functions,
    context: &mut ExecutionContext,
) -> (r: Result<ZapValue, String>)
    ensures
        (told(r), final(context)@) == construct(
            views(args@),
            vars@,
            funcs@,
            old(context)@,
            MAX_NESTING as nat,
        ),
{
    construct_object(args, vars, funcs, context, MAX_NESTING)
}

/// Constructs an object and keeps what was taken from the budget.
pub fn construct_object_with_context_inner(
    args: &Vec<ZapValue>,
    vars: &Table<ZapValue>,
    funcs: &Functions,
    context: &mut ExecutionContext,
) -> (r: Result<ZapValue, String>)
    ensures
        (told(r), final(context)@) == construct_inner(
            views(args@),
            vars@,
            funcs@,
            old(context)@,
            MAX_NESTING as nat,
        ),
{
    construct_object_inner(args, vars, funcs, context, MAX_NESTING)
}

/// Serves requests on a listener that is bound to an address.
pub fn web_serve_on_listener(
    address: &str,
    routes: &Vec<ZapValue>,
    funcs: &Functions,
    context: &mut ExecutionContext,
    max_requests: Option<usize>,
) -> (r: Result<ZapValue, String>)
    ensures
        (told(r), final(context)@) == served_on(
            address@,
            views(routes@),
            max_requests,
            funcs@,
            old(context)@,
            MAX_NESTING as nat,
        ),
{
    serve_on_address(address, routes, max_requests, funcs, context, MAX_NESTING)
}

/// Serves requests: routes, a port and, if wanted, a number of requests are given.
pub fn web_serve_with_context(
    args: &Vec<ZapValue>,
    funcs: &Functions,
    context: &mut ExecutionContext,
) -> (r: Result<ZapValue, String>)
    ensures
        (told(r), final(context)@) == web_serve(
            views(args@),
            funcs@,
            old(context)@,
            MAX_NESTING as nat,
        ),
{
    serve_web(args, funcs, context, MAX_NESTING)
}

/// Whether a program can be executed: every program that can be parsed is.
pub fn ast_program_compatible(program: &Program) -> (r: bool)
    ensures
        r,
{
    true
}

/// Runs the body of a function in the frame of its call.
pub fn execute_ast_body_with_frame(
    body: &Program,
    local: &mut Table<ZapValue>,
    local_funcs: &mut Functions,
    context: &mut ExecutionContext,
    frame: usize,
) -> (r: Result<Flow, String>)
    ensures
        ran_view(r, final(local)@, final(local_funcs)@, final(context)@) == run(
            body@,
            old(local)@,
            old(local_funcs)@,
            old(context)@,
            frame_base(old(context)@, frame),
            frame,
            MAX_NESTING as nat,
        ),
{
    let base = match context.base_path(frame) {
        Some(base) => base,
        None => ".".to_owned(),
    };
    execute(body, local, local_funcs, context, base.as_str(), frame, MAX_NESTING)
}

/// Runs statements in a frame.
pub fn execute_ast_program_with_frame(
    program: &Program,
    vars: &mut Table<ZapValue>,
    funcs: &mut Functions,
    context: &mut ExecutionContext,
    base: &str,
    frame: usize,
) -> (r: Result<Flow, String>)
    ensures
        ran_view(r, final(vars)@, final(funcs)@, final(context)@) == run(
            program@,
            old(vars)@,
            old(funcs)@,
            old(context)@,
            base@,
            frame,
            MAX_NESTING as nat,
        ),
{
    execute(program, vars, funcs, context, base, frame, MAX_NESTING)
}

/// Runs a program in a frame of its own that begins with the given variables.
pub fn execute_ast_program_with_context(
    program: &Program,
    vars: &mut Table<ZapValue>,
    funcs: &mut Functions,
    context: &mut ExecutionContext,
    base: &str,
) -> (r: Result<Flow, String>)
    ensures
        ran_view(r, final(vars)@, final(funcs)@, final(context)@) == run_program(
            program@,
            old(vars)@,
            old(funcs)@,
            old(context)@,
            base@,
            MAX_NESTING as nat,
        ),
{
    execute_program(program, vars, funcs, context, base, MAX_NESTING)
}

/// Runs a program in a context of its own, on a host with a separator of paths and the replies that
/// it has given.
pub fn execute_ast_program(
    program: &Program,
    vars: &mut Table<ZapValue>,
    funcs: &mut Functions,
    base: &str,
    sep: char,
    replies: Vec<Result<ZapValue, String>>,
) -> (r: Result<Flow, String>)
    ensures
        ({
            let ran = run_program(
                program@,
                old(vars)@,
                old(funcs)@,
                hosted(sep, reply_views(replies@)),
                base@,
                MAX_NESTING as nat,
            );
            told(r) == ran.flow && final(vars)@ == ran.vars && final(funcs)@ == ran.funcs
        }),
{
    let mut context = ExecutionContext::on_host(sep, replies);
    execute_program(program, vars, funcs, &mut context, base, MAX_NESTING)
}

/// Imports a module.
pub fn load_module_with_context(
    raw: &str,
    vars: &mut Table<ZapValue>,
    funcs: &mut Functions,
    context: &mut ExecutionContext,
    base: &str,
    explicit: bool,
) -> (r: Result<Flow, String>)
    ensures
        ran_view(r, final(vars)@, final(funcs)@, final(context)@) == load_module(
            raw@,
            old(vars)@,
            old(funcs)@,
            old(context)@,
            base@,
            explicit,
            MAX_NESTING as nat,
        ),
{
    import_module(raw, vars, funcs, context, base, explicit, MAX_NESTING)
}

/// Runs source lines.
pub fn execute_lines_with_context(
    lines: &Vec<String>,
    vars: &mut Table<ZapValue>,
    funcs: &mut Functions,
    context: &mut ExecutionContext,
    base: &str,
) -> (r: Result<Flow, String>)
    ensures
        ran_view(r, final(vars)@, final(funcs)@, final(context)@) == run_lines(
            texts(lines@),
            old(vars)@,
            old(funcs)@,
            old(context)@,
            base@,
            MAX_NESTING as nat,
        ),
{
    execute_source_lines(lines, vars, funcs, context, base, MAX_NESTING)
}

/// Runs source lines in a context of their own, on a host with a separator of paths and the
/// replies that it has given.
pub fn execute_lines(
    lines: &Vec<String>,
    vars: &mut Table<ZapValue>,
    funcs: &mut Functions,
    base: &str,
    sep: char,
    replies: Vec<Result<ZapValue, String>>,
) -> (r: Result<Flow, String>)
    ensures
        ({
            let ran = run_lines(
                texts(lines@),
                old(vars)@,
                old(funcs)@,
                hosted(sep, reply_views(replies@)),
                base@,
                MAX_NESTING as nat,
            );
            told(r) == ran.flow && final(vars)@ == ran.vars && final(funcs)@ == ran.funcs
        }),
{
    let mut context = ExecutionContext::on_host(sep, replies);
    execute_source_lines(lines, vars, funcs, &mut context, base, MAX_NESTING)
}

} // verus!
