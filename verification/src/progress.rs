//! Every evaluation and every run changes its context only as [`evolves`] allows.

use crate::assets::{served_asset, static_asset, static_spa};
use crate::ast::{BinaryOp, CallArgM, ExprM, ParamM, StmtM};
use crate::builtins::MAX_LOOP_ITERATIONS;
use crate::classes::{field_prefix, method_key, parent};
use crate::evolution::{evolves, group_steps, lemma_cache_evolves, lemma_level_evolves,
    lemma_loading_evolves};
use crate::host::{atomic_write_of, confined, entered_workspace, file_metadata_of, file_text,
    file_written, io_builtin};
use crate::layout::{block, block_end, entered, lemma_block_end, MAX_SOURCE_LINES};
use crate::lines::{bare, class_defined, class_names, closed_over, definition_of, function_defined,
    method_defined, methods_defined, shown_line, stripped};
use crate::modules::{attached, bound_in, fn_prefix, import_cycle, import_path};
use crate::network::destination;
use crate::registry::{class_marked, class_registered, field_registered, function_registered,
    members_registered, method_registered, FunctionM, Registered};
use crate::runtime::{admitted, builtin, builtin_inner, call_cost, computed, context_builtin,
    validate_all};
use crate::semantics::{ArgM, FlowM, answered, argument_checked, argument_values, assign_line, bind,
    block_line, bound_local, call_frame, call_function, call_member, call_method, call_named,
    call_names, called_builtin, caller_params, charged, construct, construct_inner, construct_own,
    construct_parent, construction, dispatched, eval, eval_args, eval_binary, eval_call, eval_inner,
    eval_items, eval_pairs, evaluated, field_value, fitting, for_line, for_lines, frame_base,
    function_limit, if_line, init_fields, let_line, line, line_text, lines_from, load_module,
    method_limit, module_file, module_run, module_source, option_values, own_fields, parent_init,
    plain_line, positional, propagated, propagated_text, receiver, released, request_limit,
    required, response_sent, return_line, rounds_left, run, run_body, run_for, run_from, run_lines,
    run_program, run_try, run_while, serve, serve_bound, served_on, statement, super_class,
    web_serve, while_lines};
use crate::syntax::parsed_expression;
use crate::system::{config_directory, external_builtin, first_variable, http_call, network_builtin,
    process_call, system_builtin};
use crate::table::{get, put, without, Rows};
use crate::text::{cut, has_prefix, trim, Str};
use crate::value::{Fun, Val};
use crate::web::{request_id, request_told, routed, serve_once, RequestM, Target};
use crate::world::{ask, assign, enter_level, extend_fields, hold_scope,
    hold_values, insert_local, let_go, names_of, new_object, reserve_bytes, row_values, set_field,
    start_loading, validate, ModuleM, World};
use vstd::prelude::*;

verus! {

broadcast use group_steps;

// ---------------------------------------------------------------------------
// Builtins
// ---------------------------------------------------------------------------

proof fn lemma_validate_all(args: Seq<Val>, i: nat, w: World)
    ensures
        evolves(w, validate_all(args, i, w).1),
    decreases args.len() - i,
{
    if i < args.len() {
        lemma_validate_all(args, i + 1, validate(w, args[i as int]).1);
    }
}

proof fn lemma_computed(name: Str, args: Seq<Val>, w: World)
    ensures
        evolves(w, computed(name, args, w).1),
{
    if let Some(outcome) = context_builtin(name, args, w) {
        assert(evolves(w, outcome.1));
    }
}

/// A call of a builtin changes the context only as any step may.
pub proof fn lemma_builtin_evolves(name: Str, args: Seq<Val>, w: World)
    ensures
        evolves(w, builtin(name, args, w).1),
{
    let charged = reserve_bytes(w, call_cost(name, args.len())).1;
    lemma_validate_all(args, 0, charged);
    let tested = if name == "memory_stats"@ {
        charged
    } else {
        validate_all(args, 0, charged).1
    };
    lemma_computed(name, args, tested);
    let (result, after) = computed(name, args, tested);
    if let Ok(Some(value)) = result {
        assert(evolves(after, admitted(value, after).1));
    }
    assert(evolves(w, builtin_inner(name, args, w).1));
}

proof fn lemma_confined(w: World, path: Str, operation: Str)
    ensures
        evolves(w, confined(w, path, operation).1),
{
}

proof fn lemma_served_asset(asset: Str, root: Str, w: World)
    requires
        !w.untrusted,
    ensures
        evolves(w, served_asset(asset, root, w).1),
{
    lemma_confined(w, root, "web_static"@);
}

proof fn lemma_file_calls(path: Str, content: Str, operation: Str, w: World)
    requires
        !w.untrusted,
    ensures
        evolves(w, file_metadata_of(path, w).1),
        evolves(w, atomic_write_of(path, content, w).1),
        evolves(w, file_text(path, operation, w).1),
        evolves(w, file_written(path, content, operation, w).1),
{
    lemma_confined(w, path, "file_metadata"@);
    lemma_confined(w, path, "atomic_write"@);
    lemma_confined(w, path, operation);
}

proof fn lemma_io_builtin(name: Str, args: Seq<Val>, w: World)
    ensures
        evolves(w, io_builtin(name, args, w).1),
{
    if !w.untrusted {
        assert forall|path: Str, content: Str, operation: Str|
            evolves(w, #[trigger] file_written(path, content, operation, w).1) by {
            lemma_file_calls(path, content, operation, w);
        }
        assert forall|path: Str, operation: Str|
            evolves(w, #[trigger] file_text(path, operation, w).1) by {
            lemma_file_calls(path, path, operation, w);
        }
        assert forall|path: Str, content: Str|
            evolves(w, #[trigger] atomic_write_of(path, content, w).1) by {
            lemma_file_calls(path, content, path, w);
        }
        assert forall|path: Str| evolves(w, #[trigger] file_metadata_of(path, w).1) by {
            lemma_file_calls(path, path, path, w);
        }
        assert forall|asset: Str, root: Str, v: World| !v.untrusted implies evolves(
            v,
            #[trigger] served_asset(asset, root, v).1,
        ) by {
            lemma_served_asset(asset, root, v);
        }
        assert(evolves(w, static_asset(args, w).1));
        assert(evolves(w, static_spa(args, w).1));
    }
}

proof fn lemma_first_variable(w: World, first: Str, second: Str, suffix: Str, otherwise: Str)
    requires
        !w.untrusted,
    ensures
        evolves(w, first_variable(w, first, second, suffix, otherwise).1),
{
}

proof fn lemma_config_directory(w: World)
    requires
        !w.untrusted,
    ensures
        evolves(w, config_directory(w).1),
{
    let w1 = ask(w, "platform"@, Seq::empty()).1;
    lemma_first_variable(w1, "APPDATA"@, "LOCALAPPDATA"@, Seq::empty(), "."@);
    lemma_first_variable(w1, "XDG_CONFIG_HOME"@, "HOME"@, "/.config"@, "."@);
}

proof fn lemma_system_builtin(name: Str, args: Seq<Val>, w: World)
    ensures
        evolves(w, system_builtin(name, args, w).1),
{
    if !w.untrusted {
        lemma_config_directory(w);
    }
    assert forall|path: Str| evolves(w, #[trigger] confined(w, path, "exists"@).1) by {
        lemma_confined(w, path, "exists"@);
    }
}

proof fn lemma_destination(host: Str, port: u16, restricted: bool, w: World)
    requires
        !w.untrusted,
    ensures
        evolves(w, destination(host, port, restricted, w).1),
{
}

proof fn lemma_http_call(args: Seq<Val>, w: World)
    ensures
        evolves(w, http_call(args, w).1),
{
    if !w.untrusted {
        assert forall|host: Str, port: u16, restricted: bool|
            evolves(w, #[trigger] destination(host, port, restricted, w).1) by {
            lemma_destination(host, port, restricted, w);
        }
    }
}

proof fn lemma_network_builtin(name: Str, args: Seq<Val>, w: World)
    ensures
        evolves(w, network_builtin(name, args, w).1),
{
    lemma_http_call(args, w);
    lemma_http_call(seq![Val::Text("GET"@), args[0]], w);
    assert(evolves(w, process_call(args, w).1));
    if !w.untrusted {
        assert(evolves(w, serve_once(args, w).1));
    }
}

/// A call of a builtin that reaches the host changes the context only as any step may.
pub proof fn lemma_external_builtin_evolves(name: Str, args: Seq<Val>, w: World)
    ensures
        evolves(w, external_builtin(name, args, w).1),
{
    lemma_io_builtin(name, args, w);
    let w1 = io_builtin(name, args, w).1;
    lemma_system_builtin(name, args, w1);
    lemma_network_builtin(name, args, system_builtin(name, args, w1).1);
}

proof fn lemma_called_builtin(name: Str, args: Seq<Val>, w: World)
    ensures
        evolves(w, called_builtin(name, args, w).1),
{
    lemma_builtin_evolves(name, args, w);
    lemma_external_builtin_evolves(name, args, builtin(name, args, w).1);
}

// ---------------------------------------------------------------------------
// Definitions
// ---------------------------------------------------------------------------

proof fn lemma_members_registered(
    class_name: Str,
    body: Seq<StmtM>,
    i: nat,
    frame: usize,
    funcs: Rows<Fun>,
    w: World,
)
    ensures
        evolves(w, members_registered(class_name, body, i, frame, funcs, w).world),
    decreases body.len() - i,
{
    if i < body.len() {
        let step = match body[i as int] {
            StmtM::Field { name, annotation, value, visibility } => field_registered(
                class_name,
                name,
                annotation,
                value,
                visibility,
                frame,
                funcs,
                w,
            ),
            StmtM::Function { name, params, return_type, body, visibility, is_async, .. } =>
                method_registered(
                class_name,
                name,
                params,
                return_type,
                body,
                visibility,
                is_async,
                frame,
                funcs,
                w,
            ),
            _ => Registered { result: Ok(()), funcs, world: w },
        };
        assert(evolves(w, step.world));
        lemma_members_registered(class_name, body, i + 1, frame, step.funcs, step.world);
    }
}

proof fn lemma_class_registered(
    name: Str,
    base: Option<Str>,
    body: Seq<StmtM>,
    frame: usize,
    funcs: Rows<Fun>,
    w: World,
)
    ensures
        evolves(w, class_registered(name, base, body, frame, funcs, w).world),
{
    let marked = class_marked(name, base, frame, funcs, w);
    assert(evolves(w, marked.world));
    lemma_members_registered(name, body, 0, frame, marked.funcs, marked.world);
}

proof fn lemma_closed_over(vars: Rows<Val>, w: World)
    ensures
        evolves(w, closed_over(vars, w).1),
{
}

proof fn lemma_methods_defined(
    class_name: Str,
    lines: Seq<Str>,
    j: int,
    vars: Rows<Val>,
    funcs: Rows<Fun>,
    w: World,
)
    ensures
        evolves(w, methods_defined(class_name, lines, j, vars, funcs, w).world),
    decreases lines.len() - j,
{
    if 0 <= j < lines.len() {
        let (visibility, line) = shown_line(trim(lines[j]));
        match definition_of(line) {
            None => {
                lemma_methods_defined(class_name, lines, j + 1, vars, funcs, w);
            },
            Some(rest) => {
                let step = method_defined(
                    class_name,
                    visibility,
                    rest,
                    block(lines, j + 1),
                    vars,
                    funcs,
                    w,
                );
                assert(evolves(w, step.world));
                lemma_block_end(lines, j + 1);
                lemma_methods_defined(
                    class_name,
                    lines,
                    block_end(lines, j + 1),
                    vars,
                    step.funcs,
                    step.world,
                );
            },
        }
    }
}

proof fn lemma_class_defined(
    rest: Str,
    body: Seq<Str>,
    vars: Rows<Val>,
    funcs: Rows<Fun>,
    w: World,
)
    ensures
        evolves(w, class_defined(rest, body, vars, funcs, w).world),
{
    if let Some((name, above)) = class_names(rest) {
        lemma_closed_over(vars, w);
        assert forall|v: World, known: Rows<Fun>|
            evolves(v, #[trigger] methods_defined(name, body, 0, vars, known, v).world) by {
            lemma_methods_defined(name, body, 0, vars, known, v);
        }
        lemma_closed_over(vars, closed_over(vars, w).1);
    }
}

proof fn lemma_bound_in(w: World, frame: int, funcs: Rows<Fun>, j: nat)
    ensures
        evolves(w, bound_in(w, frame, funcs, j)),
    decreases funcs.len() - j,
{
    if j < funcs.len() {
        let next = if has_prefix(funcs[j as int].0, fn_prefix()) {
            w
        } else {
            insert_local(w, frame, funcs[j as int].0, Val::Callable(funcs[j as int].1))
        };
        lemma_bound_in(next, frame, funcs, j + 1);
    }
}

proof fn lemma_attached(w: World, funcs: Rows<Fun>, i: nat)
    ensures
        evolves(w, attached(w, funcs, i)),
    decreases funcs.len() - i,
{
    if i < funcs.len() {
        lemma_bound_in(w, funcs[i as int].1.closure as int, funcs, 0);
        lemma_attached(bound_in(w, funcs[i as int].1.closure as int, funcs, 0), funcs, i + 1);
    }
}

// ---------------------------------------------------------------------------
// Expressions
// ---------------------------------------------------------------------------

/// An evaluation changes the context only as any step may.
pub proof fn lemma_eval_evolves(e: ExprM, vars: Rows<Val>, funcs: Rows<Fun>, w: World, fuel: nat)
    ensures
        evolves(w, eval(e, vars, funcs, w, fuel).1),
    decreases fuel, 0nat, 0nat,
{
    if fuel > 0 {
        lemma_eval_inner(e, vars, funcs, w, (fuel - 1) as nat);
    }
}

proof fn lemma_eval_inner(e: ExprM, vars: Rows<Val>, funcs: Rows<Fun>, w: World, fuel: nat)
    ensures
        evolves(w, eval_inner(e, vars, funcs, w, fuel).1),
    decreases fuel, 9nat, 0nat,
{
    match e {
        ExprM::Literal(_) => {},
        ExprM::Name(_) => {},
        ExprM::List(items) => {
            lemma_eval_items(items, 0, Seq::empty(), vars, funcs, w, fuel);
        },
        ExprM::Dict(pairs) => {
            lemma_eval_pairs(pairs, 0, Seq::empty(), vars, funcs, w, fuel);
        },
        ExprM::Unary { op, value } => {
            lemma_eval_evolves(*value, vars, funcs, w, fuel);
        },
        ExprM::Binary { left, op, right } => {
            lemma_eval_binary(*left, op, *right, vars, funcs, w, fuel);
        },
        ExprM::Conditional { condition, then_branch, else_branch } => {
            lemma_eval_evolves(*condition, vars, funcs, w, fuel);
            let after = eval(*condition, vars, funcs, w, fuel).1;
            lemma_eval_evolves(*then_branch, vars, funcs, after, fuel);
            lemma_eval_evolves(*else_branch, vars, funcs, after, fuel);
        },
        ExprM::Await(value) => {
            lemma_eval_evolves(*value, vars, funcs, w, fuel);
        },
        ExprM::Propagate(_) => {},
        ExprM::Call { callee, args } => {
            lemma_eval_call(*callee, args, vars, funcs, w, fuel);
        },
        ExprM::Member { target, member } => {
            lemma_eval_evolves(*target, vars, funcs, w, fuel);
        },
        ExprM::Index { target, index } => {
            lemma_eval_evolves(*target, vars, funcs, w, fuel);
            let (r, w1) = eval(*target, vars, funcs, w, fuel);
            if let Ok(t) = r {
                lemma_eval_evolves(*index, vars, funcs, hold_values(w1, seq![t]), fuel);
            }
        },
    }
}

proof fn lemma_eval_binary(
    left: ExprM,
    op: BinaryOp,
    right: ExprM,
    vars: Rows<Val>,
    funcs: Rows<Fun>,
    w: World,
    fuel: nat,
)
    ensures
        evolves(w, eval_binary(left, op, right, vars, funcs, w, fuel).1),
    decreases fuel, 1nat, 0nat,
{
    lemma_eval_evolves(left, vars, funcs, w, fuel);
    let (r, w1) = eval(left, vars, funcs, w, fuel);
    if let Ok(a) = r {
        lemma_eval_evolves(right, vars, funcs, hold_values(w1, seq![a]), fuel);
    }
}

proof fn lemma_eval_items(
    items: Seq<ExprM>,
    i: nat,
    done: Seq<Val>,
    vars: Rows<Val>,
    funcs: Rows<Fun>,
    w: World,
    fuel: nat,
)
    ensures
        evolves(w, eval_items(items, i, done, vars, funcs, w, fuel).1),
    decreases fuel, 1nat, items.len() - i,
{
    if i < items.len() {
        let inside = hold_values(w, done);
        lemma_eval_evolves(items[i as int], vars, funcs, inside, fuel);
        let (r, inner) = eval(items[i as int], vars, funcs, inside, fuel);
        let after = let_go(inner);
        if let Ok(value) = r {
            lemma_eval_items(items, i + 1, done.push(value), vars, funcs, after, fuel);
        }
    }
}

proof fn lemma_eval_pairs(
    pairs: Seq<(ExprM, ExprM)>,
    i: nat,
    done: Rows<Val>,
    vars: Rows<Val>,
    funcs: Rows<Fun>,
    w: World,
    fuel: nat,
)
    ensures
        evolves(w, eval_pairs(pairs, i, done, vars, funcs, w, fuel).1),
    decreases fuel, 1nat, pairs.len() - i,
{
    if i < pairs.len() {
        let inside = hold_values(w, row_values(done));
        lemma_eval_evolves(pairs[i as int].0, vars, funcs, inside, fuel);
        let (k, inner) = eval(pairs[i as int].0, vars, funcs, inside, fuel);
        let w1 = let_go(inner);
        if let Ok(Val::Text(key)) = k {
            let again = hold_values(w1, row_values(done));
            lemma_eval_evolves(pairs[i as int].1, vars, funcs, again, fuel);
            let (r, last) = eval(pairs[i as int].1, vars, funcs, again, fuel);
            let w2 = let_go(last);
            if let Ok(value) = r {
                lemma_eval_pairs(pairs, i + 1, put(done, key, value), vars, funcs, w2, fuel);
            }
        }
    }
}

proof fn lemma_eval_args(
    args: Seq<CallArgM>,
    i: nat,
    done: Seq<ArgM>,
    vars: Rows<Val>,
    funcs: Rows<Fun>,
    w: World,
    fuel: nat,
)
    ensures
        evolves(w, eval_args(args, i, done, vars, funcs, w, fuel).1),
    decreases fuel, 1nat, args.len() - i,
{
    if i < args.len() {
        let inside = hold_values(w, argument_values(done));
        lemma_eval_evolves(args[i as int].value, vars, funcs, inside, fuel);
        let (r, inner) = eval(args[i as int].value, vars, funcs, inside, fuel);
        let after = let_go(inner);
        if let Ok(value) = r {
            let arg = ArgM { name: args[i as int].name, value };
            lemma_eval_args(args, i + 1, done.push(arg), vars, funcs, after, fuel);
        }
    }
}

proof fn lemma_eval_call(
    callee: ExprM,
    args: Seq<CallArgM>,
    vars: Rows<Val>,
    funcs: Rows<Fun>,
    w: World,
    fuel: nat,
)
    ensures
        evolves(w, eval_call(callee, args, vars, funcs, w, fuel).1),
    decreases fuel, 8nat, 1nat,
{
    lemma_eval_args(args, 0, Seq::empty(), vars, funcs, w, fuel);
    let (r, w1) = eval_args(args, 0, Seq::empty(), vars, funcs, w, fuel);
    if let Ok(values) = r {
        lemma_dispatched(callee, values, vars, funcs, hold_scope(w1, vars, funcs), fuel);
    }
}

proof fn lemma_dispatched(
    callee: ExprM,
    values: Seq<ArgM>,
    vars: Rows<Val>,
    funcs: Rows<Fun>,
    w: World,
    fuel: nat,
)
    ensures
        evolves(w, dispatched(callee, values, vars, funcs, w, fuel).1),
    decreases fuel, 8nat, 0nat,
{
    match callee {
        ExprM::Name(name) => {
            lemma_call_named(name, values, vars, funcs, w, fuel);
        },
        ExprM::Member { target, member } => {
            lemma_call_member(*target, member, values, vars, funcs, w, fuel);
        },
        _ => {
            let inside = hold_values(w, argument_values(values));
            lemma_eval_evolves(callee, vars, funcs, inside, fuel);
            let (c, inner) = eval(callee, vars, funcs, inside, fuel);
            let w1 = let_go(inner);
            if let Ok(Val::Callable(function)) = c {
                lemma_call_function_evolves(
                    function,
                    values,
                    funcs,
                    hold_values(w1, seq![Val::Callable(function)]),
                    fuel,
                );
            }
        },
    }
}

proof fn lemma_call_named(
    name: Str,
    values: Seq<ArgM>,
    vars: Rows<Val>,
    funcs: Rows<Fun>,
    w: World,
    fuel: nat,
)
    ensures
        evolves(w, call_named(name, values, vars, funcs, w, fuel).1),
    decreases fuel, 7nat, 0nat,
{
    let inside = hold_values(w, argument_values(values));
    lemma_construct(argument_values(values), vars, funcs, inside, fuel);
    lemma_web_serve(argument_values(values), funcs, inside, fuel);
    lemma_called_builtin(name, argument_values(values), w);
    if let Some(function) = get(funcs, name) {
        lemma_call_function_evolves(function, values, funcs, w, fuel);
    }
    if let Some(Val::Callable(function)) = get(vars, name) {
        lemma_call_function_evolves(function, values, funcs, w, fuel);
    }
}

proof fn lemma_receiver(target: ExprM, vars: Rows<Val>, funcs: Rows<Fun>, w: World, fuel: nat)
    ensures
        evolves(w, receiver(target, vars, funcs, w, fuel).1),
    decreases fuel, 1nat, 0nat,
{
    lemma_eval_evolves(target, vars, funcs, w, fuel);
}

proof fn lemma_call_member(
    target: ExprM,
    member: Str,
    values: Seq<ArgM>,
    vars: Rows<Val>,
    funcs: Rows<Fun>,
    w: World,
    fuel: nat,
)
    ensures
        evolves(w, call_member(target, member, values, vars, funcs, w, fuel).1),
    decreases fuel, 7nat, 0nat,
{
    let inside = hold_values(w, argument_values(values));
    lemma_receiver(target, vars, funcs, inside, fuel);
    let (r, inner) = receiver(target, vars, funcs, inside, fuel);
    let w1 = let_go(inner);
    if let Ok((class_name, value)) = r {
        if let Some(function) = get(funcs, method_key(class_name, member)) {
            lemma_call_method_evolves(function, values, value, funcs, w1, fuel);
        }
    }
}

proof fn lemma_evaluated(source: Str, vars: Rows<Val>, funcs: Rows<Fun>, w: World, fuel: nat)
    ensures
        evolves(w, evaluated(source, vars, funcs, w, fuel).1),
    decreases fuel, 1nat, 0nat,
{
    if let Ok(e) = parsed_expression(source) {
        lemma_eval_evolves(e, vars, funcs, w, fuel);
    }
}

// ---------------------------------------------------------------------------
// Calls
// ---------------------------------------------------------------------------

proof fn lemma_bind(
    params: Seq<ParamM>,
    i: nat,
    given: Rows<Val>,
    local: Rows<Val>,
    bindings: Rows<Str>,
    type_params: Seq<Str>,
    frame: Option<usize>,
    funcs: Rows<Fun>,
    w: World,
    fuel: nat,
)
    ensures
        evolves(
            w,
            bind(params, i, given, local, bindings, type_params, frame, funcs, w, fuel).1,
        ),
    decreases fuel, 2nat, params.len() - i,
{
    if i < params.len() {
        let param = params[i as int];
        let inside = hold_values(w, row_values(given));
        if let Some(source) = param.default {
            lemma_evaluated(source, local, funcs, inside, fuel);
        }
        let (r, w1) = match get(given, param.name) {
            Some(value) => (Ok(value), w),
            None => match param.default {
                Some(source) => {
                    let (s, inner) = evaluated(source, local, funcs, inside, fuel);
                    (s, let_go(inner))
                },
                None => (Err("missing required argument: "@ + param.name), w),
            },
        };
        if let Ok(value) = r {
            if let Ok(more) = argument_checked(param, value, type_params, bindings) {
                lemma_bind(
                    params,
                    i + 1,
                    without(given, param.name),
                    put(local, param.name, value),
                    more,
                    type_params,
                    frame,
                    funcs,
                    bound_local(w1, frame, param.name, value),
                    fuel,
                );
            }
        }
    }
}

proof fn lemma_run_body(
    f: Fun,
    local: Rows<Val>,
    funcs: Rows<Fun>,
    w: World,
    frame: Option<usize>,
    fuel: nat,
)
    ensures
        evolves(w, run_body(f, local, funcs, w, frame, fuel).world),
    decreases fuel, 1nat, 0nat,
{
    match (f.ast_body, frame) {
        (Some(body), Some(id)) => {
            lemma_run_evolves(body, local, funcs, w, frame_base(w, id), id, fuel);
        },
        _ => {
            lemma_run_lines_evolves(f.body, local, funcs, w, "."@, fuel);
        },
    }
}

/// A call of a function changes the context only as any step may.
pub proof fn lemma_call_function_evolves(
    f: Fun,
    args: Seq<ArgM>,
    funcs: Rows<Fun>,
    w: World,
    fuel: nat,
)
    ensures
        evolves(w, call_function(f, args, funcs, w, fuel).1),
    decreases fuel, 3nat, 0nat,
{
    let (frame, w1) = call_frame(f, w);
    let local = call_names(f, frame, w1);
    if let Ok(given) = fitting(args, f.params, function_limit(f.params)) {
        lemma_bind(f.params, 0, given, local, Seq::empty(), f.type_params, frame, funcs, w1, fuel);
        let (r, w2) = bind(
            f.params,
            0,
            given,
            local,
            Seq::empty(),
            f.type_params,
            frame,
            funcs,
            w1,
            fuel,
        );
        if let Ok((names, bindings)) = r {
            lemma_run_body(f, names, funcs, w2, frame, fuel);
        }
    }
}

/// A call of a method changes the context only as any step may.
pub proof fn lemma_call_method_evolves(
    f: Fun,
    args: Seq<ArgM>,
    self_value: Val,
    funcs: Rows<Fun>,
    w: World,
    fuel: nat,
)
    ensures
        evolves(w, call_method(f, args, self_value, funcs, w, fuel).1),
    decreases fuel, 3nat, 0nat,
{
    let params = caller_params(f.params);
    let (frame, w1) = call_frame(f, w);
    let names = put(call_names(f, frame, w1), "self"@, self_value);
    let w2 = bound_local(w1, frame, "self"@, self_value);
    let above = super_class(names, funcs);
    let local = match above {
        Some(class_name) => put(names, "super"@, Val::Text(class_name)),
        None => names,
    };
    let w3 = match above {
        Some(class_name) => bound_local(w2, frame, "super"@, Val::Text(class_name)),
        None => w2,
    };
    if let Ok(given) = fitting(args, params, method_limit(params)) {
        lemma_bind(params, 0, given, local, Seq::empty(), Seq::empty(), frame, funcs, w3, fuel);
        let (r, w4) = bind(
            params,
            0,
            given,
            local,
            Seq::empty(),
            Seq::empty(),
            frame,
            funcs,
            w3,
            fuel,
        );
        if let Ok((filled, _)) = r {
            lemma_run_body(f, filled, funcs, w4, frame, fuel);
        }
    }
}

// ---------------------------------------------------------------------------
// Construction
// ---------------------------------------------------------------------------

proof fn lemma_own_fields(
    class_name: Str,
    object: Val,
    i: nat,
    vars: Rows<Val>,
    funcs: Rows<Fun>,
    w: World,
    fuel: nat,
)
    ensures
        evolves(w, own_fields(class_name, object, i, vars, funcs, w, fuel).1),
    decreases fuel, 3nat, funcs.len() - i,
{
    if i < funcs.len() {
        let key = funcs[i as int].0;
        match (if has_prefix(key, field_prefix(class_name)) {
            field_value(funcs[i as int].1)
        } else {
            None
        }) {
            None => {
                lemma_own_fields(class_name, object, i + 1, vars, funcs, w, fuel);
            },
            Some(value) => {
                let local = put(
                    put(vars, "self"@, object),
                    "__zap_owner_class"@,
                    Val::Text(class_name),
                );
                lemma_eval_evolves(value, local, funcs, w, fuel);
                let (r, w1) = eval(value, local, funcs, w, fuel);
                if let (Ok(v), Val::Object { id, .. }) = (r, object) {
                    let name = key.skip(field_prefix(class_name).len() as int);
                    let w2 = set_field(w1, id, name, v).1;
                    lemma_own_fields(class_name, object, i + 1, vars, funcs, w2, fuel);
                }
            },
        }
    }
}

proof fn lemma_init_fields(
    class_name: Str,
    object: Val,
    steps: nat,
    vars: Rows<Val>,
    funcs: Rows<Fun>,
    w: World,
    fuel: nat,
)
    ensures
        evolves(w, init_fields(class_name, object, steps, vars, funcs, w, fuel).1),
    decreases fuel, 4nat, steps,
{
    match parent(class_name, funcs) {
        Some(parent_name) => {
            if steps > 0 {
                lemma_init_fields(parent_name, object, (steps - 1) as nat, vars, funcs, w, fuel);
                let w1 = init_fields(
                    parent_name,
                    object,
                    (steps - 1) as nat,
                    vars,
                    funcs,
                    w,
                    fuel,
                ).1;
                lemma_own_fields(class_name, object, 0, vars, funcs, w1, fuel);
            }
        },
        None => {
            lemma_own_fields(class_name, object, 0, vars, funcs, w, fuel);
        },
    }
}

proof fn lemma_construct(args: Seq<Val>, vars: Rows<Val>, funcs: Rows<Fun>, w: World, fuel: nat)
    ensures
        evolves(w, construct(args, vars, funcs, w, fuel).1),
    decreases fuel, 6nat, 0nat,
{
    lemma_construct_inner(args, vars, funcs, w, fuel);
}

proof fn lemma_construct_inner(
    args: Seq<Val>,
    vars: Rows<Val>,
    funcs: Rows<Fun>,
    w: World,
    fuel: nat,
)
    ensures
        evolves(w, construct_inner(args, vars, funcs, w, fuel).1),
    decreases fuel, 5nat, 0nat,
{
    if args.len() > 0 {
        if let Val::Text(class_name) = args[0] {
            let (fields, rest) = construction(args, 1, Seq::empty(), Seq::empty());
            let (object, w1) = new_object(w, class_name);
            lemma_init_fields(class_name, object, funcs.len(), vars, funcs, w1, fuel);
            let w2 = init_fields(class_name, object, funcs.len(), vars, funcs, w1, fuel).1;
            let w3 = extend_fields(w2, object->id, fields).1;
            lemma_construct_parent(class_name, object, rest, vars, funcs, w3, fuel);
        }
    }
}

proof fn lemma_construct_parent(
    class_name: Str,
    object: Val,
    rest: Seq<Val>,
    vars: Rows<Val>,
    funcs: Rows<Fun>,
    w: World,
    fuel: nat,
)
    ensures
        evolves(w, construct_parent(class_name, object, rest, vars, funcs, w, fuel).1),
    decreases fuel, 4nat, 1nat,
{
    match parent_init(class_name, funcs) {
        None => {
            lemma_construct_own(class_name, object, rest, vars, funcs, w, fuel);
        },
        Some((parent_name, function)) => {
            lemma_call_method_evolves(function, positional(rest), object, funcs, w, fuel);
            let w1 = call_method(function, positional(rest), object, funcs, w, fuel).1;
            lemma_construct_own(class_name, object, rest, vars, funcs, w1, fuel);
        },
    }
}

proof fn lemma_construct_own(
    class_name: Str,
    object: Val,
    rest: Seq<Val>,
    vars: Rows<Val>,
    funcs: Rows<Fun>,
    w: World,
    fuel: nat,
)
    ensures
        evolves(w, construct_own(class_name, object, rest, vars, funcs, w, fuel).1),
    decreases fuel, 4nat, 0nat,
{
    if let Some(function) = get(funcs, method_key(class_name, "init"@)) {
        lemma_call_method_evolves(function, positional(rest), object, funcs, w, fuel);
    }
}

// ---------------------------------------------------------------------------
// Serving requests
// ---------------------------------------------------------------------------

proof fn lemma_answered(
    request: Result<RequestM, Str>,
    routes: Seq<Val>,
    funcs: Rows<Fun>,
    w: World,
    fuel: nat,
)
    ensures
        evolves(w, answered(request, routes, funcs, w, fuel).1),
    decreases fuel, 4nat, 0nat,
{
    if let Ok(found) = request {
        let (r, w1) = request_id(found.headers, w);
        if let Ok(id) = r {
            if let Ok(Target::Handler(function, params)) = routed(routes, funcs, found, 0, false) {
                lemma_call_function_evolves(
                    function,
                    positional(seq![crate::web::request_value(found, id, params)]),
                    funcs,
                    w1,
                    fuel,
                );
            }
        }
    }
}

proof fn lemma_serve(
    routes: Seq<Val>,
    funcs: Rows<Fun>,
    address: Str,
    served: usize,
    limit: Option<usize>,
    rounds: nat,
    w: World,
    fuel: nat,
)
    ensures
        evolves(w, serve(routes, funcs, address, served, limit, rounds, w, fuel).1),
    decreases fuel, 5nat, rounds,
{
    if rounds > 0 {
        let (reply, w1) = ask(w, "web_accept"@, Seq::empty());
        if let Ok(value) = reply {
            lemma_answered(request_told(value), routes, funcs, w1, fuel);
            let (a, w2) = answered(request_told(value), routes, funcs, w1, fuel);
            if let Ok(response) = a {
                let w3 = response_sent(response, w2).1;
                assert(evolves(w2, w3));
                lemma_serve(
                    routes,
                    funcs,
                    address,
                    (served + 1) as usize,
                    limit,
                    (rounds - 1) as nat,
                    w3,
                    fuel,
                );
            }
        }
    }
}

/// Serving requests changes the context only as any step may.
pub proof fn lemma_served_on_evolves(
    address: Str,
    routes: Seq<Val>,
    limit: Option<usize>,
    funcs: Rows<Fun>,
    w: World,
    fuel: nat,
)
    ensures
        evolves(w, served_on(address, routes, limit, funcs, w, fuel).1),
    decreases fuel, 5nat, rounds_left(w) + 1,
{
    lemma_serve(routes, funcs, address, 0, limit, rounds_left(w), w, fuel);
}

proof fn lemma_serve_bound(
    routes: Seq<Val>,
    port: i64,
    limit: Option<usize>,
    funcs: Rows<Fun>,
    w: World,
    fuel: nat,
)
    ensures
        evolves(w, serve_bound(routes, port, limit, funcs, w, fuel).1),
    decreases fuel, 6nat, 0nat,
{
    let (reply, w1) = ask(w, "web_bind"@, seq![Val::Number(port)]);
    if let Ok(Val::Text(address)) = reply {
        lemma_served_on_evolves(address, routes, limit, funcs, w1, fuel);
    }
}

proof fn lemma_web_serve(args: Seq<Val>, funcs: Rows<Fun>, w: World, fuel: nat)
    ensures
        evolves(w, web_serve(args, funcs, w, fuel).1),
    decreases fuel, 6nat, 1nat,
{
    if args.len() >= 2 {
        if let (Val::List(routes), Val::Number(port)) = (args[0], args[1]) {
            if let Ok(limit) = request_limit(args) {
                lemma_serve_bound(routes, port, limit, funcs, w, fuel);
            }
        }
    }
}

// ---------------------------------------------------------------------------
// Statements
// ---------------------------------------------------------------------------

proof fn lemma_entered_workspace(w: World, base: Str)
    ensures
        evolves(w, entered_workspace(w, base).1),
{
    reveal(evolves);
    reveal(entered_workspace);
}

/// A run of statements changes the context only as any step may.
pub proof fn lemma_run_evolves(
    program: Seq<StmtM>,
    vars: Rows<Val>,
    funcs: Rows<Fun>,
    w: World,
    base: Str,
    frame: usize,
    fuel: nat,
)
    ensures
        evolves(w, run(program, vars, funcs, w, base, frame, fuel).world),
    decreases fuel, 0nat, 0nat,
{
    lemma_entered_workspace(w, base);
    let (entered, w1) = entered_workspace(w, base);
    if fuel > 0 && entered is Ok && program.len() <= MAX_SOURCE_LINES {
        let (r, w2) = enter_level(w1);
        if r is Ok {
            lemma_run_from(program, 0, vars, funcs, w2, base, frame, (fuel - 1) as nat);
            lemma_level_evolves(
                w1,
                run_from(program, 0, vars, funcs, w2, base, frame, (fuel - 1) as nat).world,
            );
        }
    }
}

proof fn lemma_run_from(
    program: Seq<StmtM>,
    i: nat,
    vars: Rows<Val>,
    funcs: Rows<Fun>,
    w: World,
    base: Str,
    frame: usize,
    fuel: nat,
)
    ensures
        evolves(w, run_from(program, i, vars, funcs, w, base, frame, fuel).world),
    decreases fuel, 12nat, program.len() - i,
{
    if i < program.len() {
        let seen = crate::world::snapshot(w.frames, frame as int);
        lemma_statement(program[i as int], seen, funcs, w, base, frame, fuel);
        let ran = statement(program[i as int], seen, funcs, w, base, frame, fuel);
        lemma_run_from(program, i + 1, ran.vars, ran.funcs, ran.world, base, frame, fuel);
    }
}

proof fn lemma_propagated(e: ExprM, vars: Rows<Val>, funcs: Rows<Fun>, w: World, fuel: nat)
    ensures
        evolves(w, propagated(e, vars, funcs, w, fuel).1),
    decreases fuel, 1nat, 0nat,
{
    match e {
        ExprM::Propagate(value) => {
            lemma_eval_evolves(*value, vars, funcs, w, fuel);
        },
        _ => {
            lemma_eval_evolves(e, vars, funcs, w, fuel);
        },
    }
}

proof fn lemma_statement(
    s: StmtM,
    vars: Rows<Val>,
    funcs: Rows<Fun>,
    w: World,
    base: Str,
    frame: usize,
    fuel: nat,
)
    ensures
        evolves(w, statement(s, vars, funcs, w, base, frame, fuel).world),
    decreases fuel, 11nat, 0nat,
{
    match s {
        StmtM::Expression(e) => {
            lemma_eval_evolves(e, vars, funcs, w, fuel);
        },
        StmtM::Field { .. } => {},
        StmtM::Assignment { name, value } => {
            lemma_propagated(value, vars, funcs, w, fuel);
        },
        StmtM::Declaration { name, annotation, value, exported } => {
            lemma_propagated(value, vars, funcs, w, fuel);
        },
        StmtM::Say(e) => {
            lemma_eval_evolves(e, vars, funcs, w, fuel);
        },
        StmtM::Raise(e) => {
            lemma_eval_evolves(e, vars, funcs, w, fuel);
        },
        StmtM::TryCatch { body, binding, catch_body } => {
            lemma_run_try(body, binding, catch_body, vars, funcs, w, base, frame, fuel);
        },
        StmtM::Return(None) => {},
        StmtM::Return(Some(e)) => {
            lemma_propagated(e, vars, funcs, w, fuel);
        },
        StmtM::Break => {},
        StmtM::Continue => {},
        StmtM::If { condition, then_branch, else_branch } => {
            lemma_eval_evolves(condition, vars, funcs, w, fuel);
            let after = eval(condition, vars, funcs, w, fuel).1;
            lemma_run_evolves(then_branch, vars, funcs, after, base, frame, fuel);
            if let Some(branch) = else_branch {
                lemma_run_evolves(branch, vars, funcs, after, base, frame, fuel);
            }
        },
        StmtM::While { condition, body } => {
            lemma_run_while(condition, body, 0, vars, funcs, w, base, frame, fuel);
        },
        StmtM::For { binding, iterable, body } => {
            lemma_eval_evolves(iterable, vars, funcs, w, fuel);
            let (r, after) = eval(iterable, vars, funcs, w, fuel);
            if let Ok(Val::List(items)) = r {
                lemma_run_for(binding, items, 0, body, vars, funcs, after, base, frame, fuel);
            }
        },
        StmtM::Function {
            name,
            type_params,
            params,
            return_type,
            body,
            visibility,
            is_async,
            exported,
        } => {
            let record = FunctionM {
                name,
                type_params,
                params,
                visibility,
                return_type,
                body,
                is_async,
                exported,
            };
            assert(evolves(w, function_registered(record, frame, funcs, w).world));
        },
        StmtM::Class { name, base: above, body } => {
            lemma_class_registered(name, above, body, frame, funcs, w);
        },
        StmtM::Module { .. } => {},
        StmtM::Import { path, explicit } => {
            lemma_load_module_evolves(path, vars, funcs, w, base, explicit, fuel);
        },
    }
}

proof fn lemma_run_try(
    body: Seq<StmtM>,
    binding: Str,
    catch_body: Seq<StmtM>,
    vars: Rows<Val>,
    funcs: Rows<Fun>,
    w: World,
    base: Str,
    frame: usize,
    fuel: nat,
)
    ensures
        evolves(
            w,
            run_try(body, binding, catch_body, vars, funcs, w, base, frame, fuel).world,
        ),
    decreases fuel, 1nat, 0nat,
{
    lemma_run_evolves(body, vars, funcs, w, base, frame, fuel);
    let tried = run(body, vars, funcs, w, base, frame, fuel);
    if let Ok(FlowM::Raise(error)) = tried.flow {
        lemma_run_evolves(
            catch_body,
            tried.vars,
            tried.funcs,
            hold_values(
                insert_local(tried.world, frame as int, binding, error),
                option_values(get(names_of(tried.world, frame as int), binding)),
            ),
            base,
            frame,
            fuel,
        );
    }
}

proof fn lemma_run_while(
    condition: ExprM,
    body: Seq<StmtM>,
    count: nat,
    vars: Rows<Val>,
    funcs: Rows<Fun>,
    w: World,
    base: Str,
    frame: usize,
    fuel: nat,
)
    ensures
        evolves(
            w,
            run_while(condition, body, count, vars, funcs, w, base, frame, fuel).world,
        ),
    decreases fuel, 10nat, MAX_LOOP_ITERATIONS - count,
{
    lemma_eval_evolves(condition, vars, funcs, w, fuel);
    let (r, w1) = eval(condition, vars, funcs, w, fuel);
    lemma_run_evolves(body, vars, funcs, w1, base, frame, fuel);
    let ran = run(body, vars, funcs, w1, base, frame, fuel);
    if count + 1 < MAX_LOOP_ITERATIONS {
        lemma_run_while(
            condition,
            body,
            count + 1,
            ran.vars,
            ran.funcs,
            ran.world,
            base,
            frame,
            fuel,
        );
    }
}

proof fn lemma_run_for(
    binding: Str,
    items: Seq<Val>,
    i: nat,
    body: Seq<StmtM>,
    vars: Rows<Val>,
    funcs: Rows<Fun>,
    w: World,
    base: Str,
    frame: usize,
    fuel: nat,
)
    ensures
        evolves(
            w,
            run_for(binding, items, i, body, vars, funcs, w, base, frame, fuel).world,
        ),
    decreases fuel, 10nat, items.len() - i,
{
    if i < items.len() {
        let w1 = assign(w, frame as int, binding, items[i as int]);
        let inside = hold_values(w1, items.skip(i as int + 1));
        lemma_run_evolves(body, vars, funcs, inside, base, frame, fuel);
        let ran = released(run(body, vars, funcs, inside, base, frame, fuel));
        lemma_run_for(
            binding,
            items,
            i + 1,
            body,
            ran.vars,
            ran.funcs,
            ran.world,
            base,
            frame,
            fuel,
        );
    }
}

/// A run of a program changes the context only as any step may.
pub proof fn lemma_run_program_evolves(
    program: Seq<StmtM>,
    vars: Rows<Val>,
    funcs: Rows<Fun>,
    w: World,
    base: Str,
    fuel: nat,
)
    ensures
        evolves(w, run_program(program, vars, funcs, w, base, fuel).world),
    decreases fuel, 1nat, 0nat,
{
    let (frame, w1) = crate::world::new_frame(w, vars, None, Some(base));
    lemma_run_evolves(program, vars, funcs, w1, base, frame, fuel);
}

// ---------------------------------------------------------------------------
// Modules
// ---------------------------------------------------------------------------

/// The rest of the import of a module that `origin` did not know.
proof fn lemma_module_run(
    origin: World,
    file: Str,
    program: Seq<StmtM>,
    vars: Rows<Val>,
    funcs: Rows<Fun>,
    w: World,
    base: Str,
    explicit: bool,
    fuel: nat,
)
    requires
        evolves(start_loading(origin, file), w),
        get(origin.modules, file) is None,
    ensures
        evolves(origin, module_run(file, program, vars, funcs, w, base, explicit, fuel).world),
    decreases fuel, 2nat, 0nat,
{
    let first = put(Seq::empty(), "__zap_module"@, Val::Text(file));
    let directory = match crate::paths::parent_path(file, w.separator) {
        Some(directory) => directory,
        None => base,
    };
    let inside = hold_scope(w, vars, funcs);
    lemma_run_program_evolves(program, first, Seq::empty(), inside, directory, fuel);
    let ran = released(run_program(program, first, Seq::empty(), inside, directory, fuel));
    lemma_loading_evolves(origin, file, ran.world);
    let w1 = crate::world::stop_loading(ran.world);
    lemma_attached(w1, ran.funcs, 0);
    lemma_cache_evolves(
        origin,
        attached(w1, ran.funcs, 0),
        file,
        ModuleM { vars: ran.vars, funcs: ran.funcs },
    );
}

/// An import changes the context only as any step may.
pub proof fn lemma_load_module_evolves(
    raw: Str,
    vars: Rows<Val>,
    funcs: Rows<Fun>,
    w: World,
    base: Str,
    explicit: bool,
    fuel: nat,
)
    ensures
        evolves(w, load_module(raw, vars, funcs, w, base, explicit, fuel).world),
    decreases fuel, 3nat, 0nat,
{
    if let Ok(path) = import_path(raw, w.separator) {
        let (found, w1) = module_file(path, base, w);
        assert(evolves(w, w1));
        if let Ok(file) = found {
            if get(w1.modules, file) is None && import_cycle(w1.loading, file) is None {
                let (source, w2) = module_source(file, start_loading(w1, file));
                assert(evolves(start_loading(w1, file), w2));
                lemma_loading_evolves(w1, file, w2);
                if let Ok(program) = source {
                    lemma_module_run(w1, file, program, vars, funcs, w2, base, explicit, fuel);
                }
            }
        }
    }
}

// ---------------------------------------------------------------------------
// Lines
// ---------------------------------------------------------------------------

proof fn lemma_propagated_text(raw: Str, vars: Rows<Val>, funcs: Rows<Fun>, w: World, fuel: nat)
    ensures
        evolves(w, propagated_text(raw, vars, funcs, w, fuel).1),
    decreases fuel, 2nat, 0nat,
{
    let text = trim(raw);
    lemma_evaluated(trim(text.take(text.len() - 1)), vars, funcs, w, fuel);
    lemma_evaluated(text, vars, funcs, w, fuel);
}

/// A run of lines changes the context only as any step may.
pub proof fn lemma_run_lines_evolves(
    lines: Seq<Str>,
    vars: Rows<Val>,
    funcs: Rows<Fun>,
    w: World,
    base: Str,
    fuel: nat,
)
    ensures
        evolves(w, run_lines(lines, vars, funcs, w, base, fuel).world),
    decreases fuel, 0nat, 0nat,
{
    if fuel > 0 {
        let (r, w1) = entered(lines, w);
        if r is Ok {
            lemma_lines_from(lines, 0, vars, funcs, w1, base, (fuel - 1) as nat);
            lemma_level_evolves(
                w,
                lines_from(lines, 0, vars, funcs, w1, base, (fuel - 1) as nat).world,
            );
        }
    }
}

proof fn lemma_lines_from(
    lines: Seq<Str>,
    i: int,
    vars: Rows<Val>,
    funcs: Rows<Fun>,
    w: World,
    base: Str,
    fuel: nat,
)
    ensures
        evolves(w, lines_from(lines, i, vars, funcs, w, base, fuel).world),
    decreases fuel, 12nat, lines.len() - i,
{
    if 0 <= i < lines.len() {
        lemma_line(lines, i, vars, funcs, w, base, fuel);
        let step = line(lines, i, vars, funcs, w, base, fuel);
        if i < step.next <= lines.len() {
            lemma_lines_from(
                lines,
                step.next,
                step.ran.vars,
                step.ran.funcs,
                step.ran.world,
                base,
                fuel,
            );
        }
    }
}

proof fn lemma_line(
    lines: Seq<Str>,
    i: int,
    vars: Rows<Val>,
    funcs: Rows<Fun>,
    w: World,
    base: Str,
    fuel: nat,
)
    ensures
        evolves(w, line(lines, i, vars, funcs, w, base, fuel).ran.world),
    decreases fuel, 11nat, 0nat,
{
    let (is_export, text) = line_text(lines[i]);
    let body = block(lines, i + 1);
    match stripped(text, "class "@) {
        Some(rest) => {
            lemma_class_defined(rest, body, vars, funcs, w);
        },
        None => match definition_of(text) {
            Some(rest) => {
                assert(evolves(
                    w,
                    function_defined(rest, body, is_export, vars, funcs, w).world,
                ));
            },
            None => match stripped(text, "return"@) {
                Some(rest) => {
                    lemma_return_line(rest, vars, funcs, w, fuel);
                },
                None => {
                    lemma_block_line(lines, i, text, is_export, vars, funcs, w, base, fuel);
                },
            },
        },
    }
}

proof fn lemma_return_line(rest: Str, vars: Rows<Val>, funcs: Rows<Fun>, w: World, fuel: nat)
    ensures
        evolves(w, return_line(rest, vars, funcs, w, fuel).world),
    decreases fuel, 3nat, 0nat,
{
    lemma_propagated_text(trim(rest), vars, funcs, w, fuel);
}

proof fn lemma_block_line(
    lines: Seq<Str>,
    i: int,
    text: Str,
    is_export: bool,
    vars: Rows<Val>,
    funcs: Rows<Fun>,
    w: World,
    base: Str,
    fuel: nat,
)
    ensures
        evolves(
            w,
            block_line(lines, i, text, is_export, vars, funcs, w, base, fuel).ran.world,
        ),
    decreases fuel, 10nat, 1nat,
{
    let body = block(lines, i + 1);
    match stripped(text, "while "@) {
        Some(rest) => {
            lemma_while_lines(trim(bare(rest)), body, 0, vars, funcs, w, base, fuel);
        },
        None => match stripped(text, "for "@) {
            Some(rest) => {
                lemma_for_line(rest, body, vars, funcs, w, base, fuel);
            },
            None => match stripped(text, "if "@) {
                Some(rest) => {
                    lemma_if_line(rest, lines, i, vars, funcs, w, base, fuel);
                },
                None => {
                    lemma_plain_line(text, i, is_export, vars, funcs, w, base, fuel);
                },
            },
        },
    }
}

proof fn lemma_while_lines(
    condition: Str,
    body: Seq<Str>,
    count: nat,
    vars: Rows<Val>,
    funcs: Rows<Fun>,
    w: World,
    base: Str,
    fuel: nat,
)
    ensures
        evolves(w, while_lines(condition, body, count, vars, funcs, w, base, fuel).world),
    decreases fuel, 9nat, MAX_LOOP_ITERATIONS - count,
{
    lemma_evaluated(condition, vars, funcs, w, fuel);
    let w1 = evaluated(condition, vars, funcs, w, fuel).1;
    lemma_run_lines_evolves(body, vars, funcs, w1, base, fuel);
    let ran = run_lines(body, vars, funcs, w1, base, fuel);
    if count + 1 < MAX_LOOP_ITERATIONS {
        lemma_while_lines(
            condition,
            body,
            count + 1,
            ran.vars,
            ran.funcs,
            ran.world,
            base,
            fuel,
        );
    }
}

proof fn lemma_for_lines(
    name: Str,
    items: Seq<Val>,
    i: nat,
    body: Seq<Str>,
    vars: Rows<Val>,
    funcs: Rows<Fun>,
    w: World,
    base: Str,
    fuel: nat,
)
    ensures
        evolves(w, for_lines(name, items, i, body, vars, funcs, w, base, fuel).world),
    decreases fuel, 8nat, items.len() - i,
{
    if i < items.len() {
        let local = put(vars, name, items[i as int]);
        let inside = hold_values(w, items.skip(i as int + 1));
        lemma_run_lines_evolves(body, local, funcs, inside, base, fuel);
        let ran = released(run_lines(body, local, funcs, inside, base, fuel));
        lemma_for_lines(
            name,
            items,
            i + 1,
            body,
            ran.vars,
            ran.funcs,
            ran.world,
            base,
            fuel,
        );
    }
}

proof fn lemma_for_line(
    rest: Str,
    body: Seq<Str>,
    vars: Rows<Val>,
    funcs: Rows<Fun>,
    w: World,
    base: Str,
    fuel: nat,
)
    ensures
        evolves(w, for_line(rest, body, vars, funcs, w, base, fuel).world),
    decreases fuel, 9nat, 0nat,
{
    if let Some(pair) = cut(bare(rest), " in "@) {
        lemma_evaluated(trim(pair.1), vars, funcs, w, fuel);
        let (r, after) = evaluated(trim(pair.1), vars, funcs, w, fuel);
        if let Ok(Val::List(items)) = r {
            lemma_for_lines(trim(pair.0), items, 0, body, vars, funcs, after, base, fuel);
        }
    }
}

proof fn lemma_if_line(
    rest: Str,
    lines: Seq<Str>,
    i: int,
    vars: Rows<Val>,
    funcs: Rows<Fun>,
    w: World,
    base: Str,
    fuel: nat,
)
    ensures
        evolves(w, if_line(rest, lines, i, vars, funcs, w, base, fuel).ran.world),
    decreases fuel, 9nat, 0nat,
{
    let end = block_end(lines, i + 1);
    lemma_evaluated(trim(bare(rest)), vars, funcs, w, fuel);
    let w1 = evaluated(trim(bare(rest)), vars, funcs, w, fuel).1;
    lemma_run_lines_evolves(block(lines, i + 1), vars, funcs, w1, base, fuel);
    lemma_run_lines_evolves(block(lines, end + 1), vars, funcs, w1, base, fuel);
}

proof fn lemma_plain_line(
    text: Str,
    i: int,
    is_export: bool,
    vars: Rows<Val>,
    funcs: Rows<Fun>,
    w: World,
    base: Str,
    fuel: nat,
)
    ensures
        evolves(w, plain_line(text, i, is_export, vars, funcs, w, base, fuel).world),
    decreases fuel, 9nat, 0nat,
{
    match stripped(text, "say "@) {
        Some(rest) => {
            lemma_evaluated(rest, vars, funcs, w, fuel);
        },
        None => match stripped(text, "import "@) {
            Some(rest) => {
                lemma_load_module_evolves(rest, vars, funcs, w, base, true, fuel);
            },
            None => match stripped(text, "use "@) {
                Some(rest) => {
                    lemma_load_module_evolves(trim(rest), vars, funcs, w, base, false, fuel);
                },
                None => match stripped(text, "let "@) {
                    Some(rest) => {
                        lemma_let_line(rest, i, is_export, vars, funcs, w, fuel);
                    },
                    None => {
                        lemma_evaluated(text, vars, funcs, w, fuel);
                        if let Some(pair) = cut(text, "="@) {
                            lemma_assign_line(trim(pair.0), pair.1, vars, funcs, w, fuel);
                        }
                    },
                },
            },
        },
    }
}

proof fn lemma_let_line(
    rest: Str,
    i: int,
    is_export: bool,
    vars: Rows<Val>,
    funcs: Rows<Fun>,
    w: World,
    fuel: nat,
)
    ensures
        evolves(w, let_line(rest, i, is_export, vars, funcs, w, fuel).world),
    decreases fuel, 3nat, 0nat,
{
    if let Some(pair) = cut(rest, "="@) {
        lemma_propagated_text(pair.1, vars, funcs, w, fuel);
    }
}

proof fn lemma_assign_line(
    target: Str,
    source: Str,
    vars: Rows<Val>,
    funcs: Rows<Fun>,
    w: World,
    fuel: nat,
)
    ensures
        evolves(w, assign_line(target, source, vars, funcs, w, fuel).world),
    decreases fuel, 3nat, 0nat,
{
    lemma_propagated_text(source, vars, funcs, w, fuel);
}

} // verus!
