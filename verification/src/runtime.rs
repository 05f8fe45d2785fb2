//! Builtin functions in an execution context: admission to the budget, tasks, statistics, clock.

use crate::ast::views;
use crate::builtins::{arity_error, arity_failure, call_pure_builtin, pure_builtin, told_some,
    with_arity};
use crate::records::{detached_stats_value, memory_stats, memory_stats_value, store_stats,
    utc_now_value, utc_record};
use crate::text::{byte_len, decimal, join2, join4, length_text, same, size, Str};
use crate::value::{clamp, cost, fail, lemma_value_view, told, told_opt, told_unit, Val, ZapValue};
use crate::world::{ask, cancel_task, checkpoint, fresh, join_task, reserve_bytes, reserve_output,
    rolled_back, schedule_task, task_error_name, task_ready, validate, pending_error,
    ExecutionContext, TaskError, World};
use vstd::prelude::*;

verus! {

// ---------------------------------------------------------------------------
// Tasks
// ---------------------------------------------------------------------------

pub open spec fn task_failure(id: usize, error: TaskError) -> Str {
    "language task "@ + decimal(id as int) + " failed: "@ + task_error_name(error)
}

pub fn task_failure_text(id: usize, error: TaskError) -> (r: String)
    ensures
        r@ == task_failure(id, error),
{
    join4("language task ", length_text(id).as_str(), " failed: ", error.name())
}

/// The value of a joined task, or the text of its failure.
pub open spec fn joined(w: World, id: usize, polls: Option<usize>) -> (Result<Val, Str>, World) {
    let (r, after) = join_task(w, id, polls);
    match r {
        Ok(value) => (Ok(value), after),
        Err(error) => (Err(task_failure(id, error)), after),
    }
}

pub fn join_scheduled(context: &mut ExecutionContext, id: usize, polls: Option<usize>) -> (r: Result<
    ZapValue,
    String,
>)
    ensures
        (told(r), final(context)@) == joined(old(context)@, id, polls),
{
    match context.join_language_task(id, polls) {
        Ok(value) => Ok(value),
        Err(error) => Err(task_failure_text(id, error)),
    }
}

pub open spec fn spawned(args: Seq<Val>, w: World) -> (Result<Val, Str>, World) {
    match args[0] {
        Val::Future(value) => {
            let (r, after) = schedule_task(w, *value);
            match r {
                Ok(id) => (Ok(Val::ScheduledFuture(id)), after),
                Err(error) => (Err(error), after),
            }
        },
        Val::ScheduledFuture(id) => (Ok(Val::ScheduledFuture(id)), w),
        _ => (Err("spawn expects a future value"@), w),
    }
}

pub open spec fn task_joined(args: Seq<Val>, w: World) -> (Result<Val, Str>, World) {
    match args[0] {
        Val::Future(value) => (Ok(*value), w),
        Val::ScheduledFuture(id) => joined(w, id, None),
        _ => (Err("task_join expects a future value"@), w),
    }
}

pub open spec fn task_is_ready(args: Seq<Val>, w: World) -> (Result<Val, Str>, World) {
    match args[0] {
        Val::Future(_) => (Ok(Val::Bool(true)), w),
        Val::ScheduledFuture(id) => (Ok(Val::Bool(task_ready(w, id))), w),
        _ => (Err("task_is_ready expects a future value"@), w),
    }
}

pub open spec fn task_cancelled(args: Seq<Val>, w: World) -> (Result<Val, Str>, World) {
    match args[0] {
        Val::ScheduledFuture(id) => {
            let (r, after) = cancel_task(w, id);
            (Ok(Val::Bool(r)), after)
        },
        Val::Future(_) => (Ok(Val::Bool(false)), w),
        _ => (Err("task_cancel expects a future value"@), w),
    }
}

/// A number of polls, as far as the machine can count them.
pub open spec fn poll_count(ticks: i64) -> usize {
    if ticks > usize::MAX {
        usize::MAX
    } else {
        ticks as usize
    }
}

pub open spec fn task_joined_in_time(args: Seq<Val>, w: World) -> (Result<Val, Str>, World) {
    match args[1] {
        Val::Number(ticks) => if ticks < 0 {
            (Err("task_join_timeout expects a non-negative poll budget"@), w)
        } else {
            match args[0] {
                Val::ScheduledFuture(id) => joined(w, id, Some(poll_count(ticks))),
                Val::Future(value) => (Ok(*value), w),
                _ => (Err("task_join_timeout expects a future value"@), w),
            }
        },
        _ => (Err("task_join_timeout expects poll budget as a number"@), w),
    }
}

pub open spec fn with_arity_in(
    name: Str,
    count: int,
    args: Seq<Val>,
    w: World,
    outcome: (Result<Val, Str>, World),
) -> (Result<Val, Str>, World) {
    if args.len() == count {
        outcome
    } else {
        (Err(arity_error(name, count, args.len() as int)), w)
    }
}

/// The reading of the host's clock.
pub open spec fn clock_record(reply: Result<Val, Str>) -> Result<Val, Str> {
    match reply {
        Err(error) => Err("utc_now failed: "@ + error),
        Ok(Val::List(parts)) => if parts.len() == 2 {
            match (parts[0], parts[1]) {
                (Val::Number(seconds), Val::Number(nanos)) => if seconds < 0 || nanos < 0 || nanos
                    > 999_999_999 {
                    Err("utc_now failed: invalid clock reading"@)
                } else {
                    utc_record(seconds as u64, nanos as u32)
                },
                _ => Err("utc_now failed: invalid clock reading"@),
            }
        } else {
            Err("utc_now failed: invalid clock reading"@)
        },
        Ok(_) => Err("utc_now failed: invalid clock reading"@),
    }
}

pub open spec fn utc_now(w: World) -> (Result<Val, Str>, World) {
    let (reply, after) = ask(w, "clock"@, Seq::empty());
    (clock_record(reply), after)
}

/// A reply that has to be a number.
pub open spec fn number_reply(reply: Result<Val, Str>, operation: Str) -> Result<Val, Str> {
    match reply {
        Ok(Val::Number(n)) => Ok(Val::Number(n)),
        Ok(_) => Err(operation + " failed: invalid host reply"@),
        Err(error) => Err(error),
    }
}

/// The host computes the rounded square root.
pub open spec fn square_root(args: Seq<Val>, w: World) -> (Result<Val, Str>, World) {
    match args[0] {
        Val::Number(n) => if n < 0 {
            (Err("sqrt expects a non-negative number"@), w)
        } else {
            let (reply, after) = ask(w, "sqrt"@, seq![Val::Number(n)]);
            (number_reply(reply, "sqrt"@), after)
        },
        _ => (Err("sqrt expects a non-negative number"@), w),
    }
}

/// The builtins that read or change the context.
pub open spec fn context_builtin(name: Str, args: Seq<Val>, w: World) -> Option<
    (Result<Val, Str>, World),
> {
    if name == "memory_stats"@ {
        Some((with_arity(name, 0, args, Ok(memory_stats(w))), w))
    } else if name == "spawn"@ {
        Some(with_arity_in(name, 1, args, w, spawned(args, w)))
    } else if name == "task_join"@ {
        Some(with_arity_in(name, 1, args, w, task_joined(args, w)))
    } else if name == "task_is_ready"@ {
        Some(with_arity_in(name, 1, args, w, task_is_ready(args, w)))
    } else if name == "task_cancel"@ {
        Some(with_arity_in(name, 1, args, w, task_cancelled(args, w)))
    } else if name == "task_join_timeout"@ {
        Some(with_arity_in(name, 2, args, w, task_joined_in_time(args, w)))
    } else if name == "utc_now"@ {
        Some(with_arity_in(name, 0, args, w, utc_now(w)))
    } else if name == "sqrt"@ {
        Some(with_arity_in(name, 1, args, w, square_root(args, w)))
    } else {
        None
    }
}

fn do_spawn(args: &Vec<ZapValue>, context: &mut ExecutionContext) -> (r: Result<ZapValue, String>)
    requires
        args@.len() == 1,
    ensures
        (told(r), final(context)@) == spawned(views(args@), old(context)@),
{
    match &args[0] {
        ZapValue::Future(value) => match context.schedule_language_task(value.copy()) {
            Ok(id) => Ok(ZapValue::ScheduledFuture(id)),
            Err(error) => Err(error),
        },
        ZapValue::ScheduledFuture(id) => Ok(ZapValue::ScheduledFuture(*id)),
        _ => fail("spawn expects a future value"),
    }
}

fn do_task_join(args: &Vec<ZapValue>, context: &mut ExecutionContext) -> (r: Result<
    ZapValue,
    String,
>)
    requires
        args@.len() == 1,
    ensures
        (told(r), final(context)@) == task_joined(views(args@), old(context)@),
{
    match &args[0] {
        ZapValue::Future(value) => Ok(value.copy()),
        ZapValue::ScheduledFuture(id) => join_scheduled(context, *id, None),
        _ => fail("task_join expects a future value"),
    }
}

fn do_task_is_ready(args: &Vec<ZapValue>, context: &ExecutionContext) -> (r: Result<
    ZapValue,
    String,
>)
    requires
        args@.len() == 1,
    ensures
        (told(r), context@) == task_is_ready(views(args@), context@),
{
    match &args[0] {
        ZapValue::Future(_) => Ok(ZapValue::Bool(true)),
        ZapValue::ScheduledFuture(id) => Ok(ZapValue::Bool(context.language_task_is_ready(*id))),
        _ => fail("task_is_ready expects a future value"),
    }
}

fn do_task_cancel(args: &Vec<ZapValue>, context: &mut ExecutionContext) -> (r: Result<
    ZapValue,
    String,
>)
    requires
        args@.len() == 1,
    ensures
        (told(r), final(context)@) == task_cancelled(views(args@), old(context)@),
{
    match &args[0] {
        ZapValue::ScheduledFuture(id) => Ok(ZapValue::Bool(context.cancel_language_task(*id))),
        ZapValue::Future(_) => Ok(ZapValue::Bool(false)),
        _ => fail("task_cancel expects a future value"),
    }
}

fn do_task_join_timeout(args: &Vec<ZapValue>, context: &mut ExecutionContext) -> (r: Result<
    ZapValue,
    String,
>)
    requires
        args@.len() == 2,
    ensures
        (told(r), final(context)@) == task_joined_in_time(views(args@), old(context)@),
{
    match &args[1] {
        ZapValue::Number(ticks) => {
            if *ticks < 0 {
                return fail("task_join_timeout expects a non-negative poll budget");
            }
            match &args[0] {
                ZapValue::ScheduledFuture(id) => {
                    let polls: usize = if *ticks as u64 > usize::MAX as u64 {
                        usize::MAX
                    } else {
                        *ticks as usize
                    };
                    join_scheduled(context, *id, Some(polls))
                },
                ZapValue::Future(value) => Ok(value.copy()),
                _ => fail("task_join_timeout expects a future value"),
            }
        },
        _ => fail("task_join_timeout expects poll budget as a number"),
    }
}

fn read_clock(reply: Result<ZapValue, String>) -> (r: Result<ZapValue, String>)
    ensures
        told(r) == clock_record(told(reply)),
{
    broadcast use lemma_value_view;

    match reply {
        Err(error) => Err(join2("utc_now failed: ", error.as_str())),
        Ok(ZapValue::List(parts)) => {
            if parts.len() != 2 {
                return fail("utc_now failed: invalid clock reading");
            }
            match (&parts[0], &parts[1]) {
                (ZapValue::Number(seconds), ZapValue::Number(nanos)) => {
                    if *seconds < 0 || *nanos < 0 || *nanos > 999_999_999 {
                        return fail("utc_now failed: invalid clock reading");
                    }
                    utc_now_value(*seconds as u64, *nanos as u32)
                },
                _ => fail("utc_now failed: invalid clock reading"),
            }
        },
        Ok(_) => fail("utc_now failed: invalid clock reading"),
    }
}

pub fn read_number(reply: Result<ZapValue, String>, operation: &str) -> (r: Result<
    ZapValue,
    String,
>)
    ensures
        told(r) == number_reply(told(reply), operation@),
{
    match reply {
        Ok(ZapValue::Number(n)) => Ok(ZapValue::Number(n)),
        Ok(_) => Err(join2(operation, " failed: invalid host reply")),
        Err(error) => Err(error),
    }
}

fn do_utc_now(context: &mut ExecutionContext) -> (r: Result<ZapValue, String>)
    ensures
        (told(r), final(context)@) == utc_now(old(context)@),
{
    let nothing: Vec<ZapValue> = Vec::new();
    assert(views(nothing@) =~= Seq::<Val>::empty());
    let reply = context.ask("clock", nothing);
    read_clock(reply)
}

fn do_sqrt(args: &Vec<ZapValue>, context: &mut ExecutionContext) -> (r: Result<ZapValue, String>)
    requires
        args@.len() == 1,
    ensures
        (told(r), final(context)@) == square_root(views(args@), old(context)@),
{
    match &args[0] {
        ZapValue::Number(n) => {
            if *n < 0 {
                return fail("sqrt expects a non-negative number");
            }
            let mut arguments: Vec<ZapValue> = Vec::new();
            arguments.push(ZapValue::Number(*n));
            assert(views(arguments@) =~= seq![Val::Number(*n)]);
            let reply = context.ask("sqrt", arguments);
            read_number(reply, "sqrt")
        },
        _ => fail("sqrt expects a non-negative number"),
    }
}

pub open spec fn told_in(r: Option<Result<ZapValue, String>>, w: World) -> Option<
    (Result<Val, Str>, World),
> {
    match r {
        Some(result) => Some((told(result), w)),
        None => None,
    }
}

fn call_context_builtin(name: &str, args: &Vec<ZapValue>, context: &mut ExecutionContext) -> (r:
    Option<Result<ZapValue, String>>)
    ensures
        told_in(r, final(context)@) == context_builtin(name@, views(args@), old(context)@),
        r is None ==> final(context)@ == old(context)@,
{
    let n: usize = args.len();
    if same(name, "memory_stats") {
        if n != 0 {
            return Some(arity_failure(name, 0, n));
        }
        Some(Ok(memory_stats_value(context)))
    } else if same(name, "spawn") {
        if n != 1 {
            return Some(arity_failure(name, 1, n));
        }
        Some(do_spawn(args, context))
    } else if same(name, "task_join") {
        if n != 1 {
            return Some(arity_failure(name, 1, n));
        }
        Some(do_task_join(args, context))
    } else if same(name, "task_is_ready") {
        if n != 1 {
            return Some(arity_failure(name, 1, n));
        }
        Some(do_task_is_ready(args, context))
    } else if same(name, "task_cancel") {
        if n != 1 {
            return Some(arity_failure(name, 1, n));
        }
        Some(do_task_cancel(args, context))
    } else if same(name, "task_join_timeout") {
        if n != 2 {
            return Some(arity_failure(name, 2, n));
        }
        Some(do_task_join_timeout(args, context))
    } else if same(name, "utc_now") {
        if n != 0 {
            return Some(arity_failure(name, 0, n));
        }
        Some(do_utc_now(context))
    } else if same(name, "sqrt") {
        if n != 1 {
            return Some(arity_failure(name, 1, n));
        }
        Some(do_sqrt(args, context))
    } else {
        None
    }
}

// ---------------------------------------------------------------------------
// Builtins with admission
// ---------------------------------------------------------------------------

/// Tests the arguments from number `i` on against the runtime limits.
pub open spec fn validate_all(args: Seq<Val>, i: nat, w: World) -> (Result<(), Str>, World)
    decreases args.len() - i,
{
    if i >= args.len() {
        (Ok(()), w)
    } else {
        let (r, after) = validate(w, args[i as int]);
        match r {
            Err(error) => (Err(error), after),
            Ok(_) => validate_all(args, i + 1, after),
        }
    }
}

/// What a builtin computes, if there is one of that name.
pub open spec fn computed(name: Str, args: Seq<Val>, w: World) -> (Result<Option<Val>, Str>, World) {
    match context_builtin(name, args, w) {
        Some(outcome) => match outcome.0 {
            Ok(value) => (Ok(Some(value)), outcome.1),
            Err(error) => (Err(error), outcome.1),
        },
        None => match pure_builtin(name, args, w) {
            Some(Ok(value)) => (Ok(Some(value)), w),
            Some(Err(error)) => (Err(error), w),
            None => (Ok(None), w),
        },
    }
}

/// Charges the result of a builtin: its logical size, and the bytes of a text result.
pub open spec fn admitted(value: Val, w: World) -> (Result<Option<Val>, Str>, World) {
    let (r, charged) = if value is ScheduledFuture {
        (Ok(()), w)
    } else {
        reserve_bytes(w, cost(value))
    };
    match r {
        Err(error) => (Err(error), charged),
        Ok(_) => match value {
            Val::Text(s) => {
                let (o, after) = reserve_output(charged, clamp(size(s) as int));
                match o {
                    Err(error) => (Err(error), after),
                    Ok(_) => (Ok(Some(value)), after),
                }
            },
            _ => (Ok(Some(value)), charged),
        },
    }
}

/// The logical bytes of a call of a builtin.
pub open spec fn call_cost(name: Str, count: nat) -> u64 {
    clamp(size(name) + 8 * count as int)
}

pub open spec fn builtin_inner(name: Str, args: Seq<Val>, w: World) -> (
    Result<Option<Val>, Str>,
    World,
) {
    let (charge, charged) = reserve_bytes(w, call_cost(name, args.len()));
    match charge {
        Err(error) => (Err(error), charged),
        Ok(_) => {
            let (limits, tested) = if name == "memory_stats"@ {
                (Ok(()), charged)
            } else {
                validate_all(args, 0, charged)
            };
            match limits {
                Err(error) => (Err(error), tested),
                Ok(_) => {
                    let (result, after) = computed(name, args, tested);
                    match result {
                        Ok(Some(value)) => admitted(value, after),
                        other => (other, after),
                    }
                },
            }
        },
    }
}

/// A call of a builtin. A call that fails, or finds no builtin of its name, gives back what it
/// took from the budget.
pub open spec fn builtin(name: Str, args: Seq<Val>, w: World) -> (Result<Option<Val>, Str>, World) {
    let (result, after) = builtin_inner(name, args, w);
    match result {
        Ok(Some(value)) => (Ok(Some(value)), after),
        other => (other, rolled_back(after, checkpoint(w))),
    }
}

fn validate_arguments(args: &Vec<ZapValue>, context: &mut ExecutionContext) -> (r: Result<
    (),
    String,
>)
    ensures
        (told_unit(r), final(context)@) == validate_all(views(args@), 0, old(context)@),
{
    let mut i: usize = 0;
    while i < args.len()
        invariant
            i <= args@.len(),
            validate_all(views(args@), 0, old(context)@) == validate_all(
                views(args@),
                i as nat,
                context@,
            ),
        decreases args.len() - i,
    {
        match context.validate(&args[i]) {
            Err(error) => {
                return Err(error);
            },
            Ok(_) => {},
        }
        i += 1;
    }
    Ok(())
}

fn charge_result(value: ZapValue, context: &mut ExecutionContext) -> (r: Result<Option<ZapValue>, String>)
    ensures
        (told_opt(r), final(context)@) == admitted(value@, old(context)@),
{
    let scheduled = match &value {
        ZapValue::ScheduledFuture(_) => true,
        _ => false,
    };
    if !scheduled {
        match context.reserve_value(&value) {
            Err(error) => {
                return Err(error);
            },
            Ok(_) => {},
        }
    }
    if let ZapValue::Text(s) = &value {
        match context.reserve_output(byte_len(s.as_str()) as u64) {
            Err(error) => {
                return Err(error);
            },
            Ok(_) => {},
        }
    }
    Ok(Some(value))
}

fn call_charge(name: &str, count: usize) -> (r: u64)
    ensures
        r == call_cost(name@, count as nat),
{
    let wide: u128 = byte_len(name) as u128 + 8 * (count as u128);
    if wide > u64::MAX as u128 {
        u64::MAX
    } else {
        wide as u64
    }
}

fn direct_builtin_with_context_inner(
    name: &str,
    args: &Vec<ZapValue>,
    context: &mut ExecutionContext,
) -> (r: Result<Option<ZapValue>, String>)
    ensures
        (told_opt(r), final(context)@) == builtin_inner(name@, views(args@), old(context)@),
{
    match context.reserve_bytes(call_charge(name, args.len())) {
        Err(error) => {
            return Err(error);
        },
        Ok(_) => {},
    }
    if !same(name, "memory_stats") {
        match validate_arguments(args, context) {
            Err(error) => {
                return Err(error);
            },
            Ok(_) => {},
        }
    }
    match call_context_builtin(name, args, context) {
        Some(Ok(value)) => {
            return charge_result(value, context);
        },
        Some(Err(error)) => {
            return Err(error);
        },
        None => {},
    }
    match call_pure_builtin(name, args, context) {
        Some(Ok(value)) => charge_result(value, context),
        Some(Err(error)) => Err(error),
        None => Ok(None),
    }
}

/// Calls a builtin in a context. The call and its result are charged to the budget; a call that
/// fails leaves the budget as it was.
pub fn direct_builtin_with_context(
    name: &str,
    args: &Vec<ZapValue>,
    context: &mut ExecutionContext,
) -> (r: Result<Option<ZapValue>, String>)
    ensures
        (told_opt(r), final(context)@) == builtin(name@, views(args@), old(context)@),
{
    let mark = context.memory_checkpoint();
    let result = direct_builtin_with_context_inner(name, args, context);
    let keep = match &result {
        Ok(Some(_)) => true,
        _ => false,
    };
    if !keep {
        context.rollback_memory(mark);
    }
    result
}

// ---------------------------------------------------------------------------
// Builtins without a context
// ---------------------------------------------------------------------------

/// The limits of the arguments, the first that is broken.
pub open spec fn arguments_limited(args: Seq<Val>, i: nat) -> Result<(), Str>
    decreases args.len() - i,
{
    if i >= args.len() {
        Ok(())
    } else {
        match crate::value::within_limits(args[i as int]) {
            Err(error) => Err(error),
            Ok(_) => arguments_limited(args, i + 1),
        }
    }
}

/// Without a context there is no budget, no task and no host.
pub open spec fn detached(name: Str, args: Seq<Val>, reply: Result<Val, Str>) -> Option<
    Result<Val, Str>,
> {
    if name == "memory_stats"@ {
        Some(with_arity(name, 0, args, Ok(Val::Dict(store_stats(fresh())))))
    } else if name == "spawn"@ {
        Some(
            with_arity(
                name,
                1,
                args,
                match args[0] {
                    Val::Future(value) => Ok(Val::Future(value)),
                    Val::ScheduledFuture(id) => Ok(Val::ScheduledFuture(id)),
                    _ => Err("spawn expects a future value"@),
                },
            ),
        )
    } else if name == "task_join"@ {
        Some(
            with_arity(
                name,
                1,
                args,
                match args[0] {
                    Val::Future(value) => Ok(*value),
                    Val::ScheduledFuture(_) => Err("task_join requires an execution context"@),
                    _ => Err("task_join expects a future value"@),
                },
            ),
        )
    } else if name == "task_is_ready"@ {
        Some(
            with_arity(
                name,
                1,
                args,
                match args[0] {
                    Val::Future(_) => Ok(Val::Bool(true)),
                    Val::ScheduledFuture(_) => Err("task_is_ready requires an execution context"@),
                    _ => Err("task_is_ready expects a future value"@),
                },
            ),
        )
    } else if name == "task_cancel"@ {
        Some(
            with_arity(
                name,
                1,
                args,
                match args[0] {
                    Val::Future(_) => Ok(Val::Bool(false)),
                    Val::ScheduledFuture(_) => Err("task_cancel requires an execution context"@),
                    _ => Err("task_cancel expects a future value"@),
                },
            ),
        )
    } else if name == "task_join_timeout"@ {
        Some(
            with_arity(
                name,
                2,
                args,
                match args[1] {
                    Val::Number(ticks) => if ticks < 0 {
                        Err("task_join_timeout expects a non-negative poll budget"@)
                    } else {
                        match args[0] {
                            Val::ScheduledFuture(_) => Err(
                                "task_join_timeout requires an execution context"@,
                            ),
                            Val::Future(value) => Ok(*value),
                            _ => Err("task_join_timeout expects a future value"@),
                        }
                    },
                    _ => Err("task_join_timeout expects poll budget as a number"@),
                },
            ),
        )
    } else if name == "utc_now"@ {
        Some(with_arity(name, 0, args, clock_record(reply)))
    } else if name == "sqrt"@ {
        Some(
            with_arity(
                name,
                1,
                args,
                match args[0] {
                    Val::Number(n) => if n < 0 {
                        Err("sqrt expects a non-negative number"@)
                    } else {
                        number_reply(reply, "sqrt"@)
                    },
                    _ => Err("sqrt expects a non-negative number"@),
                },
            ),
        )
    } else {
        None
    }
}

/// The host's reply, if there is one.
pub open spec fn told_reply(reply: Option<Result<ZapValue, String>>) -> Result<Val, Str> {
    match reply {
        Some(r) => told(r),
        None => Err(pending_error()),
    }
}

/// A call of a builtin without a context; `reply` is what the host has to say of the clock or of a
/// square root.
pub open spec fn detached_builtin(name: Str, args: Seq<Val>, reply: Result<Val, Str>) -> Result<
    Option<Val>,
    Str,
> {
    match (if name == "memory_stats"@ {
        Ok(())
    } else {
        arguments_limited(args, 0)
    }) {
        Err(error) => Err(error),
        Ok(_) => match (match detached(name, args, reply) {
            Some(result) => Some(result),
            None => pure_builtin(name, args, fresh()),
        }) {
            Some(Ok(value)) => Ok(Some(value)),
            Some(Err(error)) => Err(error),
            None => Ok(None),
        },
    }
}

fn call_detached(
    name: &str,
    args: &Vec<ZapValue>,
    reply: Result<ZapValue, String>,
) -> (r: Option<Result<ZapValue, String>>)
    ensures
        told_some(r) == detached(name@, views(args@), told(reply)),
{
    let n: usize = args.len();
    if same(name, "memory_stats") {
        if n != 0 {
            return Some(arity_failure(name, 0, n));
        }
        Some(Ok(detached_stats_value()))
    } else if same(name, "spawn") {
        if n != 1 {
            return Some(arity_failure(name, 1, n));
        }
        Some(
            match &args[0] {
                ZapValue::Future(_) => Ok(args[0].copy()),
                ZapValue::ScheduledFuture(id) => Ok(ZapValue::ScheduledFuture(*id)),
                _ => fail("spawn expects a future value"),
            },
        )
    } else if same(name, "task_join") {
        if n != 1 {
            return Some(arity_failure(name, 1, n));
        }
        Some(
            match &args[0] {
                ZapValue::Future(value) => Ok(value.copy()),
                ZapValue::ScheduledFuture(_) => fail("task_join requires an execution context"),
                _ => fail("task_join expects a future value"),
            },
        )
    } else if same(name, "task_is_ready") {
        if n != 1 {
            return Some(arity_failure(name, 1, n));
        }
        Some(
            match &args[0] {
                ZapValue::Future(_) => Ok(ZapValue::Bool(true)),
                ZapValue::ScheduledFuture(_) => fail("task_is_ready requires an execution context"),
                _ => fail("task_is_ready expects a future value"),
            },
        )
    } else if same(name, "task_cancel") {
        if n != 1 {
            return Some(arity_failure(name, 1, n));
        }
        Some(
            match &args[0] {
                ZapValue::Future(_) => Ok(ZapValue::Bool(false)),
                ZapValue::ScheduledFuture(_) => fail("task_cancel requires an execution context"),
                _ => fail("task_cancel expects a future value"),
            },
        )
    } else if same(name, "task_join_timeout") {
        if n != 2 {
            return Some(arity_failure(name, 2, n));
        }
        Some(
            match &args[1] {
                ZapValue::Number(ticks) => if *ticks < 0 {
                    fail("task_join_timeout expects a non-negative poll budget")
                } else {
                    match &args[0] {
                        ZapValue::ScheduledFuture(_) => fail(
                            "task_join_timeout requires an execution context",
                        ),
                        ZapValue::Future(value) => Ok(value.copy()),
                        _ => fail("task_join_timeout expects a future value"),
                    }
                },
                _ => fail("task_join_timeout expects poll budget as a number"),
            },
        )
    } else if same(name, "utc_now") {
        if n != 0 {
            return Some(arity_failure(name, 0, n));
        }
        Some(read_clock(reply))
    } else if same(name, "sqrt") {
        if n != 1 {
            return Some(arity_failure(name, 1, n));
        }
        Some(
            match &args[0] {
                ZapValue::Number(n) => if *n < 0 {
                    fail("sqrt expects a non-negative number")
                } else {
                    read_number(reply, "sqrt")
                },
                _ => fail("sqrt expects a non-negative number"),
            },
        )
    } else {
        None
    }
}

/// Calls a builtin without a context. The clock and square roots are read from the host's reply.
pub fn direct_builtin(
    name: &str,
    args: &Vec<ZapValue>,
    reply: Option<Result<ZapValue, String>>,
) -> (r: Result<Option<ZapValue>, String>)
    ensures
        told_opt(r) == detached_builtin(name@, views(args@), told_reply(reply)),
{
    if !same(name, "memory_stats") {
        let mut i: usize = 0;
        while i < args.len()
            invariant
                i <= args@.len(),
                name@ != "memory_stats"@,
                arguments_limited(views(args@), 0) == arguments_limited(views(args@), i as nat),
            decreases args.len() - i,
        {
            match args[i].validate_memory_limits() {
                Err(error) => {
                    return Err(error);
                },
                Ok(_) => {},
            }
            i += 1;
        }
    }
    let answer = match reply {
        Some(answer) => answer,
        None => fail("host call pending"),
    };
    match call_detached(name, args, answer) {
        Some(Ok(value)) => {
            return Ok(Some(value));
        },
        Some(Err(error)) => {
            return Err(error);
        },
        None => {},
    }
    match call_pure_builtin(name, args, &ExecutionContext::new()) {
        Some(Ok(value)) => Ok(Some(value)),
        Some(Err(error)) => Err(error),
        None => Ok(None),
    }
}

} // verus!
