//! Laws of the language: what holds of every program, every call and every context.

use crate::assets::{asset_readable, asset_within, MAX_STATIC_ASSET_BYTES};
use crate::ast::{ExprM, StmtM};
use crate::classes::{descends, parent, parent_key, same_or_subclass};
use crate::builtins::text_values;
use crate::collections::{all_numbers, all_texts, number_values, numbers_in, sort_value, texts_in};
use crate::evolution::{evolves, open_to_all, tasks_counted, within_budget};
use crate::host::{confined, entered_workspace, is_file_builtin, MAX_PROCESS_OUTPUT_BYTES};
use crate::modules::{attached, exported, fn_prefix, import_cycle, import_path, imported_funcs,
    imported_vars, kept_back, merged, own_name, place_of, var_prefix};
use crate::network::{address_of, blocked, destination, judged};
use crate::numbers::{lemma_number_slot, lemma_sorted_numbers, lemma_sorted_texts_len,
    lemma_text_slot, rising, sorted_numbers, sorted_texts, text_slot};
use crate::order::{lemma_call_function_tidy, lemma_call_method_tidy, lemma_eval_tidy,
    lemma_load_module_tidy, lemma_run_lines_tidy, lemma_run_program_tidy, lemma_run_tidy};
use crate::paths::{lies_within, parent_path, pushed};
use crate::liveness::{holds, known, live, live_below, live_objects, rooted, sustained, Ref};
use crate::progress::{lemma_load_module_evolves, lemma_run_evolves, lemma_run_lines_evolves,
    lemma_run_program_evolves};
use crate::records::duration;
use crate::registry::{inherited, without_prefixes};
use crate::runtime::{builtin, builtin_inner, call_cost, computed, context_builtin, validate_all};
use crate::semantics::{answered, call_frame, call_function, call_method, call_names, construct,
    eval, load_module, module_file, module_source, option_values, released, run, run_body,
    run_lines, run_program, run_try, serve, served_record, ArgM, FlowM, Ran};
use crate::system::{external_builtin, is_environment_builtin, output_taken};
use crate::table::{get, lemma_get_at, lemma_get_found, lemma_get_put_other, lemma_get_put_same,
    lemma_get_without, lemma_less_chain, lemma_put_ordered, meaning, ordered, put, put_all,
    put_all_from, slot, without, Rows};
use crate::text::{digit_char, digits, has_prefix, is_alnum, lemma_less_total, less, made_of, size,
    split, Str};
use crate::tidiness::{sorted, tidy};
use crate::value::{Fun, Val};
use crate::web::{body_read, extra_headers, given_id, has_newline, head_end, head_read,
    header_reserved, headers_read, numbered_id, path_params, request_id, request_read,
    request_waits, routed, segments_match, HeadM, RequestM};
use crate::webcheck::{field_outcome, fields_outcome, leads, missing_handler, registered,
    registration, route_shape, route_table, routes_checked, unknown_field, validated_request};
use crate::world::{ask, assign, borrow_error, cancel_task, checkpoint, fields_of, hold_scope,
    hold_values, holder, hosted, insert_local, join_task, lookup, names_of, parent_of,
    reserve_bytes, schedule_task, set_field, snapshot, start_loading, stop_loading, validate, FrameM,
    ModuleM, TaskError, TaskState, World};
use vstd::prelude::*;

verus! {

// ---------------------------------------------------------------------------
// Runs
// ---------------------------------------------------------------------------

/// A run gives every level of execution back that it entered, and leaves no module in the list of
/// those that are being loaded, however it ends.
pub proof fn law_levels_are_given_back(
    program: Seq<StmtM>,
    vars: Rows<Val>,
    funcs: Rows<Fun>,
    w: World,
    base: Str,
    fuel: nat,
)
    ensures
        run_program(program, vars, funcs, w, base, fuel).world.depth == w.depth,
        run_program(program, vars, funcs, w, base, fuel).world.loading == w.loading,
{
    lemma_run_program_evolves(program, vars, funcs, w, base, fuel);
    reveal(evolves);
}

/// The same of lines.
pub proof fn law_lines_give_levels_back(
    lines: Seq<Str>,
    vars: Rows<Val>,
    funcs: Rows<Fun>,
    w: World,
    base: Str,
    fuel: nat,
)
    ensures
        run_lines(lines, vars, funcs, w, base, fuel).world.depth == w.depth,
        run_lines(lines, vars, funcs, w, base, fuel).world.loading == w.loading,
{
    lemma_run_lines_evolves(lines, vars, funcs, w, base, fuel);
    reveal(evolves);
}

/// No program spends more than the limits of its budget, and none changes the limits.
pub proof fn law_spending_stays_within_the_budget(
    program: Seq<StmtM>,
    vars: Rows<Val>,
    funcs: Rows<Fun>,
    w: World,
    base: Str,
    fuel: nat,
)
    requires
        within_budget(w.budget),
    ensures
        ({
            let after = run_program(program, vars, funcs, w, base, fuel).world.budget;
            &&& within_budget(after)
            &&& after.max_bytes == w.budget.max_bytes
            &&& after.max_output == w.budget.max_output
            &&& after.max_tasks == w.budget.max_tasks
        }),
{
    lemma_run_program_evolves(program, vars, funcs, w, base, fuel);
    reveal(evolves);
}

/// The budget counts exactly the tasks that are still scheduled: none is released twice.
pub proof fn law_live_tasks_are_counted(
    program: Seq<StmtM>,
    vars: Rows<Val>,
    funcs: Rows<Fun>,
    w: World,
    base: Str,
    fuel: nat,
)
    requires
        tasks_counted(w),
    ensures
        tasks_counted(run_program(program, vars, funcs, w, base, fuel).world),
{
    lemma_run_program_evolves(program, vars, funcs, w, base, fuel);
    reveal(evolves);
}

/// A task that has ended stays as it ended, and every task keeps its value.
pub proof fn law_ended_tasks_stay_ended(
    program: Seq<StmtM>,
    vars: Rows<Val>,
    funcs: Rows<Fun>,
    w: World,
    base: Str,
    fuel: nat,
    i: int,
)
    requires
        0 <= i < w.tasks.len(),
    ensures
        ({
            let after = run_program(program, vars, funcs, w, base, fuel).world;
            &&& i < after.tasks.len()
            &&& after.tasks[i].value == w.tasks[i].value
            &&& w.tasks[i].state != TaskState::Scheduled ==> after.tasks[i].state
                == w.tasks[i].state
        }),
{
    lemma_run_program_evolves(program, vars, funcs, w, base, fuel);
    reveal(evolves);
}

/// While the fields of an object are held, no program changes them.
pub proof fn law_held_objects_stay(
    program: Seq<StmtM>,
    vars: Rows<Val>,
    funcs: Rows<Fun>,
    w: World,
    base: Str,
    fuel: nat,
    id: int,
)
    requires
        0 <= id < w.cells.len(),
        w.cells[id].held,
    ensures
        ({
            let after = run_program(program, vars, funcs, w, base, fuel).world;
            id < after.cells.len() && after.cells[id] == w.cells[id]
        }),
{
    lemma_run_program_evolves(program, vars, funcs, w, base, fuel);
    reveal(evolves);
}

/// A module that has been loaded once is never loaded anew: it stays in the cache as it is.
pub proof fn law_loaded_modules_stay(
    program: Seq<StmtM>,
    vars: Rows<Val>,
    funcs: Rows<Fun>,
    w: World,
    base: Str,
    fuel: nat,
    file: Str,
)
    requires
        ordered(w.modules),
        get(w.modules, file) is Some,
    ensures
        get(run_program(program, vars, funcs, w, base, fuel).world.modules, file) == get(
            w.modules,
            file,
        ),
{
    lemma_run_program_evolves(program, vars, funcs, w, base, fuel);
    reveal(evolves);
}

/// What a program has said stays said; more is only added behind it. While a host call waits for
/// its reply nothing is added, and the call stays the one that waits.
pub proof fn law_output_is_only_added(
    program: Seq<StmtM>,
    vars: Rows<Val>,
    funcs: Rows<Fun>,
    w: World,
    base: Str,
    fuel: nat,
)
    ensures
        ({
            let after = run_program(program, vars, funcs, w, base, fuel).world;
            &&& w.output.is_prefix_of(after.output)
            &&& after.replies == w.replies
            &&& w.pending is Some ==> after.output == w.output && after.pending == w.pending
        }),
{
    lemma_run_program_evolves(program, vars, funcs, w, base, fuel);
    reveal(evolves);
}

/// An untrusted run stays untrusted, and whatever it is told, the host call that it leaves
/// waiting is one of those that are open to all: never one on files, the environment, processes
/// or requests to other hosts.
pub proof fn law_untrusted_runs_are_restricted(
    program: Seq<StmtM>,
    vars: Rows<Val>,
    funcs: Rows<Fun>,
    w: World,
    base: Str,
    fuel: nat,
)
    requires
        w.untrusted,
        w.pending is None,
    ensures
        ({
            let after = run_program(program, vars, funcs, w, base, fuel).world;
            &&& after.untrusted
            &&& after.pending is Some ==> open_to_all(after.pending->0)
        }),
{
    lemma_run_program_evolves(program, vars, funcs, w, base, fuel);
    reveal(evolves);
}

// ---------------------------------------------------------------------------
// Failures
// ---------------------------------------------------------------------------

/// A failed evaluation leaves the counters of the budget as they were.
pub proof fn law_failed_evaluations_cost_nothing(
    e: ExprM,
    vars: Rows<Val>,
    funcs: Rows<Fun>,
    w: World,
    fuel: nat,
)
    requires
        eval(e, vars, funcs, w, fuel).0 is Err,
    ensures
        checkpoint(eval(e, vars, funcs, w, fuel).1) == checkpoint(w),
{
}

/// A failed construction leaves the counters of the budget as they were.
pub proof fn law_failed_constructions_cost_nothing(
    args: Seq<Val>,
    vars: Rows<Val>,
    funcs: Rows<Fun>,
    w: World,
    fuel: nat,
)
    requires
        construct(args, vars, funcs, w, fuel).0 is Err,
    ensures
        checkpoint(construct(args, vars, funcs, w, fuel).1) == checkpoint(w),
{
}

proof fn lemma_validate_all_keeps_tasks(args: Seq<Val>, i: nat, w: World)
    ensures
        validate_all(args, i, w).1.tasks == w.tasks,
        validate_all(args, i, w).1.budget.tasks == w.budget.tasks,
    decreases args.len() - i,
{
    if i < args.len() {
        lemma_validate_all_keeps_tasks(args, i + 1, validate(w, args[i as int]).1);
    }
}

proof fn lemma_context_builtin_keeps_tasks(name: Str, args: Seq<Val>, w: World)
    requires
        !has_prefix(name, "task_"@),
    ensures
        context_builtin(name, args, w) matches Some(outcome) ==> {
            ||| outcome.1.tasks == w.tasks && outcome.1.budget.tasks == w.budget.tasks
            ||| outcome.0 matches Ok(value) && value is ScheduledFuture
        },
{
    reveal_strlit("task_");
    reveal_strlit("task_join");
    reveal_strlit("task_cancel");
    reveal_strlit("task_join_timeout");
    assert("task_join"@.subrange(0, 5) =~= "task_"@);
    assert("task_cancel"@.subrange(0, 5) =~= "task_"@);
    assert("task_join_timeout"@.subrange(0, 5) =~= "task_"@);
}

proof fn lemma_computed_keeps_tasks(name: Str, args: Seq<Val>, w: World)
    requires
        !has_prefix(name, "task_"@),
    ensures
        ({
            let (result, after) = computed(name, args, w);
            ||| after.tasks == w.tasks && after.budget.tasks == w.budget.tasks
            ||| result matches Ok(Some(value)) && value is ScheduledFuture
        }),
{
    lemma_context_builtin_keeps_tasks(name, args, w);
}

proof fn lemma_builtin_keeps_tasks(name: Str, args: Seq<Val>, w: World)
    requires
        !has_prefix(name, "task_"@),
        !(builtin_inner(name, args, w).0 matches Ok(Some(_))),
    ensures
        builtin_inner(name, args, w).1.tasks == w.tasks,
        builtin_inner(name, args, w).1.budget.tasks == w.budget.tasks,
{
    let charged = reserve_bytes(w, call_cost(name, args.len())).1;
    lemma_validate_all_keeps_tasks(args, 0, charged);
    let tested = if name == "memory_stats"@ {
        charged
    } else {
        validate_all(args, 0, charged).1
    };
    lemma_computed_keeps_tasks(name, args, tested);
}

/// A builtin that fails, or that there is not, leaves the counters of the budget as they were;
/// and the tasks and their count too, unless its name begins with `task_`.
pub proof fn law_failed_builtins_cost_nothing(name: Str, args: Seq<Val>, w: World)
    requires
        !(builtin(name, args, w).0 matches Ok(Some(_))),
    ensures
        checkpoint(builtin(name, args, w).1) == checkpoint(w),
        !has_prefix(name, "task_"@) ==> builtin(name, args, w).1.budget.tasks == w.budget.tasks
            && builtin(name, args, w).1.tasks == w.tasks,
{
    if !has_prefix(name, "task_"@) {
        lemma_builtin_keeps_tasks(name, args, w);
    }
}

/// Builtins on files and on the environment are refused in an untrusted run, and the context
/// stays as it is.
pub proof fn law_untrusted_builtins_are_refused(name: Str, args: Seq<Val>, w: World)
    requires
        w.untrusted,
        is_file_builtin(name) || is_environment_builtin(name),
    ensures
        external_builtin(name, args, w).0 is Err,
        external_builtin(name, args, w).1 == w,
{
}

/// Processes and requests are refused in an untrusted run, and the context stays as it is.
pub proof fn law_untrusted_network_is_refused(name: Str, args: Seq<Val>, w: World)
    requires
        w.untrusted,
        name == "process_run"@ || name == "http_get"@ || name == "http_request"@ || name
            == "http_serve_once"@,
    ensures
        external_builtin(name, args, w).0 is Err,
        external_builtin(name, args, w).1 == w,
{
    reveal_strlit("process_run");
    reveal_strlit("http_get");
    reveal_strlit("http_request");
    reveal_strlit("http_serve_once");
    reveal_strlit("now");
    reveal_strlit("sleep");
    reveal_strlit("exists");
    reveal_strlit("path_join");
    reveal_strlit("basename");
    reveal_strlit("dirname");
    reveal_strlit("url_parse");
    reveal_strlit("url_encode");
    reveal_strlit("url_decode");
    assert("http_get"@[0] == 'h' && "basename"@[0] == 'b');
}

// ---------------------------------------------------------------------------
// Tasks
// ---------------------------------------------------------------------------

/// A scheduled task is joined once: the first join gives its value and its place in the budget
/// back, and every later one is told so and changes nothing.
pub proof fn law_a_task_is_joined_once(w: World, value: Val, polls: Option<usize>)
    requires
        schedule_task(w, value).0 is Ok,
        w.budget.tasks < u64::MAX,
    ensures
        ({
            let id = schedule_task(w, value).0->Ok_0;
            let scheduled = schedule_task(w, value).1;
            let joined = join_task(scheduled, id, None).1;
            &&& join_task(scheduled, id, None).0 == Ok::<Val, TaskError>(value)
            &&& joined.budget == w.budget
            &&& join_task(joined, id, polls) == (
                Err::<Val, TaskError>(TaskError::AlreadyJoined),
                joined,
            )
            &&& cancel_task(joined, id) == (false, joined)
        }),
{
}

/// A scheduled task that is cancelled gives its place in the budget back once; a join is told
/// that it was cancelled and changes nothing.
pub proof fn law_a_task_is_cancelled_once(w: World, value: Val, polls: Option<usize>)
    requires
        schedule_task(w, value).0 is Ok,
        w.budget.tasks < u64::MAX,
    ensures
        ({
            let id = schedule_task(w, value).0->Ok_0;
            let cancelled = cancel_task(schedule_task(w, value).1, id);
            &&& cancelled.0
            &&& cancelled.1.budget == w.budget
            &&& join_task(cancelled.1, id, polls) == (
                Err::<Val, TaskError>(TaskError::Cancelled),
                cancelled.1,
            )
            &&& cancel_task(cancelled.1, id) == (false, cancelled.1)
        }),
{
}

/// A task that may not be polled times out, and stays so.
pub proof fn law_a_task_times_out(w: World, value: Val, polls: Option<usize>)
    requires
        schedule_task(w, value).0 is Ok,
        w.budget.tasks < u64::MAX,
    ensures
        ({
            let id = schedule_task(w, value).0->Ok_0;
            let late = join_task(schedule_task(w, value).1, id, Some(0));
            &&& late.0 == Err::<Val, TaskError>(TaskError::TimedOut)
            &&& late.1.budget == w.budget
            &&& join_task(late.1, id, polls) == (
                Err::<Val, TaskError>(TaskError::TimedOut),
                late.1,
            )
        }),
{
}

// ---------------------------------------------------------------------------
// Scopes
// ---------------------------------------------------------------------------

/// The chain of scopes stays when the names of one frame change but the frame goes on binding
/// what it bound.
proof fn lemma_holder_kept(frames: Seq<FrameM>, id: int, at: int, name: Str, value: Val)
    requires
        0 <= at < frames.len(),
        get(frames[at].names, name) is Some,
    ensures
        holder(
            frames.update(at, FrameM { names: put(frames[at].names, name, value), ..frames[at] }),
            id,
            name,
        ) == holder(frames, id, name),
    decreases id,
{
    lemma_get_put_same(frames[at].names, name, value);
    let next = frames.update(
        at,
        FrameM { names: put(frames[at].names, name, value), ..frames[at] },
    );
    if 0 <= id < frames.len() {
        assert(parent_of(next, id) == parent_of(frames, id));
        if let Some(p) = parent_of(frames, id) {
            lemma_holder_kept(frames, p, at, name, value);
        }
    }
}

proof fn lemma_holder_binds(frames: Seq<FrameM>, id: int, name: Str)
    ensures
        holder(frames, id, name) matches Some(h) ==> 0 <= h <= id && h < frames.len() && get(
            frames[h].names,
            name,
        ) is Some,
    decreases id,
{
    if 0 <= id < frames.len() {
        if let Some(p) = parent_of(frames, id) {
            lemma_holder_binds(frames, p, name);
        }
    }
}

/// What is assigned to a name is what the name stands for.
pub proof fn law_assignments_are_seen(w: World, id: int, name: Str, value: Val)
    requires
        0 <= id < w.frames.len(),
    ensures
        lookup(assign(w, id, name, value).frames, id, name) == Some(value),
{
    lemma_holder_binds(w.frames, id, name);
    match holder(w.frames, id, name) {
        Some(h) => {
            lemma_holder_kept(w.frames, id, h, name, value);
            lemma_get_put_same(w.frames[h].names, name, value);
        },
        None => {
            lemma_get_put_same(w.frames[id].names, name, value);
        },
    }
}

/// Closures over one variable share it: what one assigns, the others see.
pub proof fn law_closures_share_their_variables(
    w: World,
    writer: int,
    reader: int,
    name: Str,
    value: Val,
)
    requires
        holder(w.frames, writer, name) is Some,
        holder(w.frames, reader, name) == holder(w.frames, writer, name),
    ensures
        lookup(assign(w, writer, name, value).frames, reader, name) == Some(value),
{
    lemma_holder_binds(w.frames, writer, name);
    let h = holder(w.frames, writer, name)->0;
    lemma_holder_kept(w.frames, reader, h, name, value);
    lemma_get_put_same(w.frames[h].names, name, value);
}

proof fn lemma_holder_below(a: Seq<FrameM>, b: Seq<FrameM>, id: int, name: Str)
    requires
        id < a.len(),
        id < b.len(),
        forall|i: int| 0 <= i <= id ==> #[trigger] a[i] == b[i],
    ensures
        holder(a, id, name) == holder(b, id, name),
    decreases id,
{
    if 0 <= id {
        assert(a[id] == b[id]);
        assert(parent_of(a, id) == parent_of(b, id));
        if let Some(p) = parent_of(a, id) {
            lemma_holder_below(a, b, p, name);
        }
    }
}

/// A local variable hides an outer one in its frame, and is not seen from the frames outside it.
pub proof fn law_local_variables_shadow(w: World, id: int, name: Str, value: Val, outer: int)
    requires
        0 <= id < w.frames.len(),
        outer < id,
    ensures
        lookup(insert_local(w, id, name, value).frames, id, name) == Some(value),
        lookup(insert_local(w, id, name, value).frames, outer, name) == lookup(
            w.frames,
            outer,
            name,
        ),
{
    lemma_get_put_same(w.frames[id].names, name, value);
    let next = insert_local(w, id, name, value).frames;
    lemma_holder_below(w.frames, next, outer, name);
    lemma_holder_binds(w.frames, outer, name);
}

proof fn lemma_get_put_all<W>(d: Rows<W>, other: Rows<W>, i: int, key: Str)
    requires
        ordered(d),
        ordered(other),
        0 <= i <= other.len(),
    ensures
        ordered(put_all_from(d, other, i)),
        (exists|j: int| i <= j < other.len() && (#[trigger] other[j]).0 == key) ==> get(
            put_all_from(d, other, i),
            key,
        ) == get(other, key),
        !(exists|j: int| i <= j < other.len() && (#[trigger] other[j]).0 == key) ==> get(
            put_all_from(d, other, i),
            key,
        ) == get(d, key),
    decreases other.len() - i,
{
    if i < other.len() {
        let next = put(d, other[i].0, other[i].1);
        lemma_put_ordered(d, other[i].0, other[i].1);
        lemma_get_put_all(next, other, i + 1, key);
        if other[i].0 == key {
            lemma_get_put_same(d, key, other[i].1);
            lemma_get_at(other, i);
            assert forall|j: int| i + 1 <= j < other.len() implies (#[trigger] other[j]).0
                != key by {
                lemma_less_total(key, key);
            }
        } else {
            lemma_get_put_other(d, other[i].0, other[i].1, key);
        }
    }
}

/// The names of a frame are in order.
pub open spec fn frames_ordered(frames: Seq<FrameM>) -> bool {
    forall|i: int| 0 <= i < frames.len() ==> ordered((#[trigger] frames[i]).names)
}

/// A snapshot of a frame binds every name to what a lookup in the frame finds.
pub proof fn law_snapshots_hold_what_is_seen(frames: Seq<FrameM>, id: int, name: Str)
    requires
        frames_ordered(frames),
    ensures
        ordered(snapshot(frames, id)),
        get(snapshot(frames, id), name) == lookup(frames, id, name),
    decreases id,
{
    if 0 <= id < frames.len() {
        let names = frames[id].names;
        assert(ordered(names));
        let outer = match parent_of(frames, id) {
            Some(p) => snapshot(frames, p),
            None => Seq::empty(),
        };
        if let Some(p) = parent_of(frames, id) {
            law_snapshots_hold_what_is_seen(frames, p, name);
        }
        lemma_get_put_all(outer, names, 0, name);
        assert(snapshot(frames, id) == put_all(outer, names));
        lemma_get_found(names, name);
        lemma_holder_binds(frames, id, name);
        if get(names, name) is Some {
            assert(names[slot(names, name)].0 == name);
        } else {
            assert forall|j: int| 0 <= j < names.len() implies (#[trigger] names[j]).0 != name by {
                lemma_get_at(names, j);
            }
        }
    }
}

// ---------------------------------------------------------------------------
// Objects
// ---------------------------------------------------------------------------

/// A field that was set is read back, and the other fields stay.
pub proof fn law_fields_are_read_back(w: World, id: usize, name: Str, value: Val, other: Str)
    requires
        id < w.cells.len(),
        !w.cells[id as int].held,
        ordered(w.cells[id as int].fields),
    ensures
        set_field(w, id, name, value).0 is Ok,
        get(fields_of(set_field(w, id, name, value).1, id)->Ok_0, name) == Some(value),
        other != name ==> get(fields_of(set_field(w, id, name, value).1, id)->Ok_0, other) == get(
            w.cells[id as int].fields,
            other,
        ),
{
    lemma_get_put_same(w.cells[id as int].fields, name, value);
    if other != name {
        lemma_get_put_other(w.cells[id as int].fields, name, value, other);
    }
}

/// The fields of an object that is held can be neither read nor set.
pub proof fn law_held_objects_refuse(w: World, id: usize, name: Str, value: Val)
    requires
        id < w.cells.len(),
        w.cells[id as int].held,
    ensures
        fields_of(w, id) == Err::<Rows<Val>, Str>(borrow_error()),
        set_field(w, id, name, value) == (Err::<(), Str>(borrow_error()), w),
{
}

// ---------------------------------------------------------------------------
// The host
// ---------------------------------------------------------------------------

/// Where a run has a workspace, every path that a builtin goes on with is what the host resolved
/// and lies within the workspace.
pub proof fn law_paths_are_confined(w: World, path: Str, operation: Str)
    requires
        w.workspace is Some,
    ensures
        confined(w, path, operation).0 matches Ok(place) ==> {
            let reply = ask(
                w,
                "resolve_path"@,
                seq![
                    Val::Text(pushed(w.workspace->0, path, w.separator)),
                    Val::Text(operation),
                ],
            ).0;
            &&& reply == Ok::<Val, Str>(Val::Text(place))
            &&& lies_within(place, w.workspace->0, w.separator)
        },
{
}

/// A workspace that a context has entered is kept; one that is entered is a directory.
pub proof fn law_workspaces_are_directories(w: World, base: Str)
    ensures
        w.workspace is Some ==> entered_workspace(w, base) == (Ok::<(), Str>(()), w),
        w.workspace is None && entered_workspace(w, base).0 is Ok ==> {
            let reply = ask(w, "resolve_workspace"@, seq![Val::Text(base)]).0;
            &&& entered_workspace(w, base).1.workspace is Some
            &&& reply is Ok && reply->Ok_0 is List
            &&& reply->Ok_0->List_0.len() == 2
            &&& reply->Ok_0->List_0[0] == Val::Text(entered_workspace(w, base).1.workspace->0)
            &&& reply->Ok_0->List_0[1] == Val::Bool(true)
        },
{
    reveal(entered_workspace);
}

/// An asset that is served lies within its directory, is a file, and is within the limit.
pub proof fn law_assets_stay_in_their_directory(
    root: Str,
    found: Val,
    sep: char,
    metadata: Result<Val, Str>,
)
    ensures
        asset_within(root, found, sep) matches Ok(Some(file)) ==> found == Val::Text(file)
            && lies_within(file, root, sep),
        asset_readable(metadata) == Ok::<bool, Str>(true) ==> {
            &&& metadata is Ok && metadata->Ok_0 is List && metadata->Ok_0->List_0.len() == 2
            &&& metadata->Ok_0->List_0[0] == Val::Bool(true)
            &&& metadata->Ok_0->List_0[1] is Number
            &&& metadata->Ok_0->List_0[1]->Number_0 <= MAX_STATIC_ASSET_BYTES
        },
{
}

/// A run without a workspace enters its base before anything else: where it cannot, no statement
/// runs and no name changes.
pub proof fn law_runs_begin_in_their_workspace(
    program: Seq<StmtM>,
    vars: Rows<Val>,
    funcs: Rows<Fun>,
    w: World,
    base: Str,
    frame: usize,
    fuel: nat,
)
    requires
        fuel > 0,
        entered_workspace(w, base).0 is Err,
    ensures
        ({
            let ran = run(program, vars, funcs, w, base, frame, fuel);
            &&& ran.flow == Err::<FlowM, Str>(entered_workspace(w, base).0->Err_0)
            &&& ran.vars == vars && ran.funcs == funcs
            &&& ran.world == entered_workspace(w, base).1
        }),
{
}

proof fn lemma_judged(addresses: Seq<Val>, i: nat, k: int)
    requires
        judged(addresses, i) is Ok,
        i <= k < addresses.len(),
    ensures
        addresses[k] is List,
        address_of(addresses[k]->List_0) is Some,
        !blocked(address_of(addresses[k]->List_0)->0),
    decreases addresses.len() - i,
{
    if i < k {
        lemma_judged(addresses, i + 1, k);
    }
}

/// A restricted request goes only to addresses that were resolved beforehand, and to none of the
/// blocked ones.
pub proof fn law_restricted_requests_avoid_blocked_addresses(host: Str, port: u16, w: World, k: int)
    ensures
        destination(host, port, true, w).0 matches Ok(found) ==> {
            &&& found is Some
            &&& found->0.len() > 0
            &&& 0 <= k < found->0.len() ==> found->0[k] is List && address_of(
                found->0[k]->List_0,
            ) is Some && !blocked(address_of(found->0[k]->List_0)->0)
        },
{
    if let Ok(Some(addresses)) = destination(host, port, true, w).0 {
        if 0 <= k < addresses.len() {
            lemma_judged(addresses, 0, k);
        }
    }
}

/// What is kept of an output is its beginning, up to the limit, and an output beyond the limit is
/// told: both however the output is divided into chunks.
pub proof fn law_process_output_is_bounded(whole: Seq<u8>, chunk: Seq<u8>)
    ensures
        ({
            let limit = MAX_PROCESS_OUTPUT_BYTES as int;
            let kept = if whole.len() <= limit { whole } else { whole.take(limit) };
            let more = whole + chunk;
            output_taken(kept, whole.len() > limit, chunk) == (
                if more.len() <= limit { more } else { more.take(limit) },
                more.len() > limit,
            )
        }),
{
    let limit = MAX_PROCESS_OUTPUT_BYTES as int;
    let more = whole + chunk;
    if more.len() > limit {
        if whole.len() < limit {
            assert(whole + chunk.take(limit - whole.len()) =~= more.take(limit));
        } else {
            assert(more.take(limit) =~= whole.take(limit));
            assert(whole.take(limit).len() == limit);
            if whole.len() == limit {
                assert(whole.take(limit) =~= whole);
                assert(chunk.len() > 0);
            }
            if chunk.len() == 0 {
                assert(whole.take(limit) + chunk =~= whole.take(limit));
            }
        }
    }
}

proof fn lemma_digit_chars(a: nat, b: nat)
    requires
        a < 10,
        b < 10,
    ensures
        digit_char(a) == digit_char(b) ==> a == b,
        is_alnum(digit_char(a)),
{
}

proof fn lemma_digits_differ(a: nat, b: nat)
    ensures
        digits(a) == digits(b) ==> a == b,
    decreases a,
{
    if digits(a) == digits(b) {
        lemma_digit_chars(a % 10, b % 10);
        assert(digits(a).last() == digit_char(a % 10));
        assert(digits(b).last() == digit_char(b % 10));
        lemma_digits_length(a);
        lemma_digits_length(b);
        if a >= 10 && b >= 10 {
            assert(digits(a).drop_last() =~= digits(a / 10));
            assert(digits(b).drop_last() =~= digits(b / 10));
            lemma_digits_differ(a / 10, b / 10);
        } else if a >= 10 {
            lemma_digits_length(a / 10);
        } else if b >= 10 {
            lemma_digits_length(b / 10);
        }
    }
}

proof fn lemma_digits_length(a: nat)
    ensures
        digits(a).len() >= 1,
    decreases a,
{
    if a >= 10 {
        lemma_digits_length(a / 10);
    }
}

/// Two requests that bring no usable identifier get different ones, if they are counted under
/// different numbers.
pub proof fn law_request_numbers_differ(a: Rows<Str>, b: Rows<Str>, m: u64, n: u64)
    requires
        given_id(a) is None,
        given_id(b) is None,
        m != n,
    ensures
        numbered_id(a, m as int) != numbered_id(b, n as int),
{
    lemma_digits_differ(m as nat, n as nat);
    let front = "zap-"@;
    if front + digits(m as nat) == front + digits(n as nat) {
        assert((front + digits(m as nat)).skip(front.len() as int) =~= digits(m as nat));
        assert((front + digits(n as nat)).skip(front.len() as int) =~= digits(n as nat));
    }
}

proof fn lemma_digits_safe(a: nat, k: nat)
    requires
        a < power_of_ten(k),
        k >= 1,
    ensures
        digits(a).len() <= k,
        forall|i: int| 0 <= i < digits(a).len() ==> is_alnum(#[trigger] digits(a)[i]),
    decreases a,
{
    lemma_digit_chars(a % 10, 0);
    if a >= 10 {
        assert(power_of_ten(1) == 10) by {
            reveal_with_fuel(power_of_ten, 2);
        }
        lemma_digits_safe(a / 10, (k - 1) as nat);
    }
}

spec fn power_of_ten(k: nat) -> nat
    decreases k,
{
    if k == 0 {
        1
    } else {
        10 * power_of_ten((k - 1) as nat)
    }
}

/// Whatever a request brings, its identifier is safe to repeat in a header: it has 1 to 128
/// bytes, all of them ASCII letters, digits or one of `.`, `_`, `:` and `-`.
pub proof fn law_request_identifiers_are_safe(headers: Rows<Str>, number: u64)
    ensures
        ({
            let id = numbered_id(headers, number as int);
            1 <= size(id) <= 128 && made_of(id, "._:-"@)
        }),
{
    reveal_strlit("zap-");
    reveal_strlit("._:-");
    let id = numbered_id(headers, number as int);
    if given_id(headers) is None {
        assert(number < power_of_ten(20)) by {
            reveal_with_fuel(power_of_ten, 21);
        }
        lemma_digits_safe(number as nat, 20);
        lemma_digits_length(number as nat);
        let front = "zap-"@;
        assert forall|i: int| 0 <= i < id.len() implies is_alnum(#[trigger] id[i])
            || "._:-"@.contains(id[i]) by {
            if i < 4 {
                assert(id[i] == front[i]);
                assert("._:-"@[3] == '-');
            } else {
                assert(id[i] == digits(number as nat)[i - 4]);
            }
        }
    }
    lemma_plain_size(id);
}

/// A text of ASCII characters has one byte for each of them.
proof fn lemma_plain_size(s: Str)
    requires
        made_of(s, "._:-"@),
    ensures
        size(s) == s.len(),
{
    reveal_strlit("._:-");
    assert forall|i: int| 0 <= i < s.len() implies '\u{0}' <= #[trigger] s[i] <= '\u{7f}' by {
        if !is_alnum(s[i]) {
            assert("._:-"@.contains(s[i]));
        }
    }
    vstd::utf8::is_ascii_chars_encode_utf8(s);
}

// ---------------------------------------------------------------------------
// Ordered tables
// ---------------------------------------------------------------------------

/// What a tidy context is: the names of every frame, the fields of every object, the modules, and
/// the names and functions of every module are ordered by their keys. A context at the start of a
/// run is tidy.
pub proof fn law_tidy_contexts_are_ordered(w: World, sep: char, replies: Seq<Result<Val, Str>>)
    ensures
        tidy(w) <==> {
            &&& frames_ordered(w.frames)
            &&& forall|i: int| 0 <= i < w.cells.len() ==> ordered((#[trigger] w.cells[i]).fields)
            &&& ordered(w.modules)
            &&& forall|i: int|
                0 <= i < w.modules.len() ==> ordered((#[trigger] w.modules[i]).1.vars) && ordered(
                    w.modules[i].1.funcs,
                )
        },
        tidy(hosted(sep, replies)),
{
    reveal(tidy);
    reveal(sorted);
}

/// A run of a program keeps all tables ordered: where the variables, the functions, the frames,
/// the fields and the modules are ordered before it, they are ordered after it.
pub proof fn law_programs_keep_tables_ordered(
    program: Seq<StmtM>,
    vars: Rows<Val>,
    funcs: Rows<Fun>,
    w: World,
    base: Str,
    fuel: nat,
)
    requires
        tidy(w),
        ordered(vars),
        ordered(funcs),
    ensures
        ({
            let ran = run_program(program, vars, funcs, w, base, fuel);
            tidy(ran.world) && ordered(ran.vars) && ordered(ran.funcs)
        }),
{
    reveal(sorted);
    lemma_run_program_tidy(program, vars, funcs, w, base, fuel);
}

/// A run of source lines keeps all tables ordered.
pub proof fn law_lines_keep_tables_ordered(
    lines: Seq<Str>,
    vars: Rows<Val>,
    funcs: Rows<Fun>,
    w: World,
    base: Str,
    fuel: nat,
)
    requires
        tidy(w),
        ordered(vars),
        ordered(funcs),
    ensures
        ({
            let ran = run_lines(lines, vars, funcs, w, base, fuel);
            tidy(ran.world) && ordered(ran.vars) && ordered(ran.funcs)
        }),
{
    reveal(sorted);
    lemma_run_lines_tidy(lines, vars, funcs, w, base, fuel);
}

/// A run of statements in a frame keeps all tables ordered.
pub proof fn law_statements_keep_tables_ordered(
    program: Seq<StmtM>,
    vars: Rows<Val>,
    funcs: Rows<Fun>,
    w: World,
    base: Str,
    frame: usize,
    fuel: nat,
)
    requires
        tidy(w),
        ordered(vars),
        ordered(funcs),
    ensures
        ({
            let ran = run(program, vars, funcs, w, base, frame, fuel);
            tidy(ran.world) && ordered(ran.vars) && ordered(ran.funcs)
        }),
{
    reveal(sorted);
    lemma_run_tidy(program, vars, funcs, w, base, frame, fuel);
}

/// An import keeps all tables ordered, also those of the module that it keeps.
pub proof fn law_imports_keep_tables_ordered(
    raw: Str,
    vars: Rows<Val>,
    funcs: Rows<Fun>,
    w: World,
    base: Str,
    explicit: bool,
    fuel: nat,
)
    requires
        tidy(w),
        ordered(vars),
        ordered(funcs),
    ensures
        ({
            let ran = load_module(raw, vars, funcs, w, base, explicit, fuel);
            tidy(ran.world) && ordered(ran.vars) && ordered(ran.funcs)
        }),
{
    reveal(sorted);
    lemma_load_module_tidy(raw, vars, funcs, w, base, explicit, fuel);
}

/// An evaluation, and a call of a function or a method, keep all tables ordered.
pub proof fn law_evaluations_keep_tables_ordered(
    e: ExprM,
    f: Fun,
    args: Seq<ArgM>,
    self_value: Val,
    vars: Rows<Val>,
    funcs: Rows<Fun>,
    w: World,
    fuel: nat,
)
    requires
        tidy(w),
        ordered(vars),
        ordered(funcs),
    ensures
        tidy(eval(e, vars, funcs, w, fuel).1),
        tidy(call_function(f, args, funcs, w, fuel).1),
        tidy(call_method(f, args, self_value, funcs, w, fuel).1),
{
    reveal(sorted);
    lemma_eval_tidy(e, vars, funcs, w, fuel);
    lemma_call_function_tidy(f, args, funcs, w, fuel);
    lemma_call_method_tidy(f, args, self_value, funcs, w, fuel);
}

// ---------------------------------------------------------------------------
// Modules
// ---------------------------------------------------------------------------

proof fn lemma_place_of(loading: Seq<Str>, path: Str, i: int)
    requires
        0 <= i <= loading.len(),
    ensures
        place_of(loading, path, i) is Some <==> exists|k: int|
            i <= k < loading.len() && loading[k] == path,
    decreases loading.len() - i,
{
    if i < loading.len() && loading[i] != path {
        lemma_place_of(loading, path, i + 1);
    }
}

/// An import is circular exactly where its module is being loaded already.
pub proof fn law_circular_imports_are_found(loading: Seq<Str>, path: Str)
    ensures
        import_cycle(loading, path) is Some <==> loading.contains(path),
{
    lemma_place_of(loading, path, 0);
}

/// A circular import fails, and leaves the names of the importing program as they were.
pub proof fn law_circular_imports_fail(
    raw: Str,
    path: Str,
    file: Str,
    vars: Rows<Val>,
    funcs: Rows<Fun>,
    w: World,
    base: Str,
    explicit: bool,
    fuel: nat,
)
    requires
        crate::modules::import_path(raw, w.separator) == Ok::<Str, Str>(path),
        module_file(path, base, w).0 == Ok::<Str, Str>(file),
        get(w.modules, file) is None,
        w.loading.contains(file),
    ensures
        ({
            let ran = load_module(raw, vars, funcs, w, base, explicit, fuel);
            ran.flow is Err && ran.vars == vars && ran.funcs == funcs && ran.world.modules
                == w.modules
        }),
{
    law_circular_imports_are_found(w.loading, file);
}

/// Every import gives the list of the modules that are being loaded back as it was.
pub proof fn law_imports_keep_the_loading_list(
    raw: Str,
    vars: Rows<Val>,
    funcs: Rows<Fun>,
    w: World,
    base: Str,
    explicit: bool,
    fuel: nat,
)
    ensures
        load_module(raw, vars, funcs, w, base, explicit, fuel).world.loading == w.loading,
{
    lemma_load_module_evolves(raw, vars, funcs, w, base, explicit, fuel);
    reveal(evolves);
}

/// An import that succeeds takes the names of the module over that the context then knows; and a
/// later import of the same file, in a context that still knows the module, takes over the same,
/// and the name that tells the module its own file too where it is plain.
pub proof fn law_imports_repeat(
    raw: Str,
    path: Str,
    again: Str,
    path_again: Str,
    file: Str,
    vars: Rows<Val>,
    funcs: Rows<Fun>,
    w: World,
    v: World,
    base: Str,
    base_again: Str,
    explicit: bool,
    fuel: nat,
)
    requires
        import_path(raw, w.separator) == Ok::<Str, Str>(path),
        module_file(path, base, w).0 == Ok::<Str, Str>(file),
        load_module(raw, vars, funcs, w, base, explicit, fuel).flow == Ok::<FlowM, Str>(
            FlowM::Continue,
        ),
        import_path(again, v.separator) == Ok::<Str, Str>(path_again),
        module_file(path_again, base_again, v).0 == Ok::<Str, Str>(file),
        get(v.modules, file) == get(
            load_module(raw, vars, funcs, w, base, explicit, fuel).world.modules,
            file,
        ),
    ensures
        ({
            let first = load_module(raw, vars, funcs, w, base, explicit, fuel);
            let second = load_module(again, vars, funcs, v, base_again, explicit, fuel);
            let known = get(first.world.modules, file);
            &&& known is Some
            &&& first.vars == imported_vars(
                known->0,
                explicit,
                get(module_file(path, base, w).1.modules, file) is None,
                vars,
            )
            &&& first.funcs == imported_funcs(known->0, explicit, funcs)
            &&& second.flow == first.flow
            &&& second.vars == imported_vars(known->0, explicit, false, vars)
            &&& explicit ==> second.vars == first.vars
            &&& ordered(vars) && ordered(known->0.vars) ==> forall|name: Str|
                name != own_name() ==> #[trigger] get(second.vars, name) == get(first.vars, name)
            &&& second.funcs == first.funcs
        }),
{
    let w1 = module_file(path, base, w).1;
    if get(w1.modules, file) is None && import_cycle(w1.loading, file) is None {
        let (source, w2) = module_source(file, start_loading(w1, file));
        if let Ok(program) = source {
            let directory = match parent_path(file, w.separator) {
                Some(directory) => directory,
                None => base,
            };
            let ran = released(
                run_program(
                    program,
                    put(Seq::empty(), "__zap_module"@, Val::Text(file)),
                    Seq::empty(),
                    hold_scope(w2, vars, funcs),
                    directory,
                    fuel,
                ),
            );
            let module = ModuleM { vars: ran.vars, funcs: ran.funcs };
            lemma_get_put_same(
                attached(stop_loading(ran.world), ran.funcs, 0).modules,
                file,
                module,
            );
        }
    }
    let first = load_module(raw, vars, funcs, w, base, explicit, fuel);
    let second = load_module(again, vars, funcs, v, base_again, explicit, fuel);
    let known = get(first.world.modules, file)->0;
    if !explicit && ordered(vars) && ordered(known.vars) {
        assert forall|name: Str| name != own_name() implies #[trigger] get(second.vars, name)
            == get(first.vars, name) by {
            law_plain_imports_take_all_names(known, true, vars, name);
            law_plain_imports_take_all_names(known, false, vars, name);
        }
    }
}

// ---------------------------------------------------------------------------
// Raised errors
// ---------------------------------------------------------------------------

/// The run of the other statements, once an error has been raised.
pub open spec fn caught_run(
    error: Val,
    binding: Str,
    catch_body: Seq<StmtM>,
    tried: Ran,
    base: Str,
    frame: usize,
    fuel: nat,
) -> Ran {
    released(
        run(
            catch_body,
            tried.vars,
            tried.funcs,
            hold_values(
                insert_local(tried.world, frame as int, binding, error),
                option_values(get(names_of(tried.world, frame as int), binding)),
            ),
            base,
            frame,
            fuel,
        ),
    )
}

/// After an error has been caught, the frame has its own value of the name again that the error
/// was bound to: the value from before, or none.
pub proof fn law_caught_names_are_put_back(
    error: Val,
    body: Seq<StmtM>,
    binding: Str,
    catch_body: Seq<StmtM>,
    vars: Rows<Val>,
    funcs: Rows<Fun>,
    w: World,
    base: Str,
    frame: usize,
    fuel: nat,
)
    requires
        frame < w.frames.len(),
        run(body, vars, funcs, w, base, frame, fuel).flow == Ok::<FlowM, Str>(FlowM::Raise(error)),
        ordered(
            names_of(
                caught_run(
                    error,
                    binding,
                    catch_body,
                    run(body, vars, funcs, w, base, frame, fuel),
                    base,
                    frame,
                    fuel,
                ).world,
                frame as int,
            ),
        ),
    ensures
        get(
            names_of(
                run_try(body, binding, catch_body, vars, funcs, w, base, frame, fuel).world,
                frame as int,
            ),
            binding,
        ) == get(
            names_of(run(body, vars, funcs, w, base, frame, fuel).world, frame as int),
            binding,
        ),
{
    let tried = run(body, vars, funcs, w, base, frame, fuel);
    let inside = hold_values(
        insert_local(tried.world, frame as int, binding, error),
        option_values(get(names_of(tried.world, frame as int), binding)),
    );
    lemma_run_evolves(body, vars, funcs, w, base, frame, fuel);
    lemma_run_evolves(catch_body, tried.vars, tried.funcs, inside, base, frame, fuel);
    assert(frame < tried.world.frames.len()) by {
        reveal(evolves);
    }
    let caught = caught_run(error, binding, catch_body, tried, base, frame, fuel);
    assert(frame < caught.world.frames.len()) by {
        reveal(evolves);
    }
    let own = names_of(caught.world, frame as int);
    match get(names_of(tried.world, frame as int), binding) {
        Some(value) => {
            lemma_get_put_same(own, binding, value);
        },
        None => {
            lemma_get_without(own, binding, binding);
        },
    }
}

// ---------------------------------------------------------------------------
// Asynchronous calls
// ---------------------------------------------------------------------------

/// A call of an asynchronous function runs the whole body and gives a handle; joining the handle
/// gives the value that the body returned. The call fails only where no more task is admitted.
pub proof fn law_async_calls_give_handles(
    f: Fun,
    args: Seq<ArgM>,
    funcs: Rows<Fun>,
    w: World,
    fuel: nat,
    value: Val,
)
    requires
        f.is_async,
        call_function(Fun { is_async: false, ..f }, args, funcs, w, fuel).0 == Ok::<Val, Str>(
            value,
        ),
    ensures
        ({
            let ran = call_function(Fun { is_async: false, ..f }, args, funcs, w, fuel).1;
            let (r, after) = call_function(f, args, funcs, w, fuel);
            match schedule_task(ran, value) {
                (Ok(id), scheduled) => {
                    &&& r == Ok::<Val, Str>(Val::ScheduledFuture(id))
                    &&& after == scheduled
                    &&& join_task(after, id, None).0 == Ok::<Val, TaskError>(value)
                },
                (Err(error), same) => r == Err::<Val, Str>(error) && after == same,
            }
        }),
{
    let g = Fun { is_async: false, ..f };
    let (frame, w1) = call_frame(f, w);
    assert(call_frame(g, w) == (frame, w1));
    assert(call_names(g, frame, w1) == call_names(f, frame, w1));
    assert forall|local: Rows<Val>, v: World| #[trigger]
        run_body(g, local, funcs, v, frame, fuel) == run_body(f, local, funcs, v, frame, fuel) by {
    }
}

/// A call of an asynchronous method gives a handle as well.
pub proof fn law_async_methods_give_handles(
    f: Fun,
    args: Seq<ArgM>,
    self_value: Val,
    funcs: Rows<Fun>,
    w: World,
    fuel: nat,
    value: Val,
)
    requires
        f.is_async,
        call_method(Fun { is_async: false, ..f }, args, self_value, funcs, w, fuel).0 == Ok::<
            Val,
            Str,
        >(value),
    ensures
        ({
            let ran = call_method(
                Fun { is_async: false, ..f },
                args,
                self_value,
                funcs,
                w,
                fuel,
            ).1;
            let (r, after) = call_method(f, args, self_value, funcs, w, fuel);
            match schedule_task(ran, value) {
                (Ok(id), scheduled) => {
                    &&& r == Ok::<Val, Str>(Val::ScheduledFuture(id))
                    &&& after == scheduled
                    &&& join_task(after, id, None).0 == Ok::<Val, TaskError>(value)
                },
                (Err(error), same) => r == Err::<Val, Str>(error) && after == same,
            }
        }),
{
    let g = Fun { is_async: false, ..f };
    let (frame, w1) = call_frame(f, w);
    assert(call_frame(g, w) == (frame, w1));
    assert(call_names(g, frame, w1) == call_names(f, frame, w1));
    assert forall|local: Rows<Val>, v: World| #[trigger]
        run_body(g, local, funcs, v, frame, fuel) == run_body(f, local, funcs, v, frame, fuel) by {
    }
}

// ---------------------------------------------------------------------------
// Live objects
// ---------------------------------------------------------------------------

/// What is held from outside the objects and frames is live.
pub proof fn law_held_values_are_live(w: World, n: Ref)
    requires
        known(w, n),
        rooted(w, n),
    ensures
        live(w, n),
{
    let s = Set::empty().insert(n);
    assert(sustained(w, s) && s.contains(n));
}

/// What a live object or frame holds is live.
pub proof fn law_live_objects_keep_what_they_hold(w: World, m: Ref, n: Ref)
    requires
        live(w, m),
        known(w, n),
        holds(w, m, n),
    ensures
        live(w, n),
{
    let s = choose|s: Set<Ref>| #[trigger] sustained(w, s) && s.contains(m);
    let t = s.insert(n);
    assert forall|x: Ref| #[trigger] t.contains(x) implies known(w, x) && (rooted(w, x)
        || exists|y: Ref| #[trigger] t.contains(y) && holds(w, y, x)) by {
        if x == n {
            assert(t.contains(m));
        } else {
            assert(s.contains(x));
            if !rooted(w, x) {
                let y = choose|y: Ref| #[trigger] s.contains(y) && holds(w, y, x);
                assert(t.contains(y));
            }
        }
    }
    assert(sustained(w, t) && t.contains(n));
}

/// What nothing holds, neither from outside nor from a live object or frame, is not live.
pub proof fn law_objects_are_let_go(w: World, n: Ref)
    requires
        !rooted(w, n),
        forall|m: Ref| #[trigger] live(w, m) ==> !holds(w, m, n),
    ensures
        !live(w, n),
{
    if live(w, n) {
        let s = choose|s: Set<Ref>| #[trigger] sustained(w, s) && s.contains(n);
        let m = choose|m: Ref| #[trigger] s.contains(m) && holds(w, m, n);
        assert(sustained(w, s) && s.contains(m));
        assert(live(w, m));
    }
}

/// Two objects that hold one another stay live, whatever else lets them go.
pub proof fn law_circles_stay_live(w: World, a: usize, b: usize)
    requires
        a < w.cells.len(),
        b < w.cells.len(),
        holds(w, Ref::Cell(a), Ref::Cell(b)),
        holds(w, Ref::Cell(b), Ref::Cell(a)),
    ensures
        live(w, Ref::Cell(a)),
        live(w, Ref::Cell(b)),
{
    let s = Set::empty().insert(Ref::Cell(a)).insert(Ref::Cell(b));
    assert forall|x: Ref| #[trigger] s.contains(x) implies known(w, x) && (rooted(w, x)
        || exists|y: Ref| #[trigger] s.contains(y) && holds(w, y, x)) by {
        assert(s.contains(Ref::Cell(a)) && s.contains(Ref::Cell(b)));
    }
    assert(sustained(w, s) && s.contains(Ref::Cell(a)) && s.contains(Ref::Cell(b)));
}

/// No more objects are live than have been made.
pub proof fn law_live_objects_have_been_made(w: World)
    ensures
        live_objects(w) <= w.cells.len(),
{
    lemma_live_below(w, w.cells.len());
}

proof fn lemma_live_below(w: World, count: nat)
    ensures
        live_below(w, count) <= count,
    decreases count,
{
    if count > 0 {
        lemma_live_below(w, (count - 1) as nat);
    }
}

proof fn lemma_prefixed(key: Str, prefix: Str, name: Str)
    ensures
        (has_prefix(key, prefix) && key.skip(prefix.len() as int) == name) <==> key == prefix
            + name,
{
    if has_prefix(key, prefix) && key.skip(prefix.len() as int) == name {
        assert(key =~= prefix + name) by {
            assert(key.subrange(0, prefix.len() as int) =~= prefix);
            assert(key =~= key.subrange(0, prefix.len() as int) + key.skip(prefix.len() as int));
        }
    }
    if key == prefix + name {
        assert(key.skip(prefix.len() as int) =~= name);
        assert(key.subrange(0, prefix.len() as int) =~= prefix);
    }
}

proof fn lemma_exported<W, M>(
    source: Rows<W>,
    marks: Rows<M>,
    prefix: Str,
    i: nat,
    target: Rows<W>,
    name: Str,
)
    requires
        ordered(target),
        i <= marks.len(),
    ensures
        ordered(exported(source, marks, prefix, i, target)),
        get(exported(source, marks, prefix, i, target), name) == (if get(source, name) is Some && (
        exists|j: int| i <= j < marks.len() && (#[trigger] marks[j]).0 == prefix + name) {
            get(source, name)
        } else {
            get(target, name)
        }),
    decreases marks.len() - i,
{
    if i < marks.len() {
        let key = marks[i as int].0;
        let found = key.skip(prefix.len() as int);
        let next = if has_prefix(key, prefix) {
            match get(source, found) {
                Some(value) => put(target, found, value),
                None => target,
            }
        } else {
            target
        };
        lemma_prefixed(key, prefix, name);
        if has_prefix(key, prefix) {
            if let Some(value) = get(source, found) {
                lemma_put_ordered(target, found, value);
                lemma_get_put_same(target, found, value);
                if found != name {
                    lemma_get_put_other(target, found, value, name);
                }
            }
        }
        lemma_exported(source, marks, prefix, i + 1, next, name);
    }
}

/// An explicit import takes the exported variables of a module over, and only those: an exported
/// one takes the place of a variable of the same name, and every other name stays as it was.
pub proof fn law_explicit_imports_take_exports(
    module: ModuleM,
    first: bool,
    vars: Rows<Val>,
    name: Str,
)
    requires
        ordered(vars),
        ordered(module.vars),
    ensures
        get(imported_vars(module, true, first, vars), name) == (if get(module.vars, name) is Some
            && get(module.vars, var_prefix() + name) is Some {
            get(module.vars, name)
        } else {
            get(vars, name)
        }),
{
    lemma_exported(module.vars, module.vars, var_prefix(), 0, vars, name);
    lemma_marked(module.vars, var_prefix() + name);
}

/// An explicit import takes the exported functions of a module over, and only those.
pub proof fn law_explicit_imports_take_exported_functions(
    module: ModuleM,
    funcs: Rows<Fun>,
    name: Str,
)
    requires
        ordered(funcs),
        ordered(module.funcs),
    ensures
        get(imported_funcs(module, true, funcs), name) == (if get(module.funcs, name) is Some
            && get(module.funcs, fn_prefix() + name) is Some {
            get(module.funcs, name)
        } else {
            get(funcs, name)
        }),
{
    lemma_exported(module.funcs, module.funcs, fn_prefix(), 0, funcs, name);
    lemma_marked(module.funcs, fn_prefix() + name);
}

pub proof fn lemma_marked<W>(rows: Rows<W>, key: Str)
    requires
        ordered(rows),
    ensures
        get(rows, key) is Some <==> exists|j: int|
            0 <= j < rows.len() && (#[trigger] rows[j]).0 == key,
{
    lemma_get_found(rows, key);
    if get(rows, key) is Some {
        assert(rows[slot(rows, key)].0 == key);
    }
    if exists|j: int| 0 <= j < rows.len() && (#[trigger] rows[j]).0 == key {
        let j = choose|j: int| 0 <= j < rows.len() && (#[trigger] rows[j]).0 == key;
        lemma_get_at(rows, j);
    }
}

proof fn lemma_merged<W>(
    source: Rows<W>,
    prefix: Str,
    left_out: Option<Str>,
    i: nat,
    target: Rows<W>,
    name: Str,
)
    requires
        ordered(target),
        ordered(source),
        i <= source.len(),
    ensures
        ordered(merged(source, prefix, left_out, i, target)),
        get(merged(source, prefix, left_out, i, target), name) == (if !has_prefix(name, prefix)
            && left_out != Some(name) && (exists|j: int|
            i <= j < source.len() && (#[trigger] source[j]).0 == name) {
            get(source, name)
        } else {
            get(target, name)
        }),
    decreases source.len() - i,
{
    if i < source.len() {
        let key = source[i as int].0;
        let value = source[i as int].1;
        lemma_put_ordered(target, key, value);
        lemma_get_put_same(target, key, value);
        lemma_get_at(source, i as int);
        if key != name {
            lemma_get_put_other(target, key, value, name);
        } else {
            assert forall|j: int| i < j < source.len() implies (#[trigger] source[j]).0
                != name by {
                lemma_less_total(name, name);
            }
        }
        lemma_merged(
            source,
            prefix,
            left_out,
            i + 1,
            if has_prefix(key, prefix) || left_out == Some(key) {
                target
            } else {
                put(target, key, value)
            },
            name,
        );
    }
}

/// A plain import takes all variables of a module over, but for the marks of exports and, where
/// it is the one that runs the module, the name that tells the module its own file.
pub proof fn law_plain_imports_take_all_names(
    module: ModuleM,
    first: bool,
    vars: Rows<Val>,
    name: Str,
)
    requires
        ordered(vars),
        ordered(module.vars),
    ensures
        get(imported_vars(module, false, first, vars), name) == (if get(module.vars, name) is Some
            && !has_prefix(name, var_prefix()) && !(first && name == own_name()) {
            get(module.vars, name)
        } else {
            get(vars, name)
        }),
{
    lemma_merged(module.vars, var_prefix(), kept_back(first), 0, vars, name);
    lemma_marked(module.vars, name);
}

/// A plain import takes all functions of a module over, but for the marks of exports.
pub proof fn law_plain_imports_take_all_functions(module: ModuleM, funcs: Rows<Fun>, name: Str)
    requires
        ordered(funcs),
        ordered(module.funcs),
    ensures
        get(imported_funcs(module, false, funcs), name) == (if get(module.funcs, name) is Some
            && !has_prefix(name, fn_prefix()) {
            get(module.funcs, name)
        } else {
            get(funcs, name)
        }),
{
    lemma_merged(module.funcs, fn_prefix(), None, 0, funcs, name);
    lemma_marked(module.funcs, name);
}

// ---------------------------------------------------------------------------
// Classes
// ---------------------------------------------------------------------------

/// What a class declares itself wins over what it inherits: inheriting never replaces a record.
pub proof fn law_own_members_win(
    class_name: Str,
    prefix: Str,
    records: Rows<Fun>,
    i: nat,
    fields: bool,
    funcs: Rows<Fun>,
    key: Str,
)
    requires
        ordered(funcs),
        get(funcs, key) is Some,
        i <= records.len(),
    ensures
        get(inherited(class_name, prefix, records, i, fields, funcs), key) == get(funcs, key),
    decreases records.len() - i,
{
    if i < records.len() {
        let record = records[i as int].0;
        let name = without_prefixes(record, prefix);
        let own = crate::classes::method_key(class_name, name);
        let next = if has_prefix(record, prefix) && (fields || !has_prefix(name, "__field__."@))
            && get(funcs, own) is None {
            put(funcs, own, records[i as int].1)
        } else {
            funcs
        };
        if get(funcs, own) is None {
            lemma_put_ordered(funcs, own, records[i as int].1);
            lemma_get_put_other(funcs, own, records[i as int].1, key);
        }
        law_own_members_win(class_name, prefix, records, i + 1, fields, next, key);
    }
}

/// The `n`th class above a class.
pub open spec fn ancestor(class_name: Str, funcs: Rows<Fun>, n: nat) -> Option<Str>
    decreases n,
{
    if n == 0 {
        Some(class_name)
    } else {
        match ancestor(class_name, funcs, (n - 1) as nat) {
            Some(below) => parent(below, funcs),
            None => None,
        }
    }
}

pub proof fn lemma_ancestors_below(class_name: Str, funcs: Rows<Fun>, i: nat, n: nat)
    requires
        i <= n,
        ancestor(class_name, funcs, n) is Some,
    ensures
        ancestor(class_name, funcs, i) is Some,
    decreases n - i,
{
    if i < n {
        lemma_ancestors_below(class_name, funcs, i, (n - 1) as nat);
    }
}

/// A line of ancestors that is longer than the table of functions runs in a circle.
pub proof fn law_long_lines_of_ancestors_repeat(class_name: Str, funcs: Rows<Fun>, n: nat)
    requires
        ancestor(class_name, funcs, n) is Some,
        n > funcs.len(),
    ensures
        exists|i: nat, j: nat|
            i < j < n && #[trigger] ancestor(class_name, funcs, i) == #[trigger] ancestor(
                class_name,
                funcs,
                j,
            ),
{
    let places = Seq::new(
        n,
        |i: int| slot(funcs, parent_key(ancestor(class_name, funcs, i as nat)->0)),
    );
    assert forall|i: int| 0 <= i < n implies 0 <= #[trigger] places[i] < funcs.len()
        && funcs[places[i]].0 == parent_key(ancestor(class_name, funcs, i as nat)->0)
        && ancestor(class_name, funcs, i as nat) is Some by {
        lemma_ancestors_below(class_name, funcs, i as nat, n);
        lemma_ancestors_below(class_name, funcs, (i + 1) as nat, n);
        lemma_get_found(funcs, parent_key(ancestor(class_name, funcs, i as nat)->0));
    }
    if places.no_duplicates() {
        places.unique_seq_to_set();
        let range = vstd::set_lib::set_int_range(0, funcs.len() as int);
        vstd::set_lib::lemma_int_range(0, funcs.len() as int);
        assert(places.to_set().subset_of(range)) by {
            assert forall|x: int| places.to_set().contains(x) implies range.contains(x) by {
                let i = choose|i: int| 0 <= i < places.len() && places[i] == x;
                assert(0 <= places[i] < funcs.len());
            }
        }
        vstd::set_lib::lemma_len_subset(places.to_set(), range);
        assert(false);
    }
    let (i, j) = choose|i: int, j: int|
        0 <= i < j < places.len() && #[trigger] places[i] == #[trigger] places[j];
    lemma_prefixed_keys(
        ancestor(class_name, funcs, i as nat)->0,
        ancestor(class_name, funcs, j as nat)->0,
    );
    assert(ancestor(class_name, funcs, i as nat) == ancestor(class_name, funcs, j as nat));
}

proof fn lemma_prefixed_keys(a: Str, b: Str)
    requires
        parent_key(a) == parent_key(b),
    ensures
        a == b,
{
    assert(parent_key(a).take(a.len() as int) =~= a);
    assert(parent_key(b).take(b.len() as int) =~= b);
    assert(parent_key(a).len() == a.len() + ".__parent__"@.len());
    assert(parent_key(b).len() == b.len() + ".__parent__"@.len());
}

proof fn lemma_ancestors_shift(
    class_name: Str,
    funcs: Rows<Fun>,
    i: nat,
    j: nat,
    more: nat,
)
    requires
        ancestor(class_name, funcs, i) == ancestor(class_name, funcs, j),
    ensures
        ancestor(class_name, funcs, i + more) == ancestor(class_name, funcs, j + more),
    decreases more,
{
    if more > 0 {
        lemma_ancestors_shift(class_name, funcs, i, j, (more - 1) as nat);
    }
}

pub proof fn lemma_near_ancestor(class_name: Str, target: Str, funcs: Rows<Fun>, n: nat) -> (k: nat)
    requires
        ancestor(class_name, funcs, n) == Some(target),
    ensures
        k <= funcs.len(),
        ancestor(class_name, funcs, k) == Some(target),
    decreases n,
{
    if n <= funcs.len() {
        n
    } else {
        law_long_lines_of_ancestors_repeat(class_name, funcs, n);
        let (i, j) = choose|i: nat, j: nat|
            i < j < n && #[trigger] ancestor(class_name, funcs, i) == #[trigger] ancestor(
                class_name,
                funcs,
                j,
            );
        lemma_ancestors_shift(class_name, funcs, i, j, (n - j) as nat);
        lemma_near_ancestor(class_name, target, funcs, (n - (j - i)) as nat)
    }
}

pub proof fn lemma_ancestor_from(class_name: Str, funcs: Rows<Fun>, n: nat)
    requires
        n > 0,
    ensures
        ancestor(class_name, funcs, n) == (match parent(class_name, funcs) {
            Some(above) => ancestor(above, funcs, (n - 1) as nat),
            None => None,
        }),
    decreases n,
{
    if n > 1 {
        lemma_ancestor_from(class_name, funcs, (n - 1) as nat);
    } else {
        assert(ancestor(class_name, funcs, 0) == Some(class_name));
    }
}

pub proof fn lemma_descends(current: Str, target: Str, funcs: Rows<Fun>, steps: nat, n: nat)
    requires
        n <= steps,
        ancestor(current, funcs, n) == Some(target),
    ensures
        descends(current, target, funcs, steps),
    decreases n,
{
    if n > 0 {
        lemma_ancestor_from(current, funcs, n);
        if let Some(above) = parent(current, funcs) {
            lemma_descends(above, target, funcs, (steps - 1) as nat, (n - 1) as nat);
        }
    }
}

/// A class is a subclass of each of its ancestors, however far they are above it.
pub proof fn law_classes_descend_from_their_ancestors(
    class_name: Str,
    target: Str,
    funcs: Rows<Fun>,
    n: nat,
)
    requires
        ancestor(class_name, funcs, n) == Some(target),
    ensures
        same_or_subclass(class_name, target, funcs),
{
    let k = lemma_near_ancestor(class_name, target, funcs, n);
    lemma_descends(class_name, target, funcs, funcs.len(), k);
}

// ---------------------------------------------------------------------------
// Collections
// ---------------------------------------------------------------------------

/// A table is a map: putting a key binds it and nothing else, and removing it takes it away and
/// nothing else.
pub proof fn law_tables_are_maps(d: Rows<Val>, key: Str, value: Val)
    requires
        ordered(d),
    ensures
        meaning(put(d, key, value)) == meaning(d).insert(key, value),
        meaning(without(d, key)) == meaning(d).remove(key),
{
    assert forall|other: Str| get(put(d, key, value), other) == (if other == key {
        Some(value)
    } else {
        get(d, other)
    }) by {
        lemma_get_put_same(d, key, value);
        if other != key {
            lemma_get_put_other(d, key, value, other);
        }
    }
    assert forall|other: Str|
        get(without(d, key), other) == (if other == key {
            None
        } else {
            get(d, other)
        }) by {
        lemma_get_without(d, key, other);
    }
    assert(meaning(put(d, key, value)) =~= meaning(d).insert(key, value));
    assert(meaning(without(d, key)) =~= meaning(d).remove(key));
}

proof fn lemma_insert_kept<A>(s: Seq<A>, k: int, x: A)
    requires
        0 <= k <= s.len(),
    ensures
        s.insert(k, x).to_multiset() =~= s.to_multiset().insert(x),
{
    broadcast use vstd::seq_lib::group_to_multiset_ensures;

    let longer = s.insert(k, x);
    assert(longer.remove(k) =~= s);
    assert(longer[k] == x);
    assert(longer.contains(x));
    assert(longer.to_multiset().remove(x) =~= s.to_multiset());
}

proof fn lemma_sorted_numbers_kept(s: Seq<i64>, n: nat)
    requires
        n <= s.len(),
    ensures
        sorted_numbers(s, n).to_multiset() =~= s.take(n as int).to_multiset(),
    decreases n,
{
    if n == 0 {
        assert(s.take(0) =~= sorted_numbers(s, 0));
    } else {
        lemma_sorted_numbers_kept(s, (n - 1) as nat);
        lemma_sorted_numbers(s, (n - 1) as nat);
        let rest = sorted_numbers(s, (n - 1) as nat);
        lemma_number_slot(rest, s[n - 1], 0);
        lemma_insert_kept(rest, crate::numbers::number_slot(rest, s[n - 1], 0), s[n - 1]);
        assert(s.take(n as int) =~= s.take(n - 1).push(s[n - 1]));
        s.take(n - 1).to_multiset_ensures();
    }
}

/// Sorting numbers gives the same numbers in rising order.
pub proof fn law_sorting_numbers(items: Seq<Val>)
    requires
        all_numbers(items),
    ensures
        ({
            let sorted = sorted_numbers(numbers_in(items), items.len());
            &&& sort_value(seq![Val::List(items)]) == Ok::<Val, Str>(
                Val::List(number_values(sorted)),
            )
            &&& rising(sorted)
            &&& sorted.to_multiset() == numbers_in(items).to_multiset()
        }),
{
    lemma_sorted_numbers(numbers_in(items), items.len());
    lemma_sorted_numbers_kept(numbers_in(items), items.len());
    assert(numbers_in(items).take(items.len() as int) =~= numbers_in(items));
}

/// No text stands before an earlier one.
pub open spec fn texts_rising(s: Seq<Str>) -> bool {
    forall|i: int, j: int|
        0 <= i <= j < s.len() ==> !less(#[trigger] s[j], #[trigger] s[i])
}

proof fn lemma_sorted_texts(s: Seq<Str>, n: nat)
    requires
        n <= s.len(),
    ensures
        texts_rising(sorted_texts(s, n)),
        sorted_texts(s, n).to_multiset() =~= s.take(n as int).to_multiset(),
    decreases n,
{
    if n == 0 {
        assert(s.take(0) =~= sorted_texts(s, 0));
    } else {
        lemma_sorted_texts(s, (n - 1) as nat);
        lemma_sorted_texts_len(s, (n - 1) as nat);
        let rest = sorted_texts(s, (n - 1) as nat);
        let x = s[n - 1];
        let k = text_slot(rest, x, 0);
        lemma_text_slot(rest, x, 0);
        lemma_insert_kept(rest, k, x);
        assert(s.take(n as int) =~= s.take(n - 1).push(x));
        s.take(n - 1).to_multiset_ensures();
        let longer = rest.insert(k, x);
        assert forall|i: int, j: int| 0 <= i <= j < longer.len() implies !less(
            #[trigger] longer[j],
            #[trigger] longer[i],
        ) by {
            lemma_less_total(longer[i], longer[i]);
            if j < k {
                assert(longer[i] == rest[i] && longer[j] == rest[j]);
            } else if j == k {
                if i < k {
                    assert(longer[i] == rest[i]);
                }
            } else if i > k {
                assert(longer[i] == rest[i - 1] && longer[j] == rest[j - 1]);
            } else if i < k {
                assert(longer[i] == rest[i] && longer[j] == rest[j - 1]);
            } else {
                assert(longer[j] == rest[j - 1]);
                if less(rest[j - 1], x) {
                    lemma_less_chain(rest[j - 1], x, rest[k]);
                }
            }
        }
    }
}

/// Sorting texts gives the same texts, none before an earlier one.
pub proof fn law_sorting_texts(items: Seq<Val>)
    requires
        all_texts(items),
        !all_numbers(items),
    ensures
        ({
            let sorted = sorted_texts(texts_in(items), items.len());
            &&& sort_value(seq![Val::List(items)]) == Ok::<Val, Str>(
                Val::List(text_values(sorted)),
            )
            &&& texts_rising(sorted)
            &&& sorted.to_multiset() == texts_in(items).to_multiset()
        }),
{
    lemma_sorted_texts(texts_in(items), items.len());
    assert(texts_in(items).take(items.len() as int) =~= texts_in(items));
}

/// The number that a record has under a key.
pub open spec fn number_at(record: Result<Val, Str>, key: Str) -> int {
    match record {
        Ok(Val::Dict(rows)) => match get(rows, key) {
            Some(Val::Number(n)) => n as int,
            _ => 0,
        },
        _ => 0,
    }
}

proof fn lemma_signed(sign: int, n: int)
    by (nonlinear_arith)
    requires
        sign == 1 || sign == -1,
    ensures
        sign * n == (if sign == 1 { n } else { -n }),
{
}

/// The parts of a duration make up the whole.
pub proof fn law_duration_parts_make_up_the_whole(milliseconds: i64)
    requires
        milliseconds != i64::MIN,
    ensures
        ({
            let parts = duration(milliseconds);
            &&& number_at(parts, "milliseconds"@) == milliseconds
            &&& milliseconds == 86_400_000 * number_at(parts, "days"@) + 3_600_000 * number_at(
                parts,
                "hours"@,
            ) + 60_000 * number_at(parts, "minutes"@) + 1_000 * number_at(parts, "seconds"@)
                + number_at(parts, "millis"@)
        }),
{
    reveal_strlit("milliseconds");
    reveal_strlit("days");
    reveal_strlit("hours");
    reveal_strlit("minutes");
    reveal_strlit("seconds");
    reveal_strlit("millis");
    assert("milliseconds"@.len() == 12 && "days"@.len() == 4 && "hours"@.len() == 5);
    assert("minutes"@.len() == 7 && "seconds"@.len() == 7 && "millis"@.len() == 6);
    assert("minutes"@[0] != "seconds"@[0]);
    let absolute: int = if milliseconds < 0 {
        -milliseconds
    } else {
        milliseconds as int
    };
    let sign: int = if milliseconds < 0 {
        -1
    } else {
        1
    };
    let whole = Val::Number(milliseconds);
    let days = Val::Number((sign * (absolute / 86_400_000)) as i64);
    let hours = Val::Number((sign * ((absolute / 3_600_000) % 24)) as i64);
    let minutes = Val::Number((sign * ((absolute / 60_000) % 60)) as i64);
    let seconds = Val::Number((sign * ((absolute / 1_000) % 60)) as i64);
    let millis = Val::Number((sign * (absolute % 1_000)) as i64);
    let none: Rows<Val> = Seq::empty();
    let a = put(none, "milliseconds"@, whole);
    let b = put(a, "days"@, days);
    let c = put(b, "hours"@, hours);
    let d = put(c, "minutes"@, minutes);
    let e = put(d, "seconds"@, seconds);
    let f = put(e, "millis"@, millis);
    lemma_put_ordered(none, "milliseconds"@, whole);
    lemma_put_ordered(a, "days"@, days);
    lemma_put_ordered(b, "hours"@, hours);
    lemma_put_ordered(c, "minutes"@, minutes);
    lemma_put_ordered(d, "seconds"@, seconds);
    lemma_get_put_same(none, "milliseconds"@, whole);
    lemma_get_put_same(a, "days"@, days);
    lemma_get_put_same(b, "hours"@, hours);
    lemma_get_put_same(c, "minutes"@, minutes);
    lemma_get_put_same(d, "seconds"@, seconds);
    lemma_get_put_same(e, "millis"@, millis);
    lemma_get_put_other(a, "days"@, days, "milliseconds"@);
    lemma_get_put_other(b, "hours"@, hours, "milliseconds"@);
    lemma_get_put_other(c, "minutes"@, minutes, "milliseconds"@);
    lemma_get_put_other(d, "seconds"@, seconds, "milliseconds"@);
    lemma_get_put_other(e, "millis"@, millis, "milliseconds"@);
    lemma_get_put_other(b, "hours"@, hours, "days"@);
    lemma_get_put_other(c, "minutes"@, minutes, "days"@);
    lemma_get_put_other(d, "seconds"@, seconds, "days"@);
    lemma_get_put_other(e, "millis"@, millis, "days"@);
    lemma_get_put_other(c, "minutes"@, minutes, "hours"@);
    lemma_get_put_other(d, "seconds"@, seconds, "hours"@);
    lemma_get_put_other(e, "millis"@, millis, "hours"@);
    lemma_get_put_other(d, "seconds"@, seconds, "minutes"@);
    lemma_get_put_other(e, "millis"@, millis, "minutes"@);
    lemma_get_put_other(e, "millis"@, millis, "seconds"@);
    assert(duration(milliseconds) == Ok::<Val, Str>(Val::Dict(f)));
    assert(absolute / 3_600_000 == (absolute / 86_400_000) * 24 + (absolute / 3_600_000) % 24);
    assert(absolute / 60_000 == (absolute / 3_600_000) * 60 + (absolute / 60_000) % 60);
    assert(absolute / 1_000 == (absolute / 60_000) * 60 + (absolute / 1_000) % 60);
    lemma_signed(sign, absolute / 86_400_000);
    lemma_signed(sign, (absolute / 3_600_000) % 24);
    lemma_signed(sign, (absolute / 60_000) % 60);
    lemma_signed(sign, (absolute / 1_000) % 60);
    lemma_signed(sign, absolute % 1_000);
}

// ---------------------------------------------------------------------------
// Serving requests
// ---------------------------------------------------------------------------

proof fn lemma_segments_match(
    pattern: Seq<Str>,
    path: Seq<Str>,
    i: nat,
    n: nat,
    params: Rows<Val>,
    k: int,
)
    requires
        segments_match(pattern, path, i, n, params) is Some,
        i <= k < n,
        !leads(pattern[k], ':'),
    ensures
        path[k] == pattern[k],
    decreases n - i,
{
    if i < k {
        let expected = pattern[i as int];
        let next = if leads(expected, ':') {
            put(params, expected.skip(1), Val::Text(path[i as int]))
        } else {
            params
        };
        lemma_segments_match(pattern, path, i + 1, n, next, k);
    }
}

/// A route matches only paths that have its fixed segments where it has them.
pub proof fn law_fixed_segments_are_matched(pattern: Str, path: Str, k: int)
    requires
        path_params(pattern, path) is Some,
        0 <= k < split(pattern, "/"@).len(),
        !leads(split(pattern, "/"@)[k], ':'),
        k < split(pattern, "/"@).len() - 1 || !leads(split(pattern, "/"@).last(), '*'),
    ensures
        k < split(path, "/"@).len(),
        split(path, "/"@)[k] == split(pattern, "/"@)[k],
{
    let wanted = split(pattern, "/"@);
    let given = split(path, "/"@);
    if leads(wanted.last(), '*') {
        lemma_segments_match(wanted, given, 0, (wanted.len() - 1) as nat, Seq::empty(), k);
    } else {
        lemma_segments_match(wanted, given, 0, wanted.len(), Seq::empty(), k);
    }
}

pub proof fn lemma_fields_outcome(
    schema: Rows<Val>,
    i: nat,
    body: Rows<Val>,
    done: Rows<Val>,
    out: Rows<Val>,
    name: Str,
)
    requires
        i <= schema.len(),
        ordered(schema),
        ordered(done),
        fields_outcome(schema, i, body, done) == Val::ResultOk(Box::new(Val::Dict(out))),
    ensures
        forall|j: int|
            i <= j < schema.len() ==> field_outcome(
                (#[trigger] schema[j]).0,
                schema[j].1,
                body,
            ) is Ok,
        get(out, name) == (if get(body, name) is Some && (exists|j: int|
            i <= j < schema.len() && (#[trigger] schema[j]).0 == name) {
            get(body, name)
        } else {
            get(done, name)
        }),
    decreases schema.len() - i,
{
    if i < schema.len() {
        let field = schema[i as int].0;
        if let Ok(taken) = field_outcome(field, schema[i as int].1, body) {
            let next = match taken {
                Some(value) => put(done, field, value),
                None => done,
            };
            if let Some(value) = taken {
                lemma_put_ordered(done, field, value);
                lemma_get_put_same(done, field, value);
                if field != name {
                    lemma_get_put_other(done, field, value, name);
                }
            }
            lemma_fields_outcome(schema, i + 1, body, next, out, name);
        }
    }
}

pub proof fn lemma_known_fields(body: Rows<Val>, schema: Rows<Val>, i: nat, k: int)
    requires
        unknown_field(body, schema, i) is None,
        i <= k < body.len(),
    ensures
        get(schema, body[k].0) is Some,
    decreases body.len() - i,
{
    if i < k {
        lemma_known_fields(body, schema, i + 1, k);
    }
}

/// A request that is accepted is handed on as it is, and every field of the schema has found what
/// it asks for. A field that the schema does not declare is never accepted.
pub proof fn law_accepted_requests_meet_their_schema(
    body: Rows<Val>,
    schema: Rows<Val>,
    out: Rows<Val>,
    name: Str,
)
    requires
        ordered(body),
        ordered(schema),
        validated_request(seq![Val::Dict(body), Val::Dict(schema)]) == Ok::<Val, Str>(
            Val::ResultOk(Box::new(Val::Dict(out))),
        ),
    ensures
        get(out, name) == get(body, name),
        get(body, name) is Some ==> get(schema, name) is Some,
        forall|j: int|
            0 <= j < schema.len() ==> field_outcome(
                (#[trigger] schema[j]).0,
                schema[j].1,
                body,
            ) is Ok,
{
    let none: Rows<Val> = Seq::empty();
    assert(unknown_field(body, schema, 0) is None);
    lemma_fields_outcome(schema, 0, body, none, out, name);
    lemma_get_found(none, name);
    lemma_marked(schema, name);
    if get(body, name) is Some {
        lemma_get_found(body, name);
        lemma_known_fields(body, schema, 0, slot(body, name));
    }
}

/// A response holds no header of the handler that the server sets itself, and none with a line
/// break in it.
pub proof fn law_response_headers_are_safe(
    headers: Rows<Val>,
    i: nat,
    seen: Seq<Str>,
    done: Str,
    k: int,
)
    requires
        extra_headers(headers, i, seen, done) is Ok,
        i <= k < headers.len(),
    ensures
        !header_reserved(headers[k].0),
        headers[k].1 is Text,
        !has_newline(headers[k].1->Text_0),
    decreases headers.len() - i,
{
    if i < k {
        if let Val::Text(value) = headers[i as int].1 {
            law_response_headers_are_safe(
                headers,
                i + 1,
                seen.push(crate::text::ascii_lower(headers[i as int].0)),
                done + headers[i as int].0 + ": "@ + value + "\r\n"@,
                k,
            );
        }
    }
}

/// A server with a limit that ends has served exactly as many requests as the limit says.
pub proof fn law_servers_stop_at_their_limit(
    routes: Seq<Val>,
    funcs: Rows<Fun>,
    address: Str,
    served: usize,
    limit: usize,
    rounds: nat,
    w: World,
    fuel: nat,
)
    requires
        served <= limit,
        serve(routes, funcs, address, served, Some(limit), rounds, w, fuel).0 is Ok,
    ensures
        serve(routes, funcs, address, served, Some(limit), rounds, w, fuel).0 == Ok::<Val, Str>(
            served_record(address, limit),
        ),
    decreases rounds,
{
    if served < limit && rounds > 0 {
        let (reply, w1) = crate::world::ask(w, "web_accept"@, Seq::empty());
        if let Ok(value) = reply {
            let (a, w2) = answered(crate::web::request_told(value), routes, funcs, w1, fuel);
            if let Ok(response) = a {
                let (s, w3) = crate::semantics::response_sent(response, w2);
                if s is Ok {
                    law_servers_stop_at_their_limit(
                        routes,
                        funcs,
                        address,
                        (served + 1) as usize,
                        limit,
                        (rounds - 1) as nat,
                        w3,
                        fuel,
                    );
                }
            }
        }
    }
}

proof fn lemma_route_table(routes: Seq<Val>, i: nat, k: int)
    requires
        route_table(routes, i) is Ok,
        i <= k < routes.len(),
    ensures
        route_shape(routes[k]) is Ok,
        !registered(routes, k, registration(routes[k])),
    decreases routes.len() - i,
{
    if i < k {
        lemma_route_table(routes, i + 1, k);
    }
}

/// In a route table that passes, no two routes have the same method and path.
pub proof fn law_routes_are_registered_once(routes: Seq<Val>, i: int, j: int)
    requires
        route_table(routes, 0) is Ok,
        0 <= i < j < routes.len(),
    ensures
        registration(routes[i]) != registration(routes[j]),
{
    lemma_route_table(routes, 0, j);
}

proof fn lemma_handlers_known(routes: Seq<Val>, funcs: Rows<Fun>, i: nat, k: int)
    requires
        missing_handler(routes, funcs, i) is None,
        i <= k < routes.len(),
    ensures
        routes[k] matches Val::Dict(parts) ==> (get(parts, "handler"@) matches Some(
            Val::Text(name),
        ) ==> get(funcs, name) is Some),
    decreases routes.len() - i,
{
    if i < k {
        lemma_handlers_known(routes, funcs, i + 1, k);
    }
}

proof fn lemma_routed(
    routes: Seq<Val>,
    funcs: Rows<Fun>,
    request: RequestM,
    i: nat,
    matched: bool,
)
    requires
        routes_checked(routes, funcs) is Ok,
    ensures
        routed(routes, funcs, request, i, matched) is Ok,
    decreases routes.len() - i,
{
    if i < routes.len() {
        lemma_route_table(routes, 0, i as int);
        lemma_handlers_known(routes, funcs, 0, i as int);
        lemma_routed(routes, funcs, request, i + 1, matched);
        lemma_routed(routes, funcs, request, i + 1, true);
    }
}

/// Every request to routes that have been tested is answered: whatever the handler does, there is
/// a response, unless a host call is waiting or the host gave no number for the request.
pub proof fn law_requests_are_answered(
    request: Result<RequestM, Str>,
    routes: Seq<Val>,
    funcs: Rows<Fun>,
    w: World,
    fuel: nat,
)
    requires
        routes_checked(routes, funcs) is Ok,
    ensures
        answered(request, routes, funcs, w, fuel).0 is Err ==> answered(
            request,
            routes,
            funcs,
            w,
            fuel,
        ).1.pending is Some || request_id(
            match request {
                Ok(found) => found.headers,
                Err(_) => Seq::empty(),
            },
            w,
        ).0 is Err,
{
    if let Ok(found) = request {
        lemma_routed(routes, funcs, found, 0, false);
    }
}

proof fn lemma_head_read_on(
    chunks: Seq<Seq<u8>>,
    more: Seq<Seq<u8>>,
    i: nat,
    raw: Seq<u8>,
)
    requires
        head_read(chunks, i, raw) is Ok || head_read(chunks, i, raw) != Err::<HeadM, Str>(
            "web_serve received an incomplete HTTP request"@,
        ),
    ensures
        head_read(chunks + more, i, raw) == head_read(chunks, i, raw),
    decreases chunks.len() - i,
{
    if i < chunks.len() && chunks[i as int].len() > 0 {
        assert((chunks + more)[i as int] == chunks[i as int]);
        let longer = raw + chunks[i as int];
        if longer.len() <= crate::webcheck::MAX_HTTP_REQUEST_BYTES && head_end(longer, 0) is None {
            lemma_head_read_on(chunks, more, i + 1, longer);
        }
    }
}

proof fn lemma_body_read_on(
    chunks: Seq<Seq<u8>>,
    more: Seq<Seq<u8>>,
    i: nat,
    raw: Seq<u8>,
    end: int,
    need: int,
)
    requires
        body_read(chunks, i, raw, end, need) is Ok || body_read(chunks, i, raw, end, need)
            != Err::<Seq<u8>, Str>("web_serve received an incomplete request body"@),
    ensures
        body_read(chunks + more, i, raw, end, need) == body_read(chunks, i, raw, end, need),
    decreases chunks.len() - i,
{
    if raw.len() < need && i < chunks.len() && chunks[i as int].len() > 0 {
        assert((chunks + more)[i as int] == chunks[i as int]);
        let longer = raw + chunks[i as int];
        if longer.len() <= crate::webcheck::MAX_HTTP_REQUEST_BYTES + end {
            lemma_body_read_on(chunks, more, i + 1, longer, end, need);
        }
    }
}

/// Once a request does not wait for more, what follows it changes nothing.
pub proof fn law_complete_requests_need_no_more(chunks: Seq<Seq<u8>>, more: Seq<Seq<u8>>)
    requires
        !request_waits(chunks),
    ensures
        request_read(chunks + more) == request_read(chunks),
{
    lemma_head_read_on(chunks, more, 0, Seq::empty());
    if let Ok(head) = head_read(chunks, 0, Seq::empty()) {
        if vstd::utf8::valid_utf8(head.raw.take(head.end)) {
            let lines = crate::text::split(
                vstd::utf8::decode_utf8(head.raw.take(head.end)),
                "\r\n"@,
            );
            let line = crate::text::words(lines[0]);
            if line.len() >= 3 && crate::web::good_version(line[2]) {
                if let Ok((headers, length)) = headers_read(lines, 1, Seq::empty(), 0) {
                    lemma_body_read_on(
                        chunks,
                        more,
                        head.used,
                        head.raw,
                        head.end,
                        head.end + length,
                    );
                }
            }
        }
    }
}

} // verus!
