//! How a context may change while a program runs, whatever the program is.

use crate::table::{get, lemma_get_put_other, lemma_put_ordered, ordered, Rows};
use crate::text::Str;
use crate::value::Val;
use crate::world::{ask, assign, assign_all, assign_keys, cache_module, cancel_task, checkpoint,
    enter_level, extend_fields, hold, insert_local, join_task, leave_level,
    let_go, new_frame, new_object, remove_local, reserve_bytes, reserve_output, rolled_back, say,
    schedule_task, set_field, set_fields, settle, start_loading, stop_loading, task_known, validate,
    with_names, Budget, CallM, CellM, FrameM, HandM, ModuleM, TaskM, TaskState, World};
use vstd::prelude::*;

verus! {

/// Nothing is spent beyond the limits.
pub open spec fn within_budget(b: Budget) -> bool {
    b.bytes <= b.max_bytes && b.output <= b.max_output && b.tasks <= b.max_tasks
}

/// The limits stay, what is spent only grows, and it stays within the limits.
pub open spec fn budget_evolves(a: Budget, b: Budget) -> bool {
    &&& b.max_bytes == a.max_bytes
    &&& b.max_output == a.max_output
    &&& b.max_tasks == a.max_tasks
    &&& a.bytes <= b.bytes
    &&& a.output <= b.output
    &&& within_budget(a) ==> within_budget(b)
}

/// The number of tasks that have not reached a final state.
pub open spec fn scheduled(tasks: Seq<TaskM>) -> nat
    decreases tasks.len(),
{
    if tasks.len() == 0 {
        0
    } else {
        (if tasks.last().state == TaskState::Scheduled {
            1nat
        } else {
            0nat
        }) + scheduled(tasks.drop_last())
    }
}

/// The budget counts the tasks that have not reached a final state.
pub open spec fn tasks_counted(w: World) -> bool {
    w.budget.tasks == scheduled(w.tasks)
}

/// A task keeps its number and its value, a final state is never left, and the count of live
/// tasks stays right.
pub open spec fn tasks_evolve(a: World, b: World) -> bool {
    &&& a.tasks.len() <= b.tasks.len()
    &&& forall|i: int|
        0 <= i < a.tasks.len() ==> (#[trigger] b.tasks[i]).value == a.tasks[i].value && (
        a.tasks[i].state == TaskState::Scheduled || b.tasks[i].state == a.tasks[i].state)
    &&& tasks_counted(a) ==> tasks_counted(b)
}

/// Objects keep their identity; an object whose fields are held keeps them as they are.
pub open spec fn objects_evolve(a: Seq<CellM>, b: Seq<CellM>) -> bool {
    &&& a.len() <= b.len()
    &&& forall|i: int|
        0 <= i < a.len() ==> (#[trigger] b[i]).held == a[i].held && (a[i].held ==> b[i]
            == a[i])
}

/// Frames keep their place in the chain of scopes and their base path.
pub open spec fn frames_evolve(a: Seq<FrameM>, b: Seq<FrameM>) -> bool {
    &&& a.len() <= b.len()
    &&& forall|i: int|
        0 <= i < a.len() ==> (#[trigger] b[i]).parent == a[i].parent && b[i].base == a[i].base
}

/// A module that has been loaded stays as it was loaded.
pub open spec fn modules_evolve(a: Rows<ModuleM>, b: Rows<ModuleM>) -> bool {
    ordered(a) ==> ordered(b) && forall|file: Str|
        (#[trigger] get(a, file)) is Some ==> get(b, file) == get(a, file)
}

/// The calls that an untrusted run may make: it may enter its workspace, ask for the time and a
/// root, sleep, test whether a file is there, serve requests and import modules.
pub open spec fn open_to_all(call: CallM) -> bool {
    ||| call.operation == "resolve_workspace"@
    ||| call.operation == "clock"@
    ||| call.operation == "sqrt"@
    ||| call.operation == "sleep"@
    ||| call.operation == "resolve_path"@
    ||| call.operation == "exists"@
    ||| call.operation == "web_bind"@
    ||| call.operation == "web_accept"@
    ||| call.operation == "web_respond"@
    ||| call.operation == "request_number"@
    ||| call.operation == "resolve_module"@
    ||| (call.operation == "read_text"@ && call.arguments.len() == 2 && call.arguments[1]
        == Val::Text("module import"@))
}

/// Replies are used in their order and stay; output is only added to; once a call is pending it
/// stays so and nothing more is said; and an untrusted run asks for nothing that is closed to it.
pub open spec fn host_evolves(a: World, b: World) -> bool {
    &&& b.untrusted == a.untrusted
    &&& b.separator == a.separator
    &&& b.replies == a.replies
    &&& a.replies.len() <= usize::MAX ==> a.cursor <= b.cursor
    &&& a.output.is_prefix_of(b.output)
    &&& a.pending is Some ==> b.pending == a.pending && b.output == a.output
    &&& (a.untrusted && a.pending is None && b.pending is Some) ==> open_to_all(b.pending->0)
}

/// What holds between the contexts before and after any evaluation or run.
#[verifier::opaque]
pub open spec fn evolves(a: World, b: World) -> bool {
    &&& b.depth == a.depth
    &&& b.loading == a.loading
    &&& a.workspace is Some ==> b.workspace == a.workspace
    &&& b.hands == a.hands
    &&& budget_evolves(a.budget, b.budget)
    &&& tasks_evolve(a, b)
    &&& objects_evolve(a.cells, b.cells)
    &&& frames_evolve(a.frames, b.frames)
    &&& modules_evolve(a.modules, b.modules)
    &&& host_evolves(a, b)
}

pub broadcast proof fn lemma_evolves_same(a: World)
    ensures
        #[trigger] evolves(a, a),
{
    reveal(evolves);
}

pub broadcast proof fn lemma_evolves_on(a: World, b: World, c: World)
    requires
        #[trigger] evolves(a, b),
        #[trigger] evolves(b, c),
    ensures
        evolves(a, c),
{
    reveal(evolves);
    assert forall|i: int| 0 <= i < a.tasks.len() implies (#[trigger] c.tasks[i]).value
        == a.tasks[i].value && (a.tasks[i].state == TaskState::Scheduled || c.tasks[i].state
        == a.tasks[i].state) by {
        assert(b.tasks[i].value == a.tasks[i].value);
    }
    assert forall|i: int| 0 <= i < a.cells.len() implies (#[trigger] c.cells[i]).held
        == a.cells[i].held && (a.cells[i].held ==> c.cells[i] == a.cells[i]) by {
        assert(b.cells[i].held == a.cells[i].held);
    }
    assert forall|i: int| 0 <= i < a.frames.len() implies (#[trigger] c.frames[i]).parent
        == a.frames[i].parent && c.frames[i].base == a.frames[i].base by {
        assert(b.frames[i].parent == a.frames[i].parent);
    }
    assert forall|file: Str|
        ordered(a.modules) && (#[trigger] get(a.modules, file)) is Some implies get(c.modules, file)
        == get(a.modules, file) by {
        assert(get(b.modules, file) == get(a.modules, file));
    }
}

pub broadcast proof fn lemma_mode_kept(a: World, b: World)
    requires
        #[trigger] evolves(a, b),
    ensures
        b.untrusted == a.untrusted,
{
    reveal(evolves);
}

// ---------------------------------------------------------------------------
// Single steps
// ---------------------------------------------------------------------------

pub broadcast proof fn lemma_reserve_bytes_evolves(w: World, n: u64)
    ensures
        evolves(w, (#[trigger] reserve_bytes(w, n)).1),
{
    reveal(evolves);
}

pub broadcast proof fn lemma_reserve_output_evolves(w: World, n: u64)
    ensures
        evolves(w, (#[trigger] reserve_output(w, n)).1),
{
    reveal(evolves);
}

pub broadcast proof fn lemma_rolled_back_evolves(w: World, after: World)
    requires
        evolves(w, after),
    ensures
        evolves(w, #[trigger] rolled_back(after, checkpoint(w))),
{
    reveal(evolves);
}

pub broadcast proof fn lemma_schedule_evolves(w: World, value: Val)
    ensures
        evolves(w, (#[trigger] schedule_task(w, value)).1),
{
    reveal(evolves);
    let tasks = w.tasks.push(TaskM { state: TaskState::Scheduled, value });
    assert(tasks.drop_last() =~= w.tasks);
}

/// Ending a task takes it from the tasks that are counted.
pub proof fn lemma_scheduled_settled(tasks: Seq<TaskM>, i: int, state: TaskState)
    requires
        0 <= i < tasks.len(),
        tasks[i].state == TaskState::Scheduled,
        state != TaskState::Scheduled,
    ensures
        scheduled(tasks) == scheduled(tasks.update(i, TaskM { state, ..tasks[i] })) + 1,
    decreases tasks.len(),
{
    let next = tasks.update(i, TaskM { state, ..tasks[i] });
    if i == tasks.len() - 1 {
        assert(next.drop_last() =~= tasks.drop_last());
    } else {
        lemma_scheduled_settled(tasks.drop_last(), i, state);
        assert(next.drop_last() =~= tasks.drop_last().update(
            i,
            TaskM { state, ..tasks.drop_last()[i] },
        ));
    }
}

proof fn lemma_settle_evolves(w: World, id: usize, state: TaskState)
    requires
        task_known(w, id),
        w.tasks[id - 1].state == TaskState::Scheduled,
        state != TaskState::Scheduled,
    ensures
        evolves(w, settle(w, id, state)),
{
    reveal(evolves);
    lemma_scheduled_settled(w.tasks, id - 1, state);
}

pub broadcast proof fn lemma_join_evolves(w: World, id: usize, polls: Option<usize>)
    ensures
        evolves(w, (#[trigger] join_task(w, id, polls)).1),
{
    lemma_evolves_same(w);
    if task_known(w, id) && w.tasks[id - 1].state == TaskState::Scheduled {
        lemma_settle_evolves(w, id, TaskState::TimedOut);
        lemma_settle_evolves(w, id, TaskState::Joined);
    }
}

pub broadcast proof fn lemma_cancel_evolves(w: World, id: usize)
    ensures
        evolves(w, (#[trigger] cancel_task(w, id)).1),
{
    lemma_evolves_same(w);
    if task_known(w, id) && w.tasks[id - 1].state == TaskState::Scheduled {
        lemma_settle_evolves(w, id, TaskState::Cancelled);
    }
}

pub broadcast proof fn lemma_new_object_evolves(w: World, class_name: Str)
    ensures
        evolves(w, (#[trigger] new_object(w, class_name)).1),
{
    reveal(evolves);
}

pub broadcast proof fn lemma_set_fields_evolves(w: World, id: usize, fields: Rows<Val>)
    ensures
        evolves(w, (#[trigger] set_fields(w, id, fields)).1),
{
    reveal(evolves);
}

pub broadcast proof fn lemma_set_field_evolves(w: World, id: usize, name: Str, value: Val)
    ensures
        evolves(w, (#[trigger] set_field(w, id, name, value)).1),
{
    broadcast use {lemma_evolves_same, lemma_set_fields_evolves};

}

pub broadcast proof fn lemma_extend_fields_evolves(w: World, id: usize, more: Rows<Val>)
    ensures
        evolves(w, (#[trigger] extend_fields(w, id, more)).1),
{
    broadcast use {lemma_evolves_same, lemma_set_fields_evolves};

}

pub broadcast proof fn lemma_new_frame_evolves(
    w: World,
    names: Rows<Val>,
    parent: Option<usize>,
    base: Option<Str>,
)
    ensures
        evolves(w, (#[trigger] new_frame(w, names, parent, base)).1),
{
    reveal(evolves);
}

proof fn lemma_with_names_evolves(w: World, id: int, names: Rows<Val>)
    ensures
        evolves(w, with_names(w, id, names)),
{
    reveal(evolves);
}

pub broadcast proof fn lemma_insert_local_evolves(w: World, id: int, name: Str, value: Val)
    ensures
        evolves(w, #[trigger] insert_local(w, id, name, value)),
{
    lemma_with_names_evolves(
        w,
        id,
        crate::table::put(crate::world::names_of(w, id), name, value),
    );
}

pub broadcast proof fn lemma_remove_local_evolves(w: World, id: int, name: Str)
    ensures
        evolves(w, #[trigger] remove_local(w, id, name)),
{
    lemma_with_names_evolves(
        w,
        id,
        crate::table::without(crate::world::names_of(w, id), name),
    );
}

pub broadcast proof fn lemma_assign_evolves(w: World, id: int, name: Str, value: Val)
    ensures
        evolves(w, #[trigger] assign(w, id, name, value)),
{
    broadcast use lemma_insert_local_evolves;

}

pub broadcast proof fn lemma_assign_all_evolves(w: World, id: int, rows: Rows<Val>, i: int)
    ensures
        evolves(w, #[trigger] assign_all(w, id, rows, i)),
    decreases rows.len() - i,
{
    broadcast use {lemma_evolves_same, lemma_evolves_on, lemma_assign_evolves};

    if 0 <= i < rows.len() {
        lemma_assign_all_evolves(assign(w, id, rows[i].0, rows[i].1), id, rows, i + 1);
    }
}

pub broadcast proof fn lemma_assign_keys_evolves(
    w: World,
    id: int,
    keys: Seq<Str>,
    rows: Rows<Val>,
    i: int,
)
    ensures
        evolves(w, #[trigger] assign_keys(w, id, keys, rows, i)),
    decreases keys.len() - i,
{
    broadcast use {lemma_evolves_same, lemma_evolves_on, lemma_assign_evolves};

    if 0 <= i < keys.len() {
        let next = match get(rows, keys[i]) {
            Some(value) => assign(w, id, keys[i], value),
            None => w,
        };
        lemma_assign_keys_evolves(next, id, keys, rows, i + 1);
    }
}

pub broadcast proof fn lemma_say_evolves(w: World, line: Str)
    ensures
        evolves(w, #[trigger] say(w, line)),
{
    reveal(evolves);
}

pub broadcast proof fn lemma_validate_evolves(w: World, v: Val)
    ensures
        evolves(w, (#[trigger] validate(w, v)).1),
{
    reveal(evolves);
}

pub broadcast proof fn lemma_ask_evolves(w: World, operation: Str, arguments: Seq<Val>)
    requires
        !w.untrusted || open_to_all(CallM { operation, arguments }),
    ensures
        evolves(w, (#[trigger] ask(w, operation, arguments)).1),
{
    reveal(evolves);
}

// ---------------------------------------------------------------------------
// Steps that are taken back
// ---------------------------------------------------------------------------

/// What is entered is left again.
pub proof fn lemma_level_evolves(w: World, inner: World)
    requires
        enter_level(w).0 is Ok,
        evolves(enter_level(w).1, inner),
    ensures
        evolves(w, leave_level(inner)),
{
    reveal(evolves);
}

/// What is taken in hand is let go again.
pub broadcast proof fn lemma_hand_evolves(w: World, hand: HandM, inner: World)
    requires
        #[trigger] evolves(hold(w, hand), inner),
    ensures
        evolves(w, #[trigger] let_go(inner)),
{
    reveal(evolves);
    assert(w.hands.push(hand).drop_last() =~= w.hands);
}

/// A module that is being loaded is taken from the list again.
pub proof fn lemma_loading_evolves(w: World, file: Str, inner: World)
    requires
        evolves(start_loading(w, file), inner),
    ensures
        evolves(w, stop_loading(inner)),
{
    reveal(evolves);
    assert(w.loading.push(file).drop_last() =~= w.loading);
}

/// A module that was not known is kept once it is loaded.
pub proof fn lemma_cache_evolves(w: World, after: World, file: Str, module: ModuleM)
    requires
        evolves(w, after),
        get(w.modules, file) is None,
    ensures
        evolves(w, cache_module(after, file, module)),
{
    reveal(evolves);
    if ordered(w.modules) {
        lemma_put_ordered(after.modules, file, module);
        let next = cache_module(after, file, module);
        assert forall|other: Str| (#[trigger] get(w.modules, other)) is Some implies get(
            next.modules,
            other,
        ) == get(w.modules, other) by {
            lemma_get_put_other(after.modules, file, module, other);
        }
    }
}

pub broadcast group group_steps {
    lemma_evolves_same,
    lemma_evolves_on,
    lemma_mode_kept,
    lemma_reserve_bytes_evolves,
    lemma_reserve_output_evolves,
    lemma_rolled_back_evolves,
    lemma_schedule_evolves,
    lemma_join_evolves,
    lemma_cancel_evolves,
    lemma_new_object_evolves,
    lemma_set_field_evolves,
    lemma_extend_fields_evolves,
    lemma_new_frame_evolves,
    lemma_insert_local_evolves,
    lemma_remove_local_evolves,
    lemma_assign_evolves,
    lemma_assign_all_evolves,
    lemma_assign_keys_evolves,
    lemma_say_evolves,
    lemma_validate_evolves,
    lemma_hand_evolves,
    lemma_ask_evolves,
}

} // verus!
