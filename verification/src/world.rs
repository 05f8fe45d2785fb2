//! The execution context: logical budget, object store, frames, tasks, modules and the log of
//! host calls.

use crate::ast::{copy_opt, opt_text, views};
use crate::table::{get, put, put_all, put_all_from, without, Rows, Table};
use crate::text::{count_text, decimal, join2, join3, length_text, texts, Str};
use crate::value::{clamp, copy_functions, copy_table, cost, fail, plus, shallow_cost, told,
    told_unit, within_limits, Fun, Functions, Val, ZapValue};
use std::rc::Rc;
use vstd::prelude::*;

verus! {

pub const MAX_EXECUTION_DEPTH: usize = 256;

pub const DEFAULT_MAX_BYTES: u64 = 1_073_741_824;

pub const DEFAULT_MAX_TASKS: u64 = 1_024;

pub const DEFAULT_MAX_OUTPUT: u64 = 268_435_456;

/// What a run may use, and what it has used: logical bytes, live tasks, bytes of text output.
#[derive(Clone, Copy, Debug, PartialEq, Eq, Structural)]
pub struct Budget {
    pub max_bytes: u64,
    pub max_tasks: u64,
    pub max_output: u64,
    pub bytes: u64,
    pub tasks: u64,
    pub output: u64,
}

/// Counters of the object store.
#[derive(Clone, Copy, Debug, PartialEq, Eq, Structural)]
pub struct StoreStats {
    pub cleanup_attempts: u64,
    pub cleanup_successes: u64,
    pub cleanup_failures: u64,
    pub validation_runs: u64,
}

/// The fields of an object. While `held` is set the fields can be neither read nor changed.
#[derive(Debug)]
pub struct Cell {
    pub fields: Table<ZapValue>,
    pub held: bool,
}

/// An environment frame.
#[derive(Debug)]
pub struct Frame {
    pub names: Table<ZapValue>,
    pub parent: Option<usize>,
    pub base: Option<String>,
}

#[derive(Clone, Copy, Debug, PartialEq, Eq, Structural)]
pub enum TaskState {
    Scheduled,
    Joined,
    Cancelled,
    TimedOut,
}

#[derive(Debug)]
pub struct Task {
    pub state: TaskState,
    pub value: ZapValue,
}

/// Why a task could not be joined.
#[derive(Clone, Copy, Debug, PartialEq, Eq, Structural)]
pub enum TaskError {
    UnknownTask,
    AlreadyJoined,
    Cancelled,
    TimedOut,
}

/// What a module left behind when it was loaded.
#[derive(Debug)]
pub struct Module {
    pub vars: Table<ZapValue>,
    pub funcs: Functions,
}

/// A request to the host: an operation with its arguments.
#[derive(Debug)]
pub struct HostCall {
    pub operation: String,
    pub arguments: Vec<ZapValue>,
}

/// What an evaluation, or the host, keeps in hand: values, from number `from` on, and frames.
#[derive(Debug)]
pub struct Hand {
    pub values: Rc<Vec<ZapValue>>,
    pub from: usize,
    pub frames: Vec<usize>,
}

/// All state of a run. Host calls are answered from `replies` in their order; the first call
/// without a reply is left in `pending`.
#[derive(Debug)]
pub struct ExecutionContext {
    pub budget: Budget,
    pub stats: StoreStats,
    pub cells: Vec<Cell>,
    pub frames: Vec<Frame>,
    pub tasks: Vec<Task>,
    pub depth: usize,
    pub modules: Table<Module>,
    pub loading: Vec<String>,
    pub workspace: Option<String>,
    pub separator: char,
    pub untrusted: bool,
    pub replies: Vec<Result<ZapValue, String>>,
    pub cursor: usize,
    pub pending: Option<HostCall>,
    pub output: Vec<String>,
    pub hands: Vec<Hand>,
}

// ---------------------------------------------------------------------------
// The model
// ---------------------------------------------------------------------------

pub struct CellM {
    pub fields: Rows<Val>,
    pub held: bool,
}

pub struct FrameM {
    pub names: Rows<Val>,
    pub parent: Option<usize>,
    pub base: Option<Str>,
}

pub struct TaskM {
    pub state: TaskState,
    pub value: Val,
}

pub struct ModuleM {
    pub vars: Rows<Val>,
    pub funcs: Rows<Fun>,
}

pub struct HandM {
    pub values: Seq<Val>,
    pub frames: Seq<usize>,
}

pub struct CallM {
    pub operation: Str,
    pub arguments: Seq<Val>,
}

/// The model of an execution context.
#[verifier::ext_equal]
pub struct World {
    pub budget: Budget,
    pub stats: StoreStats,
    pub cells: Seq<CellM>,
    pub frames: Seq<FrameM>,
    pub tasks: Seq<TaskM>,
    pub depth: usize,
    pub modules: Rows<ModuleM>,
    pub loading: Seq<Str>,
    pub workspace: Option<Str>,
    pub separator: char,
    pub untrusted: bool,
    pub replies: Seq<Result<Val, Str>>,
    pub cursor: usize,
    pub pending: Option<CallM>,
    pub output: Seq<Str>,
    pub hands: Seq<HandM>,
}

impl View for Cell {
    type V = CellM;

    open spec fn view(&self) -> CellM {
        CellM { fields: self.fields@, held: self.held }
    }
}

impl View for Frame {
    type V = FrameM;

    open spec fn view(&self) -> FrameM {
        FrameM { names: self.names@, parent: self.parent, base: opt_text(self.base) }
    }
}

impl View for Task {
    type V = TaskM;

    open spec fn view(&self) -> TaskM {
        TaskM { state: self.state, value: self.value@ }
    }
}

impl View for Module {
    type V = ModuleM;

    open spec fn view(&self) -> ModuleM {
        ModuleM { vars: self.vars@, funcs: self.funcs@ }
    }
}

impl View for Hand {
    type V = HandM;

    open spec fn view(&self) -> HandM {
        HandM {
            values: if self.from <= self.values@.len() {
                views(self.values@).skip(self.from as int)
            } else {
                Seq::empty()
            },
            frames: self.frames@,
        }
    }
}

impl View for HostCall {
    type V = CallM;

    open spec fn view(&self) -> CallM {
        CallM { operation: self.operation@, arguments: views(self.arguments@) }
    }
}

pub open spec fn reply_views(v: Seq<Result<ZapValue, String>>) -> Seq<Result<Val, Str>> {
    Seq::new(v.len(), |i: int| told(v[i]))
}

pub open spec fn opt_call(call: Option<HostCall>) -> Option<CallM> {
    match call {
        Some(c) => Some(c@),
        None => None,
    }
}

impl View for ExecutionContext {
    type V = World;

    open spec fn view(&self) -> World {
        World {
            budget: self.budget,
            stats: self.stats,
            cells: views(self.cells@),
            frames: views(self.frames@),
            tasks: views(self.tasks@),
            depth: self.depth,
            modules: self.modules@,
            loading: texts(self.loading@),
            workspace: opt_text(self.workspace),
            separator: self.separator,
            untrusted: self.untrusted,
            replies: reply_views(self.replies@),
            cursor: self.cursor,
            pending: opt_call(self.pending),
            output: texts(self.output@),
            hands: views(self.hands@),
        }
    }
}

/// A context at the start of a run.
pub open spec fn fresh() -> World {
    World {
        budget: Budget {
            max_bytes: DEFAULT_MAX_BYTES,
            max_tasks: DEFAULT_MAX_TASKS,
            max_output: DEFAULT_MAX_OUTPUT,
            bytes: 0,
            tasks: 0,
            output: 0,
        },
        stats: StoreStats {
            cleanup_attempts: 0,
            cleanup_successes: 0,
            cleanup_failures: 0,
            validation_runs: 0,
        },
        cells: Seq::empty(),
        frames: Seq::empty(),
        tasks: Seq::empty(),
        depth: 0,
        modules: Seq::empty(),
        loading: Seq::empty(),
        workspace: None,
        separator: '/',
        untrusted: false,
        replies: Seq::empty(),
        cursor: 0,
        pending: None,
        output: Seq::empty(),
        hands: Seq::empty(),
    }
}

/// A context at the start of a run on a host: the separator of its paths, and its replies so far.
pub open spec fn hosted(sep: char, replies: Seq<Result<Val, Str>>) -> World {
    World { separator: sep, replies, ..fresh() }
}

/// The context with the traces of a run taken away: counters of use, tasks, modules and output.
pub open spec fn cleared(w: World) -> World {
    World {
        budget: Budget { bytes: 0, tasks: 0, output: 0, ..w.budget },
        tasks: Seq::empty(),
        depth: 0,
        modules: Seq::empty(),
        loading: Seq::empty(),
        output: Seq::empty(),
        ..w
    }
}

impl ExecutionContext {
    pub fn new() -> (r: Self)
        ensures
            r@ == fresh(),
    {
        let r = ExecutionContext {
            budget: Budget {
                max_bytes: DEFAULT_MAX_BYTES,
                max_tasks: DEFAULT_MAX_TASKS,
                max_output: DEFAULT_MAX_OUTPUT,
                bytes: 0,
                tasks: 0,
                output: 0,
            },
            stats: StoreStats {
                cleanup_attempts: 0,
                cleanup_successes: 0,
                cleanup_failures: 0,
                validation_runs: 0,
            },
            cells: Vec::new(),
            frames: Vec::new(),
            tasks: Vec::new(),
            depth: 0,
            modules: Table::new(),
            loading: Vec::new(),
            workspace: None,
            separator: '/',
            untrusted: false,
            replies: Vec::new(),
            cursor: 0,
            pending: None,
            output: Vec::new(),
            hands: Vec::new(),
        };
        assert(r@ =~= fresh());
        r
    }

    pub fn on_host(sep: char, replies: Vec<Result<ZapValue, String>>) -> (r: Self)
        ensures
            r@ == hosted(sep, reply_views(replies@)),
    {
        let mut r = ExecutionContext::new();
        r.separator = sep;
        r.replies = replies;
        assert(r@ =~= hosted(sep, reply_views(replies@)));
        r
    }

    /// Forgets what an earlier run used and loaded.
    pub fn reset_for_run(&mut self)
        ensures
            final(self)@ == cleared(old(self)@),
    {
        self.budget.bytes = 0;
        self.budget.tasks = 0;
        self.budget.output = 0;
        self.tasks = Vec::new();
        self.depth = 0;
        self.modules = Table::new();
        self.loading = Vec::new();
        self.output = Vec::new();
        assert(self@ =~= cleared(old(self)@));
    }
}

// ---------------------------------------------------------------------------
// Budget
// ---------------------------------------------------------------------------

pub open spec fn bytes_error(b: Budget) -> Str {
    "memory budget exceeded: limit is "@ + decimal(b.max_bytes as int) + " bytes"@
}

pub open spec fn output_error(b: Budget) -> Str {
    "memory budget exceeded: limit is "@ + decimal(b.max_output as int) + " output bytes"@
}

pub open spec fn tasks_error(b: Budget) -> Str {
    "memory budget exceeded: limit is "@ + decimal(b.max_tasks as int) + " tasks"@
}

/// Takes `n` logical bytes from the budget, or leaves it as it is and fails.
pub open spec fn reserve_bytes(w: World, n: u64) -> (Result<(), Str>, World) {
    if w.budget.bytes + n > w.budget.max_bytes {
        (Err(bytes_error(w.budget)), w)
    } else {
        (
            Ok(()),
            World { budget: Budget { bytes: (w.budget.bytes + n) as u64, ..w.budget }, ..w },
        )
    }
}

pub open spec fn reserve_output(w: World, n: u64) -> (Result<(), Str>, World) {
    if w.budget.output + n > w.budget.max_output {
        (Err(output_error(w.budget)), w)
    } else {
        (
            Ok(()),
            World { budget: Budget { output: (w.budget.output + n) as u64, ..w.budget }, ..w },
        )
    }
}

/// The counters to which a failed step goes back.
pub open spec fn checkpoint(w: World) -> (u64, u64) {
    (w.budget.bytes, w.budget.output)
}

pub open spec fn rolled_back(w: World, mark: (u64, u64)) -> World {
    World { budget: Budget { bytes: mark.0, output: mark.1, ..w.budget }, ..w }
}

impl Budget {
    pub fn set_limits(&mut self, max_bytes: u64, max_tasks: u64, max_output: u64)
        ensures
            *final(self) == (Budget { max_bytes, max_tasks, max_output, ..*old(self) }),
    {
        self.max_bytes = max_bytes;
        self.max_tasks = max_tasks;
        self.max_output = max_output;
    }

    /// The logical bytes, tasks and output bytes in use.
    pub fn usage(&self) -> (r: (u64, u64, u64))
        ensures
            r == (self.bytes, self.tasks, self.output),
    {
        (self.bytes, self.tasks, self.output)
    }
}

impl ExecutionContext {
    pub fn reserve_bytes(&mut self, n: u64) -> (r: Result<(), String>)
        ensures
            (told_unit(r), final(self)@) == reserve_bytes(old(self)@, n),
    {
        if self.budget.bytes as u128 + n as u128 > self.budget.max_bytes as u128 {
            return Err(
                join3(
                    "memory budget exceeded: limit is ",
                    count_text(self.budget.max_bytes).as_str(),
                    " bytes",
                ),
            );
        }
        self.budget.bytes = self.budget.bytes + n;
        assert(self@ =~= reserve_bytes(old(self)@, n).1);
        Ok(())
    }

    pub fn reserve_output(&mut self, n: u64) -> (r: Result<(), String>)
        ensures
            (told_unit(r), final(self)@) == reserve_output(old(self)@, n),
    {
        if self.budget.output as u128 + n as u128 > self.budget.max_output as u128 {
            return Err(
                join3(
                    "memory budget exceeded: limit is ",
                    count_text(self.budget.max_output).as_str(),
                    " output bytes",
                ),
            );
        }
        self.budget.output = self.budget.output + n;
        assert(self@ =~= reserve_output(old(self)@, n).1);
        Ok(())
    }

    pub fn reserve_value(&mut self, value: &ZapValue) -> (r: Result<(), String>)
        ensures
            (told_unit(r), final(self)@) == reserve_bytes(old(self)@, cost(value@)),
    {
        self.reserve_bytes(value.cost())
    }

    pub fn reserve_shallow_value(&mut self, value: &ZapValue) -> (r: Result<(), String>)
        ensures
            (told_unit(r), final(self)@) == reserve_bytes(old(self)@, shallow_cost(value@)),
    {
        self.reserve_bytes(value.shallow_cost())
    }

    pub fn memory_checkpoint(&self) -> (r: (u64, u64))
        ensures
            r == checkpoint(self@),
    {
        (self.budget.bytes, self.budget.output)
    }

    pub fn rollback_memory(&mut self, mark: (u64, u64))
        ensures
            final(self)@ == rolled_back(old(self)@, mark),
    {
        self.budget.bytes = mark.0;
        self.budget.output = mark.1;
        assert(self@ =~= rolled_back(old(self)@, mark));
    }
}

// ---------------------------------------------------------------------------
// Tasks
// ---------------------------------------------------------------------------

/// Schedules a completed value; its task number is returned.
pub open spec fn schedule_task(w: World, value: Val) -> (Result<usize, Str>, World) {
    if w.budget.tasks >= w.budget.max_tasks || w.tasks.len() >= usize::MAX {
        (Err(tasks_error(w.budget)), w)
    } else {
        (
            Ok((w.tasks.len() + 1) as usize),
            World {
                budget: Budget { tasks: (w.budget.tasks + 1) as u64, ..w.budget },
                tasks: w.tasks.push(TaskM { state: TaskState::Scheduled, value }),
                ..w
            },
        )
    }
}

pub open spec fn task_known(w: World, id: usize) -> bool {
    1 <= id <= w.tasks.len()
}

/// The context after a task has reached a final state and given its place in the budget back.
pub open spec fn settle(w: World, id: usize, state: TaskState) -> World {
    World {
        budget: Budget {
            tasks: if w.budget.tasks > 0 {
                (w.budget.tasks - 1) as u64
            } else {
                0
            },
            ..w.budget
        },
        tasks: w.tasks.update(id - 1, TaskM { state, ..w.tasks[id - 1] }),
        ..w
    }
}

/// Joins a task within a number of polls, if one is given.
pub open spec fn join_task(w: World, id: usize, polls: Option<usize>) -> (
    Result<Val, TaskError>,
    World,
) {
    if !task_known(w, id) {
        (Err(TaskError::UnknownTask), w)
    } else {
        match w.tasks[id - 1].state {
            TaskState::Joined => (Err(TaskError::AlreadyJoined), w),
            TaskState::Cancelled => (Err(TaskError::Cancelled), w),
            TaskState::TimedOut => (Err(TaskError::TimedOut), w),
            TaskState::Scheduled => if polls == Some(0usize) {
                (Err(TaskError::TimedOut), settle(w, id, TaskState::TimedOut))
            } else {
                (Ok(w.tasks[id - 1].value), settle(w, id, TaskState::Joined))
            },
        }
    }
}

pub open spec fn cancel_task(w: World, id: usize) -> (bool, World) {
    if task_known(w, id) && w.tasks[id - 1].state == TaskState::Scheduled {
        (true, settle(w, id, TaskState::Cancelled))
    } else {
        (false, w)
    }
}

/// A task is ready once it has been run.
pub open spec fn task_ready(w: World, id: usize) -> bool {
    task_known(w, id) && w.tasks[id - 1].state == TaskState::Joined
}

pub open spec fn task_error_name(e: TaskError) -> Str {
    match e {
        TaskError::UnknownTask => "UnknownTask"@,
        TaskError::AlreadyJoined => "AlreadyJoined"@,
        TaskError::Cancelled => "Cancelled"@,
        TaskError::TimedOut => "TimedOut"@,
    }
}

pub open spec fn joined_view(r: Result<ZapValue, TaskError>) -> Result<Val, TaskError> {
    match r {
        Ok(value) => Ok(value@),
        Err(error) => Err(error),
    }
}

pub open spec fn told_id(r: Result<usize, String>) -> Result<usize, Str> {
    match r {
        Ok(id) => Ok(id),
        Err(error) => Err(error@),
    }
}

impl TaskError {
    pub fn name(&self) -> (r: &'static str)
        ensures
            r@ == task_error_name(*self),
    {
        match self {
            TaskError::UnknownTask => "UnknownTask",
            TaskError::AlreadyJoined => "AlreadyJoined",
            TaskError::Cancelled => "Cancelled",
            TaskError::TimedOut => "TimedOut",
        }
    }
}

impl ExecutionContext {
    pub fn schedule_language_task(&mut self, value: ZapValue) -> (r: Result<usize, String>)
        ensures
            (told_id(r), final(self)@) == schedule_task(old(self)@, value@),
    {
        if self.budget.tasks >= self.budget.max_tasks || self.tasks.len() >= usize::MAX {
            return Err(
                join3(
                    "memory budget exceeded: limit is ",
                    count_text(self.budget.max_tasks).as_str(),
                    " tasks",
                ),
            );
        }
        self.budget.tasks = self.budget.tasks + 1;
        let id: usize = self.tasks.len() + 1;
        self.tasks.push(Task { state: TaskState::Scheduled, value });
        assert(self@.tasks =~= old(self)@.tasks.push(
            TaskM { state: TaskState::Scheduled, value: value@ },
        ));
        assert(self@ =~= schedule_task(old(self)@, value@).1);
        Ok(id)
    }

    fn settle(&mut self, id: usize, state: TaskState)
        requires
            task_known(old(self)@, id),
        ensures
            final(self)@ == settle(old(self)@, id, state),
    {
        if self.budget.tasks > 0 {
            self.budget.tasks = self.budget.tasks - 1;
        }
        let value = self.tasks[id - 1].value.copy();
        self.tasks.set(id - 1, Task { state, value });
        assert(self@.tasks =~= settle(old(self)@, id, state).tasks);
        assert(self@ =~= settle(old(self)@, id, state));
    }

    pub fn join_language_task(&mut self, id: usize, polls: Option<usize>) -> (r: Result<
        ZapValue,
        TaskError,
    >)
        ensures
            (joined_view(r), final(self)@) == join_task(old(self)@, id, polls),
    {
        if id == 0 || id > self.tasks.len() {
            return Err(TaskError::UnknownTask);
        }
        assert(self@.tasks[id - 1] == self.tasks@[id - 1]@);
        match self.tasks[id - 1].state {
            TaskState::Joined => Err(TaskError::AlreadyJoined),
            TaskState::Cancelled => Err(TaskError::Cancelled),
            TaskState::TimedOut => Err(TaskError::TimedOut),
            TaskState::Scheduled => {
                let exhausted = match polls {
                    Some(n) => n == 0,
                    None => false,
                };
                if exhausted {
                    self.settle(id, TaskState::TimedOut);
                    Err(TaskError::TimedOut)
                } else {
                    let value = self.tasks[id - 1].value.copy();
                    self.settle(id, TaskState::Joined);
                    Ok(value)
                }
            },
        }
    }

    pub fn cancel_language_task(&mut self, id: usize) -> (r: bool)
        ensures
            (r, final(self)@) == cancel_task(old(self)@, id),
    {
        if id == 0 || id > self.tasks.len() {
            return false;
        }
        assert(self@.tasks[id - 1] == self.tasks@[id - 1]@);
        if self.tasks[id - 1].state == TaskState::Scheduled {
            self.settle(id, TaskState::Cancelled);
            true
        } else {
            false
        }
    }

    pub fn language_task_is_ready(&self, id: usize) -> (r: bool)
        ensures
            r == task_ready(self@, id),
    {
        if id == 0 || id > self.tasks.len() {
            return false;
        }
        assert(self@.tasks[id - 1] == self.tasks@[id - 1]@);
        self.tasks[id - 1].state == TaskState::Joined
    }
}

// ---------------------------------------------------------------------------
// Objects
// ---------------------------------------------------------------------------

pub open spec fn borrow_error() -> Str {
    "BorrowError: object fields are already borrowed"@
}

pub open spec fn new_object(w: World, class_name: Str) -> (Val, World) {
    (
        Val::Object { class_name, id: w.cells.len() as usize },
        World {
            cells: w.cells.push(CellM { fields: Seq::empty(), held: false }),
            ..w
        },
    )
}

/// The fields of an object, unless they are held. An object without a cell has none.
pub open spec fn fields_of(w: World, id: usize) -> Result<Rows<Val>, Str> {
    if id >= w.cells.len() {
        Ok(Seq::empty())
    } else if w.cells[id as int].held {
        Err(borrow_error())
    } else {
        Ok(w.cells[id as int].fields)
    }
}

pub open spec fn with_fields(w: World, id: usize, fields: Rows<Val>) -> World {
    World {
        cells: w.cells.update(id as int, CellM { fields, ..w.cells[id as int] }),
        ..w
    }
}

/// Puts new fields in place of the old ones, unless they are held.
pub open spec fn set_fields(w: World, id: usize, fields: Rows<Val>) -> (Result<(), Str>, World) {
    if id >= w.cells.len() {
        (Ok(()), w)
    } else if w.cells[id as int].held {
        (Err(borrow_error()), w)
    } else {
        (Ok(()), with_fields(w, id, fields))
    }
}

pub open spec fn set_field(w: World, id: usize, name: Str, value: Val) -> (Result<(), Str>, World) {
    match fields_of(w, id) {
        Err(error) => (Err(error), w),
        Ok(fields) => set_fields(w, id, put(fields, name, value)),
    }
}

pub open spec fn extend_fields(w: World, id: usize, more: Rows<Val>) -> (Result<(), Str>, World) {
    match fields_of(w, id) {
        Err(error) => (Err(error), w),
        Ok(fields) => set_fields(w, id, put_all(fields, more)),
    }
}

/// Clears the fields of an object and counts the attempt.
pub open spec fn clear_fields(w: World, id: usize) -> (Result<(), Str>, World) {
    let (r, cleaned) = set_fields(w, id, Seq::empty());
    (
        r,
        World {
            stats: StoreStats {
                cleanup_attempts: clamp(w.stats.cleanup_attempts + 1),
                cleanup_successes: if r is Ok {
                    clamp(w.stats.cleanup_successes + 1)
                } else {
                    w.stats.cleanup_successes
                },
                cleanup_failures: if r is Ok {
                    w.stats.cleanup_failures
                } else {
                    clamp(w.stats.cleanup_failures + 1)
                },
                ..w.stats
            },
            ..cleaned
        },
    )
}

/// Tests a value against the limits; a test of an object is counted.
pub open spec fn validate(w: World, v: Val) -> (Result<(), Str>, World) {
    (
        within_limits(v),
        if v is Object {
            World {
                stats: StoreStats {
                    validation_runs: clamp(w.stats.validation_runs + 1),
                    ..w.stats
                },
                ..w
            }
        } else {
            w
        },
    )
}

/// Puts all entries of `other` into `target`.
pub fn extend_table(target: &mut Table<ZapValue>, other: &Table<ZapValue>)
    ensures
        final(target)@ == put_all(old(target)@, other@),
{
    let mut i: usize = 0;
    while i < other.entries.len()
        invariant
            i <= other.entries@.len(),
            put_all(old(target)@, other@) == put_all_from(target@, other@, i as int),
        decreases other.entries.len() - i,
    {
        let value = other.entries[i].1.copy();
        target.insert(other.entries[i].0.clone(), value);
        i += 1;
    }
}

impl ExecutionContext {
    pub fn new_object(&mut self, class_name: &str) -> (r: ZapValue)
        ensures
            (r@, final(self)@) == new_object(old(self)@, class_name@),
    {
        let id: usize = self.cells.len();
        self.cells.push(Cell { fields: Table::new(), held: false });
        assert(self@.cells =~= new_object(old(self)@, class_name@).1.cells);
        assert(self@ =~= new_object(old(self)@, class_name@).1);
        ZapValue::Object { class_name: class_name.to_owned(), id }
    }

    /// A copy of the fields of an object.
    pub fn fields_of(&self, id: usize) -> (r: Result<Table<ZapValue>, String>)
        ensures
            told(r) == fields_of(self@, id),
    {
        if id >= self.cells.len() {
            return Ok(Table::new());
        }
        assert(self@.cells[id as int] == self.cells@[id as int]@);
        if self.cells[id].held {
            return fail("BorrowError: object fields are already borrowed");
        }
        Ok(copy_table(&self.cells[id].fields))
    }

    pub fn set_fields(&mut self, id: usize, fields: Table<ZapValue>) -> (r: Result<(), String>)
        ensures
            (told_unit(r), final(self)@) == set_fields(old(self)@, id, fields@),
    {
        if id >= self.cells.len() {
            return Ok(());
        }
        assert(self@.cells[id as int] == self.cells@[id as int]@);
        if self.cells[id].held {
            return fail("BorrowError: object fields are already borrowed");
        }
        self.cells.set(id, Cell { fields, held: false });
        assert(self@.cells =~= with_fields(old(self)@, id, fields@).cells);
        assert(self@ =~= with_fields(old(self)@, id, fields@));
        Ok(())
    }

    pub fn set_field(&mut self, id: usize, name: &str, value: ZapValue) -> (r: Result<(), String>)
        ensures
            (told_unit(r), final(self)@) == set_field(old(self)@, id, name@, value@),
    {
        match self.fields_of(id) {
            Err(error) => Err(error),
            Ok(mut fields) => {
                fields.insert(name.to_owned(), value);
                self.set_fields(id, fields)
            },
        }
    }

    pub fn extend_fields(&mut self, id: usize, more: &Table<ZapValue>) -> (r: Result<(), String>)
        ensures
            (told_unit(r), final(self)@) == extend_fields(old(self)@, id, more@),
    {
        match self.fields_of(id) {
            Err(error) => Err(error),
            Ok(mut fields) => {
                extend_table(&mut fields, more);
                self.set_fields(id, fields)
            },
        }
    }

    /// Empties an object, so that cycles through it are broken.
    pub fn clear_object_fields(&mut self, id: usize) -> (r: Result<(), String>)
        ensures
            (told_unit(r), final(self)@) == clear_fields(old(self)@, id),
    {
        let r = self.set_fields(id, Table::new());
        self.stats.cleanup_attempts = plus(self.stats.cleanup_attempts, 1);
        if r.is_ok() {
            self.stats.cleanup_successes = plus(self.stats.cleanup_successes, 1);
        } else {
            self.stats.cleanup_failures = plus(self.stats.cleanup_failures, 1);
        }
        assert(self@ =~= clear_fields(old(self)@, id).1);
        r
    }

    /// Marks the fields of an object as held or free.
    pub fn hold_object(&mut self, id: usize, held: bool)
        ensures
            id < old(self)@.cells.len() ==> final(self)@ == (World {
                cells: old(self)@.cells.update(
                    id as int,
                    CellM { held, ..old(self)@.cells[id as int] },
                ),
                ..old(self)@
            }),
            id >= old(self)@.cells.len() ==> final(self)@ == old(self)@,
    {
        if id < self.cells.len() {
            let fields = copy_table(&self.cells[id].fields);
            self.cells.set(id, Cell { fields, held });
            assert(self@.cells =~= old(self)@.cells.update(
                id as int,
                CellM { held, ..old(self)@.cells[id as int] },
            ));
            assert(self@ =~= World { cells: self@.cells, ..old(self)@ });
        }
    }

    pub fn validate(&mut self, value: &ZapValue) -> (r: Result<(), String>)
        ensures
            (told_unit(r), final(self)@) == validate(old(self)@, value@),
    {
        if let ZapValue::Object { .. } = value {
            self.stats.validation_runs = plus(self.stats.validation_runs, 1);
        }
        assert(self@ =~= validate(old(self)@, value@).1);
        value.validate_memory_limits()
    }
}

// ---------------------------------------------------------------------------
// Frames
// ---------------------------------------------------------------------------

pub open spec fn parent_of(frames: Seq<FrameM>, id: int) -> Option<int> {
    if 0 <= id < frames.len() {
        match frames[id].parent {
            Some(p) => if p < id {
                Some(p as int)
            } else {
                None
            },
            None => None,
        }
    } else {
        None
    }
}

/// All names that a frame sees, an inner binding before an outer one.
pub open spec fn snapshot(frames: Seq<FrameM>, id: int) -> Rows<Val>
    decreases id,
{
    if 0 <= id < frames.len() {
        match parent_of(frames, id) {
            Some(p) => put_all(
                if p < id {
                    snapshot(frames, p)
                } else {
                    Seq::empty()
                },
                frames[id].names,
            ),
            None => put_all(Seq::empty(), frames[id].names),
        }
    } else {
        Seq::empty()
    }
}

/// The innermost frame, seen from `id`, that binds a name.
pub open spec fn holder(frames: Seq<FrameM>, id: int, name: Str) -> Option<int>
    decreases id,
{
    if 0 <= id < frames.len() {
        if get(frames[id].names, name) is Some {
            Some(id)
        } else {
            match parent_of(frames, id) {
                Some(p) => if p < id {
                    holder(frames, p, name)
                } else {
                    None
                },
                None => None,
            }
        }
    } else {
        None
    }
}

/// The base path of the innermost frame that has one.
pub open spec fn base_of(frames: Seq<FrameM>, id: int) -> Option<Str>
    decreases id,
{
    if 0 <= id < frames.len() {
        match frames[id].base {
            Some(base) => Some(base),
            None => match parent_of(frames, id) {
                Some(p) => if p < id {
                    base_of(frames, p)
                } else {
                    None
                },
                None => None,
            },
        }
    } else {
        None
    }
}

pub open spec fn lookup(frames: Seq<FrameM>, id: int, name: Str) -> Option<Val> {
    match holder(frames, id, name) {
        Some(h) => get(frames[h].names, name),
        None => None,
    }
}

pub open spec fn new_frame(
    w: World,
    names: Rows<Val>,
    parent: Option<usize>,
    base: Option<Str>,
) -> (usize, World) {
    (
        w.frames.len() as usize,
        World { frames: w.frames.push(FrameM { names, parent, base }), ..w },
    )
}

pub open spec fn with_names(w: World, id: int, names: Rows<Val>) -> World {
    if 0 <= id < w.frames.len() {
        World { frames: w.frames.update(id, FrameM { names, ..w.frames[id] }), ..w }
    } else {
        w
    }
}

pub open spec fn names_of(w: World, id: int) -> Rows<Val> {
    if 0 <= id < w.frames.len() {
        w.frames[id].names
    } else {
        Seq::empty()
    }
}

pub open spec fn insert_local(w: World, id: int, name: Str, value: Val) -> World {
    with_names(w, id, put(names_of(w, id), name, value))
}

pub open spec fn remove_local(w: World, id: int, name: Str) -> World {
    with_names(w, id, without(names_of(w, id), name))
}

/// Binds a name where it is bound already, seen from the frame, or else in the frame itself.
pub open spec fn assign(w: World, id: int, name: Str, value: Val) -> World {
    match holder(w.frames, id, name) {
        Some(h) => insert_local(w, h, name, value),
        None => insert_local(w, id, name, value),
    }
}

/// Assigns the entries of a table from position `i` on.
pub open spec fn assign_all(w: World, id: int, rows: Rows<Val>, i: int) -> World
    decreases rows.len() - i,
{
    if 0 <= i < rows.len() {
        assign_all(assign(w, id, rows[i].0, rows[i].1), id, rows, i + 1)
    } else {
        w
    }
}

/// Assigns, for each of the names from position `i` on, what a table binds it to.
pub open spec fn assign_keys(w: World, id: int, keys: Seq<Str>, rows: Rows<Val>, i: int) -> World
    decreases keys.len() - i,
{
    if 0 <= i < keys.len() {
        assign_keys(
            match get(rows, keys[i]) {
                Some(value) => assign(w, id, keys[i], value),
                None => w,
            },
            id,
            keys,
            rows,
            i + 1,
        )
    } else {
        w
    }
}

/// The keys of a table.
pub open spec fn keys_of<W>(rows: Rows<W>) -> Seq<Str> {
    Seq::new(rows.len(), |i: int| rows[i].0)
}

pub fn table_keys<V: View>(table: &Table<V>) -> (r: Vec<String>)
    ensures
        texts(r@) == keys_of(table@),
{
    let mut out: Vec<String> = Vec::new();
    let mut i: usize = 0;
    while i < table.entries.len()
        invariant
            i <= table.entries@.len(),
            out@.len() == i,
            forall|j: int| 0 <= j < i ==> (#[trigger] out@[j])@ == table.entries@[j].0@,
        decreases table.entries.len() - i,
    {
        out.push(table.entries[i].0.clone());
        i += 1;
    }
    assert(texts(out@) =~= keys_of(table@));
    out
}

impl ExecutionContext {
    pub fn new_frame(
        &mut self,
        names: Table<ZapValue>,
        parent: Option<usize>,
        base: Option<String>,
    ) -> (r: usize)
        ensures
            (r, final(self)@) == new_frame(old(self)@, names@, parent, opt_text(base)),
    {
        let id: usize = self.frames.len();
        self.frames.push(Frame { names, parent, base });
        assert(self@.frames =~= new_frame(old(self)@, names@, parent, opt_text(base)).1.frames);
        assert(self@ =~= new_frame(old(self)@, names@, parent, opt_text(base)).1);
        id
    }

    /// A new empty frame inside another one.
    pub fn child_frame(&mut self, parent: usize) -> (r: usize)
        ensures
            (r, final(self)@) == new_frame(old(self)@, Seq::empty(), Some(parent), None),
    {
        self.new_frame(Table::new(), Some(parent), None)
    }

    fn parent_of(&self, id: usize) -> (r: Option<usize>)
        ensures
            match r {
                Some(p) => parent_of(self@.frames, id as int) == Some(p as int) && p < id,
                None => parent_of(self@.frames, id as int) is None,
            },
    {
        if id < self.frames.len() {
            assert(self@.frames[id as int] == self.frames@[id as int]@);
            match self.frames[id].parent {
                Some(p) => if p < id {
                    Some(p)
                } else {
                    None
                },
                None => None,
            }
        } else {
            None
        }
    }

    pub fn snapshot(&self, id: usize) -> (r: Table<ZapValue>)
        ensures
            r@ == snapshot(self@.frames, id as int),
        decreases id,
    {
        if id >= self.frames.len() {
            return Table::new();
        }
        assert(self@.frames[id as int] == self.frames@[id as int]@);
        let mut names = match self.parent_of(id) {
            Some(p) => self.snapshot(p),
            None => Table::new(),
        };
        extend_table(&mut names, &self.frames[id].names);
        names
    }

    fn holder(&self, id: usize, name: &str) -> (r: Option<usize>)
        ensures
            match r {
                Some(h) => holder(self@.frames, id as int, name@) == Some(h as int) && h
                    < self.frames.len(),
                None => holder(self@.frames, id as int, name@) is None,
            },
        decreases id,
    {
        if id >= self.frames.len() {
            return None;
        }
        assert(self@.frames[id as int] == self.frames@[id as int]@);
        if self.frames[id].names.holds(name) {
            return Some(id);
        }
        match self.parent_of(id) {
            Some(p) => self.holder(p, name),
            None => None,
        }
    }

    pub fn base_path(&self, id: usize) -> (r: Option<String>)
        ensures
            opt_text(r) == base_of(self@.frames, id as int),
        decreases id,
    {
        if id >= self.frames.len() {
            return None;
        }
        assert(self@.frames[id as int] == self.frames@[id as int]@);
        match &self.frames[id].base {
            Some(base) => Some(base.clone()),
            None => match self.parent_of(id) {
                Some(p) => self.base_path(p),
                None => None,
            },
        }
    }

    pub fn lookup(&self, id: usize, name: &str) -> (r: Option<&ZapValue>)
        ensures
            match r {
                Some(value) => lookup(self@.frames, id as int, name@) == Some(value@),
                None => lookup(self@.frames, id as int, name@) is None,
            },
    {
        match self.holder(id, name) {
            Some(h) => {
                assert(self@.frames[h as int] == self.frames@[h as int]@);
                self.frames[h].names.find(name)
            },
            None => None,
        }
    }

    fn set_names(&mut self, id: usize, names: Table<ZapValue>)
        ensures
            final(self)@ == with_names(old(self)@, id as int, names@),
    {
        if id < self.frames.len() {
            let parent = self.frames[id].parent;
            let base = copy_opt(&self.frames[id].base);
            self.frames.set(id, Frame { names, parent, base });
            assert(self@.frames =~= with_names(old(self)@, id as int, names@).frames);
        }
        assert(self@ =~= with_names(old(self)@, id as int, names@));
    }

    fn take_names(&mut self, id: usize) -> (r: Table<ZapValue>)
        ensures
            r@ == names_of(old(self)@, id as int),
            final(self)@ == with_names(old(self)@, id as int, Seq::empty()),
    {
        let mut names: Table<ZapValue> = Table::new();
        if id < self.frames.len() {
            let parent = self.frames[id].parent;
            let base = copy_opt(&self.frames[id].base);
            let mut emptied = Frame { names: Table::new(), parent, base };
            assert(self@.frames[id as int] == self.frames@[id as int]@);
            std::mem::swap(&mut self.frames[id], &mut emptied);
            names = emptied.names;
            assert(self@.frames =~= with_names(old(self)@, id as int, Seq::empty()).frames);
        }
        assert(self@ =~= with_names(old(self)@, id as int, Seq::empty()));
        names
    }

    pub fn insert_local(&mut self, id: usize, name: &str, value: ZapValue)
        ensures
            final(self)@ == insert_local(old(self)@, id as int, name@, value@),
    {
        let mut names = self.take_names(id);
        names.insert(name.to_owned(), value);
        self.set_names(id, names);
        assert(self@.frames =~= insert_local(old(self)@, id as int, name@, value@).frames);
        assert(self@ =~= insert_local(old(self)@, id as int, name@, value@));
    }

    pub fn remove_local(&mut self, id: usize, name: &str)
        ensures
            final(self)@ == remove_local(old(self)@, id as int, name@),
    {
        let mut names = self.take_names(id);
        names.remove(name);
        self.set_names(id, names);
        assert(self@.frames =~= remove_local(old(self)@, id as int, name@).frames);
        assert(self@ =~= remove_local(old(self)@, id as int, name@));
    }

    pub fn get_local(&self, id: usize, name: &str) -> (r: Option<ZapValue>)
        ensures
            match r {
                Some(value) => get(names_of(self@, id as int), name@) == Some(value@),
                None => get(names_of(self@, id as int), name@) is None,
            },
    {
        if id < self.frames.len() {
            assert(self@.frames[id as int] == self.frames@[id as int]@);
            match self.frames[id].names.find(name) {
                Some(value) => Some(value.copy()),
                None => None,
            }
        } else {
            proof {
                crate::table::lemma_slot(Seq::<(Str, Val)>::empty(), name@, 0);
            }
            None
        }
    }

    pub fn assign(&mut self, id: usize, name: &str, value: ZapValue)
        ensures
            final(self)@ == assign(old(self)@, id as int, name@, value@),
    {
        match self.holder(id, name) {
            Some(h) => self.insert_local(h, name, value),
            None => self.insert_local(id, name, value),
        }
    }

    pub fn sync_from_snapshot(&mut self, id: usize, rows: &Table<ZapValue>)
        ensures
            final(self)@ == assign_all(old(self)@, id as int, rows@, 0),
    {
        let mut i: usize = 0;
        while i < rows.entries.len()
            invariant
                i <= rows.entries@.len(),
                assign_all(old(self)@, id as int, rows@, 0) == assign_all(
                    self@,
                    id as int,
                    rows@,
                    i as int,
                ),
            decreases rows.entries.len() - i,
        {
            let value = rows.entries[i].1.copy();
            self.assign(id, rows.entries[i].0.as_str(), value);
            i += 1;
        }
    }

    pub fn sync_captured(&mut self, id: usize, keys: &Vec<String>, rows: &Table<ZapValue>)
        ensures
            final(self)@ == assign_keys(old(self)@, id as int, texts(keys@), rows@, 0),
    {
        let mut i: usize = 0;
        while i < keys.len()
            invariant
                i <= keys@.len(),
                assign_keys(old(self)@, id as int, texts(keys@), rows@, 0) == assign_keys(
                    self@,
                    id as int,
                    texts(keys@),
                    rows@,
                    i as int,
                ),
            decreases keys.len() - i,
        {
            match rows.find(keys[i].as_str()) {
                Some(value) => {
                    let value = value.copy();
                    self.assign(id, keys[i].as_str(), value);
                },
                None => {},
            }
            i += 1;
        }
    }

    /// The names that a function sees through its closure.
    pub fn capture_keys(&self, id: usize) -> (r: Vec<String>)
        ensures
            texts(r@) == keys_of(snapshot(self@.frames, id as int)),
    {
        table_keys(&self.snapshot(id))
    }
}

// ---------------------------------------------------------------------------
// Depth, workspace, modules, output
// ---------------------------------------------------------------------------

pub open spec fn depth_error() -> Str {
    "execution depth limit exceeded: maximum is "@ + decimal(MAX_EXECUTION_DEPTH as int)
}

/// Enters one level of execution.
pub open spec fn enter_level(w: World) -> (Result<(), Str>, World) {
    if w.depth >= MAX_EXECUTION_DEPTH {
        (Err(depth_error()), w)
    } else {
        (Ok(()), World { depth: (w.depth + 1) as usize, ..w })
    }
}

pub open spec fn leave_level(w: World) -> World {
    World {
        depth: if w.depth > 0 {
            (w.depth - 1) as usize
        } else {
            0
        },
        ..w
    }
}

/// Says a line, unless a host call is pending: what follows such a call is not settled yet.
pub open spec fn say(w: World, line: Str) -> World {
    if w.pending is Some {
        w
    } else {
        World { output: w.output.push(line), ..w }
    }
}

pub open spec fn cache_module(w: World, path: Str, module: ModuleM) -> World {
    World { modules: put(w.modules, path, module), ..w }
}

pub open spec fn start_loading(w: World, path: Str) -> World {
    World { loading: w.loading.push(path), ..w }
}

pub open spec fn stop_loading(w: World) -> World {
    World {
        loading: if w.loading.len() > 0 {
            w.loading.drop_last()
        } else {
            w.loading
        },
        ..w
    }
}

impl Module {
    pub fn copy(&self) -> (r: Module)
        ensures
            r@ == self@,
    {
        Module { vars: copy_table(&self.vars), funcs: copy_functions(&self.funcs) }
    }
}

impl ExecutionContext {
    pub fn enter_level(&mut self) -> (r: Result<(), String>)
        ensures
            (told_unit(r), final(self)@) == enter_level(old(self)@),
    {
        if self.depth >= MAX_EXECUTION_DEPTH {
            return Err(
                join2(
                    "execution depth limit exceeded: maximum is ",
                    length_text(MAX_EXECUTION_DEPTH).as_str(),
                ),
            );
        }
        self.depth = self.depth + 1;
        assert(self@ =~= enter_level(old(self)@).1);
        Ok(())
    }

    pub fn leave_level(&mut self)
        ensures
            final(self)@ == leave_level(old(self)@),
    {
        if self.depth > 0 {
            self.depth = self.depth - 1;
        }
        assert(self@ =~= leave_level(old(self)@));
    }

    pub fn say(&mut self, line: String)
        ensures
            final(self)@ == say(old(self)@, line@),
    {
        if self.pending.is_none() {
            self.output.push(line);
            assert(self@.output =~= old(self)@.output.push(line@));
        }
        assert(self@ =~= say(old(self)@, line@));
    }

    pub fn cached_module(&self, path: &str) -> (r: Option<Module>)
        ensures
            match r {
                Some(module) => get(self@.modules, path@) == Some(module@),
                None => get(self@.modules, path@) is None,
            },
    {
        match self.modules.find(path) {
            Some(module) => Some(module.copy()),
            None => None,
        }
    }

    pub fn cache_module(&mut self, path: &str, module: Module)
        ensures
            final(self)@ == cache_module(old(self)@, path@, module@),
    {
        self.modules.insert(path.to_owned(), module);
        assert(self@ =~= cache_module(old(self)@, path@, module@));
    }

    pub fn start_loading(&mut self, path: &str)
        ensures
            final(self)@ == start_loading(old(self)@, path@),
    {
        self.loading.push(path.to_owned());
        assert(self@.loading =~= start_loading(old(self)@, path@).loading);
        assert(self@ =~= start_loading(old(self)@, path@));
    }

    pub fn stop_loading(&mut self)
        ensures
            final(self)@ == stop_loading(old(self)@),
    {
        let last = self.loading.pop();
        assert(self@.loading =~= stop_loading(old(self)@).loading);
        assert(self@ =~= stop_loading(old(self)@));
    }
}

// ---------------------------------------------------------------------------
// Host calls
// ---------------------------------------------------------------------------

pub open spec fn pending_error() -> Str {
    "host call pending"@
}

/// The reply to the next host call. Without one the call is left pending, unless an earlier one
/// is, and the run fails.
pub open spec fn ask(w: World, operation: Str, arguments: Seq<Val>) -> (Result<Val, Str>, World) {
    if w.cursor < w.replies.len() {
        (w.replies[w.cursor as int], World { cursor: (w.cursor + 1) as usize, ..w })
    } else {
        (
            Err(pending_error()),
            if w.pending is Some {
                w
            } else {
                World { pending: Some(CallM { operation, arguments }), ..w }
            },
        )
    }
}

pub fn copy_reply(reply: &Result<ZapValue, String>) -> (r: Result<ZapValue, String>)
    ensures
        told(r) == told(*reply),
{
    match reply {
        Ok(value) => Ok(value.copy()),
        Err(error) => Err(error.clone()),
    }
}

impl ExecutionContext {
    pub fn ask(&mut self, operation: &str, arguments: Vec<ZapValue>) -> (r: Result<ZapValue, String>)
        ensures
            (told(r), final(self)@) == ask(old(self)@, operation@, views(arguments@)),
    {
        if self.cursor < self.replies.len() {
            let reply = copy_reply(&self.replies[self.cursor]);
            self.cursor = self.cursor + 1;
            assert(self@ =~= ask(old(self)@, operation@, views(arguments@)).1);
            reply
        } else {
            if self.pending.is_none() {
                self.pending = Some(HostCall { operation: operation.to_owned(), arguments });
            }
            assert(self@ =~= ask(old(self)@, operation@, views(arguments@)).1);
            fail("host call pending")
        }
    }

    pub fn is_pending(&self) -> (r: bool)
        ensures
            r == (self@.pending is Some),
    {
        self.pending.is_some()
    }
}

// ---------------------------------------------------------------------------
// Values in hand
// ---------------------------------------------------------------------------

pub open spec fn hold(w: World, hand: HandM) -> World {
    World { hands: w.hands.push(hand), ..w }
}

/// Keeps values in hand.
pub open spec fn hold_values(w: World, values: Seq<Val>) -> World {
    hold(w, HandM { values, frames: Seq::empty() })
}

pub open spec fn row_values(rows: Rows<Val>) -> Seq<Val> {
    Seq::new(rows.len(), |i: int| rows[i].1)
}

pub open spec fn closures(funcs: Rows<Fun>) -> Seq<usize> {
    Seq::new(funcs.len(), |i: int| funcs[i].1.closure)
}

/// Keeps the variables and the functions of a scope in hand.
pub open spec fn hold_scope(w: World, vars: Rows<Val>, funcs: Rows<Fun>) -> World {
    hold(w, HandM { values: row_values(vars), frames: closures(funcs) })
}

/// Lets go what was taken in hand last.
pub open spec fn let_go(w: World) -> World {
    World {
        hands: if w.hands.len() > 0 {
            w.hands.drop_last()
        } else {
            w.hands
        },
        ..w
    }
}

impl ExecutionContext {
    /// Keeps values in hand, from number `from` on, and frames.
    pub fn hold(&mut self, values: Rc<Vec<ZapValue>>, from: usize, frames: Vec<usize>)
        ensures
            final(self)@ == hold(
                old(self)@,
                HandM {
                    values: if from <= values@.len() {
                        views(values@).skip(from as int)
                    } else {
                        Seq::empty()
                    },
                    frames: frames@,
                },
            ),
    {
        let hand = Hand { values, from, frames };
        let ghost kept = hand@;
        self.hands.push(hand);
        assert(self@.hands =~= old(self)@.hands.push(kept));
        assert(self@ =~= hold(old(self)@, kept));
    }

    /// Keeps values in hand.
    pub fn hold_values(&mut self, values: Vec<ZapValue>)
        ensures
            final(self)@ == hold_values(old(self)@, views(values@)),
    {
        let none: Vec<usize> = Vec::new();
        assert(views(values@).skip(0) =~= views(values@));
        assert(none@ =~= Seq::<usize>::empty());
        self.hold(Rc::new(values), 0, none);
    }

    /// Keeps a copy of a value in hand.
    pub fn hold_value(&mut self, value: &ZapValue)
        ensures
            final(self)@ == hold_values(old(self)@, seq![value@]),
    {
        let mut values: Vec<ZapValue> = Vec::new();
        values.push(value.copy());
        assert(views(values@) =~= seq![value@]);
        self.hold_values(values);
    }

    /// Keeps copies of the values of a table in hand.
    pub fn hold_table(&mut self, table: &Table<ZapValue>)
        ensures
            final(self)@ == hold_values(old(self)@, row_values(table@)),
    {
        let values = copy_values(table);
        self.hold_values(values);
    }

    /// Keeps the variables and the functions of a scope in hand.
    pub fn hold_scope(&mut self, vars: &Table<ZapValue>, funcs: &Functions)
        ensures
            final(self)@ == hold_scope(old(self)@, vars@, funcs@),
    {
        let values = copy_values(vars);
        let mut frames: Vec<usize> = Vec::new();
        let mut i: usize = 0;
        while i < funcs.entries.len()
            invariant
                i <= funcs.entries@.len(),
                frames@.len() == i,
                forall|j: int| 0 <= j < i ==> #[trigger] frames@[j] == funcs@[j].1.closure,
            decreases funcs.entries.len() - i,
        {
            assert(funcs@[i as int].1 == funcs.entries@[i as int].1@);
            frames.push(funcs.entries[i].1.closure);
            i += 1;
        }
        assert(frames@ =~= closures(funcs@));
        assert(views(values@).skip(0) =~= row_values(vars@));
        self.hold(Rc::new(values), 0, frames);
    }

    /// Lets go what was taken in hand last.
    pub fn let_go(&mut self)
        ensures
            final(self)@ == let_go(old(self)@),
    {
        let last = self.hands.pop();
        assert(self@.hands =~= let_go(old(self)@).hands);
        assert(self@ =~= let_go(old(self)@));
    }
}

fn copy_values(table: &Table<ZapValue>) -> (r: Vec<ZapValue>)
    ensures
        views(r@) == row_values(table@),
{
    let mut values: Vec<ZapValue> = Vec::new();
    let mut i: usize = 0;
    while i < table.entries.len()
        invariant
            i <= table.entries@.len(),
            values@.len() == i,
            forall|j: int| 0 <= j < i ==> (#[trigger] values@[j])@ == table@[j].1,
        decreases table.entries.len() - i,
    {
        values.push(table.entries[i].1.copy());
        i += 1;
    }
    assert(views(values@) =~= row_values(table@));
    values
}

} // verus!
