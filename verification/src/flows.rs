//! How statements lead on: loops, branches, blocks, raised errors, declarations and lines.

use crate::annotations::checked;
use crate::ast::{ExprM, StmtM};
use crate::builtins::MAX_LOOP_ITERATIONS;
use crate::host::entered_workspace;
use crate::semantics::{eval, evaluated, for_lines, option_values, released, returned, run,
    run_for, run_from, run_lines, run_program, run_try, run_while, statement, while_lines, FlowM,
    Ran};
use crate::laws::law_assignments_are_seen;
use crate::table::{get, lemma_get_put_same, put, Rows};
use crate::text::{cut, Str};
use crate::value::{show, truthy, Fun, Val};
use crate::world::{assign, enter_level, hold_values, holder, insert_local, lookup, names_of,
    new_frame, snapshot, World};
use vstd::prelude::*;

verus! {

/// Whether a run ends with a `break` or a `continue` that no loop has taken.
pub open spec fn leaves_a_loop(ran: Ran) -> bool {
    ran.flow matches Ok(flow) && (flow is Break || flow is LoopContinue)
}

/// Whether a run ends with a `return` or a raised error.
pub open spec fn leaves_its_function(ran: Ran) -> bool {
    ran.flow matches Ok(flow) && (flow is Return || flow is Raise)
}

// ---------------------------------------------------------------------------
// Loops
// ---------------------------------------------------------------------------

proof fn lemma_while_keeps_breaks(
    condition: ExprM,
    body: Seq<StmtM>,
    count: nat,
    vars: Rows<Val>,
    funcs: Rows<Fun>,
    w: World,
    base: Str,
    frame: usize,
    fuel: nat,
)
    ensures
        !leaves_a_loop(run_while(condition, body, count, vars, funcs, w, base, frame, fuel)),
    decreases MAX_LOOP_ITERATIONS - count,
{
    let w1 = eval(condition, vars, funcs, w, fuel).1;
    let ran = run(body, vars, funcs, w1, base, frame, fuel);
    if count + 1 < MAX_LOOP_ITERATIONS {
        lemma_while_keeps_breaks(
            condition,
            body,
            count + 1,
            ran.vars,
            ran.funcs,
            ran.world,
            base,
            frame,
            fuel,
        );
    }
}

proof fn lemma_for_keeps_breaks(
    binding: Str,
    items: Seq<Val>,
    i: nat,
    body: Seq<StmtM>,
    vars: Rows<Val>,
    funcs: Rows<Fun>,
    w: World,
    base: Str,
    frame: usize,
    fuel: nat,
)
    ensures
        !leaves_a_loop(run_for(binding, items, i, body, vars, funcs, w, base, frame, fuel)),
    decreases items.len() - i,
{
    if i < items.len() {
        let inside = hold_values(
            assign(w, frame as int, binding, items[i as int]),
            items.skip(i as int + 1),
        );
        let ran = released(run(body, vars, funcs, inside, base, frame, fuel));
        lemma_for_keeps_breaks(
            binding,
            items,
            i + 1,
            body,
            ran.vars,
            ran.funcs,
            ran.world,
            base,
            frame,
            fuel,
        );
    }
}

/// A loop keeps its `break` and its `continue` to itself: it never ends with one of them, so it
/// never ends the loop or the program around it.
pub proof fn law_loops_keep_their_breaks(
    s: StmtM,
    vars: Rows<Val>,
    funcs: Rows<Fun>,
    w: World,
    base: Str,
    frame: usize,
    fuel: nat,
)
    requires
        s is While || s is For,
    ensures
        !leaves_a_loop(statement(s, vars, funcs, w, base, frame, fuel)),
{
    match s {
        StmtM::While { condition, body } => {
            lemma_while_keeps_breaks(condition, body, 0, vars, funcs, w, base, frame, fuel);
        },
        StmtM::For { binding, iterable, body } => {
            let (r, after) = eval(iterable, vars, funcs, w, fuel);
            if let Ok(Val::List(items)) = r {
                lemma_for_keeps_breaks(
                    binding,
                    items,
                    0,
                    body,
                    vars,
                    funcs,
                    after,
                    base,
                    frame,
                    fuel,
                );
            }
        },
        _ => {},
    }
}

/// A `break` ends a `while` loop, and the program goes on behind it with what the body left.
pub proof fn law_breaks_end_loops(
    condition: ExprM,
    body: Seq<StmtM>,
    vars: Rows<Val>,
    funcs: Rows<Fun>,
    w: World,
    base: Str,
    frame: usize,
    fuel: nat,
)
    requires
        eval(condition, vars, funcs, w, fuel).0 is Ok,
        truthy(eval(condition, vars, funcs, w, fuel).0->Ok_0),
        run(
            body,
            vars,
            funcs,
            eval(condition, vars, funcs, w, fuel).1,
            base,
            frame,
            fuel,
        ).flow == Ok::<FlowM, Str>(FlowM::Break),
    ensures
        ({
            let ran = run(
                body,
                vars,
                funcs,
                eval(condition, vars, funcs, w, fuel).1,
                base,
                frame,
                fuel,
            );
            let ended = statement(
                StmtM::While { condition, body },
                vars,
                funcs,
                w,
                base,
                frame,
                fuel,
            );
            &&& ended.flow == Ok::<FlowM, Str>(FlowM::Continue)
            &&& ended.vars == ran.vars && ended.funcs == ran.funcs && ended.world == ran.world
        }),
{
}

/// A `while` loop whose condition is false does nothing but evaluate it; one whose condition
/// fails, fails.
pub proof fn law_loops_end_with_their_condition(
    condition: ExprM,
    body: Seq<StmtM>,
    vars: Rows<Val>,
    funcs: Rows<Fun>,
    w: World,
    base: Str,
    frame: usize,
    fuel: nat,
)
    ensures
        ({
            let (r, after) = eval(condition, vars, funcs, w, fuel);
            let ended = statement(
                StmtM::While { condition, body },
                vars,
                funcs,
                w,
                base,
                frame,
                fuel,
            );
            &&& r is Ok && !truthy(r->Ok_0) ==> ended == (Ran {
                flow: Ok(FlowM::Continue),
                vars,
                funcs,
                world: after,
            })
            &&& r is Err ==> ended == (Ran { flow: Err(r->Err_0), vars, funcs, world: after })
        }),
{
}

/// A body that runs to its end, or to a `continue`, is followed by the loop anew: the condition is
/// evaluated again with what the body left. After 100000 rounds the loop fails.
pub proof fn law_loops_go_round(
    condition: ExprM,
    body: Seq<StmtM>,
    count: nat,
    vars: Rows<Val>,
    funcs: Rows<Fun>,
    w: World,
    base: Str,
    frame: usize,
    fuel: nat,
)
    requires
        eval(condition, vars, funcs, w, fuel).0 is Ok,
        truthy(eval(condition, vars, funcs, w, fuel).0->Ok_0),
    ensures
        ({
            let w1 = eval(condition, vars, funcs, w, fuel).1;
            let ran = run(body, vars, funcs, w1, base, frame, fuel);
            let whole = run_while(condition, body, count, vars, funcs, w, base, frame, fuel);
            &&& (ran.flow == Ok::<FlowM, Str>(FlowM::Continue) || ran.flow == Ok::<FlowM, Str>(
                FlowM::LoopContinue,
            )) && count + 1 < 100_000 ==> whole == run_while(
                condition,
                body,
                count + 1,
                ran.vars,
                ran.funcs,
                ran.world,
                base,
                frame,
                fuel,
            )
            &&& (ran.flow == Ok::<FlowM, Str>(FlowM::Continue) || ran.flow == Ok::<FlowM, Str>(
                FlowM::LoopContinue,
            )) && count + 1 >= 100_000 ==> whole.flow is Err
            &&& ran.flow is Err ==> whole == ran
            &&& leaves_its_function(ran) ==> whole == ran
        }),
{
}

/// A `for` loop binds each item in its turn, with the body run on it; `continue` leads to the next
/// item, `break` behind the loop, and a `return`, a raised error or a failure out of it.
pub proof fn law_for_loops_take_each_item(
    binding: Str,
    items: Seq<Val>,
    i: nat,
    body: Seq<StmtM>,
    vars: Rows<Val>,
    funcs: Rows<Fun>,
    w: World,
    base: Str,
    frame: usize,
    fuel: nat,
)
    requires
        frame < w.frames.len(),
    ensures
        i >= items.len() ==> run_for(binding, items, i, body, vars, funcs, w, base, frame, fuel) == (
        Ran { flow: Ok(FlowM::Continue), vars, funcs, world: w }),
        i < items.len() ==> ({
            let bound = assign(w, frame as int, binding, items[i as int]);
            let ran = released(
                run(
                    body,
                    vars,
                    funcs,
                    hold_values(bound, items.skip(i as int + 1)),
                    base,
                    frame,
                    fuel,
                ),
            );
            let whole = run_for(binding, items, i, body, vars, funcs, w, base, frame, fuel);
            &&& lookup(bound.frames, frame as int, binding) == Some(items[i as int])
            &&& (ran.flow == Ok::<FlowM, Str>(FlowM::Continue) || ran.flow == Ok::<FlowM, Str>(
                FlowM::LoopContinue,
            )) ==> whole == run_for(
                binding,
                items,
                i + 1,
                body,
                ran.vars,
                ran.funcs,
                ran.world,
                base,
                frame,
                fuel,
            )
            &&& ran.flow == Ok::<FlowM, Str>(FlowM::Break) ==> whole == (Ran {
                flow: Ok(FlowM::Continue),
                ..ran
            })
            &&& ran.flow is Err ==> whole == ran
            &&& leaves_its_function(ran) ==> whole == ran
        }),
{
    if i < items.len() {
        law_assignments_are_seen(w, frame as int, binding, items[i as int]);
    }
}

/// A `for` loop goes through a list from its first item on; anything else, and a list of more than
/// 100000 items, is an error.
pub proof fn law_for_loops_begin_with_the_first_item(
    binding: Str,
    iterable: ExprM,
    body: Seq<StmtM>,
    vars: Rows<Val>,
    funcs: Rows<Fun>,
    w: World,
    base: Str,
    frame: usize,
    fuel: nat,
)
    ensures
        ({
            let (r, after) = eval(iterable, vars, funcs, w, fuel);
            let whole = statement(
                StmtM::For { binding, iterable, body },
                vars,
                funcs,
                w,
                base,
                frame,
                fuel,
            );
            &&& r is Err ==> whole.flow == Err::<FlowM, Str>(r->Err_0)
            &&& r is Ok && !(r->Ok_0 is List) ==> whole.flow == Err::<FlowM, Str>(
                "for expects a list"@,
            )
            &&& r is Ok && r->Ok_0 is List && r->Ok_0->List_0.len() > 100_000 ==> whole.flow is Err
            &&& r is Ok && r->Ok_0 is List && r->Ok_0->List_0.len() <= 100_000 ==> whole == run_for(
                binding,
                r->Ok_0->List_0,
                0,
                body,
                vars,
                funcs,
                after,
                base,
                frame,
                fuel,
            )
        }),
{
}

// ---------------------------------------------------------------------------
// Branches and blocks
// ---------------------------------------------------------------------------

/// An `if` runs the one branch that its condition chooses, and without an `else` nothing.
pub proof fn law_branches(
    condition: ExprM,
    yes: Seq<StmtM>,
    no: Option<Seq<StmtM>>,
    vars: Rows<Val>,
    funcs: Rows<Fun>,
    w: World,
    base: Str,
    frame: usize,
    fuel: nat,
)
    ensures
        ({
            let (r, after) = eval(condition, vars, funcs, w, fuel);
            let taken = statement(
                StmtM::If { condition, then_branch: yes, else_branch: no },
                vars,
                funcs,
                w,
                base,
                frame,
                fuel,
            );
            &&& r is Ok && truthy(r->Ok_0) ==> taken == run(
                yes,
                vars,
                funcs,
                after,
                base,
                frame,
                fuel,
            )
            &&& r is Ok && !truthy(r->Ok_0) && no is Some ==> taken == run(
                no->0,
                vars,
                funcs,
                after,
                base,
                frame,
                fuel,
            )
            &&& r is Ok && !truthy(r->Ok_0) && no is None ==> taken == (Ran {
                flow: Ok(FlowM::Continue),
                vars,
                funcs,
                world: after,
            })
            &&& r is Err ==> taken.flow == Err::<FlowM, Str>(r->Err_0)
        }),
{
}

/// A statement that ends well is followed by the next one; any other stops the block there, with
/// what it left. Each statement sees the variables of the frame as they are when it begins.
pub proof fn law_statements_follow_each_other(
    program: Seq<StmtM>,
    i: nat,
    vars: Rows<Val>,
    funcs: Rows<Fun>,
    w: World,
    base: Str,
    frame: usize,
    fuel: nat,
)
    ensures
        i < program.len() ==> ({
            let seen = snapshot(w.frames, frame as int);
            let ran = statement(program[i as int], seen, funcs, w, base, frame, fuel);
            let rest = run_from(program, i, vars, funcs, w, base, frame, fuel);
            &&& ran.flow == Ok::<FlowM, Str>(FlowM::Continue) ==> rest == run_from(
                program,
                i + 1,
                ran.vars,
                ran.funcs,
                ran.world,
                base,
                frame,
                fuel,
            )
            &&& ran.flow != Ok::<FlowM, Str>(FlowM::Continue) ==> rest == ran
        }),
        i >= program.len() ==> run_from(program, i, vars, funcs, w, base, frame, fuel) == (Ran {
            flow: Ok(FlowM::Continue),
            vars,
            funcs,
            world: w,
        }),
{
}

/// A block that can be entered runs from its first statement on and ends as its statements do.
pub proof fn law_blocks_end_as_their_statements(
    program: Seq<StmtM>,
    vars: Rows<Val>,
    funcs: Rows<Fun>,
    w: World,
    base: Str,
    frame: usize,
    fuel: nat,
)
    requires
        fuel > 0,
        w.workspace is Some,
        w.depth < 256,
        program.len() <= 100_000,
    ensures
        ({
            let inside = run_from(
                program,
                0,
                vars,
                funcs,
                enter_level(w).1,
                base,
                frame,
                (fuel - 1) as nat,
            );
            let ran = run(program, vars, funcs, w, base, frame, fuel);
            &&& enter_level(w).1.depth == w.depth + 1
            &&& enter_level(w).1.frames == w.frames
            &&& ran.flow == inside.flow && ran.vars == inside.vars && ran.funcs == inside.funcs
            &&& ran.world.frames == inside.world.frames
            &&& ran.world.output == inside.world.output
        }),
{
    reveal(entered_workspace);
}

/// Blocks that are nested 256 levels deep take no further one, and no block has more than 100000
/// statements.
pub proof fn law_blocks_are_bounded(
    program: Seq<StmtM>,
    vars: Rows<Val>,
    funcs: Rows<Fun>,
    w: World,
    base: Str,
    frame: usize,
    fuel: nat,
)
    requires
        w.depth >= 256 || program.len() > 100_000,
    ensures
        run(program, vars, funcs, w, base, frame, fuel).flow is Err,
        run(program, vars, funcs, w, base, frame, fuel).vars == vars,
{
    reveal(entered_workspace);
}

/// The statement behind a loop that was broken off is executed, with what the loop left.
pub proof fn law_programs_go_on_behind_broken_loops(
    program: Seq<StmtM>,
    i: nat,
    condition: ExprM,
    body: Seq<StmtM>,
    vars: Rows<Val>,
    funcs: Rows<Fun>,
    w: World,
    base: Str,
    frame: usize,
    fuel: nat,
)
    requires
        i < program.len(),
        program[i as int] == (StmtM::While { condition, body }),
        ({
            let seen = snapshot(w.frames, frame as int);
            let (r, w1) = eval(condition, seen, funcs, w, fuel);
            &&& r is Ok && truthy(r->Ok_0)
            &&& run(body, seen, funcs, w1, base, frame, fuel).flow == Ok::<FlowM, Str>(FlowM::Break)
        }),
    ensures
        ({
            let seen = snapshot(w.frames, frame as int);
            let w1 = eval(condition, seen, funcs, w, fuel).1;
            let ran = run(body, seen, funcs, w1, base, frame, fuel);
            run_from(program, i, vars, funcs, w, base, frame, fuel) == run_from(
                program,
                i + 1,
                ran.vars,
                ran.funcs,
                ran.world,
                base,
                frame,
                fuel,
            )
        }),
{
    let seen = snapshot(w.frames, frame as int);
    law_breaks_end_loops(condition, body, seen, funcs, w, base, frame, fuel);
    law_statements_follow_each_other(program, i, vars, funcs, w, base, frame, fuel);
}

// ---------------------------------------------------------------------------
// Statements that leave
// ---------------------------------------------------------------------------

/// `break`, `continue` and `return` say how they leave, and do nothing else. A value that is
/// returned or raised is that of the expression.
pub proof fn law_statements_that_leave(
    e: ExprM,
    vars: Rows<Val>,
    funcs: Rows<Fun>,
    w: World,
    base: Str,
    frame: usize,
    fuel: nat,
)
    ensures
        statement(StmtM::Break, vars, funcs, w, base, frame, fuel) == (Ran {
            flow: Ok(FlowM::Break),
            vars,
            funcs,
            world: w,
        }),
        statement(StmtM::Continue, vars, funcs, w, base, frame, fuel) == (Ran {
            flow: Ok(FlowM::LoopContinue),
            vars,
            funcs,
            world: w,
        }),
        statement(StmtM::Return(None), vars, funcs, w, base, frame, fuel) == (Ran {
            flow: Ok(FlowM::Return(Val::Nil)),
            vars,
            funcs,
            world: w,
        }),
        ({
            let (r, after) = eval(e, vars, funcs, w, fuel);
            &&& r is Ok && !(e is Propagate) ==> statement(
                StmtM::Return(Some(e)),
                vars,
                funcs,
                w,
                base,
                frame,
                fuel,
            ) == (Ran { flow: Ok(FlowM::Return(r->Ok_0)), vars, funcs, world: after })
            &&& r is Ok ==> statement(StmtM::Raise(e), vars, funcs, w, base, frame, fuel) == (Ran {
                flow: Ok(FlowM::Raise(r->Ok_0)),
                vars,
                funcs,
                world: after,
            })
            &&& r is Ok ==> statement(StmtM::Expression(e), vars, funcs, w, base, frame, fuel) == (
            Ran { flow: Ok(FlowM::Continue), vars, funcs, world: after })
            &&& r is Err ==> statement(StmtM::Raise(e), vars, funcs, w, base, frame, fuel).flow
                == Err::<FlowM, Str>(r->Err_0)
            &&& r is Err ==> statement(StmtM::Expression(e), vars, funcs, w, base, frame, fuel).flow
                == Err::<FlowM, Str>(r->Err_0)
        }),
{
}

/// An error or an empty option behind which a question mark stands leaves the function with that
/// value, in a declaration, an assignment and a `return` alike; what a success or an option holds
/// goes on in its place.
pub proof fn law_question_marks_leave_functions(
    e: ExprM,
    name: Str,
    exported: bool,
    vars: Rows<Val>,
    funcs: Rows<Fun>,
    w: World,
    base: Str,
    frame: usize,
    fuel: nat,
)
    requires
        eval(e, vars, funcs, w, fuel).0 is Ok,
        eval(e, vars, funcs, w, fuel).0->Ok_0 is ResultErr || eval(
            e,
            vars,
            funcs,
            w,
            fuel,
        ).0->Ok_0 is OptionNone,
    ensures
        ({
            let asked = ExprM::Propagate(Box::new(e));
            let (r, after) = eval(e, vars, funcs, w, fuel);
            let left = Ran { flow: Ok(FlowM::Return(r->Ok_0)), vars, funcs, world: after };
            &&& statement(
                StmtM::Declaration { name, annotation: None, value: asked, exported },
                vars,
                funcs,
                w,
                base,
                frame,
                fuel,
            ) == left
            &&& statement(
                StmtM::Assignment { name, value: asked },
                vars,
                funcs,
                w,
                base,
                frame,
                fuel,
            ) == left
            &&& statement(StmtM::Return(Some(asked)), vars, funcs, w, base, frame, fuel) == left
        }),
{
}

/// What is said is the text of the value, behind all that has been said.
pub proof fn law_saying(
    e: ExprM,
    vars: Rows<Val>,
    funcs: Rows<Fun>,
    w: World,
    base: Str,
    frame: usize,
    fuel: nat,
)
    requires
        eval(e, vars, funcs, w, fuel).0 is Ok,
        eval(e, vars, funcs, w, fuel).1.pending is None,
    ensures
        ({
            let (r, after) = eval(e, vars, funcs, w, fuel);
            let ran = statement(StmtM::Say(e), vars, funcs, w, base, frame, fuel);
            &&& ran.flow == Ok::<FlowM, Str>(FlowM::Continue)
            &&& ran.world.output.len() == after.output.len() + 1
            &&& ran.world.output.drop_last() == after.output
            &&& ran.world.output.last() == show(r->Ok_0)
            &&& ran.world.frames == after.frames
        }),
{
    let after = eval(e, vars, funcs, w, fuel).1;
    let text = show(eval(e, vars, funcs, w, fuel).0->Ok_0);
    assert(after.output.push(text).drop_last() =~= after.output);
}

// ---------------------------------------------------------------------------
// Variables
// ---------------------------------------------------------------------------

/// A declared variable has the value that it was declared with, in the frame of the declaration,
/// whatever frames outside hold under its name.
pub proof fn law_declared_variables_are_seen(
    name: Str,
    e: ExprM,
    exported: bool,
    vars: Rows<Val>,
    funcs: Rows<Fun>,
    w: World,
    base: Str,
    frame: usize,
    fuel: nat,
)
    requires
        !(e is Propagate),
        eval(e, vars, funcs, w, fuel).0 is Ok,
        frame < eval(e, vars, funcs, w, fuel).1.frames.len(),
        !exported,
    ensures
        ({
            let ran = statement(
                StmtM::Declaration { name, annotation: None, value: e, exported },
                vars,
                funcs,
                w,
                base,
                frame,
                fuel,
            );
            &&& ran.flow == Ok::<FlowM, Str>(FlowM::Continue)
            &&& lookup(ran.world.frames, frame as int, name) == Some(
                eval(e, vars, funcs, w, fuel).0->Ok_0,
            )
        }),
{
    let (r, after) = eval(e, vars, funcs, w, fuel);
    lemma_bound(after, frame, name, r->Ok_0);
}

/// A value that does not have the annotated type is not declared: the statement fails and every
/// frame stays as it is.
pub proof fn law_wrong_types_are_not_declared(
    name: Str,
    annotation: Str,
    e: ExprM,
    exported: bool,
    vars: Rows<Val>,
    funcs: Rows<Fun>,
    w: World,
    base: Str,
    frame: usize,
    fuel: nat,
)
    requires
        !(e is Propagate),
        eval(e, vars, funcs, w, fuel).0 is Ok,
    ensures
        ({
            let (r, after) = eval(e, vars, funcs, w, fuel);
            let ran = statement(
                StmtM::Declaration { name, annotation: Some(annotation), value: e, exported },
                vars,
                funcs,
                w,
                base,
                frame,
                fuel,
            );
            &&& ran.flow is Ok <==> checked(name, annotation, r->Ok_0) is Ok
            &&& ran.flow is Err ==> ran.world == after
            &&& ran.flow is Ok && !exported ==> ran == statement(
                StmtM::Declaration { name, annotation: None, value: e, exported },
                vars,
                funcs,
                w,
                base,
                frame,
                fuel,
            )
        }),
{
}

/// An assignment to a plain name is seen from the frame that it stands in.
pub proof fn law_assigned_variables_are_seen(
    name: Str,
    e: ExprM,
    vars: Rows<Val>,
    funcs: Rows<Fun>,
    w: World,
    base: Str,
    frame: usize,
    fuel: nat,
)
    requires
        cut(name, "."@) is None,
        !(e is Propagate),
        eval(e, vars, funcs, w, fuel).0 is Ok,
        frame < eval(e, vars, funcs, w, fuel).1.frames.len(),
    ensures
        ({
            let ran = statement(
                StmtM::Assignment { name, value: e },
                vars,
                funcs,
                w,
                base,
                frame,
                fuel,
            );
            &&& ran.flow == Ok::<FlowM, Str>(FlowM::Continue)
            &&& lookup(ran.world.frames, frame as int, name) == Some(
                eval(e, vars, funcs, w, fuel).0->Ok_0,
            )
        }),
{
    let (r, after) = eval(e, vars, funcs, w, fuel);
    law_assignments_are_seen(after, frame as int, name, r->Ok_0);
}

/// A program that ends well leaves its variables as its outermost frame then sees them; one that
/// fails leaves no frame's view behind but what the failing run gave.
pub proof fn law_programs_leave_their_variables(
    program: Seq<StmtM>,
    vars: Rows<Val>,
    funcs: Rows<Fun>,
    w: World,
    base: Str,
    fuel: nat,
)
    ensures
        ({
            let (frame, w1) = new_frame(w, vars, None, Some(base));
            let inside = run(program, vars, funcs, w1, base, frame, fuel);
            let ran = run_program(program, vars, funcs, w, base, fuel);
            &&& w1.frames.len() == w.frames.len() + 1
            &&& w1.frames.last().names == vars
            &&& w1.frames.last().parent is None
            &&& ran.flow == inside.flow
            &&& ran.funcs == inside.funcs
            &&& ran.world == inside.world
            &&& ran.flow is Ok ==> ran.vars == snapshot(inside.world.frames, frame as int)
        }),
{
}

// ---------------------------------------------------------------------------
// Raised errors
// ---------------------------------------------------------------------------

/// Only a raised error is caught: a block that ends in any other way, a failure too, ends the
/// `try` in that way.
pub proof fn law_other_ends_are_not_caught(
    body: Seq<StmtM>,
    binding: Str,
    catch_body: Seq<StmtM>,
    vars: Rows<Val>,
    funcs: Rows<Fun>,
    w: World,
    base: Str,
    frame: usize,
    fuel: nat,
)
    requires
        !(run(body, vars, funcs, w, base, frame, fuel).flow is Ok && run(
            body,
            vars,
            funcs,
            w,
            base,
            frame,
            fuel,
        ).flow->Ok_0 is Raise),
    ensures
        run_try(body, binding, catch_body, vars, funcs, w, base, frame, fuel) == run(
            body,
            vars,
            funcs,
            w,
            base,
            frame,
            fuel,
        ),
{
}

/// A raised error is bound to its name while the other block runs, and that block says how the
/// whole ends.
pub proof fn law_raised_errors_are_caught(
    error: Val,
    body: Seq<StmtM>,
    binding: Str,
    catch_body: Seq<StmtM>,
    vars: Rows<Val>,
    funcs: Rows<Fun>,
    w: World,
    base: Str,
    frame: usize,
    fuel: nat,
)
    requires
        run(body, vars, funcs, w, base, frame, fuel).flow == Ok::<FlowM, Str>(FlowM::Raise(error)),
        frame < run(body, vars, funcs, w, base, frame, fuel).world.frames.len(),
    ensures
        ({
            let tried = run(body, vars, funcs, w, base, frame, fuel);
            let inside = hold_values(
                insert_local(tried.world, frame as int, binding, error),
                option_values(get(names_of(tried.world, frame as int), binding)),
            );
            let caught = run(catch_body, tried.vars, tried.funcs, inside, base, frame, fuel);
            let whole = run_try(body, binding, catch_body, vars, funcs, w, base, frame, fuel);
            &&& lookup(inside.frames, frame as int, binding) == Some(error)
            &&& whole.flow == caught.flow
            &&& whole.vars == caught.vars && whole.funcs == caught.funcs
        }),
{
    let tried = run(body, vars, funcs, w, base, frame, fuel);
    lemma_bound(tried.world, frame, binding, error);
}

proof fn lemma_bound(w: World, frame: usize, name: Str, value: Val)
    requires
        frame < w.frames.len(),
    ensures
        lookup(insert_local(w, frame as int, name, value).frames, frame as int, name) == Some(
            value,
        ),
{
    lemma_get_put_same(names_of(w, frame as int), name, value);
    let next = insert_local(w, frame as int, name, value);
    assert(holder(next.frames, frame as int, name) == Some(frame as int));
}

/// A function returns what its body returns, and nothing where the body ends without a `return`.
/// A `break` outside a loop and a raised error are errors of the call.
pub proof fn law_calls_return_what_bodies_return(flow: FlowM)
    ensures
        flow is Return ==> returned(flow) == Ok::<Val, Str>(flow->Return_0),
        flow is Continue ==> returned(flow) == Ok::<Val, Str>(Val::Nil),
        flow is Break || flow is LoopContinue || flow is Raise ==> returned(flow) is Err,
{
}

// ---------------------------------------------------------------------------
// Lines
// ---------------------------------------------------------------------------

proof fn lemma_while_lines_keep_breaks(
    condition: Str,
    body: Seq<Str>,
    count: nat,
    vars: Rows<Val>,
    funcs: Rows<Fun>,
    w: World,
    base: Str,
    fuel: nat,
)
    ensures
        !leaves_a_loop(while_lines(condition, body, count, vars, funcs, w, base, fuel)),
    decreases MAX_LOOP_ITERATIONS - count,
{
    let w1 = evaluated(condition, vars, funcs, w, fuel).1;
    let ran = run_lines(body, vars, funcs, w1, base, fuel);
    if count + 1 < MAX_LOOP_ITERATIONS {
        lemma_while_lines_keep_breaks(
            condition,
            body,
            count + 1,
            ran.vars,
            ran.funcs,
            ran.world,
            base,
            fuel,
        );
    }
}

proof fn lemma_for_lines_keep_breaks(
    name: Str,
    items: Seq<Val>,
    i: nat,
    body: Seq<Str>,
    vars: Rows<Val>,
    funcs: Rows<Fun>,
    w: World,
    base: Str,
    fuel: nat,
)
    ensures
        !leaves_a_loop(for_lines(name, items, i, body, vars, funcs, w, base, fuel)),
    decreases items.len() - i,
{
    if i < items.len() {
        let ran = released(
            run_lines(
                body,
                put(vars, name, items[i as int]),
                funcs,
                hold_values(w, items.skip(i as int + 1)),
                base,
                fuel,
            ),
        );
        lemma_for_lines_keep_breaks(
            name,
            items,
            i + 1,
            body,
            ran.vars,
            ran.funcs,
            ran.world,
            base,
            fuel,
        );
    }
}

/// Loops in source lines keep their `break` and `continue` to themselves too.
pub proof fn law_line_loops_keep_their_breaks(
    condition: Str,
    name: Str,
    items: Seq<Val>,
    body: Seq<Str>,
    vars: Rows<Val>,
    funcs: Rows<Fun>,
    w: World,
    base: Str,
    fuel: nat,
)
    ensures
        !leaves_a_loop(while_lines(condition, body, 0, vars, funcs, w, base, fuel)),
        !leaves_a_loop(for_lines(name, items, 0, body, vars, funcs, w, base, fuel)),
{
    lemma_while_lines_keep_breaks(condition, body, 0, vars, funcs, w, base, fuel);
    lemma_for_lines_keep_breaks(name, items, 0, body, vars, funcs, w, base, fuel);
}

/// A loop in source lines goes round as long as its condition holds, ends at a `break` with what
/// the body left, and is left by a `return`, a raised error or a failure.
pub proof fn law_line_loops_go_round(
    condition: Str,
    body: Seq<Str>,
    count: nat,
    vars: Rows<Val>,
    funcs: Rows<Fun>,
    w: World,
    base: Str,
    fuel: nat,
)
    ensures
        ({
            let (r, w1) = evaluated(condition, vars, funcs, w, fuel);
            let ran = run_lines(body, vars, funcs, w1, base, fuel);
            let whole = while_lines(condition, body, count, vars, funcs, w, base, fuel);
            &&& r is Err ==> whole.flow == Err::<FlowM, Str>(r->Err_0)
            &&& r is Ok && !truthy(r->Ok_0) ==> whole == (Ran {
                flow: Ok(FlowM::Continue),
                vars,
                funcs,
                world: w1,
            })
            &&& r is Ok && truthy(r->Ok_0) ==> {
                &&& ran.flow == Ok::<FlowM, Str>(FlowM::Break) ==> whole == (Ran {
                    flow: Ok(FlowM::Continue),
                    ..ran
                })
                &&& (ran.flow == Ok::<FlowM, Str>(FlowM::Continue) || ran.flow == Ok::<FlowM, Str>(
                    FlowM::LoopContinue,
                )) && count + 1 < 100_000 ==> whole == while_lines(
                    condition,
                    body,
                    count + 1,
                    ran.vars,
                    ran.funcs,
                    ran.world,
                    base,
                    fuel,
                )
                &&& (ran.flow == Ok::<FlowM, Str>(FlowM::Continue) || ran.flow == Ok::<FlowM, Str>(
                    FlowM::LoopContinue,
                )) && count + 1 >= 100_000 ==> whole.flow is Err
                &&& ran.flow is Err ==> whole == ran
                &&& leaves_its_function(ran) ==> whole == ran
            }
        }),
{
}

/// A `for` in source lines binds each item in its turn.
pub proof fn law_line_loops_take_each_item(
    name: Str,
    items: Seq<Val>,
    i: nat,
    body: Seq<Str>,
    vars: Rows<Val>,
    funcs: Rows<Fun>,
    w: World,
    base: Str,
    fuel: nat,
)
    ensures
        i >= items.len() ==> for_lines(name, items, i, body, vars, funcs, w, base, fuel) == (Ran {
            flow: Ok(FlowM::Continue),
            vars,
            funcs,
            world: w,
        }),
        i < items.len() ==> ({
            let local = put(vars, name, items[i as int]);
            let ran = released(
                run_lines(
                    body,
                    local,
                    funcs,
                    hold_values(w, items.skip(i as int + 1)),
                    base,
                    fuel,
                ),
            );
            let whole = for_lines(name, items, i, body, vars, funcs, w, base, fuel);
            &&& get(local, name) == Some(items[i as int])
            &&& (ran.flow == Ok::<FlowM, Str>(FlowM::Continue) || ran.flow == Ok::<FlowM, Str>(
                FlowM::LoopContinue,
            )) ==> whole == for_lines(
                name,
                items,
                i + 1,
                body,
                ran.vars,
                ran.funcs,
                ran.world,
                base,
                fuel,
            )
            &&& ran.flow == Ok::<FlowM, Str>(FlowM::Break) ==> whole == (Ran {
                flow: Ok(FlowM::Continue),
                ..ran
            })
            &&& ran.flow is Err ==> whole == ran
            &&& leaves_its_function(ran) ==> whole == ran
        }),
{
    if i < items.len() {
        lemma_get_put_same(vars, name, items[i as int]);
    }
}

} // verus!
